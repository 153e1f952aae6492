//! The cache inspection operation: reporting the cache location and
//! deciding whether a clear may proceed.  Deleting the directory is the
//! caller's job.

use vstd::prelude::*;

use crate::cache::{CacheInfo, CacheStore};

verus! {

/// Options of the cache operation.
#[derive(Clone, Copy, PartialEq, Eq, Debug, Structural)]
pub struct CacheOptions {
    pub clear: bool,
    pub force: bool,
}

/// What the cache operation decided: the cache's description, and whether
/// the caller is to clear it.
#[derive(Debug)]
pub struct CacheResult {
    pub info: CacheInfo,
    pub cleared: bool,
}

/// What can go wrong deciding about the cache.
#[derive(Debug)]
pub enum CacheError {
    ConfirmationRequired,
    ClearFailed(String),
}

/// Reports the cache and decides a clear: clearing demands the force
/// flag; without the clear flag nothing is to be removed.
pub fn run(store: &CacheStore, options: CacheOptions) -> (r: Result<CacheResult, CacheError>)
    ensures
        match r {
            Ok(res) => {
                &&& res.info.path@ == store.root@
                &&& res.info.registry_ttl_ms == store.registry_ttl_ms
                &&& res.info.asset_ttl_ms == store.asset_ttl_ms
                &&& res.cleared == options.clear
                &&& (options.clear ==> options.force)
            },
            Err(e) => e is ConfirmationRequired && options.clear && !options.force,
        },
{
    let info = store.info();
    if options.clear {
        if !options.force {
            return Err(CacheError::ConfirmationRequired);
        }
        Ok(CacheResult { info, cleared: true })
    } else {
        Ok(CacheResult { info, cleared: false })
    }
}

} // verus!
