//! The registry cache policy: a namespaced cache directory layout, and
//! the freshness rules for its two manifest kinds.  Reading file ages and
//! bytes from disk is the caller's job; the decisions about them are made
//! here.

use vstd::prelude::*;

use crate::text::{chars_of, push_str_chars, string_from_chars};
use vstd::string::StringSliceAdditionalSpecFns;

verus! {

/// How long stale data may still be served when a caller opts in, in
/// milliseconds: thirty days.
pub const STALE_MAX_AGE_MS: u64 = 2592000000u64;

/// The on-disk cache: its root directory and the two freshness windows.
pub struct CacheStore {
    pub root: String,
    pub registry_ttl_ms: u64,
    pub asset_ttl_ms: u64,
}

/// A description of the cache for reporting.
#[derive(Debug)]
pub struct CacheInfo {
    pub path: String,
    pub registry_ttl_ms: u64,
    pub asset_ttl_ms: u64,
}

/// One registry's corner of the cache.
pub struct RegistryCache {
    pub root: String,
    pub registry_ttl_ms: u64,
    pub asset_ttl_ms: u64,
}

/// Cached bytes, marked fresh when they were within their TTL.
pub struct CachedData {
    pub bytes: Vec<u8>,
    pub fresh: bool,
}

/// What the URL-safe unpadded base64 alphabet encodes `s` to.
pub uninterp spec fn b64url_of(s: Seq<u8>) -> Seq<char>;

/// Relies on base64's `URL_SAFE_NO_PAD` engine `encode`: the encoded text
/// of the given bytes.
#[verifier::external_body]
fn b64url_encode(value: &str) -> (r: String)
    ensures
        r@ == b64url_of(value.spec_bytes()),
{
    base64::Engine::encode(&base64::engine::general_purpose::URL_SAFE_NO_PAD, value)
}

/// The directory name a registry source is filed under: a URL-safe
/// encoding, so distinct sources never collide in the file system.
pub open spec fn spec_namespace_dir(value: Seq<u8>) -> Seq<char> {
    "registry-"@ + b64url_of(value)
}

/// Encodes a registry source identifier into its cache directory name.
pub fn sanitize_namespace(value: &str) -> (r: String)
    ensures
        r@ == spec_namespace_dir(value.spec_bytes()),
{
    let encoded = b64url_encode(value);
    let mut out: Vec<char> = Vec::new();
    push_str_chars(&mut out, "registry-");
    push_str_chars(&mut out, encoded.as_str());
    proof {
        assert(out@ =~= "registry-"@ + encoded@);
    }
    string_from_chars(&out)
}

impl CacheStore {
    /// A store rooted at `root` with the given freshness windows.
    pub fn from_path(root: String, registry_ttl_ms: u64, asset_ttl_ms: u64) -> (r: CacheStore)
        ensures
            r.root == root,
            r.registry_ttl_ms == registry_ttl_ms,
            r.asset_ttl_ms == asset_ttl_ms,
    {
        CacheStore { root, registry_ttl_ms, asset_ttl_ms }
    }

    /// The store's location and windows, for reporting.
    pub fn info(&self) -> (r: CacheInfo)
        ensures
            r.path@ == self.root@,
            r.registry_ttl_ms == self.registry_ttl_ms,
            r.asset_ttl_ms == self.asset_ttl_ms,
    {
        CacheInfo {
            path: self.root.clone(),
            registry_ttl_ms: self.registry_ttl_ms,
            asset_ttl_ms: self.asset_ttl_ms,
        }
    }

    /// The registry-scoped cache under this store: its directory is the
    /// namespaced encoding of the source identifier.
    pub fn scoped(&self, namespace: &str) -> (r: RegistryCache)
        ensures
            r.root@ == self.root@ + seq!['/'] + spec_namespace_dir(namespace.spec_bytes()),
            r.registry_ttl_ms == self.registry_ttl_ms,
            r.asset_ttl_ms == self.asset_ttl_ms,
    {
        let safe = sanitize_namespace(namespace);
        let mut out = chars_of(self.root.as_str());
        out.push('/');
        push_str_chars(&mut out, safe.as_str());
        proof {
            assert(out@ =~= self.root@ + seq!['/'] + safe@);
        }
        RegistryCache {
            root: string_from_chars(&out),
            registry_ttl_ms: self.registry_ttl_ms,
            asset_ttl_ms: self.asset_ttl_ms,
        }
    }
}

/// The freshness rule: data within its TTL is fresh; beyond it, it may
/// still be served as stale when the caller allows it and it is within
/// the maximum tolerated age; otherwise it is unusable.
pub open spec fn spec_cache_read(
    age_ms: u64,
    ttl_ms: u64,
    allow_stale: bool,
    bytes: Seq<u8>,
) -> Option<(Seq<u8>, bool)> {
    if age_ms <= ttl_ms {
        Some((bytes, true))
    } else if allow_stale && age_ms <= STALE_MAX_AGE_MS {
        Some((bytes, false))
    } else {
        None
    }
}

impl RegistryCache {
    /// Where the catalog manifest is cached.
    pub fn registry_manifest_path(&self) -> (r: String)
        ensures
            r@ == self.root@ + seq!['/'] + "registry.json"@,
    {
        let mut out = chars_of(self.root.as_str());
        out.push('/');
        push_str_chars(&mut out, "registry.json");
        proof {
            assert(out@ =~= self.root@ + seq!['/'] + "registry.json"@);
        }
        string_from_chars(&out)
    }

    /// Where the component-file manifest is cached.
    pub fn components_manifest_path(&self) -> (r: String)
        ensures
            r@ == self.root@ + seq!['/'] + "components.json"@,
    {
        let mut out = chars_of(self.root.as_str());
        out.push('/');
        push_str_chars(&mut out, "components.json");
        proof {
            assert(out@ =~= self.root@ + seq!['/'] + "components.json"@);
        }
        string_from_chars(&out)
    }

    /// Decides what a read of the catalog manifest yields, given the
    /// cached file's age and bytes as the caller found them.
    pub fn registry_manifest(&self, age_ms: u64, bytes: Vec<u8>, allow_stale: bool) -> (r: Option<
        CachedData,
    >)
        ensures
            match r {
                Some(d) => spec_cache_read(age_ms, self.registry_ttl_ms, allow_stale, bytes@)
                    == Some((d.bytes@, d.fresh)),
                None => spec_cache_read(age_ms, self.registry_ttl_ms, allow_stale, bytes@)
                    is None,
            },
    {
        cache_read(age_ms, self.registry_ttl_ms, allow_stale, bytes)
    }

    /// Decides what a read of the component-file manifest yields, given
    /// the cached file's age and bytes as the caller found them.
    pub fn components_manifest(&self, age_ms: u64, bytes: Vec<u8>, allow_stale: bool) -> (r:
        Option<CachedData>)
        ensures
            match r {
                Some(d) => spec_cache_read(age_ms, self.asset_ttl_ms, allow_stale, bytes@)
                    == Some((d.bytes@, d.fresh)),
                None => spec_cache_read(age_ms, self.asset_ttl_ms, allow_stale, bytes@) is None,
            },
    {
        cache_read(age_ms, self.asset_ttl_ms, allow_stale, bytes)
    }
}

/// Applies the freshness rule to one cached file.
fn cache_read(age_ms: u64, ttl_ms: u64, allow_stale: bool, bytes: Vec<u8>) -> (r: Option<
    CachedData,
>)
    ensures
        match r {
            Some(d) => spec_cache_read(age_ms, ttl_ms, allow_stale, bytes@) == Some(
                (d.bytes@, d.fresh),
            ),
            None => spec_cache_read(age_ms, ttl_ms, allow_stale, bytes@) is None,
        },
{
    if age_ms <= ttl_ms {
        Some(CachedData { bytes, fresh: true })
    } else if allow_stale && age_ms <= STALE_MAX_AGE_MS {
        Some(CachedData { bytes, fresh: false })
    } else {
        None
    }
}

} // verus!
