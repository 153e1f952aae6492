//! The command-line surface of each command, as plain data.  Argument
//! parsing itself happens outside the library; these carry what it
//! produced.

use vstd::prelude::*;

verus! {

/// Arguments of the component install command.
pub struct AddArgs {
    pub components: Vec<String>,
    pub dry_run: bool,
    pub assume_yes: bool,
}

/// Arguments of the cache inspection command.
#[derive(Clone, Copy, PartialEq, Eq, Debug, Structural)]
pub struct CacheArgs {
    pub clear: bool,
    pub force: bool,
}

/// Arguments of the workspace initialisation command.
#[derive(Clone, Copy, PartialEq, Eq, Debug, Structural)]
pub struct InitArgs {
    pub dry_run: bool,
}

/// Arguments of the catalog listing command.
#[derive(Clone, Copy, PartialEq, Eq, Debug, Structural)]
pub struct ListArgs {
    pub json: bool,
}

} // verus!
