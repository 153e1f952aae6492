//! The command-level operations: listing the catalog, inspecting the
//! cache, and the init decisions.

pub mod cache;
pub mod init;
pub mod list;
