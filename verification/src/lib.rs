//! Verified core of a component-library installer: planning and applying
//! component installs into a workspace, with a path sanitizer, a semver
//! satisfaction checker, a registry cache policy, a barrel renderer and a
//! conflict resolver.

pub mod args;
pub mod cache;
pub mod components;
pub mod config;
pub mod operations;
pub mod paths;
pub mod pkg_manager;
pub mod planner;
pub mod project;
pub mod registry;
pub mod resolution;
pub mod strmap;
pub mod text;
pub mod versions;
pub mod workspace;

