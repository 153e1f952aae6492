//! The package-install request handed to the external package manager:
//! which manager, which packages, and whether they are dev dependencies.
//! Running the manager is the caller's job.

use vstd::prelude::*;

use crate::project::PackageManagerKind;

verus! {

/// A batch of packages to install through one package manager.
pub struct InstallPlan {
    pub manager: PackageManagerKind,
    pub packages: Vec<String>,
    pub dev: bool,
}

/// What can go wrong delegating to the package manager.
pub enum PackageManagerError {
    Unsupported(PackageManagerKind),
    Execution(String),
}

impl InstallPlan {
    /// An empty runtime-scope install for `manager`.
    pub fn new(manager: PackageManagerKind) -> (r: InstallPlan)
        ensures
            r.manager == manager,
            r.packages@.len() == 0,
            !r.dev,
    {
        InstallPlan { manager, packages: Vec::new(), dev: false }
    }

    /// Appends packages to the batch, keeping the earlier ones.
    pub fn add_packages(&mut self, packages: Vec<String>)
        ensures
            final(self).manager == old(self).manager,
            final(self).dev == old(self).dev,
            final(self).packages@ == old(self).packages@ + packages@,
    {
        let mut incoming = packages;
        self.packages.append(&mut incoming);
    }

    /// The same batch, aimed at the dev scope when `value` holds.
    pub fn dev(self, value: bool) -> (r: InstallPlan)
        ensures
            r.manager == self.manager,
            r.packages == self.packages,
            r.dev == value,
    {
        InstallPlan { manager: self.manager, packages: self.packages, dev: value }
    }

    /// Whether there is nothing to install.
    pub fn is_empty(&self) -> (r: bool)
        ensures
            r == (self.packages@.len() == 0),
    {
        self.packages.len() == 0
    }
}

} // verus!
