//! The workspace initialisation decisions: what the init command reports,
//! and the base-dependency install decision.  Scaffolding directories and
//! writing files happen outside the library.

use vstd::prelude::*;

use crate::planner::{DependencyAction, PackageSnapshot, spec_diff_deps, handle_dependencies};
use crate::project::{FrameworkDetection, PackageManagerKind};
use crate::strmap::StrMap;
use crate::workspace::{ScaffoldReport, TailwindSyncStatus};

verus! {

/// Options of the init operation.
#[derive(Clone, Copy, PartialEq, Eq, Debug, Structural)]
pub struct InitOptions {
    pub dry_run: bool,
}

/// Whether the workspace configuration existed, was created, or would be.
pub enum ConfigState {
    AlreadyExists(String),
    Created(String),
    WouldCreate(String),
}

impl ConfigState {
    /// Only a real creation counts as a change.
    pub fn changed(&self) -> (r: bool)
        ensures
            r == (self is Created),
    {
        match self {
            ConfigState::Created(_) => true,
            _ => false,
        }
    }
}

/// What happened to one base-dependency scope.
pub enum DependencyReport {
    AlreadyInstalled,
    Installed(Vec<String>),
    DryRun(Vec<String>),
    Manual(Vec<String>),
    Skipped(String),
}

impl DependencyReport {
    /// Only an actual install counts as a change.
    pub fn changed(&self) -> (r: bool)
        ensures
            r == (self is Installed),
    {
        match self {
            DependencyReport::Installed(_) => true,
            _ => false,
        }
    }
}

/// The base-dependency reports of both scopes.
pub struct BaseDependencyReport {
    pub runtime: DependencyReport,
    pub dev: DependencyReport,
}

impl BaseDependencyReport {
    /// Either scope changing counts.
    pub fn changed(&self) -> (r: bool)
        ensures
            r == (self.runtime is Installed || self.dev is Installed),
    {
        let a = self.runtime.changed();
        let b = self.dev.changed();
        a || b
    }
}

/// A warning the init operation surfaces without failing.
pub enum InitWarning {
    TailwindUnsupported(Option<String>),
    RegistryMetadataUnavailable(String),
}

/// What can go wrong initialising a workspace.
pub enum InitError {
    Project(String),
    UnsupportedSvelte(Option<String>),
    Config(String),
    Workspace(String),
    Registry(String),
    Other(String),
}

/// Everything the init operation reports.
pub struct InitResult {
    pub options: InitOptions,
    pub framework: FrameworkDetection,
    pub package_manager: PackageManagerKind,
    pub config_state: ConfigState,
    pub scaffold: ScaffoldReport,
    pub dependencies: BaseDependencyReport,
    pub tokens_status: TailwindSyncStatus,
    pub warnings: Vec<InitWarning>,
}

impl InitResult {
    /// Whether initialisation changed anything: never under dry-run, else
    /// when the configuration was created, the scaffold touched anything,
    /// a dependency scope installed, or the token stylesheet was updated.
    pub fn has_changes(&self) -> (r: bool)
        ensures
            r == (!self.options.dry_run && (self.config_state is Created
                || self.scaffold.directories@.len() > 0 || self.scaffold.files@.len() > 0
                || self.dependencies.runtime is Installed || self.dependencies.dev is Installed
                || self.tokens_status is Updated)),
    {
        if self.options.dry_run {
            false
        } else {
            let scaffold_any = self.scaffold.any();
            let deps = self.dependencies.changed();
            let tokens = match self.tokens_status {
                TailwindSyncStatus::Updated(_) => true,
                _ => false,
            };
            self.config_state.changed() || scaffold_any || deps || tokens
        }
    }
}

/// Decides what to do about one base-dependency scope, mirroring the
/// dependency handling of the apply engine: nothing to do, a manual note,
/// a dry-run preview, or the packages to hand to the package manager.
pub fn install_base_dependencies(
    base_dependencies: &StrMap,
    snapshot: &PackageSnapshot,
    package_manager: PackageManagerKind,
    dry_run: bool,
) -> (r: DependencyReport)
    requires
        base_dependencies.wf(),
        snapshot.wf(),
    ensures
        ({
            let missing = spec_diff_deps(base_dependencies@, *snapshot);
            if missing.len() == 0 {
                r is AlreadyInstalled
            } else if package_manager == PackageManagerKind::Unknown {
                r matches DependencyReport::Manual(v) && crate::planner::str_views(v@) == missing
            } else if dry_run {
                r matches DependencyReport::DryRun(v) && crate::planner::str_views(v@) == missing
            } else {
                r matches DependencyReport::Installed(v) && crate::planner::str_views(v@)
                    == missing
            }
        }),
{
    match handle_dependencies(base_dependencies, snapshot, package_manager, dry_run) {
        DependencyAction::AlreadyInstalled => DependencyReport::AlreadyInstalled,
        DependencyAction::Installed(v) => DependencyReport::Installed(v),
        DependencyAction::Manual(v) => DependencyReport::Manual(v),
        DependencyAction::DryRun(v) => DependencyReport::DryRun(v),
        DependencyAction::Skipped(s) => DependencyReport::Skipped(s),
    }
}

} // verus!
