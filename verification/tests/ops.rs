use base64::Engine as _;
use motion_core::cache::{CacheStore, sanitize_namespace, STALE_MAX_AGE_MS};
use motion_core::operations::cache::{run as cache_run, CacheError, CacheOptions, CacheResult};
use motion_core::operations::init::{
    install_base_dependencies, BaseDependencyReport, ConfigState, DependencyReport,
};
use motion_core::operations::list::{run as list_run, ListOptions};
use motion_core::planner::PackageSnapshot;
use motion_core::project::{
    detect_framework, detect_package_manager, parse_major, DirLockfiles, FrameworkKind,
    PackageManagerKind,
};
use motion_core::registry::Registry;
use motion_core::resolution::{select_resolution_mode, ResolutionMode};
use motion_core::strmap::StrMap;

#[test]
fn run_returns_registry_content() {
    let registry = Registry::new("Test Registry".to_string(), "1.0.0".to_string());
    let result = list_run(&registry, ListOptions { json: false });
    assert_eq!(result.summary.name, "Test Registry");
    assert_eq!(result.summary.version, "1.0.0");
    assert!(result.components.is_empty());
}

#[test]
fn list_derived_traits_work() {
    let opts = ListOptions { json: false };
    let _ = format!("{:?}", opts);
    let registry = Registry::new("test".to_string(), "0.0.0".to_string());
    let res = list_run(&registry, opts);
    let _ = format!("{:?}", res.summary);
}

#[test]
fn cache_derived_traits_work() {
    let opts = CacheOptions { clear: false, force: false };
    let _ = format!("{:?}", opts);
    let store = CacheStore::from_path(".".to_string(), 0, 0);
    let res = CacheResult { info: store.info(), cleared: false };
    let _ = format!("{:?}", res);
}

#[test]
fn cache_clear_requires_force() {
    let store = CacheStore::from_path("/tmp/cache".to_string(), 600000, 86400000);
    let result = cache_run(&store, CacheOptions { clear: false, force: false }).expect("run");
    assert!(!result.cleared);
    assert_eq!(result.info.path, "/tmp/cache");

    let err = cache_run(&store, CacheOptions { clear: true, force: false }).unwrap_err();
    assert!(matches!(err, CacheError::ConfirmationRequired));

    let cleared = cache_run(&store, CacheOptions { clear: true, force: true }).expect("run");
    assert!(cleared.cleared);
}

#[test]
fn cache_freshness_policy() {
    let store = CacheStore::from_path("/tmp/cache".to_string(), 1000, 2000);
    let scoped = store.scoped("https://registry.motion-core.dev");
    // fresh within the TTL
    let fresh = scoped.registry_manifest(500, b"data".to_vec(), false).expect("fresh");
    assert!(fresh.fresh);
    assert_eq!(fresh.bytes, b"data");
    // stale only when allowed
    assert!(scoped.registry_manifest(1500, b"data".to_vec(), false).is_none());
    let stale = scoped.registry_manifest(1500, b"data".to_vec(), true).expect("stale");
    assert!(!stale.fresh);
    // nothing beyond the ceiling
    assert!(scoped.registry_manifest(STALE_MAX_AGE_MS + 1, b"data".to_vec(), true).is_none());
}

#[test]
fn scoped_namespaces_are_encoded() {
    let encoded = base64::engine::general_purpose::URL_SAFE_NO_PAD.encode("https://a/b");
    assert_eq!(sanitize_namespace("https://a/b"), format!("registry-{}", encoded));
    let store = CacheStore::from_path("/root".to_string(), 0, 0);
    let scoped = store.scoped("https://a/b");
    assert_eq!(scoped.root, format!("/root/registry-{}", encoded));
    assert_eq!(
        scoped.registry_manifest_path(),
        format!("/root/registry-{}/registry.json", encoded)
    );
}

#[test]
fn detect_package_manager_prefers_nearest_lockfile() {
    let none = DirLockfiles {
        pnpm_lock: false,
        yarn_lock: false,
        bun_lockb: false,
        bun_lock: false,
        package_lock: false,
    };
    let npm = DirLockfiles { package_lock: true, ..none };
    let pnpm = DirLockfiles { pnpm_lock: true, ..none };
    assert_eq!(detect_package_manager(&vec![none, npm]), PackageManagerKind::Npm);
    assert_eq!(detect_package_manager(&vec![pnpm, npm]), PackageManagerKind::Pnpm);
    assert_eq!(detect_package_manager(&vec![none]), PackageManagerKind::Unknown);
    // priority within one directory
    let both = DirLockfiles { yarn_lock: true, package_lock: true, ..none };
    assert_eq!(detect_package_manager(&vec![both]), PackageManagerKind::Yarn);
}

#[test]
fn detects_framework_and_versions() {
    let mut snapshot = PackageSnapshot::empty();
    snapshot.dependencies.insert("svelte".to_string(), "^5.0.0".to_string());
    snapshot.dependencies.insert("@sveltejs/kit".to_string(), "latest".to_string());
    snapshot.dev_dependencies.insert("tailwindcss".to_string(), "4.1.0".to_string());
    let detection = detect_framework(&snapshot);
    assert_eq!(detection.framework, FrameworkKind::SvelteKit);
    assert!(detection.is_svelte_supported);
    assert!(detection.tailwind_supported);
    assert_eq!(detection.svelte_version, Some("^5.0.0".to_string()));
}

#[test]
fn parse_major_reads_leading_digits() {
    assert_eq!(parse_major("^5.0.0"), Some(5));
    assert_eq!(parse_major("  >=14.2.1 "), Some(14));
    assert_eq!(parse_major("latest"), None);
    assert_eq!(parse_major("4"), Some(4));
}

#[test]
fn base_dependency_decision_mirrors_the_apply_engine() {
    let mut base = StrMap::new();
    base.insert("clsx".to_string(), "^2.1.1".to_string());
    let empty = PackageSnapshot::empty();
    let manual = install_base_dependencies(&base, &empty, PackageManagerKind::Unknown, false);
    assert!(matches!(manual, DependencyReport::Manual(_)));
    let dry = install_base_dependencies(&base, &empty, PackageManagerKind::Npm, true);
    assert!(matches!(dry, DependencyReport::DryRun(_)));
    let install = install_base_dependencies(&base, &empty, PackageManagerKind::Npm, false);
    match &install {
        DependencyReport::Installed(v) => assert_eq!(v, &vec!["clsx@^2.1.1".to_string()]),
        _ => panic!("expected install"),
    }
    let report = BaseDependencyReport { runtime: install, dev: DependencyReport::AlreadyInstalled };
    assert!(report.changed());
    assert!(ConfigState::Created("x".to_string()).changed());
    assert!(!ConfigState::AlreadyExists("x".to_string()).changed());
}

#[test]
fn resolution_mode_precedence() {
    assert_eq!(select_resolution_mode(true, true, false, false, true), ResolutionMode::DryRun);
    assert_eq!(select_resolution_mode(false, true, false, false, true), ResolutionMode::AssumeYes);
    assert_eq!(select_resolution_mode(false, false, true, false, true), ResolutionMode::AssumeYes);
    assert_eq!(select_resolution_mode(false, false, false, true, true), ResolutionMode::AssumeYes);
    assert_eq!(
        select_resolution_mode(false, false, false, false, true),
        ResolutionMode::Interactive
    );
    assert_eq!(
        select_resolution_mode(false, false, false, false, false),
        ResolutionMode::AssumeYes
    );
}

#[test]
fn export_names_are_identifier_safe() {
    assert_eq!(motion_core::planner::format_export_name("glass-pane"), "GlassPane");
    assert_eq!(motion_core::planner::format_export_name("a_b2-c"), "AB2C");
    assert_eq!(motion_core::planner::format_export_name("--"), "");
    assert_eq!(
        motion_core::planner::entry_export_name("glass-pane", "/ws/x/GlassPaneItem.svelte", 1),
        "GlassPaneItem"
    );
    assert_eq!(
        motion_core::planner::entry_export_name("glass-pane", "/ws/x/GlassPaneItem.svelte", 0),
        "GlassPane"
    );
}
