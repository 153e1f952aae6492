use base64::Engine as _;
use motion_core::config::Config;
use motion_core::planner::{
    apply, plan, resolve_install_order, AddError, AddOptions, ApplyOptions, DependencyAction,
    DiskSnapshot, FileStatus, PackageSnapshot, PlannedFileStatus,
};
use motion_core::project::PackageManagerKind;
use motion_core::registry::{ComponentFileRecord, ComponentRecord, Registry};
use motion_core::resolution::{resolve_conflicts, ResolutionMode};
use motion_core::strmap::StrMap;

fn encode(text: &str) -> String {
    base64::engine::general_purpose::STANDARD.encode(text)
}

fn entry_file(path: &str) -> ComponentFileRecord {
    ComponentFileRecord {
        path: path.to_string(),
        target: None,
        kind: Some("entry".to_string()),
        type_exports: Vec::new(),
    }
}

fn component(name: &str, files: Vec<ComponentFileRecord>, deps: Vec<&str>) -> ComponentRecord {
    ComponentRecord {
        name: name.to_string(),
        description: None,
        category: None,
        preview: None,
        files,
        dependencies: StrMap::new(),
        dev_dependencies: StrMap::new(),
        internal_dependencies: deps.into_iter().map(|d| d.to_string()).collect(),
    }
}

fn glass_pane_registry() -> (Registry, StrMap) {
    let mut registry = Registry::new("Motion Core".to_string(), "0.1.0".to_string());
    registry.add_component(
        "glass-pane".to_string(),
        component(
            "Glass Pane",
            vec![entry_file("components/glass-pane/GlassPane.svelte")],
            vec![],
        ),
    );
    let mut manifest = StrMap::new();
    manifest.insert(
        "components/glass-pane/GlassPane.svelte".to_string(),
        encode("<script></script>"),
    );
    (registry, manifest)
}

fn plan_glass_pane(disk: &DiskSnapshot) -> motion_core::planner::AddPlan {
    let (registry, manifest) = glass_pane_registry();
    let config = Config::default();
    let options = AddOptions { components: vec!["glass-pane".to_string()] };
    plan(
        &config,
        "/workspace",
        &options,
        &registry,
        &manifest,
        disk,
        PackageManagerKind::Unknown,
        PackageSnapshot::empty(),
        String::new(),
    )
    .expect("plan")
}

#[test]
fn plan_creates_single_file_and_apply_reports_it() {
    // end to end: one entry file, nothing on disk
    let disk = DiskSnapshot::new();
    let the_plan = plan_glass_pane(&disk);
    assert_eq!(the_plan.install_order, vec!["glass-pane".to_string()]);
    assert_eq!(the_plan.planned_files.len(), 1);
    assert_eq!(the_plan.planned_files[0].status, PlannedFileStatus::Create);
    assert_eq!(
        the_plan.planned_files[0].destination,
        "/workspace/src/lib/motion-core/glass-pane/GlassPane.svelte"
    );
    let outcome = apply(&the_plan, &disk, ApplyOptions { dry_run: false });
    assert_eq!(outcome.files.len(), 1);
    assert_eq!(outcome.files[0].status, FileStatus::Created);
    assert!(outcome.exports_updated);
    assert!(outcome.has_changes(false));
    let barrel = outcome.rendered_barrel.expect("barrel text");
    assert!(barrel.contains("export { default as GlassPane } from \"./glass-pane/GlassPane.svelte\";"));
}

#[test]
fn second_apply_reports_no_changes() {
    // install once, let the disk reflect the writes, then install again
    let empty_disk = DiskSnapshot::new();
    let first = plan_glass_pane(&empty_disk);
    let first_outcome = apply(&first, &empty_disk, ApplyOptions { dry_run: false });

    let mut disk = DiskSnapshot::new();
    for pf in &first.planned_files {
        disk.record(pf.destination.clone(), pf.contents.clone());
    }
    let barrel_text = first_outcome.rendered_barrel.expect("first barrel");

    let (registry, manifest) = glass_pane_registry();
    let config = Config::default();
    let options = AddOptions { components: vec!["glass-pane".to_string()] };
    let second = plan(
        &config,
        "/workspace",
        &options,
        &registry,
        &manifest,
        &disk,
        PackageManagerKind::Unknown,
        PackageSnapshot::empty(),
        barrel_text,
    )
    .expect("second plan");
    for pf in &second.planned_files {
        assert_eq!(pf.status, PlannedFileStatus::Unchanged);
    }
    let outcome = apply(&second, &disk, ApplyOptions { dry_run: false });
    assert_eq!(outcome.files[0].status, FileStatus::Unchanged);
    assert!(!outcome.exports_updated);
    assert!(!outcome.has_changes(false));
}

#[test]
fn unknown_slug_fails_with_component_not_found() {
    let (registry, manifest) = glass_pane_registry();
    let config = Config::default();
    let options = AddOptions { components: vec!["missing".to_string()] };
    let disk = DiskSnapshot::new();
    let err = plan(
        &config,
        "/workspace",
        &options,
        &registry,
        &manifest,
        &disk,
        PackageManagerKind::Unknown,
        PackageSnapshot::empty(),
        String::new(),
    )
    ;
    let err = match err {
        Err(e) => e,
        Ok(_) => panic!("unknown slug must fail"),
    };
    match err {
        AddError::ComponentNotFound(slug) => assert_eq!(slug, "missing"),
        _ => panic!("unexpected error"),
    }
}

#[test]
fn install_order_covers_internal_dependencies() {
    let mut registry = Registry::new("Motion Core".to_string(), "0.1.0".to_string());
    registry.add_component(
        "grid".to_string(),
        component("Grid", vec![entry_file("components/grid/Grid.svelte")], vec!["pane"]),
    );
    registry.add_component(
        "pane".to_string(),
        component("Pane", vec![entry_file("components/pane/Pane.svelte")], vec![]),
    );
    let order = resolve_install_order(&vec!["grid".to_string()], &registry).expect("order");
    assert!(order.contains(&"grid".to_string()));
    assert!(order.contains(&"pane".to_string()));
    assert_eq!(order.len(), 2);
}

#[test]
fn missing_internal_dependency_fails_planning() {
    let mut registry = Registry::new("Motion Core".to_string(), "0.1.0".to_string());
    registry.add_component(
        "grid".to_string(),
        component("Grid", vec![entry_file("components/grid/Grid.svelte")], vec!["ghost"]),
    );
    let err = resolve_install_order(&vec!["grid".to_string()], &registry)
        .expect_err("missing dependency must fail");
    match err {
        AddError::ComponentNotFound(slug) => assert_eq!(slug, "ghost"),
        _ => panic!("unexpected error"),
    }
}

#[test]
fn cyclic_internal_dependencies_terminate() {
    let mut registry = Registry::new("Motion Core".to_string(), "0.1.0".to_string());
    registry.add_component(
        "a".to_string(),
        component("A", vec![entry_file("components/a/A.svelte")], vec!["b"]),
    );
    registry.add_component(
        "b".to_string(),
        component("B", vec![entry_file("components/b/B.svelte")], vec!["a"]),
    );
    let order = resolve_install_order(&vec!["a".to_string()], &registry).expect("order");
    assert_eq!(order.len(), 2);
}

#[test]
fn missing_asset_fails_with_registry_error() {
    let (registry, _) = glass_pane_registry();
    let config = Config::default();
    let options = AddOptions { components: vec!["glass-pane".to_string()] };
    let disk = DiskSnapshot::new();
    let empty_manifest = StrMap::new();
    let err = plan(
        &config,
        "/workspace",
        &options,
        &registry,
        &empty_manifest,
        &disk,
        PackageManagerKind::Unknown,
        PackageSnapshot::empty(),
        String::new(),
    )
    ;
    let err = match err {
        Err(e) => e,
        Ok(_) => panic!("missing asset must fail"),
    };
    match err {
        AddError::Registry(motion_core::registry::RegistryError::AssetNotFound(p)) => {
            assert_eq!(p, "components/glass-pane/GlassPane.svelte");
        }
        _ => panic!("unexpected error"),
    }
}

#[test]
fn conflicting_file_auto_overwrites_or_honours_decline() {
    // a destination already on disk with different bytes
    let mut disk = DiskSnapshot::new();
    disk.record(
        "/workspace/src/lib/motion-core/glass-pane/GlassPane.svelte".to_string(),
        b"<p>old</p>".to_vec(),
    );
    let mut auto_plan = plan_glass_pane(&disk);
    assert_eq!(auto_plan.planned_files[0].status, PlannedFileStatus::Update);

    // non-interactive: the conflict is auto-overwritten and the notice is due once
    let (prompts, notice) =
        resolve_conflicts(&mut auto_plan, ResolutionMode::AssumeYes, &Vec::new());
    assert_eq!(prompts.len(), 1);
    assert!(notice);
    assert!(auto_plan.planned_files[0].apply);
    let outcome = apply(&auto_plan, &disk, ApplyOptions { dry_run: false });
    assert_eq!(outcome.files[0].status, FileStatus::Updated);

    // interactive decline: the file is skipped
    let mut manual_plan = plan_glass_pane(&disk);
    let (prompts, notice) =
        resolve_conflicts(&mut manual_plan, ResolutionMode::Interactive, &vec![false]);
    assert_eq!(prompts.len(), 1);
    assert!(!notice);
    assert!(!manual_plan.planned_files[0].apply);
    let outcome = apply(&manual_plan, &disk, ApplyOptions { dry_run: false });
    assert_eq!(outcome.files[0].status, FileStatus::Skipped);
}

#[test]
fn dry_run_keeps_apply_flags_and_previews_installs() {
    let mut disk = DiskSnapshot::new();
    disk.record(
        "/workspace/src/lib/motion-core/glass-pane/GlassPane.svelte".to_string(),
        b"<p>old</p>".to_vec(),
    );
    let mut dry_plan = plan_glass_pane(&disk);
    let (prompts, notice) = resolve_conflicts(&mut dry_plan, ResolutionMode::DryRun, &Vec::new());
    assert_eq!(prompts.len(), 1);
    assert!(!notice);
    assert!(dry_plan.planned_files[0].apply);
    let outcome = apply(&dry_plan, &disk, ApplyOptions { dry_run: true });
    assert!(!outcome.has_changes(true));
}

#[test]
fn dependency_requirements_follow_snapshot() {
    let mut registry = Registry::new("Motion Core".to_string(), "0.1.0".to_string());
    let mut rec = component(
        "Glass Pane",
        vec![entry_file("components/glass-pane/GlassPane.svelte")],
        vec![],
    );
    rec.dependencies.insert("clsx".to_string(), "^2.1.1".to_string());
    registry.add_component("glass-pane".to_string(), rec);
    let mut manifest = StrMap::new();
    manifest.insert(
        "components/glass-pane/GlassPane.svelte".to_string(),
        encode("<script></script>"),
    );
    let config = Config::default();
    let options = AddOptions { components: vec!["glass-pane".to_string()] };
    let disk = DiskSnapshot::new();

    // nothing installed: with an unknown manager the action is manual
    let the_plan = plan(
        &config,
        "/workspace",
        &options,
        &registry,
        &manifest,
        &disk,
        PackageManagerKind::Unknown,
        PackageSnapshot::empty(),
        String::new(),
    )
    .expect("plan");
    let outcome = apply(&the_plan, &disk, ApplyOptions { dry_run: false });
    match &outcome.runtime {
        DependencyAction::Manual(pkgs) => assert_eq!(pkgs, &vec!["clsx@^2.1.1".to_string()]),
        _ => panic!("expected a manual install"),
    }

    // already satisfied: nothing to install
    let mut snapshot = PackageSnapshot::empty();
    snapshot.dependencies.insert("clsx".to_string(), "^2.1.1".to_string());
    let satisfied_plan = plan(
        &config,
        "/workspace",
        &options,
        &registry,
        &manifest,
        &disk,
        PackageManagerKind::Pnpm,
        snapshot,
        String::new(),
    )
    .expect("plan");
    let outcome = apply(&satisfied_plan, &disk, ApplyOptions { dry_run: false });
    assert!(matches!(outcome.runtime, DependencyAction::AlreadyInstalled));

    // missing with a known manager: handed to the installer
    let install_plan = plan(
        &config,
        "/workspace",
        &options,
        &registry,
        &manifest,
        &disk,
        PackageManagerKind::Pnpm,
        PackageSnapshot::empty(),
        String::new(),
    )
    .expect("plan");
    let outcome = apply(&install_plan, &disk, ApplyOptions { dry_run: false });
    match &outcome.runtime {
        DependencyAction::Installed(pkgs) => {
            assert_eq!(pkgs, &vec!["clsx@^2.1.1".to_string()])
        }
        _ => panic!("expected an install"),
    }
    assert!(outcome.has_changes(false));
}

#[test]
fn component_without_entry_is_reported_missing() {
    let mut registry = Registry::new("Motion Core".to_string(), "0.1.0".to_string());
    registry.add_component(
        "plain".to_string(),
        component(
            "Plain",
            vec![ComponentFileRecord {
                path: "components/plain/readme.txt".to_string(),
                target: None,
                kind: None,
                type_exports: Vec::new(),
            }],
            vec![],
        ),
    );
    let mut manifest = StrMap::new();
    manifest.insert("components/plain/readme.txt".to_string(), encode("hi"));
    let config = Config::default();
    let options = AddOptions { components: vec!["plain".to_string()] };
    let disk = DiskSnapshot::new();
    let the_plan = plan(
        &config,
        "/workspace",
        &options,
        &registry,
        &manifest,
        &disk,
        PackageManagerKind::Unknown,
        PackageSnapshot::empty(),
        String::new(),
    )
    .expect("plan");
    assert_eq!(the_plan.missing_entry_components, vec!["Plain".to_string()]);
    assert!(the_plan.installed_components.is_empty());
}

#[test]
fn multi_entry_component_names_later_entries_from_stems() {
    let mut registry = Registry::new("Motion Core".to_string(), "0.1.0".to_string());
    registry.add_component(
        "glass-pane".to_string(),
        component(
            "Glass Pane",
            vec![
                entry_file("components/glass-pane/GlassPane.svelte"),
                entry_file("components/glass-pane/GlassPaneItem.svelte"),
            ],
            vec![],
        ),
    );
    let mut manifest = StrMap::new();
    manifest.insert(
        "components/glass-pane/GlassPane.svelte".to_string(),
        encode("<script></script>"),
    );
    manifest.insert(
        "components/glass-pane/GlassPaneItem.svelte".to_string(),
        encode("<script></script>"),
    );
    let config = Config::default();
    let options = AddOptions { components: vec!["glass-pane".to_string()] };
    let disk = DiskSnapshot::new();
    let the_plan = plan(
        &config,
        "/workspace",
        &options,
        &registry,
        &manifest,
        &disk,
        PackageManagerKind::Unknown,
        PackageSnapshot::empty(),
        String::new(),
    )
    .expect("plan");
    assert_eq!(the_plan.installed_components.len(), 2);
    assert_eq!(the_plan.installed_components[0].export_name, "GlassPane");
    assert_eq!(the_plan.installed_components[1].export_name, "GlassPaneItem");
}

#[test]
fn later_components_override_same_named_requirements() {
    let mut registry = Registry::new("Motion Core".to_string(), "0.1.0".to_string());
    let mut base_rec = component("Base", vec![entry_file("components/base/Base.svelte")], vec![]);
    base_rec.dependencies.insert("clsx".to_string(), "^1.0.0".to_string());
    registry.add_component("base".to_string(), base_rec);
    // "top" sorts after "base" in the install order and depends on it
    let mut top_rec = component(
        "Top",
        vec![entry_file("components/top/Top.svelte")],
        vec!["base"],
    );
    top_rec.dependencies.insert("clsx".to_string(), "^2.0.0".to_string());
    registry.add_component("top".to_string(), top_rec);
    let mut manifest = StrMap::new();
    manifest.insert("components/base/Base.svelte".to_string(), encode("<p>b</p>"));
    manifest.insert("components/top/Top.svelte".to_string(), encode("<p>t</p>"));
    let config = Config::default();
    let options = AddOptions { components: vec!["top".to_string()] };
    let disk = DiskSnapshot::new();
    let the_plan = plan(
        &config,
        "/workspace",
        &options,
        &registry,
        &manifest,
        &disk,
        PackageManagerKind::Unknown,
        PackageSnapshot::empty(),
        String::new(),
    )
    .expect("plan");
    // the later component in install order wrote last
    let winner = the_plan.runtime_requirements.get("clsx").expect("entry");
    let order_pos =
        |slug: &str| the_plan.install_order.iter().position(|s| s == slug).expect("in order");
    if order_pos("base") < order_pos("top") {
        assert_eq!(winner, "^2.0.0");
    } else {
        assert_eq!(winner, "^1.0.0");
    }
}

#[test]
fn install_plan_partitions_requested_and_dependencies() {
    let order = vec!["base".to_string(), "top".to_string()];
    let requested = vec!["top".to_string()];
    let (asked, pulled) =
        motion_core::planner::partition_install_plan(&order, &requested);
    assert_eq!(asked, vec!["top".to_string()]);
    assert_eq!(pulled, vec!["base".to_string()]);
}

