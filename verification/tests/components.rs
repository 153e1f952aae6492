use motion_core::components::{
    compute_import_path, parse_export_map, render_component_barrel,
    resolve_component_destination, strip_category, ComponentExportSpec, TypeExportSpec,
};
use motion_core::config::Config;
use motion_core::registry::ComponentFileRecord;

fn file_record(path: &str, target: Option<&str>, kind: Option<&str>) -> ComponentFileRecord {
    ComponentFileRecord {
        path: path.to_string(),
        target: target.map(|t| t.to_string()),
        kind: kind.map(|k| k.to_string()),
        type_exports: Vec::new(),
    }
}

#[test]
fn sanitize_removes_traversal_segments() {
    let config = Config::default();
    let record = file_record("components/../../../../etc/passwd", None, None);
    let destination = resolve_component_destination("/workspace", &config, &record);
    assert!(destination.starts_with("/workspace"));
    assert!(!destination.split('/').any(|segment| segment == ".."));
}

#[test]
fn sanitize_removes_absolute_segments() {
    let config = Config::default();
    let record = file_record("components//tmp/evil", Some("root"), None);
    let destination = resolve_component_destination("/workspace", &config, &record);
    assert!(destination.starts_with("/workspace"));
    assert!(destination.ends_with("tmp/evil"));
}

#[test]
fn sanitize_handles_complex_traversal() {
    let config = Config::default();
    let record = file_record("components/./.././app/secret.ts", None, None);
    let destination = resolve_component_destination("/workspace", &config, &record);
    assert!(destination.starts_with("/workspace"));
    assert!(!destination.contains(".."));
}

#[test]
fn sanitize_strips_windows_style_absolutes() {
    let sanitized = motion_core::paths::sanitize_relative_path("/etc/shadow");
    assert!(!sanitized.starts_with('/'));
    assert_eq!(sanitized, "etc/shadow");
}

#[test]
fn render_component_barrel_combines_entries() {
    let config = Config::default();
    let components = vec![
        ComponentExportSpec {
            export_name: "GlassPane".to_string(),
            entry_path: "/workspace/src/lib/motion-core/glass-pane/GlassPane.svelte".to_string(),
        },
        ComponentExportSpec {
            export_name: "GlassPaneItem".to_string(),
            entry_path: "/workspace/src/lib/motion-core/glass-pane/GlassPaneItem.svelte"
                .to_string(),
        },
    ];
    let type_exports = vec![TypeExportSpec {
        export_names: vec!["GlassPaneProps".to_string()],
        entry_path: "/workspace/src/lib/motion-core/glass-pane/types.ts".to_string(),
    }];
    let rendered = render_component_barrel("/workspace", &config, &components, &type_exports, "")
        .expect("rendered barrel");
    assert!(rendered.contains("export { default as GlassPane }"));
    assert!(rendered.contains("GlassPaneItem"));
    assert!(rendered.contains("export type { GlassPaneProps }"));
}

#[test]
fn resolve_component_destination_respects_targets() {
    let config = Config::default();
    let root = "/workspace";

    let helper_record = file_record("helpers/foo.ts", Some("helper"), None);
    let dest = resolve_component_destination(root, &config, &helper_record);
    assert!(dest.contains("helpers/foo.ts"));

    let utils_record = file_record("utils/bar.ts", Some("utils"), None);
    let dest = resolve_component_destination(root, &config, &utils_record);
    assert!(dest.contains("utils/bar.ts"));

    let asset_record = file_record("assets/logo.svg", Some("asset"), None);
    let dest = resolve_component_destination(root, &config, &asset_record);
    assert!(dest.contains("assets/logo.svg"));

    let root_record = file_record("README.md", Some("root"), None);
    let dest = resolve_component_destination(root, &config, &root_record);
    assert_eq!(dest, "/workspace/README.md");
}

#[test]
fn strip_category_handles_various_paths() {
    assert_eq!(strip_category("components/foo.svelte"), "foo.svelte");
    assert_eq!(strip_category("helpers/bar.ts"), "bar.ts");
    assert_eq!(strip_category("unknown/baz.txt"), "unknown/baz.txt");
    assert_eq!(strip_category("components"), "components");
}

#[test]
fn compute_import_path_handles_relative_paths() {
    let path = compute_import_path(
        "/workspace",
        "src/lib/motion-core",
        "/workspace/src/lib/motion-core",
        "/workspace/src/lib/motion-core/foo/bar.svelte",
    );
    assert_eq!(path, Some("./foo/bar.svelte".to_string()));
}

#[test]
fn compute_import_path_falls_back_to_relative_diff() {
    let path = compute_import_path(
        "/ws",
        "src/lib/motion-core",
        "/ws/src/lib/motion-core",
        "/ws/other/file.svelte",
    );
    assert_eq!(path, Some("../../../other/file.svelte".to_string()));
}

#[test]
fn parse_export_map_handles_complex_existing_barrel() {
    let existing = "\nexport { default as A } from \"./A.svelte\";\nexport type { B, C } from \"./types\";\n";
    let map = parse_export_map(existing);
    assert!(map.components.get("A").is_some());
    assert!(map.types.get("B").is_some());
    assert!(map.types.get("C").is_some());
}

#[test]
fn render_component_barrel_is_idempotent_on_same_inputs() {
    let config = Config::default();
    let components = vec![ComponentExportSpec {
        export_name: "GlassPane".to_string(),
        entry_path: "/workspace/src/lib/motion-core/glass-pane/GlassPane.svelte".to_string(),
    }];
    let type_exports = vec![TypeExportSpec {
        export_names: vec!["GlassPaneProps".to_string()],
        entry_path: "/workspace/src/lib/motion-core/glass-pane/types.ts".to_string(),
    }];
    let first = render_component_barrel("/workspace", &config, &components, &type_exports, "")
        .expect("first render");
    let second = render_component_barrel(
        "/workspace",
        &config,
        &components,
        &type_exports,
        first.as_str(),
    );
    assert!(second.is_none());
    // no duplicate line for the same export name in the first render
    let lines: Vec<&str> = first.lines().collect();
    let count = lines
        .iter()
        .filter(|l| l.starts_with("export { default as GlassPane }"))
        .count();
    assert_eq!(count, 1);
}

#[test]
fn render_component_barrel_empty_inputs_is_none() {
    let config = Config::default();
    let rendered = render_component_barrel(
        "/workspace",
        &config,
        &Vec::new(),
        &Vec::new(),
        "export { default as A } from \"./A.svelte\";\n",
    );
    assert!(rendered.is_none());
}
