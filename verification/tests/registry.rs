use base64::Engine as _;
use motion_core::registry::{
    fetch_component_file, ComponentRecord, Registry, RegistryError,
};
use motion_core::strmap::StrMap;

fn record(name: &str) -> ComponentRecord {
    ComponentRecord {
        name: name.to_string(),
        description: Some("Refracted plane".to_string()),
        category: Some("canvas".to_string()),
        preview: None,
        files: Vec::new(),
        dependencies: StrMap::new(),
        dev_dependencies: StrMap::new(),
        internal_dependencies: Vec::new(),
    }
}

fn sample_registry() -> Registry {
    let mut registry = Registry::new("Motion Core".to_string(), "0.1.0".to_string());
    registry.base_dependencies.insert("clsx".to_string(), "^2.1.1".to_string());
    registry.base_dev_dependencies.insert("vitest".to_string(), "^1.0.0".to_string());
    registry.add_component("glass-pane".to_string(), record("Glass Pane"));
    registry
}

#[test]
fn static_registry_lists_components() {
    let registry = sample_registry();
    let comps = registry.list_components();
    assert_eq!(comps.len(), 1);
    assert_eq!(comps[0].slug, "glass-pane");
}

#[test]
fn summary_reports_metadata() {
    let registry = sample_registry();
    let summary = registry.summary();
    assert_eq!(summary.name, "Motion Core");
    assert_eq!(summary.component_count, 1);
}

#[test]
fn reports_base_dependencies() {
    let registry = sample_registry();
    let deps = registry.base_dependencies();
    assert_eq!(deps.dependencies.get("clsx").map(|s| s.as_str()), Some("^2.1.1"));
    assert_eq!(deps.dev_dependencies.get("vitest").map(|s| s.as_str()), Some("^1.0.0"));
}

#[test]
fn components_are_listed_in_slug_order() {
    let mut registry = Registry::new("Motion Core".to_string(), "0.1.0".to_string());
    registry.add_component("zebra".to_string(), record("Zebra"));
    registry.add_component("alpha".to_string(), record("Alpha"));
    let comps = registry.list_components();
    assert_eq!(comps[0].slug, "alpha");
    assert_eq!(comps[1].slug, "zebra");
    assert!(registry.find_component("zebra").is_some());
    assert!(registry.find_component("missing").is_none());
}

#[test]
fn fetches_component_file() {
    let mut manifest = StrMap::new();
    manifest.insert(
        "components/glass-pane/GlassPane.svelte".to_string(),
        base64::engine::general_purpose::STANDARD.encode("hello"),
    );
    let bytes = fetch_component_file(&manifest, "components/glass-pane/GlassPane.svelte")
        .expect("file bytes");
    assert_eq!(bytes, b"hello".to_vec());
}

#[test]
fn fetch_component_file_rejects_invalid_base64() {
    let mut manifest = StrMap::new();
    manifest.insert("components/bad/file".to_string(), "***not_base64***".to_string());
    let err = fetch_component_file(&manifest, "components/bad/file")
        .expect_err("should fail to decode");
    match err {
        RegistryError::Decode(_, _) => {}
        _ => panic!("unexpected error"),
    }
}

#[test]
fn fetch_component_file_errors_when_missing() {
    let manifest = StrMap::new();
    let err = fetch_component_file(&manifest, "components/missing/file")
        .expect_err("missing asset should error");
    match err {
        RegistryError::AssetNotFound(path) => {
            assert_eq!(path, "components/missing/file");
        }
        _ => panic!("unexpected error"),
    }
}
