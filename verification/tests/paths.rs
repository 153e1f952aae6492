use motion_core::paths::{sanitize_relative_path, workspace_path};

#[test]
fn sanitize_strips_absolute_segments() {
    let sanitized = sanitize_relative_path("/tmp/../../etc/passwd");
    assert!(!sanitized.starts_with('/'));
    assert!(sanitized.contains("etc/passwd"));
}

#[test]
fn workspace_path_clamps_to_root() {
    let resolved = workspace_path("/workspace", "../../etc/passwd");
    assert!(resolved.starts_with("/workspace"));
    assert_eq!(resolved, "/workspace/etc/passwd");
}

#[test]
fn sanitize_drops_dot_segments() {
    assert_eq!(sanitize_relative_path("a/./b/../c"), "a/b/c");
    assert_eq!(sanitize_relative_path("./x"), "x");
    assert_eq!(sanitize_relative_path(""), "");
    assert_eq!(sanitize_relative_path("../.."), "");
}

#[test]
fn workspace_path_empty_relative_is_root() {
    assert_eq!(workspace_path("/root/dir", "././.."), "/root/dir");
}
