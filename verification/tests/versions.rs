use motion_core::versions::spec_satisfies;

#[test]
fn matches_exact_requirement() {
    assert!(spec_satisfies(Some("^2.1.0"), "^2.1.0"));
}

#[test]
fn matches_caret_superset() {
    assert!(spec_satisfies(Some("^2.0.0"), "^2.1.0"));
}

#[test]
fn rejects_lower_major() {
    assert!(!spec_satisfies(Some("^1.5.0"), "^2.0.0"));
}

#[test]
fn rejects_when_missing() {
    assert!(!spec_satisfies(None, "^1.0.0"));
}

#[test]
fn rejects_blank_sides() {
    assert!(!spec_satisfies(Some("   "), "^1.0.0"));
    assert!(!spec_satisfies(Some("^1.0.0"), ""));
}

#[test]
fn rejects_unparseable_requirement() {
    assert!(!spec_satisfies(Some("not a version"), "also not"));
}

#[test]
fn greater_than_anchor_bumps_patch() {
    // >1.2.3 anchors at 1.2.4, which ^1.0.0 accepts
    assert!(spec_satisfies(Some("^1.0.0"), ">1.2.3"));
    // but ^2.0.0 does not
    assert!(!spec_satisfies(Some("^2.0.0"), ">1.2.3"));
}

#[test]
fn upper_bounds_are_skipped_for_the_anchor() {
    // the anchor of ">=1.0.0, <2.0.0" is 1.0.0
    assert!(spec_satisfies(Some("^1.0.0"), ">=1.0.0, <2.0.0"));
}
