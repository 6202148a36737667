use cachoeira::transform::bundle::{TransformBundle, HIERARCHY_SYSTEM, TRANSFORM_SYSTEM};

#[test]
fn new_bundle_waits_for_nothing() {
    let bundle = TransformBundle::new();
    assert!(bundle.dep().is_empty());
    assert!(TransformBundle::default().dep().is_empty());
}

#[test]
fn with_dep_replaces_the_dependencies() {
    let first = ["input", "physics"];
    let second = ["network"];
    let bundle = TransformBundle::new().with_dep(&first);
    assert_eq!(bundle.dep(), &["input", "physics"]);
    let bundle = bundle.with_dep(&second);
    assert_eq!(bundle.dep(), &["network"]);
}

#[test]
fn build_schedules_hierarchy_before_transform() {
    let deps = ["input", "physics"];
    let entries = TransformBundle::new().with_dep(&deps).build();
    assert_eq!(entries.len(), 2);
    assert_eq!(entries[0].name, "parent_hierarchy_system");
    assert_eq!(entries[0].after, vec!["input", "physics"]);
    assert_eq!(entries[1].name, "transform_system");
    assert_eq!(entries[1].after, vec!["parent_hierarchy_system"]);
    assert_eq!(HIERARCHY_SYSTEM, "parent_hierarchy_system");
    assert_eq!(TRANSFORM_SYSTEM, "transform_system");
}

#[test]
fn build_without_dependencies() {
    let entries = TransformBundle::new().build();
    assert_eq!(entries.len(), 2);
    assert!(entries[0].after.is_empty());
    assert_eq!(entries[1].after, vec!["parent_hierarchy_system"]);
}
