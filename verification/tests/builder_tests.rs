use safe_path::path_ops::PathError;
use safe_path::SafeDirBuilder;

fn comps(names: &[&str]) -> Vec<String> {
    names.iter().map(|n| n.to_string()).collect()
}

#[test]
fn new_refuses_non_canonical_roots() {
    assert_eq!(
        SafeDirBuilder::new("relative").unwrap_err(),
        PathError::InvalidRoot
    );
    assert_eq!(
        SafeDirBuilder::new("/r/").unwrap_err(),
        PathError::InvalidRoot
    );
    assert_eq!(
        SafeDirBuilder::new("/r/..").unwrap_err(),
        PathError::InvalidRoot
    );
    assert!(SafeDirBuilder::new("/r").is_ok());
    assert!(SafeDirBuilder::new("/").is_ok());
}

#[test]
fn default_mode_and_masking() {
    let mut b = SafeDirBuilder::new("/r").unwrap();
    let plan = b.plan_create(&comps(&["a"]));
    assert_eq!(plan.mode, 0o700);
    b.mode(0o1777);
    let plan = b.plan_create(&comps(&["a"]));
    assert_eq!(plan.mode, 0o777);
    b.mode(0o740);
    let plan = b.plan_create(&comps(&["a"]));
    assert_eq!(plan.mode, 0o740);
}

#[test]
fn root_target_is_trivial_success() {
    // A request that resolves to the root itself creates nothing: the
    // plan only validates the root and hands it back.
    let b = SafeDirBuilder::new("/r").unwrap();
    let plan = b.plan_create(&comps(&[]));
    assert_eq!(plan.steps.len(), 0);
    assert_eq!(plan.result_path, "/r");
    assert!(!plan.exclusive);
}

#[test]
fn non_recursive_creates_only_the_last_level() {
    // Non-recursive creation of a/b/c has a single stage whose parent
    // is a/b: nothing creates the intermediate levels, so the walk
    // fails when only the root exists.
    let b = SafeDirBuilder::new("/r").unwrap();
    let plan = b.plan_create(&comps(&["a", "b", "c"]));
    assert_eq!(plan.steps.len(), 1);
    assert!(plan.exclusive);
    assert_eq!(plan.steps[0].parent, "/r/a/b");
    assert_eq!(plan.steps[0].target, "/r/a/b/c");
    assert_eq!(plan.result_path, "/r/a/b/c");
}

#[test]
fn non_recursive_single_level() {
    let b = SafeDirBuilder::new("/r").unwrap();
    let plan = b.plan_create(&comps(&["a"]));
    assert_eq!(plan.steps.len(), 1);
    assert_eq!(plan.steps[0].parent, "/r");
    assert_eq!(plan.steps[0].target, "/r/a");
    assert!(plan.exclusive);
}

#[test]
fn recursive_creates_every_level_with_the_configured_mode() {
    let mut b = SafeDirBuilder::new("/r").unwrap();
    b.recursive();
    b.mode(0o750);
    let plan = b.plan_create(&comps(&["a", "b", "c"]));
    assert_eq!(plan.mode, 0o750);
    assert!(!plan.exclusive);
    assert_eq!(plan.steps.len(), 3);
    assert_eq!(plan.steps[0].parent, "/r");
    assert_eq!(plan.steps[0].target, "/r/a");
    assert_eq!(plan.steps[1].parent, "/r/a");
    assert_eq!(plan.steps[1].target, "/r/a/b");
    assert_eq!(plan.steps[2].parent, "/r/a/b");
    assert_eq!(plan.steps[2].target, "/r/a/b/c");
    assert_eq!(plan.result_path, "/r/a/b/c");
}

#[test]
fn plans_under_filesystem_root_have_single_separators() {
    let mut b = SafeDirBuilder::new("/").unwrap();
    b.recursive();
    let plan = b.plan_create(&comps(&["a", "b"]));
    assert_eq!(plan.steps[0].parent, "/");
    assert_eq!(plan.steps[0].target, "/a");
    assert_eq!(plan.steps[1].parent, "/a");
    assert_eq!(plan.steps[1].target, "/a/b");
}
