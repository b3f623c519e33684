use safe_path::path_ops::{
    confirm_open_target, is_canonical_dir_path, is_dot, is_dotdot, is_plain_component,
    paths_match, render_relative, render_under, split_components, PathError,
};

#[test]
fn splitting_discards_separators_and_empty_runs() {
    assert_eq!(split_components("a/b/c"), vec!["a", "b", "c"]);
    assert_eq!(split_components("/a//b/"), vec!["a", "b"]);
    assert_eq!(split_components(""), Vec::<String>::new());
    assert_eq!(split_components("///"), Vec::<String>::new());
    assert_eq!(split_components("./.."), vec![".", ".."]);
    assert_eq!(split_components("a"), vec!["a"]);
}

#[test]
fn splitting_handles_multibyte_names() {
    assert_eq!(split_components("å/ßß/ç"), vec!["å", "ßß", "ç"]);
    let comps: Vec<String> = vec!["å".to_string(), "ß".to_string()];
    assert_eq!(render_under("/r", &comps), "/r/å/ß");
    assert_eq!(render_relative(&comps), "å/ß");
}

#[test]
fn names_containing_dots_are_plain() {
    assert!(is_plain_component("a.b"));
    assert!(is_plain_component(".hidden"));
    assert_eq!(split_components("a.b/.hidden"), vec!["a.b", ".hidden"]);
}

#[test]
fn component_classification() {
    assert!(is_dot("."));
    assert!(!is_dot(".."));
    assert!(is_dotdot(".."));
    assert!(!is_dotdot("."));
    assert!(!is_dotdot("..."));
    assert!(is_plain_component("name"));
    assert!(is_plain_component("..."));
    assert!(!is_plain_component("."));
    assert!(!is_plain_component(".."));
    assert!(!is_plain_component(""));
}

#[test]
fn rendering_joins_components_under_a_root() {
    let comps: Vec<String> = vec!["a".to_string(), "b".to_string()];
    assert_eq!(render_under("/r", &comps), "/r/a/b");
    assert_eq!(render_under("/", &comps), "/a/b");
    assert_eq!(render_under("/r", &Vec::new()), "/r");
    assert_eq!(render_under("/", &Vec::new()), "/");
}

#[test]
fn relative_rendering_drops_the_root() {
    let comps: Vec<String> = vec!["a".to_string(), "b".to_string()];
    assert_eq!(render_relative(&comps), "a/b");
    assert_eq!(render_relative(&Vec::new()), "");
    assert_eq!(render_relative(&vec!["x".to_string()]), "x");
}

#[test]
fn canonical_form_check() {
    assert!(is_canonical_dir_path("/"));
    assert!(is_canonical_dir_path("/a"));
    assert!(is_canonical_dir_path("/a/b.c"));
    assert!(!is_canonical_dir_path(""));
    assert!(!is_canonical_dir_path("a"));
    assert!(!is_canonical_dir_path("/a/"));
    assert!(!is_canonical_dir_path("//a"));
    assert!(!is_canonical_dir_path("/a/./b"));
    assert!(!is_canonical_dir_path("/a/../b"));
}

#[test]
fn matching_paths_is_exact() {
    assert!(paths_match("/r/a", "/r/a"));
    assert!(!paths_match("/r/a", "/r/b"));
    assert!(!paths_match("/r/a", "/r/a/"));
}

#[test]
fn race_detection_rejects_a_changed_target() {
    // The validated path and the path the kernel reports for the open
    // descriptor must agree exactly; anything else is a detected race.
    assert!(confirm_open_target("/r/a", "/r/a").is_ok());
    assert_eq!(
        confirm_open_target("/r/a", "/r/b").unwrap_err(),
        PathError::RaceDetected
    );
    assert_eq!(
        confirm_open_target("/r/a", "/outside").unwrap_err(),
        PathError::RaceDetected
    );
}
