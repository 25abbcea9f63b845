use directory_scanner::order::{sort_paths, PathOrder};
use directory_scanner::paths::{
    is_hidden_path, name_extension, path_components, path_file_name, path_parent,
    starts_with_path, starts_with_text,
};

fn comps(s: &str) -> Vec<String> {
    path_components(s).into_iter().map(|c| c.into_iter().collect()).collect()
}

#[test]
fn components_follow_path_rules() {
    assert_eq!(comps("/a//b/./c/"), vec!["/", "a", "b", "c"]);
    assert_eq!(comps("./a/../b"), vec![".", "a", "..", "b"]);
    assert_eq!(comps("a/./b"), vec!["a", "b"]);
    assert!(comps("").is_empty());
}

#[test]
fn hidden_components_are_found_at_any_depth() {
    assert!(is_hidden_path("root/.hidden/file.txt"));
    assert!(is_hidden_path("root/x/.env"));
    assert!(!is_hidden_path("root/visible/file.txt"));
    assert!(!is_hidden_path("./root/../x"));
}

#[test]
fn names_parents_and_extensions() {
    assert_eq!(path_file_name("/a/b.txt"), Some("b.txt".to_string()));
    assert_eq!(path_file_name("/"), None);
    assert_eq!(path_file_name("a/.."), None);
    assert_eq!(path_parent("/a/b.txt"), Some("/a".to_string()));
    assert_eq!(path_parent("/a"), Some("/".to_string()));
    assert_eq!(path_parent("a"), Some("".to_string()));
    assert_eq!(path_parent("/"), None);
    assert_eq!(name_extension("archive.tar.GZ"), Some("GZ".to_string()));
    assert_eq!(name_extension(".bashrc"), None);
    assert_eq!(name_extension("noext"), None);
    assert_eq!(name_extension("trailing."), Some("".to_string()));
}

#[test]
fn prefixes_by_component_and_by_text() {
    assert!(starts_with_path("/proc/1/status", "/proc"));
    assert!(!starts_with_path("/processes/x", "/proc"));
    assert!(starts_with_text("/processes/x", "/proc"));
    assert!(!starts_with_text("/pro", "/proc"));
}

#[test]
fn depth_then_component_order() {
    let mut v: Vec<String> = vec!["r/b/x".into(), "r/a-b".into(), "r/a/y".into(), "r/c".into()];
    sort_paths(&mut v, PathOrder::DepthThenComponents);
    assert_eq!(v, vec!["r/a-b", "r/c", "r/a/y", "r/b/x"]);
}

#[test]
fn folded_name_order() {
    let mut v: Vec<String> = vec!["d/B".into(), "d/a".into(), "d/C".into()];
    sort_paths(&mut v, PathOrder::FoldedName);
    assert_eq!(v, vec!["d/a", "d/B", "d/C"]);
}
