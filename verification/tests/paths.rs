use slopwrap::paths::{components_of, join, same_path_exec, starts_with};

fn comps(s: &str) -> Vec<String> {
    components_of(s).into_iter().map(|c| c.into_iter().collect()).collect()
}

#[test]
fn components_like_std() {
    assert_eq!(comps("/a//b/./c/"), vec!["/", "a", "b", "c"]);
    assert_eq!(comps("./a"), vec![".", "a"]);
    assert_eq!(comps("a/.."), vec!["a", ".."]);
    assert!(comps("").is_empty());
    assert_eq!(comps("/"), vec!["/"]);
}

#[test]
fn starts_with_whole_components() {
    assert!(starts_with("/home/x/.ssh/id", "/home/x/.ssh"));
    assert!(starts_with("/home/x/.ssh", "/home/x/.ssh/"));
    assert!(!starts_with("/home/x/.sshx", "/home/x/.ssh"));
    assert!(!starts_with("home/x", "/home"));
}

#[test]
fn same_path_ignores_spelling() {
    assert!(same_path_exec("/a//b/", "/a/b"));
    assert!(!same_path_exec("/a/b", "a/b"));
}

#[test]
fn join_like_pathbuf() {
    assert_eq!(join("/a", "b"), "/a/b");
    assert_eq!(join("/a/", "b"), "/a/b");
    assert_eq!(join("", "b"), "b");
    assert_eq!(join("/a", "/b"), "/b");
}
