use wt::paths::{admin_repo_from_gitdir, file_name_of, join, parent_of, path_within, validate_path};

#[test]
fn parent_follows_path_rules() {
    assert_eq!(parent_of("/a/b").as_deref(), Some("/a"));
    assert_eq!(parent_of("/a/b/").as_deref(), Some("/a"));
    assert_eq!(parent_of("/a").as_deref(), Some("/"));
    assert_eq!(parent_of("/"), None);
    assert_eq!(parent_of(""), None);
    assert_eq!(parent_of("a").as_deref(), Some(""));
    assert_eq!(parent_of("a//b").as_deref(), Some("a"));
}

#[test]
fn file_name_follows_path_rules() {
    assert_eq!(file_name_of("/a/b").as_deref(), Some("b"));
    assert_eq!(file_name_of("/a/b/").as_deref(), Some("b"));
    assert_eq!(file_name_of("/"), None);
    assert_eq!(file_name_of("/a/.."), None);
    assert_eq!(file_name_of("x").as_deref(), Some("x"));
}

#[test]
fn within_compares_whole_components() {
    assert!(path_within("/a/b/c", "/a/b"));
    assert!(path_within("/a/b", "/a/b"));
    assert!(!path_within("/a/bc", "/a/b"));
    assert!(path_within("/a", "/"));
    assert!(!path_within("/a", "/a/b"));
}

#[test]
fn join_follows_path_rules() {
    assert_eq!(join("/a", "b"), "/a/b");
    assert_eq!(join("/a/", "b"), "/a/b");
    assert_eq!(join("/a", "/b"), "/b");
    assert_eq!(join("", "b"), "b");
}

#[test]
fn admin_repo_needs_git_worktrees_shape() {
    assert_eq!(admin_repo_from_gitdir("/src/proj/.git/worktrees/feat").as_deref(), Some("/src/proj"));
    assert_eq!(admin_repo_from_gitdir("/src/proj/.git/other/feat"), None);
    assert_eq!(admin_repo_from_gitdir("/src/proj/git/worktrees/feat"), None);
    assert_eq!(admin_repo_from_gitdir("/.git/worktrees/x").as_deref(), Some("/"));
    assert_eq!(admin_repo_from_gitdir("feat"), None);
}

#[test]
fn link_rejects_absolute_path() {
    let e = validate_path("/etc/passwd").unwrap_err();
    assert!(e.contains("path must be relative"));
    assert_eq!(e, "path must be relative: /etc/passwd");
}

#[test]
fn link_rejects_dotdot() {
    let e = validate_path("../etc/passwd").unwrap_err();
    assert!(e.contains("must not contain '..'"));
    assert!(validate_path("a/../b").is_err());
    assert!(validate_path("a/..").is_err());
    assert!(validate_path("a/..b").is_ok());
    assert!(validate_path("..b/c").is_ok());
    assert!(validate_path(".env").is_ok());
    assert!(validate_path("config/.env").is_ok());
}
