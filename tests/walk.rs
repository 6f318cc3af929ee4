use wt::walk::{parse_gitdir, trim_str, DirProbe, Walk};

#[test]
fn gitdir_absolute_and_relative() {
    assert_eq!(
        parse_gitdir("gitdir: /src/p/.git/worktrees/x\n", "/w/aa/p/.git").as_deref(),
        Some("/src/p/.git/worktrees/x")
    );
    assert_eq!(
        parse_gitdir("gitdir: ../../p/.git/worktrees/x  \n", "/w/aa/p/.git").as_deref(),
        Some("/w/aa/p/../../p/.git/worktrees/x")
    );
    assert_eq!(parse_gitdir("gitdir:   \n", "/w/.git"), None);
    assert_eq!(parse_gitdir("nonsense\n", "/w/.git"), None);
    assert_eq!(parse_gitdir("", "/w/.git"), None);
    assert_eq!(parse_gitdir("gitdir: /a\r\nmore", "/w/.git").as_deref(), Some("/a"));
}

#[test]
fn trim_drops_whitespace_both_ends() {
    assert_eq!(trim_str("  a b \t\n"), "a b");
    assert_eq!(trim_str("   "), "");
}

#[test]
fn discovery_records_each_repo_once_and_stops_at_repositories() {
    let mut w = Walk::new("/root".to_string());
    assert_eq!(w.next_dir().as_deref(), Some("/root"));
    let linked = |t: &str| DirProbe::Linked { target: Some(t.to_string()), target_exists: true };
    assert!(!w.visit_for_repos("/root/aa".to_string(), &DirProbe::Plain));
    assert!(!w.visit_for_repos("/root/bb".to_string(), &linked("/src/p/.git/worktrees/x")));
    assert!(!w.visit_for_repos("/root/cc".to_string(), &linked("/src/p/.git/worktrees/y")));
    assert!(!w.visit_for_repos("/root/dd".to_string(), &DirProbe::Repository));
    assert!(w.visit_for_repos(
        "/root/ee".to_string(),
        &DirProbe::Linked { target: None, target_exists: false }
    ));
    assert!(w.visit_for_repos("/root/ff".to_string(), &linked("/src/p/.git/other/y")));
    assert_eq!(w.repos, vec!["/src/p".to_string()]);
    assert_eq!(w.next_dir().as_deref(), Some("/root/aa"));
    assert_eq!(w.next_dir(), None);
}

#[test]
fn orphans_are_directories_whose_target_is_missing() {
    let mut w = Walk::new("/root".to_string());
    w.next_dir();
    let probe = |exists: bool| DirProbe::Linked {
        target: Some("/gone/.git/worktrees/x".to_string()),
        target_exists: exists,
    };
    assert!(!w.visit_for_orphans("/root/aa".to_string(), &probe(false)));
    assert!(!w.visit_for_orphans("/root/bb".to_string(), &probe(true)));
    assert!(!w.visit_for_orphans("/root/cc".to_string(), &DirProbe::Repository));
    assert!(!w.visit_for_orphans("/root/dd".to_string(), &DirProbe::Plain));
    assert_eq!(w.orphans, vec!["/root/aa".to_string()]);
    assert_eq!(w.pending, vec!["/root/dd".to_string()]);
}
