use wt::worktree::{branch_checked_out_elsewhere, find_by_branch, find_by_path, parse_porcelain};

#[test]
fn basic_worktree() {
    let input = "\
worktree /home/user/project
HEAD abc123def456
branch refs/heads/main
";
    let wts = parse_porcelain(input);
    assert_eq!(wts.len(), 1);
    assert_eq!(wts[0].path, "/home/user/project");
    assert_eq!(wts[0].head, "abc123def456");
    assert_eq!(wts[0].branch.as_deref(), Some("main"));
    assert!(!wts[0].bare);
    assert!(!wts[0].detached);
    assert!(!wts[0].locked);
    assert!(!wts[0].prunable);
}

#[test]
fn bare_worktree() {
    let input = "\
worktree /home/user/project.git
HEAD 0000000000000000000000000000000000000000
bare
";
    let wts = parse_porcelain(input);
    assert_eq!(wts.len(), 1);
    assert!(wts[0].bare);
    assert!(wts[0].branch.is_none());
}

#[test]
fn detached_head() {
    let input = "\
worktree /home/user/project
HEAD abc123
detached
";
    let wts = parse_porcelain(input);
    assert_eq!(wts.len(), 1);
    assert!(wts[0].detached);
    assert!(wts[0].branch.is_none());
}

#[test]
fn multiple_worktrees() {
    let input = "\
worktree /home/user/project
HEAD abc123
branch refs/heads/main

worktree /home/user/.worktrees/project/feature
HEAD def456
branch refs/heads/feature
locked

";
    let wts = parse_porcelain(input);
    assert_eq!(wts.len(), 2);
    assert_eq!(wts[0].branch.as_deref(), Some("main"));
    assert!(!wts[0].locked);
    assert_eq!(wts[1].branch.as_deref(), Some("feature"));
    assert!(wts[1].locked);
}

#[test]
fn no_trailing_blank_line() {
    let input = "\
worktree /home/user/project
HEAD abc123
branch refs/heads/main

worktree /home/user/.worktrees/project/feature
HEAD def456
branch refs/heads/feature";
    let wts = parse_porcelain(input);
    assert_eq!(wts.len(), 2);
    assert_eq!(wts[1].branch.as_deref(), Some("feature"));
}

#[test]
fn empty_listing_has_no_worktrees() {
    assert_eq!(parse_porcelain("").len(), 0);
    assert_eq!(parse_porcelain("\n\n").len(), 0);
}

#[test]
fn count_matches_worktree_lines_with_or_without_trailing_blank() {
    let a = "worktree /a\nHEAD 1\n\nworktree /b\nHEAD 2\nbranch refs/heads/x\n\nworktree /c";
    let b = format!("{a}\n");
    let c = format!("{a}\n\n");
    assert_eq!(parse_porcelain(a).len(), 3);
    assert_eq!(parse_porcelain(&b).len(), 3);
    assert_eq!(parse_porcelain(&c).len(), 3);
}

#[test]
fn prunable_and_locked_with_reasons() {
    let input = "worktree /p\nHEAD 1\nbranch refs/heads/m\n\nworktree /q\nHEAD 2\nlocked because\nprunable gitdir file points to non-existent location\n";
    let wts = parse_porcelain(input);
    assert_eq!(wts.len(), 2);
    assert!(wts[1].locked);
    assert!(wts[1].prunable);
    assert!(!wts[0].prunable);
}

#[test]
fn non_branch_ref_counts_as_no_branch() {
    let wts = parse_porcelain("worktree /p\nHEAD 1\nbranch refs/tags/v1\n");
    assert_eq!(wts.len(), 1);
    assert!(wts[0].branch.is_none());
}

#[test]
fn crlf_line_endings_are_stripped() {
    let wts = parse_porcelain("worktree /p\r\nHEAD abc\r\nbranch refs/heads/main\r\n");
    assert_eq!(wts[0].path, "/p");
    assert_eq!(wts[0].head, "abc");
    assert_eq!(wts[0].branch.as_deref(), Some("main"));
}

#[test]
fn unknown_lines_are_ignored() {
    let wts = parse_porcelain("worktree /p\nfoo bar\nHEAD 1\n");
    assert_eq!(wts.len(), 1);
    assert_eq!(wts[0].head, "1");
}

#[test]
fn flags_reset_between_records() {
    let wts = parse_porcelain("worktree /a\nlocked\n\nworktree /b\n");
    assert!(wts[0].locked);
    assert!(!wts[1].locked);
}

fn two_on_shared() -> Vec<wt::worktree::Worktree> {
    parse_porcelain(
        "worktree /repo\nHEAD 1\nbranch refs/heads/shared\n\nworktree /wt/ab12/repo\nHEAD 1\nbranch refs/heads/shared\n\nworktree /wt/cd34/repo\nHEAD 2\nbranch refs/heads/other\n",
    )
}

#[test]
fn find_by_branch_lists_all_matches_in_order() {
    let wts = two_on_shared();
    let m = find_by_branch(&wts, "shared");
    assert_eq!(m.len(), 2);
    assert_eq!(m[0].path, "/repo");
    assert_eq!(m[1].path, "/wt/ab12/repo");
    assert_eq!(find_by_branch(&wts, "other").len(), 1);
    assert_eq!(find_by_branch(&wts, "none").len(), 0);
}

#[test]
fn find_by_path_is_exact() {
    let wts = two_on_shared();
    assert_eq!(find_by_path(&wts, "/wt/cd34/repo").unwrap().branch.as_deref(), Some("other"));
    assert!(find_by_path(&wts, "/wt/cd34").is_none());
}

#[test]
fn checked_out_elsewhere_excludes_the_given_path() {
    let wts = two_on_shared();
    assert!(branch_checked_out_elsewhere(&wts, "shared", "/repo"));
    assert!(!branch_checked_out_elsewhere(&wts, "other", "/wt/cd34/repo"));
    assert!(!branch_checked_out_elsewhere(&wts, "none", "/x"));
}
