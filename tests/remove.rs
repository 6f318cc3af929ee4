use wt::remove::{
    admin_index, ambiguity_lines, branch_deletion_forced, cleanup_starts, batch_outcome, blocked_message, check_removal, cleanup_chain,
    is_cwd_inside, is_managed_worktree_dir, not_found_message, resolve_name, RemoveError,
    NameLookup, RemovalFacts,
};
use wt::worktree::parse_porcelain;

const LISTING: &str = "worktree /repo
HEAD 1
branch refs/heads/main

worktree /h/.wt/worktrees/aa11/repo
HEAD 2
branch refs/heads/shared

worktree /h/.wt/worktrees/bb22/repo
HEAD 3
branch refs/heads/shared

worktree /h/.wt/worktrees/cc33/repo
HEAD 4
branch refs/heads/solo

worktree /h/.wt/worktrees/dd44/repo
HEAD 5
detached
";

fn facts() -> RemovalFacts {
    RemovalFacts {
        primary_path: Some("/repo".to_string()),
        has_local_branch: true,
        cwd: Some("/elsewhere".to_string()),
        dirty: false,
        merged: true,
    }
}

#[test]
fn errors_when_branch_name_is_ambiguous() {
    let wts = parse_porcelain(LISTING);
    match resolve_name(&wts, "shared") {
        NameLookup::Ambiguous(ix) => {
            assert_eq!(ix, vec![1, 2]);
            let paths: Vec<String> = ix.iter().map(|&i| wts[i].path.clone()).collect();
            let lines = ambiguity_lines("shared", &paths);
            assert_eq!(lines[0], "wt: ambiguous name 'shared'; matches:");
            assert_eq!(lines[1], "  - /h/.wt/worktrees/aa11/repo");
            assert_eq!(lines[2], "  - /h/.wt/worktrees/bb22/repo");
        }
        _ => panic!("expected an ambiguous name"),
    }
}

#[test]
fn errors_when_branch_has_no_worktree() {
    let wts = parse_porcelain(LISTING);
    assert!(matches!(resolve_name(&wts, "missing"), NameLookup::NotFound));
    assert_eq!(not_found_message("missing"), "no worktree found for branch: missing");
}

#[test]
fn prints_worktree_path_for_branch() {
    let wts = parse_porcelain(LISTING);
    match resolve_name(&wts, "solo") {
        NameLookup::Found(i) => assert_eq!(wts[i].path, "/h/.wt/worktrees/cc33/repo"),
        _ => panic!("expected one worktree"),
    }
}

#[test]
fn rm_removing_multiple_targets_reports_failures_and_removes_successes() {
    assert_eq!(
        batch_outcome(&[true, false, true]),
        Err("1 worktree(s) could not be removed".to_string())
    );
    assert_eq!(batch_outcome(&[true, true]), Ok(()));
    assert_eq!(batch_outcome(&[]), Ok(()));
    assert_eq!(
        batch_outcome(&[false, false]),
        Err("2 worktree(s) could not be removed".to_string())
    );
}

#[test]
fn allowed_removal_plan() {
    let wts = parse_porcelain(LISTING);
    let plan = check_removal(&wts, "/h/.wt/worktrees/cc33/repo", &facts(), false).ok().unwrap();
    assert_eq!(plan.path, "/h/.wt/worktrees/cc33/repo");
    assert_eq!(plan.branch.as_deref(), Some("solo"));
    assert!(!plan.force);
}

#[test]
fn rm_removes_detached_head_worktree() {
    let wts = parse_porcelain(LISTING);
    let mut f = facts();
    f.merged = false;
    f.has_local_branch = false;
    let plan = check_removal(&wts, "/h/.wt/worktrees/dd44/repo", &f, false).ok().unwrap();
    assert!(plan.branch.is_none());
}

#[test]
fn rm_cannot_remove_primary_worktree_by_path() {
    let wts = parse_porcelain(LISTING);
    let e = check_removal(&wts, "/repo", &facts(), true).err().unwrap();
    assert_eq!(e, RemoveError::PrimaryWorktreeProtected);
    assert_eq!(blocked_message(e, "/repo", "main"), "cannot remove the primary worktree: /repo");
}

#[test]
fn not_registered_target() {
    let wts = parse_porcelain(LISTING);
    let e = check_removal(&wts, "/h/.wt/worktrees/aa11", &facts(), true).err().unwrap();
    assert_eq!(e, RemoveError::NotRegistered);
    assert_eq!(
        blocked_message(e, "/h/.wt/worktrees/aa11", ""),
        "not a registered worktree: /h/.wt/worktrees/aa11"
    );
}

#[test]
fn rm_refuses_branch_checked_out_in_another_worktree() {
    let wts = parse_porcelain(LISTING);
    let e = check_removal(&wts, "/h/.wt/worktrees/aa11/repo", &facts(), true).err().unwrap();
    assert_eq!(e, RemoveError::BranchCheckedOutElsewhere);
    assert_eq!(
        blocked_message(e, "", "shared"),
        "branch 'shared' is checked out in another worktree; remove that worktree first"
    );
}

#[test]
fn missing_local_branch() {
    let wts = parse_porcelain(LISTING);
    let mut f = facts();
    f.has_local_branch = false;
    let e = check_removal(&wts, "/h/.wt/worktrees/cc33/repo", &f, true).err().unwrap();
    assert_eq!(e, RemoveError::LocalBranchMissing);
    assert_eq!(blocked_message(e, "", "solo"), "local branch not found: solo");
}

#[test]
fn rm_refuses_when_current_directory_is_inside_target_worktree() {
    let wts = parse_porcelain(LISTING);
    let mut f = facts();
    f.cwd = Some("/h/.wt/worktrees/cc33/repo/src".to_string());
    let e = check_removal(&wts, "/h/.wt/worktrees/cc33/repo", &f, true).err().unwrap();
    assert_eq!(e, RemoveError::CurrentDirectoryGuard);
    assert_eq!(
        blocked_message(e, "/t", ""),
        "cannot remove /t: current directory is inside the worktree"
    );
    f.cwd = Some("/h/.wt/worktrees/cc33/repository".to_string());
    assert!(check_removal(&wts, "/h/.wt/worktrees/cc33/repo", &f, true).is_ok());
}

#[test]
fn dirty_and_unmerged_need_force() {
    let wts = parse_porcelain(LISTING);
    let mut f = facts();
    f.dirty = true;
    let target = "/h/.wt/worktrees/cc33/repo";
    assert_eq!(check_removal(&wts, target, &f, false).err(), Some(RemoveError::DirtyWorktree));
    assert!(check_removal(&wts, target, &f, true).ok().unwrap().force);
    f.dirty = false;
    f.merged = false;
    assert_eq!(check_removal(&wts, target, &f, false).err(), Some(RemoveError::UnmergedBranch));
    assert_eq!(
        blocked_message(RemoveError::UnmergedBranch, target, "solo"),
        "branch 'solo' has unpushed commits; use --force to remove"
    );
    assert_eq!(
        blocked_message(RemoveError::DirtyWorktree, target, "solo"),
        "worktree has local changes; use --force to remove"
    );
}

#[test]
fn cleanup_chain_stops_below_root() {
    assert_eq!(
        cleanup_chain("/r/aa/repo/x", "/r"),
        vec!["/r/aa/repo/x".to_string(), "/r/aa/repo".to_string(), "/r/aa".to_string()]
    );
    assert!(cleanup_chain("/r", "/r").is_empty());
    assert!(cleanup_chain("/other/x", "/r").is_empty());
    assert!(cleanup_chain("/rx/y", "/r").is_empty());
}

#[test]
fn managed_dir_is_the_id_level() {
    assert!(is_managed_worktree_dir("/h/.wt/worktrees/aa11", "/h/.wt/worktrees"));
    assert!(!is_managed_worktree_dir("/h/.wt/worktrees/aa11/repo", "/h/.wt/worktrees"));
    assert!(!is_managed_worktree_dir("/h/elsewhere/aa11", "/h/.wt/worktrees"));
    assert!(!is_managed_worktree_dir("/h/.wt/worktrees", "/h/.wt/worktrees"));
}

#[test]
fn cwd_inside_compares_components() {
    assert!(is_cwd_inside(Some("/a/b"), Some("/a/b")));
    assert!(is_cwd_inside(Some("/a/b"), Some("/a/b/c")));
    assert!(!is_cwd_inside(Some("/a/b"), Some("/a/bc")));
    assert!(!is_cwd_inside(Some("/a/b"), Some("/a")));
    assert!(!is_cwd_inside(None, Some("/a")));
    assert!(!is_cwd_inside(Some("/a"), None));
}

#[test]
fn admin_entry_is_first_elsewhere() {
    let wts = parse_porcelain(LISTING);
    assert_eq!(admin_index(&wts, "/repo"), Some(1));
    assert_eq!(admin_index(&wts, "/h/.wt/worktrees/cc33/repo"), Some(0));
    assert_eq!(admin_index(&[], "/x"), None);
}

#[test]
fn cleanup_starts_are_unique_parents_deepest_first() {
    let removed = vec![
        "/r/aa/repo".to_string(),
        "/r/bb/x/repo".to_string(),
        "/r/aa/other".to_string(),
        "/".to_string(),
    ];
    assert_eq!(
        cleanup_starts(&removed),
        vec!["/r/bb/x".to_string(), "/r/aa".to_string()]
    );
    assert!(cleanup_starts(&[]).is_empty());
}

#[test]
fn branch_deletion_is_forced_only_when_safe() {
    assert!(!branch_deletion_forced(false, false));
    assert!(branch_deletion_forced(true, false));
    assert!(branch_deletion_forced(false, true));
}
