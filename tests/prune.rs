use wt::prune::{
    candidate_indices, prune_action, prune_failures, prune_reason, prune_report,
    remotes_to_refresh, upstream_gone_for, was_refreshed, worktree_label, PruneAction,
    PruneCandidate, PruneFacts, RemoteStatus,
};
use wt::worktree::parse_porcelain;

const LISTING: &str = "worktree /repo
HEAD 1
branch refs/heads/main

worktree /root/.wt/worktrees/aa11/repo
HEAD 2
branch refs/heads/feat

worktree /root/.wt/worktrees/bb22/repo
HEAD 3
branch refs/heads/feat2

worktree /root/.wt/worktrees/cc33/repo
HEAD 4
branch refs/heads/main

worktree /root/.wt/worktrees/dd44/repo
HEAD 5
branch refs/heads/held
locked

worktree /root/.wt/worktrees/ee55/repo
HEAD 6
detached
";

fn facts(merged: bool, gone: bool, cwd: bool, dirty: bool) -> PruneFacts {
    PruneFacts { merged, upstream_gone: gone, cwd_inside: cwd, dirty }
}

#[test]
fn candidates_skip_primary_base_locked_and_detached() {
    let wts = parse_porcelain(LISTING);
    assert_eq!(candidate_indices(&wts, Some("main")), vec![1, 2]);
    assert_eq!(candidate_indices(&wts, None), vec![1, 2, 3]);
}

#[test]
fn primary_is_never_a_candidate_whatever_its_flags() {
    let wts = parse_porcelain("worktree /repo\nHEAD 1\nbranch refs/heads/x\nprunable\n");
    assert!(candidate_indices(&wts, Some("main")).is_empty());
    assert!(candidate_indices(&wts, None).is_empty());
}

#[test]
fn merged_needs_a_resolved_base() {
    let c = PruneCandidate::new("feat".to_string(), "/p".to_string(), true, true, None);
    assert!(c.merged);
    let c = PruneCandidate::new("feat".to_string(), "/p".to_string(), false, true, None);
    assert!(!c.merged);
    let c = PruneCandidate::new("feat".to_string(), "/p".to_string(), true, false, None);
    assert!(!c.merged);
}

#[test]
fn merged_and_clean_worktree_is_removed() {
    // W1 on feat, merged and pushed, no flags: removed, and reported.
    let f = facts(true, false, false, false);
    assert_eq!(prune_action(f, false), PruneAction::Remove);
    let reason = prune_reason(true, false);
    assert_eq!(reason, "merged");
    let line = prune_report(PruneAction::Remove, "aa11/repo", reason);
    assert_eq!(line.as_deref(), Some("wt: removed aa11/repo (merged)"));
}

#[test]
fn merged_but_dirty_worktree_is_left_silently() {
    // W2 on feat2, merged but with an uncommitted file.
    let f = facts(true, false, false, true);
    let action = prune_action(f, false);
    assert_eq!(action, PruneAction::SkipDirty);
    assert_eq!(prune_report(action, "bb22/repo", "merged"), None);
}

#[test]
fn gone_upstream_needs_the_gone_flag() {
    // W3: upstream deleted remotely, its remote refreshed this run.
    let remote = Some("origin".to_string());
    let gone_default = upstream_gone_for(false, false, &remote, true, true);
    assert!(!gone_default);
    assert_eq!(prune_action(facts(false, gone_default, false, false), false), PruneAction::Keep);
    let gone_flag = upstream_gone_for(true, false, &remote, true, true);
    assert!(gone_flag);
    assert_eq!(prune_action(facts(false, gone_flag, false, false), false), PruneAction::Remove);
    assert_eq!(prune_reason(false, true), "upstream gone");
}

#[test]
fn gone_upstream_is_skipped_when_its_remote_was_not_refreshed() {
    let remote = Some("origin".to_string());
    assert!(!upstream_gone_for(true, false, &remote, false, true));
    assert!(!upstream_gone_for(true, false, &None, true, true));
    assert!(upstream_gone_for(true, true, &None, false, true));
    assert!(!upstream_gone_for(true, true, &remote, true, false));
}

#[test]
fn current_directory_worktree_is_reported_and_kept() {
    // W4 holds the current directory and is otherwise merged.
    let action = prune_action(facts(true, false, true, false), false);
    assert_eq!(action, PruneAction::SkipCurrentDirectory);
    let line = prune_report(action, "W4", prune_reason(true, false));
    assert_eq!(line.as_deref(), Some("wt: skipping W4 (merged, current directory)"));
}

#[test]
fn current_directory_guard_comes_before_dirtiness() {
    assert_eq!(
        prune_action(facts(true, true, true, true), false),
        PruneAction::SkipCurrentDirectory
    );
}

#[test]
fn dry_run_reports_would_remove() {
    let action = prune_action(facts(false, true, false, false), true);
    assert_eq!(action, PruneAction::WouldRemove);
    assert_eq!(
        prune_report(action, "x", "upstream gone").as_deref(),
        Some("wt: would remove x (upstream gone)")
    );
}

#[test]
fn both_reasons_name_merged_first() {
    let r = prune_reason(true, true);
    assert_eq!(r, "merged, upstream gone");
    assert!(r.find("merged").unwrap() < r.find("upstream gone").unwrap());
}

#[test]
fn second_pass_removes_nothing() {
    let wts = parse_porcelain(LISTING);
    let all = [
        facts(true, false, false, false),
        facts(true, false, false, false),
        facts(true, false, false, true),
        facts(false, false, false, false),
        facts(true, false, false, false),
        facts(true, false, false, false),
    ];
    let first: Vec<usize> = candidate_indices(&wts, Some("main"))
        .into_iter()
        .filter(|&k| prune_action(all[k], false) == PruneAction::Remove)
        .collect();
    assert_eq!(first, vec![1]);
    let text: String = LISTING
        .split("\n\n")
        .enumerate()
        .filter(|(k, _)| !first.contains(k))
        .map(|(_, b)| format!("{}\n\n", b.trim_end()))
        .collect();
    let rest = parse_porcelain(&text);
    let rest_facts: Vec<PruneFacts> =
        (0..all.len()).filter(|k| !first.contains(k)).map(|k| all[k]).collect();
    let second = candidate_indices(&rest, Some("main"))
        .into_iter()
        .filter(|&k| prune_action(rest_facts[k], false) == PruneAction::Remove)
        .count();
    assert_eq!(second, 0);
    assert_eq!(prune_failures(0), Ok(()));
}

#[test]
fn failures_are_counted_in_the_error() {
    assert_eq!(prune_failures(2), Err("cannot clean up 2 worktree(s)".to_string()));
}

#[test]
fn remotes_are_listed_once() {
    let c = |r: Option<&str>| {
        PruneCandidate::new("b".to_string(), "/p".to_string(), false, false, r.map(|s| s.to_string()))
    };
    let cands = vec![c(Some("origin")), c(None), c(Some("up")), c(Some("origin"))];
    assert_eq!(remotes_to_refresh(&cands), vec!["origin".to_string(), "up".to_string()]);
}

#[test]
fn refresh_status_lookup() {
    let st = vec![
        RemoteStatus { name: "origin".to_string(), refreshed: true },
        RemoteStatus { name: "up".to_string(), refreshed: false },
    ];
    assert!(was_refreshed(&st, &"origin".to_string()));
    assert!(!was_refreshed(&st, &"up".to_string()));
    assert!(!was_refreshed(&st, &"other".to_string()));
}

#[test]
fn label_is_relative_to_root_when_inside() {
    assert_eq!(worktree_label("feat", Some("/r/aa/repo"), Some("/r")), "aa/repo");
    assert_eq!(worktree_label("feat", Some("/rx/aa"), Some("/r")), "feat");
    assert_eq!(worktree_label("feat", None, Some("/r")), "feat");
    assert_eq!(worktree_label("feat", Some("/r/aa"), None), "feat");
}
