use wt::switch::{has_stale_match, live_matches, switch_action, SwitchAction};
use wt::worktree::parse_porcelain;

#[test]
fn switch_returns_existing_worktree_path() {
    let wts = parse_porcelain(
        "worktree /repo\nbranch refs/heads/main\n\nworktree /a\nbranch refs/heads/feat\nprunable\n\nworktree /b\nbranch refs/heads/feat\n",
    );
    assert_eq!(live_matches(&wts, "feat"), vec![2]);
    assert!(has_stale_match(&wts, "feat"));
    assert!(!has_stale_match(&wts, "main"));
    assert_eq!(live_matches(&wts, "none"), Vec::<usize>::new());
}

#[test]
fn switch_decisions() {
    assert_eq!(switch_action(true, 0, false), SwitchAction::CheckOut);
    assert_eq!(switch_action(false, 1, false), SwitchAction::CheckOut);
    assert_eq!(switch_action(false, 2, true), SwitchAction::MultipleRemotes);
    assert_eq!(switch_action(false, 0, true), SwitchAction::NotABranch);
    assert_eq!(switch_action(false, 0, false), SwitchAction::Create);
}
