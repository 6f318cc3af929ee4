use wt::listing::{column_widths, head_label, trunc, trunc_tail, width_from, worktree_status};
use wt::worktree::parse_porcelain;

#[test]
fn trunc_keeps_head() {
    assert_eq!(trunc("feature/login", 20), "feature/login");
    assert_eq!(trunc("feature/login", 8), "featu...");
    assert_eq!(trunc("feature/login", 3), "fea");
    assert_eq!(trunc("", 0), "");
}

#[test]
fn trunc_tail_keeps_end() {
    assert_eq!(trunc_tail("/home/user/project", 30), "/home/user/project");
    assert_eq!(trunc_tail("/home/user/project", 10), "...project");
    assert_eq!(trunc_tail("/home/user/project", 2), "ct");
}

#[test]
fn head_column() {
    assert_eq!(head_label("0000000000"), "-");
    assert_eq!(head_label("abc123def456"), "abc123de");
    assert_eq!(head_label("abc"), "abc");
}

#[test]
fn status_column() {
    let wts = parse_porcelain(
        "worktree /a\nbare\n\nworktree /b\nHEAD 1\n\nworktree /c\ndetached\nlocked\nprunable\n",
    );
    assert_eq!(worktree_status(&wts[0], true, Some((1, 2))), "bare");
    assert_eq!(worktree_status(&wts[1], false, None), "-");
    assert_eq!(worktree_status(&wts[1], true, Some((3, 0))), "*+3");
    assert_eq!(worktree_status(&wts[1], false, Some((12, 4))), "+12-4");
    assert_eq!(worktree_status(&wts[2], false, None), "detached,locked,prunable");
    assert_eq!(worktree_status(&wts[2], true, Some((0, 1))), "*-1,detached,locked,prunable");
}

#[test]
fn widths() {
    assert_eq!(column_widths(132), (22, 82));
    assert_eq!(column_widths(80), (15, 37));
    assert_eq!(column_widths(20), (14, 12));
    assert_eq!(column_widths(106), (19, 59));
    assert_eq!(width_from(Some(50), Some(200)), 72);
    assert_eq!(width_from(Some(150), None), 150);
    assert_eq!(width_from(None, Some(100)), 100);
    assert_eq!(width_from(None, None), 132);
}
