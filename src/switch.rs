//! Switching to a branch's worktree, creating one when there is none.
use vstd::prelude::*;

use crate::worktree::{views, Worktree, WorktreeView};

verus! {

/// The indices, among the first `n` entries, of the live worktrees on branch
/// `name`: those whose directory still exists.
pub open spec fn live_upto(ws: Seq<WorktreeView>, name: Seq<char>, n: int) -> Seq<int>
    decreases n,
{
    if n <= 0 {
        Seq::empty()
    } else if ws[n - 1].branch == Some(name) && !ws[n - 1].prunable {
        live_upto(ws, name, n - 1).push(n - 1)
    } else {
        live_upto(ws, name, n - 1)
    }
}

/// The live worktrees on branch `name`, by index, in list order.
pub fn live_matches(worktrees: &[Worktree], name: &str) -> (r: Vec<usize>)
    ensures
        r@.len() == live_upto(views(worktrees@), name@, worktrees@.len() as int).len(),
        forall|k: int|
            0 <= k < r@.len() ==> r@[k] as int == live_upto(
                views(worktrees@),
                name@,
                worktrees@.len() as int,
            )[k],
{
    let ghost ws = views(worktrees@);
    let wanted = String::from_str(name);
    let mut r: Vec<usize> = Vec::new();
    let mut i: usize = 0;
    while i < worktrees.len()
        invariant
            i <= worktrees@.len(),
            ws == views(worktrees@),
            wanted@ == name@,
            r@.len() == live_upto(ws, name@, i as int).len(),
            forall|k: int| 0 <= k < r@.len() ==> r@[k] as int == live_upto(ws, name@, i as int)[k],
        decreases worktrees@.len() - i,
    {
        assert(ws[i as int] == worktrees@[i as int]@);
        let on = match &worktrees[i].branch {
            Some(b) => *b == wanted,
            None => false,
        };
        if on && !worktrees[i].prunable {
            r.push(i);
        }
        i = i + 1;
    }
    r
}

/// Whether some worktree on branch `name` has a missing directory, so that
/// stale metadata should be pruned first.
pub fn has_stale_match(worktrees: &[Worktree], name: &str) -> (r: bool)
    ensures
        r == exists|k: int|
            0 <= k < worktrees@.len() && worktrees@[k]@.branch == Some(name@)
                && worktrees@[k]@.prunable,
{
    let wanted = String::from_str(name);
    let mut i: usize = 0;
    while i < worktrees.len()
        invariant
            i <= worktrees@.len(),
            wanted@ == name@,
            forall|k: int|
                0 <= k < i ==> !(worktrees@[k]@.branch == Some(name@) && worktrees@[k]@.prunable),
        decreases worktrees@.len() - i,
    {
        let on = match &worktrees[i].branch {
            Some(b) => *b == wanted,
            None => false,
        };
        if on && worktrees[i].prunable {
            assert(worktrees@[i as int]@.branch == Some(name@));
            return true;
        }
        i = i + 1;
    }
    false
}

/// What switching to a branch without a worktree does.
#[derive(Clone, Copy, Debug, PartialEq, Eq, Structural)]
pub enum SwitchAction {
    /// Check out the existing branch into a new worktree.
    CheckOut,
    /// Create the branch from `HEAD` in a new worktree.
    Create,
    /// Refuse: the branch exists on several remotes and none is local.
    MultipleRemotes,
    /// Refuse: the name is a ref, but not a branch.
    NotABranch,
}

/// Decides how to switch to a branch that has no worktree: `is_local` is
/// whether it is a local branch, `remotes` how many remotes have it, and
/// `resolves` whether the name resolves to some other ref.
pub fn switch_action(is_local: bool, remotes: usize, resolves: bool) -> (r: SwitchAction)
    ensures
        is_local ==> r == SwitchAction::CheckOut,
        !is_local && remotes == 1 ==> r == SwitchAction::CheckOut,
        !is_local && remotes > 1 ==> r == SwitchAction::MultipleRemotes,
        !is_local && remotes == 0 && resolves ==> r == SwitchAction::NotABranch,
        !is_local && remotes == 0 && !resolves ==> r == SwitchAction::Create,
{
    if is_local {
        SwitchAction::CheckOut
    } else if remotes > 1 {
        SwitchAction::MultipleRemotes
    } else if remotes == 1 {
        SwitchAction::CheckOut
    } else if resolves {
        SwitchAction::NotABranch
    } else {
        SwitchAction::Create
    }
}

} // verus!
