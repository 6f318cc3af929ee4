//! Removing worktrees safely: resolving a name to one worktree, the checks
//! made before anything is destroyed, and cleaning up emptied directories.
use vstd::prelude::*;

use crate::paths::{is_within, parent_of, path_parent, path_within};
use crate::text::{decimal, decimal_spec, opt_seq, string_views};
use crate::worktree::{branch_checked_out_elsewhere, find_by_path, views, Worktree, WorktreeView};

verus! {

/// Why the removal of a worktree is refused.
#[derive(Clone, Copy, Debug, PartialEq, Eq, Structural)]
pub enum RemoveError {
    /// The target is not the root of a registered worktree.
    NotRegistered,
    /// The target is the primary worktree.
    PrimaryWorktreeProtected,
    /// The target's branch does not exist as a local branch.
    LocalBranchMissing,
    /// The target's branch is checked out in another worktree too.
    BranchCheckedOutElsewhere,
    /// The current directory lies in the target.
    CurrentDirectoryGuard,
    /// The target has uncommitted or untracked changes.
    DirtyWorktree,
    /// The target's branch is not fully merged.
    UnmergedBranch,
}

/// The indices of the entries on branch `name`, in list order.
pub open spec fn branch_indices(ws: Seq<WorktreeView>, name: Seq<char>, n: int) -> Seq<int>
    decreases n,
{
    if n <= 0 {
        Seq::empty()
    } else if ws[n - 1].branch == Some(name) {
        branch_indices(ws, name, n - 1).push(n - 1)
    } else {
        branch_indices(ws, name, n - 1)
    }
}

/// What a branch name resolves to.
pub enum NameLookup {
    /// Exactly one worktree, at this index.
    Found(usize),
    /// No worktree is on that branch.
    NotFound,
    /// Several are, at these indices, in list order.
    Ambiguous(Vec<usize>),
}

/// Resolves a branch name to the one worktree on it.
pub fn resolve_name(worktrees: &[Worktree], name: &str) -> (r: NameLookup)
    ensures
        ({
            let m = branch_indices(views(worktrees@), name@, worktrees@.len() as int);
            match r {
                NameLookup::Found(i) => m.len() == 1 && m[0] == i,
                NameLookup::NotFound => m.len() == 0,
                NameLookup::Ambiguous(v) => m.len() > 1 && v@.len() == m.len() && forall|k: int|
                    0 <= k < m.len() ==> v@[k] as int == m[k],
            }
        }),
{
    let ghost ws = views(worktrees@);
    let wanted = String::from_str(name);
    let mut found: Vec<usize> = Vec::new();
    let mut i: usize = 0;
    while i < worktrees.len()
        invariant
            i <= worktrees@.len(),
            ws == views(worktrees@),
            wanted@ == name@,
            found@.len() == branch_indices(ws, name@, i as int).len(),
            forall|k: int|
                0 <= k < found@.len() ==> found@[k] as int == branch_indices(ws, name@, i as int)[k],
        decreases worktrees@.len() - i,
    {
        assert(ws[i as int] == worktrees@[i as int]@);
        let on = match &worktrees[i].branch {
            Some(b) => *b == wanted,
            None => false,
        };
        if on {
            found.push(i);
        }
        i = i + 1;
    }
    if found.len() == 1 {
        NameLookup::Found(found[0])
    } else if found.len() == 0 {
        NameLookup::NotFound
    } else {
        NameLookup::Ambiguous(found)
    }
}

/// The lines reported when a name matches several worktrees: the name, then
/// each path in list order.
pub fn ambiguity_lines(name: &str, paths: &Vec<String>) -> (r: Vec<String>)
    ensures
        r@.len() == paths@.len() + 1,
        r@[0]@ == "wt: ambiguous name '"@ + name@ + "'; matches:"@,
        forall|k: int| 0 <= k < paths@.len() ==> #[trigger] r@[k + 1]@ == "  - "@ + paths@[k]@,
{
    let mut r: Vec<String> = Vec::new();
    let mut head = String::from_str("wt: ambiguous name '");
    head.append(name);
    head.append("'; matches:");
    r.push(head);
    let mut k: usize = 0;
    while k < paths.len()
        invariant
            k <= paths@.len(),
            r@.len() == k + 1,
            r@[0]@ == "wt: ambiguous name '"@ + name@ + "'; matches:"@,
            forall|j: int| 0 <= j < k ==> #[trigger] r@[j + 1]@ == "  - "@ + paths@[j]@,
        decreases paths@.len() - k,
    {
        let mut line = String::from_str("  - ");
        line.append(paths[k].as_str());
        r.push(line);
        k = k + 1;
    }
    r
}

/// What is known, before a removal, about the target and its surroundings.
pub struct RemovalFacts {
    /// The canonical path of the primary worktree, when it could be had.
    pub primary_path: Option<String>,
    /// Whether the target's branch exists as a local branch.
    pub has_local_branch: bool,
    /// The canonical current directory, when it could be had.
    pub cwd: Option<String>,
    /// Whether the target has uncommitted or untracked changes.
    pub dirty: bool,
    /// Whether the target's branch is fully merged.
    pub merged: bool,
}

/// What to do once a removal is allowed.
pub struct RemovalPlan {
    pub path: String,
    /// The local branch to delete after the worktree is deregistered.
    pub branch: Option<String>,
    /// Whether deregistration and branch deletion are forced.
    pub force: bool,
}

/// The first entry registered at `path`, if any.
pub open spec fn entry_at(ws: Seq<WorktreeView>, path: Seq<char>) -> Option<WorktreeView> {
    if exists|k: int| 0 <= k < ws.len() && ws[k].path == path {
        let k = choose|k: int|
            0 <= k < ws.len() && ws[k].path == path && forall|m: int|
                0 <= m < k ==> ws[m].path != path;
        Some(ws[k])
    } else {
        None
    }
}

/// Whether the current directory `cwd` lies in the directory `dir`.
pub open spec fn cwd_in(dir: Seq<char>, cwd: Option<Seq<char>>) -> bool {
    match cwd {
        Some(c) => is_within(c, dir),
        None => false,
    }
}

pub open spec fn checked_out_elsewhere(ws: Seq<WorktreeView>, b: Seq<char>, path: Seq<char>) -> bool {
    exists|k: int| 0 <= k < ws.len() && ws[k].branch == Some(b) && ws[k].path != path
}

/// The first check that forbids removing the worktree at `target`, in the
/// order they are made, or none.
pub open spec fn removal_block(
    ws: Seq<WorktreeView>,
    target: Seq<char>,
    primary: Option<Seq<char>>,
    has_local_branch: bool,
    cwd: Option<Seq<char>>,
    dirty: bool,
    merged: bool,
    force: bool,
) -> Option<RemoveError> {
    match entry_at(ws, target) {
        None => Some(RemoveError::NotRegistered),
        Some(w) => if primary == Some(target) {
            Some(RemoveError::PrimaryWorktreeProtected)
        } else if w.branch is Some && !has_local_branch {
            Some(RemoveError::LocalBranchMissing)
        } else if w.branch is Some && checked_out_elsewhere(ws, w.branch->Some_0, target) {
            Some(RemoveError::BranchCheckedOutElsewhere)
        } else if cwd_in(target, cwd) {
            Some(RemoveError::CurrentDirectoryGuard)
        } else if !force && dirty {
            Some(RemoveError::DirtyWorktree)
        } else if !force && w.branch is Some && !merged {
            Some(RemoveError::UnmergedBranch)
        } else {
            None
        },
    }
}

/// Whether the current directory lies in `dir`; `canonical` is the canonical
/// form of `dir`, when it could be had.
pub fn is_cwd_inside(canonical: Option<&str>, cwd: Option<&str>) -> (r: bool)
    ensures
        r == match (canonical, cwd) {
            (Some(d), Some(c)) => is_within(c@, d@),
            _ => false,
        },
{
    match (canonical, cwd) {
        (Some(d), Some(c)) => path_within(c, d),
        _ => false,
    }
}

/// Makes the checks that come before removing the worktree at `target`, and
/// says what the removal does when they pass.
pub fn check_removal(worktrees: &[Worktree], target: &str, facts: &RemovalFacts, force: bool) -> (r:
    Result<RemovalPlan, RemoveError>)
    ensures
        ({
            let block = removal_block(
                views(worktrees@),
                target@,
                opt_seq(facts.primary_path),
                facts.has_local_branch,
                opt_seq(facts.cwd),
                facts.dirty,
                facts.merged,
                force,
            );
            match r {
                Ok(plan) => block is None && plan.path@ == target@ && plan.force == force
                    && opt_seq(plan.branch) == entry_at(views(worktrees@), target@)->Some_0.branch,
                Err(e) => block == Some(e),
            }
        }),
{
    let ghost ws = views(worktrees@);
    assert forall|k: int| 0 <= k < worktrees@.len() implies #[trigger] ws[k] == worktrees@[k]@ by {}
    let wt = match find_by_path(worktrees, target) {
        Some(w) => w,
        None => {
            assert(entry_at(ws, target@) is None) by {
                if exists|k: int| 0 <= k < ws.len() && ws[k].path == target@ {
                    let k = choose|k: int| 0 <= k < ws.len() && ws[k].path == target@;
                    assert(worktrees@[k]@.path == target@);
                }
            }
            return Err(RemoveError::NotRegistered);
        },
    };
    proof {
        let k = choose|k: int|
            0 <= k < worktrees@.len() && worktrees@[k]@ == wt@ && wt@.path == target@ && forall|
                m: int,
            |
                0 <= m < k ==> worktrees@[m]@.path != target@;
        assert(ws[k] == wt@);
        let kk = choose|kk: int|
            0 <= kk < ws.len() && ws[kk].path == target@ && forall|m: int|
                0 <= m < kk ==> ws[m].path != target@;
        assert(kk == k) by {
            if kk < k {
                assert(worktrees@[kk]@.path != target@);
            }
            if k < kk {
                assert(ws[k].path != target@);
            }
        }
        assert(entry_at(ws, target@) == Some(wt@));
    }
    let target_s = String::from_str(target);
    let is_primary = match &facts.primary_path {
        Some(p) => *p == target_s,
        None => false,
    };
    if is_primary {
        return Err(RemoveError::PrimaryWorktreeProtected);
    }
    if let Some(b) = &wt.branch {
        if !facts.has_local_branch {
            return Err(RemoveError::LocalBranchMissing);
        }
        let elsewhere = branch_checked_out_elsewhere(worktrees, b.as_str(), target);
        assert(elsewhere == checked_out_elsewhere(ws, b@, target@)) by {
            if elsewhere {
                let k = choose|k: int|
                    0 <= k < worktrees@.len() && worktrees@[k]@.branch == Some(b@)
                        && worktrees@[k]@.path != target@;
                assert(ws[k] == worktrees@[k]@);
            }
            if checked_out_elsewhere(ws, b@, target@) {
                let k = choose|k: int|
                    0 <= k < ws.len() && ws[k].branch == Some(b@) && ws[k].path != target@;
                assert(ws[k] == worktrees@[k]@);
            }
        }
        if elsewhere {
            return Err(RemoveError::BranchCheckedOutElsewhere);
        }
    }
    let cwd_ref = match &facts.cwd {
        Some(c) => Some(c.as_str()),
        None => None,
    };
    if is_cwd_inside(Some(target), cwd_ref) {
        return Err(RemoveError::CurrentDirectoryGuard);
    }
    if !force {
        if facts.dirty {
            return Err(RemoveError::DirtyWorktree);
        }
        if wt.branch.is_some() && !facts.merged {
            return Err(RemoveError::UnmergedBranch);
        }
    }
    let branch = match &wt.branch {
        Some(b) => Some(b.clone()),
        None => None,
    };
    Ok(RemovalPlan { path: target_s, branch, force })
}

/// The number of `false` entries in `results`.
pub open spec fn failures(results: Seq<bool>) -> nat
    decreases results.len(),
{
    if results.len() == 0 {
        0
    } else {
        failures(results.drop_last()) + if results.last() {
            0nat
        } else {
            1nat
        }
    }
}

/// The outcome of removing several targets, each attempted on its own: a
/// failure of any of them is reported once, with the number that failed.
pub fn batch_outcome(results: &[bool]) -> (r: Result<(), String>)
    ensures
        r is Ok <==> failures(results@) == 0,
        r is Err ==> r->Err_0@ == decimal_spec(failures(results@)) + " worktree(s) could not be removed"@,
{
    let mut failed: usize = 0;
    let mut i: usize = 0;
    while i < results.len()
        invariant
            i <= results@.len(),
            failed == failures(results@.subrange(0, i as int)),
            failed <= i,
        decreases results@.len() - i,
    {
        assert(results@.subrange(0, i + 1).drop_last() =~= results@.subrange(0, i as int));
        if !results[i] {
            failed = failed + 1;
        }
        i = i + 1;
    }
    assert(results@.subrange(0, i as int) =~= results@);
    if failed == 0 {
        Ok(())
    } else {
        let mut msg = decimal(failed as u64);
        msg.append(" worktree(s) could not be removed");
        Err(msg)
    }
}

/// The directories that cleanup may remove, starting at `dir` and going up,
/// while they lie strictly below `root`.
pub open spec fn cleanup_chain_spec(dir: Seq<char>, root: Seq<char>) -> Seq<Seq<char>>
    decreases dir.len(),
{
    if dir == root || !is_within(dir, root) {
        Seq::empty()
    } else {
        match path_parent(dir) {
            Some(p) => if p.len() < dir.len() {
                seq![dir] + cleanup_chain_spec(p, root)
            } else {
                seq![dir]
            },
            None => seq![dir],
        }
    }
}


/// The directories that cleanup may remove, from `dir` upward, stopping
/// before `root` and never leaving it. The caller stops at the first that is
/// not empty or holds the current directory.
pub fn cleanup_chain(dir: &str, root: &str) -> (r: Vec<String>)
    ensures
        string_views(r@) == cleanup_chain_spec(dir@, root@),
{
    let mut r: Vec<String> = Vec::new();
    let mut cur = String::from_str(dir);
    let root_s = String::from_str(root);
    loop
        invariant
            root_s@ == root@,
            cleanup_chain_spec(dir@, root@) == string_views(r@) + cleanup_chain_spec(cur@, root@),
        decreases cur@.len(),
    {
        if cur == root_s || !path_within(cur.as_str(), root) {
            assert(string_views(r@) + cleanup_chain_spec(cur@, root@) =~= string_views(r@));
            return r;
        }
        let parent = parent_of(cur.as_str());
        let ghost rv = string_views(r@);
        let ghost cv = cur@;
        match parent {
            Some(p) => {
                if p.as_str().unicode_len() < cur.as_str().unicode_len() {
                    r.push(cur);
                    assert(string_views(r@) =~= rv.push(cv));
                    assert(rv + (seq![cv] + cleanup_chain_spec(p@, root@)) =~= rv.push(cv)
                        + cleanup_chain_spec(p@, root@));
                    cur = p;
                } else {
                    r.push(cur);
                    assert(string_views(r@) =~= rv + seq![cv]);
                    return r;
                }
            },
            None => {
                r.push(cur);
                assert(string_views(r@) =~= rv + seq![cv]);
                return r;
            },
        }
    }
}

/// Whether `dir` is a directory that the tool created for its worktrees:
/// the `<id>` level of `<base>/<id>/<repo>`.
pub open spec fn is_managed_dir_spec(dir: Seq<char>, base: Seq<char>) -> bool {
    is_within(dir, base) && path_parent(dir) == Some(base)
}

/// Whether `dir` is a directory that the tool created for its worktrees,
/// directly below the managed base `base`.
pub fn is_managed_worktree_dir(dir: &str, base: &str) -> (r: bool)
    ensures
        r == is_managed_dir_spec(dir@, base@),
{
    if !path_within(dir, base) {
        return false;
    }
    match parent_of(dir) {
        Some(p) => p == String::from_str(base),
        None => false,
    }
}

/// The entry whose path names the owning repository of a worktree listing
/// read from `target`: the first entry elsewhere, else the first one.
pub open spec fn admin_index_spec(ws: Seq<WorktreeView>, target: Seq<char>) -> Option<int> {
    if exists|k: int| 0 <= k < ws.len() && ws[k].path != target {
        Some(
            choose|k: int|
                0 <= k < ws.len() && ws[k].path != target && forall|m: int|
                    0 <= m < k ==> ws[m].path == target,
        )
    } else if ws.len() > 0 {
        Some(0)
    } else {
        None
    }
}

/// Picks the entry that names the owning repository of a worktree listing
/// read from `target`: the first entry elsewhere than `target`, else the first.
pub fn admin_index(worktrees: &[Worktree], target: &str) -> (r: Option<usize>)
    ensures
        match r {
            Some(i) => i < worktrees@.len() && ((views(worktrees@)[i as int].path != target@
                && forall|m: int| 0 <= m < i ==> views(worktrees@)[m].path == target@) || (i == 0
                && forall|m: int|
                0 <= m < worktrees@.len() ==> views(worktrees@)[m].path == target@)),
            None => worktrees@.len() == 0,
        },
{
    let t = String::from_str(target);
    let mut i: usize = 0;
    while i < worktrees.len()
        invariant
            i <= worktrees@.len(),
            t@ == target@,
            forall|m: int| 0 <= m < i ==> views(worktrees@)[m].path == target@,
        decreases worktrees@.len() - i,
    {
        assert(views(worktrees@)[i as int] == worktrees@[i as int]@);
        if !(worktrees[i].path == t) {
            return Some(i);
        }
        i = i + 1;
    }
    if worktrees.len() > 0 {
        Some(0)
    } else {
        None
    }
}

} // verus!

verus! {

/// The message for a removal that a check forbade.
pub open spec fn blocked_message_spec(kind: RemoveError, target: Seq<char>, branch: Seq<char>) -> Seq<
    char,
> {
    match kind {
        RemoveError::NotRegistered => "not a registered worktree: "@ + target,
        RemoveError::PrimaryWorktreeProtected => "cannot remove the primary worktree: "@ + target,
        RemoveError::LocalBranchMissing => "local branch not found: "@ + branch,
        RemoveError::BranchCheckedOutElsewhere => "branch '"@ + branch
            + "' is checked out in another worktree; remove that worktree first"@,
        RemoveError::CurrentDirectoryGuard => "cannot remove "@ + target
            + ": current directory is inside the worktree"@,
        RemoveError::DirtyWorktree => "worktree has local changes; use --force to remove"@,
        RemoveError::UnmergedBranch => "branch '"@ + branch
            + "' has unpushed commits; use --force to remove"@,
    }
}

/// The message for a removal of `target`, on `branch`, that a check forbade.
pub fn blocked_message(kind: RemoveError, target: &str, branch: &str) -> (r: String)
    ensures
        r@ == blocked_message_spec(kind, target@, branch@),
{
    match kind {
        RemoveError::NotRegistered => {
            let mut m = String::from_str("not a registered worktree: ");
            m.append(target);
            m
        },
        RemoveError::PrimaryWorktreeProtected => {
            let mut m = String::from_str("cannot remove the primary worktree: ");
            m.append(target);
            m
        },
        RemoveError::LocalBranchMissing => {
            let mut m = String::from_str("local branch not found: ");
            m.append(branch);
            m
        },
        RemoveError::BranchCheckedOutElsewhere => {
            let mut m = String::from_str("branch '");
            m.append(branch);
            m.append("' is checked out in another worktree; remove that worktree first");
            m
        },
        RemoveError::CurrentDirectoryGuard => {
            let mut m = String::from_str("cannot remove ");
            m.append(target);
            m.append(": current directory is inside the worktree");
            m
        },
        RemoveError::DirtyWorktree => String::from_str("worktree has local changes; use --force to remove"),
        RemoveError::UnmergedBranch => {
            let mut m = String::from_str("branch '");
            m.append(branch);
            m.append("' has unpushed commits; use --force to remove");
            m
        },
    }
}

/// The message for a branch name that no worktree is on.
pub fn not_found_message(name: &str) -> (r: String)
    ensures
        r@ == "no worktree found for branch: "@ + name@,
{
    let mut m = String::from_str("no worktree found for branch: ");
    m.append(name);
    m
}

} // verus!

verus! {

/// The number of separators in a path: for canonical paths, how deep it lies.
pub open spec fn seps(s: Seq<char>) -> nat
    decreases s.len(),
{
    if s.len() == 0 {
        0
    } else {
        seps(s.drop_last()) + if s.last() == '/' {
            1nat
        } else {
            0nat
        }
    }
}

fn count_seps(s: &str) -> (r: usize)
    ensures
        r as nat == seps(s@),
{
    let n = s.unicode_len();
    let mut c: usize = 0;
    let mut i: usize = 0;
    while i < n
        invariant
            i <= n,
            n == s@.len(),
            c as nat == seps(s@.subrange(0, i as int)),
            c <= i,
        decreases n - i,
    {
        assert(s@.subrange(0, i + 1).drop_last() =~= s@.subrange(0, i as int));
        if s.get_char(i) == '/' {
            c = c + 1;
        }
        i = i + 1;
    }
    assert(s@.subrange(0, i as int) =~= s@);
    c
}

/// Whether `p` is the parent of one of `removed`.
pub open spec fn is_parent_of_some(removed: Seq<String>, p: Seq<char>) -> bool {
    exists|k: int| 0 <= k < removed.len() && path_parent(#[trigger] removed[k]@) == Some(p)
}

/// The directories where cleanup starts after `removed` were deleted: their
/// parents, each once, deepest first.
pub fn cleanup_starts(removed: &[String]) -> (r: Vec<String>)
    ensures
        forall|i: int, j: int| 0 <= i < j < r@.len() ==> r@[i]@ != r@[j]@,
        forall|i: int, j: int| 0 <= i < j < r@.len() ==> seps(r@[i]@) >= seps(r@[j]@),
        forall|p: Seq<char>|
            is_parent_of_some(removed@, p) <==> string_views(r@).contains(p),
{
    let mut r: Vec<String> = Vec::new();
    let mut depth: Vec<usize> = Vec::new();
    let mut k: usize = 0;
    while k < removed.len()
        invariant
            k <= removed@.len(),
            depth@.len() == r@.len(),
            forall|i: int| 0 <= i < r@.len() ==> depth@[i] as nat == seps(#[trigger] r@[i]@),
            forall|i: int, j: int| 0 <= i < j < r@.len() ==> r@[i]@ != r@[j]@,
            forall|i: int, j: int| 0 <= i < j < r@.len() ==> depth@[i] >= depth@[j],
            forall|p: Seq<char>|
                is_parent_of_some(removed@.subrange(0, k as int), p) <==> string_views(
                    r@,
                ).contains(p),
        decreases removed@.len() - k,
    {
        let ghost prefix = removed@.subrange(0, k as int);
        let ghost next = removed@.subrange(0, k + 1);
        assert forall|p: Seq<char>|
            is_parent_of_some(next, p) <==> (is_parent_of_some(prefix, p) || path_parent(
                removed@[k as int]@,
            ) == Some(p)) by {
            if is_parent_of_some(next, p) {
                let m = choose|m: int| 0 <= m < next.len() && path_parent(#[trigger] next[m]@) == Some(p);
                if m < k {
                    assert(prefix[m] == next[m]);
                }
            }
            if is_parent_of_some(prefix, p) {
                let m = choose|m: int|
                    0 <= m < prefix.len() && path_parent(#[trigger] prefix[m]@) == Some(p);
                assert(next[m] == prefix[m]);
            }
            if path_parent(removed@[k as int]@) == Some(p) {
                assert(next[k as int] == removed@[k as int]);
            }
        }
        let ghost old_r = string_views(r@);
        let ghost newp = path_parent(removed@[k as int]@);
        match parent_of(removed[k].as_str()) {
            None => {
                assert(string_views(r@) == old_r);
            },
            Some(p) => {
                let mut seen = false;
                let mut i: usize = 0;
                while i < r.len()
                    invariant
                        i <= r@.len(),
                        seen == exists|j: int| 0 <= j < i && r@[j]@ == p@,
                    decreases r@.len() - i,
                {
                    if r[i] == p {
                        seen = true;
                    }
                    i = i + 1;
                }
                if seen {
                    proof {
                        let j = choose|j: int| 0 <= j < r@.len() && r@[j]@ == p@;
                        assert(string_views(r@)[j] == p@);
                        assert(string_views(r@) == old_r);
                        assert(old_r.contains(p@));
                    }
                } else {
                    let d = count_seps(p.as_str());
                    let mut pos: usize = 0;
                    while pos < depth.len() && depth[pos] >= d
                        invariant
                            pos <= depth@.len(),
                            forall|i: int| 0 <= i < pos ==> depth@[i] >= d,
                        decreases depth@.len() - pos,
                    {
                        pos = pos + 1;
                    }
                    let ghost rv = r@;
                    let ghost dv = depth@;
                    let ghost pv = p@;
                    r.insert(pos, p);
                    depth.insert(pos, d);
                    assert forall|i: int| 0 <= i < r@.len() implies depth@[i] as nat == seps(
                        #[trigger] r@[i]@,
                    ) by {
                        if i < pos {
                            assert(r@[i] == rv[i] && depth@[i] == dv[i]);
                        } else if i > pos {
                            assert(r@[i] == rv[i - 1] && depth@[i] == dv[i - 1]);
                        }
                    }
                    assert forall|i: int, j: int| 0 <= i < j < r@.len() implies depth@[i]
                        >= depth@[j] by {
                        if j < pos {
                        } else if j == pos {
                        } else if i < pos {
                            assert(depth@[j] == dv[j - 1]);
                            if pos < dv.len() {
                                assert(dv[pos as int] < d);
                                assert(dv[pos as int] >= dv[j - 1]);
                            }
                        } else if i == pos {
                            assert(depth@[j] == dv[j - 1]);
                            assert(dv[pos as int] < d);
                            assert(dv[pos as int] >= dv[j - 1] || pos as int == j - 1);
                        } else {
                            assert(depth@[i] == dv[i - 1] && depth@[j] == dv[j - 1]);
                        }
                    }
                    assert forall|i: int, j: int| 0 <= i < j < r@.len() implies r@[i]@
                        != r@[j]@ by {
                        if i == pos as int {
                            assert(r@[j] == rv[j - 1]);
                        } else if j == pos as int {
                            assert(r@[i] == rv[i]);
                        } else {
                            let a = if i < pos { i } else { i - 1 };
                            let b = if j < pos { j } else { j - 1 };
                            assert(r@[i] == rv[a] && r@[j] == rv[b]);
                        }
                    }
                    assert forall|q: Seq<char>|
                        string_views(r@).contains(q) <==> (string_views(rv).contains(q) || q
                            == pv) by {
                        if string_views(r@).contains(q) {
                            let j = choose|j: int|
                                0 <= j < r@.len() && string_views(r@)[j] == q;
                            if j < pos {
                                assert(string_views(rv)[j] == q);
                            } else if j > pos {
                                assert(string_views(rv)[j - 1] == q);
                            }
                        }
                        if string_views(rv).contains(q) {
                            let j = choose|j: int| 0 <= j < rv.len() && string_views(rv)[j] == q;
                            if j < pos {
                                assert(string_views(r@)[j] == q);
                            } else {
                                assert(string_views(r@)[j + 1] == q);
                            }
                        }
                        if q == pv {
                            assert(string_views(r@)[pos as int] == q);
                        }
                    }
                }
            },
        }
        assert forall|q: Seq<char>|
            string_views(r@).contains(q) <==> (old_r.contains(q) || newp == Some(q)) by {}
        assert forall|q: Seq<char>|
            is_parent_of_some(next, q) <==> string_views(r@).contains(q) by {
            assert(is_parent_of_some(prefix, q) <==> old_r.contains(q));
        }
        k = k + 1;
    }
    assert(removed@.subrange(0, k as int) =~= removed@);
    r
}

} // verus!

verus! {

/// Whether a removed worktree's branch is deleted by force: only where the
/// caller has established that this is safe, because the branch's upstream
/// is gone or the user asked for force. Otherwise the deletion refuses an
/// unmerged branch.
pub fn branch_deletion_forced(upstream_gone: bool, force: bool) -> (r: bool)
    ensures
        r == (upstream_gone || force),
{
    upstream_gone || force
}

} // verus!
