//! Deciding which linked worktrees a prune pass removes.
use vstd::prelude::*;

use crate::paths::{is_within, path_within};
use crate::text::{decimal, decimal_spec, opt_seq};
use crate::worktree::{views, Worktree, WorktreeView};

verus! {

/// Whether entry `k` of a repository's list is looked at by a prune pass:
/// not the primary worktree, on a branch, not locked, and not on the base
/// branch.
pub open spec fn is_slot(ws: Seq<WorktreeView>, k: int, base_branch: Option<Seq<char>>) -> bool {
    1 <= k < ws.len() && ws[k].branch is Some && !ws[k].locked && base_branch != ws[k].branch
}

/// The indices among the first `n` entries that a prune pass looks at, in order.
pub open spec fn slots_upto(ws: Seq<WorktreeView>, base_branch: Option<Seq<char>>, n: int) -> Seq<
    int,
>
    decreases n,
{
    if n <= 0 {
        Seq::empty()
    } else if is_slot(ws, n - 1, base_branch) {
        slots_upto(ws, base_branch, n - 1).push(n - 1)
    } else {
        slots_upto(ws, base_branch, n - 1)
    }
}

/// The indices of the entries that a prune pass looks at, in list order.
pub open spec fn prune_slots(ws: Seq<WorktreeView>, base_branch: Option<Seq<char>>) -> Seq<int> {
    slots_upto(ws, base_branch, ws.len() as int)
}

/// A list of indices as integers.
pub open spec fn indices(v: Seq<usize>) -> Seq<int> {
    v.map_values(|x: usize| x as int)
}

pub open spec fn opt_str(o: Option<&str>) -> Option<Seq<char>> {
    match o {
        Some(s) => Some(s@),
        None => None,
    }
}

/// The indices of the worktrees that may be pruned, in list order: every
/// entry but the primary one that is on a branch, is not locked and is not on
/// the base branch.
pub fn candidate_indices(worktrees: &[Worktree], base_branch: Option<&str>) -> (r: Vec<usize>)
    ensures
        indices(r@) == prune_slots(views(worktrees@), opt_str(base_branch)),
{
    let ghost ws = views(worktrees@);
    let base = match base_branch {
        Some(b) => Some(String::from_str(b)),
        None => None,
    };
    let mut r: Vec<usize> = Vec::new();
    let mut k: usize = 1;
    assert(slots_upto(ws, opt_str(base_branch), 0) =~= Seq::<int>::empty());
    assert(slots_upto(ws, opt_str(base_branch), 1) =~= Seq::<int>::empty());
    assert(indices(r@) =~= Seq::<int>::empty());
    if worktrees.len() == 0 {
        return r;
    }
    while k < worktrees.len()
        invariant
            1 <= k <= worktrees@.len(),
            ws == views(worktrees@),
            match base {
                Some(s) => opt_str(base_branch) == Some(s@),
                None => opt_str(base_branch) is None,
            },
            indices(r@) == slots_upto(ws, opt_str(base_branch), k as int),
        decreases worktrees@.len() - k,
    {
        let w = &worktrees[k];
        assert(ws[k as int] == w@);
        let on_base = match (&w.branch, &base) {
            (Some(b), Some(s)) => *b == *s,
            _ => false,
        };
        let ghost before = r@;
        if w.branch.is_some() && !w.locked && !on_base {
            r.push(k);
            assert(indices(r@) =~= indices(before).push(k as int));
        }
        k = k + 1;
    }
    r
}

proof fn lemma_slots_skip_primary(ws: Seq<WorktreeView>, base_branch: Option<Seq<char>>, n: int)
    ensures
        forall|i: int|
            0 <= i < slots_upto(ws, base_branch, n).len() ==> is_slot(
                ws,
                #[trigger] slots_upto(ws, base_branch, n)[i],
                base_branch,
            ),
    decreases n,
{
    if n > 0 {
        lemma_slots_skip_primary(ws, base_branch, n - 1);
        let prev = slots_upto(ws, base_branch, n - 1);
        if is_slot(ws, n - 1, base_branch) {
            let cur = prev.push(n - 1);
            assert forall|i: int| 0 <= i < cur.len() implies is_slot(ws, cur[i], base_branch) by {
                if i < prev.len() {
                    assert(cur[i] == prev[i]);
                }
            }
        }
    }
}

/// The primary worktree, first in the list, is never a prune candidate,
/// whatever its flags.
pub proof fn lemma_primary_never_pruned(ws: Seq<WorktreeView>, base_branch: Option<Seq<char>>)
    ensures
        !prune_slots(ws, base_branch).contains(0),
{
    lemma_slots_skip_primary(ws, base_branch, ws.len() as int);
}

} // verus!

verus! {

/// A worktree that a prune pass considers.
pub struct PruneCandidate {
    pub branch: String,
    pub path: String,
    pub merged: bool,
    pub remote: Option<String>,
}

/// A branch counts as merged when a base ref was resolved and the branch is
/// an ancestor of it.
pub open spec fn merged_of(base_resolved: bool, is_ancestor: bool) -> bool {
    base_resolved && is_ancestor
}

impl PruneCandidate {
    /// The candidate for `branch` at `path`; `is_ancestor` is the tool's
    /// answer to whether the branch is an ancestor of the base ref, when one
    /// was resolved.
    pub fn new(
        branch: String,
        path: String,
        base_resolved: bool,
        is_ancestor: bool,
        remote: Option<String>,
    ) -> (r: PruneCandidate)
        ensures
            r.branch == branch,
            r.path == path,
            r.remote == remote,
            r.merged == merged_of(base_resolved, is_ancestor),
    {
        PruneCandidate { branch, path, merged: base_resolved && is_ancestor, remote }
    }
}

/// What is known of a candidate when it is classified.
#[derive(Clone, Copy, Debug)]
pub struct PruneFacts {
    pub merged: bool,
    pub upstream_gone: bool,
    pub cwd_inside: bool,
    pub dirty: bool,
}

/// What a prune pass does with a candidate.
#[derive(Clone, Copy, Debug, PartialEq, Eq, Structural)]
pub enum PruneAction {
    /// Neither merged nor with a vanished upstream.
    Keep,
    /// Eligible, but the current directory is inside it.
    SkipCurrentDirectory,
    /// Eligible, but it has local changes; nothing is reported.
    SkipDirty,
    /// Eligible, and this is a dry run.
    WouldRemove,
    /// Eligible: deregister it and delete its branch.
    Remove,
}

/// The disposition of a candidate: eligibility first, then the current
/// directory guard, then the dirtiness guard.
pub open spec fn action_for(f: PruneFacts, dry_run: bool) -> PruneAction {
    if !f.merged && !f.upstream_gone {
        PruneAction::Keep
    } else if f.cwd_inside {
        PruneAction::SkipCurrentDirectory
    } else if f.dirty {
        PruneAction::SkipDirty
    } else if dry_run {
        PruneAction::WouldRemove
    } else {
        PruneAction::Remove
    }
}

/// Classifies a candidate.
pub fn prune_action(facts: PruneFacts, dry_run: bool) -> (r: PruneAction)
    ensures
        r == action_for(facts, dry_run),
{
    if !facts.merged && !facts.upstream_gone {
        PruneAction::Keep
    } else if facts.cwd_inside {
        PruneAction::SkipCurrentDirectory
    } else if facts.dirty {
        PruneAction::SkipDirty
    } else if dry_run {
        PruneAction::WouldRemove
    } else {
        PruneAction::Remove
    }
}

/// Whether a candidate's upstream counts as gone: only when asked for, only
/// when the upstream is missing, and, outside a dry run, only when the
/// upstream's remote was refreshed in this run.
pub open spec fn gone_for(
    gone: bool,
    dry_run: bool,
    has_remote: bool,
    refreshed: bool,
    upstream_missing: bool,
) -> bool {
    gone && upstream_missing && (dry_run || (has_remote && refreshed))
}

/// Decides whether a candidate's upstream is gone; `upstream_missing` is
/// whether its configured upstream fails to resolve.
pub fn upstream_gone_for(
    gone: bool,
    dry_run: bool,
    remote: &Option<String>,
    refreshed: bool,
    upstream_missing: bool,
) -> (r: bool)
    ensures
        r == gone_for(gone, dry_run, remote is Some, refreshed, upstream_missing),
{
    if !gone {
        false
    } else if dry_run {
        upstream_missing
    } else {
        remote.is_some() && refreshed && upstream_missing
    }
}

/// The outcome of refreshing one remote.
pub struct RemoteStatus {
    pub name: String,
    pub refreshed: bool,
}

/// Whether `remote` appears among `remotes`.
pub open spec fn has_remote_named(remotes: Seq<String>, remote: Seq<char>) -> bool {
    exists|k: int| 0 <= k < remotes.len() && remotes[k]@ == remote
}

/// Whether some candidate has `remote` as its upstream's remote.
pub open spec fn remote_of_some(candidates: Seq<PruneCandidate>, remote: Seq<char>) -> bool {
    exists|m: int|
        0 <= m < candidates.len() && #[trigger] opt_seq(candidates[m].remote) == Some(remote)
}


/// The remotes of the candidates, each once, in order of first appearance.
pub fn remotes_to_refresh(candidates: &[PruneCandidate]) -> (r: Vec<String>)
    ensures
        forall|i: int, j: int| 0 <= i < j < r@.len() ==> r@[i]@ != r@[j]@,
        forall|k: int|
            0 <= k < candidates@.len() && candidates@[k].remote is Some ==> has_remote_named(
                r@,
                candidates@[k].remote->Some_0@,
            ),
        forall|i: int| 0 <= i < r@.len() ==> remote_of_some(candidates@, #[trigger] r@[i]@),
{
    let mut r: Vec<String> = Vec::new();
    let mut k: usize = 0;
    while k < candidates.len()
        invariant
            k <= candidates@.len(),
            forall|i: int, j: int| 0 <= i < j < r@.len() ==> r@[i]@ != r@[j]@,
            forall|m: int|
                0 <= m < k && candidates@[m].remote is Some ==> has_remote_named(
                    r@,
                    candidates@[m].remote->Some_0@,
                ),
            forall|i: int| 0 <= i < r@.len() ==> remote_of_some(candidates@, #[trigger] r@[i]@),
        decreases candidates@.len() - k,
    {
        if let Some(remote) = &candidates[k].remote {
            let mut seen = false;
            let mut i: usize = 0;
            while i < r.len()
                invariant
                    i <= r@.len(),
                    seen == exists|j: int| 0 <= j < i && r@[j]@ == remote@,
                decreases r@.len() - i,
            {
                if r[i] == *remote {
                    seen = true;
                }
                i = i + 1;
            }
            if !seen {
                let ghost before = r@;
                let copy = remote.clone();
                r.push(copy);
                assert(r@[before.len() as int]@ == remote@);
                assert(opt_seq(candidates@[k as int].remote) == Some(remote@));
                assert forall|m: int|
                    0 <= m <= k && candidates@[m].remote is Some implies has_remote_named(
                    r@,
                    candidates@[m].remote->Some_0@,
                ) by {
                    if m < k {
                        let j = choose|j: int|
                            0 <= j < before.len() && before[j]@ == candidates@[m].remote->Some_0@;
                        assert(r@[j] == before[j]);
                    } else {
                        assert(r@[before.len() as int]@ == candidates@[m].remote->Some_0@);
                    }
                }
                assert forall|i: int| 0 <= i < r@.len() implies remote_of_some(
                    candidates@,
                    #[trigger] r@[i]@,
                ) by {
                    if i < before.len() {
                        assert(r@[i] == before[i]);
                    }
                }
            } else {
                assert(has_remote_named(r@, candidates@[k as int].remote->Some_0@));
            }
        }
        k = k + 1;
    }
    r
}

/// Whether `remote` was refreshed, according to the first status that names
/// it; a remote that none names was not.
pub open spec fn refreshed_in(statuses: Seq<RemoteStatus>, remote: Seq<char>) -> bool
    decreases statuses.len(),
{
    if statuses.len() == 0 {
        false
    } else if statuses[0].name@ == remote {
        statuses[0].refreshed
    } else {
        refreshed_in(statuses.skip(1), remote)
    }
}

/// Looks up whether `remote` was refreshed in this run.
pub fn was_refreshed(statuses: &[RemoteStatus], remote: &String) -> (r: bool)
    ensures
        r == refreshed_in(statuses@, remote@),
{
    let mut i: usize = 0;
    assert(statuses@.skip(0) =~= statuses@);
    while i < statuses.len()
        invariant
            i <= statuses@.len(),
            refreshed_in(statuses@.skip(i as int), remote@) == refreshed_in(statuses@, remote@),
        decreases statuses@.len() - i,
    {
        assert(statuses@.skip(i as int).skip(1) =~= statuses@.skip(i + 1));
        if statuses[i].name == *remote {
            return statuses[i].refreshed;
        }
        i = i + 1;
    }
    false
}

/// Why a candidate is eligible: both reasons, merged first, when both hold.
pub open spec fn reason_spec(merged: bool, upstream_gone: bool) -> Seq<char> {
    if merged && upstream_gone {
        "merged, upstream gone"@
    } else if merged {
        "merged"@
    } else {
        "upstream gone"@
    }
}

/// The reason printed for an eligible candidate.
pub fn prune_reason(merged: bool, upstream_gone: bool) -> (r: &'static str)
    requires
        merged || upstream_gone,
    ensures
        r@ == reason_spec(merged, upstream_gone),
{
    if merged && upstream_gone {
        "merged, upstream gone"
    } else if merged {
        "merged"
    } else {
        "upstream gone"
    }
}

/// A branch that is an ancestor of the resolved base ref counts as merged;
/// when its upstream is gone as well, the reason names "merged" before
/// "upstream gone".
pub proof fn lemma_merged_reason_order(upstream_gone: bool)
    ensures
        merged_of(true, true),
        upstream_gone ==> reason_spec(merged_of(true, true), upstream_gone) == "merged"@ + ", "@
            + "upstream gone"@,
{
    reveal_strlit("merged, upstream gone");
    reveal_strlit("merged");
    reveal_strlit(", ");
    reveal_strlit("upstream gone");
    assert("merged, upstream gone"@ =~= "merged"@ + ", "@ + "upstream gone"@);
}

} // verus!

verus! {

/// `p` relative to `root`, as `Path::strip_prefix` gives it, for a `p`
/// within `root`.
pub open spec fn strip_root(p: Seq<char>, root: Seq<char>) -> Seq<char> {
    if p == root {
        Seq::empty()
    } else if root.len() > 0 && root.last() == '/' {
        p.skip(root.len() as int)
    } else {
        p.skip(root.len() as int + 1)
    }
}

/// How a candidate is named in reports: its path relative to the managed
/// root when it lies there, its branch otherwise.
pub open spec fn label_spec(
    branch: Seq<char>,
    canonical: Option<Seq<char>>,
    root: Option<Seq<char>>,
) -> Seq<char> {
    match (root, canonical) {
        (Some(r), Some(c)) => if is_within(c, r) {
            strip_root(c, r)
        } else {
            branch
        },
        _ => branch,
    }
}

/// Names a candidate in reports; `canonical` is its canonical path, when it
/// could be had.
pub fn worktree_label(branch: &str, canonical: Option<&str>, root: Option<&str>) -> (r: String)
    ensures
        r@ == label_spec(branch@, opt_str(canonical), opt_str(root)),
{
    match (root, canonical) {
        (Some(rt), Some(c)) => {
            if path_within(c, rt) {
                let nc = c.unicode_len();
                let nr = rt.unicode_len();
                if nc == nr {
                    assert(c@.len() == rt@.len());
                    assert(c@ =~= rt@) by {
                        assert(c@.take(rt@.len() as int) =~= c@);
                    }
                    String::new()
                } else if nr > 0 && rt.get_char(nr - 1) == '/' {
                    String::from_str(c.substring_char(nr, nc))
                } else {
                    String::from_str(c.substring_char(nr + 1, nc))
                }
            } else {
                String::from_str(branch)
            }
        },
        _ => String::from_str(branch),
    }
}

/// The line reported for a candidate's disposition, if any. The line for
/// `Remove` is reported once the removal has succeeded.
pub open spec fn report_spec(action: PruneAction, label: Seq<char>, reason: Seq<char>) -> Option<
    Seq<char>,
> {
    match action {
        PruneAction::SkipCurrentDirectory => Some(
            "wt: skipping "@ + label + " ("@ + reason + ", current directory)"@,
        ),
        PruneAction::WouldRemove => Some("wt: would remove "@ + label + " ("@ + reason + ")"@),
        PruneAction::Remove => Some("wt: removed "@ + label + " ("@ + reason + ")"@),
        _ => None,
    }
}

/// The line reported for a candidate's disposition, if any.
pub fn prune_report(action: PruneAction, label: &str, reason: &str) -> (r: Option<String>)
    ensures
        opt_seq(r) == report_spec(action, label@, reason@),
{
    let (lead, tail) = match action {
        PruneAction::SkipCurrentDirectory => ("wt: skipping ", ", current directory)"),
        PruneAction::WouldRemove => ("wt: would remove ", ")"),
        PruneAction::Remove => ("wt: removed ", ")"),
        _ => return None,
    };
    let mut line = String::from_str(lead);
    line.append(label);
    line.append(" (");
    line.append(reason);
    line.append(tail);
    Some(line)
}

/// The error that ends a prune pass in which `failures` removals failed.
pub fn prune_failures(failures: usize) -> (r: Result<(), String>)
    ensures
        failures == 0 <==> r is Ok,
        r is Err ==> r->Err_0@ == "cannot clean up "@ + decimal_spec(failures as nat)
            + " worktree(s)"@,
{
    if failures == 0 {
        Ok(())
    } else {
        let mut msg = String::from_str("cannot clean up ");
        msg.append(decimal(failures as u64).as_str());
        msg.append(" worktree(s)");
        Err(msg)
    }
}

/// A registry entry together with what a prune pass learns about it.
pub struct PruneEntry {
    pub worktree: WorktreeView,
    pub facts: PruneFacts,
}

pub open spec fn entry_views(es: Seq<PruneEntry>) -> Seq<WorktreeView> {
    es.map_values(|e: PruneEntry| e.worktree)
}

/// Whether a prune pass removes entry `k`.
pub open spec fn removes(es: Seq<PruneEntry>, k: int, base_branch: Option<Seq<char>>) -> bool {
    is_slot(entry_views(es), k, base_branch) && action_for(es[k].facts, false)
        == PruneAction::Remove
}

/// The entries among the first `n` that remain after a prune pass in which
/// every removal succeeded.
pub open spec fn remaining_upto(es: Seq<PruneEntry>, base_branch: Option<Seq<char>>, n: int) -> Seq<
    PruneEntry,
>
    decreases n,
{
    if n <= 0 {
        Seq::empty()
    } else if removes(es, n - 1, base_branch) {
        remaining_upto(es, base_branch, n - 1)
    } else {
        remaining_upto(es, base_branch, n - 1).push(es[n - 1])
    }
}

pub open spec fn remaining(es: Seq<PruneEntry>, base_branch: Option<Seq<char>>) -> Seq<PruneEntry> {
    remaining_upto(es, base_branch, es.len() as int)
}

/// Whether `e` is an entry of `es`, other than the first and before `n`,
/// that a prune pass keeps.
pub open spec fn kept_entry(es: Seq<PruneEntry>, base_branch: Option<Seq<char>>, n: int, e: PruneEntry) -> bool {
    exists|k: int| 1 <= k < n && es[k] == e && !removes(es, k, base_branch)
}

proof fn lemma_remaining(es: Seq<PruneEntry>, base_branch: Option<Seq<char>>, n: int)
    requires
        1 <= n <= es.len(),
    ensures
        remaining_upto(es, base_branch, n).len() >= 1,
        remaining_upto(es, base_branch, n)[0] == es[0],
        forall|j: int|
            1 <= j < remaining_upto(es, base_branch, n).len() ==> kept_entry(
                es,
                base_branch,
                n,
                #[trigger] remaining_upto(es, base_branch, n)[j],
            ),
    decreases n,
{
    let rem = remaining_upto(es, base_branch, n);
    if n == 1 {
        assert(!removes(es, 0, base_branch));
        assert(remaining_upto(es, base_branch, 0) =~= Seq::<PruneEntry>::empty());
    } else {
        lemma_remaining(es, base_branch, n - 1);
        let prev = remaining_upto(es, base_branch, n - 1);
        assert forall|j: int| 1 <= j < rem.len() implies kept_entry(
            es,
            base_branch,
            n,
            #[trigger] rem[j],
        ) by {
            if j < prev.len() {
                assert(rem[j] == prev[j]);
                assert(kept_entry(es, base_branch, n - 1, prev[j]));
                let k = choose|k: int|
                    1 <= k < n - 1 && es[k] == prev[j] && !removes(es, k, base_branch);
                assert(es[k] == rem[j]);
            } else {
                assert(rem[j] == es[n - 1]);
            }
        }
    }
}

/// A prune pass run again right after one in which every removal succeeded,
/// with nothing changed in between, removes nothing, and so has no failure
/// to report.
pub proof fn lemma_prune_idempotent(es: Seq<PruneEntry>, base_branch: Option<Seq<char>>)
    ensures
        forall|j: int|
            0 <= j < remaining(es, base_branch).len() ==> !removes(
                remaining(es, base_branch),
                j,
                base_branch,
            ),
{
    let rem = remaining(es, base_branch);
    if es.len() >= 1 {
        lemma_remaining(es, base_branch, es.len() as int);
        assert forall|j: int| 0 <= j < rem.len() implies !removes(rem, j, base_branch) by {
            if j >= 1 {
                assert(kept_entry(es, base_branch, es.len() as int, rem[j]));
                let k = choose|k: int|
                    1 <= k < es.len() && es[k] == rem[j] && !removes(es, k, base_branch);
                assert(entry_views(rem)[j] == entry_views(es)[k]);
            }
        }
    } else {
        assert(rem =~= Seq::<PruneEntry>::empty());
    }
}

} // verus!
