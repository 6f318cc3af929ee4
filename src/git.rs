//! The version-control tool, seen from the library: the arguments of each
//! call, and what its answers mean. The calls themselves are made by the
//! caller, which hands the answers back.
use vstd::prelude::*;

use crate::text::{chars_of, has_prefix, has_prefix_at, opt_seq, string_views};
use crate::walk::{trim_str, trim_ws};

verus! {

/// A repository, known by the path of its root.
pub struct Git {
    pub repo: String,
}


/// The text of a failed call's diagnostics: trimmed, or a stock phrase when
/// there is none.
pub open spec fn stderr_text(stderr: Seq<char>) -> Seq<char> {
    if trim_ws(stderr).len() == 0 {
        "unknown error"@
    } else {
        trim_ws(stderr)
    }
}

pub fn stderr_msg(stderr: &str) -> (r: String)
    ensures
        r@ == stderr_text(stderr@),
{
    let s = trim_str(stderr);
    if s.as_str().unicode_len() == 0 {
        String::from_str("unknown error")
    } else {
        s
    }
}

/// `s` with the prefix `p` taken off, when it has it.
pub open spec fn strip_prefix_spec(s: Seq<char>, p: Seq<char>) -> Option<Seq<char>> {
    if has_prefix(s, p) {
        Some(s.skip(p.len() as int))
    } else {
        None
    }
}

pub fn strip_prefix(s: &str, p: &str) -> (r: Option<String>)
    ensures
        opt_seq(r) == strip_prefix_spec(s@, p@),
{
    let t = chars_of(s);
    let n = t.len();
    if has_prefix_at(&t, 0, n, p) {
        assert(t@.subrange(0, n as int) =~= s@);
        let k = p.unicode_len();
        let r = String::from_str(s.substring_char(k, n));
        assert(r@ =~= s@.skip(p@.len() as int));
        Some(r)
    } else {
        assert(t@.subrange(0, n as int) =~= s@);
        None
    }
}

impl Git {
    pub fn new(repo: String) -> (r: Git)
        ensures
            r.repo == repo,
    {
        Git { repo }
    }

    /// The arguments that run the tool on this repository with `args`.
    pub fn command(&self, args: Vec<String>) -> (r: Vec<String>)
        ensures
            string_views(r@) == seq!["-C"@, self.repo@] + string_views(args@),
    {
        let mut r: Vec<String> = Vec::new();
        r.push(String::from_str("-C"));
        r.push(self.repo.clone());
        let mut i: usize = 0;
        while i < args.len()
            invariant
                i <= args@.len(),
                string_views(r@) == seq!["-C"@, self.repo@] + string_views(
                    args@.subrange(0, i as int),
                ),
            decreases args@.len() - i,
        {
            let ghost before = string_views(r@);
            let a = args[i].clone();
            assert(a@ == args@[i as int]@);
            r.push(a);
            assert(string_views(r@) =~= before.push(args@[i as int]@));
            assert(string_views(args@.subrange(0, i + 1)) =~= string_views(
                args@.subrange(0, i as int),
            ).push(args@[i as int]@));
            assert(string_views(r@) =~= seq!["-C"@, self.repo@] + string_views(
                args@.subrange(0, i + 1),
            ));
            i = i + 1;
        }
        assert(args@.subrange(0, i as int) =~= args@);
        r
    }

    /// The ref of the local branch `name`.
    pub fn branch_ref(name: &str) -> (r: String)
        ensures
            r@ == "refs/heads/"@ + name@,
    {
        let mut r = String::from_str("refs/heads/");
        r.append(name);
        r
    }

    /// The arguments that deregister the worktree at `path`.
    pub fn remove_worktree_args(path: &str, force: bool) -> (r: Vec<String>)
        ensures
            force ==> string_views(r@) == seq!["worktree"@, "remove"@, "--force"@, path@],
            !force ==> string_views(r@) == seq!["worktree"@, "remove"@, path@],
    {
        let mut r: Vec<String> = Vec::new();
        r.push(String::from_str("worktree"));
        r.push(String::from_str("remove"));
        if force {
            r.push(String::from_str("--force"));
        }
        r.push(String::from_str(path));
        assert(force ==> string_views(r@) =~= seq!["worktree"@, "remove"@, "--force"@, path@]);
        assert(!force ==> string_views(r@) =~= seq!["worktree"@, "remove"@, path@]);
        r
    }

    /// The arguments that delete the local branch `branch`: a delete that
    /// refuses an unmerged branch, or a forced one.
    pub fn delete_branch_args(branch: &str, force: bool) -> (r: Vec<String>)
        ensures
            force ==> string_views(r@) == seq!["branch"@, "-D"@, "--quiet"@, branch@],
            !force ==> string_views(r@) == seq!["branch"@, "-d"@, "--quiet"@, branch@],
    {
        let mut r: Vec<String> = Vec::new();
        r.push(String::from_str("branch"));
        r.push(String::from_str(if force { "-D" } else { "-d" }));
        r.push(String::from_str("--quiet"));
        r.push(String::from_str(branch));
        assert(string_views(r@) =~= seq![
            "branch"@,
            (if force { "-D"@ } else { "-d"@ }),
            "--quiet"@,
            branch@,
        ]);
        r
    }

    /// The message of a failed branch deletion.
    pub fn delete_branch_error(branch: &str, force: bool, stderr: &str) -> (r: String)
        ensures
            r@ == "worktree removed but cannot "@ + (if force {
                "force-delete"@
            } else {
                "delete"@
            }) + " branch '"@ + branch@ + "': "@ + stderr_text(stderr@),
    {
        let mut r = String::from_str("worktree removed but cannot ");
        r.append(if force { "force-delete" } else { "delete" });
        r.append(" branch '");
        r.append(branch);
        r.append("': ");
        r.append(stderr_msg(stderr).as_str());
        r
    }

    /// The registry listing, from the outcome of the listing call.
    pub fn list_worktrees(success: bool, stdout: String, stderr: &str) -> (r: Result<String, String>)
        ensures
            success ==> r == Ok::<String, String>(stdout),
            !success ==> r is Err && r->Err_0@ == "cannot list worktrees: "@ + stderr_text(stderr@),
    {
        if success {
            Ok(stdout)
        } else {
            let mut m = String::from_str("cannot list worktrees: ");
            m.append(stderr_msg(stderr).as_str());
            Err(m)
        }
    }

    /// What the metadata pruning call reported, from its outcome.
    pub fn prune_worktrees(success: bool, stderr: &str) -> (r: Result<String, String>)
        ensures
            success ==> r is Ok && r->Ok_0@ == trim_ws(stderr@),
            !success ==> r is Err && r->Err_0@ == "cannot prune worktree metadata"@,
    {
        if success {
            Ok(trim_str(stderr))
        } else {
            Err(String::from_str("cannot prune worktree metadata"))
        }
    }

    /// A branch's upstream, from what the upstream query printed: none when
    /// it printed nothing but whitespace.
    pub fn upstream_for(output: &str) -> (r: Option<String>)
        ensures
            trim_ws(output@).len() == 0 ==> r is None,
            trim_ws(output@).len() > 0 ==> r is Some && r->Some_0@ == trim_ws(output@),
    {
        let s = trim_str(output);
        if s.as_str().unicode_len() == 0 {
            None
        } else {
            Some(s)
        }
    }

    /// Whether a branch's upstream is gone: it has one, and it no longer
    /// resolves.
    pub fn is_upstream_gone(upstream: &Option<String>, upstream_resolves: bool) -> (r: bool)
        ensures
            r == (upstream is Some && !upstream_resolves),
    {
        upstream.is_some() && !upstream_resolves
    }

    /// The ref against which a branch counts as merged: its upstream when it
    /// has one that resolves, else `HEAD`.
    pub fn merge_target(upstream: Option<String>, upstream_resolves: bool) -> (r: String)
        ensures
            upstream is Some && upstream_resolves ==> r == upstream->Some_0,
            !(upstream is Some && upstream_resolves) ==> r@ == "HEAD"@,
    {
        match upstream {
            Some(u) => if upstream_resolves {
                u
            } else {
                String::from_str("HEAD")
            },
            None => String::from_str("HEAD"),
        }
    }

    /// The default branch that `refs/remotes/origin/HEAD` points to, from
    /// what the symbolic-ref query printed.
    pub fn origin_head_branch(output: &str) -> (r: Option<String>)
        ensures
            opt_seq(r) == strip_prefix_spec(trim_ws(output@), "refs/remotes/origin/"@),
    {
        let s = trim_str(output);
        strip_prefix(s.as_str(), "refs/remotes/origin/")
    }

    /// The base ref: the branch that origin's HEAD names when it exists,
    /// else `origin/main`, else `origin/master`.
    pub fn base_ref(
        head_branch: Option<&str>,
        head_exists: bool,
        main_exists: bool,
        master_exists: bool,
    ) -> (r: Result<String, String>)
        ensures
            head_branch is Some && head_exists ==> r is Ok && r->Ok_0@ == "origin/"@
                + head_branch->Some_0@,
            !(head_branch is Some && head_exists) && main_exists ==> r is Ok && r->Ok_0@
                == "origin/main"@,
            !(head_branch is Some && head_exists) && !main_exists && master_exists ==> r is Ok
                && r->Ok_0@ == "origin/master"@,
            !(head_branch is Some && head_exists) && !main_exists && !master_exists ==> r is Err
                && r->Err_0@
                == "cannot determine default branch (tried origin/HEAD, origin/main, origin/master)"@,
    {
        if let Some(b) = head_branch {
            if head_exists {
                let mut r = String::from_str("origin/");
                r.append(b);
                return Ok(r);
            }
        }
        if main_exists {
            Ok(String::from_str("origin/main"))
        } else if master_exists {
            Ok(String::from_str("origin/master"))
        } else {
            Err(
                String::from_str(
                    "cannot determine default branch (tried origin/HEAD, origin/main, origin/master)",
                ),
            )
        }
    }

    /// The short name of the base branch, from the base ref.
    pub fn base_branch_of(base_ref: &str) -> (r: Option<String>)
        ensures
            opt_seq(r) == strip_prefix_spec(base_ref@, "origin/"@),
    {
        strip_prefix(base_ref, "origin/")
    }
}

} // verus!

verus! {

/// The index of the first tab at or after `i`, or the length.
pub open spec fn next_tab(t: Seq<char>, i: int) -> int
    decreases t.len() - i,
{
    if i >= t.len() {
        t.len() as int
    } else if t[i] == '\t' {
        i
    } else {
        next_tab(t, i + 1)
    }
}

proof fn lemma_next_tab(t: Seq<char>, i: int)
    requires
        0 <= i <= t.len(),
    ensures
        i <= next_tab(t, i) <= t.len(),
    decreases t.len() - i,
{
    if i < t.len() && t[i] != '\t' {
        lemma_next_tab(t, i + 1);
    }
}

fn find_tab(t: &Vec<char>, from: usize) -> (r: usize)
    requires
        from <= t@.len(),
    ensures
        r == next_tab(t@, from as int),
{
    let mut i = from;
    while i < t.len()
        invariant
            from <= i <= t@.len(),
            next_tab(t@, i as int) == next_tab(t@, from as int),
        decreases t@.len() - i,
    {
        if t[i] == '\t' {
            return i;
        }
        i = i + 1;
    }
    i
}

pub open spec fn is_digit(c: char) -> bool {
    '0' <= c && c <= '9'
}

/// The number that a run of decimal digits writes.
pub open spec fn digits_value(s: Seq<char>) -> nat
    decreases s.len(),
{
    if s.len() == 0 {
        0
    } else {
        digits_value(s.drop_last()) * 10 + (s.last() as nat - '0' as nat) as nat
    }
}

/// `s` without a leading `+`.
pub open spec fn unsigned_part(s: Seq<char>) -> Seq<char> {
    if s.len() > 0 && s[0] == '+' {
        s.skip(1)
    } else {
        s
    }
}

pub open spec fn all_digits(d: Seq<char>) -> bool {
    forall|i: int| 0 <= i < d.len() ==> is_digit(d[i])
}

/// What `u64::from_str` gives for `s`: an optional `+`, then one or more
/// decimal digits, of a value that fits.
pub open spec fn parse_u64_spec(s: Seq<char>) -> Option<u64> {
    let d = unsigned_part(s);
    if d.len() == 0 || !all_digits(d) {
        None
    } else if digits_value(d) > u64::MAX {
        None
    } else {
        Some(digits_value(d) as u64)
    }
}

proof fn lemma_digits_monotone(s: Seq<char>, i: int, j: int)
    requires
        0 <= i <= j <= s.len(),
        forall|k: int| 0 <= k < s.len() ==> is_digit(s[k]),
    ensures
        digits_value(s.take(i)) <= digits_value(s.take(j)),
    decreases j - i,
{
    if i < j {
        lemma_digits_monotone(s, i, j - 1);
        assert(s.take(j).drop_last() =~= s.take(j - 1));
    }
}

/// Parses `t[a..b]` as `u64::from_str` does.
fn parse_u64_at(t: &Vec<char>, a: usize, b: usize) -> (r: Option<u64>)
    requires
        a <= b <= t@.len(),
    ensures
        r == parse_u64_spec(t@.subrange(a as int, b as int)),
{
    let ghost s = t@.subrange(a as int, b as int);
    let start = if a < b && t[a] == '+' {
        a + 1
    } else {
        a
    };
    let ghost d = t@.subrange(start as int, b as int);
    assert(d =~= unsigned_part(s));
    if start == b {
        return None;
    }
    let mut i = start;
    while i < b
        invariant
            start <= i <= b <= t@.len(),
            d == t@.subrange(start as int, b as int),
            d == unsigned_part(t@.subrange(a as int, b as int)),
            forall|k: int| start <= k < i ==> is_digit(t@[k]),
        decreases b - i,
    {
        if !('0' <= t[i] && t[i] <= '9') {
            assert(d[i - start] == t@[i as int]);
            assert(!is_digit(d[i - start]));
            assert(!all_digits(d));
            return None;
        }
        i = i + 1;
    }
    assert(all_digits(d)) by {
        assert forall|k: int| 0 <= k < d.len() implies is_digit(d[k]) by {
            assert(d[k] == t@[start + k]);
        }
    }
    let mut v: u64 = 0;
    let mut j = start;
    assert(d.take(0) =~= Seq::<char>::empty());
    while j < b
        invariant
            start <= j <= b <= t@.len(),
            d == t@.subrange(start as int, b as int),
            d == unsigned_part(t@.subrange(a as int, b as int)),
            all_digits(d),
            v as nat == digits_value(d.take(j - start)),
        decreases b - j,
    {
        assert(d[j - start] == t@[j as int]);
        assert(is_digit(t@[j as int]));
        let c = t[j];
        let dig = (c as u32 - '0' as u32) as u64;
        assert(dig as nat == (c as nat - '0' as nat) as nat);
        assert(d.take(j - start + 1).drop_last() =~= d.take(j - start));
        assert(d.take(j - start + 1).last() == t@[j as int]);
        if v > (u64::MAX - dig) / 10 {
            proof {
                assert(digits_value(d.take(j - start + 1)) > u64::MAX) by (nonlinear_arith)
                    requires
                        v > (u64::MAX - dig) / 10,
                        digits_value(d.take(j - start + 1)) == v * 10 + dig,
                        dig <= 9,
                ;
                lemma_digits_monotone(d, j - start + 1, d.len() as int);
                assert(d.take(d.len() as int) =~= d);
                assert(digits_value(d) > u64::MAX);
            }
            return None;
        }
        proof {
            assert(v * 10 + dig <= u64::MAX) by (nonlinear_arith)
                requires
                    v <= (u64::MAX - dig) / 10,
                    dig <= 9,
            ;
        }
        v = v * 10 + dig;
        j = j + 1;
    }
    assert(d.take(d.len() as int) =~= d);
    Some(v)
}

/// The two counts that `rev-list --left-right --count` prints, tab
/// separated: commits ahead of the upstream, then behind it, read from
/// `output` where behind comes first.
pub open spec fn ahead_behind_spec(output: Seq<char>) -> Option<(u64, u64)> {
    let t = trim_ws(output);
    let i = next_tab(t, 0);
    let first = t.take(i);
    let second = if i < t.len() {
        Some(t.subrange(i + 1, next_tab(t, i + 1)))
    } else {
        None
    };
    match (parse_u64_spec(first), second) {
        (Some(behind), Some(s)) => match parse_u64_spec(s) {
            Some(ahead) => Some((ahead, behind)),
            None => None,
        },
        _ => None,
    }
}

impl Git {
    /// Commits ahead of and behind the upstream, from what the count query
    /// printed.
    pub fn ahead_behind(output: &str) -> (r: Option<(u64, u64)>)
        ensures
            r == ahead_behind_spec(output@),
    {
        let s = trim_str(output);
        let t = chars_of(s.as_str());
        let n = t.len();
        let i = find_tab(&t, 0);
        proof {
            lemma_next_tab(t@, 0);
        }
        assert(t@.subrange(0, i as int) =~= t@.take(i as int));
        let behind = parse_u64_at(&t, 0, i);
        if i >= n {
            return None;
        }
        let j = find_tab(&t, i + 1);
        proof {
            lemma_next_tab(t@, i + 1);
        }
        match behind {
            None => None,
            Some(b) => match parse_u64_at(&t, i + 1, j) {
                Some(a) => Some((a, b)),
                None => None,
            },
        }
    }
}

} // verus!
