//! The walk of the managed root: repository discovery and orphan detection.
//! The filesystem is read by the caller; this module decides, for each
//! directory met, what it means and whether the walk goes below it.
use vstd::prelude::*;

use crate::paths::{admin_repo_from_gitdir, admin_repo_of, join, join_path, parent_of, path_parent};
use crate::text::{
    chars_of, has_prefix, has_prefix_at, lemma_next_nl_bounds, next_newline, next_nl, opt_seq,
    string_views,
};

verus! {

/// Whitespace as `char::is_whitespace` defines it.
pub open spec fn is_ws(c: char) -> bool {
    c == ' ' || ('\t' <= c && c <= '\r') || c == '\u{85}' || c == '\u{a0}' || c == '\u{1680}' || (
    '\u{2000}' <= c && c <= '\u{200a}') || c == '\u{2028}' || c == '\u{2029}' || c == '\u{202f}'
        || c == '\u{205f}' || c == '\u{3000}'
}

fn char_is_ws(c: char) -> (r: bool)
    ensures
        r == is_ws(c),
{
    c == ' ' || ('\t' <= c && c <= '\r') || c == '\u{85}' || c == '\u{a0}' || c == '\u{1680}' || (
    '\u{2000}' <= c && c <= '\u{200a}') || c == '\u{2028}' || c == '\u{2029}' || c == '\u{202f}'
        || c == '\u{205f}' || c == '\u{3000}'
}

/// The start of `t[i..j]` once leading whitespace is dropped.
pub open spec fn ws_start(t: Seq<char>, i: int, j: int) -> int
    decreases j - i,
{
    if i < j && is_ws(t[i]) {
        ws_start(t, i + 1, j)
    } else {
        i
    }
}

/// The end of `t[i..j]` once trailing whitespace is dropped.
pub open spec fn ws_end(t: Seq<char>, i: int, j: int) -> int
    decreases j - i,
{
    if i < j && is_ws(t[j - 1]) {
        ws_end(t, i, j - 1)
    } else {
        j
    }
}

/// `s` without leading and trailing whitespace, as `str::trim` gives it.
pub open spec fn trim_ws(s: Seq<char>) -> Seq<char> {
    let a = ws_start(s, 0, s.len() as int);
    s.subrange(a, ws_end(s, a, s.len() as int))
}

/// The first line of `t`, as `str::lines` gives it, when `t` is not empty.
pub open spec fn first_line(t: Seq<char>) -> Seq<char> {
    let j = next_nl(t, 0);
    if j < t.len() && j > 0 && t[j - 1] == '\r' {
        t.take(j - 1)
    } else {
        t.take(j)
    }
}

/// The administrative directory that a worktree's `.git` pointer file names:
/// its first line, past `gitdir: `, trimmed, and taken relative to the
/// file's directory unless absolute.
pub open spec fn gitdir_spec(content: Seq<char>, dot_git_file: Seq<char>) -> Option<Seq<char>> {
    if content.len() == 0 || !has_prefix(first_line(content), "gitdir: "@) {
        None
    } else {
        let g = trim_ws(first_line(content).skip("gitdir: "@.len() as int));
        if g.len() == 0 {
            None
        } else if g[0] == '/' {
            Some(g)
        } else {
            match path_parent(dot_git_file) {
                Some(p) => Some(join_path(p, g)),
                None => None,
            }
        }
    }
}

proof fn lemma_ws_start(t: Seq<char>, i: int, j: int)
    requires
        0 <= i <= j <= t.len(),
    ensures
        i <= ws_start(t, i, j) <= j,
    decreases j - i,
{
    if i < j && is_ws(t[i]) {
        lemma_ws_start(t, i + 1, j);
    }
}

proof fn lemma_ws_end(t: Seq<char>, i: int, j: int)
    requires
        0 <= i <= j <= t.len(),
    ensures
        i <= ws_end(t, i, j) <= j,
    decreases j - i,
{
    if i < j && is_ws(t[j - 1]) {
        lemma_ws_end(t, i, j - 1);
    }
}

proof fn lemma_ws_shift(t: Seq<char>, off: int, i: int, j: int)
    requires
        0 <= off <= i <= j <= t.len(),
    ensures
        ws_start(t.skip(off), i - off, j - off) == ws_start(t, i, j) - off,
        ws_end(t.skip(off), i - off, j - off) == ws_end(t, i, j) - off,
    decreases j - i,
{
    if i < j {
        assert(t.skip(off)[i - off] == t[i]);
        assert(t.skip(off)[j - 1 - off] == t[j - 1]);
        lemma_ws_shift(t, off, i + 1, j);
        lemma_ws_shift(t, off, i, j - 1);
    }
}

/// Reads the administrative directory named by a `.git` pointer file whose
/// text is `content` and whose own path is `dot_git_file`.
pub fn parse_gitdir(content: &str, dot_git_file: &str) -> (r: Option<String>)
    ensures
        opt_seq(r) == gitdir_spec(content@, dot_git_file@),
{
    let t = chars_of(content);
    let n = t.len();
    if n == 0 {
        return None;
    }
    let j = next_newline(&t, 0);
    proof {
        lemma_next_nl_bounds(t@, 0);
    }
    let end = if j < n && j > 0 && t[j - 1] == '\r' {
        j - 1
    } else {
        j
    };
    assert(first_line(t@) =~= t@.subrange(0, end as int));
    if !has_prefix_at(&t, 0, end, "gitdir: ") {
        return None;
    }
    let k = "gitdir: ".unicode_len();
    let mut a = k;
    while a < end && char_is_ws(t[a])
        invariant
            k <= a <= end <= n,
            n == t@.len(),
            ws_start(t@, a as int, end as int) == ws_start(t@, k as int, end as int),
        decreases end - a,
    {
        a = a + 1;
    }
    let mut b = end;
    proof {
        lemma_ws_start(t@, k as int, end as int);
    }
    while b > a && char_is_ws(t[b - 1])
        invariant
            a <= b <= end <= n,
            n == t@.len(),
            ws_end(t@, a as int, b as int) == ws_end(t@, a as int, end as int),
        decreases b - a,
    {
        b = b - 1;
    }
    proof {
        let line = first_line(t@);
        let rest = line.skip(k as int);
        assert(rest =~= t@.subrange(k as int, end as int));
        lemma_ws_shift(t@.take(end as int), k as int, k as int, end as int);
        lemma_ws_shift(t@.take(end as int), k as int, a as int, end as int);
        assert(ws_start(t@, a as int, end as int) == a);
        assert(ws_end(t@, a as int, b as int) == b);
        assert(t@.take(end as int).skip(k as int) =~= rest);
        assert forall|x: int, y: int| k <= x <= y <= end implies ws_start(t@.take(end as int), x, y)
            == ws_start(t@, x, y) && ws_end(t@.take(end as int), x, y) == ws_end(t@, x, y) by {
            lemma_ws_take(t@, end as int, x, y);
        }
        assert(ws_start(rest, 0, rest.len() as int) == a - k);
        assert(ws_end(rest, a - k, rest.len() as int) == b - k);
        assert(trim_ws(rest) =~= t@.subrange(a as int, b as int));
    }
    if a == b {
        return None;
    }
    let g = content.substring_char(a, b);
    if t[a] == '/' {
        return Some(String::from_str(g));
    }
    match parent_of(dot_git_file) {
        Some(p) => Some(join(p.as_str(), g)),
        None => None,
    }
}

proof fn lemma_ws_take(t: Seq<char>, e: int, i: int, j: int)
    requires
        0 <= i <= j <= e <= t.len(),
    ensures
        ws_start(t.take(e), i, j) == ws_start(t, i, j),
        ws_end(t.take(e), i, j) == ws_end(t, i, j),
    decreases j - i,
{
    if i < j {
        assert(t.take(e)[i] == t[i]);
        assert(t.take(e)[j - 1] == t[j - 1]);
        lemma_ws_take(t, e, i + 1, j);
        lemma_ws_take(t, e, i, j - 1);
    }
}

} // verus!

verus! {

/// What the filesystem shows of one directory met during the walk.
pub enum DirProbe {
    /// It holds a `.git` file: `target` is the directory the file points to,
    /// when the file could be read, and `target_exists` whether that
    /// directory exists.
    Linked { target: Option<String>, target_exists: bool },
    /// It holds a `.git` directory: a repository of its own, not walked.
    Repository,
    /// Neither: the walk goes on below it.
    Plain,
}

/// Whether a directory with this probe is an orphan: its pointer names a
/// directory that does not exist.
pub open spec fn flags_orphan(p: DirProbe) -> bool {
    match p {
        DirProbe::Linked { target, target_exists } => target is Some && !target_exists,
        _ => false,
    }
}

/// The repository that a directory with this probe reveals, if any.
pub open spec fn repo_of_probe(p: DirProbe) -> Option<Seq<char>> {
    match p {
        DirProbe::Linked { target: Some(t), target_exists: _ } => admin_repo_of(t@),
        _ => None,
    }
}

/// Whether a directory's pointer file is malformed.
pub open spec fn is_malformed(p: DirProbe) -> bool {
    p matches DirProbe::Linked { target: None, .. }
}

/// A directory whose pointer names an existing directory is never an orphan.
pub proof fn lemma_existing_target_not_orphan(p: DirProbe)
    requires
        p matches DirProbe::Linked { target_exists: true, .. },
    ensures
        !flags_orphan(p),
{
}

/// The state of a walk below the managed root: the directories still to be
/// listed, the repositories found, each once, and the orphans found.
pub struct Walk {
    pub pending: Vec<String>,
    pub repos: Vec<String>,
    pub orphans: Vec<String>,
}


impl Walk {
    /// No two repositories found are the same.
    pub open spec fn wf(&self) -> bool {
        forall|i: int, j: int|
            0 <= i < j < self.repos@.len() ==> self.repos@[i]@ != self.repos@[j]@
    }

    /// A walk that starts by listing `root`.
    pub fn new(root: String) -> (r: Walk)
        ensures
            r.wf(),
            string_views(r.pending@) == seq![root@],
            r.repos@.len() == 0,
            r.orphans@.len() == 0,
    {
        let mut pending: Vec<String> = Vec::new();
        pending.push(root);
        let r = Walk { pending, repos: Vec::new(), orphans: Vec::new() };
        assert(string_views(r.pending@) =~= seq![root@]);
        r
    }

    /// The next directory to list, if any is left.
    pub fn next_dir(&mut self) -> (r: Option<String>)
        requires
            old(self).wf(),
        ensures
            final(self).wf(),
            final(self).repos == old(self).repos,
            final(self).orphans == old(self).orphans,
            old(self).pending@.len() == 0 ==> r is None && final(self).pending@.len() == 0,
            old(self).pending@.len() > 0 ==> r == Some(old(self).pending@.last())
                && final(self).pending@ == old(self).pending@.drop_last(),
    {
        self.pending.pop()
    }

    /// Takes in a subdirectory `dir` of a listed directory, looking for
    /// repositories. Returns whether its pointer file is malformed: unreadable,
    /// or naming a directory not shaped `<repo>/.git/worktrees/<name>`.
    pub fn visit_for_repos(&mut self, dir: String, probe: &DirProbe) -> (malformed: bool)
        requires
            old(self).wf(),
        ensures
            final(self).wf(),
            malformed == (probe is Linked && repo_of_probe(*probe) is None),
            final(self).orphans == old(self).orphans,
            probe is Plain ==> string_views(final(self).pending@) == string_views(old(self).pending@).push(
                dir@,
            ),
            !(probe is Plain) ==> final(self).pending == old(self).pending,
            forall|s: Seq<char>|
                string_views(final(self).repos@).contains(s) <==> (string_views(
                    old(self).repos@,
                ).contains(s) || repo_of_probe(*probe) == Some(s)),
    {
        let ghost before = string_views(self.repos@);
        match probe {
            DirProbe::Plain => {
                let ghost pv = string_views(self.pending@);
                self.pending.push(dir);
                assert(string_views(self.pending@) =~= pv.push(dir@));
                false
            },
            DirProbe::Repository => false,
            DirProbe::Linked { target, target_exists: _ } => match target {
                None => true,
                Some(t) => {
                    match admin_repo_from_gitdir(t.as_str()) {
                        Some(repo) => {
                            let mut seen = false;
                            let mut i: usize = 0;
                            while i < self.repos.len()
                                invariant
                                    i <= self.repos@.len(),
                                    seen == exists|j: int| 0 <= j < i && self.repos@[j]@ == repo@,
                                decreases self.repos@.len() - i,
                            {
                                if self.repos[i] == repo {
                                    seen = true;
                                }
                                i = i + 1;
                            }
                            if !seen {
                                let ghost rv = self.repos@;
                                self.repos.push(repo);
                                assert(string_views(self.repos@) =~= before.push(repo@));
                                assert forall|s: Seq<char>|
                                    string_views(self.repos@).contains(s) <==> (before.contains(s)
                                        || s == repo@) by {
                                    if before.contains(s) {
                                        let j = choose|j: int| 0 <= j < before.len() && before[j] == s;
                                        assert(string_views(self.repos@)[j] == s);
                                    }
                                    if s == repo@ {
                                        assert(string_views(self.repos@)[before.len() as int] == s);
                                    }
                                    if string_views(self.repos@).contains(s) {
                                        let j = choose|j: int|
                                            0 <= j < string_views(self.repos@).len() && string_views(
                                                self.repos@,
                                            )[j] == s;
                                        if j < before.len() {
                                            assert(before[j] == s);
                                        }
                                    }
                                }
                                assert forall|i: int, j: int|
                                    0 <= i < j < self.repos@.len() implies self.repos@[i]@
                                    != self.repos@[j]@ by {
                                    if j == rv.len() {
                                        assert(self.repos@[i] == rv[i]);
                                    } else {
                                        assert(self.repos@[i] == rv[i] && self.repos@[j] == rv[j]);
                                    }
                                }
                            } else {
                                proof {
                                    let j = choose|j: int|
                                        0 <= j < self.repos@.len() && self.repos@[j]@ == repo@;
                                    assert(before[j] == repo@);
                                    assert(before.contains(repo@));
                                }
                            }
                            false
                        },
                        None => true,
                    }
                },
            },
        }
    }

    /// Takes in a subdirectory `dir` of a listed directory, looking for
    /// orphans. Returns whether its pointer file is malformed.
    pub fn visit_for_orphans(&mut self, dir: String, probe: &DirProbe) -> (malformed: bool)
        requires
            old(self).wf(),
        ensures
            final(self).wf(),
            malformed == is_malformed(*probe),
            final(self).repos == old(self).repos,
            probe is Plain ==> string_views(final(self).pending@) == string_views(old(self).pending@).push(
                dir@,
            ),
            !(probe is Plain) ==> final(self).pending == old(self).pending,
            flags_orphan(*probe) ==> string_views(final(self).orphans@) == string_views(
                old(self).orphans@,
            ).push(dir@),
            !flags_orphan(*probe) ==> final(self).orphans == old(self).orphans,
    {
        match probe {
            DirProbe::Plain => {
                let ghost pv = string_views(self.pending@);
                self.pending.push(dir);
                assert(string_views(self.pending@) =~= pv.push(dir@));
                false
            },
            DirProbe::Repository => false,
            DirProbe::Linked { target, target_exists } => {
                if target.is_none() {
                    true
                } else {
                    if !*target_exists {
                        let ghost ov = string_views(self.orphans@);
                        self.orphans.push(dir);
                        assert(string_views(self.orphans@) =~= ov.push(dir@));
                    }
                    false
                }
            },
        }
    }
}

} // verus!

verus! {

/// `s` without leading and trailing whitespace, as `str::trim` gives it.
pub fn trim_str(s: &str) -> (r: String)
    ensures
        r@ == trim_ws(s@),
{
    let t = chars_of(s);
    let n = t.len();
    let mut a: usize = 0;
    while a < n && char_is_ws(t[a])
        invariant
            a <= n,
            n == t@.len(),
            ws_start(t@, a as int, n as int) == ws_start(t@, 0, n as int),
        decreases n - a,
    {
        a = a + 1;
    }
    let mut b = n;
    while b > a && char_is_ws(t[b - 1])
        invariant
            a <= b <= n,
            n == t@.len(),
            ws_end(t@, a as int, b as int) == ws_end(t@, a as int, n as int),
        decreases b - a,
    {
        b = b - 1;
    }
    String::from_str(s.substring_char(a, b))
}

} // verus!
