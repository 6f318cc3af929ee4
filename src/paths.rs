//! Paths as text. The paths handled here are the canonical absolute paths
//! that the filesystem reports (no `.` or `..` parts, no doubled separator),
//! and the relative paths written in pointer files.
use vstd::prelude::*;

use crate::text::{chars_of, opt_seq};

verus! {

/// The length of `s[..n]` once trailing separators are dropped; a lone
/// leading `/` stays.
pub open spec fn trim_len(s: Seq<char>, n: int) -> int
    decreases n,
{
    if n > 1 && s[n - 1] == '/' {
        trim_len(s, n - 1)
    } else {
        n
    }
}

/// `s` without trailing separators.
pub open spec fn trim_seps(s: Seq<char>) -> Seq<char> {
    s.take(trim_len(s, s.len() as int))
}

/// The index of the last separator in `s[..n]`, or -1.
pub open spec fn last_sep(s: Seq<char>, n: int) -> int
    decreases n,
{
    if n <= 0 {
        -1
    } else if s[n - 1] == '/' {
        n - 1
    } else {
        last_sep(s, n - 1)
    }
}

/// The last component of a path, as `Path::file_name` gives it.
pub open spec fn path_file_name(s: Seq<char>) -> Option<Seq<char>> {
    let t = trim_seps(s);
    let name = t.skip(last_sep(t, t.len() as int) + 1);
    if name.len() == 0 || name == "/"@ || name == ".."@ {
        None
    } else {
        Some(name)
    }
}

/// The path without its last component, as `Path::parent` gives it.
pub open spec fn path_parent(s: Seq<char>) -> Option<Seq<char>> {
    let t = trim_seps(s);
    let k = last_sep(t, t.len() as int);
    if t.len() == 0 || t == "/"@ {
        None
    } else if k < 0 {
        Some(Seq::empty())
    } else if k == 0 {
        Some("/"@)
    } else {
        Some(trim_seps(t.take(k)))
    }
}

/// `inner` is `outer` or lies below it, comparing whole components.
pub open spec fn is_within(inner: Seq<char>, outer: Seq<char>) -> bool {
    inner == outer || (outer.len() > 0 && has_prefix_seq(inner, outer) && (outer.last() == '/'
        || (inner.len() > outer.len() && inner[outer.len() as int] == '/')))
}

pub open spec fn has_prefix_seq(s: Seq<char>, p: Seq<char>) -> bool {
    p.len() <= s.len() && s.take(p.len() as int) == p
}

proof fn lemma_trim_len(s: Seq<char>, n: int)
    requires
        0 <= n <= s.len(),
    ensures
        0 <= trim_len(s, n) <= n,
        n > 0 ==> trim_len(s, n) > 0,
        trim_len(s, n) > 1 ==> s[trim_len(s, n) - 1] != '/',
        forall|k: int| trim_len(s, n) <= k < n ==> s[k] == '/',
    decreases n,
{
    if n > 1 && s[n - 1] == '/' {
        lemma_trim_len(s, n - 1);
    }
}

proof fn lemma_last_sep(s: Seq<char>, n: int)
    requires
        0 <= n <= s.len(),
    ensures
        -1 <= last_sep(s, n) < n,
        last_sep(s, n) >= 0 ==> s[last_sep(s, n)] == '/',
        forall|k: int| last_sep(s, n) < k < n ==> s[k] != '/',
    decreases n,
{
    if n > 0 && s[n - 1] != '/' {
        lemma_last_sep(s, n - 1);
    }
}

/// The length of `t[..n]` without trailing separators.
fn trimmed_len(t: &Vec<char>, n: usize) -> (r: usize)
    requires
        n <= t@.len(),
    ensures
        r == trim_len(t@, n as int),
{
    let mut m = n;
    while m > 1 && t[m - 1] == '/'
        invariant
            m <= n <= t@.len(),
            trim_len(t@, m as int) == trim_len(t@, n as int),
        decreases m,
    {
        m = m - 1;
    }
    m
}

/// The index of the last separator of `t[..n]`, if any.
fn last_separator(t: &Vec<char>, n: usize) -> (r: Option<usize>)
    requires
        n <= t@.len(),
    ensures
        match r {
            Some(k) => k == last_sep(t@, n as int),
            None => last_sep(t@, n as int) == -1,
        },
{
    let mut m = n;
    while m > 0
        invariant
            m <= n <= t@.len(),
            last_sep(t@, m as int) == last_sep(t@, n as int),
        decreases m,
    {
        if t[m - 1] == '/' {
            return Some(m - 1);
        }
        m = m - 1;
    }
    None
}

/// The last component of `path`, as `Path::file_name` gives it.
pub fn file_name_of(path: &str) -> (r: Option<String>)
    ensures
        opt_seq(r) == path_file_name(path@),
{
    let t = chars_of(path);
    let n = trimmed_len(&t, t.len());
    proof {
        lemma_trim_len(t@, t@.len() as int);
    }
    let ghost tv = trim_seps(path@);
    assert(tv =~= t@.take(n as int));
    proof {
        lemma_last_sep(t@, n as int);
    }
    let start = match last_separator(&t, n) {
        Some(k) => k + 1,
        None => 0,
    };
    proof {
        lemma_last_sep(t@, n as int);
        assert(t@.take(n as int) =~= t@.subrange(0, n as int));
        assert forall|m: int| 0 <= m <= n implies last_sep(t@.take(n as int), m) == last_sep(
            t@,
            m,
        ) by {
            lemma_last_sep_prefix(t@, n as int, m);
        }
    }
    let name = String::from_str(path.substring_char(start, n));
    assert(name@ =~= tv.skip(last_sep(tv, tv.len() as int) + 1));
    let is_dotdot = name.as_str().unicode_len() == 2 && name.as_str().get_char(0) == '.'
        && name.as_str().get_char(1) == '.';
    let is_root = name.as_str().unicode_len() == 1 && name.as_str().get_char(0) == '/';
    proof {
        reveal_strlit("..");
        reveal_strlit("/");
        if name@ == ".."@ {
            assert(name@[0] == '.' && name@[1] == '.');
        }
        if is_dotdot {
            assert(name@ =~= ".."@);
        }
        if name@ == "/"@ {
            assert(name@[0] == '/');
        }
        if is_root {
            assert(name@ =~= "/"@);
        }
    }
    if n - start == 0 || is_dotdot || is_root {
        None
    } else {
        Some(name)
    }
}

proof fn lemma_last_sep_prefix(s: Seq<char>, n: int, m: int)
    requires
        0 <= m <= n <= s.len(),
    ensures
        last_sep(s.take(n), m) == last_sep(s, m),
    decreases m,
{
    if m > 0 {
        assert(s.take(n)[m - 1] == s[m - 1]);
        lemma_last_sep_prefix(s, n, m - 1);
    }
}

proof fn lemma_trim_len_prefix(s: Seq<char>, n: int, m: int)
    requires
        0 <= m <= n <= s.len(),
    ensures
        trim_len(s.take(n), m) == trim_len(s, m),
    decreases m,
{
    if m > 1 {
        assert(s.take(n)[m - 1] == s[m - 1]);
        lemma_trim_len_prefix(s, n, m - 1);
    }
}

/// The path without its last component, as `Path::parent` gives it.
pub fn parent_of(path: &str) -> (r: Option<String>)
    ensures
        opt_seq(r) == path_parent(path@),
{
    proof {
        reveal_strlit("/");
    }
    let t = chars_of(path);
    let n = trimmed_len(&t, t.len());
    proof {
        lemma_trim_len(t@, t@.len() as int);
    }
    let ghost tv = trim_seps(path@);
    assert(tv =~= t@.take(n as int));
    if n == 0 {
        return None;
    }
    if n == 1 && t[0] == '/' {
        assert(tv =~= "/"@);
        return None;
    }
    assert(tv != "/"@) by {
        if tv == "/"@ {
            assert(tv[0] == '/');
        }
    }
    proof {
        lemma_last_sep(t@, n as int);
        lemma_last_sep_prefix(t@, n as int, n as int);
    }
    match last_separator(&t, n) {
        None => Some(String::new()),
        Some(k) => {
            if k == 0 {
                Some(String::from_str("/"))
            } else {
                let m = trimmed_len(&t, k);
                proof {
                    lemma_trim_len(t@, k as int);
                    lemma_trim_len_prefix(t@, n as int, k as int);
                    assert(tv.take(k as int) =~= t@.take(k as int));
                    lemma_trim_len_prefix(t@, k as int, k as int);
                }
                let p = String::from_str(path.substring_char(0, m));
                assert(p@ =~= trim_seps(tv.take(k as int)));
                Some(p)
            }
        },
    }
}

/// Whether `inner` is `outer` or lies below it, comparing whole components.
pub fn path_within(inner: &str, outer: &str) -> (r: bool)
    ensures
        r == is_within(inner@, outer@),
{
    let a = chars_of(inner);
    let b = chars_of(outer);
    let na = a.len();
    let nb = b.len();
    if nb > na {
        assert(inner@ != outer@ && !has_prefix_seq(inner@, outer@));
        return false;
    }
    let mut i: usize = 0;
    while i < nb
        invariant
            nb <= na,
            a@ == inner@,
            b@ == outer@,
            na == a@.len(),
            nb == b@.len(),
            i <= nb,
            forall|k: int| 0 <= k < i ==> a@[k] == b@[k],
        decreases nb - i,
    {
        if a[i] != b[i] {
            assert(inner@.take(nb as int)[i as int] != outer@[i as int]);
            assert(inner@ != outer@);
            return false;
        }
        i = i + 1;
    }
    assert(inner@.take(nb as int) =~= outer@);
    if na == nb {
        assert(inner@ =~= outer@);
        return true;
    }
    nb > 0 && (b[nb - 1] == '/' || a[nb] == '/')
}

/// `rel` placed under `base`, as `Path::join` does it.
pub open spec fn join_path(base: Seq<char>, rel: Seq<char>) -> Seq<char> {
    if rel.len() > 0 && rel[0] == '/' {
        rel
    } else if base.len() == 0 || base.last() == '/' {
        base + rel
    } else {
        base + "/"@ + rel
    }
}

/// `rel` placed under `base`, as `Path::join` does it.
pub fn join(base: &str, rel: &str) -> (r: String)
    ensures
        r@ == join_path(base@, rel@),
{
    let nr = rel.unicode_len();
    let nb = base.unicode_len();
    if nr > 0 && rel.get_char(0) == '/' {
        return String::from_str(rel);
    }
    let mut out = String::from_str(base);
    if !(nb == 0 || base.get_char(nb - 1) == '/') {
        out.append("/");
    }
    out.append(rel);
    out
}

/// The repository that owns a linked worktree, read from the worktree's
/// administrative directory `<repo>/.git/worktrees/<name>`.
pub open spec fn admin_repo_of(gitdir: Seq<char>) -> Option<Seq<char>> {
    match path_parent(gitdir) {
        None => None,
        Some(w) => if path_file_name(w) != Some("worktrees"@) {
            None
        } else {
            match path_parent(w) {
                None => None,
                Some(d) => if path_file_name(d) != Some(".git"@) {
                    None
                } else {
                    path_parent(d)
                },
            }
        },
    }
}

/// Whether an optional name is `lit`.
fn name_is(name: &Option<String>, lit: &str) -> (r: bool)
    ensures
        r == (opt_seq(*name) == Some(lit@)),
{
    match name {
        Some(s) => *s == String::from_str(lit),
        None => false,
    }
}

/// The repository that owns the administrative directory `gitdir`, when it
/// has the shape `<repo>/.git/worktrees/<name>`.
pub fn admin_repo_from_gitdir(gitdir: &str) -> (r: Option<String>)
    ensures
        opt_seq(r) == admin_repo_of(gitdir@),
{
    let w = match parent_of(gitdir) {
        Some(w) => w,
        None => return None,
    };
    if !name_is(&file_name_of(w.as_str()), "worktrees") {
        return None;
    }
    let d = match parent_of(w.as_str()) {
        Some(d) => d,
        None => return None,
    };
    if !name_is(&file_name_of(d.as_str()), ".git") {
        return None;
    }
    parent_of(d.as_str())
}


} // verus!

verus! {

/// Whether a relative path has a `..` component.
pub open spec fn has_parent_component(s: Seq<char>) -> bool {
    exists|i: int| dotdot_at(s, i)
}

/// Whether a `..` component starts at `i`.
pub open spec fn dotdot_at(s: Seq<char>, i: int) -> bool {
    0 <= i && i + 2 <= s.len() && s[i] == '.' && s[i + 1] == '.' && (i == 0 || s[i - 1] == '/')
        && (i + 2 == s.len() || s[i + 2] == '/')
}

/// Checks a path given to the link feature: it must be relative and must not
/// climb out with `..`.
pub fn validate_path(file: &str) -> (r: Result<(), String>)
    ensures
        file@.len() > 0 && file@[0] == '/' ==> r is Err && r->Err_0@ == "path must be relative: "@
            + file@,
        !(file@.len() > 0 && file@[0] == '/') && has_parent_component(file@) ==> r is Err
            && r->Err_0@ == "path must not contain '..': "@ + file@,
        !(file@.len() > 0 && file@[0] == '/') && !has_parent_component(file@) ==> r is Ok,
{
    let t = chars_of(file);
    let n = t.len();
    if n > 0 && t[0] == '/' {
        let mut m = String::from_str("path must be relative: ");
        m.append(file);
        return Err(m);
    }
    let mut i: usize = 0;
    while n >= 2 && i <= n - 2
        invariant
            i <= n,
            !(file@.len() > 0 && file@[0] == '/'),
            n == t@.len(),
            t@ == file@,
            forall|k: int| 0 <= k < i ==> !dotdot_at(file@, k),
        decreases n - i,
    {
        if t[i] == '.' && t[i + 1] == '.' && (i == 0 || t[i - 1] == '/') && (i + 2 == n || t[i + 2]
            == '/') {
            assert(dotdot_at(file@, i as int));
            let mut m = String::from_str("path must not contain '..': ");
            m.append(file);
            return Err(m);
        }
        i = i + 1;
    }
    assert forall|k: int| !dotdot_at(file@, k) by {
        if 0 <= k < i {
        } else if dotdot_at(file@, k) {
            assert(k + 2 <= n);
        }
    }
    Ok(())
}

} // verus!
