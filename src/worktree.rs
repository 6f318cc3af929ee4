use vstd::prelude::*;

use crate::text::{
    chars_of, equals_at, has_prefix, opt_seq, has_prefix_at, lemma_next_nl_bounds, next_newline, next_nl,
};

verus! {

/// One entry of a repository's worktree registry.
pub struct Worktree {
    pub path: String,
    pub head: String,
    pub branch: Option<String>,
    pub bare: bool,
    pub detached: bool,
    pub locked: bool,
    pub prunable: bool,
}

/// The value of a `Worktree`, with its strings as character sequences.
pub struct WorktreeView {
    pub path: Seq<char>,
    pub head: Seq<char>,
    pub branch: Option<Seq<char>>,
    pub bare: bool,
    pub detached: bool,
    pub locked: bool,
    pub prunable: bool,
}


impl View for Worktree {
    type V = WorktreeView;

    open spec fn view(&self) -> WorktreeView {
        WorktreeView {
            path: self.path@,
            head: self.head@,
            branch: opt_seq(self.branch),
            bare: self.bare,
            detached: self.detached,
            locked: self.locked,
            prunable: self.prunable,
        }
    }
}

/// The views of a list of worktrees.
pub open spec fn views(ws: Seq<Worktree>) -> Seq<WorktreeView> {
    ws.map_values(|w: Worktree| w@)
}

/// The record being filled while the registry text is read.
pub struct ParserState {
    pub path: Option<Seq<char>>,
    pub head: Seq<char>,
    pub branch: Option<Seq<char>>,
    pub bare: bool,
    pub detached: bool,
    pub locked: bool,
    pub prunable: bool,
}

pub open spec fn fresh_state() -> ParserState {
    ParserState {
        path: None,
        head: Seq::empty(),
        branch: None,
        bare: false,
        detached: false,
        locked: false,
        prunable: false,
    }
}

/// What a flush emits: the record in progress, if it has a path.
pub open spec fn flushed(st: ParserState) -> Seq<WorktreeView> {
    match st.path {
        Some(p) => seq![
            WorktreeView {
                path: p,
                head: st.head,
                branch: st.branch,
                bare: st.bare,
                detached: st.detached,
                locked: st.locked,
                prunable: st.prunable,
            },
        ],
        None => Seq::empty(),
    }
}

/// The state left by a flush: a fresh record once one was emitted.
pub open spec fn after_flush(st: ParserState) -> ParserState {
    if st.path is Some {
        fresh_state()
    } else {
        st
    }
}

/// The branch stored for the ref named on a `branch` line: its short name
/// under `refs/heads/`, and no branch for any other ref.
pub open spec fn branch_of_ref(r: Seq<char>) -> Option<Seq<char>> {
    if has_prefix(r, "refs/heads/"@) {
        Some(r.skip("refs/heads/"@.len() as int))
    } else {
        None
    }
}

/// Whether `line` is `word` alone or `word` followed by a space and a reason.
pub open spec fn is_flag_line(line: Seq<char>, word: Seq<char>, word_sp: Seq<char>) -> bool {
    line == word || has_prefix(line, word_sp)
}

/// The effect of one line: what it emits, and the state after it.
pub open spec fn step(st: ParserState, line: Seq<char>) -> (Seq<WorktreeView>, ParserState) {
    if line.len() == 0 {
        (flushed(st), after_flush(st))
    } else if has_prefix(line, "worktree "@) {
        (
            flushed(st),
            ParserState { path: Some(line.skip("worktree "@.len() as int)), ..after_flush(st) },
        )
    } else if has_prefix(line, "HEAD "@) {
        (Seq::empty(), ParserState { head: line.skip("HEAD "@.len() as int), ..st })
    } else if has_prefix(line, "branch "@) {
        (
            Seq::empty(),
            ParserState { branch: branch_of_ref(line.skip("branch "@.len() as int)), ..st },
        )
    } else if line == "bare"@ {
        (Seq::empty(), ParserState { bare: true, ..st })
    } else if line == "detached"@ {
        (Seq::empty(), ParserState { detached: true, ..st })
    } else if is_flag_line(line, "locked"@, "locked "@) {
        (Seq::empty(), ParserState { locked: true, ..st })
    } else if is_flag_line(line, "prunable"@, "prunable "@) {
        (Seq::empty(), ParserState { prunable: true, ..st })
    } else {
        (Seq::empty(), st)
    }
}

/// The line that starts at `i` and ends before the newline at `j`: a
/// carriage return just before that newline is not part of it.
pub open spec fn line_at(t: Seq<char>, i: int, j: int) -> Seq<char> {
    if j < t.len() && j > i && t[j - 1] == '\r' {
        t.subrange(i, j - 1)
    } else {
        t.subrange(i, j)
    }
}

/// The worktrees read from the lines of `t` that start at `i` on, given the
/// state `st` in which that line is reached.
pub open spec fn parse_from(t: Seq<char>, i: int, st: ParserState) -> Seq<WorktreeView>
    decreases t.len() - i,
{
    if i < 0 || i >= t.len() {
        flushed(st)
    } else {
        let j = next_nl(t, i);
        let (emitted, next) = step(st, line_at(t, i, j));
        if j < i || j >= t.len() {
            emitted + flushed(next)
        } else {
            emitted + parse_from(t, j + 1, next)
        }
    }
}

/// The worktrees that a registry listing describes, in order.
pub open spec fn parse_spec(t: Seq<char>) -> Seq<WorktreeView> {
    parse_from(t, 0, fresh_state())
}

/// The number of lines, from the one that starts at `i` on, that open a
/// worktree block.
pub open spec fn worktree_lines_from(t: Seq<char>, i: int) -> nat
    decreases t.len() - i,
{
    if i < 0 || i >= t.len() {
        0
    } else {
        let j = next_nl(t, i);
        let c: nat = if has_prefix(line_at(t, i, j), "worktree "@) {
            1
        } else {
            0
        };
        if j < i || j >= t.len() {
            c
        } else {
            c + worktree_lines_from(t, j + 1)
        }
    }
}

/// The number of `worktree ` lines of a registry listing.
pub open spec fn worktree_line_count(t: Seq<char>) -> nat {
    worktree_lines_from(t, 0)
}

pub open spec fn has_path(st: ParserState) -> nat {
    if st.path is Some {
        1
    } else {
        0
    }
}

proof fn lemma_step_count(st: ParserState, line: Seq<char>)
    ensures
        step(st, line).0.len() + has_path(step(st, line).1) == has_path(st) + (if has_prefix(
            line,
            "worktree "@,
        ) {
            1nat
        } else {
            0nat
        }),
{
    reveal_strlit("worktree ");
}

proof fn lemma_parse_count(t: Seq<char>, i: int, st: ParserState)
    requires
        0 <= i,
    ensures
        parse_from(t, i, st).len() == worktree_lines_from(t, i) + has_path(st),
    decreases t.len() - i,
{
    if i < t.len() {
        let j = next_nl(t, i);
        lemma_next_nl_bounds(t, i);
        lemma_step_count(st, line_at(t, i, j));
        let (e, nx) = step(st, line_at(t, i, j));
        if j < t.len() {
            lemma_parse_count(t, j + 1, nx);
        }
    }
}

proof fn lemma_next_nl_push(t: Seq<char>, i: int)
    requires
        0 <= i <= t.len(),
    ensures
        next_nl(t.push('\n'), i) == next_nl(t, i),
    decreases t.len() - i,
{
    if i < t.len() {
        assert(t.push('\n')[i] == t[i]);
        if t[i] != '\n' {
            lemma_next_nl_push(t, i + 1);
        }
    } else {
        assert(t.push('\n')[i] == '\n');
    }
}

proof fn lemma_count_push(t: Seq<char>, i: int)
    requires
        0 <= i <= t.len(),
    ensures
        worktree_lines_from(t.push('\n'), i) == worktree_lines_from(t, i),
    decreases t.len() - i,
{
    let u = t.push('\n');
    reveal_strlit("worktree ");
    lemma_next_nl_push(t, i);
    lemma_next_nl_bounds(t, i);
    lemma_next_nl_bounds(u, i);
    let j = next_nl(t, i);
    if i == t.len() {
        assert(line_at(u, i, j).len() == 0);
        assert(worktree_lines_from(u, j + 1) == 0);
    } else if j < t.len() {
        assert(line_at(u, i, j) =~= line_at(t, i, j));
        lemma_count_push(t, j + 1);
    } else {
        let a = line_at(u, i, j);
        let b = line_at(t, i, j);
        let p = "worktree "@;
        assert(b =~= t.subrange(i, j));
        assert(u[j - 1] == t[j - 1]);
        if t[j - 1] == '\r' {
            assert(a =~= b.drop_last());
            if has_prefix(b, p) {
                assert(b.len() != p.len()) by {
                    if b.len() == p.len() {
                        assert(b[b.len() - 1] == p[p.len() - 1]);
                    }
                }
                assert(a.subrange(0, p.len() as int) =~= b.subrange(0, p.len() as int));
            }
            if has_prefix(a, p) {
                assert(a.subrange(0, p.len() as int) =~= b.subrange(0, p.len() as int));
            }
        } else {
            assert(a =~= b);
        }
        assert(worktree_lines_from(u, j + 1) == 0);
    }
}

/// The registry listing yields one worktree per `worktree ` line, and a
/// trailing blank line changes nothing in that count.
pub proof fn lemma_one_worktree_per_block(t: Seq<char>)
    ensures
        parse_spec(t).len() == worktree_line_count(t),
        parse_spec(t.push('\n')).len() == parse_spec(t).len(),
{
    lemma_parse_count(t, 0, fresh_state());
    lemma_parse_count(t.push('\n'), 0, fresh_state());
    lemma_count_push(t, 0);
}

/// The executable record in progress.
pub struct PorcelainParser {
    pub path: Option<String>,
    pub head: String,
    pub branch: Option<String>,
    pub bare: bool,
    pub detached: bool,
    pub locked: bool,
    pub prunable: bool,
}

impl View for PorcelainParser {
    type V = ParserState;

    open spec fn view(&self) -> ParserState {
        ParserState {
            path: opt_seq(self.path),
            head: self.head@,
            branch: opt_seq(self.branch),
            bare: self.bare,
            detached: self.detached,
            locked: self.locked,
            prunable: self.prunable,
        }
    }
}

impl PorcelainParser {
    pub fn new() -> (r: PorcelainParser)
        ensures
            r@ == fresh_state(),
    {
        PorcelainParser {
            path: None,
            head: String::new(),
            branch: None,
            bare: false,
            detached: false,
            locked: false,
            prunable: false,
        }
    }

    /// Emits the record in progress, if it has a path, and starts a new one.
    pub fn flush(&mut self, out: &mut Vec<Worktree>)
        ensures
            views(final(out)@) == views(old(out)@) + flushed(old(self)@),
            final(self)@ == after_flush(old(self)@),
    {
        let ghost out0 = out@;
        if let Some(path) = self.path.take() {
            let mut head = String::new();
            std::mem::swap(&mut head, &mut self.head);
            let branch = self.branch.take();
            out.push(
                Worktree {
                    path,
                    head,
                    branch,
                    bare: self.bare,
                    detached: self.detached,
                    locked: self.locked,
                    prunable: self.prunable,
                },
            );
            self.bare = false;
            self.detached = false;
            self.locked = false;
            self.prunable = false;
            assert(views(out@) =~= views(out0) + flushed(old(self)@));
        } else {
            assert(views(out@) =~= views(out0) + flushed(old(self)@));
        }
    }

    /// Takes in the line `t[start..end]`, where `output@ == t@`.
    fn feed(&mut self, output: &str, t: &Vec<char>, start: usize, end: usize, out: &mut Vec<Worktree>)
        requires
            t@ == output@,
            start <= end <= t@.len(),
        ensures
            views(final(out)@) == views(old(out)@) + step(
                old(self)@,
                t@.subrange(start as int, end as int),
            ).0,
            final(self)@ == step(old(self)@, t@.subrange(start as int, end as int)).1,
    {
        let ghost line = t@.subrange(start as int, end as int);
        if start == end {
            self.flush(out);
        } else if has_prefix_at(t, start, end, "worktree ") {
            self.flush(out);
            let k = start + "worktree ".unicode_len();
            let rest = String::from_str(output.substring_char(k, end));
            assert(rest@ =~= line.skip("worktree "@.len() as int));
            self.path = Some(rest);
        } else if has_prefix_at(t, start, end, "HEAD ") {
            let k = start + "HEAD ".unicode_len();
            self.head = String::from_str(output.substring_char(k, end));
            assert(self.head@ =~= line.skip("HEAD "@.len() as int));
        } else if has_prefix_at(t, start, end, "branch ") {
            let k = start + "branch ".unicode_len();
            assert(t@.subrange(k as int, end as int) =~= line.skip("branch "@.len() as int));
            if has_prefix_at(t, k, end, "refs/heads/") {
                let k2 = k + "refs/heads/".unicode_len();
                let name = String::from_str(output.substring_char(k2, end));
                assert(name@ =~= t@.subrange(k as int, end as int).skip(
                    "refs/heads/"@.len() as int,
                ));
                self.branch = Some(name);
            } else {
                self.branch = None;
            }
        } else if equals_at(t, start, end, "bare") {
            self.bare = true;
        } else if equals_at(t, start, end, "detached") {
            self.detached = true;
        } else if equals_at(t, start, end, "locked") || has_prefix_at(t, start, end, "locked ") {
            self.locked = true;
        } else if equals_at(t, start, end, "prunable") || has_prefix_at(
            t,
            start,
            end,
            "prunable ",
        ) {
            self.prunable = true;
        }
    }
}

/// Parses the registry listing: blocks of lines separated by blank lines,
/// each block opened by a `worktree <path>` line.
pub fn parse_porcelain(output: &str) -> (r: Vec<Worktree>)
    ensures
        views(r@) == parse_spec(output@),
{
    let t = chars_of(output);
    let n = t.len();
    let mut worktrees: Vec<Worktree> = Vec::new();
    let mut parser = PorcelainParser::new();
    let mut pos: usize = 0;
    while pos < n
        invariant
            n == t@.len(),
            t@ == output@,
            pos <= n,
            parse_spec(t@) == views(worktrees@) + parse_from(t@, pos as int, parser@),
        decreases n - pos,
    {
        let j = next_newline(&t, pos);
        proof {
            lemma_next_nl_bounds(t@, pos as int);
        }
        let end = if j < n && j > pos && t[j - 1] == '\r' {
            j - 1
        } else {
            j
        };
        let ghost before = views(worktrees@);
        let ghost st = parser@;
        parser.feed(output, &t, pos, end, &mut worktrees);
        proof {
            assert(line_at(t@, pos as int, j as int) == t@.subrange(pos as int, end as int));
            let (e, nx) = step(st, t@.subrange(pos as int, end as int));
            let nextpos: int = if j < n { j + 1 } else { n as int };
            assert(parse_from(t@, pos as int, st) == e + parse_from(t@, nextpos, nx));
            assert(views(worktrees@) == before + e);
            assert(parse_spec(t@) =~= views(worktrees@) + parse_from(t@, nextpos, nx));
        }
        pos = if j < n {
            j + 1
        } else {
            n
        };
    }
    parser.flush(&mut worktrees);
    assert(views(worktrees@) =~= parse_spec(output@));
    worktrees
}

} // verus!

verus! {

/// The entries of `ws` whose branch is `name`, in list order.
pub open spec fn branch_matches(ws: Seq<WorktreeView>, name: Seq<char>) -> Seq<WorktreeView>
    decreases ws.len(),
{
    if ws.len() == 0 {
        Seq::empty()
    } else {
        let rest = branch_matches(ws.drop_last(), name);
        if ws.last().branch == Some(name) {
            rest.push(ws.last())
        } else {
            rest
        }
    }
}

/// The views of a list of borrowed worktrees.
pub open spec fn ref_views(ws: Seq<&Worktree>) -> Seq<WorktreeView> {
    ws.map_values(|w: &Worktree| (*w)@)
}

/// Whether the branch of `w` is `name`.
fn on_branch(w: &Worktree, name: &String) -> (r: bool)
    ensures
        r == (w@.branch == Some(name@)),
{
    match &w.branch {
        Some(b) => *b == *name,
        None => false,
    }
}

/// All worktrees whose branch is `name`, in list order.
pub fn find_by_branch<'a>(worktrees: &'a [Worktree], name: &str) -> (r: Vec<&'a Worktree>)
    ensures
        ref_views(r@) == branch_matches(views(worktrees@), name@),
{
    let name = String::from_str(name);
    let mut r: Vec<&'a Worktree> = Vec::new();
    let mut i: usize = 0;
    while i < worktrees.len()
        invariant
            i <= worktrees@.len(),
            ref_views(r@) == branch_matches(views(worktrees@.subrange(0, i as int)), name@),
        decreases worktrees@.len() - i,
    {
        let ghost prev = r@;
        let w = &worktrees[i];
        assert(views(worktrees@.subrange(0, i + 1)).drop_last() =~= views(
            worktrees@.subrange(0, i as int),
        ));
        assert(views(worktrees@.subrange(0, i + 1)).last() == w@);
        if on_branch(w, &name) {
            r.push(w);
            assert(ref_views(r@) =~= ref_views(prev).push(w@));
        }
        i = i + 1;
    }
    assert(worktrees@.subrange(0, i as int) =~= worktrees@);
    r
}

/// The first worktree registered at exactly `path`.
pub fn find_by_path<'a>(worktrees: &'a [Worktree], path: &str) -> (r: Option<&'a Worktree>)
    ensures
        match r {
            Some(w) => exists|k: int|
                0 <= k < worktrees@.len() && worktrees@[k]@ == w@ && w@.path == path@ && forall|
                    m: int,
                |
                    0 <= m < k ==> worktrees@[m]@.path != path@,
            None => forall|k: int| 0 <= k < worktrees@.len() ==> worktrees@[k]@.path != path@,
        },
{
    let wanted = String::from_str(path);
    let mut i: usize = 0;
    while i < worktrees.len()
        invariant
            i <= worktrees@.len(),
            wanted@ == path@,
            forall|m: int| 0 <= m < i ==> worktrees@[m]@.path != path@,
        decreases worktrees@.len() - i,
    {
        if worktrees[i].path == wanted {
            let w = &worktrees[i];
            assert(worktrees@[i as int]@ == w@ && w@.path == path@);
            return Some(w);
        }
        i = i + 1;
    }
    None
}

/// Whether a worktree other than the one at `exclude_path` has `branch`
/// checked out.
pub fn branch_checked_out_elsewhere(worktrees: &[Worktree], branch: &str, exclude_path: &str) -> (r:
    bool)
    ensures
        r == exists|k: int|
            0 <= k < worktrees@.len() && worktrees@[k]@.branch == Some(branch@)
                && worktrees@[k]@.path != exclude_path@,
{
    let wanted = String::from_str(branch);
    let exclude = String::from_str(exclude_path);
    let mut i: usize = 0;
    while i < worktrees.len()
        invariant
            wanted@ == branch@,
            exclude@ == exclude_path@,
            i <= worktrees@.len(),
            forall|m: int|
                0 <= m < i ==> !(worktrees@[m]@.branch == Some(branch@) && worktrees@[m]@.path
                    != exclude@),
        decreases worktrees@.len() - i,
    {
        if on_branch(&worktrees[i], &wanted) && !(worktrees[i].path == exclude) {
            assert(worktrees@[i as int]@.branch == Some(branch@));
            assert(worktrees@[i as int]@.path != exclude@);
            return true;
        }
        i = i + 1;
    }
    false
}

} // verus!
