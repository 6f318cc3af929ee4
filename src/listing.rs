//! What the worktree table shows: truncated columns, the state column and
//! the column widths.
use vstd::prelude::*;

use crate::text::{decimal, decimal_spec};
use crate::worktree::Worktree;

verus! {

/// `s` cut to at most `max` characters, ending in `...` when cut and room
/// allows.
pub open spec fn trunc_spec(s: Seq<char>, max: nat) -> Seq<char> {
    if s.len() <= max {
        s
    } else if max <= 3 {
        s.take(max as int)
    } else {
        s.take(max - 3) + "..."@
    }
}

/// `s` cut to at most `max` characters from its end, starting with `...`
/// when cut and room allows.
pub open spec fn trunc_tail_spec(s: Seq<char>, max: nat) -> Seq<char> {
    if s.len() <= max {
        s
    } else if max <= 3 {
        s.skip(s.len() - max)
    } else {
        "..."@ + s.skip(s.len() - max + 3)
    }
}

pub fn trunc(s: &str, max: usize) -> (r: String)
    ensures
        r@ == trunc_spec(s@, max as nat),
{
    let n = s.unicode_len();
    if n <= max {
        String::from_str(s)
    } else if max <= 3 {
        String::from_str(s.substring_char(0, max))
    } else {
        let mut out = String::from_str(s.substring_char(0, max - 3));
        out.append("...");
        out
    }
}

pub fn trunc_tail(s: &str, max: usize) -> (r: String)
    ensures
        r@ == trunc_tail_spec(s@, max as nat),
{
    let n = s.unicode_len();
    if n <= max {
        String::from_str(s)
    } else if max <= 3 {
        String::from_str(s.substring_char(n - max, n))
    } else {
        let mut out = String::from_str("...");
        out.append(s.substring_char(n - max + 3, n));
        out
    }
}

/// Whether every character of `h` is `0`: the commit of an unborn branch.
pub open spec fn is_unborn(h: Seq<char>) -> bool {
    forall|i: int| 0 <= i < h.len() ==> h[i] == '0'
}

/// The commit column: `-` for an unborn branch, else the first eight
/// characters.
pub open spec fn head_label_spec(h: Seq<char>) -> Seq<char> {
    if is_unborn(h) {
        "-"@
    } else if h.len() > 8 {
        h.take(8)
    } else {
        h
    }
}

pub fn head_label(head: &str) -> (r: String)
    ensures
        r@ == head_label_spec(head@),
{
    let n = head.unicode_len();
    let mut i: usize = 0;
    while i < n
        invariant
            i <= n,
            n == head@.len(),
            forall|k: int| 0 <= k < i ==> head@[k] == '0',
        decreases n - i,
    {
        if head.get_char(i) != '0' {
            return if n > 8 {
                String::from_str(head.substring_char(0, 8))
            } else {
                String::from_str(head)
            };
        }
        i = i + 1;
    }
    String::from_str("-")
}

/// The flags of a worktree, joined by commas.
pub open spec fn flags_spec(detached: bool, locked: bool, prunable: bool) -> Seq<char> {
    let a: Seq<Seq<char>> = if detached {
        seq!["detached"@]
    } else {
        seq![]
    };
    let b: Seq<Seq<char>> = if locked {
        a.push("locked"@)
    } else {
        a
    };
    let c: Seq<Seq<char>> = if prunable {
        b.push("prunable"@)
    } else {
        b
    };
    join_commas(c)
}

pub open spec fn join_commas(parts: Seq<Seq<char>>) -> Seq<char>
    decreases parts.len(),
{
    if parts.len() == 0 {
        Seq::empty()
    } else if parts.len() == 1 {
        parts[0]
    } else {
        join_commas(parts.drop_last()) + ","@ + parts.last()
    }
}

/// The tracking part of the state column: `*` when dirty, then `+ahead`
/// and `-behind` when not zero.
pub open spec fn tracking_spec(dirty: bool, ahead_behind: Option<(u64, u64)>) -> Seq<char> {
    let d: Seq<char> = if dirty {
        "*"@
    } else {
        Seq::empty()
    };
    match ahead_behind {
        Some((ahead, behind)) => d + (if ahead > 0 {
            "+"@ + decimal_spec(ahead as nat)
        } else {
            Seq::empty()
        }) + (if behind > 0 {
            "-"@ + decimal_spec(behind as nat)
        } else {
            Seq::empty()
        }),
        None => d,
    }
}

/// The state column of a worktree.
pub open spec fn status_spec(
    bare: bool,
    detached: bool,
    locked: bool,
    prunable: bool,
    dirty: bool,
    ahead_behind: Option<(u64, u64)>,
) -> Seq<char> {
    if bare {
        "bare"@
    } else {
        let s = tracking_spec(dirty, ahead_behind);
        let f = flags_spec(detached, locked, prunable);
        let all = if s.len() > 0 && f.len() > 0 {
            s + ","@ + f
        } else {
            s + f
        };
        if all.len() == 0 {
            "-"@
        } else {
            all
        }
    }
}

/// The state column of `wt`; `dirty` and `ahead_behind` are what the tool
/// reported (commits ahead of and behind the upstream, when there is one).
pub fn worktree_status(wt: &Worktree, dirty: bool, ahead_behind: Option<(u64, u64)>) -> (r: String)
    ensures
        r@ == status_spec(wt.bare, wt.detached, wt.locked, wt.prunable, dirty, ahead_behind),
{
    if wt.bare {
        return String::from_str("bare");
    }
    proof {
        reveal_strlit("detached");
        reveal_strlit("locked");
        reveal_strlit("prunable");
        reveal_strlit("*");
        reveal_strlit("+");
        reveal_strlit("-");
        reveal_strlit(",");
    }
    let mut s = String::new();
    if dirty {
        s.append("*");
    }
    match ahead_behind {
        Some((ahead, behind)) => {
            if ahead > 0 {
                s.append("+");
                s.append(decimal(ahead).as_str());
            }
            if behind > 0 {
                s.append("-");
                s.append(decimal(behind).as_str());
            }
            assert(s@ =~= tracking_spec(dirty, ahead_behind));
        },
        None => {
            assert(s@ =~= tracking_spec(dirty, ahead_behind));
        },
    }
    let mut f = String::new();
    let mut any = false;
    let ghost parts: Seq<Seq<char>> = seq![];
    if wt.detached {
        f.append("detached");
        any = true;
        proof {
            parts = parts.push("detached"@);
            assert(join_commas(parts) =~= f@);
        }
    }
    if wt.locked {
        if any {
            f.append(",");
        }
        f.append("locked");
        proof {
            let p0 = parts;
            parts = parts.push("locked"@);
            assert(parts.drop_last() =~= p0);
            assert(join_commas(parts) =~= f@);
        }
        any = true;
    }
    if wt.prunable {
        if any {
            f.append(",");
        }
        f.append("prunable");
        proof {
            let p0 = parts;
            parts = parts.push("prunable"@);
            assert(parts.drop_last() =~= p0);
            assert(join_commas(parts) =~= f@);
        }
        any = true;
    }
    proof {
        assert(parts.len() == 0 ==> join_commas(parts) =~= f@);
        assert(f@ == flags_spec(wt.detached, wt.locked, wt.prunable));
        assert(any == (f@.len() > 0));
    }
    let s_empty = s.as_str().unicode_len() == 0;
    if !s_empty && any {
        s.append(",");
    }
    s.append(f.as_str());
    if s.as_str().unicode_len() == 0 {
        String::from_str("-")
    } else {
        s
    }
}

/// The widths of the branch and path columns for a terminal `cols` wide.
pub open spec fn column_widths_spec(cols: nat) -> (nat, nat) {
    let avail: nat = if cols >= 28 {
        (cols - 28) as nat
    } else {
        0
    };
    if avail <= 38 {
        let pw: nat = if avail >= 14 {
            (avail - 14) as nat
        } else {
            0
        };
        (14, if pw >= 12 {
            pw
        } else {
            12
        })
    } else {
        let extra = (avail - 38) as nat;
        let bw: nat = if 14 + extra / 8 <= 24 {
            14 + extra / 8
        } else {
            24
        };
        (bw, (avail - bw) as nat)
    }
}

/// The widths of the branch and path columns for a terminal `cols` wide:
/// the branch column grows from 14 to 24 with the room left, and the path
/// column takes the rest, never under 12.
pub fn column_widths(cols: usize) -> (r: (usize, usize))
    ensures
        (r.0 as nat, r.1 as nat) == column_widths_spec(cols as nat),
{
    let avail = cols.saturating_sub(28);
    if avail <= 38 {
        let pw = avail.saturating_sub(14);
        (14, if pw >= 12 {
            pw
        } else {
            12
        })
    } else {
        let extra = avail - 38;
        let bw = if 14 + extra / 8 <= 24 {
            14 + extra / 8
        } else {
            24
        };
        (bw, avail - bw)
    }
}

/// The terminal width: the `COLUMNS` setting when it is a number, else the
/// terminal's own width when known, never under 72; 132 when neither is
/// known.
pub fn width_from(columns: Option<usize>, terminal: Option<usize>) -> (r: usize)
    ensures
        columns is Some ==> r == if columns->Some_0 >= 72 {
            columns->Some_0
        } else {
            72
        },
        columns is None && terminal is Some ==> r == if terminal->Some_0 >= 72 {
            terminal->Some_0
        } else {
            72
        },
        columns is None && terminal is None ==> r == 132,
{
    match columns {
        Some(c) => if c >= 72 {
            c
        } else {
            72
        },
        None => match terminal {
            Some(t) => if t >= 72 {
                t
            } else {
                72
            },
            None => 132,
        },
    }
}

} // verus!
