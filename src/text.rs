use vstd::prelude::*;

verus! {

/// The value of an optional string.
pub open spec fn opt_seq(o: Option<String>) -> Option<Seq<char>> {
    match o {
        Some(s) => Some(s@),
        None => None,
    }
}

/// The values of a list of strings.
pub open spec fn string_views(v: Seq<String>) -> Seq<Seq<char>> {
    v.map_values(|s: String| s@)
}

/// `p` is a prefix of `s`.
pub open spec fn has_prefix(s: Seq<char>, p: Seq<char>) -> bool {
    p.len() <= s.len() && s.subrange(0, p.len() as int) == p
}

/// Index of the first `'\n'` at or after `i`, or the length when there is none.
pub open spec fn next_nl(t: Seq<char>, i: int) -> int
    decreases t.len() - i,
{
    if i >= t.len() {
        t.len() as int
    } else if t[i] == '\n' {
        i
    } else {
        next_nl(t, i + 1)
    }
}

pub proof fn lemma_next_nl_bounds(t: Seq<char>, i: int)
    requires
        0 <= i <= t.len(),
    ensures
        i <= next_nl(t, i) <= t.len(),
        next_nl(t, i) < t.len() ==> t[next_nl(t, i)] == '\n',
        forall|k: int| i <= k < next_nl(t, i) ==> t[k] != '\n',
    decreases t.len() - i,
{
    if i < t.len() && t[i] != '\n' {
        lemma_next_nl_bounds(t, i + 1);
    }
}

/// The characters of a string, one by one.
pub fn chars_of(s: &str) -> (r: Vec<char>)
    ensures
        r@ == s@,
{
    let n = s.unicode_len();
    let mut r: Vec<char> = Vec::new();
    let mut i: usize = 0;
    while i < n
        invariant
            n == s@.len(),
            i <= n,
            r@ == s@.subrange(0, i as int),
        decreases n - i,
    {
        r.push(s.get_char(i));
        i = i + 1;
    }
    assert(r@ =~= s@);
    r
}

/// Whether `t[start..end]` begins with `lit`.
pub fn has_prefix_at(t: &Vec<char>, start: usize, end: usize, lit: &str) -> (r: bool)
    requires
        start <= end <= t@.len(),
    ensures
        r == has_prefix(t@.subrange(start as int, end as int), lit@),
{
    let n = lit.unicode_len();
    if n > end - start {
        return false;
    }
    let mut k: usize = 0;
    while k < n
        invariant
            n == lit@.len(),
            n <= end - start,
            start <= end <= t@.len(),
            k <= n,
            forall|j: int| 0 <= j < k ==> t@[start + j] == lit@[j],
        decreases n - k,
    {
        if t[start + k] != lit.get_char(k) {
            assert(t@.subrange(start as int, end as int).subrange(0, n as int)[k as int] != lit@[k as int]);
            return false;
        }
        k = k + 1;
    }
    assert(t@.subrange(start as int, end as int).subrange(0, n as int) =~= lit@);
    true
}

/// Whether `t[start..end]` is exactly `lit`.
pub fn equals_at(t: &Vec<char>, start: usize, end: usize, lit: &str) -> (r: bool)
    requires
        start <= end <= t@.len(),
    ensures
        r == (t@.subrange(start as int, end as int) == lit@),
{
    let n = lit.unicode_len();
    if n != end - start {
        proof {
            if t@.subrange(start as int, end as int) == lit@ {
                assert(t@.subrange(start as int, end as int).len() == lit@.len());
            }
        }
        return false;
    }
    let p = has_prefix_at(t, start, end, lit);
    proof {
        assert(t@.subrange(start as int, end as int).subrange(0, n as int) =~= t@.subrange(
            start as int,
            end as int,
        ));
    }
    p
}

/// Index of the first `'\n'` in `t` at or after `from`, or `t.len()`.
pub fn next_newline(t: &Vec<char>, from: usize) -> (r: usize)
    requires
        from <= t@.len(),
    ensures
        r == next_nl(t@, from as int),
{
    let mut i = from;
    proof {
        lemma_next_nl_bounds(t@, from as int);
    }
    while i < t.len()
        invariant
            from <= i <= t@.len(),
            next_nl(t@, i as int) == next_nl(t@, from as int),
        decreases t@.len() - i,
    {
        if t[i] == '\n' {
            return i;
        }
        i = i + 1;
    }
    i
}

} // verus!

verus! {

/// The character of a decimal digit.
pub open spec fn digit_char(d: nat) -> char {
    if d == 0 {
        '0'
    } else if d == 1 {
        '1'
    } else if d == 2 {
        '2'
    } else if d == 3 {
        '3'
    } else if d == 4 {
        '4'
    } else if d == 5 {
        '5'
    } else if d == 6 {
        '6'
    } else if d == 7 {
        '7'
    } else if d == 8 {
        '8'
    } else {
        '9'
    }
}

/// The decimal digits of `n`, most significant first, without leading zeros.
pub open spec fn decimal_spec(n: nat) -> Seq<char>
    decreases n,
{
    if n < 10 {
        seq![digit_char(n)]
    } else {
        decimal_spec(n / 10).push(digit_char(n % 10))
    }
}

fn digit_str(d: u64) -> (r: &'static str)
    requires
        d < 10,
    ensures
        r@ == seq![digit_char(d as nat)],
{
    proof {
        reveal_strlit("0");
        reveal_strlit("1");
        reveal_strlit("2");
        reveal_strlit("3");
        reveal_strlit("4");
        reveal_strlit("5");
        reveal_strlit("6");
        reveal_strlit("7");
        reveal_strlit("8");
        reveal_strlit("9");
    }
    let r = if d == 0 {
        "0"
    } else if d == 1 {
        "1"
    } else if d == 2 {
        "2"
    } else if d == 3 {
        "3"
    } else if d == 4 {
        "4"
    } else if d == 5 {
        "5"
    } else if d == 6 {
        "6"
    } else if d == 7 {
        "7"
    } else if d == 8 {
        "8"
    } else {
        "9"
    };
    assert(r@ =~= seq![digit_char(d as nat)]);
    r
}

/// `n` written in decimal.
pub fn decimal(n: u64) -> (r: String)
    ensures
        r@ == decimal_spec(n as nat),
    decreases n,
{
    if n < 10 {
        String::from_str(digit_str(n))
    } else {
        let mut s = decimal(n / 10);
        s.append(digit_str(n % 10));
        s
    }
}

} // verus!
