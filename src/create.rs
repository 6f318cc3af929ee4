//! Where a new worktree goes: `<base>/<id>/<repo>`, with a random id.
use vstd::prelude::*;

use crate::paths::{join, join_path};

verus! {

/// The number of random ids tried before giving up on a free destination.
pub const DEST_ATTEMPTS: usize = 10;

#[verifier::external_type_specification]
#[verifier::external_body]
pub struct ExRandomError(getrandom::Error);

/// Relies on `getrandom::fill`: it fills the whole buffer from the system's
/// random source, or reports an error; the buffer keeps its length.
#[verifier::external_body]
fn fill_random(buf: &mut Vec<u8>) -> (r: Result<(), getrandom::Error>)
    ensures
        final(buf)@.len() == old(buf)@.len(),
{
    getrandom::fill(buf.as_mut_slice())
}

/// Relies on `getrandom::Error`'s `Display` impl for the description of a
/// failure.
#[verifier::external_body]
fn random_error_text(e: &getrandom::Error) -> String {
    e.to_string()
}

/// The lowercase hexadecimal digit of `d`.
pub open spec fn hex_char(d: nat) -> char {
    if d < 10 {
        ((d + 48) as u8) as char
    } else {
        ((d + 87) as u8) as char
    }
}

/// Two lowercase hexadecimal digits per byte.
pub open spec fn hex_spec(b: Seq<u8>) -> Seq<char>
    decreases b.len(),
{
    if b.len() == 0 {
        Seq::empty()
    } else {
        hex_spec(b.drop_last()) + seq![hex_char(b.last() as nat / 16), hex_char(b.last() as nat % 16)]
    }
}

proof fn lemma_hex_len(b: Seq<u8>)
    ensures
        hex_spec(b).len() == 2 * b.len(),
    decreases b.len(),
{
    if b.len() > 0 {
        lemma_hex_len(b.drop_last());
    }
}

fn hex_digit(d: u8) -> (r: &'static str)
    requires
        d < 16,
    ensures
        r@ == seq![hex_char(d as nat)],
{
    proof {
        reveal_strlit("0");
        reveal_strlit("1");
        reveal_strlit("2");
        reveal_strlit("3");
        reveal_strlit("4");
        reveal_strlit("5");
        reveal_strlit("6");
        reveal_strlit("7");
        reveal_strlit("8");
        reveal_strlit("9");
        reveal_strlit("a");
        reveal_strlit("b");
        reveal_strlit("c");
        reveal_strlit("d");
        reveal_strlit("e");
        reveal_strlit("f");
    }
    let r = match d {
        0 => "0",
        1 => "1",
        2 => "2",
        3 => "3",
        4 => "4",
        5 => "5",
        6 => "6",
        7 => "7",
        8 => "8",
        9 => "9",
        10 => "a",
        11 => "b",
        12 => "c",
        13 => "d",
        14 => "e",
        _ => "f",
    };
    assert(r@ =~= seq![hex_char(d as nat)]);
    r
}

/// The bytes written as lowercase hexadecimal, two digits each.
pub fn hex_id(bytes: &Vec<u8>) -> (r: String)
    ensures
        r@ == hex_spec(bytes@),
{
    let mut r = String::new();
    let mut i: usize = 0;
    while i < bytes.len()
        invariant
            i <= bytes@.len(),
            r@ == hex_spec(bytes@.subrange(0, i as int)),
        decreases bytes@.len() - i,
    {
        let b = bytes[i];
        assert(bytes@.subrange(0, i + 1).drop_last() =~= bytes@.subrange(0, i as int));
        r.append(hex_digit(b / 16));
        r.append(hex_digit(b % 16));
        i = i + 1;
    }
    assert(bytes@.subrange(0, i as int) =~= bytes@);
    r
}

/// A fresh random id: six lowercase hexadecimal digits.
pub fn random_id() -> (r: Result<String, String>)
    ensures
        r is Ok ==> r->Ok_0@.len() == 6 && exists|b: Seq<u8>| b.len() == 3 && r->Ok_0@ == hex_spec(b),
{
    let mut buf: Vec<u8> = vec![0u8, 0u8, 0u8];
    match fill_random(&mut buf) {
        Ok(()) => {
            let id = hex_id(&buf);
            proof {
                lemma_hex_len(buf@);
            }
            Ok(id)
        },
        Err(e) => {
            let mut m = String::from_str("cannot generate random id: ");
            m.append(random_error_text(&e).as_str());
            Err(m)
        },
    }
}

/// Where a new worktree of `repo_name` goes for the id `id`.
pub fn dest_path(base: &str, id: &str, repo_name: &str) -> (r: String)
    ensures
        r@ == join_path(join_path(base@, id@), repo_name@),
{
    let d = join(base, id);
    join(d.as_str(), repo_name)
}

} // verus!
