//! Character-level helpers shared by the document codec and the formatter.

use vstd::prelude::*;

verus! {

/// A string with its newline characters removed, as titles store it.
pub open spec fn strip_newlines(s: Seq<char>) -> Seq<char> {
    s.filter(|c: char| c != '\n')
}

/// Relies on `str::chars`: the characters of a string, in order.
#[verifier::external_body]
pub fn str_chars(s: &str) -> (r: Vec<char>)
    ensures
        r@ == s@,
{
    s.chars().collect()
}

/// Relies on `core::iter::Iterator::collect` for `String`: the string made
/// of exactly these characters, in order.
#[verifier::external_body]
pub fn chars_string(v: &Vec<char>) -> (r: String)
    ensures
        r@ == v@,
{
    v.iter().collect()
}

/// Append every character of a string.
pub fn push_str_chars(out: &mut Vec<char>, lit: &str)
    ensures
        final(out)@ == old(out)@ + lit@,
{
    let cs: Vec<char> = str_chars(lit);
    let ghost base = out@;
    let mut i: usize = 0;
    while i < cs.len()
        invariant
            i <= cs@.len(),
            cs@ == lit@,
            out@ == base + cs@.take(i as int),
        decreases cs@.len() - i,
    {
        out.push(cs[i]);
        proof {
            assert(out@ =~= base + cs@.take(i + 1int));
        }
        i = i + 1;
    }
    proof {
        assert(base + cs@.take(cs@.len() as int) =~= base + lit@);
    }
}

/// Whether two character vectors hold the same characters in the same order.
pub fn chars_eq(a: &Vec<char>, b: &Vec<char>) -> (r: bool)
    ensures
        r == (a@ == b@),
{
    if a.len() != b.len() {
        return false;
    }
    let mut i: usize = 0;
    while i < a.len()
        invariant
            i <= a@.len(),
            a@.len() == b@.len(),
            forall|j: int| 0 <= j < i ==> a@[j] == b@[j],
        decreases a@.len() - i,
    {
        if a[i] != b[i] {
            return false;
        }
        i = i + 1;
    }
    proof {
        assert(a@ =~= b@);
    }
    true
}

/// Whether two strings hold the same characters.
pub fn str_eq(a: &str, b: &str) -> (r: bool)
    ensures
        r == (a@ == b@),
{
    let ca = str_chars(a);
    let cb = str_chars(b);
    chars_eq(&ca, &cb)
}

/// Remove every newline from a string, keeping all other characters.
pub fn strip_newlines_str(s: &str) -> (r: String)
    ensures
        r@ == strip_newlines(s@),
{
    let cs: Vec<char> = str_chars(s);
    let mut out: Vec<char> = Vec::new();
    let mut i: usize = 0;
    proof {
        assert(cs@.take(0int).filter(|c: char| c != '\n') =~= Seq::<char>::empty());
    }
    while i < cs.len()
        invariant
            i <= cs@.len(),
            cs@ == s@,
            out@ == cs@.take(i as int).filter(|c: char| c != '\n'),
        decreases cs@.len() - i,
    {
        let c = cs[i];
        if c != '\n' {
            out.push(c);
        }
        proof {
            reveal_with_fuel(Seq::<char>::filter, 2);
            assert(cs@.take(i + 1int).drop_last() =~= cs@.take(i as int));
            assert(cs@.take(i + 1int).last() == c);
        }
        i = i + 1;
    }
    proof {
        assert(cs@.take(cs@.len() as int) =~= cs@);
    }
    chars_string(&out)
}

} // verus!
