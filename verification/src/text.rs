//! Character-level text helpers.
//!
//! The library reasons about text as sequences of characters. These helpers
//! move between `&str` / `String` and `Vec<char>`, and compare text
//! character by character.
use vstd::prelude::*;

verus! {

/// The characters of `s`, in order.
pub fn chars_of(s: &str) -> (v: Vec<char>)
    ensures
        v@ == s@,
{
    let n = s.unicode_len();
    let mut v: Vec<char> = Vec::new();
    let mut i: usize = 0;
    while i < n
        invariant
            i <= n,
            n == s@.len(),
            v@ == s@.take(i as int),
        decreases n - i,
    {
        v.push(s.get_char(i));
        i = i + 1;
        assert(v@ =~= s@.take(i as int));
    }
    assert(v@ =~= s@);
    v
}

/// Relies on `String: FromIterator<char>`: collecting characters yields the
/// string with exactly those characters, in order.
#[verifier::external_body]
pub fn string_of(v: &Vec<char>) -> (r: String)
    ensures
        r@ == v@,
{
    v.iter().collect()
}

/// An owned copy of a borrowed string.
pub fn str_owned(s: &str) -> (r: String)
    ensures
        r@ == s@,
{
    s.to_owned()
}

/// Whether the characters of `a` equal the characters of `b`.
pub fn str_eq(a: &str, b: &str) -> (r: bool)
    ensures
        r == (a@ == b@),
{
    let na = a.unicode_len();
    let nb = b.unicode_len();
    if na != nb {
        assert(a@ != b@) by {
            assert(a@.len() != b@.len());
        }
        return false;
    }
    let mut i: usize = 0;
    while i < na
        invariant
            i <= na,
            na == a@.len(),
            na == b@.len(),
            a@.take(i as int) == b@.take(i as int),
        decreases na - i,
    {
        if a.get_char(i) != b.get_char(i) {
            assert(a@[i as int] != b@[i as int]);
            return false;
        }
        assert(a@.take(i + 1 as int) =~= b@.take(i + 1 as int));
        i = i + 1;
    }
    assert(a@ == b@) by {
        assert(a@.take(na as int) =~= a@);
        assert(b@.take(na as int) =~= b@);
    }
    true
}

/// Whether `p` is a prefix of `t`.
pub open spec fn is_prefix(p: Seq<char>, t: Seq<char>) -> bool {
    p.len() <= t.len() && t.take(p.len() as int) == p
}

/// Whether the text of `t` starts with the text of `p`.
pub fn has_prefix(t: &str, p: &str) -> (r: bool)
    ensures
        r == is_prefix(p@, t@),
{
    let np = p.unicode_len();
    let nt = t.unicode_len();
    if np > nt {
        return false;
    }
    let mut i: usize = 0;
    while i < np
        invariant
            i <= np,
            np == p@.len(),
            nt == t@.len(),
            np <= nt,
            t@.take(i as int) == p@.take(i as int),
        decreases np - i,
    {
        if t.get_char(i) != p.get_char(i) {
            assert(!is_prefix(p@, t@)) by {
                assert(t@.take(np as int)[i as int] != p@[i as int]);
            }
            return false;
        }
        assert(t@.take(i + 1 as int) =~= p@.take(i + 1 as int));
        i = i + 1;
    }
    assert(is_prefix(p@, t@)) by {
        assert(t@.take(np as int) =~= p@.take(np as int));
        assert(p@.take(np as int) =~= p@);
    }
    true
}

/// Lower-cased form of an ASCII capital letter; any other character is kept.
pub open spec fn lower_ascii(c: char) -> char {
    if 'A' <= c && c <= 'Z' {
        ((c as u32) + 32) as char
    } else {
        c
    }
}

/// Whether `a` and `b` are the same text up to ASCII case.
pub open spec fn eq_ignore_ascii(a: Seq<char>, b: Seq<char>) -> bool {
    a.len() == b.len() && (forall|i: int|
        0 <= i < a.len() ==> lower_ascii(a[i]) == lower_ascii(b[i]))
}

/// Compares two strings ignoring ASCII case.
pub fn str_eq_ignore_ascii(a: &str, b: &str) -> (r: bool)
    ensures
        r == eq_ignore_ascii(a@, b@),
{
    let na = a.unicode_len();
    let nb = b.unicode_len();
    if na != nb {
        return false;
    }
    let mut i: usize = 0;
    while i < na
        invariant
            i <= na,
            na == a@.len(),
            na == b@.len(),
            forall|j: int| 0 <= j < i ==> lower_ascii(a@[j]) == lower_ascii(b@[j]),
        decreases na - i,
    {
        let ca = a.get_char(i);
        let cb = b.get_char(i);
        let la: u32 = if 'A' <= ca && ca <= 'Z' {
            ca as u32 + 32
        } else {
            ca as u32
        };
        let lb: u32 = if 'A' <= cb && cb <= 'Z' {
            cb as u32 + 32
        } else {
            cb as u32
        };
        if la != lb {
            assert(lower_ascii(a@[i as int]) != lower_ascii(b@[i as int]));
            return false;
        }
        assert(lower_ascii(a@[i as int]) == lower_ascii(b@[i as int]));
        i = i + 1;
    }
    true
}

} // verus!
