//! Small verified utilities over strings: equality, substring search, and
//! decimal formatting. These are the only character-level helpers the rest of
//! the library needs.

use vstd::prelude::*;

verus! {

/// Relies on String::push: appends exactly one character to the string.
#[verifier::external_body]
pub fn push_char(s: &mut String, c: char)
    ensures
        final(s)@ == old(s)@.push(c),
{
    s.push(c);
}

/// Character-wise equality of two string slices.
pub fn str_eq(a: &str, b: &str) -> (r: bool)
    ensures
        r == (a@ == b@),
{
    let sa: String = a.to_owned();
    let sb: String = b.to_owned();
    sa == sb
}

/// Equality of two optional strings, where `None` equals only `None`.
pub fn opt_str_eq(a: &Option<String>, b: &Option<String>) -> (r: bool)
    ensures
        r == (crate::strutil::opt_view(*a) == crate::strutil::opt_view(*b)),
{
    match (a, b) {
        (Some(x), Some(y)) => str_eq(x.as_str(), y.as_str()),
        (None, None) => true,
        _ => false,
    }
}

/// The view of an optional string: its character sequence, if present.
pub open spec fn opt_view(o: Option<String>) -> Option<Seq<char>> {
    match o {
        Some(s) => Some(s@),
        None => None,
    }
}

/// Whether `needle` occurs as a contiguous subsequence of `hay`.
pub open spec fn contains_sub(hay: Seq<char>, needle: Seq<char>) -> bool {
    exists|k: int|
        0 <= k && k + needle.len() <= hay.len() && #[trigger] hay.subrange(k, k + needle.len())
            == needle
}

fn match_at(hay: &str, needle: &str, k: usize, hn: usize, nn: usize) -> (r: bool)
    requires
        hn == hay@.len(),
        nn == needle@.len(),
        k + nn <= hn,
    ensures
        r == (hay@.subrange(k as int, k as int + needle@.len()) == needle@),
{
    let mut j: usize = 0;
    while j < nn
        invariant
            hn == hay@.len(),
            nn == needle@.len(),
            k + nn <= hn,
            j <= nn,
            forall|jj: int| 0 <= jj < j ==> hay@[k + jj] == needle@[jj],
        decreases nn - j,
    {
        if hay.get_char(k + j) != needle.get_char(j) {
            proof {
                let sub = hay@.subrange(k as int, k as int + needle@.len());
                assert(sub[j as int] == hay@[k + j as int]);
            }
            return false;
        }
        j = j + 1;
    }
    proof {
        assert(hay@.subrange(k as int, k as int + needle@.len()) =~= needle@);
    }
    true
}

/// Whether `needle` occurs inside `hay`, character-wise.
pub fn str_contains(hay: &str, needle: &str) -> (r: bool)
    ensures
        r == contains_sub(hay@, needle@),
{
    let hn = hay.unicode_len();
    let nn = needle.unicode_len();
    if nn > hn {
        return false;
    }
    if nn == 0 {
        proof {
            assert(hay@.subrange(0, 0 + needle@.len() as int) =~= needle@);
        }
        return true;
    }
    let mut k: usize = 0;
    while k <= hn - nn
        invariant
            hn == hay@.len(),
            nn == needle@.len(),
            1 <= nn <= hn,
            k <= hn - nn + 1,
            forall|kk: int|
                0 <= kk < k ==> #[trigger] hay@.subrange(kk, kk + needle@.len()) != needle@,
        decreases hn + 1 - nn - k,
    {
        if match_at(hay, needle, k, hn, nn) {
            return true;
        }
        k = k + 1;
    }
    false
}

/// One decimal digit as a character.
pub open spec fn digit_char(d: nat) -> char {
    ((d + 48) as u8) as char
}

/// The decimal representation of a natural number, most significant digit
/// first, with no leading zeros (a single zero for 0).
pub open spec fn dec_repr(n: nat) -> Seq<char>
    decreases n,
{
    if n < 10 {
        seq![digit_char(n)]
    } else {
        dec_repr(n / 10).push(digit_char(n % 10))
    }
}

/// Appends the decimal representation of `n` to `out`.
pub fn push_decimal(out: &mut String, n: usize)
    ensures
        final(out)@ == old(out)@ + dec_repr(n as nat),
    decreases n,
{
    if n < 10 {
        let d: u8 = (n as u8) + 48;
        push_char(out, d as char);
        proof {
            assert(old(out)@.push(digit_char(n as nat)) =~= old(out)@ + dec_repr(n as nat));
        }
    } else {
        push_decimal(out, n / 10);
        let d: u8 = ((n % 10) as u8) + 48;
        push_char(out, d as char);
        proof {
            assert((old(out)@ + dec_repr((n / 10) as nat)).push(digit_char((n % 10) as nat))
                =~= old(out)@ + dec_repr(n as nat));
        }
    }
}

} // verus!
