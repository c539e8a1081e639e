//! Small helpers over characters and strings that the lexer and the
//! evaluator share, including the two trusted items of the crate that
//! lean on `std`'s string machinery.

use vstd::prelude::*;
use vstd::string::StrSliceExecFns;
use vstd::string::StringExecFns;

verus! {

/// Relies on `String: FromIterator<char>`: collecting an iterator of
/// characters appends exactly those characters, in order, to a fresh
/// string.
#[verifier::external_body]
pub(crate) fn string_from_chars(v: &Vec<char>) -> (r: String)
    ensures
        r@ == v@,
{
    v.iter().collect()
}

/// Whether a character has the Unicode `White_Space` property, as
/// `char::is_whitespace` decides it; a function of the character alone.
pub uninterp spec fn is_unicode_ws(c: char) -> bool;

/// Relies on `char::is_whitespace`: true exactly for characters with the
/// Unicode `White_Space` property, which depends on the character alone.
#[verifier::external_body]
pub(crate) fn char_is_whitespace(c: char) -> (r: bool)
    ensures
        r == is_unicode_ws(c),
{
    c.is_whitespace()
}

/// The characters of `s`, in order, as a vector.
pub fn chars_of(s: &str) -> (r: Vec<char>)
    ensures
        r@ == s@,
{
    let n = s.unicode_len();
    let mut r: Vec<char> = Vec::new();
    let mut k: usize = 0;
    while k < n
        invariant
            k <= n,
            n == s@.len(),
            r@.len() == k,
            forall|t: int| 0 <= t < k ==> r@[t] == s@[t],
        decreases n - k,
    {
        r.push(s.get_char(k));
        k += 1;
    }
    proof {
        assert(r@ =~= s@);
    }
    r
}

/// The characters of `v`, from index `i` up to (excluding) index `j`.
pub fn subvec(v: &Vec<char>, i: usize, j: usize) -> (r: Vec<char>)
    requires
        i <= j <= v.len(),
    ensures
        r@ == v@.subrange(i as int, j as int),
{
    let mut r: Vec<char> = Vec::new();
    let mut k: usize = i;
    while k < j
        invariant
            i <= k <= j <= v.len(),
            r@.len() == k - i,
            forall|t: int| 0 <= t < r@.len() ==> r@[t] == v@[i + t],
        decreases j - k,
    {
        r.push(v[k]);
        k += 1;
    }
    proof {
        assert(r@ =~= v@.subrange(i as int, j as int));
    }
    r
}

/// A single character as a fresh string.
pub fn char_to_string(c: char) -> (r: String)
    ensures
        r@ == seq![c],
{
    let mut v: Vec<char> = Vec::new();
    v.push(c);
    proof {
        assert(v@ =~= seq![c]);
    }
    string_from_chars(&v)
}

/// Equality of a character vector against a string's characters.
pub(crate) fn chars_eq_string(v: &Vec<char>, s: &String) -> (r: bool)
    ensures
        r == (v@ == s@),
{
    let sv = chars_of(s.as_str());
    if v.len() != sv.len() {
        proof {
            assert(v@ != s@);
        }
        return false;
    }
    let mut k: usize = 0;
    while k < v.len()
        invariant
            k <= v.len(),
            v@.len() == sv@.len(),
            sv@ == s@,
            forall|t: int| 0 <= t < k ==> v@[t] == sv@[t],
        decreases v.len() - k,
    {
        if v[k] != sv[k] {
            proof {
                assert(v@[k as int] != s@[k as int]);
            }
            return false;
        }
        k += 1;
    }
    proof {
        assert(v@ =~= s@);
    }
    true
}

/// Equality of a character vector against two given characters.
pub(crate) fn eq2(w: &Vec<char>, a: char, b: char) -> (r: bool)
    ensures
        r == (w@ == seq![a, b]),
{
    let r = w.len() == 2 && w[0] == a && w[1] == b;
    proof {
        if r {
            assert(w@ =~= seq![a, b]);
        }
    }
    r
}

pub(crate) fn eq3(w: &Vec<char>, a: char, b: char, c: char) -> (r: bool)
    ensures
        r == (w@ == seq![a, b, c]),
{
    let r = w.len() == 3 && w[0] == a && w[1] == b && w[2] == c;
    proof {
        if r {
            assert(w@ =~= seq![a, b, c]);
        }
    }
    r
}

pub(crate) fn eq4(w: &Vec<char>, a: char, b: char, c: char, d: char) -> (r: bool)
    ensures
        r == (w@ == seq![a, b, c, d]),
{
    let r = w.len() == 4 && w[0] == a && w[1] == b && w[2] == c && w[3] == d;
    proof {
        if r {
            assert(w@ =~= seq![a, b, c, d]);
        }
    }
    r
}

pub(crate) fn eq5(w: &Vec<char>, a: char, b: char, c: char, d: char, e: char) -> (r: bool)
    ensures
        r == (w@ == seq![a, b, c, d, e]),
{
    let r = w.len() == 5 && w[0] == a && w[1] == b && w[2] == c && w[3] == d && w[4] == e;
    proof {
        if r {
            assert(w@ =~= seq![a, b, c, d, e]);
        }
    }
    r
}

pub(crate) fn eq6(w: &Vec<char>, a: char, b: char, c: char, d: char, e: char, f: char) -> (r: bool)
    ensures
        r == (w@ == seq![a, b, c, d, e, f]),
{
    let r = w.len() == 6 && w[0] == a && w[1] == b && w[2] == c && w[3] == d && w[4] == e && w[5]
        == f;
    proof {
        if r {
            assert(w@ =~= seq![a, b, c, d, e, f]);
        }
    }
    r
}

} // verus!
