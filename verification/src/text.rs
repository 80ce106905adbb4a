//! Small string helpers shared by the editor, the parser and the
//! dispatcher.

use vstd::prelude::*;
use vstd::string::StrSliceExecFns;

verus! {

/// Character-for-character string equality.
pub fn str_eq(a: &str, b: &str) -> (r: bool)
    ensures
        r == (a@ == b@),
{
    let alen = a.unicode_len();
    let blen = b.unicode_len();
    if alen != blen {
        return false;
    }
    let mut i: usize = 0;
    while i < alen
        invariant
            0 <= i <= alen,
            alen == a@.len(),
            alen == b@.len(),
            forall|k: int| 0 <= k < i ==> a@[k] == b@[k],
        decreases alen - i,
    {
        if a.get_char(i) != b.get_char(i) {
            return false;
        }
        i = i + 1;
    }
    proof {
        assert(a@ =~= b@);
    }
    true
}

/// Whether `a` is a prefix of `b`.
pub fn is_prefix_of(a: &str, b: &str) -> (r: bool)
    ensures
        r == a@.is_prefix_of(b@),
{
    let alen = a.unicode_len();
    let blen = b.unicode_len();
    if alen > blen {
        proof {
            assert(!a@.is_prefix_of(b@));
        }
        return false;
    }
    let mut i: usize = 0;
    while i < alen
        invariant
            0 <= i <= alen,
            alen == a@.len(),
            blen == b@.len(),
            alen <= blen,
            forall|k: int| 0 <= k < i ==> a@[k] == b@[k],
        decreases alen - i,
    {
        if a.get_char(i) != b.get_char(i) {
            proof {
                assert(!a@.is_prefix_of(b@));
            }
            return false;
        }
        i = i + 1;
    }
    proof {
        assert(a@ =~= b@.subrange(0, a@.len() as int));
    }
    true
}

/// Relies on `String::push`: appends the given character to the end of the
/// string.
#[verifier::external_body]
pub fn push_char(s: &mut String, c: char)
    ensures
        final (s)@ == old(s)@.push(c),
{
    s.push(c);
}

/// Clones a vector of strings.
pub fn clone_strings(v: &Vec<String>) -> (r: Vec<String>)
    ensures
        r.deep_view() == v.deep_view(),
{
    let mut r: Vec<String> = Vec::new();
    let mut i: usize = 0;
    while i < v.len()
        invariant
            0 <= i <= v@.len(),
            r@.len() == i,
            forall|k: int| 0 <= k < i ==> r@[k]@ == v@[k]@,
        decreases v@.len() - i,
    {
        r.push(v[i].clone());
        i = i + 1;
    }
    proof {
        assert(r.deep_view() =~= v.deep_view());
    }
    r
}

} // verus!
