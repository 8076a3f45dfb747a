//! Byte-string helpers: the protocol's method, action and field names are
//! byte strings, compared and looked up by content.

use vstd::prelude::*;

verus! {

/// True exactly when the two byte slices hold the same bytes.
pub fn bytes_eq(a: &[u8], b: &[u8]) -> (r: bool)
    ensures
        r == (a@ == b@),
{
    if a.len() != b.len() {
        assert(a@ != b@) by {
            assert(a@.len() != b@.len());
        }
        return false;
    }
    let n: usize = a.len();
    let mut i: usize = 0;
    while i < n
        invariant
            n == a@.len() == b@.len(),
            0 <= i <= n,
            forall|j: int| 0 <= j < i ==> a@[j] == b@[j],
        decreases n - i,
    {
        if a[i] != b[i] {
            assert(a@ != b@);
            return false;
        }
        i = i + 1;
    }
    assert(a@ =~= b@);
    true
}

/// True exactly when `x` occurs in `l`, viewing both as byte sequences.
pub open spec fn in_list(l: Seq<Seq<u8>>, x: Seq<u8>) -> bool {
    exists|i: int| 0 <= i < l.len() && l[i] == x
}

/// Membership of a byte string in a list of byte strings.
pub fn list_contains(l: &Vec<Vec<u8>>, x: &[u8]) -> (r: bool)
    ensures
        r == in_list(l.deep_view(), x@),
{
    let n: usize = l.len();
    let mut i: usize = 0;
    while i < n
        invariant
            n == l@.len(),
            0 <= i <= n,
            forall|j: int| 0 <= j < i ==> l.deep_view()[j] != x@,
        decreases n - i,
    {
        if bytes_eq(l[i].as_slice(), x) {
            assert(l.deep_view()[i as int] == x@);
            return true;
        }
        assert(l.deep_view()[i as int] == l@[i as int]@);
        i = i + 1;
    }
    false
}

/// A fresh vector holding the bytes of `s[a..b]`.
pub fn copy_range(s: &[u8], a: usize, b: usize) -> (r: Vec<u8>)
    requires
        a <= b <= s@.len(),
    ensures
        r@ == s@.subrange(a as int, b as int),
{
    let mut r: Vec<u8> = Vec::new();
    let mut i: usize = a;
    while i < b
        invariant
            a <= i <= b <= s@.len(),
            r@ == s@.subrange(a as int, i as int),
        decreases b - i,
    {
        r.push(s[i]);
        assert(s@.subrange(a as int, i + 1 as int) =~= s@.subrange(a as int, i as int).push(
            s@[i as int],
        ));
        i = i + 1;
    }
    r
}

/// A fresh vector holding the same bytes as `s`.
pub fn copy_bytes(s: &[u8]) -> (r: Vec<u8>)
    ensures
        r@ == s@,
{
    let r = copy_range(s, 0, s.len());
    assert(s@.subrange(0, s@.len() as int) =~= s@);
    r
}

} // verus!
