//! Helpers on byte strings. Text throughout the library is carried as UTF-8
//! bytes.

use vstd::prelude::*;

verus! {

/// The models of a sequence of byte strings.
pub open spec fn bviews(s: Seq<Vec<u8>>) -> Seq<Seq<u8>> {
    s.map_values(|b: Vec<u8>| b@)
}

/// Copies a byte string.
pub fn copy_bytes(v: &Vec<u8>) -> (r: Vec<u8>)
    ensures
        r@ == v@,
{
    let mut out: Vec<u8> = Vec::new();
    let mut i: usize = 0;
    while i < v.len()
        invariant
            i <= v.len(),
            out@ == v@.take(i as int),
        decreases v.len() - i,
    {
        out.push(v[i]);
        assert(v@.take(i + 1 as int) == v@.take(i as int).push(v@[i as int]));
        i = i + 1;
    }
    assert(v@.take(v@.len() as int) == v@);
    out
}

/// Whether two byte strings hold the same bytes.
pub fn bytes_eq(a: &Vec<u8>, b: &Vec<u8>) -> (r: bool)
    ensures
        r == (a@ == b@),
{
    if a.len() != b.len() {
        return false;
    }
    let mut i: usize = 0;
    while i < a.len()
        invariant
            i <= a.len(),
            a@.len() == b@.len(),
            forall|j: int| 0 <= j < i ==> a@[j] == b@[j],
        decreases a.len() - i,
    {
        if a[i] != b[i] {
            return false;
        }
        i = i + 1;
    }
    proof {
        assert(a@ =~= b@);
    }
    true
}

/// Appends a copy of `x` to `out`.
pub fn push_bytes(out: &mut Vec<u8>, x: &Vec<u8>)
    ensures
        final(out)@ == old(out)@ + x@,
{
    let ghost base = out@;
    let mut i: usize = 0;
    while i < x.len()
        invariant
            i <= x.len(),
            out@ == base + x@.take(i as int),
        decreases x.len() - i,
    {
        out.push(x[i]);
        proof {
            assert(base + x@.take(i + 1 as int) =~= (base + x@.take(i as int)).push(
                x@[i as int],
            ));
        }
        i = i + 1;
    }
    proof {
        assert(base + x@.take(x@.len() as int) =~= base + x@);
    }
}

/// Whether a list of byte strings holds one equal to `x`.
pub fn bytes_list_contains(v: &Vec<Vec<u8>>, x: &Vec<u8>) -> (r: bool)
    ensures
        r == bviews(v@).contains(x@),
{
    let mut i: usize = 0;
    while i < v.len()
        invariant
            i <= v.len(),
            forall|j: int| 0 <= j < i ==> bviews(v@)[j] != x@,
        decreases v.len() - i,
    {
        if bytes_eq(&v[i], x) {
            assert(bviews(v@)[i as int] == x@);
            return true;
        }
        i = i + 1;
    }
    proof {
        if bviews(v@).contains(x@) {
            let j = choose|j: int| 0 <= j < bviews(v@).len() && bviews(v@)[j] == x@;
        }
    }
    false
}

} // verus!
