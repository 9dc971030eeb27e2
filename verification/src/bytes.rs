//! Joining byte strings and cutting them to fixed lengths.

use vstd::prelude::*;

verus! {

/// The bytes of `a` followed by those of `b`.
pub fn join(a: &[u8], b: &[u8]) -> (out: Vec<u8>)
    ensures
        out@ == a@ + b@,
{
    let mut out: Vec<u8> = Vec::with_capacity(a.len());
    out.extend_from_slice(a);
    out.extend_from_slice(b);
    assert(out@ =~= a@ + b@);
    out
}

/// The bytes of `v` as an array of their number.
pub fn to_array<const L: usize>(v: &[u8]) -> (out: [u8; L])
    requires
        v.len() == L,
    ensures
        out@ == v@,
{
    let mut out: [u8; L] = [0u8; L];
    let mut i: usize = 0;
    while i < L
        invariant
            v.len() == L,
            i <= L,
            forall|j: int| 0 <= j < i ==> out@[j] == v@[j],
        decreases L - i,
    {
        out[i] = v[i];
        i = i + 1;
    }
    assert(out@ =~= v@);
    out
}

/// The bytes of `v` from `start` up to `end`, as an array of their number.
pub fn array_from<const L: usize>(v: &[u8], start: usize, end: usize) -> (out: [u8; L])
    requires
        start <= end <= v.len(),
        end - start == L,
    ensures
        out@ == v@.subrange(start as int, end as int),
{
    to_array(vstd::slice::slice_subrange(v, start, end))
}

} // verus!
