//! Comparison and choice without a branch on the data.

use vstd::prelude::*;

verus! {

/// The mask of a condition: every digit set when it holds, none when not.
pub open spec fn mask_of(holds: bool) -> u8 {
    if holds {
        0xff
    } else {
        0
    }
}

/// Digit by digit, `x` where `mask` is set and `y` where it is not.
pub open spec fn mux(mask: u8, x: u8, y: u8) -> u8 {
    y ^ (mask & (x ^ y))
}

/// `mask_of(a == b)`, reached by folding the differences of all the bytes.
/// Only the two lengths decide a branch.
pub fn eq_mask(a: &[u8], b: &[u8]) -> (mask: u8)
    ensures
        mask == mask_of(a@ == b@),
{
    if a.len() != b.len() {
        return 0;
    }
    let mut diff: u8 = 0;
    let mut i: usize = 0;
    assert(a@.take(0) =~= b@.take(0));
    while i < a.len()
        invariant
            a.len() == b.len(),
            i <= a.len(),
            diff == 0 <==> a@.take(i as int) == b@.take(i as int),
        decreases a.len() - i,
    {
        let x: u8 = a[i];
        let y: u8 = b[i];
        let ghost before = diff;
        diff = diff | (x ^ y);
        proof {
            assert(((before | (x ^ y)) == 0) <==> (before == 0 && x == y)) by (bit_vector);
            assert(a@.take(i + 1) =~= a@.take(i as int).push(x));
            assert(b@.take(i + 1) =~= b@.take(i as int).push(y));
            if a@.take(i + 1) == b@.take(i + 1) {
                assert(a@.take(i as int) =~= a@.take(i + 1).drop_last());
                assert(b@.take(i as int) =~= b@.take(i + 1).drop_last());
                assert(a@.take(i + 1).last() == x);
                assert(b@.take(i + 1).last() == y);
            }
        }
        i = i + 1;
    }
    assert(a@.take(a.len() as int) =~= a@);
    assert(b@.take(b.len() as int) =~= b@);
    let differs: u16 = (diff as u16 + 255) / 256;
    ((1 - differs) * 255) as u8
}

/// Byte by byte, the digits of `a` where `mask` is set and those of `b`
/// where it is not: `a` under a full mask, `b` under an empty one.
pub fn select<const L: usize>(mask: u8, a: &[u8; L], b: &[u8; L]) -> (out: [u8; L])
    ensures
        out@ == Seq::new(L as nat, |i: int| mux(mask, a@[i], b@[i])),
        mask == 0xff ==> out@ == a@,
        mask == 0 ==> out@ == b@,
{
    let mut out: [u8; L] = [0u8; L];
    let mut i: usize = 0;
    while i < L
        invariant
            i <= L,
            forall|j: int| 0 <= j < i ==> out@[j] == mux(mask, a@[j], b@[j]),
        decreases L - i,
    {
        out[i] = b[i] ^ (mask & (a[i] ^ b[i]));
        i = i + 1;
    }
    assert(out@ =~= Seq::new(L as nat, |i: int| mux(mask, a@[i], b@[i])));
    assert(mask == 0xff ==> out@ =~= a@) by {
        assert forall|x: u8, y: u8| #[trigger] mux(0xff, x, y) == x by {
            assert(y ^ (0xffu8 & (x ^ y)) == x) by (bit_vector);
        }
    }
    assert(mask == 0 ==> out@ =~= b@) by {
        assert forall|x: u8, y: u8| #[trigger] mux(0, x, y) == y by {
            assert(y ^ (0u8 & (x ^ y)) == y) by (bit_vector);
        }
    }
    out
}

} // verus!
