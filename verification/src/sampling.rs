//! Ring elements from hash output: small noise, and uniform residues.

use crate::bits::{bit, bit_value, byte_digits, digit, unpack, unpack_bits};
use crate::params::{NOISE_BYTES, N, Q};
use crate::ring::is_poly;
use vstd::prelude::*;

verus! {

/// The difference of two sums of two digits, taken from four digits in a row.
pub open spec fn centered(digits: Seq<bool>, i: int) -> int {
    bit_value(digits[4 * i]) + bit_value(digits[4 * i + 1]) - bit_value(digits[4 * i + 2])
        - bit_value(digits[4 * i + 3])
}

/// The noise element that 128 bytes give, two coefficients a byte: every half
/// byte gives a residue between -2 and 2, binomially spread when the bytes
/// are uniform.
pub open spec fn noise_from(bytes: Seq<u8>) -> Seq<u16> {
    Seq::new(N as nat, |i: int| (centered(byte_digits(bytes), i) % (Q as int)) as u16)
}

/// A twelve-bit number that is a residue.
pub open spec fn is_residue(x: u16) -> bool {
    x < Q
}

/// The first 256 residues among the twelve-bit numbers in `bytes`, in their
/// order; zeros stand in where `bytes` holds fewer.
pub open spec fn uniform_from(bytes: Seq<u8>) -> Seq<u16> {
    let kept = unpack(bytes, 12).filter(|x: u16| is_residue(x));
    Seq::new(
        N as nat,
        |i: int|
            if i < kept.len() {
                kept[i]
            } else {
                0u16
            },
    )
}

/// Samples a noise element from `bytes`.
pub fn sample_noise(bytes: &[u8; NOISE_BYTES]) -> (out: Vec<u16>)
    ensures
        out@ == noise_from(bytes@),
        is_poly(out@),
{
    let count: usize = N;
    let ghost stream = byte_digits(bytes@);
    let mut out: Vec<u16> = Vec::with_capacity(count);
    let mut i: usize = 0;
    while i < count
        invariant
            count == N,
            stream == byte_digits(bytes@),
            i <= count,
            out@.len() == i,
            forall|j: int| 0 <= j < i ==> out@[j] == noise_from(bytes@)[j],
            forall|j: int| 0 <= j < i ==> out@[j] < Q,
        decreases count - i,
    {
        let byte: u16 = bytes[i / 2] as u16;
        let at: usize = 4 * (i % 2);
        let plus: u16 = digit(byte, at) + digit(byte, at + 1);
        let minus: u16 = digit(byte, at + 2) + digit(byte, at + 3);
        assert(plus - minus == centered(stream, i as int));
        out.push((plus + (Q - minus)) % Q);
        i = i + 1;
    }
    assert(out@ =~= noise_from(bytes@));
    out
}

/// Samples a ring element with uniform coefficients from `bytes` by
/// rejection: twelve-bit numbers that are no residues are passed over.
pub fn sample_uniform(bytes: &[u8]) -> (out: Vec<u16>)
    requires
        bytes.len() * 8 <= usize::MAX,
    ensures
        out@ == uniform_from(bytes@),
        is_poly(out@),
{
    let candidates: Vec<u16> = unpack_bits(bytes, 12);
    let ghost keep = |x: u16| is_residue(x);
    let mut out: Vec<u16> = Vec::with_capacity(N);
    let mut i: usize = 0;
    proof {
        reveal(Seq::filter);
        assert(candidates@.take(0) =~= Seq::<u16>::empty());
    }
    while i < candidates.len()
        invariant
            candidates@ == unpack(bytes@, 12),
            keep == |x: u16| is_residue(x),
            i <= candidates.len(),
            out@.len() <= N,
            out@.len() <= candidates@.take(i as int).filter(keep).len(),
            out@.len() < N ==> out@.len() == candidates@.take(i as int).filter(keep).len(),
            forall|j: int|
                0 <= j < out@.len() ==> out@[j] == candidates@.take(i as int).filter(keep)[j],
            forall|j: int| 0 <= j < out@.len() ==> out@[j] < Q,
        decreases candidates.len() - i,
    {
        let x: u16 = candidates[i];
        proof {
            reveal(Seq::filter);
            assert(candidates@.take(i + 1).drop_last() =~= candidates@.take(i as int));
            assert(candidates@.take(i + 1).last() == x);
        }
        if x < Q && out.len() < N {
            out.push(x);
        }
        i = i + 1;
    }
    let ghost kept = candidates@.filter(keep);
    assert(candidates@.take(candidates.len() as int) =~= candidates@);
    while out.len() < N
        invariant
            out@.len() <= N,
            kept == unpack(bytes@, 12).filter(keep),
            keep == |x: u16| is_residue(x),
            forall|j: int| 0 <= j < out@.len() ==> out@[j] == uniform_from(bytes@)[j],
            forall|j: int| 0 <= j < out@.len() ==> out@[j] < Q,
            out@.len() < N ==> out@.len() >= kept.len(),
        decreases N - out.len(),
    {
        out.push(0);
    }
    assert(out@ =~= uniform_from(bytes@));
    out
}

} // verus!
