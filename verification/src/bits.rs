//! Packing of fixed-width numbers into bytes, and back.
//!
//! A sequence of numbers of `d` binary digits each is laid out as one stream
//! of digits, the lowest digit of the first number first. Bytes are the same
//! stream cut into groups of eight.

use vstd::arithmetic::div_mod::{
    lemma_fundamental_div_mod_converse, lemma_mod_breakdown, lemma_small_mod,
};
use vstd::arithmetic::power2::{
    lemma2_to64, lemma_pow2_pos, lemma_pow2_strictly_increases, lemma_pow2_unfold, pow2,
};
use vstd::prelude::*;

verus! {

/// Binary digit `j` of `x`, the lowest being digit 0.
pub open spec fn bit(x: nat, j: nat) -> bool
    decreases j,
{
    if j == 0 {
        x % 2 == 1
    } else {
        bit(x / 2, (j - 1) as nat)
    }
}

/// A binary digit as a number.
pub open spec fn bit_value(b: bool) -> nat {
    if b {
        1
    } else {
        0
    }
}

/// The number whose binary digits, lowest first, are `digits`.
pub open spec fn le_value(digits: Seq<bool>) -> nat
    decreases digits.len(),
{
    if digits.len() == 0 {
        0
    } else {
        bit_value(digits[0]) + 2 * le_value(digits.drop_first())
    }
}

/// The digit stream of `words`, `d` digits a word.
pub open spec fn word_digits(words: Seq<u16>, d: nat) -> Seq<bool> {
    Seq::new(words.len() * d, |p: int| bit(words[p / (d as int)] as nat, (p % (d as int)) as nat))
}

/// The digit stream of `bytes`, eight digits a byte.
pub open spec fn byte_digits(bytes: Seq<u8>) -> Seq<bool> {
    Seq::new(bytes.len() * 8, |p: int| bit(bytes[p / 8] as nat, (p % 8) as nat))
}

/// The bytes that hold the lowest `d` digits of each of `words`. Digits that
/// do not fill a last byte are dropped.
pub open spec fn pack(words: Seq<u16>, d: nat) -> Seq<u8> {
    Seq::new(
        words.len() * d / 8,
        |n: int| le_value(word_digits(words, d).subrange(8 * n, 8 * n + 8)) as u8,
    )
}

/// The `d`-digit numbers held in `bytes`. Digits that do not fill a last
/// number are dropped.
pub open spec fn unpack(bytes: Seq<u8>, d: nat) -> Seq<u16> {
    Seq::new(
        bytes.len() * 8 / d,
        |i: int| le_value(byte_digits(bytes).subrange(i * d, i * d + d)) as u16,
    )
}

/// A shift to the right by `j` places brings digit `j` to the lowest place.
pub proof fn lemma_bit_is_shift(x: u16, j: u16)
    requires
        j < 16,
    ensures
        bit(x as nat, j as nat) == ((x >> j) & 1 == 1),
    decreases j,
{
    if j == 0 {
        assert((x >> 0u16) & 1 == x % 2) by (bit_vector);
    } else {
        let h: u16 = x / 2;
        let k: u16 = (j - 1) as u16;
        lemma_bit_is_shift(h, k);
        assert(j >= 1 && j < 16 && k == j - 1 && h == x / 2 ==> (h >> k) == (x >> j))
            by (bit_vector);
    }
}

/// A number of `n` digits is below the `n`-th power of two.
pub proof fn lemma_le_value_bound(digits: Seq<bool>)
    ensures
        le_value(digits) < pow2(digits.len()),
    decreases digits.len(),
{
    if digits.len() == 0 {
        lemma2_to64();
    } else {
        lemma_le_value_bound(digits.drop_first());
        lemma_pow2_unfold(digits.len());
    }
}

/// The digits of the number made of `digits` are `digits`.
pub proof fn lemma_bit_of_le_value(digits: Seq<bool>, j: int)
    requires
        0 <= j < digits.len(),
    ensures
        bit(le_value(digits), j as nat) == digits[j],
    decreases j,
{
    if j > 0 {
        lemma_bit_of_le_value(digits.drop_first(), j - 1);
        assert(le_value(digits) / 2 == le_value(digits.drop_first()));
    }
}

/// The number made of the lowest `d` digits of `x` is `x` modulo the `d`-th
/// power of two.
pub proof fn lemma_le_value_of_bits(x: nat, d: nat)
    ensures
        le_value(Seq::new(d, |j: int| bit(x, j as nat))) == x % pow2(d),
    decreases d,
{
    let digits = Seq::new(d, |j: int| bit(x, j as nat));
    if d == 0 {
        lemma2_to64();
    } else {
        let rest = Seq::new((d - 1) as nat, |j: int| bit(x / 2, j as nat));
        assert(digits.drop_first() =~= rest);
        lemma_le_value_of_bits(x / 2, (d - 1) as nat);
        lemma_pow2_unfold(d);
        lemma_pow2_pos((d - 1) as nat);
        lemma_mod_breakdown(x as int, 2, pow2((d - 1) as nat) as int);
    }
}

/// Place `i * d + j` of a stream of `d`-digit numbers is digit `j` of
/// number `i`.
proof fn lemma_place(i: int, j: int, d: int)
    requires
        0 <= j < d,
        0 <= i,
    ensures
        (i * d + j) / d == i,
        (i * d + j) % d == j,
        i * d + j >= 0,
{
    assert(i * d >= 0) by (nonlinear_arith)
        requires
            i >= 0,
            d > 0,
    ;
    assert(i * d == d * i) by (nonlinear_arith);
    lemma_fundamental_div_mod_converse(i * d + j, d, i, j);
}

/// Place `p` of a stream of `d`-digit numbers lies in number `p / d`.
proof fn lemma_place_of(p: int, d: int, count: int)
    requires
        0 <= p < count * d,
        0 < d,
    ensures
        0 <= p / d < count,
        0 <= p % d < d,
        p == (p / d) * d + p % d,
{
    assert(p == d * (p / d) + p % d && 0 <= p % d < d) by (nonlinear_arith)
        requires
            d > 0,
    ;
    assert(0 <= p / d < count) by (nonlinear_arith)
        requires
            0 <= p < count * d,
            d > 0,
            p == d * (p / d) + p % d,
            0 <= p % d < d,
    ;
    assert((p / d) * d == d * (p / d)) by (nonlinear_arith);
}

/// The bytes that `pack` gives hold the digit stream of the words.
pub proof fn lemma_digits_of_pack(words: Seq<u16>, d: nat)
    requires
        d >= 1,
        (words.len() * d) % 8 == 0,
    ensures
        byte_digits(pack(words, d)) == word_digits(words, d),
{
    let stream = word_digits(words, d);
    let bytes = pack(words, d);
    assert(bytes.len() * 8 == stream.len());
    assert forall|p: int| 0 <= p < stream.len() implies byte_digits(bytes)[p] == stream[p] by {
        let n = p / 8;
        let group = stream.subrange(8 * n, 8 * n + 8);
        lemma_le_value_bound(group);
        lemma2_to64();
        lemma_bit_of_le_value(group, p % 8);
    }
    assert(byte_digits(bytes) =~= stream);
}

/// The numbers that `unpack` gives hold the digit stream of the bytes.
pub proof fn lemma_digits_of_unpack(bytes: Seq<u8>, d: nat)
    requires
        1 <= d <= 16,
        (bytes.len() * 8) % d == 0,
    ensures
        word_digits(unpack(bytes, d), d) == byte_digits(bytes),
{
    let stream = byte_digits(bytes);
    let words = unpack(bytes, d);
    assert(words.len() * d == stream.len()) by (nonlinear_arith)
        requires
            words.len() == (bytes.len() * 8) / d,
            stream.len() == bytes.len() * 8,
            (bytes.len() * 8) % d == 0,
            d >= 1,
    ;
    assert forall|p: int| 0 <= p < stream.len() implies word_digits(words, d)[p] == stream[p] by {
        lemma_place_of(p, d as int, words.len() as int);
        let i = p / (d as int);
        assert(0 <= i * d && i * d + d <= words.len() * d) by (nonlinear_arith)
            requires
                0 <= i < words.len(),
                d >= 1,
        ;
        let group = stream.subrange(i * d, i * d + d);
        assert(group.len() == d);
        assert(group[p % (d as int)] == stream[p]);
        lemma_le_value_bound(group);
        lemma2_to64();
        if d < 16 {
            lemma_pow2_strictly_increases(d, 16);
        }
        lemma_bit_of_le_value(group, p % (d as int));
    }
    assert(word_digits(words, d) =~= stream);
}

/// A number of `d` digits read from bytes is below the `d`-th power of two.
pub proof fn lemma_unpacked_bound(bytes: Seq<u8>, d: nat, i: int)
    requires
        1 <= d <= 16,
        0 <= i < unpack(bytes, d).len(),
    ensures
        unpack(bytes, d)[i] < pow2(d),
{
    let group = byte_digits(bytes).subrange(i * d, i * d + d);
    assert(i * d + d <= bytes.len() * 8) by (nonlinear_arith)
        requires
            0 <= i < (bytes.len() * 8) / d,
            d >= 1,
    ;
    assert(0 <= i * d) by (nonlinear_arith)
        requires
            0 <= i,
            d >= 1,
    ;
    lemma_le_value_bound(group);
    lemma2_to64();
    if d < 16 {
        lemma_pow2_strictly_increases(d, 16);
    }
}

/// Unpacking what was packed gives the words back, where they are of `d`
/// digits and fill whole bytes.
pub proof fn lemma_unpack_pack(words: Seq<u16>, d: nat)
    requires
        1 <= d <= 16,
        (words.len() * d) % 8 == 0,
        forall|i: int| 0 <= i < words.len() ==> words[i] < pow2(d),
    ensures
        unpack(pack(words, d), d) == words,
{
    let bytes = pack(words, d);
    lemma_digits_of_pack(words, d);
    assert(bytes.len() * 8 == words.len() * d);
    assert((words.len() * d) / d == words.len()) by (nonlinear_arith)
        requires
            d >= 1,
    ;
    assert forall|i: int| 0 <= i < words.len() implies unpack(bytes, d)[i] == words[i] by {
        lemma_place(i, d as int - 1, d as int);
        assert(i * d + d <= words.len() * d) by (nonlinear_arith)
            requires
                i < words.len(),
                d >= 1,
        ;
        let group = word_digits(words, d).subrange(i * d, i * d + d);
        assert(group =~= Seq::new(d, |j: int| bit(words[i] as nat, j as nat))) by {
            assert forall|j: int| 0 <= j < d implies group[j] == bit(words[i] as nat, j as nat) by {
                lemma_place(i, j, d as int);
            }
        }
        lemma_le_value_of_bits(words[i] as nat, d);
        lemma_small_mod(words[i] as nat, pow2(d));
    }
    assert(unpack(bytes, d) =~= words);
}

/// Packing what was unpacked gives the bytes back, where they hold whole
/// numbers of `d` digits.
pub proof fn lemma_pack_unpack(bytes: Seq<u8>, d: nat)
    requires
        1 <= d <= 16,
        (bytes.len() * 8) % d == 0,
    ensures
        pack(unpack(bytes, d), d) == bytes,
{
    let words = unpack(bytes, d);
    lemma_digits_of_unpack(bytes, d);
    assert(words.len() * d == bytes.len() * 8) by (nonlinear_arith)
        requires
            words.len() == (bytes.len() * 8) / d,
            (bytes.len() * 8) % d == 0,
            d >= 1,
    ;
    assert forall|n: int| 0 <= n < bytes.len() implies pack(words, d)[n] == bytes[n] by {
        let group = byte_digits(bytes).subrange(8 * n, 8 * n + 8);
        assert(group =~= Seq::new(8, |j: int| bit(bytes[n] as nat, j as nat)));
        lemma_le_value_of_bits(bytes[n] as nat, 8);
        lemma2_to64();
        lemma_small_mod(bytes[n] as nat, pow2(8));
    }
    assert(pack(words, d) =~= bytes);
}

/// Reading a stream from place `p` is its digit at `p` and then the stream
/// from `p + 1`.
pub proof fn lemma_le_value_step(stream: Seq<bool>, p: int, end: int)
    requires
        0 <= p < end <= stream.len(),
    ensures
        le_value(stream.subrange(p, end)) == bit_value(stream[p]) + 2 * le_value(
            stream.subrange(p + 1, end),
        ),
{
    assert(stream.subrange(p, end).drop_first() =~= stream.subrange(p + 1, end));
}

/// Binary digit `j` of `x`, as the number 0 or 1.
pub fn digit(x: u16, j: usize) -> (b: u16)
    requires
        j < 16,
    ensures
        b == bit_value(bit(x as nat, j as nat)),
{
    let s: u16 = j as u16;
    proof {
        lemma_bit_is_shift(x, s);
        assert((x >> s) & 1 == 0 || (x >> s) & 1 == 1) by (bit_vector);
    }
    (x >> s) & 1
}

/// Packs the lowest `d` digits of each of `words` into bytes.
pub fn pack_bits(words: &[u16], d: usize) -> (out: Vec<u8>)
    requires
        1 <= d <= 16,
        words.len() * d <= usize::MAX,
    ensures
        out@ == pack(words@, d as nat),
{
    let total: usize = words.len() * d;
    let count: usize = total / 8;
    let ghost stream = word_digits(words@, d as nat);
    let mut out: Vec<u8> = Vec::with_capacity(count);
    let mut n: usize = 0;
    while n < count
        invariant
            1 <= d <= 16,
            total == words.len() * d,
            count == total / 8,
            stream == word_digits(words@, d as nat),
            n <= count,
            out@.len() == n,
            forall|m: int|
                0 <= m < n ==> out@[m] == le_value(
                    #[trigger] stream.subrange(8 * m, 8 * m + 8),
                ) as u8,
        decreases count - n,
    {
        let mut acc: u8 = 0;
        let mut t: usize = 8;
        proof {
            lemma2_to64();
            assert(stream.subrange(8 * n + 8, 8 * n + 8) =~= Seq::<bool>::empty());
        }
        while t > 0
            invariant
                1 <= d <= 16,
                total == words.len() * d,
                stream == word_digits(words@, d as nat),
                8 * n + 8 <= total,
                t <= 8,
                acc == le_value(stream.subrange(8 * n + t, 8 * n + 8)),
                acc < pow2((8 - t) as nat),
            decreases t,
        {
            t = t - 1;
            let p: usize = 8 * n + t;
            assert(p / d < words.len()) by (nonlinear_arith)
                requires
                    p < words.len() * d,
                    d >= 1,
            ;
            let b: u16 = digit(words[p / d], p % d);
            proof {
                lemma_le_value_step(stream, p as int, 8 * n + 8);
                lemma_pow2_unfold((8 - t) as nat);
                lemma2_to64();
                lemma_pow2_strictly_increases((7 - t) as nat, 8);
            }
            acc = 2 * acc + (b as u8);
        }
        out.push(acc);
        n = n + 1;
    }
    assert(out@ =~= pack(words@, d as nat));
    out
}

/// Reads `bytes` as a run of `d`-digit numbers.
pub fn unpack_bits(bytes: &[u8], d: usize) -> (out: Vec<u16>)
    requires
        1 <= d <= 16,
        bytes.len() * 8 <= usize::MAX,
    ensures
        out@ == unpack(bytes@, d as nat),
        forall|j: int| 0 <= j < out@.len() ==> out@[j] < pow2(d as nat),
{
    let total: usize = bytes.len() * 8;
    let count: usize = total / d;
    let ghost stream = byte_digits(bytes@);
    let mut out: Vec<u16> = Vec::with_capacity(count);
    let mut i: usize = 0;
    while i < count
        invariant
            1 <= d <= 16,
            total == bytes.len() * 8,
            count == total / d,
            stream == byte_digits(bytes@),
            i <= count,
            out@.len() == i,
            forall|m: int|
                0 <= m < i ==> out@[m] == le_value(
                    #[trigger] stream.subrange(m * d, m * d + d),
                ) as u16,
            forall|j: int| 0 <= j < i ==> out@[j] < pow2(d as nat),
        decreases count - i,
    {
        assert(i * d + d <= total) by (nonlinear_arith)
            requires
                i < count,
                count == total / d,
                d >= 1,
        ;
        let base: usize = i * d;
        let mut acc: u16 = 0;
        let mut t: usize = d;
        proof {
            lemma2_to64();
            assert(stream.subrange(base + d, base + d) =~= Seq::<bool>::empty());
        }
        while t > 0
            invariant
                1 <= d <= 16,
                total == bytes.len() * 8,
                stream == byte_digits(bytes@),
                base + d <= total,
                t <= d,
                acc == le_value(stream.subrange(base + t, base + d)),
                acc < pow2((d - t) as nat),
            decreases t,
        {
            t = t - 1;
            let p: usize = base + t;
            let b: u16 = digit(bytes[p / 8] as u16, p % 8);
            proof {
                lemma_le_value_step(stream, p as int, base + d);
                lemma_pow2_unfold((d - t) as nat);
                lemma2_to64();
                if d - t < 16 {
                    lemma_pow2_strictly_increases((d - t) as nat, 16);
                }
            }
            acc = 2 * acc + b;
        }
        out.push(acc);
        i = i + 1;
    }
    assert(out@ =~= unpack(bytes@, d as nat));
    out
}

} // verus!
