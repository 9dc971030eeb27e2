//! Why decryption undoes encryption, and when.
//!
//! Between what a recipient computes and the message element lies a noise
//! term: the noise of key generation and of encryption multiplied together,
//! and what rounding the ciphertext took away. Decryption reads every bit
//! right where this term stays below a quarter of the modulus.

use crate::bits::{lemma_pack_unpack, lemma_unpack_pack, lemma_unpacked_bound, pack, unpack};
use crate::convolution::{
    congruent, congruent_each, ints, lemma_inner_product_ints, lemma_matrix_drops_out, plus,
    product, product_at,
};
use crate::params::{
    Coins, DecryptionKey, Message, PublicKey, Seed, MSG_BITS, Q, U_LEVELS, V_LEVELS,
};
use crate::pke::{
    decrypted, decryption_key_of, decryption_mask, element_at, expand_noise, keygen, marks_at,
    matrix_entry, message_element, noise, public_element, public_key_of, recipient_element,
    recipient_element_of, recipient_mask, recipient_part, shared_element, shared_elements,
    shared_part,
};
use crate::ring::{
    add_mod, compress, compress_all, compress_each, decompress_all, decompress_each,
    inner_product, is_poly, is_reduced, mul_pair, poly_add, poly_sub, reduce_each, sub_mod,
};
use vstd::arithmetic::power2::{lemma2_to64, pow2};
use vstd::prelude::*;
use vstd::slice::slice_subrange;

verus! {

/// What rounding to `levels` marks and back adds to each entry of `x`.
pub open spec fn rounding_error(x: Seq<u16>, levels: int) -> Seq<u16> {
    poly_sub(decompress_each(compress_each(x, levels), levels), x)
}

/// The noise of encryption in element `col` of the shared vector, with what
/// rounding adds to it.
pub open spec fn shared_noise(seed: Seq<u8>, coins: Seq<u8>, col: u8) -> Seq<u16> {
    poly_add(
        noise(coins, (col + 2) as u8),
        rounding_error(shared_element(seed, coins, col), U_LEVELS as int),
    )
}

/// The noise between the message element and what the holder of the key of
/// `key_coins` computes from a ciphertext made with `coins` and `own_coins`:
/// the noise of the public key times the vector of encryption, plus the own
/// noise and the rounding of the per-recipient part, less the secret vector
/// times the noise of the shared part.
pub open spec fn decryption_noise(
    seed: Seq<u8>,
    key_coins: Seq<u8>,
    coins: Seq<u8>,
    own_coins: Seq<u8>,
    msg: Seq<u8>,
) -> Seq<u16> {
    let grown = poly_add(
        inner_product(noise(key_coins, 2), noise(coins, 0), noise(key_coins, 3), noise(coins, 1)),
        noise(own_coins, 0),
    );
    let rounded = rounding_error(
        recipient_element(public_key_of(seed, key_coins), msg, coins, own_coins),
        V_LEVELS as int,
    );
    let taken = inner_product(
        noise(key_coins, 0),
        shared_noise(seed, coins, 0),
        noise(key_coins, 1),
        shared_noise(seed, coins, 1),
    );
    poly_sub(poly_add(grown.take(MSG_BITS as int), rounded), taken.take(MSG_BITS as int))
}

/// The residue `x` stands for a number of size below a quarter of the
/// modulus.
pub open spec fn is_small(x: u16) -> bool {
    x < 832 || x > Q - 832
}

/// Every coefficient of the decryption noise is small.
pub open spec fn noise_is_small(
    seed: Seq<u8>,
    key_coins: Seq<u8>,
    coins: Seq<u8>,
    own_coins: Seq<u8>,
    msg: Seq<u8>,
) -> bool {
    forall|k: int|
        0 <= k < MSG_BITS ==> is_small(
            #[trigger] decryption_noise(seed, key_coins, coins, own_coins, msg)[k],
        )
}

/// What rounding to `levels` marks and back adds to each entry of `x`.
fn rounding_error_of(x: &[u16], levels: u32) -> (out: Vec<u16>)
    requires
        is_reduced(x@),
        1 <= levels <= 4096,
    ensures
        out@ == rounding_error(x@, levels as int),
        out@.len() == x@.len(),
        is_reduced(out@),
{
    let marks: Vec<u16> = compress_all(x, levels);
    let back: Vec<u16> = decompress_all(marks.as_slice(), levels);
    sub_mod(back.as_slice(), x)
}

/// Computes the decryption noise between the key pair of `key_coins` under
/// `seed` and the ciphertext made from `msg` with `coins` and `own_coins`.
///
/// This takes the coins of both sides, which no one party holds: it serves
/// to measure the scheme, not to run it.
pub fn measure_noise(
    seed: &Seed,
    key_coins: &Coins,
    coins: &Coins,
    own_coins: &Coins,
    msg: &Message,
) -> (out: Vec<u16>)
    ensures
        out@ == decryption_noise(seed@, key_coins@, coins@, own_coins@, msg@),
        out@.len() == MSG_BITS,
{
    let keys: (PublicKey, DecryptionKey) = keygen(seed, key_coins);
    let s0: Vec<u16> = expand_noise(key_coins, 0);
    let s1: Vec<u16> = expand_noise(key_coins, 1);
    let e0: Vec<u16> = expand_noise(key_coins, 2);
    let e1: Vec<u16> = expand_noise(key_coins, 3);
    let r0: Vec<u16> = expand_noise(coins, 0);
    let r1: Vec<u16> = expand_noise(coins, 1);
    let f0: Vec<u16> = expand_noise(coins, 2);
    let f1: Vec<u16> = expand_noise(coins, 3);
    let e2: Vec<u16> = expand_noise(own_coins, 0);
    let u: (Vec<u16>, Vec<u16>) = shared_elements(seed, coins);
    let lost0: Vec<u16> = rounding_error_of(u.0.as_slice(), U_LEVELS);
    let lost1: Vec<u16> = rounding_error_of(u.1.as_slice(), U_LEVELS);
    let g0: Vec<u16> = add_mod(f0.as_slice(), lost0.as_slice());
    let g1: Vec<u16> = add_mod(f1.as_slice(), lost1.as_slice());
    let er: Vec<u16> = mul_pair(e0.as_slice(), r0.as_slice(), e1.as_slice(), r1.as_slice());
    let grown: Vec<u16> = add_mod(er.as_slice(), e2.as_slice());
    let v: Vec<u16> = recipient_element_of(&keys.0, msg, coins, own_coins);
    let rounded: Vec<u16> = rounding_error_of(v.as_slice(), V_LEVELS);
    let taken: Vec<u16> = mul_pair(s0.as_slice(), g0.as_slice(), s1.as_slice(), g1.as_slice());
    assert(grown@.subrange(0, MSG_BITS as int) =~= grown@.take(MSG_BITS as int));
    assert(taken@.subrange(0, MSG_BITS as int) =~= taken@.take(MSG_BITS as int));
    let both: Vec<u16> = add_mod(slice_subrange(grown.as_slice(), 0, MSG_BITS), rounded.as_slice());
    sub_mod(both.as_slice(), slice_subrange(taken.as_slice(), 0, MSG_BITS))
}

/// Whether every entry of `noise` is small.
pub fn all_small(noise: &[u16]) -> (small: bool)
    ensures
        small == forall|k: int| 0 <= k < noise@.len() ==> is_small(#[trigger] noise@[k]),
{
    let mut k: usize = 0;
    while k < noise.len()
        invariant
            k <= noise.len(),
            forall|j: int| 0 <= j < k ==> is_small(#[trigger] noise@[j]),
        decreases noise.len() - k,
    {
        let x: u16 = noise[k];
        if !(x < 832 || x > Q - 832) {
            return false;
        }
        k = k + 1;
    }
    true
}

/// Residues are left as they are by reduction.
proof fn lemma_reduce_reduced(a: Seq<u16>)
    requires
        is_reduced(a),
    ensures
        reduce_each(a) == a,
{
    assert(reduce_each(a) =~= a);
}

/// Residues are numbers of twelve digits.
proof fn lemma_residues_fit(a: Seq<u16>)
    requires
        is_reduced(a),
    ensures
        forall|i: int| 0 <= i < a.len() ==> a[i] < pow2(12),
{
    lemma2_to64();
}

/// A ring element written at twelve bits a coefficient is read back as it
/// was.
pub proof fn lemma_element_read_back(a: Seq<u16>)
    requires
        is_poly(a),
    ensures
        pack(a, 12).len() == 384,
        reduce_each(unpack(pack(a, 12), 12)) == a,
{
    lemma_residues_fit(a);
    lemma_unpack_pack(a, 12);
    lemma_reduce_reduced(a);
}

/// Two ring elements written one after the other at twelve bits a
/// coefficient are read back as they were.
pub proof fn lemma_elements_read_back(a: Seq<u16>, b: Seq<u16>)
    requires
        is_poly(a),
        is_poly(b),
    ensures
        element_at(pack(a, 12) + pack(b, 12), 0, 384) == a,
        element_at(pack(a, 12) + pack(b, 12), 384, 768) == b,
{
    let x = pack(a, 12);
    let y = pack(b, 12);
    lemma_element_read_back(a);
    lemma_element_read_back(b);
    assert((x + y).subrange(0, 384) =~= x);
    assert((x + y).subrange(384, 768) =~= y);
}

/// Two elements rounded to eleven bits a coefficient and written one after
/// the other are read back as rounded.
pub proof fn lemma_marks_read_back(a: Seq<u16>, b: Seq<u16>)
    requires
        a.len() == 256,
        b.len() == 256,
    ensures
        marks_at(
            pack(compress_each(a, 2048), 11) + pack(compress_each(b, 2048), 11),
            0,
            352,
            11,
            2048,
        ) == decompress_each(compress_each(a, 2048), 2048),
        marks_at(
            pack(compress_each(a, 2048), 11) + pack(compress_each(b, 2048), 11),
            352,
            704,
            11,
            2048,
        ) == decompress_each(compress_each(b, 2048), 2048),
{
    let ca = compress_each(a, 2048);
    let cb = compress_each(b, 2048);
    let bytes = pack(ca, 11) + pack(cb, 11);
    lemma2_to64();
    assert(bytes.subrange(0, 352) =~= pack(ca, 11));
    assert(bytes.subrange(352, 704) =~= pack(cb, 11));
    lemma_unpack_pack(ca, 11);
    lemma_unpack_pack(cb, 11);
}

/// An element of 128 coefficients rounded to three bits a coefficient and
/// written is read back as rounded.
pub proof fn lemma_part_read_back(v: Seq<u16>)
    requires
        v.len() == 128,
    ensures
        marks_at(pack(compress_each(v, 8), 3), 0, 48, 3, 8) == decompress_each(
            compress_each(v, 8),
            8,
        ),
{
    let cv = compress_each(v, 8);
    lemma2_to64();
    assert(pack(cv, 3).subrange(0, 48) =~= pack(cv, 3));
    lemma_unpack_pack(cv, 3);
}

/// `a * x + b * y + e` in the ring is congruent to the same over the
/// integers, place by place.
proof fn lemma_affine(a: Seq<u16>, x: Seq<u16>, b: Seq<u16>, y: Seq<u16>, e: Seq<u16>)
    requires
        a.len() == 256,
        x.len() == 256,
        b.len() == 256,
        y.len() == 256,
        e.len() == 256,
    ensures
        congruent_each(
            ints(poly_add(inner_product(a, x, b, y), e)),
            plus(plus(product(ints(a), ints(x)), product(ints(b), ints(y))), ints(e)),
        ),
{
    lemma_inner_product_ints(a, x, b, y);
    let inner = inner_product(a, x, b, y);
    let left = ints(poly_add(inner, e));
    let over = plus(product(ints(a), ints(x)), product(ints(b), ints(y)));
    let right = plus(over, ints(e));
    assert forall|k: int| 0 <= k < 256 implies congruent(#[trigger] left[k], right[k]) by {
        assert(congruent(ints(inner)[k], over[k]));
    }
}

/// An element `u2` that stands for `a * x + b * y + f` after rounding is
/// congruent to `a * x + b * y` plus `f` with the rounding error.
proof fn lemma_rounded(
    a: Seq<u16>,
    x: Seq<u16>,
    b: Seq<u16>,
    y: Seq<u16>,
    f: Seq<u16>,
    u2: Seq<u16>,
)
    requires
        a.len() == 256,
        x.len() == 256,
        b.len() == 256,
        y.len() == 256,
        f.len() == 256,
        u2.len() == 256,
    ensures
        congruent_each(
            ints(u2),
            plus(
                plus(product(ints(a), ints(x)), product(ints(b), ints(y))),
                ints(poly_add(f, poly_sub(u2, poly_add(inner_product(a, x, b, y), f)))),
            ),
        ),
{
    lemma_affine(a, x, b, y, f);
    let u = poly_add(inner_product(a, x, b, y), f);
    let g = poly_add(f, poly_sub(u2, u));
    let over = plus(product(ints(a), ints(x)), product(ints(b), ints(y)));
    let right = plus(over, ints(g));
    assert forall|k: int| 0 <= k < 256 implies congruent(#[trigger] ints(u2)[k], right[k]) by {
        assert(congruent(ints(u)[k], plus(over, ints(f))[k]));
        assert(poly_sub(u2, u)[k] == ((u2[k] - u[k]) % 3329) as u16);
        assert(g[k] == ((f[k] + poly_sub(u2, u)[k]) % 3329) as u16);
    }
}

/// The residue that carries one message bit.
spec fn decompress_one(bit: u16) -> int {
    (bit * Q + 1) / 2
}

/// A message coefficient with small noise on it is read as the bit it
/// carries.
proof fn lemma_bit_read(bit: u16, delta: u16, w: u16)
    requires
        bit < 2,
        delta < Q,
        w < Q,
        is_small(delta),
        congruent(w as int, decompress_one(bit) + delta),
    ensures
        compress(w, 2) == bit,
{
}

/// Coefficient `k` of `a * x + b * y + e` in the ring is congruent to the
/// same over the integers.
proof fn lemma_affine_at(a: Seq<u16>, x: Seq<u16>, b: Seq<u16>, y: Seq<u16>, e: Seq<u16>, k: int)
    requires
        a.len() == 256,
        x.len() == 256,
        b.len() == 256,
        y.len() == 256,
        e.len() == 256,
        0 <= k < 256,
    ensures
        congruent(
            poly_add(inner_product(a, x, b, y), e)[k] as int,
            product_at(ints(a), ints(x), k) + product_at(ints(b), ints(y), k) + e[k],
        ),
{
    lemma_affine(a, x, b, y, e);
    let left = ints(poly_add(inner_product(a, x, b, y), e));
    let right = plus(plus(product(ints(a), ints(x)), product(ints(b), ints(y))), ints(e));
    assert(congruent(left[k], right[k]));
}

/// Coefficient `k` of `a * x + b * y` in the ring is congruent to the same
/// over the integers.
proof fn lemma_inner_at(a: Seq<u16>, x: Seq<u16>, b: Seq<u16>, y: Seq<u16>, k: int)
    requires
        a.len() == 256,
        x.len() == 256,
        b.len() == 256,
        y.len() == 256,
        0 <= k < 256,
    ensures
        congruent(
            inner_product(a, x, b, y)[k] as int,
            product_at(ints(a), ints(x), k) + product_at(ints(b), ints(y), k),
        ),
{
    lemma_inner_product_ints(a, x, b, y);
    let left = ints(inner_product(a, x, b, y));
    let right = plus(product(ints(a), ints(x)), product(ints(b), ints(y)));
    assert(congruent(left[k], right[k]));
}

/// The matrix drops out of what the secret vector leaves of a ciphertext:
/// `t * r - s * ur` is `e * r - s * g`, where `g` is the noise of the shared
/// vector with what rounding added.
proof fn lemma_cancel(
    a: (Seq<u16>, Seq<u16>, Seq<u16>, Seq<u16>),
    s: (Seq<u16>, Seq<u16>),
    e: (Seq<u16>, Seq<u16>),
    r: (Seq<u16>, Seq<u16>),
    f: (Seq<u16>, Seq<u16>),
    ur: (Seq<u16>, Seq<u16>),
    k: int,
)
    requires
        a.0.len() == 256 && a.1.len() == 256 && a.2.len() == 256 && a.3.len() == 256,
        s.0.len() == 256 && s.1.len() == 256 && e.0.len() == 256 && e.1.len() == 256,
        r.0.len() == 256 && r.1.len() == 256 && f.0.len() == 256 && f.1.len() == 256,
        ur.0.len() == 256 && ur.1.len() == 256,
    ensures
        ({
            let t0 = poly_add(inner_product(a.0, s.0, a.1, s.1), e.0);
            let t1 = poly_add(inner_product(a.2, s.0, a.3, s.1), e.1);
            let u0 = poly_add(inner_product(a.0, r.0, a.2, r.1), f.0);
            let u1 = poly_add(inner_product(a.1, r.0, a.3, r.1), f.1);
            let g0 = poly_add(f.0, poly_sub(ur.0, u0));
            let g1 = poly_add(f.1, poly_sub(ur.1, u1));
            congruent(
                product_at(ints(t0), ints(r.0), k) + product_at(ints(t1), ints(r.1), k)
                    - product_at(ints(s.0), ints(ur.0), k) - product_at(ints(s.1), ints(ur.1), k),
                product_at(ints(e.0), ints(r.0), k) + product_at(ints(e.1), ints(r.1), k)
                    - product_at(ints(s.0), ints(g0), k) - product_at(ints(s.1), ints(g1), k),
            )
        }),
{
    let t0 = poly_add(inner_product(a.0, s.0, a.1, s.1), e.0);
    let t1 = poly_add(inner_product(a.2, s.0, a.3, s.1), e.1);
    let u0 = poly_add(inner_product(a.0, r.0, a.2, r.1), f.0);
    let u1 = poly_add(inner_product(a.1, r.0, a.3, r.1), f.1);
    let g0 = poly_add(f.0, poly_sub(ur.0, u0));
    let g1 = poly_add(f.1, poly_sub(ur.1, u1));
    lemma_affine(a.0, s.0, a.1, s.1, e.0);
    lemma_affine(a.2, s.0, a.3, s.1, e.1);
    lemma_rounded(a.0, r.0, a.2, r.1, f.0, ur.0);
    lemma_rounded(a.1, r.0, a.3, r.1, f.1, ur.1);
    lemma_matrix_drops_out(
        (ints(a.0), ints(a.1), ints(a.2), ints(a.3)),
        (ints(s.0), ints(s.1)),
        (ints(e.0), ints(e.1)),
        (ints(r.0), ints(r.1)),
        (ints(g0), ints(g1)),
        (ints(t0), ints(t1)),
        (ints(ur.0), ints(ur.1)),
        k,
    );
}

/// The congruences of one coefficient put together.
proof fn lemma_combine(
    tr: int,
    su: int,
    er: int,
    sg: int,
    e2: int,
    carried: int,
    mask_enc: int,
    mask_dec: int,
    grown: int,
    taken: int,
    v: int,
    vr: int,
    rounded: int,
    w: int,
    both: int,
    delta: int,
)
    requires
        congruent(tr - su, er - sg),
        congruent(mask_enc, tr + e2),
        congruent(mask_dec, su),
        congruent(grown, er + e2),
        congruent(taken, sg),
        congruent(v, mask_enc + carried),
        congruent(rounded, vr - v),
        congruent(w, vr - mask_dec),
        congruent(both, grown + rounded),
        congruent(delta, both - taken),
    ensures
        congruent(w, carried + delta),
{
}

/// The sums and differences that lead from the two masks to the noise,
/// at one coefficient.
proof fn lemma_steps_at(
    mask_enc: Seq<u16>,
    carried: Seq<u16>,
    vr: Seq<u16>,
    mask_dec: Seq<u16>,
    grown: Seq<u16>,
    taken: Seq<u16>,
    k: int,
)
    requires
        mask_enc.len() == 256,
        mask_dec.len() == 256,
        grown.len() == 256,
        taken.len() == 256,
        carried.len() == 128,
        vr.len() == 128,
        0 <= k < 128,
    ensures
        ({
            let v = poly_add(mask_enc.take(128), carried);
            let rounded = poly_sub(vr, v);
            let w = poly_sub(vr, mask_dec.take(128));
            let both = poly_add(grown.take(128), rounded);
            let delta = poly_sub(both, taken.take(128));
            &&& congruent(v[k] as int, mask_enc[k] + carried[k])
            &&& congruent(rounded[k] as int, vr[k] - v[k])
            &&& congruent(w[k] as int, vr[k] - mask_dec[k])
            &&& congruent(both[k] as int, grown[k] + rounded[k])
            &&& congruent(delta[k] as int, both[k] - taken[k])
        }),
{
}

/// What the holder of the secret vector computes is the message element
/// plus the noise, up to a multiple of the modulus.
///
/// `a` is the matrix by rows, `s` and `e` the secret vector and the noise of
/// the public vector, `r` and `f` the vector of encryption and the noise of
/// the shared vector, `e2` the own noise, `carried` the message element,
/// `ur` and `vr` the shared vector and the recipient's element as read from
/// the ciphertext.
proof fn lemma_noise_relation(
    a: (Seq<u16>, Seq<u16>, Seq<u16>, Seq<u16>),
    s: (Seq<u16>, Seq<u16>),
    e: (Seq<u16>, Seq<u16>),
    r: (Seq<u16>, Seq<u16>),
    f: (Seq<u16>, Seq<u16>),
    e2: Seq<u16>,
    carried: Seq<u16>,
    ur: (Seq<u16>, Seq<u16>),
    vr: Seq<u16>,
    k: int,
)
    requires
        a.0.len() == 256 && a.1.len() == 256 && a.2.len() == 256 && a.3.len() == 256,
        s.0.len() == 256 && s.1.len() == 256 && e.0.len() == 256 && e.1.len() == 256,
        r.0.len() == 256 && r.1.len() == 256 && f.0.len() == 256 && f.1.len() == 256,
        ur.0.len() == 256 && ur.1.len() == 256 && e2.len() == 256,
        carried.len() == 128 && vr.len() == 128,
        0 <= k < 128,
    ensures
        ({
            let t0 = poly_add(inner_product(a.0, s.0, a.1, s.1), e.0);
            let t1 = poly_add(inner_product(a.2, s.0, a.3, s.1), e.1);
            let u0 = poly_add(inner_product(a.0, r.0, a.2, r.1), f.0);
            let u1 = poly_add(inner_product(a.1, r.0, a.3, r.1), f.1);
            let g0 = poly_add(f.0, poly_sub(ur.0, u0));
            let g1 = poly_add(f.1, poly_sub(ur.1, u1));
            let v = poly_add(poly_add(inner_product(t0, r.0, t1, r.1), e2).take(128), carried);
            let w = poly_sub(vr, inner_product(s.0, ur.0, s.1, ur.1).take(128));
            let delta = poly_sub(
                poly_add(
                    poly_add(inner_product(e.0, r.0, e.1, r.1), e2).take(128),
                    poly_sub(vr, v),
                ),
                inner_product(s.0, g0, s.1, g1).take(128),
            );
            congruent(w[k] as int, carried[k] + delta[k])
        }),
{
    let t0 = poly_add(inner_product(a.0, s.0, a.1, s.1), e.0);
    let t1 = poly_add(inner_product(a.2, s.0, a.3, s.1), e.1);
    let u0 = poly_add(inner_product(a.0, r.0, a.2, r.1), f.0);
    let u1 = poly_add(inner_product(a.1, r.0, a.3, r.1), f.1);
    let g0 = poly_add(f.0, poly_sub(ur.0, u0));
    let g1 = poly_add(f.1, poly_sub(ur.1, u1));
    let mask_enc = poly_add(inner_product(t0, r.0, t1, r.1), e2);
    let mask_dec = inner_product(s.0, ur.0, s.1, ur.1);
    let grown = poly_add(inner_product(e.0, r.0, e.1, r.1), e2);
    let taken = inner_product(s.0, g0, s.1, g1);
    let v = poly_add(mask_enc.take(128), carried);
    let rounded = poly_sub(vr, v);
    let w = poly_sub(vr, mask_dec.take(128));
    let both = poly_add(grown.take(128), rounded);
    let delta = poly_sub(both, taken.take(128));

    let tr = product_at(ints(t0), ints(r.0), k) + product_at(ints(t1), ints(r.1), k);
    let su = product_at(ints(s.0), ints(ur.0), k) + product_at(ints(s.1), ints(ur.1), k);
    let er = product_at(ints(e.0), ints(r.0), k) + product_at(ints(e.1), ints(r.1), k);
    let sg = product_at(ints(s.0), ints(g0), k) + product_at(ints(s.1), ints(g1), k);
    lemma_cancel(a, s, e, r, f, ur, k);
    lemma_affine_at(t0, r.0, t1, r.1, e2, k);
    lemma_inner_at(s.0, ur.0, s.1, ur.1, k);
    lemma_affine_at(e.0, r.0, e.1, r.1, e2, k);
    lemma_inner_at(s.0, g0, s.1, g1, k);
    lemma_steps_at(mask_enc, carried, vr, mask_dec, grown, taken, k);
    lemma_combine(
        tr,
        su,
        er,
        sg,
        e2[k] as int,
        carried[k] as int,
        mask_enc[k] as int,
        mask_dec[k] as int,
        grown[k] as int,
        taken[k] as int,
        v[k] as int,
        vr[k] as int,
        rounded[k] as int,
        w[k] as int,
        both[k] as int,
        delta[k] as int,
    );
}

/// Decryption undoes encryption where the noise is small.
///
/// Let the key pair be that of `key_coins` under `seed`, and let the two
/// parts of a ciphertext be made under the same `seed` for the public key
/// of that pair, from the message `msg` of sixteen bytes and any coins. If
/// every coefficient of the decryption noise is small, the decryption key
/// reads `msg` from the two parts.
pub proof fn lemma_decrypt_encrypt(
    seed: Seq<u8>,
    key_coins: Seq<u8>,
    coins: Seq<u8>,
    own_coins: Seq<u8>,
    msg: Seq<u8>,
)
    requires
        msg.len() == 16,
        noise_is_small(seed, key_coins, coins, own_coins, msg),
    ensures
        decrypted(
            decryption_key_of(key_coins),
            shared_part(seed, coins),
            recipient_part(public_key_of(seed, key_coins), msg, coins, own_coins),
        ) == msg,
{
    let pk = public_key_of(seed, key_coins);
    let sk = decryption_key_of(key_coins);
    let cti = shared_part(seed, coins);
    let ctd = recipient_part(pk, msg, coins, own_coins);
    let a = (
        matrix_entry(seed, 0, 0),
        matrix_entry(seed, 0, 1),
        matrix_entry(seed, 1, 0),
        matrix_entry(seed, 1, 1),
    );
    let s = (noise(key_coins, 0), noise(key_coins, 1));
    let e = (noise(key_coins, 2), noise(key_coins, 3));
    let r = (noise(coins, 0), noise(coins, 1));
    let f = (noise(coins, 2), noise(coins, 3));
    let e2 = noise(own_coins, 0);
    let t0 = public_element(seed, key_coins, 0);
    let t1 = public_element(seed, key_coins, 1);
    let u0 = shared_element(seed, coins, 0);
    let u1 = shared_element(seed, coins, 1);
    let ur = (
        decompress_each(compress_each(u0, 2048), 2048),
        decompress_each(compress_each(u1, 2048), 2048),
    );
    let v = recipient_element(pk, msg, coins, own_coins);
    let vr = decompress_each(compress_each(v, 8), 8);
    let bits = unpack(msg, 1);
    let carried = message_element(msg);
    let mask_dec = inner_product(s.0, ur.0, s.1, ur.1);
    let w = poly_sub(vr, mask_dec.take(128));
    let delta = decryption_noise(seed, key_coins, coins, own_coins, msg);

    assert(recipient_mask(pk, coins, own_coins) == poly_add(inner_product(t0, r.0, t1, r.1), e2))
        by {
        lemma_elements_read_back(t0, t1);
    }
    assert(decryption_mask(sk, cti) == mask_dec) by {
        lemma_elements_read_back(s.0, s.1);
        lemma_marks_read_back(u0, u1);
    }
    assert(marks_at(ctd, 0, 48, 3, 8) == vr) by {
        lemma_part_read_back(v);
    }
    assert(decrypted(sk, cti, ctd) == pack(compress_each(w, 2), 1));
    assert(bits.len() == 128 && forall|k: int| 0 <= k < 128 ==> bits[k] < 2) by {
        lemma2_to64();
        assert forall|k: int| 0 <= k < 128 implies bits[k] < 2 by {
            lemma_unpacked_bound(msg, 1, k);
        }
    }
    assert forall|k: int| 0 <= k < 128 implies #[trigger] compress_each(w, 2)[k] == bits[k] by {
        lemma_noise_relation(a, s, e, r, f, e2, carried, ur, vr, k);
        assert(carried[k] == decompress_one(bits[k]));
        assert(is_small(delta[k]));
        lemma_bit_read(bits[k], delta[k], w[k]);
    }
    assert(compress_each(w, 2) =~= bits);
    lemma_pack_unpack(msg, 1);
}


} // verus!
