//! The public-key encryption scheme under the mechanism.
//!
//! A ciphertext has two parts. The first depends on the group seed and the
//! coins alone, so one copy serves every recipient; the second is made for one
//! public key. Keys, noise and the public matrix are vectors and a matrix of
//! ring elements of dimension two.

use crate::bits::{pack, pack_bits, unpack, unpack_bits};
use crate::bytes::{join, to_array};
use crate::params::{
    Coins, Ctd, Cti, DecryptionKey, Message, PublicKey, Seed, MSG_BITS, MSG_LEVELS, NOISE_BYTES,
    TAG_MATRIX, TAG_NOISE, UNIFORM_BYTES, U_LEVELS, V_LEVELS,
};
use crate::ring::{
    add_mod, compress_all, compress_each, decompress_all, decompress_each, inner_product, is_poly,
    is_reduced, mul_pair, poly_add, poly_sub, reduce_all, reduce_each, sub_mod,
};
use crate::sampling::{noise_from, sample_noise, sample_uniform, uniform_from};
use crate::xof::{hash_tagged, tagged_hash};
use vstd::arithmetic::power2::lemma2_to64;
use vstd::prelude::*;
use vstd::slice::slice_subrange;

verus! {

/// The entry of the public matrix at `row` and `col` that `seed` expands to.
pub open spec fn matrix_entry(seed: Seq<u8>, row: u8, col: u8) -> Seq<u16> {
    uniform_from(tagged_hash(TAG_MATRIX, seq![row, col] + seed, UNIFORM_BYTES as nat))
}

/// The noise element number `nonce` that `coins` expand to.
pub open spec fn noise(coins: Seq<u8>, nonce: u8) -> Seq<u16> {
    noise_from(tagged_hash(TAG_NOISE, seq![nonce] + coins, NOISE_BYTES as nat))
}

/// The ring element held in twelve-bit numbers at bytes `start` to `end`.
pub open spec fn element_at(bytes: Seq<u8>, start: int, end: int) -> Seq<u16> {
    reduce_each(unpack(bytes.subrange(start, end), 12))
}

/// The ring element held in marks of `d` digits at bytes `start` to `end`.
pub open spec fn marks_at(bytes: Seq<u8>, start: int, end: int, d: nat, levels: int) -> Seq<u16> {
    decompress_each(unpack(bytes.subrange(start, end), d), levels)
}

/// The decryption key that `coins` give: the secret vector, twelve bits a
/// coefficient.
pub open spec fn decryption_key_of(coins: Seq<u8>) -> Seq<u8> {
    pack(noise(coins, 0), 12) + pack(noise(coins, 1), 12)
}

/// Element `row` of the public vector that goes with the secret vector of
/// `coins` under `seed`: row `row` of the matrix times the secret vector,
/// plus noise.
pub open spec fn public_element(seed: Seq<u8>, coins: Seq<u8>, row: u8) -> Seq<u16> {
    poly_add(
        inner_product(
            matrix_entry(seed, row, 0),
            noise(coins, 0),
            matrix_entry(seed, row, 1),
            noise(coins, 1),
        ),
        noise(coins, (row + 2) as u8),
    )
}

/// The public key that goes with `decryption_key_of(coins)` under `seed`:
/// the public vector, twelve bits a coefficient.
pub open spec fn public_key_of(seed: Seq<u8>, coins: Seq<u8>) -> Seq<u8> {
    pack(public_element(seed, coins, 0), 12) + pack(public_element(seed, coins, 1), 12)
}

/// Element `col` of the vector that every recipient shares: column `col` of
/// the matrix times the vector that `coins` give, plus noise.
pub open spec fn shared_element(seed: Seq<u8>, coins: Seq<u8>, col: u8) -> Seq<u16> {
    poly_add(
        inner_product(
            matrix_entry(seed, 0, col),
            noise(coins, 0),
            matrix_entry(seed, 1, col),
            noise(coins, 1),
        ),
        noise(coins, (col + 2) as u8),
    )
}

/// The ciphertext part that every recipient shares: the shared vector,
/// rounded to `U_LEVELS` marks.
pub open spec fn shared_part(seed: Seq<u8>, coins: Seq<u8>) -> Seq<u8> {
    pack(compress_each(shared_element(seed, coins, 0), U_LEVELS as int), 11) + pack(
        compress_each(shared_element(seed, coins, 1), U_LEVELS as int),
        11,
    )
}

/// The ring element that carries `msg`: half the modulus where a bit is set.
pub open spec fn message_element(msg: Seq<u8>) -> Seq<u16> {
    decompress_each(unpack(msg, 1), MSG_LEVELS as int)
}

/// What hides the message from all but the holder of `pk`: the public
/// vector in `pk` times the vector that `coins` give, plus noise from
/// `own_coins`.
pub open spec fn recipient_mask(pk: Seq<u8>, coins: Seq<u8>, own_coins: Seq<u8>) -> Seq<u16> {
    poly_add(
        inner_product(
            element_at(pk, 0, 384),
            noise(coins, 0),
            element_at(pk, 384, 768),
            noise(coins, 1),
        ),
        noise(own_coins, 0),
    )
}

/// The element for the holder of `pk`: the message under its mask, on the
/// coefficients that carry message bits.
pub open spec fn recipient_element(
    pk: Seq<u8>,
    msg: Seq<u8>,
    coins: Seq<u8>,
    own_coins: Seq<u8>,
) -> Seq<u16> {
    poly_add(recipient_mask(pk, coins, own_coins).take(MSG_BITS as int), message_element(msg))
}

/// The ciphertext part for the holder of `pk`: its element, rounded to
/// `V_LEVELS` marks.
pub open spec fn recipient_part(
    pk: Seq<u8>,
    msg: Seq<u8>,
    coins: Seq<u8>,
    own_coins: Seq<u8>,
) -> Seq<u8> {
    pack(compress_each(recipient_element(pk, msg, coins, own_coins), V_LEVELS as int), 3)
}

/// What the decryption key `sk` takes off a per-recipient part: the secret
/// vector times the vector held in `cti`.
pub open spec fn decryption_mask(sk: Seq<u8>, cti: Seq<u8>) -> Seq<u16> {
    inner_product(
        element_at(sk, 0, 384),
        marks_at(cti, 0, 352, 11, U_LEVELS as int),
        element_at(sk, 384, 768),
        marks_at(cti, 352, 704, 11, U_LEVELS as int),
    )
}

/// The message that the decryption key `sk` reads from the two parts `cti`
/// and `ctd`.
pub open spec fn decrypted(sk: Seq<u8>, cti: Seq<u8>, ctd: Seq<u8>) -> Seq<u8> {
    let w = poly_sub(
        marks_at(ctd, 0, 48, 3, V_LEVELS as int),
        decryption_mask(sk, cti).take(MSG_BITS as int),
    );
    pack(compress_each(w, MSG_LEVELS as int), 1)
}

/// Expands `seed` into the entry of the public matrix at `row` and `col`.
pub fn expand_matrix_entry(seed: &Seed, row: u8, col: u8) -> (out: Vec<u16>)
    ensures
        out@ == matrix_entry(seed@, row, col),
        is_poly(out@),
{
    let place: [u8; 2] = [row, col];
    assert(place@ =~= seq![row, col]);
    let input: Vec<u8> = join(place.as_slice(), seed.as_slice());
    let stream: [u8; UNIFORM_BYTES] = hash_tagged(TAG_MATRIX, input.as_slice());
    sample_uniform(stream.as_slice())
}

/// Expands `coins` into the noise element number `nonce`.
pub fn expand_noise(coins: &Coins, nonce: u8) -> (out: Vec<u16>)
    ensures
        out@ == noise(coins@, nonce),
        is_poly(out@),
{
    let place: [u8; 1] = [nonce];
    assert(place@ =~= seq![nonce]);
    let input: Vec<u8> = join(place.as_slice(), coins.as_slice());
    let stream: [u8; NOISE_BYTES] = hash_tagged(TAG_NOISE, input.as_slice());
    sample_noise(&stream)
}

/// Reads the ring element held in twelve-bit numbers at bytes `start` to
/// `start + 384`.
fn read_element(bytes: &[u8], start: usize) -> (out: Vec<u16>)
    requires
        start + 384 <= bytes.len(),
    ensures
        out@ == element_at(bytes@, start as int, start + 384),
        is_poly(out@),
{
    let raw: Vec<u16> = unpack_bits(slice_subrange(bytes, start, start + 384), 12);
    reduce_all(raw.as_slice())
}

/// Reads the ring element held in marks of eleven digits at bytes `start`
/// to `start + 352`.
fn read_marks(bytes: &[u8], start: usize) -> (out: Vec<u16>)
    requires
        start + 352 <= bytes.len(),
    ensures
        out@ == marks_at(bytes@, start as int, start + 352, 11, U_LEVELS as int),
        is_poly(out@),
{
    let raw: Vec<u16> = unpack_bits(slice_subrange(bytes, start, start + 352), 11);
    proof {
        lemma2_to64();
    }
    decompress_all(raw.as_slice(), U_LEVELS)
}

/// Generates the key pair that `coins` give under the group `seed`: the
/// public key first, the decryption key second.
pub fn keygen(seed: &Seed, coins: &Coins) -> (keys: (PublicKey, DecryptionKey))
    ensures
        keys.0@ == public_key_of(seed@, coins@),
        keys.1@ == decryption_key_of(coins@),
{
    let s0: Vec<u16> = expand_noise(coins, 0);
    let s1: Vec<u16> = expand_noise(coins, 1);
    let e0: Vec<u16> = expand_noise(coins, 2);
    let e1: Vec<u16> = expand_noise(coins, 3);
    let a00: Vec<u16> = expand_matrix_entry(seed, 0, 0);
    let a01: Vec<u16> = expand_matrix_entry(seed, 0, 1);
    let a10: Vec<u16> = expand_matrix_entry(seed, 1, 0);
    let a11: Vec<u16> = expand_matrix_entry(seed, 1, 1);
    let first: Vec<u16> = mul_pair(a00.as_slice(), s0.as_slice(), a01.as_slice(), s1.as_slice());
    let second: Vec<u16> = mul_pair(a10.as_slice(), s0.as_slice(), a11.as_slice(), s1.as_slice());
    let t0: Vec<u16> = add_mod(first.as_slice(), e0.as_slice());
    let t1: Vec<u16> = add_mod(second.as_slice(), e1.as_slice());
    let pk: Vec<u8> = join(
        pack_bits(t0.as_slice(), 12).as_slice(),
        pack_bits(t1.as_slice(), 12).as_slice(),
    );
    let sk: Vec<u8> = join(
        pack_bits(s0.as_slice(), 12).as_slice(),
        pack_bits(s1.as_slice(), 12).as_slice(),
    );
    (to_array(pk.as_slice()), to_array(sk.as_slice()))
}

/// The two elements of the vector that every recipient shares, before
/// rounding.
pub fn shared_elements(seed: &Seed, coins: &Coins) -> (u: (Vec<u16>, Vec<u16>))
    ensures
        u.0@ == shared_element(seed@, coins@, 0),
        u.1@ == shared_element(seed@, coins@, 1),
        is_poly(u.0@),
        is_poly(u.1@),
{
    let r0: Vec<u16> = expand_noise(coins, 0);
    let r1: Vec<u16> = expand_noise(coins, 1);
    let e0: Vec<u16> = expand_noise(coins, 2);
    let e1: Vec<u16> = expand_noise(coins, 3);
    let a00: Vec<u16> = expand_matrix_entry(seed, 0, 0);
    let a01: Vec<u16> = expand_matrix_entry(seed, 0, 1);
    let a10: Vec<u16> = expand_matrix_entry(seed, 1, 0);
    let a11: Vec<u16> = expand_matrix_entry(seed, 1, 1);
    let first: Vec<u16> = mul_pair(a00.as_slice(), r0.as_slice(), a10.as_slice(), r1.as_slice());
    let second: Vec<u16> = mul_pair(a01.as_slice(), r0.as_slice(), a11.as_slice(), r1.as_slice());
    let u0: Vec<u16> = add_mod(first.as_slice(), e0.as_slice());
    let u1: Vec<u16> = add_mod(second.as_slice(), e1.as_slice());
    (u0, u1)
}

/// Encrypts towards the whole group of `seed`: the part of a ciphertext that
/// does not depend on a recipient.
pub fn encrypt_shared(seed: &Seed, coins: &Coins) -> (cti: Cti)
    ensures
        cti@ == shared_part(seed@, coins@),
{
    let u: (Vec<u16>, Vec<u16>) = shared_elements(seed, coins);
    let c0: Vec<u16> = compress_all(u.0.as_slice(), U_LEVELS);
    let c1: Vec<u16> = compress_all(u.1.as_slice(), U_LEVELS);
    let cti: Vec<u8> = join(
        pack_bits(c0.as_slice(), 11).as_slice(),
        pack_bits(c1.as_slice(), 11).as_slice(),
    );
    to_array(cti.as_slice())
}

/// The element for the holder of `pk`, before rounding: the message under
/// its mask.
pub fn recipient_element_of(
    pk: &PublicKey,
    msg: &Message,
    coins: &Coins,
    own_coins: &Coins,
) -> (v: Vec<u16>)
    ensures
        v@ == recipient_element(pk@, msg@, coins@, own_coins@),
        v@.len() == MSG_BITS,
        is_reduced(v@),
{
    let t0: Vec<u16> = read_element(pk.as_slice(), 0);
    let t1: Vec<u16> = read_element(pk.as_slice(), 384);
    let r0: Vec<u16> = expand_noise(coins, 0);
    let r1: Vec<u16> = expand_noise(coins, 1);
    let e: Vec<u16> = expand_noise(own_coins, 0);
    let p: Vec<u16> = mul_pair(t0.as_slice(), r0.as_slice(), t1.as_slice(), r1.as_slice());
    let mask: Vec<u16> = add_mod(p.as_slice(), e.as_slice());
    let bits: Vec<u16> = unpack_bits(msg.as_slice(), 1);
    proof {
        lemma2_to64();
    }
    let carried: Vec<u16> = decompress_all(bits.as_slice(), MSG_LEVELS);
    assert(mask@.subrange(0, MSG_BITS as int) =~= mask@.take(MSG_BITS as int));
    add_mod(slice_subrange(mask.as_slice(), 0, MSG_BITS), carried.as_slice())
}

/// Encrypts `msg` towards the holder of `pk`: the part of a ciphertext that
/// goes with the shared part made from the same `coins`.
pub fn encrypt_recipient(
    pk: &PublicKey,
    msg: &Message,
    coins: &Coins,
    own_coins: &Coins,
) -> (ctd: Ctd)
    ensures
        ctd@ == recipient_part(pk@, msg@, coins@, own_coins@),
{
    let v: Vec<u16> = recipient_element_of(pk, msg, coins, own_coins);
    let c: Vec<u16> = compress_all(v.as_slice(), V_LEVELS);
    to_array(pack_bits(c.as_slice(), 3).as_slice())
}

/// Decrypts the two parts `cti` and `ctd` with the decryption key `sk`.
pub fn decrypt(sk: &DecryptionKey, cti: &Cti, ctd: &Ctd) -> (msg: Message)
    ensures
        msg@ == decrypted(sk@, cti@, ctd@),
{
    let s0: Vec<u16> = read_element(sk.as_slice(), 0);
    let s1: Vec<u16> = read_element(sk.as_slice(), 384);
    let u0: Vec<u16> = read_marks(cti.as_slice(), 0);
    let u1: Vec<u16> = read_marks(cti.as_slice(), 352);
    let raw: Vec<u16> = unpack_bits(ctd.as_slice(), 3);
    proof {
        lemma2_to64();
        assert(ctd@.subrange(0, 48) =~= ctd@);
    }
    let v: Vec<u16> = decompress_all(raw.as_slice(), V_LEVELS);
    let mask: Vec<u16> = mul_pair(s0.as_slice(), u0.as_slice(), s1.as_slice(), u1.as_slice());
    let w: Vec<u16> = sub_mod(v.as_slice(), slice_subrange(mask.as_slice(), 0, MSG_BITS));
    assert(mask@.subrange(0, MSG_BITS as int) =~= mask@.take(MSG_BITS as int));
    let bits: Vec<u16> = compress_all(w.as_slice(), MSG_LEVELS);
    to_array(pack_bits(bits.as_slice(), 1).as_slice())
}

} // verus!
