//! The mechanism itself: group seeds, key pairs bound to a seed,
//! encapsulation towards many recipients, and decapsulation.
//!
//! Encapsulation draws one message and derives everything else from it, so a
//! recipient who recovers the message can rebuild both parts of the
//! ciphertext and compare. A recipient turns a ciphertext away when the parts
//! it rebuilds differ from the parts it was given, or when the seed in its
//! secret key is not the seed it was told. A ciphertext turned away still
//! yields a secret, derived from a value that only the secret key holds.

use crate::bytes::{array_from, join};
use crate::ct::{eq_mask, mask_of, select};
use crate::entropy::random_bytes;
use crate::params::{
    Coins, Ctd, Cti, DecryptionKey, Message, PublicKey, SecretKey, Seed, SharedSecret,
    COIN_BYTES, PKE_SECRET_BYTES, SECRET_KEY_BYTES, SEED_BYTES, SHARED_SECRET_BYTES,
    TAG_RECIPIENT_COINS, TAG_REJECTION, TAG_SECRET, TAG_SHARED_COINS,
};
use crate::pke::{
    decrypt, decrypted, decryption_key_of, encrypt_recipient, encrypt_shared, keygen,
    public_key_of, recipient_part, shared_part,
};
use crate::xof::{hash_tagged, tagged_hash};
use vstd::prelude::*;
use vstd::slice::slice_subrange;

verus! {

/// The two keys of one recipient.
pub struct KeyPair {
    pub pk: PublicKey,
    pub sk: SecretKey,
}

/// What one encapsulation yields.
pub struct Encapsulation {
    /// The part of the ciphertext that every recipient gets.
    pub cti: Cti,
    /// The parts for the single recipients, in the order of their keys.
    pub ctds: Vec<Ctd>,
    /// The secret shared with all of them.
    pub ss: SharedSecret,
}

/// The coins of the shared part, derived from the message.
pub open spec fn shared_coins(msg: Seq<u8>) -> Seq<u8> {
    tagged_hash(TAG_SHARED_COINS, msg, COIN_BYTES as nat)
}

/// The coins of the part for the holder of `pk`, derived from the message.
pub open spec fn recipient_coins(msg: Seq<u8>, pk: Seq<u8>) -> Seq<u8> {
    tagged_hash(TAG_RECIPIENT_COINS, msg + pk, COIN_BYTES as nat)
}

/// The secret that goes with the message `msg` and the shared part `cti`.
pub open spec fn shared_secret_of(msg: Seq<u8>, cti: Seq<u8>) -> Seq<u8> {
    tagged_hash(TAG_SECRET, msg + cti, SHARED_SECRET_BYTES as nat)
}

/// The secret that a ciphertext turned away yields under the rejection
/// value `z`.
pub open spec fn rejection_secret_of(z: Seq<u8>, cti: Seq<u8>, ctd: Seq<u8>) -> Seq<u8> {
    tagged_hash(TAG_REJECTION, z + cti + ctd, SHARED_SECRET_BYTES as nat)
}

/// The secret key made of the decryption key that `coins` give, the group
/// `seed` and the rejection value `z`.
pub open spec fn secret_key_of(seed: Seq<u8>, coins: Seq<u8>, z: Seq<u8>) -> Seq<u8> {
    decryption_key_of(coins) + seed + z
}

/// The decryption key inside the secret key `sk`.
pub open spec fn decryption_key(sk: Seq<u8>) -> Seq<u8> {
    sk.subrange(0, PKE_SECRET_BYTES as int)
}

/// The group seed inside the secret key `sk`.
pub open spec fn embedded_seed(sk: Seq<u8>) -> Seq<u8> {
    sk.subrange(PKE_SECRET_BYTES as int, PKE_SECRET_BYTES + SEED_BYTES)
}

/// The rejection value inside the secret key `sk`.
pub open spec fn rejection_value(sk: Seq<u8>) -> Seq<u8> {
    sk.subrange(PKE_SECRET_BYTES + SEED_BYTES, SECRET_KEY_BYTES as int)
}

/// `pk` and `sk` are a key pair of the group `seed`, for some coins and some
/// rejection value.
pub open spec fn is_keypair_of(seed: Seq<u8>, pk: Seq<u8>, sk: Seq<u8>) -> bool {
    exists|coins: Seq<u8>, z: Seq<u8>|
        #![trigger public_key_of(seed, coins), secret_key_of(seed, coins, z)]
        coins.len() == COIN_BYTES && z.len() == SHARED_SECRET_BYTES && pk == public_key_of(
            seed,
            coins,
        ) && sk == secret_key_of(seed, coins, z)
}

/// `e` is the encapsulation of the message `msg` under `seed` towards
/// `keys`: the shared part, one part for each key in order, and the secret.
pub open spec fn encapsulates(
    e: Encapsulation,
    seed: Seq<u8>,
    keys: Seq<PublicKey>,
    msg: Seq<u8>,
) -> bool {
    &&& e.cti@ == shared_part(seed, shared_coins(msg))
    &&& e.ctds@.len() == keys.len()
    &&& forall|i: int|
        0 <= i < keys.len() ==> (#[trigger] e.ctds@[i])@ == recipient_part(
            keys[i]@,
            msg,
            shared_coins(msg),
            recipient_coins(msg, keys[i]@),
        )
    &&& e.ss@ == shared_secret_of(msg, e.cti@)
}

/// The message that the holder of `sk` reads from the ciphertext.
pub open spec fn recovered_message(cti: Seq<u8>, ctd: Seq<u8>, sk: Seq<u8>) -> Seq<u8> {
    decrypted(decryption_key(sk), cti, ctd)
}

/// The holder of `pk` and `sk` accepts the ciphertext under `seed`: both
/// parts are what encapsulating the recovered message under `seed` towards
/// `pk` gives, and `sk` carries `seed`.
pub open spec fn accepts(
    cti: Seq<u8>,
    ctd: Seq<u8>,
    seed: Seq<u8>,
    pk: Seq<u8>,
    sk: Seq<u8>,
) -> bool {
    let msg = recovered_message(cti, ctd, sk);
    &&& cti == shared_part(seed, shared_coins(msg))
    &&& ctd == recipient_part(pk, msg, shared_coins(msg), recipient_coins(msg, pk))
    &&& embedded_seed(sk) == seed
}

/// The secret that decapsulation yields: the shared secret of the recovered
/// message where the ciphertext is accepted, the rejection secret where not.
pub open spec fn decapsulated(
    cti: Seq<u8>,
    ctd: Seq<u8>,
    seed: Seq<u8>,
    pk: Seq<u8>,
    sk: Seq<u8>,
) -> Seq<u8> {
    if accepts(cti, ctd, seed, pk, sk) {
        shared_secret_of(recovered_message(cti, ctd, sk), cti)
    } else {
        rejection_secret_of(rejection_value(sk), cti, ctd)
    }
}

/// Draws a fresh group seed from the system's random number generator.
///
/// Every value of sixteen bytes can be drawn, so the length is all that
/// holds of each seed.
pub fn gen_seed() -> (seed: Seed)
    ensures
        seed@.len() == SEED_BYTES,
{
    random_bytes()
}

/// The key pair of the group `seed` that `coins` and the rejection value `z`
/// give.
pub fn keypair_from_coins(seed: &Seed, coins: &Coins, z: &Message) -> (kp: KeyPair)
    ensures
        kp.pk@ == public_key_of(seed@, coins@),
        kp.sk@ == secret_key_of(seed@, coins@, z@),
        embedded_seed(kp.sk@) == seed@,
{
    let keys: (PublicKey, DecryptionKey) = keygen(seed, coins);
    let tail: Vec<u8> = join(seed.as_slice(), z.as_slice());
    let sk: Vec<u8> = join(keys.1.as_slice(), tail.as_slice());
    assert(sk@ =~= secret_key_of(seed@, coins@, z@));
    assert(embedded_seed(sk@) =~= seed@);
    KeyPair { pk: keys.0, sk: array_from(sk.as_slice(), 0, SECRET_KEY_BYTES) }
}

/// Generates a key pair of the group `seed` from fresh randomness.
pub fn gen_keypair(seed: &Seed) -> (kp: KeyPair)
    ensures
        is_keypair_of(seed@, kp.pk@, kp.sk@),
        embedded_seed(kp.sk@) == seed@,
{
    let coins: Coins = random_bytes();
    let z: Message = random_bytes();
    keypair_from_coins(seed, &coins, &z)
}

/// Encapsulates the message `msg` under `seed` towards `keys`.
///
/// Whether the keys belong to the group of `seed` is not looked at: a
/// recipient whose key does not will turn the ciphertext away.
pub fn encapsulate_message(seed: &Seed, keys: &[PublicKey], msg: &Message) -> (e: Encapsulation)
    ensures
        encapsulates(e, seed@, keys@, msg@),
{
    let coins: Coins = hash_tagged(TAG_SHARED_COINS, msg.as_slice());
    let cti: Cti = encrypt_shared(seed, &coins);
    let mut ctds: Vec<Ctd> = Vec::with_capacity(keys.len());
    let mut i: usize = 0;
    while i < keys.len()
        invariant
            i <= keys.len(),
            coins@ == shared_coins(msg@),
            ctds@.len() == i,
            forall|j: int|
                0 <= j < i ==> (#[trigger] ctds@[j])@ == recipient_part(
                    keys@[j]@,
                    msg@,
                    shared_coins(msg@),
                    recipient_coins(msg@, keys@[j]@),
                ),
        decreases keys.len() - i,
    {
        let pk: &PublicKey = &keys[i];
        let bound: Vec<u8> = join(msg.as_slice(), pk.as_slice());
        let own_coins: Coins = hash_tagged(TAG_RECIPIENT_COINS, bound.as_slice());
        let ctd: Ctd = encrypt_recipient(pk, msg, &coins, &own_coins);
        ctds.push(ctd);
        i = i + 1;
    }
    let bound: Vec<u8> = join(msg.as_slice(), cti.as_slice());
    let ss: SharedSecret = hash_tagged(TAG_SECRET, bound.as_slice());
    Encapsulation { cti, ctds, ss }
}

/// Encapsulates a fresh secret under `seed` towards `keys`.
///
/// Whether the keys belong to the group of `seed` is not looked at: a
/// recipient whose key does not will turn the ciphertext away.
pub fn enc(seed: &Seed, keys: &[PublicKey]) -> (e: Encapsulation)
    ensures
        exists|msg: Seq<u8>|
            msg.len() == SHARED_SECRET_BYTES && #[trigger] encapsulates(e, seed@, keys@, msg),
{
    let msg: Message = random_bytes();
    encapsulate_message(seed, keys, &msg)
}

/// The digit-wise "and" of three masks is the mask of all three conditions.
proof fn lemma_all_of(a: u8, b: u8, c: u8)
    requires
        a == 0 || a == 0xff,
        b == 0 || b == 0xff,
        c == 0 || c == 0xff,
    ensures
        a & b & c == mask_of(a == 0xff && b == 0xff && c == 0xff),
{
    assert((a == 0 || a == 0xff) && (b == 0 || b == 0xff) && (c == 0 || c == 0xff) ==> (a & b & c
        == 0xff <==> a == 0xff && b == 0xff && c == 0xff) && (a & b & c == 0xff || a & b & c == 0))
        by (bit_vector);
}

/// Recovers the message and checks the ciphertext against it: the mask of
/// the acceptance, and the message.
fn open_ciphertext(
    cti: &Cti,
    ctd: &Ctd,
    seed: &Seed,
    pk: &PublicKey,
    sk: &SecretKey,
) -> (r: (u8, Message))
    ensures
        r.0 == mask_of(accepts(cti@, ctd@, seed@, pk@, sk@)),
        r.1@ == recovered_message(cti@, ctd@, sk@),
{
    let key: DecryptionKey = array_from(sk.as_slice(), 0, PKE_SECRET_BYTES);
    let msg: Message = decrypt(&key, cti, ctd);
    let coins: Coins = hash_tagged(TAG_SHARED_COINS, msg.as_slice());
    let bound: Vec<u8> = join(msg.as_slice(), pk.as_slice());
    let own_coins: Coins = hash_tagged(TAG_RECIPIENT_COINS, bound.as_slice());
    let cti_again: Cti = encrypt_shared(seed, &coins);
    let ctd_again: Ctd = encrypt_recipient(pk, &msg, &coins, &own_coins);
    let same_cti: u8 = eq_mask(cti.as_slice(), cti_again.as_slice());
    let same_ctd: u8 = eq_mask(ctd.as_slice(), ctd_again.as_slice());
    let same_seed: u8 = eq_mask(
        slice_subrange(sk.as_slice(), PKE_SECRET_BYTES, PKE_SECRET_BYTES + SEED_BYTES),
        seed.as_slice(),
    );
    proof {
        lemma_all_of(same_cti, same_ctd, same_seed);
    }
    (same_cti & same_ctd & same_seed, msg)
}

/// Decapsulates with implicit rejection: the shared secret where the
/// ciphertext is accepted, and where it is not, a secret that only the
/// holder of `sk` can derive.
pub fn decapsulate(
    cti: &Cti,
    ctd: &Ctd,
    seed: &Seed,
    pk: &PublicKey,
    sk: &SecretKey,
) -> (ss: SharedSecret)
    ensures
        ss@ == decapsulated(cti@, ctd@, seed@, pk@, sk@),
{
    let opened: (u8, Message) = open_ciphertext(cti, ctd, seed, pk, sk);
    let bound: Vec<u8> = join(opened.1.as_slice(), cti.as_slice());
    let good: SharedSecret = hash_tagged(TAG_SECRET, bound.as_slice());
    let head: Vec<u8> = join(
        slice_subrange(sk.as_slice(), PKE_SECRET_BYTES + SEED_BYTES, SECRET_KEY_BYTES),
        cti.as_slice(),
    );
    let whole: Vec<u8> = join(head.as_slice(), ctd.as_slice());
    let bad: SharedSecret = hash_tagged(TAG_REJECTION, whole.as_slice());
    select(opened.0, &good, &bad)
}

/// Decapsulates with an open answer: the shared secret where the ciphertext
/// is accepted, nothing where it is not.
pub fn dec(
    cti: &Cti,
    ctd: &Ctd,
    seed: &Seed,
    pk: &PublicKey,
    sk: &SecretKey,
) -> (r: Option<SharedSecret>)
    ensures
        r is Some <==> accepts(cti@, ctd@, seed@, pk@, sk@),
        r is Some ==> r->0@ == shared_secret_of(recovered_message(cti@, ctd@, sk@), cti@),
{
    let opened: (u8, Message) = open_ciphertext(cti, ctd, seed, pk, sk);
    if opened.0 == 0xff {
        let bound: Vec<u8> = join(opened.1.as_slice(), cti.as_slice());
        Some(hash_tagged(TAG_SECRET, bound.as_slice()))
    } else {
        None
    }
}

} // verus!
