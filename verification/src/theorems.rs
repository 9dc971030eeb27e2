//! What holds of the mechanism as a whole.

use crate::bytes::join;
use crate::decryption::{all_small, lemma_decrypt_encrypt, measure_noise, noise_is_small};
use crate::kem::{
    accepts, decapsulated, decryption_key, embedded_seed, encapsulates, keypair_from_coins,
    recipient_coins, rejection_secret_of, rejection_value, secret_key_of, shared_coins,
    shared_secret_of, Encapsulation, KeyPair,
};
use crate::params::{
    Coins, Message, PublicKey, Seed, SEED_BYTES, SHARED_SECRET_BYTES, TAG_RECIPIENT_COINS,
    TAG_SHARED_COINS,
};
use crate::pke::{decrypted, decryption_key_of, public_key_of, recipient_part, shared_part};
use crate::xof::hash_tagged;
use vstd::prelude::*;

verus! {

/// A secret key is laid out as its three parts: the decryption key, the
/// group seed and the rejection value can each be read back from it.
pub proof fn lemma_secret_key_layout(seed: Seq<u8>, coins: Seq<u8>, z: Seq<u8>)
    requires
        seed.len() == SEED_BYTES,
        z.len() == SHARED_SECRET_BYTES,
    ensures
        decryption_key(secret_key_of(seed, coins, z)) == decryption_key_of(coins),
        embedded_seed(secret_key_of(seed, coins, z)) == seed,
        rejection_value(secret_key_of(seed, coins, z)) == z,
{
    let sk = secret_key_of(seed, coins, z);
    assert(decryption_key(sk) =~= decryption_key_of(coins));
    assert(embedded_seed(sk) =~= seed);
    assert(rejection_value(sk) =~= z);
}

/// A recipient who reads the message recovers the secret.
///
/// Let `e` encapsulate the message `msg` under `seed` towards `keys`, and
/// let the key at place `i` be the public key that `coins` give under
/// `seed`. If the decryption key that `coins` give reads `msg` from the
/// shared part and the part at place `i`, then the holder of the secret key
/// made of that decryption key, `seed` and any rejection value `z` accepts
/// these two parts under `seed` and decapsulates the secret of `e`.
pub proof fn lemma_round_trip_where_decrypted(
    e: Encapsulation,
    seed: Seq<u8>,
    keys: Seq<PublicKey>,
    msg: Seq<u8>,
    i: int,
    coins: Seq<u8>,
    z: Seq<u8>,
)
    requires
        seed.len() == SEED_BYTES,
        z.len() == SHARED_SECRET_BYTES,
        encapsulates(e, seed, keys, msg),
        0 <= i < keys.len(),
        keys[i]@ == public_key_of(seed, coins),
        decrypted(decryption_key_of(coins), e.cti@, e.ctds@[i]@) == msg,
    ensures
        accepts(e.cti@, e.ctds@[i]@, seed, keys[i]@, secret_key_of(seed, coins, z)),
        decapsulated(e.cti@, e.ctds@[i]@, seed, keys[i]@, secret_key_of(seed, coins, z)) == e.ss@,
{
    lemma_secret_key_layout(seed, coins, z);
}

/// Every recipient of an encapsulation recovers its secret, where the noise
/// is small.
///
/// Let `e` encapsulate the message `msg` of sixteen bytes under `seed`
/// towards `keys`, and let the key at place `i` be the public key that
/// `coins` give under `seed`. If every coefficient of the decryption noise
/// between that key and this encapsulation is small, the holder of the
/// secret key made of the decryption key of `coins`, `seed` and any
/// rejection value `z` accepts the shared part and the part at place `i`
/// under `seed`, and decapsulates the secret of `e`.
///
/// The condition is that of the encryption scheme: noise that adds up to a
/// quarter of the modulus or more can flip a message bit.
pub proof fn lemma_round_trip(
    e: Encapsulation,
    seed: Seq<u8>,
    keys: Seq<PublicKey>,
    msg: Seq<u8>,
    i: int,
    coins: Seq<u8>,
    z: Seq<u8>,
)
    requires
        seed.len() == SEED_BYTES,
        z.len() == SHARED_SECRET_BYTES,
        msg.len() == SHARED_SECRET_BYTES,
        encapsulates(e, seed, keys, msg),
        0 <= i < keys.len(),
        keys[i]@ == public_key_of(seed, coins),
        noise_is_small(seed, coins, shared_coins(msg), recipient_coins(msg, keys[i]@), msg),
    ensures
        accepts(e.cti@, e.ctds@[i]@, seed, keys[i]@, secret_key_of(seed, coins, z)),
        decapsulated(e.cti@, e.ctds@[i]@, seed, keys[i]@, secret_key_of(seed, coins, z)) == e.ss@,
{
    lemma_decrypt_encrypt(seed, coins, shared_coins(msg), recipient_coins(msg, keys[i]@), msg);
    lemma_round_trip_where_decrypted(e, seed, keys, msg, i, coins, z);
}

/// Measures whether the holder of the key pair of `key_coins` under `seed`
/// is sure to recover the secret of the message `msg` encapsulated towards
/// it under `seed`: whether the decryption noise between the two is small.
/// Where it is, decapsulating the two parts of that encapsulation with the
/// secret key of `key_coins`, `seed` and `z` gives its secret.
///
/// This takes the coins of the key and the message of the encapsulation,
/// which no one party holds: it serves to measure the mechanism.
pub fn round_trip_is_sure(
    seed: &Seed,
    key_coins: &Coins,
    z: &Message,
    msg: &Message,
) -> (sure: bool)
    ensures
        sure == noise_is_small(
            seed@,
            key_coins@,
            shared_coins(msg@),
            recipient_coins(msg@, public_key_of(seed@, key_coins@)),
            msg@,
        ),
        sure ==> decapsulated(
            shared_part(seed@, shared_coins(msg@)),
            recipient_part(
                public_key_of(seed@, key_coins@),
                msg@,
                shared_coins(msg@),
                recipient_coins(msg@, public_key_of(seed@, key_coins@)),
            ),
            seed@,
            public_key_of(seed@, key_coins@),
            secret_key_of(seed@, key_coins@, z@),
        ) == shared_secret_of(msg@, shared_part(seed@, shared_coins(msg@))),
{
    let kp: KeyPair = keypair_from_coins(seed, key_coins, z);
    let coins: Coins = hash_tagged(TAG_SHARED_COINS, msg.as_slice());
    let bound: Vec<u8> = join(msg.as_slice(), kp.pk.as_slice());
    let own_coins: Coins = hash_tagged(TAG_RECIPIENT_COINS, bound.as_slice());
    let noise: Vec<u16> = measure_noise(seed, key_coins, &coins, &own_coins, msg);
    let sure: bool = all_small(noise.as_slice());
    proof {
        if sure {
            lemma_decrypt_encrypt(seed@, key_coins@, coins@, own_coins@, msg@);
            lemma_secret_key_layout(seed@, key_coins@, z@);
        }
    }
    sure
}

/// Secret keys made with two rejection values differ, whatever the seeds and
/// the coins: two key pairs of one seed have two secret keys wherever the
/// rejection values drawn for them differ.
pub proof fn lemma_rejection_values_part_secret_keys(
    seed: Seq<u8>,
    coins: Seq<u8>,
    z: Seq<u8>,
    seed2: Seq<u8>,
    coins2: Seq<u8>,
    z2: Seq<u8>,
)
    requires
        seed.len() == SEED_BYTES,
        seed2.len() == SEED_BYTES,
        z.len() == SHARED_SECRET_BYTES,
        z2.len() == SHARED_SECRET_BYTES,
        z != z2,
    ensures
        secret_key_of(seed, coins, z) != secret_key_of(seed2, coins2, z2),
{
    lemma_secret_key_layout(seed, coins, z);
    lemma_secret_key_layout(seed2, coins2, z2);
}

/// Secret keys made under two seeds differ, whatever the coins.
pub proof fn lemma_seeds_part_secret_keys(
    seed: Seq<u8>,
    coins: Seq<u8>,
    z: Seq<u8>,
    seed2: Seq<u8>,
    coins2: Seq<u8>,
    z2: Seq<u8>,
)
    requires
        seed.len() == SEED_BYTES,
        seed2.len() == SEED_BYTES,
        z.len() == SHARED_SECRET_BYTES,
        z2.len() == SHARED_SECRET_BYTES,
        seed != seed2,
    ensures
        secret_key_of(seed, coins, z) != secret_key_of(seed2, coins2, z2),
{
    lemma_secret_key_layout(seed, coins, z);
    lemma_secret_key_layout(seed2, coins2, z2);
}

/// A ciphertext is turned away under any seed but the one in the secret key,
/// whatever else holds of it: the secret it yields is the rejection secret.
pub proof fn lemma_other_seed_rejected(
    cti: Seq<u8>,
    ctd: Seq<u8>,
    seed: Seq<u8>,
    pk: Seq<u8>,
    sk: Seq<u8>,
)
    requires
        embedded_seed(sk) != seed,
    ensures
        !accepts(cti, ctd, seed, pk, sk),
        decapsulated(cti, ctd, seed, pk, sk) == rejection_secret_of(rejection_value(sk), cti, ctd),
{
}

/// A key pair made under one seed turns away every ciphertext under another
/// seed, also under the seed that the ciphertext was made with.
pub proof fn lemma_foreign_key_rejected(
    cti: Seq<u8>,
    ctd: Seq<u8>,
    seed: Seq<u8>,
    key_seed: Seq<u8>,
    coins: Seq<u8>,
    z: Seq<u8>,
)
    requires
        key_seed.len() == SEED_BYTES,
        z.len() == SHARED_SECRET_BYTES,
        key_seed != seed,
    ensures
        !accepts(cti, ctd, seed, public_key_of(key_seed, coins), secret_key_of(key_seed, coins, z)),
        decapsulated(
            cti,
            ctd,
            seed,
            public_key_of(key_seed, coins),
            secret_key_of(key_seed, coins, z),
        ) == rejection_secret_of(z, cti, ctd),
{
    lemma_secret_key_layout(key_seed, coins, z);
}

/// The shared part and the secret of an encapsulation do not depend on the
/// recipients, and the part of one recipient does not depend on the others:
/// two encapsulations of one message under one seed agree on the shared part
/// and on the secret, and on the parts of every key that both were made for.
pub proof fn lemma_parts_depend_on_their_own_key(
    e: Encapsulation,
    e2: Encapsulation,
    seed: Seq<u8>,
    keys: Seq<PublicKey>,
    keys2: Seq<PublicKey>,
    msg: Seq<u8>,
)
    requires
        encapsulates(e, seed, keys, msg),
        encapsulates(e2, seed, keys2, msg),
    ensures
        e.cti@ == e2.cti@,
        e.ss@ == e2.ss@,
        forall|i: int, j: int|
            0 <= i < keys.len() && 0 <= j < keys2.len() && keys[i]@ == keys2[j]@ ==> (
            #[trigger] e.ctds@[i])@ == (#[trigger] e2.ctds@[j])@,
{
}

} // verus!
