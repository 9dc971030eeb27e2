//! Sizes and moduli of the parameter set.

use vstd::prelude::*;

verus! {

/// Number of coefficients of a ring element.
pub const N: usize = 256;

/// The prime modulus of the coefficients.
pub const Q: u16 = 3329;

/// Bits of an encapsulated message, and coefficients that carry them.
pub const MSG_BITS: usize = 128;

/// Bytes of a group seed.
pub const SEED_BYTES: usize = 16;

/// Bytes of a public key: two ring elements at twelve bits a coefficient.
pub const PUBLIC_KEY_BYTES: usize = 768;

/// Bytes of the decryption key inside a secret key.
pub const PKE_SECRET_BYTES: usize = 768;

/// Bytes of a secret key: the decryption key, the group seed and the
/// rejection value.
pub const SECRET_KEY_BYTES: usize = 800;

/// Bytes of a shared secret, of a message and of a rejection value.
pub const SHARED_SECRET_BYTES: usize = 16;

/// Bytes of the shared ciphertext part.
pub const CTI_BYTES: usize = 704;

/// Bytes of a per-recipient ciphertext part.
pub const CTD_BYTES: usize = 48;

/// Bytes of the coins that drive one run of noise sampling.
pub const COIN_BYTES: usize = 32;

/// The value that binds keys and ciphertexts to one group.
pub type Seed = [u8; SEED_BYTES];

/// A recipient's public key.
pub type PublicKey = [u8; PUBLIC_KEY_BYTES];

/// A recipient's secret key: the decryption key, then the group seed, then
/// the value that secrets of rejected ciphertexts are derived from.
pub type SecretKey = [u8; SECRET_KEY_BYTES];

/// The ciphertext part that all recipients of one encapsulation share.
pub type Cti = [u8; CTI_BYTES];

/// The ciphertext part of one recipient.
pub type Ctd = [u8; CTD_BYTES];

/// The secret that an encapsulation shares out.
pub type SharedSecret = [u8; SHARED_SECRET_BYTES];

/// The decryption key inside a secret key.
pub type DecryptionKey = [u8; PKE_SECRET_BYTES];

/// The message that an encapsulation encrypts, and a rejection value.
pub type Message = [u8; SHARED_SECRET_BYTES];

/// The coins that drive one run of noise sampling.
pub type Coins = [u8; COIN_BYTES];

/// Marks of a coefficient of the shared ciphertext part, eleven bits each.
pub const U_LEVELS: u32 = 2048;

/// Marks of a coefficient of a per-recipient part, three bits each.
pub const V_LEVELS: u32 = 8;

/// Marks of a message coefficient: one for each value of a bit.
pub const MSG_LEVELS: u32 = 2;

/// Bytes of hash output that one matrix entry is sampled from.
pub const UNIFORM_BYTES: usize = 768;

/// Bytes of hash output that one noise element is sampled from.
pub const NOISE_BYTES: usize = 128;

/// Domain of the hash that expands a group seed into the public matrix.
pub const TAG_MATRIX: u8 = 0;

/// Domain of the hash that expands coins into noise.
pub const TAG_NOISE: u8 = 1;

/// Domain of the hash that derives the coins of the shared part.
pub const TAG_SHARED_COINS: u8 = 2;

/// Domain of the hash that derives the coins of one recipient's part.
pub const TAG_RECIPIENT_COINS: u8 = 3;

/// Domain of the hash that derives the shared secret.
pub const TAG_SECRET: u8 = 4;

/// Domain of the hash that derives the secret of a rejected ciphertext.
pub const TAG_REJECTION: u8 = 5;

} // verus!
