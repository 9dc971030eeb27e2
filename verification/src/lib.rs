//! A multi-recipient key-encapsulation mechanism over a module-lattice
//! public-key encryption scheme.
//!
//! One encapsulation yields a ciphertext part shared by every recipient, one
//! short part per recipient, and a secret common to all of them. Keys are
//! bound to a group seed: a recipient whose secret key carries another seed
//! is turned away.
//!
//! The mechanism is in [`kem`], the encryption scheme under it in [`pke`],
//! and what is proved of the two together in [`theorems`] and
//! [`decryption`]. The contracts say what every function returns. They say
//! nothing of running time, and nothing of how likely a random value is.

pub mod bits;
pub mod bytes;
pub mod convolution;
pub mod ct;
pub mod decryption;
pub mod entropy;
pub mod kem;
pub mod params;
pub mod pke;
pub mod ring;
pub mod sampling;
pub mod theorems;
pub mod xof;

pub use crate::kem::{
    dec, decapsulate, enc, encapsulate_message, gen_keypair, gen_seed, keypair_from_coins,
    Encapsulation, KeyPair,
};
pub use crate::params::{Ctd, Cti, PublicKey, SecretKey, Seed, SharedSecret};
