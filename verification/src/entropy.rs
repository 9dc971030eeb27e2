//! Fresh random bytes.

use rand_core::{OsRng, RngCore};
use vstd::prelude::*;

verus! {

/// `L` bytes from the operating system's random number generator.
///
/// Not proved: the body is `OsRng::fill_bytes` of `rand_core`, which fills the
/// whole buffer from the system's source and panics when that source cannot
/// be read. Nothing is claimed of the bytes: two calls may give any two
/// values.
#[verifier::external_body]
pub(crate) fn random_bytes<const L: usize>() -> (out: [u8; L]) {
    let mut out = [0u8; L];
    OsRng.fill_bytes(&mut out);
    out
}

} // verus!
