//! Macaroons: bearer credentials whose holders can attenuate them with
//! caveats, built on a chain of HMAC-SHA256 signatures.
use vstd::prelude::*;

pub mod caveat;
pub mod crypto;
pub mod laws;
pub mod macaroon;

pub use caveat::Caveat;
pub use macaroon::Macaroon;

verus! {

/// A fresh random root key of 32 bytes.
pub fn macaroon_key() -> (r: Vec<u8>)
    ensures
        r@.len() == crypto::SIG_LEN,
{
    crypto::random_bytes(crypto::SIG_LEN)
}

} // verus!
