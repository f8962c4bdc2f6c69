//! Message authentication with HMAC-SHA256.

use vstd::prelude::*;
use hmac::{Hmac, Mac};
use sha2::Sha256;

verus! {

/// The HMAC-SHA256 tag of `msg` under `key`, as the `hmac` and `sha2`
/// crates compute it.
pub uninterp spec fn hmac_sha256_of(key: Seq<u8>, msg: Seq<u8>) -> [u8; 32];

/// HMAC-SHA256 of `msg` under `key`.
///
/// Trusted: `Hmac::<Sha256>::new_from_slice` (which accepts keys of any
/// length, so never fails), `update` and `finalize().into_bytes()`. The
/// contract claims the 32-byte tag (SHA-256 output size) is a function of
/// the key and message bytes.
#[verifier::external_body]
pub(crate) fn hmac_sha256(key: &[u8], msg: &[u8]) -> (tag: [u8; 32])
    ensures
        tag == hmac_sha256_of(key@, msg@),
{
    let mut mac = <Hmac<Sha256> as Mac>::new_from_slice(key).expect("HMAC accepts a key of any length");
    mac.update(msg);
    mac.finalize().into_bytes().into()
}

} // verus!
