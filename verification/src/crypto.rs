//! The two cryptographic primitives that the ledger rests on.
//!
//! Neither is verified here. Each is a call into an outside crate whose
//! result is given a name, so that the contracts of the ledger can speak of
//! it; nothing more is claimed of either name than that the call returns it.

use fedimint_core::bitcoin::hashes::sha256;
use fedimint_core::BitcoinHash;
use fedimint_threshold_crypto::{PublicKey, Signature};
use vstd::prelude::*;

verus! {

/// The SHA-256 digest of `data`.
pub uninterp spec fn spec_sha256(data: Seq<u8>) -> Seq<u8>;

/// Whether `signature` is the threshold signature of `message` under the
/// federation's combined public key `public_key`, each in its compressed
/// form. It is `false` where either does not parse.
pub uninterp spec fn spec_signature_verifies(
    public_key: Seq<u8>,
    signature: Seq<u8>,
    message: Seq<u8>,
) -> bool;

/// Calls `sha256::Hash::hash` of `bitcoin_hashes`, as `fedimint_core`
/// hands it on, and returns the 32 bytes of the digest. The contract only
/// names the result: the digest of equal data is equal.
#[verifier::external_body]
pub(crate) fn sha256_of(data: &[u8]) -> (digest: [u8; 32])
    ensures
        digest@ == spec_sha256(data@),
{
    sha256::Hash::hash(data).to_byte_array()
}

/// Parses the key and the signature with `PublicKey::from_bytes` and
/// `Signature::from_bytes` of `fedimint_threshold_crypto` and calls
/// `PublicKey::verify` on the message. Returns `false` where one of them
/// does not parse. The contract only names the result: the pairing check is
/// a function of the three byte strings alone.
#[verifier::external_body]
pub(crate) fn signature_verifies(
    public_key: &[u8; 48],
    signature: &[u8; 96],
    message: &[u8; 32],
) -> (ok: bool)
    ensures
        ok == spec_signature_verifies(public_key@, signature@, message@),
{
    match (PublicKey::from_bytes(public_key), Signature::from_bytes(signature)) {
        (Ok(key), Ok(sig)) => key.verify(&sig, message),
        _ => false,
    }
}

} // verus!
