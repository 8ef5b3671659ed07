//! Access-proof wire format. The proof token is `base64(UTF-8 JSON)` where the JSON object is
//! `{ "address", "nonce", "signature", "consumeDigest"? }`. This module holds the signed
//! message, the decoded proof record and the byte stage of token decoding (trim, then
//! standard base64); turning the JSON bytes into an [`AccessProof`] is serde's work and lies
//! outside the library.
use crate::encoding::base64_decode_standard;
use crate::encoding::Base64Failure;
use crate::encoding::base64_standard_decoding;
use crate::encoding::trim;
use crate::encoding::trimmed;
use vstd::prelude::*;
use vstd::string::StringSliceAdditionalSpecFns;

verus! {

/// Decoded access proof submitted by the client.
#[derive(Clone, Debug)]
pub struct AccessProof {
    /// The Sui address (0x-prefixed hex) that signed the challenge.
    pub address: String,
    /// The nonce from the challenge.
    pub nonce: String,
    /// Base64 Sui personal-message signature (flag || sig || pubkey).
    pub signature: String,
    /// Digest of the on-chain single-use consume transaction, if given.
    pub consume_digest: Option<String>,
}

/// The text that precedes the nonce in the signed message.
pub const ACCESS_MESSAGE_PREFIX: &'static str = "nft-gate:access:";

/// The bytes a wallet signs for a nonce: the prefix's UTF-8 bytes, then the nonce's.
pub open spec fn personal_message(nonce: Seq<u8>) -> Seq<u8> {
    ACCESS_MESSAGE_PREFIX.spec_bytes() + nonce
}

/// Why a proof token could not be turned into JSON bytes.
#[derive(Clone, Copy, Debug, PartialEq, Eq)]
pub enum ProofTokenError {
    /// The trimmed token is not standard, canonically padded base64; the decoder's reason.
    NotBase64(Base64Failure),
}

/// The exact bytes the wallet signs for `nonce`: `nft-gate:access:<nonce>` in UTF-8.
pub fn personal_message_for_nonce(nonce: &str) -> (m: Vec<u8>)
    ensures
        m@ == personal_message(nonce.spec_bytes()),
{
    let prefix = ACCESS_MESSAGE_PREFIX.as_bytes();
    let tail = nonce.as_bytes();
    let mut out: Vec<u8> = Vec::new();
    let mut i: usize = 0;
    while i < prefix.len()
        invariant
            prefix@ == ACCESS_MESSAGE_PREFIX.spec_bytes(),
            i <= prefix@.len(),
            out@ == prefix@.subrange(0, i as int),
        decreases prefix@.len() - i,
    {
        out.push(prefix[i]);
        i = i + 1;
    }
    let mut j: usize = 0;
    while j < tail.len()
        invariant
            prefix@ == ACCESS_MESSAGE_PREFIX.spec_bytes(),
            tail@ == nonce.spec_bytes(),
            j <= tail@.len(),
            out@ == prefix@ + tail@.subrange(0, j as int),
        decreases tail@.len() - j,
    {
        out.push(tail[j]);
        j = j + 1;
    }
    assert(tail@.subrange(0, tail@.len() as int) =~= tail@);
    out
}

/// The JSON bytes carried by a proof token: the token with surrounding whitespace removed,
/// decoded as standard base64.
pub fn decode_proof_token(token: &str) -> (r: Result<Vec<u8>, ProofTokenError>)
    ensures
        match r {
            Ok(bytes) => base64_standard_decoding(trimmed(token@)) == Some(bytes@),
            Err(e) => e is NotBase64 && base64_standard_decoding(trimmed(token@)) is None,
        },
{
    let t = trim(token);
    match base64_decode_standard(t) {
        Ok(bytes) => Ok(bytes),
        Err(why) => Err(ProofTokenError::NotBase64(why)),
    }
}

} // verus!
