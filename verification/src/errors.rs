use vstd::prelude::*;

verus! {

/// The closed set of reasons for which issuing or checking a token fails.
///
/// Every fallible operation of this crate returns one of these; none of
/// them panics.  Callers should treat every variant as "reject this
/// token"; the variant only says why.
#[derive(Clone, Copy, Debug, PartialEq, Eq, Structural)]
pub enum PasetoError {
    /// The token does not split into exactly five dot-separated segments,
    /// or the version or purpose tag is wrong.
    InvalidFormat,
    /// The footer segment differs from the expected footer constant.
    InvalidFooter,
    /// The decoded signature is not exactly 64 bytes long.
    InvalidSignature,
    /// Payload and signature check out, but the token's time window does
    /// not contain the present moment.
    Expired,
    /// The payload bytes are not a well-formed canonical claims encoding.
    Json,
    /// A segment is not valid base64url without padding.
    Base64,
    /// The signature does not validate over payload and footer under the
    /// given public key, or the public key bytes name no valid key.
    Crypto,
    /// A key string is not valid hexadecimal.
    HexError,
    /// The decoded secret key is not exactly 32 bytes.
    InvalidPrivateKey,
    /// The decoded public key is not exactly 32 bytes.
    InvalidPublicKey,
}

} // verus!
