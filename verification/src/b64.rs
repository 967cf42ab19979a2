//! Base64url without padding, through the `base64` crate.
//!
//! The encoding is named rather than written out: [`b64url_of`] stands for
//! the exact text that the crate's unpadded URL-safe engine produces for a
//! byte string.  The engine's decoder is strict — no padding, no stray
//! characters, no non-zero trailing bits — so it succeeds exactly on the
//! canonical encoding of some byte string, which lets its contract be an
//! inverse of the encoder's.

use vstd::prelude::*;

use base64::Engine;

verus! {

/// The base64url-without-padding text of a byte string.
pub uninterp spec fn b64url_of(b: Seq<u8>) -> Seq<char>;

/// The characters base64url text is made of; `.` is not among them, so an
/// encoded segment never contains a dot.
pub open spec fn is_b64url_char(c: char) -> bool {
    let u = c as u32;
    (65 <= u && u <= 90) || (97 <= u && u <= 122) || (48 <= u && u <= 57) || u == 45 || u == 95
}

/// Relies on `base64`'s `URL_SAFE_NO_PAD` engine: encoding is a function
/// of the bytes alone; its output is drawn from the URL-safe alphabet
/// (`A`–`Z`, `a`–`z`, `0`–`9`, `-`, `_`); and it is injective — distinct
/// byte strings encode to distinct text, since decoding inverts it.
#[verifier::external_body]
pub(crate) fn b64url_encode(b: &Vec<u8>) -> (r: String)
    ensures
        r@ == b64url_of(b@),
        forall|k: int| 0 <= k < r@.len() ==> is_b64url_char(#[trigger] r@[k]),
        forall|other: Seq<u8>| b64url_of(other) == r@ ==> other == b@,
{
    base64::engine::general_purpose::URL_SAFE_NO_PAD.encode(b.as_slice())
}

/// Relies on `base64`'s `URL_SAFE_NO_PAD` engine with its default strict
/// configuration (`DecodePaddingMode::RequireNone`, trailing bits
/// rejected): decoding succeeds exactly on the canonical unpadded
/// URL-safe encoding of some byte string, and returns those bytes.
#[verifier::external_body]
pub(crate) fn b64url_decode(s: &String) -> (r: Option<Vec<u8>>)
    ensures
        match r {
            Some(b) => s@ == b64url_of(b@)
                && forall|other: Seq<u8>| b64url_of(other) == s@ ==> other == b@,
            None => forall|b: Seq<u8>| s@ != b64url_of(b),
        },
{
    match base64::engine::general_purpose::URL_SAFE_NO_PAD.decode(s.as_str()) {
        Ok(b) => Some(b),
        Err(_) => None,
    }
}

} // verus!
