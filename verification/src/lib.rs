//! Compact signed identity tokens in the `v4.public` style.
//!
//! An issuing service turns a [`Claims`] value into a five-segment token
//! string `v4.public.<payload>.<signature>.<footer>`: the payload is the
//! canonical JSON form of the claims, the signature is Ed25519 over the raw
//! payload bytes followed by the raw footer bytes, and every segment after
//! the two tags is base64url without padding.  A relying service checks the
//! whole chain — shape, footer, encoding, signature, payload, time window —
//! and either returns the claims or one error out of a closed set.


pub mod b64;
pub mod claims;
pub mod clock;
pub mod crypto;
pub mod errors;
pub mod hexstr;
pub mod jsontext;
pub mod textio;
pub mod token;

pub use claims::Claims;
pub use claims::ClaimsView;
pub use errors::PasetoError;
pub use token::create_token;
pub use token::verify_token;
