use base64::Engine;
use ed25519_dalek::Signer;
use ed25519_dalek::SigningKey;

use paseto_tokens::create_token;
use paseto_tokens::verify_token;
use paseto_tokens::Claims;
use paseto_tokens::PasetoError;

const FOOTER: &[u8] = b"tray";

fn to_hex(b: &[u8]) -> String {
    let mut s = String::new();
    for x in b {
        s.push_str(&format!("{:02x}", x));
    }
    s
}

fn test_seed() -> [u8; 32] {
    let mut seed = [0u8; 32];
    for (i, slot) in seed.iter_mut().enumerate() {
        *slot = (i as u8).wrapping_mul(7).wrapping_add(3);
    }
    seed
}

fn seed_hex() -> String {
    to_hex(&test_seed())
}

fn pub_hex() -> String {
    let sk = SigningKey::from_bytes(&test_seed());
    to_hex(&sk.verifying_key().to_bytes())
}

fn sample_claims() -> Claims {
    Claims::new_at(
        "u1".to_string(),
        0,
        "Ann".to_string(),
        "c1".to_string(),
        "Acme".to_string(),
        3600,
        1_700_000_000,
    )
}

fn craft_token(payload: &[u8], footer: &[u8], seed: &[u8; 32]) -> String {
    let sk = SigningKey::from_bytes(seed);
    let mut msg = payload.to_vec();
    msg.extend_from_slice(footer);
    let sig = sk.sign(&msg);
    let eng = &base64::engine::general_purpose::URL_SAFE_NO_PAD;
    format!(
        "v4.public.{}.{}.{}",
        eng.encode(payload),
        eng.encode(sig.to_bytes()),
        eng.encode(footer)
    )
}

#[test]
fn round_trip_concrete_scenario() {
    let claims = sample_claims();
    let before = chrono::Utc::now().timestamp();
    let token = create_token(claims, &seed_hex(), 3600).unwrap();
    let after = chrono::Utc::now().timestamp();
    assert!(token.starts_with("v4.public."));
    let got = verify_token(&token, &pub_hex()).unwrap();
    // Timestamps are regenerated at issuance, never taken from the caller.
    assert!(before <= got.iat && got.iat <= after);
    assert_eq!(got.user_id, "u1");
    assert_eq!(got.level, 0);
    assert_eq!(got.user_name, "Ann");
    assert_eq!(got.company_id, "c1");
    assert_eq!(got.company_name, "Acme");
    assert!(got.scope.is_none());
    assert_eq!(got.exp - got.iat, 3600);
}

#[test]
fn round_trip_unusual_fields() {
    let claims = Claims::new_at(
        "u\"quoted\"".to_string(),
        0,
        "back\\slash".to_string(),
        "dots.and.dashes-_".to_string(),
        "ünïcødé ✓".to_string(),
        60,
        1_700_000_000,
    );
    let token = create_token(claims, &seed_hex(), 60).unwrap();
    let got = verify_token(&token, &pub_hex()).unwrap();
    assert_eq!(got.user_id, "u\"quoted\"");
    assert_eq!(got.user_name, "back\\slash");
    assert_eq!(got.company_id, "dots.and.dashes-_");
    assert_eq!(got.company_name, "ünïcødé ✓");
    assert_eq!(got.exp - got.iat, 60);
}

#[test]
fn tamper_any_bit_fails() {
    let claims = sample_claims();
    let token = create_token(claims, &seed_hex(), 3600).unwrap();
    let pk = pub_hex();
    // The payload segment is segment 2 and the signature segment is
    // segment 3; flip every bit of both and demand rejection each time.
    let parts: Vec<&str> = token.split('.').collect();
    assert_eq!(parts.len(), 5);
    let head_len = parts[0].len() + 1 + parts[1].len() + 1;
    let tampered_from = head_len;
    let tampered_to = head_len + parts[2].len() + 1 + parts[3].len();
    let bytes = token.as_bytes();
    for pos in tampered_from..tampered_to {
        if bytes[pos] == b'.' {
            continue;
        }
        for bit in 0..8 {
            let mut copy = bytes.to_vec();
            copy[pos] ^= 1u8 << bit;
            let Ok(flipped) = String::from_utf8(copy) else {
                continue;
            };
            let r = verify_token(&flipped, &pk);
            assert!(r.is_err(), "bit {} of byte {} accepted", bit, pos);
        }
    }
}

#[test]
fn footer_pinning_rejects_other_footer() {
    // A token made for a different footer, otherwise well-formed and
    // correctly signed for that footer.
    let payload = sample_claims().to_json_string();
    let token = craft_token(payload.as_bytes(), b"othr", &test_seed());
    let r = verify_token(&token, &pub_hex());
    assert!(matches!(r, Err(PasetoError::InvalidFooter)));
}

#[test]
fn wrong_key_rejected_with_crypto_error() {
    let claims = sample_claims();
    let token = create_token(claims, &seed_hex(), 3600).unwrap();
    let mut other = test_seed();
    other[0] ^= 0xff;
    let other_pk = to_hex(&SigningKey::from_bytes(&other).verifying_key().to_bytes());
    let r = verify_token(&token, &other_pk);
    assert!(matches!(r, Err(PasetoError::Crypto)));
}

#[test]
fn malformed_segment_counts() {
    let pk = pub_hex();
    assert!(matches!(
        verify_token("v4.public.only.four", &pk),
        Err(PasetoError::InvalidFormat)
    ));
    assert!(matches!(
        verify_token("v4.public.a.b.c.d", &pk),
        Err(PasetoError::InvalidFormat)
    ));
    assert!(matches!(
        verify_token("v3.public.a.b.c", &pk),
        Err(PasetoError::InvalidFormat)
    ));
    assert!(matches!(
        verify_token("v4.local.a.b.c", &pk),
        Err(PasetoError::InvalidFormat)
    ));
    assert!(matches!(verify_token("", &pk), Err(PasetoError::InvalidFormat)));
}

#[test]
fn key_material_errors() {
    let claims = sample_claims();
    assert!(matches!(
        create_token(claims, "zz not hex", 10),
        Err(PasetoError::HexError)
    ));
    let claims = sample_claims();
    assert!(matches!(
        create_token(claims, "0102", 10),
        Err(PasetoError::InvalidPrivateKey)
    ));
    assert!(matches!(
        verify_token("v4.public.a.b.c", "xyz"),
        Err(PasetoError::HexError)
    ));
    assert!(matches!(
        verify_token("v4.public.a.b.c", "010203"),
        Err(PasetoError::InvalidPublicKey)
    ));
}

#[test]
fn bad_base64_segment() {
    let claims = sample_claims();
    let token = create_token(claims, &seed_hex(), 3600).unwrap();
    let parts: Vec<&str> = token.split('.').collect();
    // '%' is not in the base64url alphabet.
    let broken = format!("v4.public.%%%%.{}.{}", parts[3], parts[4]);
    assert!(matches!(
        verify_token(&broken, &pub_hex()),
        Err(PasetoError::Base64)
    ));
    let broken_sig = format!("v4.public.{}.!!.{}", parts[2], parts[4]);
    assert!(matches!(
        verify_token(&broken_sig, &pub_hex()),
        Err(PasetoError::Base64)
    ));
}

#[test]
fn short_signature_is_invalid_signature() {
    let claims = sample_claims();
    let token = create_token(claims, &seed_hex(), 3600).unwrap();
    let parts: Vec<&str> = token.split('.').collect();
    let eng = &base64::engine::general_purpose::URL_SAFE_NO_PAD;
    let short = eng.encode([1u8; 10]);
    let broken = format!("v4.public.{}.{}.{}", parts[2], short, parts[4]);
    assert!(matches!(
        verify_token(&broken, &pub_hex()),
        Err(PasetoError::InvalidSignature)
    ));
}

#[test]
fn malformed_payload_is_json_error() {
    // Correctly signed over the right footer, but the payload is not a
    // canonical claims encoding.
    let token = craft_token(b"{\"bogus\":1}", FOOTER, &test_seed());
    assert!(matches!(
        verify_token(&token, &pub_hex()),
        Err(PasetoError::Json)
    ));
    // Not UTF-8 at all.
    let token = craft_token(&[0xff, 0xfe, 0x01], FOOTER, &test_seed());
    assert!(matches!(
        verify_token(&token, &pub_hex()),
        Err(PasetoError::Json)
    ));
}

#[test]
fn expired_token_rejected() {
    // Stamped in the past with a zero lifetime: exp == iat, never valid.
    let stale = Claims::new_at(
        "u1".to_string(),
        0,
        "Ann".to_string(),
        "c1".to_string(),
        "Acme".to_string(),
        0,
        1_600_000_000,
    );
    let payload = stale.to_json_string();
    let token = craft_token(payload.as_bytes(), FOOTER, &test_seed());
    assert!(matches!(
        verify_token(&token, &pub_hex()),
        Err(PasetoError::Expired)
    ));
}
