//! Token construction and verification.
//!
//! A token is `v4.public.<payload>.<signature>.<footer>`: five dot-separated
//! segments, where the payload is the canonical claims text (UTF-8 bytes),
//! the signature is Ed25519 over the raw payload bytes followed by the raw
//! footer bytes, and the last three segments are base64url without padding.
//! The footer that is signed is the raw constant, not its encoded segment:
//! the verifier recomputes the expected footer segment locally and never
//! trusts the one carried in the token.

use vstd::prelude::*;

use crate::b64;
use crate::b64::b64url_of;
use crate::b64::is_b64url_char;
use crate::claims::Claims;
use crate::claims::ClaimsView;
use crate::claims::exp_after;
use crate::claims::valid_at;
use crate::clock;
use crate::crypto;
use crate::crypto::ed25519_pubkey;
use crate::crypto::ed25519_sign;
use crate::crypto::ed25519_verifies;
use crate::errors::PasetoError;
use crate::hexstr;
use crate::hexstr::hex_bytes;
use crate::jsontext;
use crate::textio;
use vstd::string::StrSliceExecFns;

verus! {

// ---------------------------------------------------------------------
// The fixed pieces of a token
// ---------------------------------------------------------------------

/// The shared domain-separation footer, as raw bytes: the ASCII text
/// `tray`.  Every issuer and verifier of one deployment must use the same
/// value.
pub open spec fn footer_bytes_spec() -> Seq<u8> {
    seq![116u8, 114u8, 97u8, 121u8]
}

/// The footer constant as a byte vector.
pub fn footer_bytes() -> (r: Vec<u8>)
    ensures
        r@ == footer_bytes_spec(),
{
    let mut v: Vec<u8> = Vec::new();
    v.push(116);
    v.push(114);
    v.push(97);
    v.push(121);
    assert(v@ =~= footer_bytes_spec());
    v
}

pub open spec fn version_tag() -> Seq<char> {
    seq!['v', '4']
}

pub open spec fn purpose_tag() -> Seq<char> {
    seq!['p', 'u', 'b', 'l', 'i', 'c']
}

// ---------------------------------------------------------------------
// Splitting on dots
// ---------------------------------------------------------------------

/// The dot-separated segments of a character string: one more segment than
/// there are dots; empty segments are kept.
pub open spec fn split_dots(s: Seq<char>) -> Seq<Seq<char>>
    decreases s.len(),
{
    if s.len() == 0 {
        seq![Seq::<char>::empty()]
    } else if s[0] == '.' {
        seq![Seq::<char>::empty()] + split_dots(s.drop_first())
    } else {
        let r = split_dots(s.drop_first());
        seq![seq![s[0]] + r[0]] + r.drop_first()
    }
}

pub open spec fn dot_free(s: Seq<char>) -> bool {
    forall|k: int| 0 <= k < s.len() ==> s[k] != '.'
}

pub proof fn lemma_split_dots_len(s: Seq<char>)
    ensures
        split_dots(s).len() >= 1,
    decreases s.len(),
{
    if s.len() > 0 {
        lemma_split_dots_len(s.drop_first());
    }
}

/// A dot-free string is one whole segment.
pub proof fn lemma_split_dots_single(a: Seq<char>)
    requires
        dot_free(a),
    ensures
        split_dots(a) == seq![a],
    decreases a.len(),
{
    if a.len() == 0 {
        assert(a =~= Seq::<char>::empty());
        assert(split_dots(a) =~= seq![a]);
    } else {
        assert(a[0] != '.');
        assert(dot_free(a.drop_first())) by {
            assert(forall|k: int| 0 <= k < a.drop_first().len()
                ==> a.drop_first()[k] == a[k + 1]);
        }
        lemma_split_dots_single(a.drop_first());
        assert(seq![a.drop_first()][0] == a.drop_first());
        assert(seq![a[0]] + a.drop_first() =~= a);
        assert(seq![a.drop_first()].drop_first() =~= Seq::<Seq<char>>::empty());
        assert(split_dots(a) =~= seq![a]);
    }
}

/// Splitting a dot-free segment, a dot, and a remainder yields the segment
/// and then the remainder's segments.
pub proof fn lemma_split_dots_concat(a: Seq<char>, rest: Seq<char>)
    requires
        dot_free(a),
    ensures
        split_dots(a + seq!['.'] + rest) == seq![a] + split_dots(rest),
    decreases a.len(),
{
    let s = a + seq!['.'] + rest;
    if a.len() == 0 {
        assert(a =~= Seq::<char>::empty());
        assert(s =~= seq!['.'] + rest);
        assert(s[0] == '.');
        assert(s.drop_first() =~= rest);
        assert(seq![Seq::<char>::empty()] + split_dots(rest) =~= seq![a] + split_dots(rest));
    } else {
        assert(s.len() > 0);
        assert(s[0] == a[0]);
        assert(a[0] != '.');
        assert(dot_free(a.drop_first())) by {
            assert(forall|k: int| 0 <= k < a.drop_first().len()
                ==> a.drop_first()[k] == a[k + 1]);
        }
        assert(s.drop_first() =~= a.drop_first() + seq!['.'] + rest);
        lemma_split_dots_concat(a.drop_first(), rest);
        let r = split_dots(s.drop_first());
        assert(r == seq![a.drop_first()] + split_dots(rest));
        assert(r[0] == a.drop_first());
        assert(seq![s[0]] + r[0] =~= a);
        assert(r.drop_first() =~= split_dots(rest));
        assert(split_dots(s) =~= seq![a] + split_dots(rest));
    }
}

/// Splits a character vector on dots.
pub fn split_dots_exec(s: &Vec<char>) -> (r: Vec<Vec<char>>)
    ensures
        r@.len() == split_dots(s@).len(),
        forall|k: int| 0 <= k < r@.len() ==> #[trigger] r@[k]@ == split_dots(s@)[k],
{
    let n = s.len();
    let mut parts: Vec<Vec<char>> = Vec::new();
    let mut cur: Vec<char> = Vec::new();
    let mut i: usize = 0;
    proof {
        lemma_split_dots_len(s@.skip(0));
        assert(s@.skip(0) =~= s@);
        assert(cur@ + split_dots(s@)[0] =~= split_dots(s@)[0]);
        assert(seq![split_dots(s@)[0]] + split_dots(s@).drop_first() =~= split_dots(s@));
    }
    while i < n
        invariant
            n == s@.len(),
            i <= n,
            split_dots(s@.skip(i as int)).len() >= 1,
            split_dots(s@) =~= parts@.map_values(|v: Vec<char>| v@)
                + seq![cur@ + split_dots(s@.skip(i as int))[0]]
                + split_dots(s@.skip(i as int)).drop_first(),
        decreases n - i,
    {
        let c = s[i];
        let ghost tail = s@.skip(i as int);
        proof {
            assert(tail[0] == s@[i as int]);
            assert(tail.drop_first() =~= s@.skip(i as int + 1));
            lemma_split_dots_len(s@.skip(i as int + 1));
        }
        if c == '.' {
            let done = cur;
            cur = Vec::new();
            let ghost old_parts = parts@;
            parts.push(done);
            proof {
                assert(split_dots(tail) == seq![Seq::<char>::empty()]
                    + split_dots(s@.skip(i as int + 1)));
                assert(parts@.map_values(|v: Vec<char>| v@)
                    =~= old_parts.map_values(|v: Vec<char>| v@) + seq![done@]);
                assert(done@ + Seq::<char>::empty() =~= done@);
                assert(cur@ + split_dots(s@.skip(i as int + 1))[0]
                    =~= split_dots(s@.skip(i as int + 1))[0]);
                assert(split_dots(s@) =~= parts@.map_values(|v: Vec<char>| v@)
                    + seq![cur@ + split_dots(s@.skip(i as int + 1))[0]]
                    + split_dots(s@.skip(i as int + 1)).drop_first());
            }
        } else {
            let ghost old_cur = cur@;
            cur.push(c);
            proof {
                let r2 = split_dots(s@.skip(i as int + 1));
                assert(split_dots(tail) == seq![seq![tail[0]] + r2[0]] + r2.drop_first());
                assert(old_cur + (seq![c] + r2[0]) =~= cur@ + r2[0]);
                assert(split_dots(s@) =~= parts@.map_values(|v: Vec<char>| v@)
                    + seq![cur@ + r2[0]] + r2.drop_first());
            }
        }
        i = i + 1;
    }
    proof {
        assert(s@.skip(n as int) =~= Seq::<char>::empty());
        assert(split_dots(s@.skip(n as int)) == seq![Seq::<char>::empty()]);
        assert(cur@ + Seq::<char>::empty() =~= cur@);
        assert(split_dots(s@.skip(n as int)).drop_first() =~= Seq::<Seq<char>>::empty());
    }
    let ghost old_parts = parts@;
    parts.push(cur);
    proof {
        assert(parts@.map_values(|v: Vec<char>| v@)
            =~= old_parts.map_values(|v: Vec<char>| v@) + seq![split_dots(s@)[old_parts.len() as int]]);
        assert(split_dots(s@) =~= parts@.map_values(|v: Vec<char>| v@));
        assert(forall|k: int| 0 <= k < parts@.len()
            ==> #[trigger] parts@[k]@ == parts@.map_values(|v: Vec<char>| v@)[k]);
    }
    parts
}

// ---------------------------------------------------------------------
// The shape of a well-formed token
// ---------------------------------------------------------------------

/// The full token text from its three encoded segments.
pub open spec fn token_chars(pseg: Seq<char>, sseg: Seq<char>, fseg: Seq<char>) -> Seq<char> {
    version_tag() + seq!['.'] + purpose_tag() + seq!['.'] + pseg + seq!['.'] + sseg + seq!['.']
        + fseg
}

/// What gets signed: the raw payload bytes, then the raw footer bytes.
pub open spec fn signing_input(payload: Seq<u8>) -> Seq<u8> {
    payload + footer_bytes_spec()
}

/// The claims stamped at issuance: identity fields copied from the caller,
/// authorization level fixed at zero, fresh timestamps, no scope.
pub open spec fn fresh_claims_view(c: ClaimsView, ttl: int, now: int) -> ClaimsView {
    ClaimsView {
        user_id: c.user_id,
        level: 0,
        user_name: c.user_name,
        company_id: c.company_id,
        company_name: c.company_name,
        exp: exp_after(now, ttl),
        iat: now,
        scope: Option::None,
    }
}

/// The token text issued for a claims value under a 32-byte seed.
pub open spec fn token_of(c: ClaimsView, seed: Seq<u8>) -> Seq<char> {
    let payload = vstd::utf8::encode_utf8(jsontext::json_chars_of(c));
    token_chars(
        b64url_of(payload),
        b64url_of(ed25519_sign(seed, signing_input(payload))),
        b64url_of(footer_bytes_spec()),
    )
}

/// The token splits into exactly five segments with the right two tags.
pub open spec fn format_ok(t: Seq<char>) -> bool {
    &&& split_dots(t).len() == 5
    &&& split_dots(t)[0] == version_tag()
    &&& split_dots(t)[1] == purpose_tag()
}

/// The key string decodes to exactly 32 bytes.
pub open spec fn key_ok(k: Seq<char>) -> bool {
    hex_bytes(k) matches Some(b) && b.len() == 32
}

/// The 32 bytes of a well-formed key string.
pub open spec fn key_bytes(k: Seq<char>) -> Seq<u8> {
    hex_bytes(k).unwrap()
}


// ---------------------------------------------------------------------
// Issuing
// ---------------------------------------------------------------------

fn version_chars() -> (r: Vec<char>)
    ensures
        r@ == version_tag(),
{
    let mut v: Vec<char> = Vec::new();
    v.push('v');
    v.push('4');
    assert(v@ =~= version_tag());
    v
}

fn purpose_chars() -> (r: Vec<char>)
    ensures
        r@ == purpose_tag(),
{
    let mut v: Vec<char> = Vec::new();
    v.push('p');
    v.push('u');
    v.push('b');
    v.push('l');
    v.push('i');
    v.push('c');
    assert(v@ =~= purpose_tag());
    v
}

fn chars_eq(a: &Vec<char>, pat: &Vec<char>) -> (r: bool)
    ensures
        r == (a@ == pat@),
{
    if a.len() != pat.len() {
        return false;
    }
    let n = a.len();
    let mut j: usize = 0;
    while j < n
        invariant
            n == a@.len(),
            n == pat@.len(),
            j <= n,
            forall|k: int| 0 <= k < j ==> a@[k] == pat@[k],
        decreases n - j,
    {
        if a[j] != pat[j] {
            return false;
        }
        j = j + 1;
    }
    proof {
        assert(a@ =~= pat@);
    }
    true
}

/// A base64url segment never contains a dot.
proof fn lemma_b64_dot_free(seg: Seq<char>)
    requires
        forall|k: int| 0 <= k < seg.len() ==> is_b64url_char(#[trigger] seg[k]),
    ensures
        dot_free(seg),
{
    assert forall|k: int| 0 <= k < seg.len() implies seg[k] != '.' by {
        assert(is_b64url_char(seg[k]));
        assert('.' as u32 == 46);
    }
}

/// Serializes, signs and assembles a token for an already-stamped claims
/// value under a 32-byte seed.  Always succeeds; the result is exactly
/// [`token_of`], and it splits into the five expected segments.
#[verifier::rlimit(100)]
#[verifier::spinoff_prover]
pub fn create_paseto_v4_public(claims: &Claims, seed: &Vec<u8>) -> (r: String)
    requires
        seed@.len() == 32,
    ensures
        r@ == token_of(claims@, seed@),
        ({
            let payload = vstd::utf8::encode_utf8(jsontext::json_chars_of(claims@));
            let sg = ed25519_sign(seed@, signing_input(payload));
            &&& split_dots(r@) == seq![version_tag(), purpose_tag(), b64url_of(payload),
                b64url_of(sg), b64url_of(footer_bytes_spec())]
            &&& sg.len() == 64
        }),
{
    let payload_chars = jsontext::claims_to_chars(claims);
    let payload_str = textio::chars_to_string(&payload_chars);
    let payload_bytes = payload_str.as_str().as_bytes_vec();
    let mut message = payload_str.as_str().as_bytes_vec();
    let mut fb = footer_bytes();
    message.append(&mut fb);
    proof {
        assert(message@ == signing_input(payload_bytes@));
    }
    let sig = crypto::sign_detached(seed, &message);
    let pseg = b64::b64url_encode(&payload_bytes);
    let sseg = b64::b64url_encode(&sig);
    let fvec = footer_bytes();
    let fseg = b64::b64url_encode(&fvec);
    let mut tok = version_chars();
    tok.push('.');
    proof {
        assert(tok@ =~= version_tag() + seq!['.']);
    }
    let mut piece = purpose_chars();
    tok.append(&mut piece);
    tok.push('.');
    proof {
        assert(tok@ =~= version_tag() + seq!['.'] + purpose_tag() + seq!['.']);
    }
    let mut piece = textio::str_to_chars(pseg.as_str());
    tok.append(&mut piece);
    tok.push('.');
    proof {
        assert(tok@ =~= version_tag() + seq!['.'] + purpose_tag() + seq!['.'] + pseg@
            + seq!['.']);
    }
    let mut piece = textio::str_to_chars(sseg.as_str());
    tok.append(&mut piece);
    tok.push('.');
    proof {
        assert(tok@ =~= version_tag() + seq!['.'] + purpose_tag() + seq!['.'] + pseg@
            + seq!['.'] + sseg@ + seq!['.']);
    }
    let mut piece = textio::str_to_chars(fseg.as_str());
    tok.append(&mut piece);
    proof {
        assert(tok@ =~= token_chars(pseg@, sseg@, fseg@));
        // The five segments are dot-free, so the token splits as built.
        lemma_b64_dot_free(pseg@);
        lemma_b64_dot_free(sseg@);
        lemma_b64_dot_free(fseg@);
        assert(dot_free(version_tag()));
        assert(dot_free(purpose_tag()));
        let m5 = fseg@;
        let m4 = (sseg@ + seq!['.']) + m5;
        let m3 = (pseg@ + seq!['.']) + m4;
        let m2 = (purpose_tag() + seq!['.']) + m3;
        let m1 = (version_tag() + seq!['.']) + m2;
        let k1 = version_tag();
        let k3 = purpose_tag();
        let l2 = k1 + seq!['.'];
        let l3 = l2 + k3;
        let l4 = l3 + seq!['.'];
        let l5 = l4 + pseg@;
        let l6 = l5 + seq!['.'];
        let l7 = l6 + sseg@;
        let l8 = l7 + seq!['.'];
        let l9 = l8 + m5;
        assert(token_chars(pseg@, sseg@, fseg@) == l9);
        assert(l8 + m5 =~= l7 + (seq!['.'] + m5));
        assert(l7 + (seq!['.'] + m5) =~= l6 + (sseg@ + (seq!['.'] + m5)));
        assert(sseg@ + (seq!['.'] + m5) =~= m4);
        assert(l6 + m4 =~= l5 + (seq!['.'] + m4));
        assert(l5 + (seq!['.'] + m4) =~= l4 + (pseg@ + (seq!['.'] + m4)));
        assert(pseg@ + (seq!['.'] + m4) =~= m3);
        assert(l4 + m3 =~= l3 + (seq!['.'] + m3));
        assert(l3 + (seq!['.'] + m3) =~= l2 + (k3 + (seq!['.'] + m3)));
        assert(k3 + (seq!['.'] + m3) =~= m2);
        assert(l2 + m2 =~= m1);
        assert(tok@ == m1);
        lemma_split_dots_concat(k1, m2);
        lemma_split_dots_concat(k3, m3);
        lemma_split_dots_concat(pseg@, m4);
        lemma_split_dots_concat(sseg@, m5);
        lemma_split_dots_single(fseg@);
        assert(split_dots(tok@) =~= seq![version_tag(), purpose_tag(), b64url_of(payload_bytes@),
            b64url_of(sig@), b64url_of(footer_bytes_spec())]);
    }
    textio::chars_to_string(&tok)
}

/// Issues a token: decodes the secret seed from hexadecimal, stamps a
/// fresh claims value from the caller's identity fields — the
/// authorization level is fixed at zero here, and timestamps are always
/// regenerated, never taken from the caller — then serializes, signs and
/// assembles.  Fails exactly on bad key material.
pub fn create_token(claims: Claims, private_key: &str, ttl_seconds: u64) -> (r: Result<
    String,
    PasetoError,
>)
    ensures
        hex_bytes(private_key@) is None ==> r == Err::<String, PasetoError>(
            PasetoError::HexError,
        ),
        (hex_bytes(private_key@) matches Some(b) && b.len() != 32) ==> r == Err::<
            String,
            PasetoError,
        >(PasetoError::InvalidPrivateKey),
        key_ok(private_key@) ==> (r matches Ok(t) && exists|now: int|
            {
                let cv = #[trigger] fresh_claims_view(claims@, ttl_seconds as int, now);
                &&& crate::claims::fits(cv)
                &&& t@ == token_of(cv, key_bytes(private_key@))
                &&& split_dots(t@) == seq![version_tag(), purpose_tag(),
                    b64url_of(vstd::utf8::encode_utf8(jsontext::json_chars_of(cv))),
                    b64url_of(ed25519_sign(key_bytes(private_key@), signing_input(
                        vstd::utf8::encode_utf8(jsontext::json_chars_of(cv))))),
                    b64url_of(footer_bytes_spec())]
                &&& ed25519_sign(key_bytes(private_key@), signing_input(
                    vstd::utf8::encode_utf8(jsontext::json_chars_of(cv)))).len() == 64
            }),
{
    let sk_chars = textio::str_to_chars(private_key);
    let seed = match hexstr::decode_hex(&sk_chars) {
        Option::Some(b) => b,
        Option::None => {
            return Err(PasetoError::HexError);
        },
    };
    if seed.len() != 32 {
        return Err(PasetoError::InvalidPrivateKey);
    }
    let now = clock::unix_now();
    let fresh = Claims::new_at(
        claims.user_id,
        0,
        claims.user_name,
        claims.company_id,
        claims.company_name,
        ttl_seconds,
        now,
    );
    proof {
        assert(fresh@ == fresh_claims_view(claims@, ttl_seconds as int, now as int));
        assert(crate::claims::fits(fresh@));
    }
    let tok = create_paseto_v4_public(&fresh, &seed);
    Ok(tok)
}


// ---------------------------------------------------------------------
// Verifying
// ---------------------------------------------------------------------

/// Everything verification promises, for a token text `t` checked under
/// 32 public key bytes `pkb`, with result `r`.  Each stage is a strict
/// gate; the first failure decides the error.  Base64 decoding is pinned
/// through [`b64url_of`]: a segment decodes to `p` exactly when it reads
/// `b64url_of(p)`.
pub open spec fn verify_post(r: Result<Claims, PasetoError>, t: Seq<char>, pkb: Seq<u8>) -> bool {
    let parts = split_dots(t);
    let fseg = b64url_of(footer_bytes_spec());
    &&& (!format_ok(t) ==> r == Err::<Claims, PasetoError>(PasetoError::InvalidFormat))
    &&& (format_ok(t) && parts[4] != fseg ==> r == Err::<Claims, PasetoError>(
        PasetoError::InvalidFooter,
    ))
    &&& (forall|f: Seq<u8>|
        format_ok(t) && parts[4] == b64url_of(f) && f != footer_bytes_spec() ==> r == Err::<
            Claims,
            PasetoError,
        >(PasetoError::InvalidFooter))
    &&& (format_ok(t) && parts[4] == fseg && (forall|p: Seq<u8>| parts[2] != b64url_of(p))
        ==> r == Err::<Claims, PasetoError>(PasetoError::Base64))
    &&& (format_ok(t) && parts[4] == fseg && (exists|p: Seq<u8>| parts[2] == b64url_of(p)) && (
        forall|g: Seq<u8>| parts[3] != b64url_of(g)) ==> r == Err::<Claims, PasetoError>(
        PasetoError::Base64,
    ))
    &&& (forall|p: Seq<u8>, g: Seq<u8>|
        format_ok(t) && parts[4] == fseg && parts[2] == b64url_of(p) && parts[3] == b64url_of(g)
            ==> {
            &&& (g.len() != 64 ==> r == Err::<Claims, PasetoError>(PasetoError::InvalidSignature))
            &&& (g.len() == 64 && !ed25519_verifies(pkb, signing_input(p), g) ==> r == Err::<
                Claims,
                PasetoError,
            >(PasetoError::Crypto))
            &&& (g.len() == 64 && ed25519_verifies(pkb, signing_input(p), g) ==> {
                &&& (!vstd::utf8::valid_utf8(p) ==> r == Err::<Claims, PasetoError>(
                    PasetoError::Json,
                ))
                &&& (vstd::utf8::valid_utf8(p) && jsontext::parse_claims_chars(
                    vstd::utf8::decode_utf8(p),
                ) is None ==> r == Err::<Claims, PasetoError>(PasetoError::Json))
                &&& (forall|cv: ClaimsView|
                    vstd::utf8::valid_utf8(p) && jsontext::parse_claims_chars(
                        vstd::utf8::decode_utf8(p),
                    ) == Some(cv) ==> exists|now: int|
                        (valid_at(cv, now) && (r matches Ok(c) && c@ == cv)) || (!valid_at(
                            cv,
                            now,
                        ) && r == Err::<Claims, PasetoError>(PasetoError::Expired)))
            })
        })
    &&& (forall|seed: Seq<u8>, p: Seq<u8>|
        format_ok(t) && parts[4] == fseg && pkb == ed25519_pubkey(seed) && parts[2]
            == b64url_of(p) && parts[3] == b64url_of(
            #[trigger] ed25519_sign(seed, signing_input(p)),
        ) && ed25519_sign(seed, signing_input(p)).len() == 64 ==> r != Err::<Claims, PasetoError>(
            PasetoError::InvalidSignature,
        ) && r != Err::<Claims, PasetoError>(PasetoError::Crypto))
}

/// Checks a token under 32 public key bytes: shape, footer, encoding,
/// signature, payload, time window, in that order, first failure deciding
/// the error.  The whole behaviour is pinned by [`verify_post`].
#[verifier::rlimit(100)]
#[verifier::spinoff_prover]
pub fn verify_paseto_v4_public(token: &str, pk: &Vec<u8>) -> (r: Result<Claims, PasetoError>)
    requires
        pk@.len() == 32,
    ensures
        verify_post(r, token@, pk@),
{
    let ghost t = token@;
    let t_chars = textio::str_to_chars(token);
    let parts = split_dots_exec(&t_chars);
    let ghost sparts = split_dots(t);
    if parts.len() != 5 {
        return Err(PasetoError::InvalidFormat);
    }
    let vtag = version_chars();
    let ptag = purpose_chars();
    if !chars_eq(&parts[0], &vtag) {
        return Err(PasetoError::InvalidFormat);
    }
    if !chars_eq(&parts[1], &ptag) {
        return Err(PasetoError::InvalidFormat);
    }
    assert(format_ok(t));
    let fvec = footer_bytes();
    let expected_footer = b64::b64url_encode(&fvec);
    let expected_chars = textio::str_to_chars(expected_footer.as_str());
    if !chars_eq(&parts[4], &expected_chars) {
        return Err(PasetoError::InvalidFooter);
    }
    assert(sparts[4] == b64url_of(footer_bytes_spec()));
    assert forall|f: Seq<u8>| sparts[4] == b64url_of(f) implies f == footer_bytes_spec() by {}
    let pseg_str = textio::chars_to_string(&parts[2]);
    let payload = match b64::b64url_decode(&pseg_str) {
        Option::Some(b) => b,
        Option::None => {
            assert(forall|p: Seq<u8>| sparts[2] != b64url_of(p));
            return Err(PasetoError::Base64);
        },
    };
    assert(sparts[2] == b64url_of(payload@));
    assert(forall|p: Seq<u8>| sparts[2] == b64url_of(p) ==> p == payload@);
    let sseg_str = textio::chars_to_string(&parts[3]);
    let sig = match b64::b64url_decode(&sseg_str) {
        Option::Some(b) => b,
        Option::None => {
            assert(forall|g: Seq<u8>| sparts[3] != b64url_of(g));
            return Err(PasetoError::Base64);
        },
    };
    assert(sparts[3] == b64url_of(sig@));
    assert(forall|g: Seq<u8>| sparts[3] == b64url_of(g) ==> g == sig@);
    if sig.len() != 64 {
        return Err(PasetoError::InvalidSignature);
    }
    let mut message = Vec::new();
    message.extend_from_slice(payload.as_slice());
    proof {
        assert(message@ =~= payload@);
    }
    let mut fb2 = footer_bytes();
    message.append(&mut fb2);
    proof {
        assert(message@ == signing_input(payload@));
    }
    if !crypto::verify_detached(pk, &message, &sig) {
        return Err(PasetoError::Crypto);
    }
    assert(ed25519_verifies(pk@, signing_input(payload@), sig@));
    let payload_str = match textio::bytes_to_string(&payload) {
        Option::Some(s) => s,
        Option::None => {
            return Err(PasetoError::Json);
        },
    };
    let payload_chars = textio::str_to_chars(payload_str.as_str());
    let claims = match jsontext::parse_claims(&payload_chars) {
        Option::Some(c) => c,
        Option::None => {
            return Err(PasetoError::Json);
        },
    };
    let now = clock::unix_now();
    if !claims.is_valid_at(now) {
        proof {
            assert(!valid_at(claims@, now as int));
        }
        return Err(PasetoError::Expired);
    }
    Ok(claims)
}

/// Checks a token under a hexadecimal public key: decodes the key — bad
/// hexadecimal or a length other than 32 bytes is a key error — then runs
/// the gates of [`verify_post`].
pub fn verify_token(token: &str, public_key: &str) -> (r: Result<Claims, PasetoError>)
    ensures
        hex_bytes(public_key@) is None ==> r == Err::<Claims, PasetoError>(PasetoError::HexError),
        (hex_bytes(public_key@) matches Some(b) && b.len() != 32) ==> r == Err::<
            Claims,
            PasetoError,
        >(PasetoError::InvalidPublicKey),
        key_ok(public_key@) ==> verify_post(r, token@, key_bytes(public_key@)),
{
    let pk_chars = textio::str_to_chars(public_key);
    let pkb = match hexstr::decode_hex(&pk_chars) {
        Option::Some(b) => b,
        Option::None => {
            return Err(PasetoError::HexError);
        },
    };
    if pkb.len() != 32 {
        return Err(PasetoError::InvalidPublicKey);
    }
    verify_paseto_v4_public(token, &pkb)
}


// ---------------------------------------------------------------------
// Round trip
// ---------------------------------------------------------------------

/// Round trip: checking a token that was issued for claims `cv` under
/// `seed`, against the public key belonging to `seed`, never fails for
/// shape, footer, encoding, signature or payload — it yields exactly the
/// issued claims, or `Expired` when the time window does not contain the
/// moment of checking.  The hypotheses are exactly what
/// [`create_token`]'s contract gives for the token it returns, and what
/// [`verify_token`]'s contract gives for its result.
pub proof fn lemma_round_trip(
    r: Result<Claims, PasetoError>,
    t: Seq<char>,
    seed: Seq<u8>,
    cv: ClaimsView,
)
    requires
        crate::claims::fits(cv),
        verify_post(r, t, ed25519_pubkey(seed)),
        split_dots(t) == seq![version_tag(), purpose_tag(),
            b64url_of(vstd::utf8::encode_utf8(jsontext::json_chars_of(cv))),
            b64url_of(ed25519_sign(seed, signing_input(
                vstd::utf8::encode_utf8(jsontext::json_chars_of(cv))))),
            b64url_of(footer_bytes_spec())],
        ed25519_sign(seed, signing_input(
            vstd::utf8::encode_utf8(jsontext::json_chars_of(cv)))).len() == 64,
    ensures
        (r matches Ok(c) && c@ == cv) || r == Err::<Claims, PasetoError>(PasetoError::Expired),
{
    let chars = jsontext::json_chars_of(cv);
    let payload = vstd::utf8::encode_utf8(chars);
    let sg = ed25519_sign(seed, signing_input(payload));
    let pkb = ed25519_pubkey(seed);
    let parts = split_dots(t);
    assert(parts.len() == 5);
    assert(parts[0] == version_tag());
    assert(parts[1] == purpose_tag());
    assert(parts[2] == b64url_of(payload));
    assert(parts[3] == b64url_of(sg));
    assert(parts[4] == b64url_of(footer_bytes_spec()));
    assert(format_ok(t));
    assert(r != Err::<Claims, PasetoError>(PasetoError::Crypto));
    if !ed25519_verifies(pkb, signing_input(payload), sg) {
        assert(r == Err::<Claims, PasetoError>(PasetoError::Crypto));
        assert(false);
    }
    vstd::utf8::encode_utf8_valid_utf8(chars);
    vstd::utf8::encode_utf8_decode_utf8(chars);
    assert(vstd::utf8::valid_utf8(payload));
    assert(vstd::utf8::decode_utf8(payload) == chars);
    jsontext::lemma_parse_json_round_trip(cv);
    assert(jsontext::parse_claims_chars(vstd::utf8::decode_utf8(payload)) == Some(cv));
    let now = choose|now: int|
        (valid_at(cv, now) && (r matches Ok(c) && c@ == cv)) || (!valid_at(cv, now) && r == Err::<
            Claims,
            PasetoError,
        >(PasetoError::Expired));
    if valid_at(cv, now) {
        assert(r matches Ok(c) && c@ == cv);
    } else {
        assert(r == Err::<Claims, PasetoError>(PasetoError::Expired));
    }
}



/// Tamper detection, short of the cryptographic assumption: whenever
/// verification returns claims, the token had the right shape and footer,
/// its payload and signature segments were canonical encodings, the
/// signature validated over exactly those payload bytes and the footer,
/// and the payload parses to exactly the returned claims.  So no change to
/// the payload or signature segment can be accepted unless it still
/// validates under the key — which is the signature scheme's own
/// guarantee, not provable here.
pub proof fn lemma_acceptance(r: Result<Claims, PasetoError>, t: Seq<char>, pkb: Seq<u8>)
    requires
        verify_post(r, t, pkb),
        r is Ok,
    ensures
        format_ok(t),
        split_dots(t)[4] == b64url_of(footer_bytes_spec()),
        exists|p: Seq<u8>, g: Seq<u8>|
            {
                &&& split_dots(t)[2] == b64url_of(p)
                &&& #[trigger] split_dots(t)[3] == b64url_of(g)
                &&& g.len() == 64
                &&& ed25519_verifies(pkb, signing_input(p), g)
                &&& vstd::utf8::valid_utf8(p)
                &&& jsontext::parse_claims_chars(vstd::utf8::decode_utf8(p)) == Some(
                    r.unwrap()@,
                )
            },
{
    let parts = split_dots(t);
    let fseg = b64url_of(footer_bytes_spec());
    assert(format_ok(t));
    if parts[4] != fseg {
        assert(r == Err::<Claims, PasetoError>(PasetoError::InvalidFooter));
        assert(false);
    }
    if forall|p: Seq<u8>| parts[2] != b64url_of(p) {
        assert(r == Err::<Claims, PasetoError>(PasetoError::Base64));
        assert(false);
    }
    let p = choose|p: Seq<u8>| parts[2] == b64url_of(p);
    if forall|g: Seq<u8>| parts[3] != b64url_of(g) {
        assert(r == Err::<Claims, PasetoError>(PasetoError::Base64));
        assert(false);
    }
    let g = choose|g: Seq<u8>| parts[3] == b64url_of(g);
    assert(format_ok(t) && parts[4] == fseg && parts[2] == b64url_of(p) && parts[3] == b64url_of(
        g,
    ));
    let verdict = ed25519_verifies(pkb, signing_input(p), g);
    if g.len() != 64 {
        assert(r == Err::<Claims, PasetoError>(PasetoError::InvalidSignature));
        assert(false);
    }
    if !verdict {
        assert(r == Err::<Claims, PasetoError>(PasetoError::Crypto));
        assert(false);
    }
    if !vstd::utf8::valid_utf8(p) {
        assert(r == Err::<Claims, PasetoError>(PasetoError::Json));
        assert(false);
    }
    match jsontext::parse_claims_chars(vstd::utf8::decode_utf8(p)) {
        Option::None => {
            assert(r == Err::<Claims, PasetoError>(PasetoError::Json));
            assert(false);
        },
        Option::Some(cv) => {
            let now = choose|now: int|
                (valid_at(cv, now) && (r matches Ok(c) && c@ == cv)) || (!valid_at(cv, now) && r
                    == Err::<Claims, PasetoError>(PasetoError::Expired));
            if !valid_at(cv, now) {
                assert(r == Err::<Claims, PasetoError>(PasetoError::Expired));
                assert(false);
            }
            assert(r matches Ok(c) && c@ == cv);
            assert(jsontext::parse_claims_chars(vstd::utf8::decode_utf8(p)) == Some(
                r.unwrap()@,
            ));
        },
    }
}

} // verus!
