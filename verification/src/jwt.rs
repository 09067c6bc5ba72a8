//! The token codec and its claims model.
//!
//! A token is `base64url(header) "." base64url(payload) "." signature`: the
//! fixed HS256 header, the canonical JSON payload of the claims, and the
//! HMAC-SHA256 signature of everything before the second dot. Encoding
//! writes exactly this; decoding splits on the dots, compares the header,
//! checks the signature, reads the payload back, and checks expiry against
//! the verification time its caller supplies, failing closed with
//! `InvalidToken` on anything malformed and with `ExpiredToken` once the
//! expiry has passed. Tampering and malformation are deliberately not told
//! apart in the result.

use vstd::prelude::*;

use crate::json::{at, claims_json, claims_payload, lemma_at_concat, lemma_at_index, parse_claims, sp_claims};
use crate::roles::Role;
use crate::settings::JwtSettings;

use vstd::utf8::{decode_utf8, encode_utf8, valid_utf8};

verus! {

pub const DOT: u8 = 46;

/// The spec-level value of a token's claims.
#[verifier::ext_equal]
pub struct ClaimsModel {
    pub sub: Seq<char>,
    pub exp: int,
    pub roles: Seq<Role>,
}

/// A token's payload: the subject's identity, the absolute expiry in seconds,
/// and the subject's roles. Created at login, read back by validation, never
/// changed in between.
#[derive(Debug, Clone)]
pub struct Claims {
    pub sub: String,
    pub exp: u64,
    pub roles: Vec<Role>,
}

impl View for Claims {
    type V = ClaimsModel;

    open spec fn view(&self) -> ClaimsModel {
        ClaimsModel { sub: self.sub@, exp: self.exp as int, roles: self.roles@ }
    }
}

/// Why a bearer token was not accepted. `Unauthorized` is for a token whose
/// signature is valid but whose subject no longer resolves in the identity
/// store; `MissingToken` for a request that carried no bearer credential at
/// all.
#[derive(Debug, Clone, Copy, PartialEq, Eq, Structural)]
pub enum JwtAuthenticationError {
    ExpiredToken,
    InvalidToken,
    MissingToken,
    Unauthorized,
}

/// A request guard holding the claims of a validated token.
#[derive(Debug)]
pub struct JwtAuthentication(pub Claims);

// ---------------------------------------------------------------------------
// The outside calls: base64url and HMAC-SHA256
// ---------------------------------------------------------------------------

/// What base64url encoding (no padding) makes of a byte string.
pub uninterp spec fn b64u_of(b: Seq<u8>) -> Seq<u8>;

/// What strict base64url decoding (no padding, no stray trailing bits) makes
/// of a byte string, where it succeeds.
pub uninterp spec fn b64u_dec(s: Seq<u8>) -> Option<Seq<u8>>;

/// The signature part a token gets for a signing input and a key: the
/// base64url encoding of the HMAC-SHA256 tag of `message` under `key`.
pub uninterp spec fn hs256_tag_of(message: Seq<u8>, key: Seq<u8>) -> Seq<u8>;

/// Relies on base64's `URL_SAFE_NO_PAD` engine: the encoding is a function
/// of the bytes alone, drawn from the URL-safe alphabet (letters, digits,
/// `-` and `_`, all ASCII and none a dot), and the same engine's strict
/// decoding gives the bytes back.
#[verifier::external_body]
fn b64u_encode(b: &[u8]) -> (r: Vec<u8>)
    ensures
        r@ == b64u_of(b@),
        b64u_dec(r@) == Some(b@),
        forall|k: int| 0 <= k < r@.len() ==> r@[k] != DOT && r@[k] < 128,
{
    base64::Engine::encode(&base64::engine::general_purpose::URL_SAFE_NO_PAD, b).into_bytes()
}

/// Relies on base64's `URL_SAFE_NO_PAD` engine: strict decoding (no padding
/// allowed, no stray trailing bits) is a function of the input alone.
#[verifier::external_body]
fn b64u_decode(s: &[u8]) -> (r: Option<Vec<u8>>)
    ensures
        match r {
            Some(v) => b64u_dec(s@) == Some(v@),
            None => b64u_dec(s@) is None,
        },
{
    match base64::Engine::decode(&base64::engine::general_purpose::URL_SAFE_NO_PAD, s) {
        Ok(v) => Some(v),
        Err(_) => None,
    }
}

/// Relies on `jsonwebtoken::crypto::sign` with `Algorithm::HS256`: it
/// returns the base64url encoding of the HMAC-SHA256 tag, a function of
/// message and key alone, drawn from the URL-safe alphabet (ASCII, no dot);
/// for an HMAC algorithm the call cannot fail.
#[verifier::external_body]
fn hs256_sign(message: &[u8], key: &[u8]) -> (r: Vec<u8>)
    ensures
        r@ == hs256_tag_of(message@, key@),
        forall|k: int| 0 <= k < r@.len() ==> r@[k] != DOT && r@[k] < 128,
{
    let key = jsonwebtoken::EncodingKey::from_secret(key);
    match jsonwebtoken::crypto::sign(message, &key, jsonwebtoken::Algorithm::HS256) {
        Ok(s) => s.into_bytes(),
        Err(_) => Vec::new(),
    }
}

/// Relies on `jsonwebtoken::crypto::verify` with `Algorithm::HS256`: it
/// re-signs the message under the key and compares the base64 signature
/// strings in constant time, so it returns exactly whether `sig` is the
/// signature of `message` under `key`; a `sig` that is not UTF-8 is no such
/// signature, since signatures are ASCII.
#[verifier::external_body]
fn hs256_verify(sig: &[u8], message: &[u8], key: &[u8]) -> (r: bool)
    ensures
        r == (sig@ == hs256_tag_of(message@, key@)),
{
    let sig = match std::str::from_utf8(sig) {
        Ok(s) => s,
        Err(_) => {
            return false;
        },
    };
    let key = jsonwebtoken::DecodingKey::from_secret(key);
    jsonwebtoken::crypto::verify(sig, message, &key, jsonwebtoken::Algorithm::HS256).unwrap_or(
        false,
    )
}

/// Relies on `String::from_utf8`: it succeeds exactly on valid UTF-8 and
/// returns the string whose bytes are the input.
#[verifier::external_body]
fn bytes_to_string(v: Vec<u8>) -> (r: Option<String>)
    ensures
        match r {
            Some(s) => encode_utf8(s@) == v@ && valid_utf8(v@),
            None => !valid_utf8(v@),
        },
{
    match String::from_utf8(v) {
        Ok(s) => Some(s),
        Err(_) => None,
    }
}

// ---------------------------------------------------------------------------
// The token, written and read
// ---------------------------------------------------------------------------

/// The bytes of the fixed header `{"typ":"JWT","alg":"HS256"}`.
pub open spec fn header_json() -> Seq<u8> {
    seq![
        123u8, 34u8, 116u8, 121u8, 112u8, 34u8, 58u8, 34u8, 74u8, 87u8, 84u8, 34u8, 44u8, 34u8,
        97u8, 108u8, 103u8, 34u8, 58u8, 34u8, 72u8, 83u8, 50u8, 53u8, 54u8, 34u8, 125u8,
    ]
}

fn header_bytes() -> (v: Vec<u8>)
    ensures
        v@ == header_json(),
{
    let v = vec![
        123u8, 34u8, 116u8, 121u8, 112u8, 34u8, 58u8, 34u8, 74u8, 87u8, 84u8, 34u8, 44u8, 34u8,
        97u8, 108u8, 103u8, 34u8, 58u8, 34u8, 72u8, 83u8, 50u8, 53u8, 54u8, 34u8, 125u8,
    ];
    proof {
        assert(v@ =~= header_json());
    }
    v
}

/// The canonical payload bytes of a claims value.
pub open spec fn spec_payload(c: ClaimsModel) -> Seq<u8> {
    claims_json(encode_utf8(c.sub), c.exp, c.roles)
}

/// The signing input of a token: encoded header, dot, encoded payload.
pub open spec fn spec_message(c: ClaimsModel) -> Seq<u8> {
    b64u_of(header_json()) + seq![DOT] + b64u_of(spec_payload(c))
}

/// The bytes of the one token this codec writes for a claims value under a
/// key: the signing input, a dot, and its signature.
pub open spec fn spec_token_bytes(c: ClaimsModel, key: Seq<u8>) -> Seq<u8> {
    spec_message(c) + seq![DOT] + hs256_tag_of(spec_message(c), key)
}

/// The position of the first dot at or after `i`, or the length if none.
pub open spec fn spec_find_dot(s: Seq<u8>, i: int) -> int
    decreases s.len() - i,
{
    if i < 0 || i >= s.len() {
        s.len() as int
    } else if s[i] == DOT {
        i
    } else {
        spec_find_dot(s, i + 1)
    }
}

/// What decoding token bytes under a key at a verification time yields:
/// the claims, or `ExpiredToken` exactly when everything else is in order
/// but the expiry is not after `now`, or `InvalidToken` for any other
/// failure. The shape must be exactly three dot-separated parts; the header
/// must be the one this codec writes; the signature must match the signing
/// input; the payload must read back as claims whose subject is UTF-8.
pub open spec fn spec_decode(t: Seq<u8>, key: Seq<u8>, now: int) -> Result<
    ClaimsModel,
    JwtAuthenticationError,
> {
    let d1 = spec_find_dot(t, 0);
    let d2 = spec_find_dot(t, d1 + 1);
    if d1 == t.len() || d2 == t.len() || spec_find_dot(t, d2 + 1) != t.len() {
        Err(JwtAuthenticationError::InvalidToken)
    } else if t.subrange(0, d1) != b64u_of(header_json()) {
        Err(JwtAuthenticationError::InvalidToken)
    } else if t.subrange(d2 + 1, t.len() as int) != hs256_tag_of(t.subrange(0, d2), key) {
        Err(JwtAuthenticationError::InvalidToken)
    } else {
        match b64u_dec(t.subrange(d1 + 1, d2)) {
            None => Err(JwtAuthenticationError::InvalidToken),
            Some(pb) => match sp_claims(pb) {
                None => Err(JwtAuthenticationError::InvalidToken),
                Some((sub_bytes, exp, roles)) => {
                    if !valid_utf8(sub_bytes) {
                        Err(JwtAuthenticationError::InvalidToken)
                    } else if exp <= now {
                        Err(JwtAuthenticationError::ExpiredToken)
                    } else {
                        Ok(ClaimsModel { sub: decode_utf8(sub_bytes), exp, roles })
                    }
                },
            },
        }
    }
}


/// A string of ASCII bytes is valid UTF-8.
proof fn lemma_ascii_valid_utf8(b: Seq<u8>)
    requires
        forall|k: int| 0 <= k < b.len() ==> b[k] < 128,
    ensures
        valid_utf8(b),
    decreases b.len(),
{
    if b.len() != 0 {
        assert(vstd::utf8::is_leading_byte_width_1(b[0]));
        assert(vstd::utf8::valid_first_scalar(b));
        assert(vstd::utf8::length_of_first_scalar(b) == 1);
        assert(vstd::utf8::pop_first_scalar(b) =~= b.skip(1));
        assert forall|k: int| 0 <= k < b.skip(1).len() implies b.skip(1)[k] < 128 by {
            assert(b.skip(1)[k] == b[k + 1]);
        }
        lemma_ascii_valid_utf8(b.skip(1));
    }
}

fn push_all(out: &mut Vec<u8>, s: &[u8])
    ensures
        final(out)@ == old(out)@ + s@,
{
    let mut i: usize = 0;
    while i < s.len()
        invariant
            i <= s.len(),
            out@ == old(out)@ + s@.subrange(0, i as int),
        decreases s.len() - i,
    {
        out.push(s[i]);
        proof {
            assert(s@.subrange(0, i + 1) =~= s@.subrange(0, i as int) + seq![s@[i as int]]);
            assert(out@ =~= old(out)@ + s@.subrange(0, i + 1));
        }
        i += 1;
    }
    proof {
        assert(s@.subrange(0, s@.len() as int) =~= s@);
    }
}

fn find_dot(s: &[u8], i: usize) -> (r: usize)
    requires
        i <= s@.len(),
    ensures
        r as int == spec_find_dot(s@, i as int),
        i <= r <= s@.len(),
{
    let mut j: usize = i;
    while j < s.len() && s[j] != DOT
        invariant
            i <= j <= s@.len(),
            spec_find_dot(s@, i as int) == spec_find_dot(s@, j as int),
        decreases s@.len() - j,
    {
        j += 1;
    }
    j
}

proof fn lemma_find_dot_run(s: Seq<u8>, i: int, e: int)
    requires
        0 <= i <= e <= s.len(),
        forall|k: int| i <= k < e ==> s[k] != DOT,
        e == s.len() || s[e] == DOT,
    ensures
        spec_find_dot(s, i) == e,
    decreases e - i,
{
    if i < e {
        lemma_find_dot_run(s, i + 1, e);
    }
}

/// What decoding the token written for `c` under `key` yields at each
/// verification time: the claims themselves before the expiry, `ExpiredToken`
/// from the expiry on.
///
/// The hypotheses are exactly what the base64 and signing wrappers ensure of
/// every call: encoded parts and signatures are dot-free, and strict decoding
/// undoes encoding.
#[verifier::rlimit(60)]
pub proof fn lemma_decode_of_token(c: ClaimsModel, key: Seq<u8>)
    requires
        0 <= c.exp <= 0xFFFF_FFFF_FFFF_FFFF,
        forall|k: int|
            0 <= k < b64u_of(header_json()).len() ==> b64u_of(header_json())[k] != DOT,
        forall|k: int|
            0 <= k < b64u_of(spec_payload(c)).len() ==> b64u_of(spec_payload(c))[k] != DOT,
        forall|k: int|
            0 <= k < hs256_tag_of(spec_message(c), key).len() ==> hs256_tag_of(
                spec_message(c),
                key,
            )[k] != DOT,
        b64u_dec(b64u_of(spec_payload(c))) == Some(spec_payload(c)),
    ensures
        forall|now: int|
            spec_decode(spec_token_bytes(c, key), key, now) == (if now < c.exp {
                Ok::<ClaimsModel, JwtAuthenticationError>(c)
            } else {
                Err::<ClaimsModel, JwtAuthenticationError>(JwtAuthenticationError::ExpiredToken)
            }),
{
    let t = spec_token_bytes(c, key);
    let hb = b64u_of(header_json());
    let pb = b64u_of(spec_payload(c));
    let m = spec_message(c);
    let tag = hs256_tag_of(m, key);
    let d1 = hb.len() as int;
    let d2 = d1 + 1 + pb.len() as int;
    assert(m == hb + seq![DOT] + pb);
    assert(t == m + seq![DOT] + tag);
    assert(m.len() == d2);
    assert(t.len() == d2 + 1 + tag.len());
    assert(at(t, 0, t)) by {
        assert(t.subrange(0, t.len() as int) =~= t);
    }
    lemma_at_concat(t, 0, m + seq![DOT], tag);
    lemma_at_concat(t, 0, m, seq![DOT]);
    lemma_at_index(t, d2, seq![DOT], 0);
    lemma_at_concat(t, 0, hb + seq![DOT], pb);
    lemma_at_concat(t, 0, hb, seq![DOT]);
    lemma_at_index(t, d1, seq![DOT], 0);
    assert(t[d1] == DOT && t[d2] == DOT);
    assert(spec_find_dot(t, 0) == d1) by {
        assert forall|k: int| 0 <= k < d1 implies t[k] != DOT by {
            lemma_at_index(t, 0, hb, k);
        }
        lemma_find_dot_run(t, 0, d1);
    }
    assert(spec_find_dot(t, d1 + 1) == d2) by {
        assert forall|k: int| d1 + 1 <= k < d2 implies t[k] != DOT by {
            lemma_at_index(t, d1 + 1, pb, k - (d1 + 1));
        }
        lemma_find_dot_run(t, d1 + 1, d2);
    }
    assert(spec_find_dot(t, d2 + 1) == t.len()) by {
        assert forall|k: int| d2 + 1 <= k < t.len() implies t[k] != DOT by {
            lemma_at_index(t, d2 + 1, tag, k - (d2 + 1));
        }
        lemma_find_dot_run(t, d2 + 1, t.len() as int);
    }
    assert(t.subrange(0, d1) == hb);
    assert(t.subrange(d1 + 1, d2) == pb);
    assert(t.subrange(d2 + 1, t.len() as int) == tag);
    assert(t.subrange(0, d2) == m);
    crate::json::lemma_claims_round_trip(encode_utf8(c.sub), c.exp, c.roles);
    assert(sp_claims(spec_payload(c)) == Some((encode_utf8(c.sub), c.exp, c.roles)));
    vstd::utf8::encode_utf8_valid_utf8(c.sub);
    vstd::utf8::encode_utf8_decode_utf8(c.sub);
    assert forall|now: int|
        spec_decode(t, key, now) == (if now < c.exp {
            Ok::<ClaimsModel, JwtAuthenticationError>(c)
        } else {
            Err::<ClaimsModel, JwtAuthenticationError>(JwtAuthenticationError::ExpiredToken)
        }) by {
        if now < c.exp {
            assert(ClaimsModel { sub: decode_utf8(encode_utf8(c.sub)), exp: c.exp, roles: c.roles }
                =~= c);
        }
    }
}

/// Writes the one token of a claims value under a secret: deterministic in
/// both, and a token that decodes back to exactly those claims at any
/// verification time before the expiry, and to `ExpiredToken` from the
/// expiry on.
pub fn encode_token(claims: &Claims, secret: &str) -> (r: String)
    ensures
        encode_utf8(r@) == spec_token_bytes(claims@, encode_utf8(secret@)),
        forall|now: int|
            spec_decode(spec_token_bytes(claims@, encode_utf8(secret@)), encode_utf8(secret@), now)
                == (if now < claims@.exp {
                Ok::<ClaimsModel, JwtAuthenticationError>(claims@)
            } else {
                Err::<ClaimsModel, JwtAuthenticationError>(JwtAuthenticationError::ExpiredToken)
            }),
{
    let ghost key = encode_utf8(secret@);
    let payload = claims_payload(claims.sub.as_str(), claims.exp, &claims.roles);
    proof {
        assert(payload@ == spec_payload(claims@));
    }
    let penc = b64u_encode(payload.as_slice());
    let hv = header_bytes();
    let henc = b64u_encode(hv.as_slice());
    let mut msg: Vec<u8> = Vec::new();
    push_all(&mut msg, henc.as_slice());
    msg.push(DOT);
    push_all(&mut msg, penc.as_slice());
    proof {
        assert(msg@ =~= henc@ + seq![DOT] + penc@);
        assert(msg@ == spec_message(claims@));
    }
    let tag = hs256_sign(msg.as_slice(), secret.as_bytes());
    let ghost msgv = msg@;
    let mut token_bytes = msg;
    token_bytes.push(DOT);
    push_all(&mut token_bytes, tag.as_slice());
    proof {
        assert(token_bytes@ =~= msgv + seq![DOT] + tag@);
        assert(token_bytes@ == spec_token_bytes(claims@, key));
        assert forall|k: int| 0 <= k < token_bytes@.len() implies token_bytes@[k] < 128 by {
            if k < msgv.len() {
                assert(token_bytes@[k] == msgv[k]);
                if k < henc@.len() {
                    assert(msgv[k] == henc@[k]);
                } else if k == henc@.len() {
                    assert(msgv[k] == DOT);
                } else {
                    assert(msgv[k] == penc@[k - henc@.len() - 1]);
                }
            } else if k == msgv.len() {
                assert(token_bytes@[k] == DOT);
            } else {
                assert(token_bytes@[k] == tag@[k - msgv.len() - 1]);
            }
        }
        lemma_ascii_valid_utf8(token_bytes@);
        lemma_decode_of_token(claims@, key);
    }
    match bytes_to_string(token_bytes) {
        Some(s) => s,
        None => {
            proof {
                assert(false);
            }
            String::new()
        },
    }
}

/// Reads a token back under a secret, at the verification time `now` its
/// caller supplies: the claims it was written with, or `ExpiredToken` once
/// `now` has reached their expiry, or `InvalidToken` for any signature
/// mismatch, malformed part, or unsupported header.
pub fn decode_token(token: &str, secret: &str, now: u64) -> (r: Result<
    Claims,
    JwtAuthenticationError,
>)
    ensures
        match r {
            Ok(c) => spec_decode(encode_utf8(token@), encode_utf8(secret@), now as int)
                == Ok::<ClaimsModel, JwtAuthenticationError>(c@),
            Err(e) => spec_decode(encode_utf8(token@), encode_utf8(secret@), now as int)
                == Err::<ClaimsModel, JwtAuthenticationError>(e),
        },
{
    let tb = token.as_bytes();
    let n = tb.len();
    let d1 = find_dot(tb, 0);
    if d1 == n {
        return Err(JwtAuthenticationError::InvalidToken);
    }
    let d2 = find_dot(tb, d1 + 1);
    if d2 == n {
        return Err(JwtAuthenticationError::InvalidToken);
    }
    let d3 = find_dot(tb, d2 + 1);
    if d3 != n {
        return Err(JwtAuthenticationError::InvalidToken);
    }
    let h = vstd::slice::slice_subrange(tb, 0, d1);
    let p = vstd::slice::slice_subrange(tb, d1 + 1, d2);
    let sig = vstd::slice::slice_subrange(tb, d2 + 1, n);
    let msg = vstd::slice::slice_subrange(tb, 0, d2);
    let hv = header_bytes();
    let henc = b64u_encode(hv.as_slice());
    if !crate::json::bytes_eq(h, henc.as_slice()) {
        return Err(JwtAuthenticationError::InvalidToken);
    }
    if !hs256_verify(sig, msg, secret.as_bytes()) {
        return Err(JwtAuthenticationError::InvalidToken);
    }
    let pb = match b64u_decode(p) {
        None => {
            return Err(JwtAuthenticationError::InvalidToken);
        },
        Some(v) => v,
    };
    let parsed = match parse_claims(pb.as_slice()) {
        None => {
            return Err(JwtAuthenticationError::InvalidToken);
        },
        Some(tr) => tr,
    };
    let sub_bytes = parsed.0;
    let exp = parsed.1;
    let roles = parsed.2;
    let ghost sb = sub_bytes@;
    let sub = match bytes_to_string(sub_bytes) {
        None => {
            return Err(JwtAuthenticationError::InvalidToken);
        },
        Some(sv) => sv,
    };
    if exp <= now {
        return Err(JwtAuthenticationError::ExpiredToken);
    }
    proof {
        vstd::utf8::encode_utf8_decode_utf8(sub@);
        assert(decode_utf8(sb) == sub@);
    }
    Ok(Claims { sub, exp, roles })
}

/// Reads a bearer token under the configured secret at verification time
/// `now`, yielding its claims or the typed failure of `spec_decode`.
pub fn validate_jwt(token: &str, settings: &JwtSettings, now: u64) -> (r: Result<
    Claims,
    JwtAuthenticationError,
>)
    ensures
        match r {
            Ok(c) => spec_decode(encode_utf8(token@), encode_utf8(settings.secret@), now as int)
                == Ok::<ClaimsModel, JwtAuthenticationError>(c@),
            Err(e) => spec_decode(encode_utf8(token@), encode_utf8(settings.secret@), now as int)
                == Err::<ClaimsModel, JwtAuthenticationError>(e),
        },
{
    decode_token(token, settings.secret.as_str(), now)
}

} // verus!
