use api::jwt::{decode_token, encode_token, Claims, JwtAuthenticationError};
use api::roles::Role;

fn sample_claims() -> Claims {
    Claims {
        sub: String::from("user-42"),
        exp: 1_700_000_000,
        roles: vec![Role::User, Role::Admin],
    }
}

#[test]
fn decode_of_encode_gives_the_claims_back() {
    let claims = sample_claims();
    let token = encode_token(&claims, "a shared secret");
    let decoded = decode_token(&token, "a shared secret", 1_699_999_999).unwrap();
    assert_eq!(decoded.sub, "user-42");
    assert_eq!(decoded.exp, 1_700_000_000);
    assert_eq!(decoded.roles, vec![Role::User, Role::Admin]);
}

#[test]
fn encoding_is_deterministic() {
    let first = encode_token(&sample_claims(), "a shared secret");
    let second = encode_token(&sample_claims(), "a shared secret");
    assert_eq!(first, second);
}

#[test]
fn decode_at_or_after_expiry_is_expired() {
    let claims = sample_claims();
    let token = encode_token(&claims, "a shared secret");
    assert_eq!(
        decode_token(&token, "a shared secret", 1_700_000_000).unwrap_err(),
        JwtAuthenticationError::ExpiredToken
    );
    assert_eq!(
        decode_token(&token, "a shared secret", 2_000_000_000).unwrap_err(),
        JwtAuthenticationError::ExpiredToken
    );
    assert!(decode_token(&token, "a shared secret", 1_699_999_999).is_ok());
}

#[test]
fn decode_with_another_secret_is_invalid() {
    let token = encode_token(&sample_claims(), "a shared secret");
    assert_eq!(
        decode_token(&token, "another secret", 1_600_000_000).unwrap_err(),
        JwtAuthenticationError::InvalidToken
    );
    assert_eq!(
        decode_token(&token, "", 1_600_000_000).unwrap_err(),
        JwtAuthenticationError::InvalidToken
    );
}

#[test]
fn flipping_any_byte_invalidates_the_token() {
    let token = encode_token(&sample_claims(), "a shared secret");
    let bytes = token.as_bytes();
    for i in 0..bytes.len() {
        let mut mutated = bytes.to_vec();
        mutated[i] ^= 1;
        let mutated = String::from_utf8(mutated).unwrap();
        assert_eq!(
            decode_token(&mutated, "a shared secret", 1_600_000_000).unwrap_err(),
            JwtAuthenticationError::InvalidToken,
            "byte {} survived a flip",
            i
        );
    }
}

#[test]
fn garbage_tokens_are_invalid() {
    for garbage in [
        "",
        ".",
        "..",
        "...",
        "only one part",
        "two.parts",
        "a.b.c",
        "!!!.???.///",
        "eyJhbGciOiJIUzI1NiJ9..",
    ] {
        assert_eq!(
            decode_token(garbage, "a shared secret", 1_600_000_000).unwrap_err(),
            JwtAuthenticationError::InvalidToken
        );
    }
}

#[test]
fn empty_roles_and_awkward_subjects_round_trip() {
    let claims = Claims {
        sub: String::from("quote \" backslash \\ slash / tab \t newline \n nul \u{0} accents é中"),
        exp: 10,
        roles: vec![],
    };
    let token = encode_token(&claims, "secret");
    let decoded = decode_token(&token, "secret", 9).unwrap();
    assert_eq!(decoded.sub, claims.sub);
    assert_eq!(decoded.exp, 10);
    assert_eq!(decoded.roles, vec![]);
}

#[test]
fn duplicate_roles_and_extreme_expiry_round_trip() {
    let claims = Claims {
        sub: String::new(),
        exp: u64::MAX,
        roles: vec![Role::Guest, Role::Guest, Role::User],
    };
    let token = encode_token(&claims, "secret");
    let decoded = decode_token(&token, "secret", u64::MAX - 1).unwrap();
    assert_eq!(decoded.sub, "");
    assert_eq!(decoded.exp, u64::MAX);
    assert_eq!(decoded.roles, vec![Role::Guest, Role::Guest, Role::User]);
}

#[test]
fn jsonwebtoken_accepts_our_tokens() {
    // jsonwebtoken checks expiry against the real clock, so this expiry
    // must lie in the actual future
    let claims = Claims {
        sub: String::from("user-42"),
        exp: 4_000_000_000,
        roles: vec![Role::User, Role::Admin],
    };
    let token = encode_token(&claims, "a shared secret");
    let data = jsonwebtoken::decode::<serde_json::Value>(
        &token,
        &jsonwebtoken::DecodingKey::from_secret(b"a shared secret"),
        &jsonwebtoken::Validation::default(),
    )
    .unwrap();
    assert_eq!(data.claims.get("sub").unwrap().as_str().unwrap(), "user-42");
    assert_eq!(data.claims.get("exp").unwrap().as_u64().unwrap(), 4_000_000_000);
    let roles: Vec<String> = data
        .claims
        .get("roles")
        .unwrap()
        .as_array()
        .unwrap()
        .iter()
        .map(|v| v.as_str().unwrap().to_string())
        .collect();
    assert_eq!(roles, vec!["User".to_string(), "Admin".to_string()]);
}

#[test]
fn we_accept_jsonwebtoken_tokens_and_ignore_unknown_fields() {
    let mut payload = serde_json::Map::new();
    payload.insert(
        String::from("sub"),
        serde_json::Value::String(String::from("someone else")),
    );
    payload.insert(String::from("exp"), serde_json::Value::from(1_800_000_000u64));
    payload.insert(
        String::from("roles"),
        serde_json::Value::Array(vec![serde_json::Value::String(String::from("Guest"))]),
    );
    payload.insert(String::from("iss"), serde_json::Value::String(String::from("tests")));
    payload.insert(String::from("nbf"), serde_json::Value::from(12u64));
    payload.insert(String::from("flag"), serde_json::Value::Bool(true));
    payload.insert(String::from("aux"), serde_json::Value::Null);
    let mut nested = serde_json::Map::new();
    nested.insert(
        String::from("deep"),
        serde_json::Value::Array(vec![serde_json::Value::from(-1.5f64)]),
    );
    payload.insert(String::from("meta"), serde_json::Value::Object(nested));
    let token = jsonwebtoken::encode(
        &jsonwebtoken::Header::default(),
        &serde_json::Value::Object(payload),
        &jsonwebtoken::EncodingKey::from_secret(b"a shared secret"),
    )
    .unwrap();
    let decoded = decode_token(&token, "a shared secret", 1_700_000_000).unwrap();
    assert_eq!(decoded.sub, "someone else");
    assert_eq!(decoded.exp, 1_800_000_000);
    assert_eq!(decoded.roles, vec![Role::Guest]);
}

#[test]
fn unknown_role_names_fail_closed() {
    let mut payload = serde_json::Map::new();
    payload.insert(String::from("sub"), serde_json::Value::String(String::from("s")));
    payload.insert(String::from("exp"), serde_json::Value::from(1_800_000_000u64));
    payload.insert(
        String::from("roles"),
        serde_json::Value::Array(vec![serde_json::Value::String(String::from("Root"))]),
    );
    let token = jsonwebtoken::encode(
        &jsonwebtoken::Header::default(),
        &serde_json::Value::Object(payload),
        &jsonwebtoken::EncodingKey::from_secret(b"a shared secret"),
    )
    .unwrap();
    assert_eq!(
        decode_token(&token, "a shared secret", 1_700_000_000).unwrap_err(),
        JwtAuthenticationError::InvalidToken
    );
}

#[test]
fn missing_fields_fail_closed() {
    let mut payload = serde_json::Map::new();
    payload.insert(String::from("sub"), serde_json::Value::String(String::from("s")));
    payload.insert(String::from("exp"), serde_json::Value::from(1_800_000_000u64));
    let token = jsonwebtoken::encode(
        &jsonwebtoken::Header::default(),
        &serde_json::Value::Object(payload),
        &jsonwebtoken::EncodingKey::from_secret(b"a shared secret"),
    )
    .unwrap();
    assert_eq!(
        decode_token(&token, "a shared secret", 1_700_000_000).unwrap_err(),
        JwtAuthenticationError::InvalidToken
    );
}
