use auth_core::auth_options::AuthOptions;
use auth_core::auth_service::{AuthHandlerExtensions, AuthService, PrincipalHandler, TokenOptions};
use auth_core::errors::Error;
use auth_core::jwt_claims::TokenPurpose;
use std::sync::Arc;

fn service(secret: &str) -> AuthService {
    AuthService::new(AuthOptions::new(String::from(secret), 3600, 7200))
}

#[test]
fn round_trip_access_token() {
    let svc = service("a-signing-secret");
    let token = svc
        .generate_token(TokenOptions::new(String::from("alice"), TokenPurpose::Access))
        .unwrap();
    let claims = svc.decode_token(token.value.as_str(), TokenPurpose::Access).unwrap();
    assert_eq!(claims.sub, "alice");
    assert_eq!(claims.purpose, "Access");
    assert_eq!(claims.id, token.id);
    assert!(claims.nbf <= claims.iat);
    assert!(claims.iat < claims.exp);
}

#[test]
fn round_trip_refresh_token() {
    let svc = service("a-signing-secret");
    let token = svc
        .generate_token(TokenOptions::new(String::from("bob"), TokenPurpose::Refresh))
        .unwrap();
    let claims = svc.decode_token(token.value.as_str(), TokenPurpose::Refresh).unwrap();
    assert_eq!(claims.sub, "bob");
    assert_eq!(claims.purpose, "Refresh");
}

#[test]
fn round_trip_subject_with_escapes() {
    let svc = service("a-signing-secret");
    let subject = String::from("al\"ice\\with\nodd chars");
    let token = svc
        .generate_token(TokenOptions::new(subject.clone(), TokenPurpose::Access))
        .unwrap();
    let claims = svc.decode_token(token.value.as_str(), TokenPurpose::Access).unwrap();
    assert_eq!(claims.sub, subject);
}

#[test]
fn control_characters_are_escaped_on_the_wire() {
    let svc = service("a-signing-secret");
    let subject = String::from("line1\nline2\ttab");
    let token = svc
        .generate_token(TokenOptions::new(subject.clone(), TokenPurpose::Access))
        .unwrap();
    let payload_b64 = token.value.split('.').nth(1).unwrap();
    let payload_bytes = base64::Engine::decode(
        &base64::prelude::BASE64_URL_SAFE_NO_PAD,
        payload_b64.as_bytes(),
    )
    .unwrap();
    let payload = String::from_utf8(payload_bytes).unwrap();
    let value: serde_json::Value = serde_json::from_str(payload.as_str()).unwrap();
    assert_eq!(value["sub"], serde_json::Value::String(subject.clone()));
    let claims = svc.decode_token(token.value.as_str(), TokenPurpose::Access).unwrap();
    assert_eq!(claims.sub, subject);
}

#[test]
fn purpose_binding_is_enforced() {
    let svc = service("a-signing-secret");
    let token = svc
        .generate_token(TokenOptions::new(String::from("alice"), TokenPurpose::Access))
        .unwrap();
    let refused = svc.decode_token(token.value.as_str(), TokenPurpose::Refresh);
    assert!(matches!(refused, Err(Error::AuthenticationFailure(_))));
}

#[test]
fn custom_purpose_binding() {
    let svc = service("a-signing-secret");
    let purpose = TokenPurpose::new(String::from("email-verification"), 60);
    let token = svc
        .generate_token(TokenOptions::new(String::from("carol"), purpose.clone()))
        .unwrap();
    let claims = svc.decode_token(token.value.as_str(), purpose).unwrap();
    assert_eq!(claims.purpose, "email-verification");
    let refused = svc.decode_token(token.value.as_str(), TokenPurpose::Access);
    assert!(matches!(refused, Err(Error::AuthenticationFailure(_))));
}

#[test]
fn expiry_is_enforced() {
    let svc = AuthService::new(AuthOptions::new(String::from("a-signing-secret"), 1, 1));
    let now: u64 = 1_700_000_000;
    let options = TokenOptions::new(String::from("alice"), TokenPurpose::Access);
    let token = svc.generate_token_at(options, String::from("id-1"), now).unwrap();
    let fresh = svc.decode_token_at(token.value.as_str(), &TokenPurpose::Access, now).unwrap();
    assert_eq!(fresh.exp, fresh.iat + 1);
    let stale = svc.decode_token_at(token.value.as_str(), &TokenPurpose::Access, now + 2);
    assert!(matches!(stale, Err(Error::AuthenticationFailure(_))));
}

#[test]
fn not_before_is_enforced() {
    let svc = service("a-signing-secret");
    let now: u64 = 1_700_000_000;
    let options = TokenOptions::new(String::from("alice"), TokenPurpose::Access);
    let token = svc.generate_token_at(options, String::from("id-2"), now).unwrap();
    let early = svc.decode_token_at(token.value.as_str(), &TokenPurpose::Access, now - 1);
    assert!(matches!(early, Err(Error::AuthenticationFailure(_))));
}

#[test]
fn tampering_with_any_signature_character_is_detected() {
    let svc = service("a-signing-secret");
    let now: u64 = 1_700_000_000;
    let options = TokenOptions::new(String::from("alice"), TokenPurpose::Access);
    let token = svc.generate_token_at(options, String::from("id-3"), now).unwrap();
    let value = token.value;
    let sig_start = value.rfind('.').unwrap() + 1;
    for i in sig_start..value.len() {
        let mut bytes: Vec<u8> = value.bytes().collect();
        bytes[i] = if bytes[i] == b'A' { b'B' } else { b'A' };
        let mutated = String::from_utf8(bytes).unwrap();
        if mutated == value {
            continue;
        }
        let refused = svc.decode_token_at(mutated.as_str(), &TokenPurpose::Access, now);
        assert!(matches!(refused, Err(Error::AuthenticationFailure(_))));
    }
}

#[test]
fn wrong_secret_is_rejected() {
    let svc = service("a-signing-secret");
    let other = service("another-secret");
    let token = svc
        .generate_token(TokenOptions::new(String::from("alice"), TokenPurpose::Access))
        .unwrap();
    let refused = other.decode_token(token.value.as_str(), TokenPurpose::Access);
    assert!(matches!(refused, Err(Error::AuthenticationFailure(_))));
}

#[test]
fn garbage_tokens_are_rejected() {
    let svc = service("a-signing-secret");
    for garbage in ["", "x", "a.b", "a.b.c.d", "!!.!!.!!"] {
        let refused = svc.decode_token(garbage, TokenPurpose::Access);
        assert!(matches!(refused, Err(Error::AuthenticationFailure(_))));
    }
}

#[test]
fn audience_is_enforced() {
    let secret = "a-signing-secret";
    let svc_a = AuthService::new(
        AuthOptions::new(String::from(secret), 3600, 7200).with_audience(String::from("svc-a")),
    );
    let svc_b = AuthService::new(
        AuthOptions::new(String::from(secret), 3600, 7200).with_audience(String::from("svc-b")),
    );
    let svc_open = AuthService::new(AuthOptions::new(String::from(secret), 3600, 7200));
    let token = svc_a
        .generate_token(TokenOptions::new(String::from("alice"), TokenPurpose::Access))
        .unwrap();
    let same = svc_a.decode_token(token.value.as_str(), TokenPurpose::Access).unwrap();
    assert_eq!(same.aud, Some(String::from("svc-a")));
    assert_eq!(same.iss, Some(String::from("svc-a")));
    let refused = svc_b.decode_token(token.value.as_str(), TokenPurpose::Access);
    assert!(matches!(refused, Err(Error::AuthenticationFailure(_))));
    let open = svc_open.decode_token(token.value.as_str(), TokenPurpose::Access);
    assert!(open.is_ok());
}

#[test]
fn extension_payload_round_trips_and_is_flat() {
    let svc = service("a-signing-secret");
    let options = TokenOptions::new(String::from("alice"), TokenPurpose::Access)
        .with_additional_claims(vec![(String::from("role"), String::from("\"admin\""))])
        .unwrap();
    let token = svc.generate_token(options).unwrap();
    let claims = svc.decode_token(token.value.as_str(), TokenPurpose::Access).unwrap();
    assert_eq!(
        claims.additional_claims,
        vec![(String::from("role"), String::from("\"admin\""))]
    );

    let payload_b64 = token.value.split('.').nth(1).unwrap();
    let payload_bytes = base64::Engine::decode(
        &base64::prelude::BASE64_URL_SAFE_NO_PAD,
        payload_b64.as_bytes(),
    )
    .unwrap();
    let payload = String::from_utf8(payload_bytes).unwrap();
    assert!(payload.contains("\"role\":\"admin\""));
    assert!(payload.contains("\"sub\":\"alice\""));
    assert!(payload.contains("\"exp\":"));
    let value: serde_json::Value = serde_json::from_str(payload.as_str()).unwrap();
    assert_eq!(value["role"], serde_json::Value::String(String::from("admin")));
    assert_eq!(value["sub"], serde_json::Value::String(String::from("alice")));
}

#[test]
fn numeric_extension_values_round_trip() {
    let svc = service("a-signing-secret");
    let options = TokenOptions::new(String::from("alice"), TokenPurpose::Access)
        .with_additional_claims(vec![(String::from("level"), String::from("42"))])
        .unwrap();
    let token = svc.generate_token(options).unwrap();
    let claims = svc.decode_token(token.value.as_str(), TokenPurpose::Access).unwrap();
    assert_eq!(claims.additional_claims, vec![(String::from("level"), String::from("42"))]);
}

#[test]
fn structured_extension_values_round_trip() {
    let svc = service("a-signing-secret");
    let pairs = vec![
        (String::from("admin"), String::from("true")),
        (String::from("level"), String::from("-1")),
        (String::from("score"), String::from("3.5")),
        (String::from("note"), String::from("null")),
        (String::from("tags"), String::from("[1,\"two\",false]")),
        (String::from("meta"), String::from("{\"role\":\"admin\",\"depth\":[{}]}")),
    ];
    let options = TokenOptions::new(String::from("alice"), TokenPurpose::Access)
        .with_additional_claims(pairs.clone())
        .unwrap();
    let token = svc.generate_token(options).unwrap();
    let claims = svc.decode_token(token.value.as_str(), TokenPurpose::Access).unwrap();
    assert_eq!(claims.additional_claims, pairs);

    let payload_b64 = token.value.split('.').nth(1).unwrap();
    let payload_bytes = base64::Engine::decode(
        &base64::prelude::BASE64_URL_SAFE_NO_PAD,
        payload_b64.as_bytes(),
    )
    .unwrap();
    let payload = String::from_utf8(payload_bytes).unwrap();
    let value: serde_json::Value = serde_json::from_str(payload.as_str()).unwrap();
    assert_eq!(value["admin"], serde_json::Value::Bool(true));
    assert_eq!(value["level"], serde_json::from_str::<serde_json::Value>("-1").unwrap());
    assert_eq!(value["score"], serde_json::from_str::<serde_json::Value>("3.5").unwrap());
    assert_eq!(value["note"], serde_json::Value::Null);
    assert_eq!(
        value["tags"],
        serde_json::from_str::<serde_json::Value>("[1,\"two\",false]").unwrap()
    );
    assert_eq!(
        value["meta"]["depth"],
        serde_json::from_str::<serde_json::Value>("[{}]").unwrap()
    );
}

#[test]
fn malformed_json_extension_values_are_rejected() {
    for bad in ["", "not json", "1..2", "{\"a\":}", "[1,]", "tru", "\"unterminated", "2 ", "{}}"] {
        let refused = TokenOptions::new(String::from("alice"), TokenPurpose::Access)
            .with_additional_claims(vec![(String::from("x"), String::from(bad))]);
        assert!(matches!(refused, Err(Error::BadRequestError(_))), "accepted: {bad}");
    }
}

#[test]
fn colliding_extension_keys_are_rejected_at_issuance() {
    let options = TokenOptions::new(String::from("alice"), TokenPurpose::Access)
        .with_additional_claims(vec![(String::from("sub"), String::from("\"mallory\""))]);
    assert!(matches!(options, Err(Error::BadRequestError(_))));
}

#[test]
fn unrepresentable_extension_values_are_rejected_at_issuance() {
    let options = TokenOptions::new(String::from("alice"), TokenPurpose::Access)
        .with_additional_claims(vec![(String::from("role"), String::from("not json"))]);
    assert!(matches!(options, Err(Error::BadRequestError(_))));
}

#[test]
fn issued_tokens_verify_under_jsonwebtoken() {
    let svc = service("a-signing-secret");
    let token = svc
        .generate_token(TokenOptions::new(String::from("alice"), TokenPurpose::Access))
        .unwrap();
    let key = jsonwebtoken::DecodingKey::from_secret(b"a-signing-secret");
    let validation = jsonwebtoken::Validation::new(jsonwebtoken::Algorithm::HS512);
    let decoded = jsonwebtoken::decode::<serde_json::Value>(token.value.as_str(), &key, &validation)
        .unwrap();
    assert_eq!(
        decoded.claims["sub"],
        serde_json::Value::String(String::from("alice"))
    );
    assert_eq!(
        decoded.claims["purpose"],
        serde_json::Value::String(String::from("Access"))
    );
}

#[test]
fn token_identifiers_are_fresh() {
    let svc = service("a-signing-secret");
    let t1 = svc
        .generate_token(TokenOptions::new(String::from("alice"), TokenPurpose::Access))
        .unwrap();
    let t2 = svc
        .generate_token(TokenOptions::new(String::from("alice"), TokenPurpose::Access))
        .unwrap();
    assert_ne!(t1.id, t2.id);
    assert_ne!(t1.value, t2.value);
}

#[test]
fn paired_tokens_carry_both_purposes() {
    let svc = Arc::new(service("a-signing-secret"));
    let handler = PrincipalHandler { subject: String::from("user-7") };
    let tokens = handler.generate_tokens(svc.clone()).unwrap();
    let access = svc
        .decode_token(tokens.access_token.value.as_str(), TokenPurpose::Access)
        .unwrap();
    let refresh = svc
        .decode_token(tokens.refresh_token.value.as_str(), TokenPurpose::Refresh)
        .unwrap();
    assert_eq!(access.sub, "user-7");
    assert_eq!(refresh.sub, "user-7");
}
