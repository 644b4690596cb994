use auth_core::authenticated_user::AuthenticatedUser;
use auth_core::errors::Error;
use auth_core::google::evaluate_google_payload;
use auth_core::password_hasher::{
    hash_password, verify_password, PasswordHandler, PasswordHandlerExtensions, StoredCredential,
};
use auth_core::signatory::{derive_verifying_key, sign, verify};

#[test]
fn password_hash_verifies_against_its_password() {
    let hash = hash_password("correct horse battery staple").unwrap();
    assert!(hash.starts_with("$argon2"));
    let ok = verify_password(String::from("correct horse battery staple"), hash).unwrap();
    assert!(ok);
}

#[test]
fn password_hash_rejects_other_passwords() {
    let hash = hash_password("correct horse battery staple").unwrap();
    let ok = verify_password(String::from("incorrect horse"), hash).unwrap();
    assert!(!ok);
}

#[test]
fn password_hashes_use_fresh_salts() {
    let h1 = hash_password("correct horse battery staple").unwrap();
    let h2 = hash_password("correct horse battery staple").unwrap();
    assert_ne!(h1, h2);
    assert!(verify_password(String::from("correct horse battery staple"), h1).unwrap());
    assert!(verify_password(String::from("correct horse battery staple"), h2).unwrap());
}

#[test]
fn malformed_stored_hash_is_an_error_not_a_mismatch() {
    let result = verify_password(String::from("anything"), String::from("not-a-phc-string"));
    assert!(matches!(result, Err(Error::SomethingWentWrong(_))));
}

#[test]
fn stored_credential_update_and_validate() {
    let mut record = StoredCredential::new(String::new());
    record.update_password("hunter2hunter2").unwrap();
    assert!(record.get_password_hash().starts_with("$argon2"));
    assert!(record.validate_password(String::from("hunter2hunter2")).unwrap());
    assert!(!record.validate_password(String::from("hunter3hunter3")).unwrap());
}

// Key material from the Ed25519 specification's first test vector.
const SK_HEX: &str = "9d61b19deffd5a60ba844af492ec2cc44449c5697b326919703bac031cae7f60";
const PK_HEX: &str = "d75a980182b10ab7d54bfed3c964073a0ee172f3daa62325af021a68f707511a";

#[test]
fn signature_round_trip() {
    let message = "attack at dawn";
    let signature = sign(SK_HEX, message).unwrap();
    assert_eq!(signature.len(), 128);
    assert!(verify(PK_HEX, message, signature.as_str()).is_ok());
}

#[test]
fn derived_verifying_key_matches_known_pair() {
    let derived = derive_verifying_key(SK_HEX).unwrap();
    assert_eq!(derived.to_lowercase(), PK_HEX);
}

#[test]
fn empty_message_signature_matches_reference_vector() {
    let signature = sign(SK_HEX, "").unwrap();
    let expected = "e5564300c360ac729086e2cc806e828a84877f1eb8e5d974d873e06522490155\
5fb8821590a33bacc61e39701cf9b46bd25bf5f0595bbe24655141438e7a100b";
    assert_eq!(signature.to_lowercase(), expected);
    assert!(verify(PK_HEX, "", signature.as_str()).is_ok());
}

#[test]
fn signature_fails_for_wrong_key_message_or_signature() {
    let message = "attack at dawn";
    let signature = sign(SK_HEX, message).unwrap();
    // another valid public key: derived from a different signing key
    let other_pk = derive_verifying_key(
        "0000000000000000000000000000000000000000000000000000000000000001",
    )
    .unwrap();
    assert!(verify(other_pk.as_str(), message, signature.as_str()).is_err());
    assert!(verify(PK_HEX, "attack at dusk", signature.as_str()).is_err());
    let mut mutated = signature.clone().into_bytes();
    mutated[0] = if mutated[0] == b'A' { b'B' } else { b'A' };
    let mutated = String::from_utf8(mutated).unwrap();
    assert!(verify(PK_HEX, message, mutated.as_str()).is_err());
}

#[test]
fn malformed_keys_fail_closed() {
    assert!(sign("zz", "m").is_err());
    assert!(sign("abcd", "m").is_err());
    assert!(matches!(sign("zz", "m"), Err(Error::SomethingWentWrong(_))));
    assert!(verify("zz", "m", "00").is_err());
    assert!(verify(PK_HEX, "m", "zz").is_err());
    assert!(derive_verifying_key("abcd").is_err());
}

#[test]
fn hex_cross_check_with_reference_implementation() {
    let signature = sign(SK_HEX, "cross-check").unwrap();
    let ours = signature.to_lowercase();
    let reference = hex::encode(hex::decode(&ours).unwrap());
    assert_eq!(ours, reference);
}

#[test]
fn authenticated_user_carries_the_subject() {
    let user = AuthenticatedUser::new(String::from("alice"));
    assert_eq!(user.subject, "alice");
}

#[test]
fn google_payload_checks() {
    let ok = evaluate_google_payload(
        "client-1",
        "client-1",
        Some(true),
        Some(String::from("a@example.com")),
    );
    assert_eq!(ok.unwrap(), "a@example.com");
    let wrong_aud = evaluate_google_payload(
        "client-1",
        "client-2",
        Some(true),
        Some(String::from("a@example.com")),
    );
    assert!(matches!(wrong_aud, Err(Error::SomethingWentWrong(_))));
    let unverified = evaluate_google_payload(
        "client-1",
        "client-1",
        Some(false),
        Some(String::from("a@example.com")),
    );
    assert!(unverified.is_err());
    let missing_email = evaluate_google_payload("client-1", "client-1", Some(true), None);
    assert!(missing_email.is_err());
}
