use auth_core::errors::Error;
use auth_core::password_validator::{is_special_symbol, PasswordValidator};

#[test]
fn default_policy_accepts_a_strong_password() {
    assert!(PasswordValidator::default().validate("Abcdef12345"));
}

#[test]
fn default_policy_rejects_missing_classes_and_bad_lengths() {
    assert!(!PasswordValidator::default().validate("abcdef12345"));
    assert!(!PasswordValidator::default().validate("ABCDEF12345"));
    assert!(!PasswordValidator::default().validate("Abcdefghijk"));
    assert!(!PasswordValidator::default().validate("Abc12"));
    assert!(!PasswordValidator::default().validate("Abcdef12345Abcdef12345"));
}

#[test]
fn length_bounds_are_inclusive() {
    assert!(PasswordValidator::default().validate("Abcdefg123"));
    assert!(PasswordValidator::default().validate("Abcdefg1234567890123"));
}

#[test]
fn min_and_max_length_builders() {
    let v = PasswordValidator::default().with_min_length(4).with_max_length(6);
    assert!(v.validate("Abc12x"));
    let v = PasswordValidator::default().with_min_length(4).with_max_length(6);
    assert!(!v.validate("Ab1"));
    let v = PasswordValidator::default().with_min_length(4).with_max_length(6);
    assert!(!v.validate("Abc123x"));
}

#[test]
fn special_characters_requirement() {
    let v = PasswordValidator::default().with_special_charecters();
    assert!(!v.validate("Abcdef12345"));
    let v = PasswordValidator::default().with_special_charecters();
    assert!(v.validate("Abcdef1234!"));
}

#[test]
fn special_symbol_set() {
    for c in "!\"#$%&'()*+,-./:;<=>?@[\\]^_`{|}~".chars() {
        assert!(is_special_symbol(c));
    }
    for c in "aZ09 \n\u{e9}".chars() {
        assert!(!is_special_symbol(c));
    }
}

#[test]
fn error_kinds_map_to_one_status_each() {
    assert_eq!(Error::new_unauthorized("x").status_code(), 401);
    assert_eq!(Error::new_field_validation_error("f", "bad").status_code(), 400);
    assert_eq!(Error::bad_request_error("bad").status_code(), 400);
    assert_eq!(Error::new_not_found("missing").status_code(), 404);
    assert_eq!(Error::new_something_went_wrong(String::from("boom")).status_code(), 500);
}

#[test]
fn collapsed_errors_reveal_no_detail_outside_verbose_mode() {
    let unauthorized = Error::new_unauthorized("token purpose does not match");
    assert_eq!(unauthorized.external_message(), "Unauthorized");
    assert_eq!(unauthorized.external_detail(false), None);
    assert_eq!(
        unauthorized.external_detail(true),
        Some(String::from("token purpose does not match"))
    );

    let internal = Error::new_something_went_wrong(String::from("library detail"));
    assert_eq!(internal.external_message(), "Something went wrong");
    assert_eq!(internal.external_detail(false), None);
    assert_eq!(internal.external_detail(true), Some(String::from("library detail")));
}

#[test]
fn correlation_identifiers_are_opaque_and_fresh() {
    let e1 = Error::new_something_went_wrong(String::from("boom"));
    let e2 = Error::new_something_went_wrong(String::from("boom"));
    match (e1, e2) {
        (Error::SomethingWentWrong(a), Error::SomethingWentWrong(b)) => {
            assert!(a.error_id.starts_with("Error-"));
            assert_ne!(a.error_id, b.error_id);
        },
        _ => unreachable!(),
    }
}

#[test]
fn validation_errors_name_their_fields() {
    match Error::new_field_validation_error("password", "too weak") {
        Error::FieldValidationError(f) => {
            assert_eq!(f.fields, vec![(String::from("password"), String::from("too weak"))]);
        },
        _ => unreachable!(),
    }
}
