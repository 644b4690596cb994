//! The error taxonomy shared with callers.
//!
//! Every failure of the library surfaces as one of five kinds.  Authentication
//! failures and internal failures deliberately carry their detail in a field
//! that is only exposed when a caller opts into verbose reporting, so that no
//! externally visible message distinguishes *why* a token was rejected.
use vstd::prelude::*;

use crate::ambient::fresh_uuid_hyphenated;

verus! {

/// One or more named fields failed semantic validation.
#[derive(Debug)]
pub struct FieldValidationErrors {
    /// Pairs of field name and the message describing how it failed.
    pub fields: Vec<(String, String)>,
}

/// Malformed caller input not tied to a specific field.
#[derive(Debug)]
pub struct BadRequestError {
    pub error: String,
    /// Optional structured detail, carried as raw JSON text.
    pub data: Option<String>,
}

/// A library-level failure not attributable to caller input.
#[derive(Debug)]
pub struct SomethingWentWrong {
    /// An opaque correlation identifier, safe to show to any caller.
    pub error_id: String,
    /// The underlying detail; never shown outside verbose mode.
    pub error_details: String,
}

/// A token or credential failed verification.  All causes collapse here.
#[derive(Debug)]
pub struct AuthenticationError {
    /// The underlying cause; never shown outside verbose mode.
    pub error_details: String,
}

/// A referenced resource is absent.
#[derive(Debug)]
pub struct NotFoundError {
    pub error: String,
}

/// The closed set of failure kinds this library reports.
#[derive(Debug)]
pub enum Error {
    FieldValidationError(FieldValidationErrors),
    BadRequestError(BadRequestError),
    SomethingWentWrong(SomethingWentWrong),
    AuthenticationFailure(AuthenticationError),
    NotFound(NotFoundError),
}

impl FieldValidationErrors {
    pub fn new(fields: Vec<(String, String)>) -> (r: Self)
        ensures
            r.fields == fields,
    {
        FieldValidationErrors { fields }
    }
}

impl BadRequestError {
    pub fn new(error: String) -> (r: Self)
        ensures
            r.error == error,
            r.data is None,
    {
        BadRequestError { error, data: None }
    }

    /// `data` is raw JSON text supplied by the caller.
    pub fn new_with_data(error: String, data: String) -> (r: Self)
        ensures
            r.error == error,
            r.data == Some(data),
    {
        BadRequestError { error, data: Some(data) }
    }
}

impl SomethingWentWrong {
    /// The correlation identifier is freshly drawn, so only its shape is known.
    pub fn new(error_details: String) -> (r: Self)
        ensures
            r.error_details == error_details,
            r.error_id@.len() == 42,
    {
        let id = fresh_uuid_hyphenated();
        let error_id = String::from_str("Error-").concat(id.as_str());
        proof {
            reveal_strlit("Error-");
        }
        SomethingWentWrong { error_id, error_details }
    }
}

impl AuthenticationError {
    pub fn new(error_details: String) -> (r: Self)
        ensures
            r.error_details == error_details,
    {
        AuthenticationError { error_details }
    }
}

impl NotFoundError {
    pub fn new(error: String) -> (r: Self)
        ensures
            r.error == error,
    {
        NotFoundError { error }
    }
}

impl Error {
    /// Detail of this error is not part of any external response; it is kept
    /// for server-side logging only.
    pub fn new_unauthorized(error_info: &str) -> (r: Error)
        ensures
            r matches Error::AuthenticationFailure(a) && a.error_details@ == error_info@,
    {
        Error::AuthenticationFailure(AuthenticationError::new(String::from_str(error_info)))
    }

    pub fn new_field_validation_error(field: &str, error: &str) -> (r: Error)
        ensures
            r matches Error::FieldValidationError(f) && f.fields@.len() == 1
                && f.fields@[0].0@ == field@ && f.fields@[0].1@ == error@,
    {
        let mut fields: Vec<(String, String)> = Vec::new();
        fields.push((String::from_str(field), String::from_str(error)));
        Error::FieldValidationError(FieldValidationErrors::new(fields))
    }

    /// Detail of this error is not part of any external response; it is kept
    /// for server-side logging only.
    pub fn new_something_went_wrong(error_info: String) -> (r: Error)
        ensures
            r matches Error::SomethingWentWrong(s) && s.error_details == error_info,
    {
        Error::SomethingWentWrong(SomethingWentWrong::new(error_info))
    }

    pub fn bad_request_error(message: &str) -> (r: Error)
        ensures
            r matches Error::BadRequestError(b) && b.error@ == message@ && b.data is None,
    {
        Error::BadRequestError(BadRequestError::new(String::from_str(message)))
    }

    pub fn new_not_found(message: &str) -> (r: Error)
        ensures
            r matches Error::NotFound(n) && n.error@ == message@,
    {
        Error::NotFound(NotFoundError::new(String::from_str(message)))
    }

    /// The externally visible status category of each kind.  This mapping is
    /// the whole cross-boundary contract with any transport layer.
    pub fn status_code(&self) -> (r: u16)
        ensures
            r == match self {
                Error::FieldValidationError(_) => 400u16,
                Error::BadRequestError(_) => 400u16,
                Error::SomethingWentWrong(_) => 500u16,
                Error::AuthenticationFailure(_) => 401u16,
                Error::NotFound(_) => 404u16,
            },
    {
        match self {
            Error::FieldValidationError(_) => 400,
            Error::BadRequestError(_) => 400,
            Error::SomethingWentWrong(_) => 500,
            Error::AuthenticationFailure(_) => 401,
            Error::NotFound(_) => 404,
        }
    }

    /// The externally visible message of each kind.  Authentication and
    /// internal failures answer with a fixed phrase: their cause never
    /// reaches a caller through this function.
    pub fn external_message(&self) -> (r: String)
        ensures
            self is AuthenticationFailure ==> r@ == "Unauthorized"@,
            self is SomethingWentWrong ==> r@ == "Something went wrong"@,
            self is FieldValidationError ==> r@ == "Validation failed"@,
            self matches Error::BadRequestError(b) ==> r == b.error,
            self matches Error::NotFound(n) ==> r == n.error,
    {
        match self {
            Error::FieldValidationError(_) => String::from_str("Validation failed"),
            Error::BadRequestError(b) => b.error.clone(),
            Error::SomethingWentWrong(_) => String::from_str("Something went wrong"),
            Error::AuthenticationFailure(_) => String::from_str("Unauthorized"),
            Error::NotFound(n) => n.error.clone(),
        }
    }

    /// The detail a caller may see.  Outside verbose mode the collapsed kinds
    /// reveal nothing beyond the correlation identifier.
    pub fn external_detail(&self, verbose: bool) -> (r: Option<String>)
        ensures
            !verbose && self is AuthenticationFailure ==> r is None,
            !verbose && self is SomethingWentWrong ==> r is None,
            verbose ==> (self matches Error::AuthenticationFailure(a) ==> r == Some(
                a.error_details,
            )),
            verbose ==> (self matches Error::SomethingWentWrong(s) ==> r == Some(
                s.error_details,
            )),
    {
        match self {
            Error::AuthenticationFailure(a) => if verbose {
                Some(a.error_details.clone())
            } else {
                None
            },
            Error::SomethingWentWrong(s) => if verbose {
                Some(s.error_details.clone())
            } else {
                None
            },
            _ => None,
        }
    }
}

} // verus!
