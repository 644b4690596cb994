//! The decision half of third-party token verification: given the fields a
//! provider's validation call returned, decide whether they identify a
//! verified email for the expected client.  The network call itself lives
//! outside the library and hands its results in as plain values.
use vstd::prelude::*;

use crate::errors::Error;

verus! {

/// Accepts a validated provider payload exactly when its audience is the
/// expected client, its email is marked verified, and an email is present;
/// then that email is returned.  Every rejection is an internal failure, as
/// the payload was already supposed to be validated upstream.
pub fn evaluate_google_payload(
    client_id: &str,
    aud: &str,
    email_verified: Option<bool>,
    email: Option<String>,
) -> (r: Result<String, Error>)
    ensures
        r is Ok <==> aud@ == client_id@ && email_verified == Some(true) && email is Some,
        r matches Ok(e) ==> email matches Some(m) && e == m,
        r matches Err(e) ==> e is SomethingWentWrong,
{
    let aud_s = String::from_str(aud);
    let client_s = String::from_str(client_id);
    let verified = match email_verified {
        Some(true) => true,
        _ => false,
    };
    if !(aud_s == client_s) || !verified {
        return Err(Error::new_something_went_wrong(String::from_str("invalid token")));
    }
    match email {
        Some(m) => Ok(m),
        None => Err(Error::new_something_went_wrong(String::from_str("invalid email"))),
    }
}

} // verus!
