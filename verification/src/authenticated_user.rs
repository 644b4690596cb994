//! The minimal post-verification identity: the subject alone, derived from
//! validated claims and discarded after the request that produced it.
use vstd::prelude::*;

use crate::jwt_claims::JwtClaims;

verus! {

pub struct AuthenticatedUser {
    pub subject: String,
}

impl AuthenticatedUser {
    pub fn new(subject: String) -> (r: Self)
        ensures
            r.subject == subject,
    {
        AuthenticatedUser { subject }
    }

    /// The caller identity a validated claims value asserts.
    pub fn from_claims(claims: &JwtClaims) -> (r: Self)
        ensures
            r.subject@ == claims.sub@,
    {
        AuthenticatedUser { subject: claims.sub.clone() }
    }
}

} // verus!
