use vstd::prelude::*;

pub mod ambient;
pub mod auth_options;
pub mod auth_service;
pub mod authenticated_user;
pub mod errors;
pub mod google;
pub mod hex_codec;
pub mod jwt_claims;
pub mod jwt_codec;
pub mod password_hasher;
pub mod password_validator;
pub mod signatory;
pub mod strutil;

verus! {

} // verus!
