//! Process-ambient inputs: the current time and fresh random identifiers.
//!
//! Nothing can be promised about these values beyond their documented shape,
//! so callers take them as arguments into pure functions and are verified for
//! every value they might carry.
use vstd::prelude::*;

verus! {

/// Relies on chrono's `Utc::now` and `DateTime::timestamp`: seconds since the
/// Unix epoch.  The value depends on the wall clock, so nothing is promised of
/// it; every caller is verified for an arbitrary result.
#[verifier::external_body]
pub fn now_unix_secs() -> u64 {
    chrono::Utc::now().timestamp() as u64
}

/// Relies on uuid's `Uuid::new_v4` and its `Display` form: a fresh random
/// identifier rendered as 36 hyphenated lower-case hexadecimal characters.
/// The value is random, so only its length is promised.
#[verifier::external_body]
pub fn fresh_uuid_hyphenated() -> (r: String)
    ensures
        r@.len() == 36,
{
    uuid::Uuid::new_v4().to_string()
}

/// Relies on uuid's `Uuid::new_v4` and its `simple` format: a fresh random
/// identifier rendered as 32 lower-case hexadecimal characters.  The value is
/// random; its length and its alphabet (hexadecimal digits, which are also
/// valid B64 salt characters) are documented.
#[verifier::external_body]
pub fn fresh_uuid_simple() -> (r: String)
    ensures
        r@.len() == 32,
        forall|i: int| 0 <= i < r@.len() ==> ('0' <= #[trigger] r@[i] <= '9' || 'a' <= r@[i] <= 'f'),
{
    uuid::Uuid::new_v4().simple().to_string()
}

} // verus!
