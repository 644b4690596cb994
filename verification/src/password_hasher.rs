//! One-way password hashing and verification.
//!
//! A fresh random salt is drawn for every hash and embedded in the
//! self-describing result string, so verification needs no side-channel
//! state.  The memory-hard primitive itself is called through trusted
//! wrappers; what they return carries opaque names so that the contracts can
//! state the verify-after-hash round trip.
use vstd::prelude::*;

use crate::ambient::fresh_uuid_simple;
use crate::errors::Error;
use argon2::{PasswordHasher, PasswordVerifier};

verus! {

/// The self-describing hash string that the memory-hard function with its
/// default parameters produces for a password and a salt.  It depends on the
/// two arguments alone.
pub uninterp spec fn argon2_phc_of(pw: Seq<char>, salt: Seq<char>) -> Seq<char>;

/// Whether verification accepts the password against a parseable
/// self-describing hash string: the digest recomputed with the embedded salt
/// and parameters equals the embedded digest.
pub uninterp spec fn argon2_matches(pw: Seq<char>, hash: Seq<char>) -> bool;

/// Whether a string parses as a self-describing hash in the PHC format.  It
/// depends on the string alone.
pub uninterp spec fn argon2_parseable(hash: Seq<char>) -> bool;

/// Relies on argon2's `Argon2::default` and `hash_password_with_salt`: a
/// deterministic function of password and salt, rendered as a PHC string; a
/// hash fresh from this call verifies against its own password, since
/// `verify_password` recomputes the digest with the embedded salt and
/// parameters.  The produced string is a PHC rendering and therefore parses.
/// `Salt::new` accepts any salt of 8 to 48 bytes, and hashing itself accepts
/// any password this machine can hold, so success is owed for an ASCII salt
/// in that range.
#[verifier::external_body]
fn argon2_hash_raw(password: &str, salt: &str) -> (r: Option<String>)
    ensures
        r matches Some(h) ==> h@ == argon2_phc_of(password@, salt@) && argon2_matches(
            password@,
            h@,
        ) && argon2_parseable(h@),
        (salt.is_ascii() && 8 <= salt@.len() <= 48) ==> r is Some,
{
    let argon2 = argon2::Argon2::default();
    match argon2.hash_password_with_salt(password.as_bytes(), salt.as_bytes()) {
        Ok(h) => Some(h.to_string()),
        Err(_) => None,
    }
}

/// Relies on argon2's `PasswordHash::new` and `verify_password`: parsing
/// succeeds exactly on strings in the self-describing format — in particular
/// on every string this library's hashing produced — and verification then
/// recomputes the digest and compares in constant time.
#[verifier::external_body]
fn argon2_verify_raw(password: &str, hash: &str) -> (r: Option<bool>)
    ensures
        r is Some <==> argon2_parseable(hash@),
        r matches Some(b) ==> b == argon2_matches(password@, hash@),
{
    let argon2 = argon2::Argon2::default();
    let parsed = match argon2::PasswordHash::new(hash) {
        Ok(p) => p,
        Err(_) => {
            return None;
        },
    };
    Some(argon2.verify_password(password.as_bytes(), &parsed).is_ok())
}

/// Hashes a password under a fresh random salt.  On success the result is
/// the self-describing hash of this password under some salt, and verifies
/// against the password; success is owed for every password (an internal
/// failure would mean the salt or encoding machinery broke).
pub fn hash_password(password: &str) -> (r: Result<String, Error>)
    ensures
        r matches Ok(h) ==> argon2_matches(password@, h@),
        r matches Ok(h) ==> argon2_parseable(h@),
        r matches Ok(h) ==> exists|salt: Seq<char>| h@ == argon2_phc_of(password@, salt),
        r is Ok,
{
    let salt = fresh_uuid_simple();
    proof {
        assert forall|i: int| 0 <= i < salt@.len() implies '\0' <= #[trigger] salt@[i]
            <= '\u{7f}' by {
            assert('0' <= salt@[i] <= '9' || 'a' <= salt@[i] <= 'f');
        }
        assert(salt.is_ascii());
    }
    match argon2_hash_raw(password, salt.as_str()) {
        Some(h) => {
            proof {
                assert(h@ == argon2_phc_of(password@, salt@));
            }
            Ok(h)
        },
        None => Err(
            Error::new_something_went_wrong(String::from_str("password hashing failed")),
        ),
    }
}

/// Verifies a password against a stored self-describing hash.  A mismatch is
/// the `Ok(false)` answer, not an error; an error is returned exactly when
/// the stored string is not structurally parseable — never for a hash that
/// this library's `hash_password` produced.
pub fn verify_password(password: String, hash: String) -> (r: Result<bool, Error>)
    ensures
        r is Ok <==> argon2_parseable(hash@),
        r matches Ok(b) ==> b == argon2_matches(password@, hash@),
        r matches Err(e) ==> e is SomethingWentWrong,
{
    match argon2_verify_raw(password.as_str(), hash.as_str()) {
        Some(b) => Ok(b),
        None => Err(
            Error::new_something_went_wrong(String::from_str("stored password hash is malformed")),
        ),
    }
}

/// The capability any identity record can expose: read and replace its
/// stored password hash.  `hash_of` is the record's abstract view of that
/// stored string.
pub trait PasswordHandler {
    spec fn hash_of(&self) -> Seq<char>;

    fn get_password_hash(&self) -> (r: String)
        ensures
            r@ == self.hash_of(),
    ;

    fn set_password_hash(&mut self, new_hashed_password: String)
        ensures
            final(self).hash_of() == new_hashed_password@,
    ;
}

/// Operations every `PasswordHandler` gains for free, built purely atop the
/// two free functions above.
pub trait PasswordHandlerExtensions {
    spec fn ext_hash_of(&self) -> Seq<char>;

    /// Hashes the password and stores the result.  Afterwards the stored
    /// string is parseable and verifies against exactly this password.
    fn update_password(&mut self, password: &str) -> (r: Result<(), Error>)
        ensures
            r is Ok,
            r is Ok ==> argon2_matches(password@, final(self).ext_hash_of()) && argon2_parseable(
                final(self).ext_hash_of(),
            ) && exists|salt: Seq<char>|
                final(self).ext_hash_of() == argon2_phc_of(password@, salt),
    ;

    /// Verifies the password against the stored hash: an answer exactly when
    /// the stored string parses, an error otherwise.  After a successful
    /// `update_password(p)`, `validate_password(p)` answers `Ok(true)`.
    fn validate_password(&self, password: String) -> (r: Result<bool, Error>)
        ensures
            r is Ok <==> argon2_parseable(self.ext_hash_of()),
            r matches Ok(b) ==> b == argon2_matches(password@, self.ext_hash_of()),
    ;
}

impl<T: PasswordHandler> PasswordHandlerExtensions for T {
    open spec fn ext_hash_of(&self) -> Seq<char> {
        self.hash_of()
    }

    fn update_password(&mut self, password: &str) -> (r: Result<(), Error>) {
        let hashed_password = hash_password(password)?;
        self.set_password_hash(hashed_password);
        Ok(())
    }

    fn validate_password(&self, password: String) -> (r: Result<bool, Error>) {
        let hash = self.get_password_hash();
        verify_password(password, hash)
    }
}

/// A minimal identity record holding nothing but a stored password hash;
/// the smallest carrier of the `PasswordHandler` capability.
pub struct StoredCredential {
    pub password_hash: String,
}

impl StoredCredential {
    pub fn new(password_hash: String) -> (r: Self)
        ensures
            r.password_hash == password_hash,
    {
        StoredCredential { password_hash }
    }
}

impl PasswordHandler for StoredCredential {
    open spec fn hash_of(&self) -> Seq<char> {
        self.password_hash@
    }

    fn get_password_hash(&self) -> (r: String) {
        self.password_hash.clone()
    }

    fn set_password_hash(&mut self, new_hashed_password: String) {
        self.password_hash = new_hashed_password;
    }
}

} // verus!
