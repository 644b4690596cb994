//! The token configuration: signing secret, optional audience, and the
//! per-purpose lifetimes.  Built once, then only read.
use vstd::prelude::*;

use crate::jwt_claims::{ClaimsView, JwtClaims, TokenPurpose};

verus! {

/// Caps a sum at the largest representable instant.
pub open spec fn spec_capped_add(a: u64, b: u64) -> u64 {
    if a + b <= u64::MAX {
        (a + b) as u64
    } else {
        u64::MAX
    }
}

/// The immutable signing configuration.  The same secret signs and verifies;
/// lifetimes are in seconds and strictly positive.
pub struct AuthOptions {
    /// The shared signing and verification secret.
    pub secret: Vec<u8>,
    /// When set, embedded in every issued token and required to match on
    /// verification.
    pub audience: Option<String>,
    pub access_token_lifetime: u64,
    pub refresh_token_lifetime: u64,
}

impl AuthOptions {
    /// Lifetimes must be strictly positive durations.
    pub open spec fn wf(self) -> bool {
        self.access_token_lifetime > 0 && self.refresh_token_lifetime > 0
    }

    pub fn new(secret: String, access_token_lifetime: u64, refresh_token_lifetime: u64) -> (r:
        Self)
        requires
            access_token_lifetime > 0,
            refresh_token_lifetime > 0,
        ensures
            r.secret@ == vstd::utf8::encode_utf8(secret@),
            r.audience is None,
            r.access_token_lifetime == access_token_lifetime,
            r.refresh_token_lifetime == refresh_token_lifetime,
            r.wf(),
    {
        AuthOptions {
            secret: secret.as_str().as_bytes_vec(),
            audience: None,
            access_token_lifetime,
            refresh_token_lifetime,
        }
    }

    pub fn with_audience(self, audience: String) -> (r: Self)
        ensures
            r == (Self { audience: Some(audience), ..self }),
    {
        Self { audience: Some(audience), ..self }
    }

    /// The lifetime a purpose resolves to: the configured one for access and
    /// refresh tokens, its own for a caller-defined purpose.
    pub open spec fn spec_lifetime_of(self, purpose: TokenPurpose) -> u64 {
        match purpose {
            TokenPurpose::Access => self.access_token_lifetime,
            TokenPurpose::Refresh => self.refresh_token_lifetime,
            TokenPurpose::Other { purpose: _, lifetime } => lifetime,
        }
    }

    pub fn lifetime_of(&self, purpose: &TokenPurpose) -> (r: u64)
        ensures
            r == self.spec_lifetime_of(*purpose),
    {
        match purpose {
            TokenPurpose::Access => self.access_token_lifetime,
            TokenPurpose::Refresh => self.refresh_token_lifetime,
            TokenPurpose::Other { purpose: _, lifetime } => *lifetime,
        }
    }

    /// The claims a token issued at `now` under this configuration carries.
    pub open spec fn spec_issued_claims(
        self,
        id: Seq<char>,
        now: u64,
        subject: Seq<char>,
        purpose: TokenPurpose,
        extras: Seq<(Seq<char>, Seq<char>)>,
    ) -> ClaimsView {
        ClaimsView {
            id,
            exp: spec_capped_add(now, self.spec_lifetime_of(purpose)),
            aud: match self.audience {
                Some(a) => Some(a@),
                None => None,
            },
            iat: now,
            iss: match self.audience {
                Some(a) => Some(a@),
                None => None,
            },
            nbf: now,
            sub: subject,
            purpose: purpose.spec_render(),
            additional_claims: extras,
        }
    }

    /// Builds the claims for a token issued at `now` with the given fresh
    /// identifier: window `[now, now + lifetime)`, audience copied into both
    /// `aud` and `iss`, the purpose rendered.
    pub fn generate_claim_at(
        &self,
        id: String,
        now: u64,
        subject: String,
        purpose: &TokenPurpose,
        additional_claims: Vec<(String, String)>,
    ) -> (r: JwtClaims)
        ensures
            r@ == self.spec_issued_claims(
                id@,
                now,
                subject@,
                *purpose,
                crate::jwt_claims::pairs_view(additional_claims@),
            ),
    {
        let lifetime = self.lifetime_of(purpose);
        let aud = match &self.audience {
            Some(a) => Some(a.clone()),
            None => None,
        };
        let iss = match &self.audience {
            Some(a) => Some(a.clone()),
            None => None,
        };
        let r = JwtClaims::new_at(id, now, aud, iss, subject, purpose, additional_claims, lifetime);
        r
    }

    /// Builds the claims for a token issued now, with a fresh random
    /// identifier.  The wall clock and the identifier are drawn here, so the
    /// contract pins every field relative to them.
    pub fn generate_claim(&self, subject: String, purpose: &TokenPurpose) -> (r: JwtClaims)
        ensures
            r@ == self.spec_issued_claims(r.id@, r.iat, subject@, *purpose, Seq::empty()),
            r.nbf == r.iat,
    {
        let id = crate::ambient::fresh_uuid_hyphenated();
        let now = crate::ambient::now_unix_secs();
        let r = self.generate_claim_at(id, now, subject, purpose, Vec::new());
        proof {
            assert(crate::jwt_claims::pairs_view(Seq::<(String, String)>::empty())
                =~= Seq::<(Seq<char>, Seq<char>)>::empty());
        }
        r
    }
}

} // verus!
