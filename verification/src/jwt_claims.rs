//! The claims model: the structured payload a token carries, and the purpose
//! a token is bound to.
use vstd::prelude::*;

verus! {

/// The intended use a token is issued for and re-checked against.  A token
/// issued for one purpose never validates for another.
pub enum TokenPurpose {
    Access,
    Refresh,
    /// A caller-defined one-off purpose carrying its own lifetime in seconds.
    Other { purpose: String, lifetime: u64 },
}

impl TokenPurpose {
    /// The textual rendering embedded in a token and compared on decode.
    pub open spec fn spec_render(self) -> Seq<char> {
        match self {
            TokenPurpose::Access => "Access"@,
            TokenPurpose::Refresh => "Refresh"@,
            TokenPurpose::Other { purpose, lifetime } => purpose@,
        }
    }

    pub fn new(purpose: String, lifetime: u64) -> (r: TokenPurpose)
        ensures
            r == (TokenPurpose::Other { purpose, lifetime }),
    {
        TokenPurpose::Other { purpose, lifetime }
    }

    /// The purpose string of this purpose.
    pub fn render(&self) -> (r: String)
        ensures
            r@ == self.spec_render(),
    {
        match self {
            TokenPurpose::Access => String::from_str("Access"),
            TokenPurpose::Refresh => String::from_str("Refresh"),
            TokenPurpose::Other { purpose, lifetime } => purpose.clone(),
        }
    }
}

impl Clone for TokenPurpose {
    fn clone(&self) -> (r: Self)
        ensures
            r == self,
    {
        match self {
            TokenPurpose::Access => TokenPurpose::Access,
            TokenPurpose::Refresh => TokenPurpose::Refresh,
            TokenPurpose::Other { purpose, lifetime } => TokenPurpose::Other {
                purpose: purpose.clone(),
                lifetime: *lifetime,
            },
        }
    }
}

/// The pairwise view of a list of string pairs.
pub open spec fn pairs_view(v: Seq<(String, String)>) -> Seq<(Seq<char>, Seq<char>)> {
    Seq::new(v.len(), |i: int| (v[i].0@, v[i].1@))
}

/// The mathematical content of a claims value: every field as a sequence of
/// characters or a number, the extension payload as ordered key/value pairs
/// whose values are raw JSON text.
pub struct ClaimsView {
    pub id: Seq<char>,
    pub exp: u64,
    pub aud: Option<Seq<char>>,
    pub iat: u64,
    pub iss: Option<Seq<char>>,
    pub nbf: u64,
    pub sub: Seq<char>,
    pub purpose: Seq<char>,
    pub additional_claims: Seq<(Seq<char>, Seq<char>)>,
}

/// The decoded or to-be-encoded token payload.  Standard fields first; the
/// extension payload is a list of key/value pairs whose values are raw JSON
/// text, merged flat into the same top-level object on encoding.
pub struct JwtClaims {
    /// Unique token identifier, drawn fresh at issuance.
    pub id: String,
    /// Expiry instant, seconds since the Unix epoch.
    pub exp: u64,
    /// Audience, when the issuing configuration carries one.
    pub aud: Option<String>,
    /// Issued-at instant, seconds since the Unix epoch.
    pub iat: u64,
    /// Issuer, when the issuing configuration carries one.
    pub iss: Option<String>,
    /// Not-before instant, seconds since the Unix epoch.
    pub nbf: u64,
    /// The principal the token asserts.
    pub sub: String,
    /// The rendered purpose string.
    pub purpose: String,
    /// Extension payload: keys with raw JSON values, flattened on encoding.
    pub additional_claims: Vec<(String, String)>,
}

impl View for JwtClaims {
    type V = ClaimsView;

    open spec fn view(&self) -> ClaimsView {
        ClaimsView {
            id: self.id@,
            exp: self.exp,
            aud: match self.aud {
                Some(a) => Some(a@),
                None => None,
            },
            iat: self.iat,
            iss: match self.iss {
                Some(a) => Some(a@),
                None => None,
            },
            nbf: self.nbf,
            sub: self.sub@,
            purpose: self.purpose@,
            additional_claims: pairs_view(self.additional_claims@),
        }
    }
}

impl ClaimsView {
    /// The timing window: a claims value is current when `now` has reached
    /// `nbf` and not yet reached `exp`.
    pub open spec fn time_valid(self, now: u64) -> bool {
        self.nbf <= now < self.exp
    }
}

impl JwtClaims {
    /// Builds claims issued now, under a fresh random identifier: the
    /// validity window opens at once and closes `exp_duration` seconds
    /// later.
    pub fn new(
        aud: Option<String>,
        iss: Option<String>,
        sub: String,
        purpose: TokenPurpose,
        additional_claims: Vec<(String, String)>,
        exp_duration: u64,
    ) -> (r: JwtClaims)
        ensures
            r.aud == aud,
            r.iss == iss,
            r.sub == sub,
            r.purpose@ == purpose.spec_render(),
            r.additional_claims == additional_claims,
            r.nbf == r.iat,
            r.exp == if r.iat + exp_duration <= u64::MAX {
                (r.iat + exp_duration) as u64
            } else {
                u64::MAX
            },
            r.id@.len() == 36,
    {
        let id = crate::ambient::fresh_uuid_hyphenated();
        let now = crate::ambient::now_unix_secs();
        JwtClaims::new_at(id, now, aud, iss, sub, &purpose, additional_claims, exp_duration)
    }

    /// Builds the claims a token issued at `now` carries: the window starts
    /// at once and closes `exp_duration` seconds later (capped at the largest
    /// representable instant), audience and issuer are copied as given, and
    /// the purpose is embedded in its rendered form.
    pub fn new_at(
        id: String,
        now: u64,
        aud: Option<String>,
        iss: Option<String>,
        sub: String,
        purpose: &TokenPurpose,
        additional_claims: Vec<(String, String)>,
        exp_duration: u64,
    ) -> (r: JwtClaims)
        ensures
            r.id == id,
            r.exp == if now + exp_duration <= u64::MAX {
                (now + exp_duration) as u64
            } else {
                u64::MAX
            },
            r.aud == aud,
            r.iat == now,
            r.iss == iss,
            r.nbf == now,
            r.sub == sub,
            r.purpose@ == purpose.spec_render(),
            r.additional_claims == additional_claims,
    {
        let exp = if now <= u64::MAX - exp_duration {
            now + exp_duration
        } else {
            u64::MAX
        };
        JwtClaims {
            id,
            exp,
            aud,
            iat: now,
            iss,
            nbf: now,
            sub,
            purpose: purpose.render(),
            additional_claims,
        }
    }
}

} // verus!
