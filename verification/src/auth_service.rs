//! The token service: issues signed, time-bounded tokens and verifies them
//! against purpose, audience and expiry.
//!
//! A token is `base64url(header).base64url(payload).signature`, without
//! padding, signed with HMAC-SHA512 under the configured secret.  The payload
//! codec is verified in full; the base64 and HMAC primitives are called
//! through trusted wrappers whose results carry opaque names, which is enough
//! to prove that decoding accepts exactly the issued claims.
//!
//! Decoding accepts precisely the canonical tokens this service issues: a
//! cryptographically valid token whose payload was serialized differently,
//! with another key order, whitespace, or escape form, is refused like any
//! other malformed token.  That strictness is what makes the decoded claims
//! provably unique.
use vstd::prelude::*;

use std::sync::Arc;

use crate::ambient::{fresh_uuid_hyphenated, now_unix_secs};
use crate::auth_options::AuthOptions;
use crate::errors::Error;
use crate::jwt_claims::{pairs_view, ClaimsView, JwtClaims, TokenPurpose};
use crate::jwt_codec::{
    claims_view_wf,
    is_json_value,
    lemma_parse_of_render,
    parse_claims,
    render_claims,
    sp_raw_value,
    spec_is_json_value,
    spec_render_claims,
    wf_extra_value,
};

verus! {

/// The base64url (no padding) encoding of the UTF-8 bytes of a string.  It
/// depends on the characters alone.
pub uninterp spec fn b64url_of(s: Seq<char>) -> Seq<char>;

/// The base64url-encoded HMAC-SHA512 tag over a message under a secret.  It
/// depends on the secret and the message alone.
pub uninterp spec fn hs512_tag(key: Seq<u8>, msg: Seq<char>) -> Seq<char>;

/// No dot anywhere: what makes the three-segment split of a token unambiguous.
pub open spec fn dot_free(s: Seq<char>) -> bool {
    forall|i: int| 0 <= i < s.len() ==> s[i] != '.'
}

/// Relies on base64's `BASE64_URL_SAFE_NO_PAD` engine: a deterministic
/// encoding of the UTF-8 bytes of `s`, over an alphabet (letters, digits,
/// `-`, `_`) that contains no dot.
#[verifier::external_body]
fn b64url_encode_str(s: &str) -> (r: String)
    ensures
        r@ == b64url_of(s@),
        dot_free(r@),
{
    base64::Engine::encode(&base64::prelude::BASE64_URL_SAFE_NO_PAD, s.as_bytes())
}

/// Relies on base64's `BASE64_URL_SAFE_NO_PAD` decode and std's
/// `String::from_utf8`.  The engine requires canonical input, so decoding
/// succeeds exactly on encodings, returns the unique preimage, and what it
/// returns re-encodes to the input.
#[verifier::external_body]
fn b64url_decode_str(s: &str) -> (r: Option<String>)
    ensures
        (exists|t: Seq<char>| s@ == b64url_of(t)) ==> r is Some,
        r matches Some(d) ==> s@ == b64url_of(d@),
        r matches Some(d) ==> forall|t: Seq<char>| s@ == b64url_of(t) ==> d@ == t,
{
    match base64::Engine::decode(&base64::prelude::BASE64_URL_SAFE_NO_PAD, s.as_bytes()) {
        Ok(b) => match String::from_utf8(b) {
            Ok(d) => Some(d),
            Err(_) => None,
        },
        Err(_) => None,
    }
}

/// Relies on jsonwebtoken's `EncodingKey::from_secret` and `crypto::sign`
/// with HS512: a deterministic function of secret and message, returned
/// base64url-encoded and therefore dot-free.  The HMAC backend accepts keys
/// of every length, so signing cannot fail.
#[verifier::external_body]
fn hs512_sign(secret: &Vec<u8>, msg: &str) -> (r: String)
    ensures
        r@ == hs512_tag(secret@, msg@),
        dot_free(r@),
{
    let key = jsonwebtoken::EncodingKey::from_secret(secret.as_slice());
    jsonwebtoken::crypto::sign(msg.as_bytes(), &key, jsonwebtoken::Algorithm::HS512).unwrap()
}

/// The fixed JOSE header every token carries.
pub open spec fn spec_header_json() -> Seq<char> {
    "{\"alg\":\"HS512\",\"typ\":\"JWT\"}"@
}

/// The signed part of a token: encoded header, dot, encoded payload.
pub open spec fn spec_message_of(cv: ClaimsView) -> Seq<char> {
    b64url_of(spec_header_json()) + seq!['.'] + b64url_of(spec_render_claims(cv))
}

/// The complete token for a claims value under a secret.
pub open spec fn spec_token_of(secret: Seq<u8>, cv: ClaimsView) -> Seq<char> {
    spec_message_of(cv) + seq!['.'] + hs512_tag(secret, spec_message_of(cv))
}

/// The segments of the token are dot-free, so the split on dots is
/// unambiguous.  This holds of every token the service issues.
pub open spec fn spec_token_encodable(secret: Seq<u8>, cv: ClaimsView) -> bool {
    &&& dot_free(b64url_of(spec_header_json()))
    &&& dot_free(b64url_of(spec_render_claims(cv)))
    &&& dot_free(hs512_tag(secret, spec_message_of(cv)))
}

/// The token is exactly the signed rendering of this claims value.
pub open spec fn spec_token_matches(cfg: AuthOptions, token: Seq<char>, cv: ClaimsView) -> bool {
    token == spec_token_of(cfg.secret@, cv) && spec_token_encodable(cfg.secret@, cv)
}

/// When an audience is configured, the claims must carry exactly it.
pub open spec fn spec_audience_ok(cfg: AuthOptions, cv: ClaimsView) -> bool {
    match cfg.audience {
        Some(a) => cv.aud == Some(a@),
        None => true,
    }
}

/// Everything decoding checks: the signed structure, the timing window, the
/// audience, and the purpose binding.
pub open spec fn spec_accepts(
    cfg: AuthOptions,
    token: Seq<char>,
    purpose: TokenPurpose,
    now: u64,
    cv: ClaimsView,
) -> bool {
    &&& spec_token_matches(cfg, token, cv)
    &&& cv.time_valid(now)
    &&& spec_audience_ok(cfg, cv)
    &&& cv.purpose == purpose.spec_render()
}

/// How many dots a string holds.
pub open spec fn sp_dot_count(s: Seq<char>) -> nat
    decreases s.len(),
{
    if s.len() == 0 {
        0
    } else {
        (if s[0] == '.' {
            1nat
        } else {
            0nat
        }) + sp_dot_count(s.drop_first())
    }
}

/// Dot counting distributes over concatenation.
pub proof fn lemma_dot_count_concat(a: Seq<char>, b: Seq<char>)
    ensures
        sp_dot_count(a + b) == sp_dot_count(a) + sp_dot_count(b),
    decreases a.len(),
{
    if a.len() == 0 {
        assert(a + b =~= b);
    } else {
        assert((a + b)[0] == a[0]);
        assert((a + b).drop_first() =~= a.drop_first() + b);
        lemma_dot_count_concat(a.drop_first(), b);
    }
}

/// A dot-free string holds no dots.
pub proof fn lemma_dot_count_free(a: Seq<char>)
    requires
        dot_free(a),
    ensures
        sp_dot_count(a) == 0,
    decreases a.len(),
{
    if a.len() > 0 {
        lemma_dot_count_free(a.drop_first());
    }
}

/// A string split on one dot with a dot-free prefix splits only one way.
pub proof fn lemma_dot_split_unique(a1: Seq<char>, b1: Seq<char>, a2: Seq<char>, b2: Seq<char>)
    requires
        a1 + seq!['.'] + b1 == a2 + seq!['.'] + b2,
        dot_free(a1),
        dot_free(a2),
    ensures
        a1 == a2,
        b1 == b2,
{
    let s = a1 + seq!['.'] + b1;
    assert(s[a1.len() as int] == '.');
    assert(s[a2.len() as int] == '.');
    if a1.len() < a2.len() {
        assert(s[a1.len() as int] == a2[a1.len() as int]);
        assert(false);
    }
    if a2.len() < a1.len() {
        assert(s[a2.len() as int] == a1[a2.len() as int]);
        assert(false);
    }
    assert(a1.len() == a2.len());
    assert forall|i: int| 0 <= i < a1.len() implies a1[i] == a2[i] by {
        assert(s[i] == a1[i]);
        assert(s[i] == a2[i]);
    }
    assert(a1 =~= a2);
    let s2 = a2 + seq!['.'] + b2;
    assert(s == s2);
    assert(s.len() == a1.len() + 1 + b1.len());
    assert(s2.len() == a2.len() + 1 + b2.len());
    assert(b1.len() == b2.len());
    assert forall|i: int| 0 <= i < b1.len() implies b1[i] == b2[i] by {
        assert(s[a1.len() + 1 + i] == b1[i]);
        assert(s2[a2.len() + 1 + i] == b2[i]);
    }
    assert(b1 =~= b2);
}

/// The claim names the wire format itself uses; an extension payload may not
/// shadow them.
pub open spec fn spec_reserved_key(k: Seq<char>) -> bool {
    ||| k == "id"@
    ||| k == "exp"@
    ||| k == "aud"@
    ||| k == "iat"@
    ||| k == "iss"@
    ||| k == "nbf"@
    ||| k == "sub"@
    ||| k == "purpose"@
}

fn is_reserved_claim_key(k: &String) -> (r: bool)
    ensures
        r == spec_reserved_key(k@),
{
    *k == String::from_str("id") || *k == String::from_str("exp") || *k == String::from_str("aud")
        || *k == String::from_str("iat") || *k == String::from_str("iss") || *k
        == String::from_str("nbf") || *k == String::from_str("sub") || *k == String::from_str(
        "purpose",
    )
}

/// Whether a raw extension value is one the wire format carries
/// losslessly: the value scanner, run on the value with a delimiter after
/// it, must consume exactly the value.
fn is_wf_extra_value(v: &str) -> (r: bool)
    ensures
        r == wf_extra_value(v@),
{
    let v_len = v.unicode_len();
    let probe = String::from_str(v).concat(",");
    proof {
        reveal_strlit(",");
        assert(probe@ =~= v@ + seq![',']);
    }
    match crate::jwt_codec::exec_raw_value(probe.as_str(), 0) {
        Some((captured, j)) => {
            proof {
                assert(probe@.skip(0) =~= probe@);
            }
            if j == v_len && captured == String::from_str(v) {
                proof {
                    assert(probe@.skip(j as int) =~= seq![',']);
                }
                true
            } else {
                proof {
                    if j != v_len {
                        assert(probe@.skip(j as int).len() != 1);
                        assert(sp_raw_value(v@ + seq![',']) != Some((v@, seq![','])));
                    } else {
                        assert(captured@ != v@);
                        assert(sp_raw_value(v@ + seq![',']) != Some((v@, seq![','])));
                    }
                }
                false
            }
        },
        None => {
            proof {
                assert(probe@.skip(0) =~= probe@);
            }
            false
        },
    }
}

/// What `generate_token` is asked to issue: the subject, the purpose, and an
/// optional extension payload of key/value pairs with raw JSON values.
pub struct TokenOptions {
    pub subject: String,
    pub additional_claims: Option<Vec<(String, String)>>,
    pub purpose: TokenPurpose,
}

impl TokenOptions {
    /// The extension pairs this request carries, empty when none were set.
    pub open spec fn spec_extras(self) -> Seq<(Seq<char>, Seq<char>)> {
        match self.additional_claims {
            Some(v) => pairs_view(v@),
            None => Seq::empty(),
        }
    }

    /// Whether every extension value is a complete compact JSON value the
    /// wire format carries losslessly, and no key shadows a standard claim
    /// name.
    pub open spec fn spec_extras_acceptable(ps: Seq<(Seq<char>, Seq<char>)>) -> bool {
        forall|i: int|
            0 <= i < ps.len() ==> wf_extra_value((#[trigger] ps[i]).1) && spec_is_json_value(
                ps[i].1,
            ) && !spec_reserved_key(ps[i].0)
    }

    pub fn new(subject: String, purpose: TokenPurpose) -> (r: Self)
        ensures
            r.subject == subject,
            r.purpose == purpose,
            r.additional_claims is None,
    {
        TokenOptions { subject, additional_claims: None, purpose }
    }

    /// Attaches an extension payload.  Each value must be one complete JSON
    /// value in compact form — an object, array, string, number, boolean or
    /// null — and no key may collide with a standard claim name: a colliding
    /// or malformed payload is rejected here, at issuance, rather than
    /// silently shadowing a standard field or corrupting the wire object.
    pub fn with_additional_claims(self, additional_claims: Vec<(String, String)>) -> (r: Result<
        Self,
        Error,
    >)
        ensures
            r is Ok <==> Self::spec_extras_acceptable(pairs_view(additional_claims@)),
            r matches Ok(o) ==> o.subject == self.subject && o.purpose == self.purpose
                && o.additional_claims == Some(additional_claims),
            r matches Err(e) ==> e is BadRequestError,
    {
        let mut i: usize = 0;
        while i < additional_claims.len()
            invariant
                i <= additional_claims@.len(),
                forall|j: int|
                    0 <= j < i ==> wf_extra_value(
                        (#[trigger] pairs_view(additional_claims@)[j]).1,
                    ) && spec_is_json_value(pairs_view(additional_claims@)[j].1)
                        && !spec_reserved_key(pairs_view(additional_claims@)[j].0),
            decreases additional_claims@.len() - i,
        {
            let pair = &additional_claims[i];
            if !is_wf_extra_value(pair.1.as_str()) || !is_json_value(pair.1.as_str()) {
                proof {
                    assert(!(wf_extra_value(pairs_view(additional_claims@)[i as int].1)
                        && spec_is_json_value(pairs_view(additional_claims@)[i as int].1)));
                    assert(!Self::spec_extras_acceptable(pairs_view(additional_claims@)));
                }
                return Err(
                    Error::bad_request_error("extension payload value is not a complete JSON value"),
                );
            }
            if is_reserved_claim_key(&pair.0) {
                proof {
                    assert(spec_reserved_key(pairs_view(additional_claims@)[i as int].0));
                    assert(!Self::spec_extras_acceptable(pairs_view(additional_claims@)));
                }
                return Err(
                    Error::bad_request_error("extension payload key collides with a standard claim"),
                );
            }
            i = i + 1;
        }
        proof {
            assert(pairs_view(additional_claims@).len() == additional_claims@.len());
            assert(Self::spec_extras_acceptable(pairs_view(additional_claims@)));
        }
        Ok(Self { additional_claims: Some(additional_claims), ..self })
    }
}

/// The issuance result: the claims identifier and the signed token string.
pub struct Token {
    pub id: String,
    pub value: String,
}

impl Token {
    pub fn new(id: String, value: String) -> (r: Self)
        ensures
            r.id == id,
            r.value == value,
    {
        Token { id, value }
    }
}

/// A paired access and refresh token, produced in one call.
pub struct Tokens {
    pub access_token: Token,
    pub refresh_token: Token,
}

/// The token service proper: a read-only configuration and nothing else.
pub struct AuthService {
    pub auth_options: AuthOptions,
}

impl AuthService {
    pub fn new(options: AuthOptions) -> (r: Self)
        ensures
            r.auth_options == options,
    {
        AuthService { auth_options: options }
    }

    /// Issues a token at the given instant with the given fresh identifier.
    /// Succeeds exactly when every extension value is a complete compact
    /// JSON value; the token is then the signed rendering of precisely the
    /// issued claims.
    pub fn generate_token_at(&self, token_options: TokenOptions, id: String, now: u64) -> (r:
        Result<Token, Error>)
        ensures
            r is Ok <==> (forall|i: int|
                0 <= i < token_options.spec_extras().len() ==> wf_extra_value(
                    (#[trigger] token_options.spec_extras()[i]).1,
                ) && spec_is_json_value(token_options.spec_extras()[i].1)),
            r matches Ok(t) ==> {
                let cv = self.auth_options.spec_issued_claims(
                    id@,
                    now,
                    token_options.subject@,
                    token_options.purpose,
                    token_options.spec_extras(),
                );
                &&& t.id@ == id@
                &&& spec_token_matches(self.auth_options, t.value@, cv)
                &&& claims_view_wf(cv)
            },
            r matches Err(e) ==> e is BadRequestError,
    {
        let TokenOptions { subject, additional_claims, purpose } = token_options;
        let extras: Vec<(String, String)> = match additional_claims {
            Some(v) => v,
            None => Vec::new(),
        };
        proof {
            if token_options.additional_claims is None {
                assert(pairs_view(extras@) =~= token_options.spec_extras());
            }
        }
        let mut i: usize = 0;
        while i < extras.len()
            invariant
                i <= extras@.len(),
                pairs_view(extras@) == token_options.spec_extras(),
                forall|j: int|
                    0 <= j < i ==> wf_extra_value((#[trigger] pairs_view(extras@)[j]).1)
                        && spec_is_json_value(pairs_view(extras@)[j].1),
            decreases extras@.len() - i,
        {
            if !is_wf_extra_value(extras[i].1.as_str()) || !is_json_value(extras[i].1.as_str()) {
                proof {
                    assert(!(wf_extra_value((token_options.spec_extras()[i as int]).1)
                        && spec_is_json_value(token_options.spec_extras()[i as int].1)));
                }
                return Err(
                    Error::bad_request_error("extension payload value is not a complete JSON value"),
                );
            }
            i = i + 1;
        }
        proof {
            assert(forall|j: int|
                0 <= j < token_options.spec_extras().len() ==> wf_extra_value(
                    (#[trigger] token_options.spec_extras()[j]).1,
                ) && spec_is_json_value(token_options.spec_extras()[j].1));
        }
        let claims = self.auth_options.generate_claim_at(id.clone(), now, subject, &purpose, extras);
        let payload = render_claims(&claims);
        let header_enc = b64url_encode_str("{\"alg\":\"HS512\",\"typ\":\"JWT\"}");
        let payload_enc = b64url_encode_str(payload.as_str());
        let ghost header_view = header_enc@;
        let ghost payload_enc_view = payload_enc@;
        let message = header_enc.concat(".").concat(payload_enc.as_str());
        let signature = hs512_sign(&self.auth_options.secret, message.as_str());
        let ghost message_view = message@;
        let value = message.concat(".").concat(signature.as_str());
        proof {
            reveal_strlit(".");
            assert("."@ =~= seq!['.']);
            let cv = claims@;
            assert(message_view =~= spec_message_of(cv));
            assert(value@ =~= spec_token_of(self.auth_options.secret@, cv));
        }
        Ok(Token::new(id, value))
    }

    /// Issues a token now, under a fresh random identifier.  The identifier
    /// and instant are drawn here; everything else is the pure issuance
    /// above.
    pub fn generate_token(&self, token_options: TokenOptions) -> (r: Result<Token, Error>)
        ensures
            r is Ok <==> (forall|i: int|
                0 <= i < token_options.spec_extras().len() ==> wf_extra_value(
                    (#[trigger] token_options.spec_extras()[i]).1,
                ) && spec_is_json_value(token_options.spec_extras()[i].1)),
            r matches Ok(t) ==> spec_issued_for(self.auth_options, t, token_options),
            r matches Ok(t) ==> spec_issued_by(self.auth_options, t),
            r matches Err(e) ==> e is BadRequestError,
    {
        let id = fresh_uuid_hyphenated();
        let now = now_unix_secs();
        let ghost idv = id@;
        let r = self.generate_token_at(token_options, id, now);
        proof {
            if r is Ok {
                let t = r->Ok_0;
                let cv = self.auth_options.spec_issued_claims(
                    idv,
                    now,
                    token_options.subject@,
                    token_options.purpose,
                    token_options.spec_extras(),
                );
                assert(spec_token_matches(self.auth_options, t.value@, cv));
                assert(spec_issued_for(self.auth_options, t, token_options));
                assert(spec_issued_by(self.auth_options, t));
            }
        }
        r
    }

    /// Decodes and verifies a token at an explicit instant, against this
    /// configuration and an expected purpose.
    ///
    /// The contract carries the whole verification story: a returned claims
    /// value is exactly the one whose signed rendering the token is, with
    /// its window open at `now`, its audience as configured, and its purpose
    /// the expected one; conversely, whenever such a well-formed claims
    /// value exists, decoding returns it.  A token whose claims carry
    /// another purpose, a closed window, or another audience is refused,
    /// whatever its signature — and every refusal is the same
    /// `AuthenticationFailure`, so a caller learns nothing about why.
    #[verifier::rlimit(100)]
    pub fn decode_token_at(&self, token: &str, purpose: &TokenPurpose, now: u64) -> (r: Result<
        JwtClaims,
        Error,
    >)
        ensures
            r matches Ok(c) ==> spec_accepts(self.auth_options, token@, *purpose, now, c@),
            r matches Ok(c) ==> claims_view_wf(c@),
            (exists|cv: ClaimsView|
                claims_view_wf(cv) && #[trigger] spec_accepts(
                    self.auth_options,
                    token@,
                    *purpose,
                    now,
                    cv,
                )) ==> r is Ok,
            r matches Ok(c) ==> forall|cv: ClaimsView|
                claims_view_wf(cv) && #[trigger] spec_token_matches(self.auth_options, token@, cv)
                    ==> c@ == cv,
            forall|cv: ClaimsView|
                (claims_view_wf(cv) && #[trigger] spec_token_matches(
                    self.auth_options,
                    token@,
                    cv,
                ) && cv.purpose != purpose.spec_render()) ==> r is Err,
            forall|cv: ClaimsView|
                (claims_view_wf(cv) && #[trigger] spec_token_matches(
                    self.auth_options,
                    token@,
                    cv,
                ) && !cv.time_valid(now)) ==> r is Err,
            forall|cv: ClaimsView|
                (claims_view_wf(cv) && #[trigger] spec_token_matches(
                    self.auth_options,
                    token@,
                    cv,
                ) && !spec_audience_ok(self.auth_options, cv)) ==> r is Err,
            r matches Err(e) ==> e is AuthenticationFailure,
    {
        let cfg = &self.auth_options;
        let len = token.unicode_len();
        let mut d1: usize = 0;
        let mut d2: usize = 0;
        let mut count: usize = 0;
        let mut i: usize = 0;
        proof {
            assert(token@.take(0) =~= Seq::<char>::empty());
            assert(sp_dot_count(Seq::<char>::empty()) == 0);
        }
        while i < len
            invariant
                i <= len,
                len == token@.len(),
                count <= i,
                count == sp_dot_count(token@.take(i as int)),
                count >= 1 ==> d1 < i && token@[d1 as int] == '.',
                count >= 2 ==> d2 < i && token@[d2 as int] == '.' && d1 < d2,
                forall|j: int|
                    0 <= j < i && token@[j] == '.' ==> ((count >= 1 && j == d1) || (count >= 2 && j
                        == d2) || count >= 3),
            decreases len - i,
        {
            let c = token.get_char(i);
            proof {
                assert(token@.take(i + 1) =~= token@.take(i as int) + seq![token@[i as int]]);
                lemma_dot_count_concat(token@.take(i as int), seq![token@[i as int]]);
                assert(seq![token@[i as int]].drop_first() =~= Seq::<char>::empty());
                assert(sp_dot_count(Seq::<char>::empty()) == 0);
                assert(sp_dot_count(seq![token@[i as int]]) == (if token@[i as int] == '.' {
                    1nat
                } else {
                    0nat
                }));
            }
            if c == '.' {
                if count == 0 {
                    d1 = i;
                } else if count == 1 {
                    d2 = i;
                }
                count = count + 1;
            }
            i = i + 1;
        }
        proof {
            assert(token@.take(len as int) =~= token@);
        }
        if count != 2 {
            proof {
                if exists|cv: ClaimsView|
                    claims_view_wf(cv) && spec_accepts(self.auth_options, token@, *purpose, now, cv) {
                    let cv = choose|cv: ClaimsView|
                        claims_view_wf(cv) && spec_accepts(
                            self.auth_options,
                            token@,
                            *purpose,
                            now,
                            cv,
                        );
                    lemma_token_dot_count(self.auth_options, token@, cv);
                }
            }
            return Err(Error::new_unauthorized("token is not three segments"));
        }
        proof {
            assert(forall|j: int| 0 <= j < len && token@[j] == '.' ==> (j == d1 || j == d2));
        }
        let seg1 = token.substring_char(0, d1);
        let seg2 = token.substring_char(d1 + 1, d2);
        let seg3 = token.substring_char(d2 + 1, len);
        proof {
            assert(seg1@ =~= token@.subrange(0, d1 as int));
            assert(seg2@ =~= token@.subrange(d1 + 1, d2 as int));
            assert(seg3@ =~= token@.subrange(d2 + 1, len as int));
            assert(dot_free(seg1@));
            assert(dot_free(seg2@));
            assert(dot_free(seg3@));
            assert(token@ =~= (seg1@ + seq!['.'] + seg2@) + seq!['.'] + seg3@);
        }
        let ghost s1 = seg1@;
        let ghost s2 = seg2@;
        let ghost s3 = seg3@;
        let header_enc = b64url_encode_str("{\"alg\":\"HS512\",\"typ\":\"JWT\"}");
        let seg1s = String::from_str(seg1);
        if !(seg1s == header_enc) {
            proof {
                if exists|cv: ClaimsView|
                    claims_view_wf(cv) && spec_accepts(self.auth_options, token@, *purpose, now, cv) {
                    let cv = choose|cv: ClaimsView|
                        claims_view_wf(cv) && spec_accepts(
                            self.auth_options,
                            token@,
                            *purpose,
                            now,
                            cv,
                        );
                    lemma_structure_unique(self.auth_options, token@, cv, s1, s2, s3);
                }
            }
            return Err(Error::new_unauthorized("token header mismatch"));
        }
        let message = seg1s.concat(".").concat(seg2);
        proof {
            reveal_strlit(".");
            assert("."@ =~= seq!['.']);
            assert(message@ =~= s1 + seq!['.'] + s2);
        }
        let expected = hs512_sign(&self.auth_options.secret, message.as_str());
        let seg3s = String::from_str(seg3);
        if !(seg3s == expected) {
            proof {
                if exists|cv: ClaimsView|
                    claims_view_wf(cv) && spec_accepts(self.auth_options, token@, *purpose, now, cv) {
                    let cv = choose|cv: ClaimsView|
                        claims_view_wf(cv) && spec_accepts(
                            self.auth_options,
                            token@,
                            *purpose,
                            now,
                            cv,
                        );
                    lemma_structure_unique(self.auth_options, token@, cv, s1, s2, s3);
                }
            }
            return Err(Error::new_unauthorized("token signature mismatch"));
        }
        let payload = match b64url_decode_str(seg2) {
            Some(p) => p,
            None => {
                proof {
                    if exists|cv: ClaimsView|
                        claims_view_wf(cv) && spec_accepts(
                            self.auth_options,
                            token@,
                            *purpose,
                            now,
                            cv,
                        ) {
                        let cv = choose|cv: ClaimsView|
                            claims_view_wf(cv) && spec_accepts(
                                self.auth_options,
                                token@,
                                *purpose,
                                now,
                                cv,
                            );
                        lemma_structure_unique(self.auth_options, token@, cv, s1, s2, s3);
                        assert(s2 == b64url_of(spec_render_claims(cv)));
                    }
                }
                return Err(Error::new_unauthorized("token payload is not valid base64"));
            },
        };
        let claims = match parse_claims(payload.as_str()) {
            Some(c) => c,
            None => {
                proof {
                    if exists|cv: ClaimsView|
                        claims_view_wf(cv) && spec_accepts(
                            self.auth_options,
                            token@,
                            *purpose,
                            now,
                            cv,
                        ) {
                        let cv = choose|cv: ClaimsView|
                            claims_view_wf(cv) && spec_accepts(
                                self.auth_options,
                                token@,
                                *purpose,
                                now,
                                cv,
                            );
                        lemma_structure_unique(self.auth_options, token@, cv, s1, s2, s3);
                        assert(payload@ == spec_render_claims(cv));
                        lemma_parse_of_render(cv);
                    }
                }
                return Err(Error::new_unauthorized("token payload is malformed"));
            },
        };
        let rendered = render_claims(&claims);
        if !(rendered == payload) {
            proof {
                if exists|cv: ClaimsView|
                    claims_view_wf(cv) && spec_accepts(self.auth_options, token@, *purpose, now, cv) {
                    let cv = choose|cv: ClaimsView|
                        claims_view_wf(cv) && spec_accepts(
                            self.auth_options,
                            token@,
                            *purpose,
                            now,
                            cv,
                        );
                    lemma_structure_unique(self.auth_options, token@, cv, s1, s2, s3);
                    assert(payload@ == spec_render_claims(cv));
                    lemma_parse_of_render(cv);
                    assert(claims@ == cv);
                }
            }
            return Err(Error::new_unauthorized("token payload is not canonical"));
        }
        proof {
            assert(payload@ == spec_render_claims(claims@));
            assert(s2 == b64url_of(spec_render_claims(claims@)));
            assert(message@ =~= spec_message_of(claims@));
            assert(s3 == hs512_tag(self.auth_options.secret@, spec_message_of(claims@)));
            assert(token@ == spec_token_of(self.auth_options.secret@, claims@)) by {
                assert(token@ =~= (s1 + seq!['.'] + s2) + seq!['.'] + s3);
                assert(spec_token_of(self.auth_options.secret@, claims@) =~= (s1 + seq!['.'] + s2)
                    + seq!['.'] + s3);
            }
            assert(spec_token_matches(self.auth_options, token@, claims@));
            assert forall|cv: ClaimsView|
                claims_view_wf(cv) && #[trigger] spec_token_matches(
                    self.auth_options,
                    token@,
                    cv,
                ) implies claims@ == cv by {
                lemma_structure_unique(self.auth_options, token@, cv, s1, s2, s3);
                assert(payload@ == spec_render_claims(cv));
                lemma_parse_of_render(cv);
            }
        }
        if !(claims.nbf <= now && now < claims.exp) {
            proof {
                if exists|cv: ClaimsView|
                    claims_view_wf(cv) && spec_accepts(self.auth_options, token@, *purpose, now, cv) {
                    let cv = choose|cv: ClaimsView|
                        claims_view_wf(cv) && spec_accepts(
                            self.auth_options,
                            token@,
                            *purpose,
                            now,
                            cv,
                        );
                    assert(spec_token_matches(self.auth_options, token@, cv));
                    assert(claims@ == cv);
                    assert(false);
                }
            }
            return Err(Error::new_unauthorized("token is outside its validity window"));
        }
        match &self.auth_options.audience {
            Some(a) => {
                match &claims.aud {
                    Some(ca) => {
                        if !(*ca == *a) {
                            proof {
                                if exists|cv: ClaimsView|
                                    claims_view_wf(cv) && spec_accepts(
                                        self.auth_options,
                                        token@,
                                        *purpose,
                                        now,
                                        cv,
                                    ) {
                                    let cv = choose|cv: ClaimsView|
                                        claims_view_wf(cv) && spec_accepts(
                                            self.auth_options,
                                            token@,
                                            *purpose,
                                            now,
                                            cv,
                                        );
                                    assert(spec_token_matches(self.auth_options, token@, cv));
                                    assert(claims@ == cv);
                                    assert(spec_audience_ok(self.auth_options, cv));
                                    assert(self.auth_options.audience matches Some(a2)
                                        && cv.aud == Some(a2@));
                                    assert(claims@.aud == Some(ca@));
                                    assert(ca@ == a@);
                                    assert(false);
                                }
                            }
                            return Err(Error::new_unauthorized("token audience mismatch"));
                        }
                    },
                    None => {
                        proof {
                            if exists|cv: ClaimsView|
                                claims_view_wf(cv) && spec_accepts(
                                    self.auth_options,
                                    token@,
                                    *purpose,
                                    now,
                                    cv,
                                ) {
                                let cv = choose|cv: ClaimsView|
                                    claims_view_wf(cv) && spec_accepts(
                                        self.auth_options,
                                        token@,
                                        *purpose,
                                        now,
                                        cv,
                                    );
                                assert(spec_token_matches(self.auth_options, token@, cv));
                                assert(claims@ == cv);
                                assert(false);
                            }
                        }
                        return Err(Error::new_unauthorized("token carries no audience"));
                    },
                }
            },
            None => {},
        }
        let purpose_str = purpose.render();
        if !(claims.purpose == purpose_str) {
            proof {
                if exists|cv: ClaimsView|
                    claims_view_wf(cv) && spec_accepts(self.auth_options, token@, *purpose, now, cv) {
                    let cv = choose|cv: ClaimsView|
                        claims_view_wf(cv) && spec_accepts(
                            self.auth_options,
                            token@,
                            *purpose,
                            now,
                            cv,
                        );
                    assert(spec_token_matches(self.auth_options, token@, cv));
                    assert(claims@ == cv);
                    assert(false);
                }
            }
            return Err(Error::new_unauthorized("token purpose does not match"));
        }
        proof {
            assert(claims@.purpose == purpose.spec_render());
            assert(spec_token_matches(self.auth_options, token@, claims@));
            assert(claims@.time_valid(now));
            assert(spec_audience_ok(self.auth_options, claims@)) by {
                if self.auth_options.audience is Some {
                    assert(claims@.aud == Some(self.auth_options.audience->0@));
                }
            }
            assert(spec_accepts(self.auth_options, token@, *purpose, now, claims@));
            assert forall|cv: ClaimsView|
                claims_view_wf(cv) && #[trigger] spec_token_matches(
                    self.auth_options,
                    token@,
                    cv,
                ) implies cv == claims@ && cv.purpose == purpose.spec_render() && cv.time_valid(now)
                && spec_audience_ok(self.auth_options, cv) by {
                assert(claims@ == cv);
            }
        }
        Ok(claims)
    }

    /// Decodes and verifies a token against the wall clock.  The refusals
    /// that do not depend on the instant hold here too: a token bound to
    /// another purpose or another audience, or one that is the signed
    /// rendering of no well-formed claims value at all, is always refused.
    pub fn decode_token(&self, token: &str, purpose: TokenPurpose) -> (r: Result<JwtClaims, Error>)
        ensures
            r matches Ok(c) ==> exists|now: u64|
                #[trigger] spec_accepts(self.auth_options, token@, purpose, now, c@),
            r matches Ok(c) ==> claims_view_wf(c@) && spec_token_matches(
                self.auth_options,
                token@,
                c@,
            ) && spec_audience_ok(self.auth_options, c@) && c@.purpose == purpose.spec_render(),
            forall|cv: ClaimsView|
                (claims_view_wf(cv) && #[trigger] spec_token_matches(
                    self.auth_options,
                    token@,
                    cv,
                ) && cv.purpose != purpose.spec_render()) ==> r is Err,
            forall|cv: ClaimsView|
                (claims_view_wf(cv) && #[trigger] spec_token_matches(
                    self.auth_options,
                    token@,
                    cv,
                ) && !spec_audience_ok(self.auth_options, cv)) ==> r is Err,
            (forall|cv: ClaimsView|
                !(claims_view_wf(cv) && #[trigger] spec_token_matches(
                    self.auth_options,
                    token@,
                    cv,
                ))) ==> r is Err,
            r matches Err(e) ==> e is AuthenticationFailure,
    {
        let now = now_unix_secs();
        let r = self.decode_token_at(token, &purpose, now);
        proof {
            if r is Ok {
                assert(spec_accepts(self.auth_options, token@, purpose, now, r->Ok_0@));
            }
        }
        r
    }

}

/// The token is the one this configuration issues for these options: the
/// signed rendering of the well-formed claims built for the options'
/// subject, purpose and extension payload, at some instant and under some
/// fresh identifier.
pub open spec fn spec_issued_for(cfg: AuthOptions, t: Token, opts: TokenOptions) -> bool {
    exists|idv: Seq<char>, now: u64|
        {
            &&& t.id@ == idv
            &&& #[trigger] spec_token_matches(
                cfg,
                t.value@,
                cfg.spec_issued_claims(idv, now, opts.subject@, opts.purpose, opts.spec_extras()),
            )
            &&& claims_view_wf(
                cfg.spec_issued_claims(idv, now, opts.subject@, opts.purpose, opts.spec_extras()),
            )
        }
}

/// The token is one this configuration could have issued, for some options.
pub open spec fn spec_issued_by(cfg: AuthOptions, t: Token) -> bool {
    exists|opts: TokenOptions| #[trigger] spec_issued_for(cfg, t, opts)
}

/// A structurally matching token holds exactly two dots.
proof fn lemma_token_dot_count(cfg: AuthOptions, token: Seq<char>, cv: ClaimsView)
    requires
        spec_token_matches(cfg, token, cv),
    ensures
        sp_dot_count(token) == 2,
{
    let h = b64url_of(spec_header_json());
    let p = b64url_of(spec_render_claims(cv));
    let g = hs512_tag(cfg.secret@, spec_message_of(cv));
    lemma_dot_count_free(h);
    lemma_dot_count_free(p);
    lemma_dot_count_free(g);
    lemma_dot_count_concat(h, seq!['.']);
    lemma_dot_count_concat(h + seq!['.'], p);
    lemma_dot_count_concat((h + seq!['.']) + p, seq!['.']);
    lemma_dot_count_concat(((h + seq!['.']) + p) + seq!['.'], g);
    assert(sp_dot_count(seq!['.']) == 1) by {
        assert(seq!['.'].drop_first() =~= Seq::<char>::empty());
        assert(sp_dot_count(Seq::<char>::empty()) == 0);
    }
    assert(token == spec_token_of(cfg.secret@, cv));
    assert(spec_message_of(cv) == h + seq!['.'] + p);
    assert(token =~= ((h + seq!['.']) + p) + seq!['.'] + g);
}

/// A dot-free three-way split of a structurally matching token is exactly
/// its header, payload and signature segments.
proof fn lemma_structure_unique(
    cfg: AuthOptions,
    token: Seq<char>,
    cv: ClaimsView,
    s1: Seq<char>,
    s2: Seq<char>,
    s3: Seq<char>,
)
    requires
        spec_token_matches(cfg, token, cv),
        token == (s1 + seq!['.'] + s2) + seq!['.'] + s3,
        dot_free(s1),
        dot_free(s2),
        dot_free(s3),
    ensures
        s1 == b64url_of(spec_header_json()),
        s2 == b64url_of(spec_render_claims(cv)),
        s3 == hs512_tag(cfg.secret@, spec_message_of(cv)),
        spec_message_of(cv) == s1 + seq!['.'] + s2,
{
    let h = b64url_of(spec_header_json());
    let p = b64url_of(spec_render_claims(cv));
    let g = hs512_tag(cfg.secret@, spec_message_of(cv));
    assert(token =~= s1 + seq!['.'] + (s2 + seq!['.'] + s3));
    assert(token =~= h + seq!['.'] + (p + seq!['.'] + g));
    lemma_dot_split_unique(s1, s2 + seq!['.'] + s3, h, p + seq!['.'] + g);
    lemma_dot_split_unique(s2, s3, p, g);
    assert(spec_message_of(cv) == s1 + seq!['.'] + s2);
}

/// Tamper detection: changing any single character of the signature segment
/// of a token leaves a string that is the signed rendering of no claims
/// value at all — with the decoder's first clause, such a string can only be
/// refused.
pub proof fn lemma_tamper_detection(
    cfg: AuthOptions,
    token: Seq<char>,
    token2: Seq<char>,
    cv: ClaimsView,
    i: int,
)
    requires
        spec_token_matches(cfg, token, cv),
        token2.len() == token.len(),
        spec_message_of(cv).len() < i < token.len(),
        token2[i] != token[i],
        forall|j: int| 0 <= j < token.len() && j != i ==> token2[j] == token[j],
    ensures
        forall|cv2: ClaimsView| !spec_token_matches(cfg, token2, cv2),
{
    let h = b64url_of(spec_header_json());
    let p = b64url_of(spec_render_claims(cv));
    let g = hs512_tag(cfg.secret@, spec_message_of(cv));
    let m = spec_message_of(cv);
    assert(m == h + seq!['.'] + p);
    assert(token == m + seq!['.'] + g);
    assert(token.len() == m.len() + 1 + g.len());
    let g2 = token2.skip(m.len() as int + 1);
    assert(token2 =~= (h + seq!['.'] + p) + seq!['.'] + g2) by {
        assert(token2[m.len() as int] == token[m.len() as int]);
    }
    assert(g2.len() == g.len());
    assert(g2[i - m.len() - 1] == token2[i]);
    assert(g[i - m.len() - 1] == token[i]);
    assert(g2 != g);
    assert forall|cv2: ClaimsView| !spec_token_matches(cfg, token2, cv2) by {
        if spec_token_matches(cfg, token2, cv2) {
            let h2 = b64url_of(spec_header_json());
            let p2 = b64url_of(spec_render_claims(cv2));
            let g3 = hs512_tag(cfg.secret@, spec_message_of(cv2));
            assert(token2 =~= h2 + seq!['.'] + (p2 + seq!['.'] + g3));
            assert(token2 =~= h + seq!['.'] + (p + seq!['.'] + g2));
            lemma_dot_split_unique(h, p + seq!['.'] + g2, h2, p2 + seq!['.'] + g3);
            lemma_dot_split_unique(p, g2, p2, g3);
            assert(spec_message_of(cv2) =~= spec_message_of(cv));
            assert(g3 == g);
            assert(false);
        }
    }
}

/// Expiry enforcement: a token bound to its purpose and audience is accepted
/// at exactly the instants inside its claims' validity window.  With
/// `decode_token_at`'s completeness clause the token decodes at any such
/// instant, and with its expiry-refusal clause it is refused at any other —
/// in particular from `exp` on.
pub proof fn lemma_expiry_window(cfg: AuthOptions, token: Seq<char>, p: TokenPurpose, cv: ClaimsView)
    requires
        claims_view_wf(cv),
        spec_token_matches(cfg, token, cv),
        spec_audience_ok(cfg, cv),
        cv.purpose == p.spec_render(),
    ensures
        forall|now: u64| #[trigger] spec_accepts(cfg, token, p, now, cv) <==> cv.nbf <= now
            < cv.exp,
{
}

/// A record that can say which access and refresh tokens should be issued
/// for it.  The two spec functions are the record's abstract view of those
/// choices, which the methods are held to.
pub trait AuthHandler {
    spec fn spec_access_options(&self) -> TokenOptions;

    spec fn spec_refresh_options(&self) -> TokenOptions;

    fn generate_access_token_options(&self) -> (r: TokenOptions)
        ensures
            r == self.spec_access_options(),
    ;

    fn generate_refresh_token_options(&self) -> (r: TokenOptions)
        ensures
            r == self.spec_refresh_options(),
    ;
}

/// Every `AuthHandler` gains paired issuance for free: one call issues the
/// access and refresh tokens for the options the handler chose, both signed
/// by the given service, propagating the first issuance failure.
pub trait AuthHandlerExtensions: AuthHandler {
    fn generate_tokens(&self, auth_service: Arc<AuthService>) -> (r: Result<Tokens, Error>)
        ensures
            r matches Ok(t) ==> spec_issued_for(
                auth_service.auth_options,
                t.access_token,
                self.spec_access_options(),
            ) && spec_issued_for(
                auth_service.auth_options,
                t.refresh_token,
                self.spec_refresh_options(),
            ),
            r matches Err(e) ==> e is BadRequestError,
    ;
}

/// A record that can say which access token an administrative caller gets.
pub trait AuthHandlerAdmin {
    fn generate_access_token_options(&self) -> TokenOptions;
}

/// The smallest carrier of the `AuthHandler` capability: a principal whose
/// access and refresh tokens are issued for its bare subject.
pub struct PrincipalHandler {
    pub subject: String,
}

impl AuthHandler for PrincipalHandler {
    open spec fn spec_access_options(&self) -> TokenOptions {
        TokenOptions {
            subject: self.subject,
            additional_claims: None,
            purpose: TokenPurpose::Access,
        }
    }

    open spec fn spec_refresh_options(&self) -> TokenOptions {
        TokenOptions {
            subject: self.subject,
            additional_claims: None,
            purpose: TokenPurpose::Refresh,
        }
    }

    fn generate_access_token_options(&self) -> (r: TokenOptions) {
        TokenOptions::new(self.subject.clone(), TokenPurpose::Access)
    }

    fn generate_refresh_token_options(&self) -> (r: TokenOptions) {
        TokenOptions::new(self.subject.clone(), TokenPurpose::Refresh)
    }
}

impl<T: AuthHandler> AuthHandlerExtensions for T {
    fn generate_tokens(&self, auth_service: Arc<AuthService>) -> (r: Result<Tokens, Error>) {
        let access_options = self.generate_access_token_options();
        let refresh_options = self.generate_refresh_token_options();
        let access_token = auth_service.generate_token(access_options)?;
        let refresh_token = auth_service.generate_token(refresh_options)?;
        Ok(Tokens { access_token, refresh_token })
    }
}

} // verus!
