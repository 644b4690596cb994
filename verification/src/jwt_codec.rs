//! The token payload wire format: one flat JSON object holding the standard
//! claim fields in a fixed order, with the extension payload's pairs merged
//! at the same top level.
//!
//! Rendering and parsing are both verified against character-level
//! specifications, and parsing a rendering is proved to give back the claims
//! it came from — the heart of the round-trip guarantee.
use vstd::prelude::*;

use crate::hex_codec::{
    hex_digit_char_upper,
    hex_digit_val,
    lemma_hex_digit_roundtrip,
    lemma_upper_hex_digit_char,
    spec_is_upper_hex_digit,
};
use crate::jwt_claims::{ClaimsView, JwtClaims};
use crate::password_validator::spec_is_digit;

verus! {

/// A character that passes into a JSON string literal unescaped: anything
/// but a quote, a backslash, or a control character.
pub open spec fn is_json_safe(c: char) -> bool {
    c != '"' && c != '\\' && !('\0' <= c && c <= '\u{1f}')
}

/// How one character is escaped inside a JSON string literal: quote and
/// backslash by a two-character escape, control characters by `\u00XX` with
/// upper-case hexadecimal digits, everything else verbatim.
pub open spec fn spec_escape_char(c: char) -> Seq<char> {
    if c == '"' {
        seq!['\\', '"']
    } else if c == '\\' {
        seq!['\\', '\\']
    } else if '\0' <= c && c <= '\u{1f}' {
        seq!['\\', 'u', '0', '0', hex_digit_char_upper(c as int / 16), hex_digit_char_upper(
            c as int % 16,
        )]
    } else {
        seq![c]
    }
}

/// The escaped body of a JSON string literal.
pub open spec fn spec_escape(s: Seq<char>) -> Seq<char>
    decreases s.len(),
{
    if s.len() == 0 {
        Seq::empty()
    } else {
        spec_escape_char(s[0]) + spec_escape(s.drop_first())
    }
}

/// A complete JSON string literal: quoted, escaped content.
pub open spec fn spec_jstr(s: Seq<char>) -> Seq<char> {
    seq!['"'] + spec_escape(s) + seq!['"']
}

/// The decimal rendering of a number, most significant digit first.
pub open spec fn spec_dec_digits(n: nat) -> Seq<char>
    decreases n,
{
    if n < 10 {
        seq![hex_digit_char_upper(n as int)]
    } else {
        spec_dec_digits(n / 10) + seq![hex_digit_char_upper((n % 10) as int)]
    }
}

/// One extension pair as it appears in the object: a comma, the escaped key,
/// a colon, and the raw JSON value verbatim.
pub open spec fn spec_render_extra(k: Seq<char>, v: Seq<char>) -> Seq<char> {
    seq![','] + spec_jstr(k) + seq![':'] + v
}

/// The extension pairs in order.
pub open spec fn spec_render_extras(extras: Seq<(Seq<char>, Seq<char>)>) -> Seq<char>
    decreases extras.len(),
{
    if extras.len() == 0 {
        Seq::empty()
    } else {
        spec_render_extra(extras[0].0, extras[0].1) + spec_render_extras(extras.drop_first())
    }
}

/// The rendered payload, named segment by segment from the tail forward;
/// each `rseg` is what remains to be consumed at that stage of parsing.
pub open spec fn rseg_ex(cv: ClaimsView) -> Seq<char> {
    spec_render_extras(cv.additional_claims) + "}"@
}

pub open spec fn rseg_pur(cv: ClaimsView) -> Seq<char> {
    spec_escape(cv.purpose) + seq!['"'] + rseg_ex(cv)
}

pub open spec fn rseg_pur_full(cv: ClaimsView) -> Seq<char> {
    ",\"purpose\":\""@ + rseg_pur(cv)
}

pub open spec fn rseg_sub(cv: ClaimsView) -> Seq<char> {
    spec_escape(cv.sub) + seq!['"'] + rseg_pur_full(cv)
}

pub open spec fn rseg_sub_full(cv: ClaimsView) -> Seq<char> {
    ",\"sub\":\""@ + rseg_sub(cv)
}

pub open spec fn rseg_nbf(cv: ClaimsView) -> Seq<char> {
    spec_dec_digits(cv.nbf as nat) + rseg_sub_full(cv)
}

pub open spec fn rseg_nbf_full(cv: ClaimsView) -> Seq<char> {
    ",\"nbf\":"@ + rseg_nbf(cv)
}

pub open spec fn rseg_iss(cv: ClaimsView) -> Seq<char> {
    match cv.iss {
        Some(a) => ",\"iss\":\""@ + (spec_escape(a) + seq!['"'] + rseg_nbf_full(cv)),
        None => rseg_nbf_full(cv),
    }
}

pub open spec fn rseg_iat(cv: ClaimsView) -> Seq<char> {
    spec_dec_digits(cv.iat as nat) + rseg_iss(cv)
}

pub open spec fn rseg_iat_full(cv: ClaimsView) -> Seq<char> {
    ",\"iat\":"@ + rseg_iat(cv)
}

pub open spec fn rseg_aud(cv: ClaimsView) -> Seq<char> {
    match cv.aud {
        Some(a) => ",\"aud\":\""@ + (spec_escape(a) + seq!['"'] + rseg_iat_full(cv)),
        None => rseg_iat_full(cv),
    }
}

pub open spec fn rseg_exp(cv: ClaimsView) -> Seq<char> {
    spec_dec_digits(cv.exp as nat) + rseg_aud(cv)
}

pub open spec fn rseg_exp_full(cv: ClaimsView) -> Seq<char> {
    ",\"exp\":"@ + rseg_exp(cv)
}

pub open spec fn rseg_id(cv: ClaimsView) -> Seq<char> {
    spec_escape(cv.id) + seq!['"'] + rseg_exp_full(cv)
}

pub open spec fn rseg_all(cv: ClaimsView) -> Seq<char> {
    "{\"id\":\""@ + rseg_id(cv)
}

/// The whole payload object: standard fields in fixed order, optional
/// audience and issuer present exactly when set, extension pairs at the end;
/// defined segment by segment, `rseg_all` being the whole.
pub open spec fn spec_render_claims(cv: ClaimsView) -> Seq<char> {
    rseg_all(cv)
}

/// A raw extension value the wire format carries losslessly: a nonempty
/// span that the value scanner consumes exactly, stopping at the delimiter
/// that follows it.  Every compact JSON value is such a span.
pub open spec fn wf_extra_value(v: Seq<char>) -> bool {
    sp_raw_value(v + seq![',']) == Some((v, seq![',']))
}

/// A claims value the wire format represents faithfully: every extension
/// value is well formed.
pub open spec fn claims_view_wf(cv: ClaimsView) -> bool {
    forall|i: int| 0 <= i < cv.additional_claims.len() ==> wf_extra_value(
        (#[trigger] cv.additional_claims[i]).1,
    )
}

/// Escaping distributes over appending one character.
pub proof fn lemma_escape_push(s: Seq<char>, c: char)
    ensures
        spec_escape(s.push(c)) == spec_escape(s) + spec_escape_char(c),
    decreases s.len(),
{
    if s.len() == 0 {
        assert(spec_escape(Seq::<char>::empty()) == Seq::<char>::empty());
        assert(s.push(c)[0] == c);
        assert(s.push(c).drop_first() =~= Seq::<char>::empty());
        assert(spec_escape(s.push(c)) =~= spec_escape_char(c));
        assert(spec_escape(s) + spec_escape_char(c) =~= spec_escape_char(c));
    } else {
        assert(s.push(c)[0] == s[0]);
        assert(s.push(c).drop_first() =~= s.drop_first().push(c));
        lemma_escape_push(s.drop_first(), c);
        assert(spec_escape(s.push(c)) =~= spec_escape(s) + spec_escape_char(c));
    }
}

/// Extension rendering distributes over appending one pair.
pub proof fn lemma_render_extras_push(extras: Seq<(Seq<char>, Seq<char>)>, p: (Seq<char>, Seq<char>))
    ensures
        spec_render_extras(extras.push(p)) == spec_render_extras(extras) + spec_render_extra(
            p.0,
            p.1,
        ),
    decreases extras.len(),
{
    if extras.len() == 0 {
        assert(spec_render_extras(Seq::<(Seq<char>, Seq<char>)>::empty())
            == Seq::<char>::empty());
        assert(extras.push(p)[0] == p);
        assert(extras.push(p).drop_first() =~= Seq::<(Seq<char>, Seq<char>)>::empty());
        assert(spec_render_extras(extras.push(p)) =~= spec_render_extra(p.0, p.1));
        assert(spec_render_extras(extras) + spec_render_extra(p.0, p.1) =~= spec_render_extra(
            p.0,
            p.1,
        ));
    } else {
        assert(extras.push(p)[0] == extras[0]);
        assert(extras.push(p).drop_first() =~~= extras.drop_first().push(p));
        lemma_render_extras_push(extras.drop_first(), p);
        assert(spec_render_extras(extras.push(p)) =~= spec_render_extras(extras)
            + spec_render_extra(p.0, p.1));
    }
}

/// Appends the escaped form of `s`.
fn append_escaped(out: &mut String, s: &str)
    ensures
        final(out)@ == old(out)@ + spec_escape(s@),
{
    let len = s.unicode_len();
    let mut i: usize = 0;
    while i < len
        invariant
            len == s@.len(),
            i <= len,
            out@ == old(out)@ + spec_escape(s@.take(i as int)),
        decreases len - i,
    {
        let c = s.get_char(i);
        if c == '"' {
            out.push('\\');
            out.push('"');
        } else if c == '\\' {
            out.push('\\');
            out.push('\\');
        } else if '\0' <= c && c <= '\u{1f}' {
            let code = c as u8;
            out.push('\\');
            out.push('u');
            out.push('0');
            out.push('0');
            out.push(crate::hex_codec::hex_digit_upper(code / 16));
            out.push(crate::hex_codec::hex_digit_upper(code % 16));
            proof {
                assert(code == c as int);
            }
        } else {
            out.push(c);
        }
        proof {
            lemma_escape_push(s@.take(i as int), s@[i as int]);
            assert(s@.take(i + 1) =~= s@.take(i as int).push(s@[i as int]));
        }
        i = i + 1;
    }
    proof {
        assert(s@.take(len as int) =~= s@);
    }
}

/// Appends the decimal rendering of `n`.
fn append_u64(out: &mut String, n: u64)
    ensures
        final(out)@ == old(out)@ + spec_dec_digits(n as nat),
    decreases n,
{
    if n < 10 {
        out.push(crate::hex_codec::hex_digit_upper(n as u8));
    } else {
        append_u64(out, n / 10);
        out.push(crate::hex_codec::hex_digit_upper((n % 10) as u8));
        proof {
            assert(final(out)@ =~= old(out)@ + spec_dec_digits(n as nat));
        }
    }
}

/// Appends the tail of the payload: not-before, subject, purpose, the
/// extension pairs, and the closing brace.
fn append_render_tail(out: &mut String, c: &JwtClaims)
    ensures
        final(out)@ == old(out)@ + rseg_nbf_full(c@),
{
    out.append(",\"nbf\":");
    append_u64(out, c.nbf);
    out.append(",\"sub\":\"");
    append_escaped(out, c.sub.as_str());
    out.append("\"");
    out.append(",\"purpose\":\"");
    append_escaped(out, c.purpose.as_str());
    out.append("\"");
    let ghost before_extras = out@;
    let mut k: usize = 0;
    while k < c.additional_claims.len()
        invariant
            k <= c.additional_claims@.len(),
            out@ == before_extras + spec_render_extras(c@.additional_claims.take(k as int)),
        decreases c.additional_claims@.len() - k,
    {
        let pair = &c.additional_claims[k];
        out.append(",\"");
        append_escaped(out, pair.0.as_str());
        out.append("\"");
        out.append(":");
        out.append(pair.1.as_str());
        proof {
            reveal_strlit(",\"");
            reveal_strlit("\"");
            reveal_strlit(":");
            lemma_render_extras_push(
                c@.additional_claims.take(k as int),
                c@.additional_claims[k as int],
            );
            assert(c@.additional_claims.take(k + 1) =~~= c@.additional_claims.take(
                k as int,
            ).push(c@.additional_claims[k as int]));
            assert(out@ =~= before_extras + spec_render_extras(c@.additional_claims.take(k + 1)));
        }
        k = k + 1;
    }
    out.append("}");
    proof {
        reveal_strlit("\"");
        assert("\""@ =~= seq!['"']);
        assert(c@.additional_claims.take(c.additional_claims@.len() as int)
            =~~= c@.additional_claims);
        assert(final(out)@ =~= old(out)@ + rseg_nbf_full(c@));
    }
}

/// Appends the middle of the payload: optional audience, issued-at,
/// optional issuer, then the tail.
fn append_render_mid(out: &mut String, c: &JwtClaims)
    ensures
        final(out)@ == old(out)@ + rseg_aud(c@),
{
    match &c.aud {
        Some(a) => {
            out.append(",\"aud\":\"");
            append_escaped(out, a.as_str());
            out.append("\"");
        },
        None => {},
    }
    out.append(",\"iat\":");
    append_u64(out, c.iat);
    match &c.iss {
        Some(a) => {
            out.append(",\"iss\":\"");
            append_escaped(out, a.as_str());
            out.append("\"");
        },
        None => {},
    }
    append_render_tail(out, c);
    proof {
        reveal_strlit("\"");
        assert("\""@ =~= seq!['"']);
        assert(final(out)@ =~= old(out)@ + rseg_aud(c@));
    }
}

/// Renders a claims value as its wire payload.
pub fn render_claims(c: &JwtClaims) -> (r: String)
    ensures
        r@ == spec_render_claims(c@),
{
    let mut out = String::new();
    out.append("{\"id\":\"");
    append_escaped(&mut out, c.id.as_str());
    out.append("\"");
    out.append(",\"exp\":");
    append_u64(&mut out, c.exp);
    append_render_mid(&mut out, c);
    proof {
        reveal_strlit("\"");
        assert("\""@ =~= seq!['"']);
        assert(out@ =~= rseg_all(c@));
    }
    out
}

/// Consumes an exact literal prefix.
pub open spec fn sp_lit(s: Seq<char>, lit: Seq<char>) -> Option<Seq<char>> {
    if s.len() >= lit.len() && s.take(lit.len() as int) == lit {
        Some(s.skip(lit.len() as int))
    } else {
        None
    }
}

/// Consumes the body of a JSON string literal after its opening quote,
/// accumulating the unescaped content in `acc` and the raw consumed text in
/// `racc`; yields content, raw text including the closing quote, and the
/// rest.
pub open spec fn sp_string(s: Seq<char>, acc: Seq<char>, racc: Seq<char>) -> Option<
    (Seq<char>, Seq<char>, Seq<char>),
>
    decreases s.len(),
{
    if s.len() == 0 {
        None
    } else if s[0] == '"' {
        Some((acc, racc.push('"'), s.drop_first()))
    } else if s[0] == '\\' {
        if s.len() >= 2 && (s[1] == '"' || s[1] == '\\') {
            sp_string(s.skip(2), acc.push(s[1]), racc.push('\\').push(s[1]))
        } else if s.len() >= 6 && s[1] == 'u' && s[2] == '0' && s[3] == '0'
            && spec_is_upper_hex_digit(s[4]) && spec_is_upper_hex_digit(s[5]) && hex_digit_val(
            s[4],
        ) * 16 + hex_digit_val(s[5]) <= 0x1f {
            sp_string(
                s.skip(6),
                acc.push(((hex_digit_val(s[4]) * 16 + hex_digit_val(s[5])) as u8) as char),
                racc + seq!['\\', 'u', '0', '0', s[4], s[5]],
            )
        } else {
            None
        }
    } else if is_json_safe(s[0]) {
        sp_string(s.drop_first(), acc.push(s[0]), racc.push(s[0]))
    } else {
        None
    }
}

/// One step of the raw-value span scanner: tracks brace and bracket depth
/// and string/escape state.  `None` marks an unmatched closing delimiter.
pub open spec fn sp_scan_step(depth: nat, in_str: bool, esc: bool, c: char) -> Option<
    (nat, bool, bool),
> {
    if in_str {
        if esc {
            Some((depth, true, false))
        } else if c == '\\' {
            Some((depth, true, true))
        } else if c == '"' {
            Some((depth, false, false))
        } else {
            Some((depth, true, false))
        }
    } else {
        if c == '"' {
            Some((depth, true, false))
        } else if c == '{' || c == '[' {
            Some((depth + 1, false, false))
        } else if c == '}' || c == ']' {
            if depth == 0 {
                None
            } else {
                Some(((depth - 1) as nat, false, false))
            }
        } else {
            Some((depth, false, false))
        }
    }
}

/// Captures a raw value span: consumes until a comma or closing brace at
/// top level outside any string literal, which ends the span and is left
/// unconsumed.
pub open spec fn sp_scan(
    s: Seq<char>,
    acc: Seq<char>,
    depth: nat,
    in_str: bool,
    esc: bool,
) -> Option<(Seq<char>, Seq<char>)>
    decreases s.len(),
{
    if s.len() == 0 {
        None
    } else if !in_str && depth == 0 && (s[0] == ',' || s[0] == '}') && acc.len() > 0 {
        Some((acc, s))
    } else {
        match sp_scan_step(depth, in_str, esc, s[0]) {
            Some((d2, i2, e2)) => sp_scan(s.drop_first(), acc.push(s[0]), d2, i2, e2),
            None => None,
        }
    }
}

/// Consumes digits into a number, failing on anything past the largest
/// representable value.
pub open spec fn sp_digits_u64(s: Seq<char>, acc: u64) -> Option<(u64, Seq<char>)>
    decreases s.len(),
{
    if s.len() > 0 && spec_is_digit(s[0]) {
        let v = acc * 10 + (s[0] as int - '0' as int);
        if v > u64::MAX {
            None
        } else {
            sp_digits_u64(s.drop_first(), v as u64)
        }
    } else {
        Some((acc, s))
    }
}

/// Consumes a number: at least one digit, then the maximal digit run.
pub open spec fn sp_number(s: Seq<char>) -> Option<(u64, Seq<char>)> {
    if s.len() > 0 && spec_is_digit(s[0]) {
        sp_digits_u64(s, 0)
    } else {
        None
    }
}

/// Consumes one raw extension value, kept verbatim.
pub open spec fn sp_raw_value(s: Seq<char>) -> Option<(Seq<char>, Seq<char>)> {
    sp_scan(s, Seq::empty(), 0, false, false)
}

/// A successful string parse consumes at least the closing quote.
pub proof fn lemma_sp_string_shrinks(s: Seq<char>, acc: Seq<char>, racc: Seq<char>)
    ensures
        sp_string(s, acc, racc) matches Some(t) ==> t.2.len() < s.len(),
    decreases s.len(),
{
    if s.len() == 0 {
    } else if s[0] == '"' {
    } else if s[0] == '\\' {
        if s.len() >= 2 && (s[1] == '"' || s[1] == '\\') {
            lemma_sp_string_shrinks(s.skip(2), acc.push(s[1]), racc.push('\\').push(s[1]));
        } else if s.len() >= 6 && s[1] == 'u' && s[2] == '0' && s[3] == '0'
            && spec_is_upper_hex_digit(s[4]) && spec_is_upper_hex_digit(s[5]) && hex_digit_val(
            s[4],
        ) * 16 + hex_digit_val(s[5]) <= 0x1f {
            lemma_sp_string_shrinks(
                s.skip(6),
                acc.push(((hex_digit_val(s[4]) * 16 + hex_digit_val(s[5])) as u8) as char),
                racc + seq!['\\', 'u', '0', '0', s[4], s[5]],
            );
        }
    } else if is_json_safe(s[0]) {
        lemma_sp_string_shrinks(s.drop_first(), acc.push(s[0]), racc.push(s[0]));
    }
}

/// What a successful scan yields: the captured text extends the
/// accumulator with exactly the consumed prefix, something was captured,
/// and the scan stopped at a top-level delimiter that heads the rest.
proof fn lemma_sp_scan_split(s: Seq<char>, acc: Seq<char>, depth: nat, in_str: bool, esc: bool)
    ensures
        sp_scan(s, acc, depth, in_str, esc) matches Some(t) ==> {
            &&& t.0.len() >= acc.len()
            &&& t.0.len() > 0
            &&& t.0.take(acc.len() as int) == acc
            &&& s == t.0.skip(acc.len() as int) + t.1
            &&& t.1.len() > 0
            &&& (t.1[0] == ',' || t.1[0] == '}')
        },
    decreases s.len(),
{
    let l = acc.len() as int;
    if s.len() == 0 {
    } else if !in_str && depth == 0 && (s[0] == ',' || s[0] == '}') && acc.len() > 0 {
        assert(acc.take(l) =~= acc);
        assert(acc.skip(l) =~= Seq::<char>::empty());
        assert(acc.skip(l) + s =~= s);
    } else {
        match sp_scan_step(depth, in_str, esc, s[0]) {
            Some((d2, i2, e2)) => {
                lemma_sp_scan_split(s.drop_first(), acc.push(s[0]), d2, i2, e2);
                if sp_scan(s, acc, depth, in_str, esc) is Some {
                    let t = sp_scan(s, acc, depth, in_str, esc).unwrap();
                    assert(t.0.take(l + 1) == acc.push(s[0]));
                    assert(t.0.take(l) =~= acc) by {
                        assert(forall|k: int|
                            0 <= k < l ==> t.0.take(l + 1)[k] == #[trigger] acc.push(s[0])[k]);
                    }
                    assert(t.0[l] == s[0]) by {
                        assert(t.0.take(l + 1)[l] == acc.push(s[0])[l]);
                    }
                    assert(s.drop_first() == t.0.skip(l + 1) + t.1);
                    assert(s =~= t.0.skip(l) + t.1) by {
                        assert(t.0.skip(l).len() == t.0.len() - l);
                        assert forall|k: int| 0 <= k < s.len() implies s[k] == (t.0.skip(l)
                            + t.1)[k] by {
                            if k == 0 {
                                assert(t.0.skip(l)[0] == t.0[l]);
                            } else {
                                assert(s[k] == s.drop_first()[k - 1]);
                                assert(s.drop_first()[k - 1] == (t.0.skip(l + 1) + t.1)[k - 1]);
                                if k - 1 < t.0.len() - (l + 1) {
                                    assert((t.0.skip(l + 1) + t.1)[k - 1] == t.0[l + 1 + (k - 1)]);
                                    assert((t.0.skip(l) + t.1)[k] == t.0.skip(l)[k] == t.0[l + k]);
                                } else {
                                    assert((t.0.skip(l + 1) + t.1)[k - 1] == t.1[k - 1 - (t.0.len()
                                        - (l + 1))]);
                                    assert((t.0.skip(l) + t.1)[k] == t.1[k - (t.0.len() - l)]);
                                }
                            }
                        }
                    }
                }
            },
            None => {},
        }
    }
}

/// The scan's decisions depend only on the span itself: a span scanned
/// exactly before one delimiter-headed rest is scanned exactly before any
/// other.
proof fn lemma_sp_scan_extend(
    v: Seq<char>,
    r1: Seq<char>,
    r2: Seq<char>,
    acc: Seq<char>,
    depth: nat,
    in_str: bool,
    esc: bool,
)
    requires
        sp_scan(v + r1, acc, depth, in_str, esc) == Some((acc + v, r1)),
        r2.len() > 0,
        r2[0] == ',' || r2[0] == '}',
    ensures
        sp_scan(v + r2, acc, depth, in_str, esc) == Some((acc + v, r2)),
    decreases v.len(),
{
    let s1 = v + r1;
    let s2 = v + r2;
    lemma_sp_scan_split(s1, acc, depth, in_str, esc);
    if v.len() == 0 {
        assert(s1 =~= r1);
        assert(s2 =~= r2);
        assert(acc + v =~= acc);
        assert(r1.len() > 0);
        if !(!in_str && depth == 0 && (s1[0] == ',' || s1[0] == '}') && acc.len() > 0) {
            match sp_scan_step(depth, in_str, esc, s1[0]) {
                Some((d2, i2, e2)) => {
                    lemma_sp_scan_split(s1.drop_first(), acc.push(s1[0]), d2, i2, e2);
                    assert(false);
                },
                None => {
                    assert(false);
                },
            }
        }
        assert(sp_scan(s2, acc, depth, in_str, esc) == Some((acc, s2)));
    } else {
        assert(s1[0] == v[0]);
        assert(s2[0] == v[0]);
        if !in_str && depth == 0 && (v[0] == ',' || v[0] == '}') && acc.len() > 0 {
            assert(sp_scan(s1, acc, depth, in_str, esc) == Some((acc, s1)));
            assert(acc.len() == acc.len() + v.len());
            assert(false);
        }
        match sp_scan_step(depth, in_str, esc, v[0]) {
            Some((d2, i2, e2)) => {
                assert(s1.drop_first() =~= v.drop_first() + r1);
                assert(s2.drop_first() =~= v.drop_first() + r2);
                assert(acc + v =~= acc.push(v[0]) + v.drop_first());
                lemma_sp_scan_extend(v.drop_first(), r1, r2, acc.push(v[0]), d2, i2, e2);
            },
            None => {
                assert(false);
            },
        }
    }
}

/// A successful raw value consumes at least one character.
pub proof fn lemma_sp_raw_value_shrinks(s: Seq<char>)
    ensures
        sp_raw_value(s) matches Some(t) ==> t.1.len() < s.len(),
{
    lemma_sp_scan_split(s, Seq::empty(), 0, false, false);
    if sp_raw_value(s) is Some {
        let t = sp_raw_value(s).unwrap();
        assert(t.0.skip(0) =~= t.0);
    }
}

/// Consumes digits while they last.
pub open spec fn sp_skip_digits(s: Seq<char>) -> Seq<char>
    decreases s.len(),
{
    if s.len() > 0 && spec_is_digit(s[0]) {
        sp_skip_digits(s.drop_first())
    } else {
        s
    }
}

/// Consumes at least one digit, then the maximal run.
pub open spec fn sp_digits1(s: Seq<char>) -> Option<Seq<char>> {
    if s.len() > 0 && spec_is_digit(s[0]) {
        Some(sp_skip_digits(s))
    } else {
        None
    }
}

/// Consumes a JSON number in compact form: optional minus, digits, an
/// optional fraction, an optional exponent.
pub open spec fn sp_json_number(s: Seq<char>) -> Option<Seq<char>> {
    let s0 = if s.len() > 0 && s[0] == '-' {
        s.drop_first()
    } else {
        s
    };
    match sp_digits1(s0) {
        None => None,
        Some(r1) => {
            let r2opt = if r1.len() > 0 && r1[0] == '.' {
                sp_digits1(r1.drop_first())
            } else {
                Some(r1)
            };
            match r2opt {
                None => None,
                Some(r2) => {
                    if r2.len() > 0 && (r2[0] == 'e' || r2[0] == 'E') {
                        let r3 = r2.drop_first();
                        let r4 = if r3.len() > 0 && (r3[0] == '+' || r3[0] == '-') {
                            r3.drop_first()
                        } else {
                            r3
                        };
                        sp_digits1(r4)
                    } else {
                        Some(r2)
                    }
                },
            }
        },
    }
}

/// Consumes one JSON value in compact form (no insignificant whitespace):
/// a string in this library's canonical escaping, a number, a literal, an
/// object or an array.  The fuel bounds the recursion; three units per
/// consumed character always suffice.
pub open spec fn sp_json_value(s: Seq<char>, fuel: nat) -> Option<Seq<char>>
    decreases fuel,
{
    if fuel == 0 {
        None
    } else if s.len() == 0 {
        None
    } else if s[0] == '"' {
        match sp_string(s.drop_first(), Seq::empty(), Seq::empty()) {
            Some((c, raw, rest)) => Some(rest),
            None => None,
        }
    } else if s[0] == 't' {
        sp_lit(s, "true"@)
    } else if s[0] == 'f' {
        sp_lit(s, "false"@)
    } else if s[0] == 'n' {
        sp_lit(s, "null"@)
    } else if s[0] == '{' {
        sp_json_object(s.drop_first(), (fuel - 1) as nat)
    } else if s[0] == '[' {
        sp_json_array(s.drop_first(), (fuel - 1) as nat)
    } else {
        sp_json_number(s)
    }
}

/// Consumes the inside of an object after its opening brace.
pub open spec fn sp_json_object(s: Seq<char>, fuel: nat) -> Option<Seq<char>>
    decreases fuel,
{
    if fuel == 0 {
        None
    } else if s.len() == 0 {
        None
    } else if s[0] == '}' {
        Some(s.drop_first())
    } else {
        sp_json_members(s, (fuel - 1) as nat)
    }
}

/// Consumes one or more `"key":value` members and the closing brace.
pub open spec fn sp_json_members(s: Seq<char>, fuel: nat) -> Option<Seq<char>>
    decreases fuel,
{
    if fuel == 0 {
        None
    } else if s.len() == 0 || s[0] != '"' {
        None
    } else {
        match sp_string(s.drop_first(), Seq::empty(), Seq::empty()) {
            None => None,
            Some((k, raw, rest)) => {
                if rest.len() > 0 && rest[0] == ':' {
                    match sp_json_value(rest.drop_first(), (fuel - 1) as nat) {
                        None => None,
                        Some(rest2) => {
                            if rest2.len() > 0 && rest2[0] == ',' {
                                sp_json_members(rest2.drop_first(), (fuel - 1) as nat)
                            } else if rest2.len() > 0 && rest2[0] == '}' {
                                Some(rest2.drop_first())
                            } else {
                                None
                            }
                        },
                    }
                } else {
                    None
                }
            },
        }
    }
}

/// Consumes the inside of an array after its opening bracket.
pub open spec fn sp_json_array(s: Seq<char>, fuel: nat) -> Option<Seq<char>>
    decreases fuel,
{
    if fuel == 0 {
        None
    } else if s.len() == 0 {
        None
    } else if s[0] == ']' {
        Some(s.drop_first())
    } else {
        sp_json_elems(s, (fuel - 1) as nat)
    }
}

/// Consumes one or more array elements and the closing bracket.
pub open spec fn sp_json_elems(s: Seq<char>, fuel: nat) -> Option<Seq<char>>
    decreases fuel,
{
    if fuel == 0 {
        None
    } else {
        match sp_json_value(s, (fuel - 1) as nat) {
            None => None,
            Some(rest) => {
                if rest.len() > 0 && rest[0] == ',' {
                    sp_json_elems(rest.drop_first(), (fuel - 1) as nat)
                } else if rest.len() > 0 && rest[0] == ']' {
                    Some(rest.drop_first())
                } else {
                    None
                }
            },
        }
    }
}

/// Whether a string is one complete JSON value in compact form, under this
/// library's canonical string escaping.
pub open spec fn spec_is_json_value(v: Seq<char>) -> bool {
    sp_json_value(v, 3 * v.len() + 3) == Some(Seq::<char>::empty())
}

/// A parsed string's raw text is always the canonical literal of its
/// content: the parser accepts only canonical escapes.
pub proof fn lemma_sp_string_raw_shape(s: Seq<char>, acc: Seq<char>, racc: Seq<char>)
    ensures
        sp_string(s, acc, racc) matches Some(t) ==> exists|t2: Seq<char>|
            t.0 == acc + t2 && t.1 == racc + spec_escape(t2).push('"'),
    decreases s.len(),
{
    if s.len() == 0 {
    } else if s[0] == '"' {
        if sp_string(s, acc, racc) is Some {
            let t = sp_string(s, acc, racc).unwrap();
            let t2 = Seq::<char>::empty();
            assert(acc + t2 =~= acc);
            assert(racc + spec_escape(t2).push('"') =~= racc.push('"'));
            assert(t.0 == acc + t2 && t.1 == racc + spec_escape(t2).push('"'));
        }
    } else if s[0] == '\\' {
        if s.len() >= 2 && (s[1] == '"' || s[1] == '\\') {
            lemma_sp_string_raw_shape(s.skip(2), acc.push(s[1]), racc.push('\\').push(s[1]));
            if sp_string(s, acc, racc) is Some {
                let t = sp_string(s, acc, racc).unwrap();
                let t3 = choose|t3: Seq<char>|
                    t.0 == acc.push(s[1]) + t3 && t.1 == racc.push('\\').push(s[1]) + spec_escape(
                        t3,
                    ).push('"');
                let t2 = seq![s[1]] + t3;
                assert(acc + t2 =~= acc.push(s[1]) + t3);
                assert(t2[0] == s[1]);
                assert(t2.drop_first() =~= t3);
                assert(spec_escape(t2) == seq!['\\', s[1]] + spec_escape(t3));
                assert(racc + spec_escape(t2).push('"') =~= racc.push('\\').push(s[1])
                    + spec_escape(t3).push('"'));
                assert(t.0 == acc + t2 && t.1 == racc + spec_escape(t2).push('"'));
            }
        } else if s.len() >= 6 && s[1] == 'u' && s[2] == '0' && s[3] == '0'
            && spec_is_upper_hex_digit(s[4]) && spec_is_upper_hex_digit(s[5]) && hex_digit_val(
            s[4],
        ) * 16 + hex_digit_val(s[5]) <= 0x1f {
            let v = hex_digit_val(s[4]) * 16 + hex_digit_val(s[5]);
            let vc = (v as u8) as char;
            let e = seq!['\\', 'u', '0', '0', s[4], s[5]];
            lemma_sp_string_raw_shape(s.skip(6), acc.push(vc), racc + e);
            if sp_string(s, acc, racc) is Some {
                let t = sp_string(s, acc, racc).unwrap();
                let t3 = choose|t3: Seq<char>|
                    t.0 == acc.push(vc) + t3 && t.1 == (racc + e) + spec_escape(t3).push('"');
                let t2 = seq![vc] + t3;
                lemma_upper_hex_digit_char(s[4]);
                lemma_upper_hex_digit_char(s[5]);
                assert(0 <= v <= 0x1f);
                assert(vc as int == v);
                assert('\0' <= vc && vc <= '\u{1f}');
                assert(vc != '"' && vc != '\\');
                assert(v / 16 == hex_digit_val(s[4]) && v % 16 == hex_digit_val(s[5]))
                    by (nonlinear_arith)
                    requires
                        v == hex_digit_val(s[4]) * 16 + hex_digit_val(s[5]),
                        0 <= hex_digit_val(s[4]) < 16,
                        0 <= hex_digit_val(s[5]) < 16,
                {
                }
                assert(hex_digit_char_upper(vc as int / 16) == s[4]);
                assert(hex_digit_char_upper(vc as int % 16) == s[5]);
                assert(spec_escape_char(vc) =~= e);
                assert(t2[0] == vc);
                assert(t2.drop_first() =~= t3);
                assert(spec_escape(t2) == spec_escape_char(vc) + spec_escape(t3));
                assert(acc + t2 =~= acc.push(vc) + t3);
                assert(racc + spec_escape(t2).push('"') =~= (racc + e) + spec_escape(t3).push(
                    '"',
                ));
                assert(t.0 == acc + t2 && t.1 == racc + spec_escape(t2).push('"'));
            }
        }
    } else if is_json_safe(s[0]) {
        lemma_sp_string_raw_shape(s.drop_first(), acc.push(s[0]), racc.push(s[0]));
        if sp_string(s, acc, racc) is Some {
            let t = sp_string(s, acc, racc).unwrap();
            let t3 = choose|t3: Seq<char>|
                t.0 == acc.push(s[0]) + t3 && t.1 == racc.push(s[0]) + spec_escape(t3).push('"');
            let t2 = seq![s[0]] + t3;
            assert(acc + t2 =~= acc.push(s[0]) + t3);
            assert(t2[0] == s[0]);
            assert(t2.drop_first() =~= t3);
            assert(spec_escape(t2) == seq![s[0]] + spec_escape(t3));
            assert(racc + spec_escape(t2).push('"') =~= racc.push(s[0]) + spec_escape(t3).push(
                '"',
            ));
            assert(t.0 == acc + t2 && t.1 == racc + spec_escape(t2).push('"'));
        }
    }
}

/// Every raw value the parser accepts is representable: the captured span
/// itself scans exactly before any delimiter.
proof fn lemma_sp_raw_value_wf(s: Seq<char>)
    ensures
        sp_raw_value(s) matches Some(t) ==> wf_extra_value(t.0),
{
    if sp_raw_value(s) is Some {
        let t = sp_raw_value(s).unwrap();
        lemma_sp_scan_split(s, Seq::empty(), 0, false, false);
        assert(t.0.skip(0) =~= t.0);
        assert(s == t.0 + t.1);
        assert(Seq::<char>::empty() + t.0 =~= t.0);
        lemma_sp_scan_extend(t.0, t.1, seq![','], Seq::empty(), 0, false, false);
    }
}

/// Every extension value the extras parser collects is representable.
proof fn lemma_sp_extras_values_wf(s: Seq<char>, acc: Seq<(Seq<char>, Seq<char>)>)
    requires
        forall|i: int| 0 <= i < acc.len() ==> wf_extra_value((#[trigger] acc[i]).1),
    ensures
        sp_extras(s, acc) matches Some(res) ==> forall|i: int|
            0 <= i < res.len() ==> wf_extra_value((#[trigger] res[i]).1),
    decreases s.len(),
{
    if s.len() == 0 {
    } else if s[0] == '}' {
    } else if s[0] == ',' && s.len() >= 2 && s[1] == '"' {
        if sp_string(s.skip(2), Seq::empty(), Seq::empty()) is Some {
            let t = sp_string(s.skip(2), Seq::empty(), Seq::empty()).unwrap();
            let (k, rest) = (t.0, t.2);
            lemma_sp_string_shrinks(s.skip(2), Seq::empty(), Seq::empty());
            if rest.len() > 0 && rest[0] == ':' {
                if sp_raw_value(rest.drop_first()) is Some {
                    let rv = sp_raw_value(rest.drop_first()).unwrap();
                    lemma_sp_raw_value_shrinks(rest.drop_first());
                    lemma_sp_raw_value_wf(rest.drop_first());
                    assert(forall|i: int|
                        0 <= i < acc.push((k, rv.0)).len() ==> wf_extra_value(
                            (#[trigger] acc.push((k, rv.0))[i]).1,
                        ));
                    lemma_sp_extras_values_wf(rv.1, acc.push((k, rv.0)));
                }
            }
        }
    }
}

/// Consumes the extension pairs and the closing brace, which must end the
/// input exactly.
pub open spec fn sp_extras(s: Seq<char>, acc: Seq<(Seq<char>, Seq<char>)>) -> Option<
    Seq<(Seq<char>, Seq<char>)>,
>
    decreases s.len(),
    via sp_extras_decreases
{
    if s.len() == 0 {
        None
    } else if s[0] == '}' {
        if s.len() == 1 {
            Some(acc)
        } else {
            None
        }
    } else if s[0] == ',' && s.len() >= 2 && s[1] == '"' {
        match sp_string(s.skip(2), Seq::empty(), Seq::empty()) {
            Some((k, kraw, rest)) => {
                if rest.len() > 0 && rest[0] == ':' {
                    match sp_raw_value(rest.drop_first()) {
                        Some((v, rest2)) => sp_extras(rest2, acc.push((k, v))),
                        None => None,
                    }
                } else {
                    None
                }
            },
            None => None,
        }
    } else {
        None
    }
}

#[via_fn]
proof fn sp_extras_decreases(s: Seq<char>, acc: Seq<(Seq<char>, Seq<char>)>) {
    if s.len() > 0 && s[0] != '}' && s[0] == ',' && s.len() >= 2 && s[1] == '"' {
        lemma_sp_string_shrinks(s.skip(2), Seq::empty(), Seq::empty());
        if let Some((k, kraw, rest)) = sp_string(s.skip(2), Seq::empty(), Seq::empty()) {
            if rest.len() > 0 && rest[0] == ':' {
                lemma_sp_raw_value_shrinks(rest.drop_first());
            }
        }
    }
}

/// Consumes an optional string field: the literal (key and opening quote)
/// followed by a string when present, nothing when absent.
pub open spec fn sp_opt_field(s: Seq<char>, lit: Seq<char>) -> Option<
    (Option<Seq<char>>, Seq<char>),
> {
    match sp_lit(s, lit) {
        Some(s2) => match sp_string(s2, Seq::empty(), Seq::empty()) {
            Some((v, raw, rest)) => Some((Some(v), rest)),
            None => None,
        },
        None => Some((None, s)),
    }
}

/// Parses a whole payload object back into its claims content.
pub open spec fn sp_parse_claims(s: Seq<char>) -> Option<ClaimsView> {
    match sp_lit(s, "{\"id\":\""@) {
        None => None,
        Some(s1) => match sp_string(s1, Seq::empty(), Seq::empty()) {
            None => None,
            Some((id, idraw, s2)) => match sp_lit(s2, ",\"exp\":"@) {
                None => None,
                Some(s3) => match sp_number(s3) {
                    None => None,
                    Some((exp, s4)) => match sp_opt_field(s4, ",\"aud\":\""@) {
                        None => None,
                        Some((aud, s5)) => match sp_lit(s5, ",\"iat\":"@) {
                            None => None,
                            Some(s6) => match sp_number(s6) {
                                None => None,
                                Some((iat, s7)) => match sp_opt_field(s7, ",\"iss\":\""@) {
                                    None => None,
                                    Some((iss, s8)) => match sp_lit(s8, ",\"nbf\":"@) {
                                        None => None,
                                        Some(s9) => match sp_number(s9) {
                                            None => None,
                                            Some((nbf, s10)) => match sp_lit(s10, ",\"sub\":\""@) {
                                                None => None,
                                                Some(s11) => match sp_string(
                                                    s11,
                                                    Seq::empty(),
                                                    Seq::empty(),
                                                ) {
                                                    None => None,
                                                    Some((sub, subraw, s12)) => match sp_lit(
                                                        s12,
                                                        ",\"purpose\":\""@,
                                                    ) {
                                                        None => None,
                                                        Some(s13) => match sp_string(
                                                            s13,
                                                            Seq::empty(),
                                                            Seq::empty(),
                                                        ) {
                                                            None => None,
                                                            Some((purpose, praw, s14)) => match sp_extras(
                                                                s14,
                                                                Seq::empty(),
                                                            ) {
                                                                None => None,
                                                                Some(extras) => Some(
                                                                    ClaimsView {
                                                                        id,
                                                                        exp,
                                                                        aud,
                                                                        iat,
                                                                        iss,
                                                                        nbf,
                                                                        sub,
                                                                        purpose,
                                                                        additional_claims: extras,
                                                                    },
                                                                ),
                                                            },
                                                        },
                                                    },
                                                },
                                            },
                                        },
                                    },
                                },
                            },
                        },
                    },
                },
            },
        },
    }
}

proof fn lemma_skip_skip(s: Seq<char>, a: int, b: int)
    requires
        0 <= a,
        0 <= b,
        a + b <= s.len(),
    ensures
        s.skip(a).skip(b) == s.skip(a + b),
{
    assert(s.skip(a).skip(b) =~= s.skip(a + b));
}

/// Consumes `lit` at position `i`, character for character.
fn exec_lit(s: &str, i: usize, lit: &str) -> (r: Option<usize>)
    requires
        i <= s@.len(),
    ensures
        r matches Some(j) ==> i <= j <= s@.len() && sp_lit(s@.skip(i as int), lit@) == Some(
            s@.skip(j as int),
        ),
        r is None ==> sp_lit(s@.skip(i as int), lit@) is None,
{
    let len = s.unicode_len();
    let n = lit.unicode_len();
    if n > len - i {
        return None;
    }
    let mut k: usize = 0;
    while k < n
        invariant
            len == s@.len(),
            n == lit@.len(),
            i + n <= len,
            k <= n,
            forall|m: int| 0 <= m < k ==> s@[i + m] == lit@[m],
        decreases n - k,
    {
        if s.get_char(i + k) != lit.get_char(k) {
            proof {
                assert(s@.skip(i as int)[k as int] != lit@[k as int]);
                assert(s@.skip(i as int).len() >= lit@.len() ==> s@.skip(i as int).take(
                    n as int,
                )[k as int] != lit@[k as int]);
            }
            return None;
        }
        k = k + 1;
    }
    proof {
        assert(s@.skip(i as int).take(n as int) =~= lit@);
        lemma_skip_skip(s@, i as int, n as int);
    }
    Some(i + n)
}

/// Consumes a string body from position `i` (just past the opening quote),
/// extending `acc` with the content and `racc` with the raw text.
pub(crate) fn exec_string(s: &str, i: usize, acc: String, racc: String) -> (r: Option<(String, String, usize)>)
    requires
        i <= s@.len(),
    ensures
        r matches Some(t) ==> i < t.2 <= s@.len() && sp_string(s@.skip(i as int), acc@, racc@)
            == Some((t.0@, t.1@, s@.skip(t.2 as int))),
        r is None ==> sp_string(s@.skip(i as int), acc@, racc@) is None,
{
    let len = s.unicode_len();
    let mut j = i;
    let mut con = acc;
    let mut raw = racc;
    loop
        invariant
            i <= j <= len,
            len == s@.len(),
            sp_string(s@.skip(i as int), acc@, racc@) == sp_string(s@.skip(j as int), con@, raw@),
        decreases len - j,
    {
        if j >= len {
            proof {
                assert(s@.skip(j as int).len() == 0);
            }
            return None;
        }
        let c = s.get_char(j);
        proof {
            assert(s@.skip(j as int)[0] == s@[j as int]);
        }
        if c == '"' {
            raw.push('"');
            proof {
                assert(s@.skip(j as int).drop_first() =~= s@.skip(j + 1));
            }
            return Some((con, raw, j + 1));
        } else if c == '\\' {
            if j + 1 >= len {
                proof {
                    assert(s@.skip(j as int).len() < 2);
                }
                return None;
            }
            let c2 = s.get_char(j + 1);
            proof {
                assert(s@.skip(j as int)[1] == s@[j + 1]);
            }
            if c2 == '"' || c2 == '\\' {
                let ghost old_j = j as int;
                let ghost old_con = con@;
                let ghost old_raw = raw@;
                con.push(c2);
                raw.push('\\');
                raw.push(c2);
                proof {
                    lemma_skip_skip(s@, old_j, 2);
                    assert(sp_string(s@.skip(old_j), old_con, old_raw) == sp_string(
                        s@.skip(old_j + 2),
                        con@,
                        raw@,
                    ));
                }
                j = j + 2;
            } else if c2 == 'u' && len - j > 5 {
                let c3 = s.get_char(j + 2);
                let c4 = s.get_char(j + 3);
                let h1 = s.get_char(j + 4);
                let h2 = s.get_char(j + 5);
                proof {
                    assert(s@.skip(j as int)[2] == s@[j + 2]);
                    assert(s@.skip(j as int)[3] == s@[j + 3]);
                    assert(s@.skip(j as int)[4] == s@[j + 4]);
                    assert(s@.skip(j as int)[5] == s@[j + 5]);
                }
                let h1_ok = ('0' <= h1 && h1 <= '9') || ('A' <= h1 && h1 <= 'F');
                let h2_ok = ('0' <= h2 && h2 <= '9') || ('A' <= h2 && h2 <= 'F');
                if c3 == '0' && c4 == '0' && h1_ok && h2_ok {
                    let v: u8 = crate::hex_codec::hex_digit_value_exec(h1) * 16
                        + crate::hex_codec::hex_digit_value_exec(h2);
                    if v <= 0x1f {
                        let ghost old_j = j as int;
                        let ghost old_con = con@;
                        let ghost old_raw = raw@;
                        con.push(v as char);
                        raw.push('\\');
                        raw.push('u');
                        raw.push('0');
                        raw.push('0');
                        raw.push(h1);
                        raw.push(h2);
                        proof {
                            lemma_skip_skip(s@, old_j, 6);
                            assert(raw@ =~= old_raw + seq!['\\', 'u', '0', '0', h1, h2]);
                            assert(sp_string(s@.skip(old_j), old_con, old_raw) == sp_string(
                                s@.skip(old_j + 6),
                                con@,
                                raw@,
                            ));
                        }
                        j = j + 6;
                    } else {
                        return None;
                    }
                } else {
                    return None;
                }
            } else {
                proof {
                    if c2 == 'u' {
                        assert(s@.skip(j as int).len() < 6);
                    }
                }
                return None;
            }
        } else if '\0' <= c && c <= '\u{1f}' {
            return None;
        } else {
            let ghost old_j = j as int;
            let ghost old_con = con@;
            let ghost old_raw = raw@;
            con.push(c);
            raw.push(c);
            proof {
                assert(s@.skip(old_j).drop_first() =~= s@.skip(old_j + 1));
                assert(sp_string(s@.skip(old_j), old_con, old_raw) == sp_string(
                    s@.skip(old_j + 1),
                    con@,
                    raw@,
                ));
            }
            j = j + 1;
        }
    }
}

/// Consumes a number at position `i`.
fn exec_number(s: &str, i: usize) -> (r: Option<(u64, usize)>)
    requires
        i <= s@.len(),
    ensures
        r matches Some(t) ==> i < t.1 <= s@.len() && sp_number(s@.skip(i as int)) == Some(
            (t.0, s@.skip(t.1 as int)),
        ),
        r is None ==> sp_number(s@.skip(i as int)) is None,
{
    let len = s.unicode_len();
    if i >= len {
        proof {
            assert(s@.skip(i as int).len() == 0);
        }
        return None;
    }
    let c0 = s.get_char(i);
    proof {
        assert(s@.skip(i as int)[0] == s@[i as int]);
    }
    if !('0' <= c0 && c0 <= '9') {
        return None;
    }
    let mut j = i;
    let mut acc: u64 = 0;
    loop
        invariant
            i <= j <= len,
            i < len,
            len == s@.len(),
            spec_is_digit(s@[i as int]),
            sp_number(s@.skip(i as int)) == sp_digits_u64(s@.skip(j as int), acc),
        decreases len - j,
    {
        if j >= len {
            proof {
                assert(s@.skip(j as int).len() == 0);
                assert(j > i);
            }
            return Some((acc, j));
        }
        let c = s.get_char(j);
        proof {
            assert(s@.skip(j as int)[0] == s@[j as int]);
        }
        if '0' <= c && c <= '9' {
            let d: u64 = (c as u32 - '0' as u32) as u64;
            if acc > (u64::MAX - d) / 10 {
                proof {
                    assert(acc * 10 + d > u64::MAX);
                }
                return None;
            }
            proof {
                assert(s@.skip(j as int).drop_first() =~= s@.skip(j + 1));
                assert(acc * 10 + d <= u64::MAX);
            }
            acc = acc * 10 + d;
            j = j + 1;
        } else {
            proof {
                assert(j != i);
            }
            return Some((acc, j));
        }
    }
}

/// Consumes one raw extension value at position `i`.
pub(crate) fn exec_raw_value(s: &str, i: usize) -> (r: Option<(String, usize)>)
    requires
        i <= s@.len(),
    ensures
        r matches Some(t) ==> i < t.1 <= s@.len() && sp_raw_value(s@.skip(i as int)) == Some(
            (t.0@, s@.skip(t.1 as int)),
        ),
        r is None ==> sp_raw_value(s@.skip(i as int)) is None,
{
    let len = s.unicode_len();
    let mut j = i;
    let mut acc = String::new();
    let mut depth: usize = 0;
    let mut in_str = false;
    let mut esc = false;
    loop
        invariant
            i <= j <= len,
            len == s@.len(),
            depth <= j - i,
            acc@.len() == j - i,
            !in_str ==> !esc,
            sp_raw_value(s@.skip(i as int)) == sp_scan(
                s@.skip(j as int),
                acc@,
                depth as nat,
                in_str,
                esc,
            ),
        decreases len - j,
    {
        if j >= len {
            proof {
                assert(s@.skip(j as int).len() == 0);
            }
            return None;
        }
        let c = s.get_char(j);
        proof {
            assert(s@.skip(j as int)[0] == s@[j as int]);
        }
        if !in_str && depth == 0 && (c == ',' || c == '}') && j > i {
            return Some((acc, j));
        }
        let ghost old_j = j as int;
        let ghost old_acc = acc@;
        let ghost old_depth = depth as nat;
        let ghost old_in_str = in_str;
        let ghost old_esc = esc;
        if in_str {
            if esc {
                esc = false;
            } else if c == '\\' {
                esc = true;
            } else if c == '"' {
                in_str = false;
            }
        } else {
            if c == '"' {
                in_str = true;
            } else if c == '{' || c == '[' {
                depth = depth + 1;
            } else if c == '}' || c == ']' {
                if depth == 0 {
                    proof {
                        assert(sp_scan_step(old_depth, old_in_str, old_esc, c) is None);
                    }
                    return None;
                }
                depth = depth - 1;
            }
        }
        acc.push(c);
        j = j + 1;
        proof {
            assert(s@.skip(old_j).drop_first() =~= s@.skip(old_j + 1));
            assert(sp_scan_step(old_depth, old_in_str, old_esc, c) == Some(
                (depth as nat, in_str, esc),
            ));
            assert(sp_scan(s@.skip(old_j), old_acc, old_depth, old_in_str, old_esc) == sp_scan(
                s@.skip(old_j + 1),
                acc@,
                depth as nat,
                in_str,
                esc,
            ));
        }
    }
}

/// Consumes the extension pairs and the final brace from position `i`.
fn exec_extras(s: &str, i: usize) -> (r: Option<Vec<(String, String)>>)
    requires
        i <= s@.len(),
    ensures
        r matches Some(v) ==> sp_extras(s@.skip(i as int), Seq::empty()) == Some(
            crate::jwt_claims::pairs_view(v@),
        ),
        r is None ==> sp_extras(s@.skip(i as int), Seq::empty()) is None,
{
    let len = s.unicode_len();
    let mut j = i;
    let mut acc: Vec<(String, String)> = Vec::new();
    proof {
        assert(crate::jwt_claims::pairs_view(acc@) =~= Seq::<(Seq<char>, Seq<char>)>::empty());
    }
    loop
        invariant
            i <= j <= len,
            len == s@.len(),
            sp_extras(s@.skip(i as int), Seq::empty()) == sp_extras(
                s@.skip(j as int),
                crate::jwt_claims::pairs_view(acc@),
            ),
        decreases len - j,
    {
        if j >= len {
            proof {
                assert(s@.skip(j as int).len() == 0);
            }
            return None;
        }
        let c = s.get_char(j);
        proof {
            assert(s@.skip(j as int)[0] == s@[j as int]);
        }
        if c == '}' {
            if j + 1 == len {
                proof {
                    assert(s@.skip(j as int).len() == 1);
                }
                return Some(acc);
            } else {
                proof {
                    assert(s@.skip(j as int).len() != 1);
                }
                return None;
            }
        } else if c == ',' && j + 1 < len {
            let c2 = s.get_char(j + 1);
            proof {
                assert(s@.skip(j as int)[1] == s@[j + 1]);
            }
            if c2 == '"' {
                proof {
                    lemma_skip_skip(s@, j as int, 2);
                }
                match exec_string(s, j + 2, String::new(), String::new()) {
                    Some((k, _kraw, j2)) => {
                        if j2 < len {
                            let c3 = s.get_char(j2);
                            proof {
                                assert(s@.skip(j2 as int)[0] == s@[j2 as int]);
                            }
                            if c3 == ':' {
                                proof {
                                    assert(s@.skip(j2 as int).drop_first() =~= s@.skip(j2 + 1));
                                }
                                match exec_raw_value(s, j2 + 1) {
                                    Some((v, j3)) => {
                                        let ghost old_j = j as int;
                                        let ghost old_acc = acc@;
                                        acc.push((k, v));
                                        proof {
                                            assert(crate::jwt_claims::pairs_view(acc@)
                                                =~~= crate::jwt_claims::pairs_view(old_acc).push(
                                                (k@, v@),
                                            ));
                                        }
                                        j = j3;
                                    },
                                    None => {
                                        return None;
                                    },
                                }
                            } else {
                                return None;
                            }
                        } else {
                            proof {
                                assert(s@.skip(j2 as int).len() == 0);
                            }
                            return None;
                        }
                    },
                    None => {
                        return None;
                    },
                }
            } else {
                return None;
            }
        } else {
            proof {
                if c == ',' {
                    assert(s@.skip(j as int).len() < 2);
                }
            }
            return None;
        }
    }
}


/// Consumes at least one digit at position `i`, then the maximal run.
fn exec_digits1(s: &str, i: usize) -> (r: Option<usize>)
    requires
        i <= s@.len(),
    ensures
        r matches Some(j) ==> i < j <= s@.len() && sp_digits1(s@.skip(i as int)) == Some(
            s@.skip(j as int),
        ),
        r is None ==> sp_digits1(s@.skip(i as int)) is None,
{
    let len = s.unicode_len();
    if i >= len {
        proof {
            assert(s@.skip(i as int).len() == 0);
        }
        return None;
    }
    let c0 = s.get_char(i);
    proof {
        assert(s@.skip(i as int)[0] == s@[i as int]);
    }
    if !('0' <= c0 && c0 <= '9') {
        return None;
    }
    let mut j = i;
    loop
        invariant
            i <= j <= len,
            i < len,
            len == s@.len(),
            spec_is_digit(s@[i as int]),
            sp_skip_digits(s@.skip(i as int)) == sp_skip_digits(s@.skip(j as int)),
        decreases len - j,
    {
        if j >= len {
            proof {
                assert(s@.skip(j as int).len() == 0);
                assert(j > i);
            }
            return Some((j));
        }
        let c = s.get_char(j);
        proof {
            assert(s@.skip(j as int)[0] == s@[j as int]);
        }
        if '0' <= c && c <= '9' {
            proof {
                assert(s@.skip(j as int).drop_first() =~= s@.skip(j + 1));
            }
            j = j + 1;
        } else {
            proof {
                assert(j != i);
            }
            return Some(j);
        }
    }
}

/// Consumes a JSON number at position `i`.
fn exec_json_number(s: &str, i: usize) -> (r: Option<usize>)
    requires
        i <= s@.len(),
    ensures
        r matches Some(j) ==> i <= j <= s@.len() && sp_json_number(s@.skip(i as int)) == Some(
            s@.skip(j as int),
        ),
        r is None ==> sp_json_number(s@.skip(i as int)) is None,
{
    let len = s.unicode_len();
    let mut p = i;
    if p < len && s.get_char(p) == '-' {
        proof {
            assert(s@.skip(p as int)[0] == s@[p as int]);
            assert(s@.skip(p as int).drop_first() =~= s@.skip(p + 1));
        }
        p = p + 1;
    } else {
        proof {
            if p < len {
                assert(s@.skip(p as int)[0] == s@[p as int]);
            }
        }
    }
    let p1 = match exec_digits1(s, p) {
        Some(j) => j,
        None => {
            return None;
        },
    };
    let p2 = if p1 < len && s.get_char(p1) == '.' {
        proof {
            assert(s@.skip(p1 as int)[0] == s@[p1 as int]);
            assert(s@.skip(p1 as int).drop_first() =~= s@.skip(p1 + 1));
        }
        match exec_digits1(s, p1 + 1) {
            Some(j) => j,
            None => {
                return None;
            },
        }
    } else {
        proof {
            if p1 < len {
                assert(s@.skip(p1 as int)[0] == s@[p1 as int]);
            }
        }
        p1
    };
    if p2 < len {
        let ce = s.get_char(p2);
        proof {
            assert(s@.skip(p2 as int)[0] == s@[p2 as int]);
        }
        if ce == 'e' || ce == 'E' {
            proof {
                assert(s@.skip(p2 as int).drop_first() =~= s@.skip(p2 + 1));
            }
            let mut p3 = p2 + 1;
            if p3 < len {
                let cs = s.get_char(p3);
                proof {
                    assert(s@.skip(p3 as int)[0] == s@[p3 as int]);
                }
                if cs == '+' || cs == '-' {
                    proof {
                        assert(s@.skip(p3 as int).drop_first() =~= s@.skip(p3 + 1));
                    }
                    p3 = p3 + 1;
                }
            } else {
                proof {
                    assert(s@.skip(p3 as int).len() == 0);
                }
            }
            return exec_digits1(s, p3);
        }
    }
    Some(p2)
}

/// Consumes one JSON value at position `i`; the mirror of `sp_json_value`.
fn exec_json_value(s: &str, i: usize, fuel: u128) -> (r: Option<usize>)
    requires
        i <= s@.len(),
    ensures
        r matches Some(j) ==> i <= j <= s@.len() && sp_json_value(s@.skip(i as int), fuel as nat)
            == Some(s@.skip(j as int)),
        r is None ==> sp_json_value(s@.skip(i as int), fuel as nat) is None,
    decreases fuel,
{
    if fuel == 0 {
        return None;
    }
    let len = s.unicode_len();
    if i >= len {
        proof {
            assert(s@.skip(i as int).len() == 0);
        }
        return None;
    }
    let c = s.get_char(i);
    proof {
        assert(s@.skip(i as int)[0] == s@[i as int]);
    }
    if c == '"' {
        proof {
            assert(s@.skip(i as int).drop_first() =~= s@.skip(i + 1));
        }
        match exec_string(s, i + 1, String::new(), String::new()) {
            Some((_content, _raw, j)) => Some(j),
            None => None,
        }
    } else if c == 't' {
        exec_lit(s, i, "true")
    } else if c == 'f' {
        exec_lit(s, i, "false")
    } else if c == 'n' {
        exec_lit(s, i, "null")
    } else if c == '{' {
        proof {
            assert(s@.skip(i as int).drop_first() =~= s@.skip(i + 1));
        }
        exec_json_object(s, i + 1, fuel - 1)
    } else if c == '[' {
        proof {
            assert(s@.skip(i as int).drop_first() =~= s@.skip(i + 1));
        }
        exec_json_array(s, i + 1, fuel - 1)
    } else {
        exec_json_number(s, i)
    }
}

/// Consumes the inside of an object at position `i`.
fn exec_json_object(s: &str, i: usize, fuel: u128) -> (r: Option<usize>)
    requires
        i <= s@.len(),
    ensures
        r matches Some(j) ==> i <= j <= s@.len() && sp_json_object(s@.skip(i as int), fuel as nat)
            == Some(s@.skip(j as int)),
        r is None ==> sp_json_object(s@.skip(i as int), fuel as nat) is None,
    decreases fuel,
{
    if fuel == 0 {
        return None;
    }
    let len = s.unicode_len();
    if i >= len {
        proof {
            assert(s@.skip(i as int).len() == 0);
        }
        return None;
    }
    let c = s.get_char(i);
    proof {
        assert(s@.skip(i as int)[0] == s@[i as int]);
    }
    if c == '}' {
        proof {
            assert(s@.skip(i as int).drop_first() =~= s@.skip(i + 1));
        }
        Some(i + 1)
    } else {
        exec_json_members(s, i, fuel - 1)
    }
}

/// Consumes one or more object members and the closing brace at position `i`.
fn exec_json_members(s: &str, i: usize, fuel: u128) -> (r: Option<usize>)
    requires
        i <= s@.len(),
    ensures
        r matches Some(j) ==> i <= j <= s@.len() && sp_json_members(s@.skip(i as int), fuel as nat)
            == Some(s@.skip(j as int)),
        r is None ==> sp_json_members(s@.skip(i as int), fuel as nat) is None,
    decreases fuel,
{
    if fuel == 0 {
        return None;
    }
    let len = s.unicode_len();
    if i >= len {
        proof {
            assert(s@.skip(i as int).len() == 0);
        }
        return None;
    }
    let c = s.get_char(i);
    proof {
        assert(s@.skip(i as int)[0] == s@[i as int]);
    }
    if c != '"' {
        return None;
    }
    proof {
        assert(s@.skip(i as int).drop_first() =~= s@.skip(i + 1));
    }
    match exec_string(s, i + 1, String::new(), String::new()) {
        None => None,
        Some((_k, _raw, j)) => {
            if j < len {
                let c2 = s.get_char(j);
                proof {
                    assert(s@.skip(j as int)[0] == s@[j as int]);
                }
                if c2 == ':' {
                    proof {
                        assert(s@.skip(j as int).drop_first() =~= s@.skip(j + 1));
                    }
                    match exec_json_value(s, j + 1, fuel - 1) {
                        None => None,
                        Some(j2) => {
                            if j2 < len {
                                let c3 = s.get_char(j2);
                                proof {
                                    assert(s@.skip(j2 as int)[0] == s@[j2 as int]);
                                }
                                if c3 == ',' {
                                    proof {
                                        assert(s@.skip(j2 as int).drop_first() =~= s@.skip(
                                            j2 + 1,
                                        ));
                                    }
                                    exec_json_members(s, j2 + 1, fuel - 1)
                                } else if c3 == '}' {
                                    proof {
                                        assert(s@.skip(j2 as int).drop_first() =~= s@.skip(
                                            j2 + 1,
                                        ));
                                    }
                                    Some(j2 + 1)
                                } else {
                                    None
                                }
                            } else {
                                proof {
                                    assert(s@.skip(j2 as int).len() == 0);
                                }
                                None
                            }
                        },
                    }
                } else {
                    None
                }
            } else {
                proof {
                    assert(s@.skip(j as int).len() == 0);
                }
                None
            }
        },
    }
}

/// Consumes the inside of an array at position `i`.
fn exec_json_array(s: &str, i: usize, fuel: u128) -> (r: Option<usize>)
    requires
        i <= s@.len(),
    ensures
        r matches Some(j) ==> i <= j <= s@.len() && sp_json_array(s@.skip(i as int), fuel as nat)
            == Some(s@.skip(j as int)),
        r is None ==> sp_json_array(s@.skip(i as int), fuel as nat) is None,
    decreases fuel,
{
    if fuel == 0 {
        return None;
    }
    let len = s.unicode_len();
    if i >= len {
        proof {
            assert(s@.skip(i as int).len() == 0);
        }
        return None;
    }
    let c = s.get_char(i);
    proof {
        assert(s@.skip(i as int)[0] == s@[i as int]);
    }
    if c == ']' {
        proof {
            assert(s@.skip(i as int).drop_first() =~= s@.skip(i + 1));
        }
        Some(i + 1)
    } else {
        exec_json_elems(s, i, fuel - 1)
    }
}

/// Consumes one or more array elements and the closing bracket at `i`.
fn exec_json_elems(s: &str, i: usize, fuel: u128) -> (r: Option<usize>)
    requires
        i <= s@.len(),
    ensures
        r matches Some(j) ==> i <= j <= s@.len() && sp_json_elems(s@.skip(i as int), fuel as nat)
            == Some(s@.skip(j as int)),
        r is None ==> sp_json_elems(s@.skip(i as int), fuel as nat) is None,
    decreases fuel,
{
    if fuel == 0 {
        return None;
    }
    let len = s.unicode_len();
    match exec_json_value(s, i, fuel - 1) {
        None => None,
        Some(j) => {
            if j < len {
                let c = s.get_char(j);
                proof {
                    assert(s@.skip(j as int)[0] == s@[j as int]);
                }
                if c == ',' {
                    proof {
                        assert(s@.skip(j as int).drop_first() =~= s@.skip(j + 1));
                    }
                    exec_json_elems(s, j + 1, fuel - 1)
                } else if c == ']' {
                    proof {
                        assert(s@.skip(j as int).drop_first() =~= s@.skip(j + 1));
                    }
                    Some(j + 1)
                } else {
                    None
                }
            } else {
                proof {
                    assert(s@.skip(j as int).len() == 0);
                }
                None
            }
        },
    }
}

/// Whether a string is one complete compact JSON value, as the wire format
/// and the issuance gate require.
pub fn is_json_value(v: &str) -> (r: bool)
    ensures
        r == spec_is_json_value(v@),
{
    let len = v.unicode_len();
    let fuel: u128 = 3 * (len as u128) + 3;
    proof {
        assert(fuel as nat == 3 * v@.len() + 3);
        assert(v@.skip(0) =~= v@);
    }
    match exec_json_value(v, 0, fuel) {
        Some(j) => {
            if j == len {
                proof {
                    assert(v@.skip(j as int).len() == 0);
                    assert(v@.skip(j as int) =~= Seq::<char>::empty());
                }
                true
            } else {
                proof {
                    assert(v@.skip(j as int).len() != 0);
                }
                false
            }
        },
        None => false,
    }
}

/// Parses a payload string back into claims, exactly as the specification
/// parser does.
pub fn parse_claims(s: &str) -> (r: Option<JwtClaims>)
    ensures
        r matches Some(c) ==> sp_parse_claims(s@) == Some(c@),
        r matches Some(c) ==> claims_view_wf(c@),
        r is None ==> sp_parse_claims(s@) is None,
{
    proof {
        assert(s@.skip(0) =~= s@);
    }
    let i1 = match exec_lit(s, 0, "{\"id\":\"") {
        Some(j) => j,
        None => {
            return None;
        },
    };
    let (id, _idraw, i2) = match exec_string(s, i1, String::new(), String::new()) {
        Some(t) => t,
        None => {
            return None;
        },
    };
    let i3 = match exec_lit(s, i2, ",\"exp\":") {
        Some(j) => j,
        None => {
            return None;
        },
    };
    let (exp, i4) = match exec_number(s, i3) {
        Some(t) => t,
        None => {
            return None;
        },
    };
    let (aud, i5) = match exec_lit(s, i4, ",\"aud\":\"") {
        Some(j) => match exec_string(s, j, String::new(), String::new()) {
            Some((a, _ar, j2)) => (Some(a), j2),
            None => {
                return None;
            },
        },
        None => (None, i4),
    };
    let i6 = match exec_lit(s, i5, ",\"iat\":") {
        Some(j) => j,
        None => {
            return None;
        },
    };
    let (iat, i7) = match exec_number(s, i6) {
        Some(t) => t,
        None => {
            return None;
        },
    };
    let (iss, i8) = match exec_lit(s, i7, ",\"iss\":\"") {
        Some(j) => match exec_string(s, j, String::new(), String::new()) {
            Some((a, _ar, j2)) => (Some(a), j2),
            None => {
                return None;
            },
        },
        None => (None, i7),
    };
    let i9 = match exec_lit(s, i8, ",\"nbf\":") {
        Some(j) => j,
        None => {
            return None;
        },
    };
    let (nbf, i10) = match exec_number(s, i9) {
        Some(t) => t,
        None => {
            return None;
        },
    };
    let i11 = match exec_lit(s, i10, ",\"sub\":\"") {
        Some(j) => j,
        None => {
            return None;
        },
    };
    let (sub, _subraw, i12) = match exec_string(s, i11, String::new(), String::new()) {
        Some(t) => t,
        None => {
            return None;
        },
    };
    let i13 = match exec_lit(s, i12, ",\"purpose\":\"") {
        Some(j) => j,
        None => {
            return None;
        },
    };
    let (purpose, _praw, i14) = match exec_string(s, i13, String::new(), String::new()) {
        Some(t) => t,
        None => {
            return None;
        },
    };
    let extras = match exec_extras(s, i14) {
        Some(v) => v,
        None => {
            return None;
        },
    };
    proof {
        lemma_sp_extras_values_wf(s@.skip(i14 as int), Seq::empty());
    }
    Some(
        JwtClaims {
            id,
            exp,
            aud,
            iat,
            iss,
            nbf,
            sub,
            purpose,
            additional_claims: extras,
        },
    )
}

/// A literal prefix always parses off.
pub proof fn lemma_sp_lit_of(lit: Seq<char>, rest: Seq<char>)
    ensures
        sp_lit(lit + rest, lit) == Some(rest),
{
    assert((lit + rest).take(lit.len() as int) =~= lit);
    assert((lit + rest).skip(lit.len() as int) =~= rest);
}

/// Parsing the escape of `t` followed by a closing quote recovers `t`, its
/// raw text, and the rest.
pub proof fn lemma_sp_string_of_escape(t: Seq<char>, rest: Seq<char>, acc: Seq<char>, racc: Seq<char>)
    ensures
        sp_string(spec_escape(t) + seq!['"'] + rest, acc, racc) == Some(
            (acc + t, racc + spec_escape(t).push('"'), rest),
        ),
    decreases t.len(),
{
    let s = spec_escape(t) + seq!['"'] + rest;
    if t.len() == 0 {
        assert(s =~= seq!['"'] + rest);
        assert(s[0] == '"');
        assert(s.drop_first() =~= rest);
        assert(acc + t =~= acc);
        assert(racc + spec_escape(t).push('"') =~= racc.push('"'));
    } else {
        let c = t[0];
        let t2 = t.drop_first();
        let e = spec_escape_char(c);
        assert(spec_escape(t) == e + spec_escape(t2));
        assert(s =~= e + (spec_escape(t2) + seq!['"'] + rest));
        let s2 = spec_escape(t2) + seq!['"'] + rest;
        if c == '"' {
            assert(e =~= seq!['\\', '"']);
            assert(s[0] == '\\' && s[1] == '"');
            assert(s.skip(2) =~= s2);
            lemma_sp_string_of_escape(t2, rest, acc.push(c), racc.push('\\').push(c));
            assert(acc.push(c) + t2 =~= acc + t);
            assert(racc.push('\\').push(c) + spec_escape(t2).push('"') =~= racc + spec_escape(
                t,
            ).push('"'));
        } else if c == '\\' {
            assert(e =~= seq!['\\', '\\']);
            assert(s[0] == '\\' && s[1] == '\\');
            assert(s.skip(2) =~= s2);
            lemma_sp_string_of_escape(t2, rest, acc.push(c), racc.push('\\').push(c));
            assert(acc.push(c) + t2 =~= acc + t);
            assert(racc.push('\\').push(c) + spec_escape(t2).push('"') =~= racc + spec_escape(
                t,
            ).push('"'));
        } else if '\0' <= c && c <= '\u{1f}' {
            let hi = c as int / 16;
            let lo = c as int % 16;
            assert(0 <= c as int && c as int <= 0x1f);
            assert(0 <= hi < 16 && 0 <= lo < 16) by {
                assert(c as int / 16 <= 31int / 16);
            }
            assert(e =~= seq!['\\', 'u', '0', '0', hex_digit_char_upper(hi), hex_digit_char_upper(
                lo,
            )]);
            assert(s[0] == '\\' && s[1] == 'u' && s[2] == '0' && s[3] == '0');
            assert(s[4] == hex_digit_char_upper(hi) && s[5] == hex_digit_char_upper(lo));
            lemma_hex_digit_roundtrip(hi);
            lemma_hex_digit_roundtrip(lo);
            assert(spec_is_upper_hex_digit(s[4]) && hex_digit_val(s[4]) == hi);
            assert(spec_is_upper_hex_digit(s[5]) && hex_digit_val(s[5]) == lo);
            assert(hex_digit_val(s[4]) * 16 + hex_digit_val(s[5]) == c as int);
            let parsed = ((hex_digit_val(s[4]) * 16 + hex_digit_val(s[5])) as u8) as char;
            assert(parsed == c);
            assert(s.skip(6) =~= s2);
            lemma_sp_string_of_escape(t2, rest, acc.push(c), racc + e);
            assert(acc.push(c) + t2 =~= acc + t);
            assert((racc + e) + spec_escape(t2).push('"') =~= racc + spec_escape(t).push('"'));
        } else {
            assert(e =~= seq![c]);
            assert(s[0] == c);
            assert(is_json_safe(c));
            assert(s.drop_first() =~= s2);
            lemma_sp_string_of_escape(t2, rest, acc.push(c), racc.push(c));
            assert(acc.push(c) + t2 =~= acc + t);
            assert(racc.push(c) + spec_escape(t2).push('"') =~= racc + spec_escape(t).push('"'));
        }
    }
}

/// Every character of a decimal rendering is a digit, and there is at least
/// one.
pub proof fn lemma_dec_digits_are_digits(n: nat)
    ensures
        spec_dec_digits(n).len() >= 1,
        forall|i: int| 0 <= i < spec_dec_digits(n).len() ==> spec_is_digit(
            #[trigger] spec_dec_digits(n)[i],
        ),
    decreases n,
{
    if n < 10 {
        assert(spec_is_digit(hex_digit_char_upper(n as int)));
    } else {
        lemma_dec_digits_are_digits(n / 10);
        assert(spec_is_digit(hex_digit_char_upper((n % 10) as int)));
        assert(forall|i: int|
            0 <= i < spec_dec_digits(n).len() ==> spec_is_digit(#[trigger] spec_dec_digits(n)[i]));
    }
}

/// Ten to the `k`.
pub open spec fn pow10(k: nat) -> nat
    decreases k,
{
    if k == 0 {
        1
    } else {
        10 * pow10((k - 1) as nat)
    }
}

/// Consuming the decimal rendering of `m` scales the accumulator and adds
/// `m`, then parsing continues in the rest.
pub proof fn lemma_sp_digits_of_dec(m: nat, rest: Seq<char>, acc: u64)
    requires
        acc * pow10(spec_dec_digits(m).len()) + m <= u64::MAX,
    ensures
        sp_digits_u64(spec_dec_digits(m) + rest, acc) == sp_digits_u64(
            rest,
            (acc * pow10(spec_dec_digits(m).len()) + m) as u64,
        ),
    decreases m,
{
    let ds = spec_dec_digits(m);
    let s = ds + rest;
    lemma_dec_digits_are_digits(m);
    if m < 10 {
        assert(ds =~= seq![hex_digit_char_upper(m as int)]);
        assert(s[0] == hex_digit_char_upper(m as int));
        crate::hex_codec::lemma_hex_digit_roundtrip(m as int);
        assert(spec_is_digit(s[0]));
        assert(s[0] as int - '0' as int == m) by {
            assert(hex_digit_val(s[0]) == m as int);
        }
        assert(pow10(0) == 1);
        assert(pow10(1) == 10);
        assert(acc * 10 + m <= u64::MAX);
        assert(s.drop_first() =~= rest);
    } else {
        let d = (m % 10) as nat;
        let m2 = m / 10;
        let ds2 = spec_dec_digits(m2);
        assert(ds == ds2 + seq![hex_digit_char_upper(d as int)]);
        assert(ds.len() == ds2.len() + 1);
        let k2 = ds2.len();
        assert(pow10(ds.len()) == 10 * pow10(k2)) by {
            assert(ds.len() >= 1);
        }
        let tail = seq![hex_digit_char_upper(d as int)] + rest;
        assert(s =~= ds2 + tail);
        assert(acc * pow10(k2) + m2 <= u64::MAX) by (nonlinear_arith)
            requires
                acc * pow10(ds.len()) + m <= u64::MAX,
                pow10(ds.len()) == 10 * pow10(k2),
                m2 == m / 10,
                m >= 10,
                pow10(k2) >= 0,
                acc >= 0,
        {
        }
        lemma_sp_digits_of_dec(m2, tail, acc);
        let acc2 = (acc * pow10(k2) + m2) as u64;
        assert(sp_digits_u64(s, acc) == sp_digits_u64(tail, acc2));
        assert(tail[0] == hex_digit_char_upper(d as int));
        crate::hex_codec::lemma_hex_digit_roundtrip(d as int);
        assert(spec_is_digit(tail[0]));
        assert(tail[0] as int - '0' as int == d) by {
            assert(hex_digit_val(tail[0]) == d as int);
        }
        assert(acc2 * 10 + d == acc * pow10(ds.len()) + m) by (nonlinear_arith)
            requires
                acc2 == acc * pow10(k2) + m2,
                pow10(ds.len()) == 10 * pow10(k2),
                m2 == m / 10,
                d == m % 10,
                m >= 10,
        {
        }
        assert(acc2 * 10 + d <= u64::MAX);
        assert(tail.drop_first() =~= rest);
        assert(sp_digits_u64(tail, acc2) == sp_digits_u64(rest, (acc2 * 10 + d) as u64));
    }
}

/// Parsing the decimal rendering of `n` yields `n` and the rest, when the
/// rest does not begin with another digit.
pub proof fn lemma_sp_number_of_dec(n: u64, rest: Seq<char>)
    requires
        rest.len() == 0 || !spec_is_digit(rest[0]),
    ensures
        sp_number(spec_dec_digits(n as nat) + rest) == Some((n, rest)),
{
    let ds = spec_dec_digits(n as nat);
    let s = ds + rest;
    lemma_dec_digits_are_digits(n as nat);
    assert(s[0] == ds[0]);
    assert(spec_is_digit(s[0]));
    assert(pow10(ds.len()) >= 0);
    assert(0 * pow10(ds.len()) + n as nat <= u64::MAX) by (nonlinear_arith)
        requires
            pow10(ds.len()) >= 0,
            n <= u64::MAX,
    {
    }
    lemma_sp_digits_of_dec(n as nat, rest, 0);
    assert(sp_digits_u64(s, 0) == sp_digits_u64(rest, n));
    if rest.len() == 0 {
    } else {
        assert(!spec_is_digit(rest[0]));
    }
}


/// Parsing a well-formed raw value followed by a delimiter recovers it
/// verbatim.
pub proof fn lemma_sp_raw_value_of(v: Seq<char>, rest: Seq<char>)
    requires
        wf_extra_value(v),
        rest.len() > 0,
        rest[0] == ',' || rest[0] == '}',
    ensures
        sp_raw_value(v + rest) == Some((v, rest)),
{
    assert(Seq::<char>::empty() + v =~= v);
    lemma_sp_scan_extend(v, seq![','], rest, Seq::empty(), 0, false, false);
}

/// Parsing the rendered extension pairs and the closing brace appends the
/// pairs to the accumulator.
#[verifier::rlimit(100)]
pub proof fn lemma_sp_extras_of(
    extras: Seq<(Seq<char>, Seq<char>)>,
    acc: Seq<(Seq<char>, Seq<char>)>,
)
    requires
        forall|i: int| 0 <= i < extras.len() ==> wf_extra_value((#[trigger] extras[i]).1),
    ensures
        sp_extras(spec_render_extras(extras) + seq!['}'], acc) == Some(acc + extras),
    decreases extras.len(),
{
    let s = spec_render_extras(extras) + seq!['}'];
    if extras.len() == 0 {
        assert(s =~= seq!['}']);
        assert(s[0] == '}' && s.len() == 1);
        assert(acc + extras =~~= acc);
    } else {
        let k = extras[0].0;
        let v = extras[0].1;
        let extras2 = extras.drop_first();
        assert(wf_extra_value(v));
        assert(spec_render_extras(extras) == spec_render_extra(k, v) + spec_render_extras(
            extras2,
        ));
        let tail = spec_render_extras(extras2) + seq!['}'];
        assert(s =~= spec_render_extra(k, v) + tail);
        assert(spec_render_extra(k, v) == seq![','] + spec_jstr(k) + seq![':'] + v);
        assert(s[0] == ',');
        assert(s.len() >= 2 && s[1] == '"') by {
            assert(spec_jstr(k)[0] == '"');
        }
        let rest0 = seq![':'] + v + tail;
        assert(s.skip(2) =~= spec_escape(k) + seq!['"'] + rest0);
        lemma_sp_string_of_escape(k, rest0, Seq::empty(), Seq::empty());
        assert(sp_string(s.skip(2), Seq::empty(), Seq::empty()) == Some(
            (Seq::<char>::empty() + k, spec_escape(k).push('"'), rest0),
        ));
        assert(rest0.len() > 0 && rest0[0] == ':');
        assert(rest0.drop_first() =~= v + tail);
        assert(tail.len() > 0);
        if extras2.len() == 0 {
            assert(tail =~= seq!['}']);
            assert(tail[0] == '}');
        } else {
            assert(tail[0] == spec_render_extra(extras2[0].0, extras2[0].1)[0]);
            assert(tail[0] == ',');
        }
        lemma_sp_raw_value_of(v, tail);
        assert(forall|i: int|
            0 <= i < extras2.len() ==> wf_extra_value((#[trigger] extras2[i]).1));
        lemma_sp_extras_of(extras2, acc.push((Seq::<char>::empty() + k, v)));
        assert(Seq::<char>::empty() + k =~= k);
        assert(acc.push((k, v)) + extras2 =~~= acc + extras);
        assert(sp_extras(s, acc) == Some(acc.push((Seq::<char>::empty() + k, v)) + extras2));
        assert(acc.push((Seq::<char>::empty() + k, v)) + extras2 =~~= acc + extras);
    }
}

/// Parsing facts for the tail of the payload: not-before, subject, purpose,
/// extension pairs.
proof fn lemma_parse_segments_tail(cv: ClaimsView)
    requires
        claims_view_wf(cv),
    ensures
        sp_lit(rseg_nbf_full(cv), ",\"nbf\":"@) == Some(rseg_nbf(cv)),
        sp_number(rseg_nbf(cv)) == Some((cv.nbf, rseg_sub_full(cv))),
        sp_lit(rseg_sub_full(cv), ",\"sub\":\""@) == Some(rseg_sub(cv)),
        sp_string(rseg_sub(cv), Seq::empty(), Seq::empty()) == Some(
            (cv.sub, spec_escape(cv.sub).push('"'), rseg_pur_full(cv)),
        ),
        sp_lit(rseg_pur_full(cv), ",\"purpose\":\""@) == Some(rseg_pur(cv)),
        sp_string(rseg_pur(cv), Seq::empty(), Seq::empty()) == Some(
            (cv.purpose, spec_escape(cv.purpose).push('"'), rseg_ex(cv)),
        ),
        sp_extras(rseg_ex(cv), Seq::empty()) == Some(cv.additional_claims),
{
    reveal_strlit("}");
    assert(rseg_ex(cv) =~= spec_render_extras(cv.additional_claims) + seq!['}']);
    lemma_sp_extras_of(cv.additional_claims, Seq::empty());
    assert(Seq::<(Seq<char>, Seq<char>)>::empty() + cv.additional_claims
        =~~= cv.additional_claims);
    lemma_sp_string_of_escape(cv.purpose, rseg_ex(cv), Seq::empty(), Seq::empty());
    assert(Seq::<char>::empty() + cv.purpose =~= cv.purpose);
    lemma_sp_lit_of(",\"purpose\":\""@, rseg_pur(cv));
    lemma_sp_string_of_escape(cv.sub, rseg_pur_full(cv), Seq::empty(), Seq::empty());
    assert(Seq::<char>::empty() + cv.sub =~= cv.sub);
    lemma_sp_lit_of(",\"sub\":\""@, rseg_sub(cv));
    reveal_strlit(",\"sub\":\"");
    assert(rseg_sub_full(cv).len() > 0 && rseg_sub_full(cv)[0] == ',');
    assert(!spec_is_digit(','));
    lemma_sp_number_of_dec(cv.nbf, rseg_sub_full(cv));
    lemma_sp_lit_of(",\"nbf\":"@, rseg_nbf(cv));
}

/// Parsing facts for the middle of the payload: audience, issued-at, issuer.
proof fn lemma_parse_segments_mid(cv: ClaimsView)
    ensures
        sp_opt_field(rseg_aud(cv), ",\"aud\":\""@) == Some((cv.aud, rseg_iat_full(cv))),
        sp_lit(rseg_iat_full(cv), ",\"iat\":"@) == Some(rseg_iat(cv)),
        sp_number(rseg_iat(cv)) == Some((cv.iat, rseg_iss(cv))),
        sp_opt_field(rseg_iss(cv), ",\"iss\":\""@) == Some((cv.iss, rseg_nbf_full(cv))),
{
    reveal_strlit(",\"aud\":\"");
    reveal_strlit(",\"iat\":");
    reveal_strlit(",\"iss\":\"");
    reveal_strlit(",\"nbf\":");
    // issuer
    match cv.iss {
        Some(a) => {
            lemma_sp_lit_of(",\"iss\":\""@, spec_escape(a) + seq!['"'] + rseg_nbf_full(cv));
            lemma_sp_string_of_escape(a, rseg_nbf_full(cv), Seq::empty(), Seq::empty());
            assert(Seq::<char>::empty() + a =~= a);
        },
        None => {
            lemma_dec_digits_are_digits(cv.nbf as nat);
            assert(rseg_iss(cv).len() >= 8);
            assert(rseg_iss(cv)[2] == 'n');
            assert(",\"iss\":\""@[2] == 'i');
            if rseg_iss(cv).len() >= ",\"iss\":\""@.len() {
                assert(rseg_iss(cv).take(8)[2] == 'n');
                assert(rseg_iss(cv).take(8) != ",\"iss\":\""@);
            }
            assert(sp_lit(rseg_iss(cv), ",\"iss\":\""@) is None);
        },
    }
    // issued-at
    assert(rseg_iss(cv).len() > 0 && rseg_iss(cv)[0] == ',') by {
        if cv.iss is Some {
            assert(rseg_iss(cv)[0] == ",\"iss\":\""@[0]);
        } else {
            assert(rseg_iss(cv)[0] == ",\"nbf\":"@[0]);
        }
    }
    assert(!spec_is_digit(','));
    lemma_sp_number_of_dec(cv.iat, rseg_iss(cv));
    lemma_sp_lit_of(",\"iat\":"@, rseg_iat(cv));
    // audience
    match cv.aud {
        Some(a) => {
            lemma_sp_lit_of(",\"aud\":\""@, spec_escape(a) + seq!['"'] + rseg_iat_full(cv));
            lemma_sp_string_of_escape(a, rseg_iat_full(cv), Seq::empty(), Seq::empty());
            assert(Seq::<char>::empty() + a =~= a);
        },
        None => {
            lemma_dec_digits_are_digits(cv.iat as nat);
            assert(rseg_aud(cv).len() >= 8);
            assert(rseg_aud(cv)[2] == 'i');
            assert(",\"aud\":\""@[2] == 'a');
            if rseg_aud(cv).len() >= ",\"aud\":\""@.len() {
                assert(rseg_aud(cv).take(8)[2] == 'i');
                assert(rseg_aud(cv).take(8) != ",\"aud\":\""@);
            }
            assert(sp_lit(rseg_aud(cv), ",\"aud\":\""@) is None);
        },
    }
}

/// Parsing a rendered claims value gives back exactly that value: the
/// round-trip theorem of the payload codec.
#[verifier::rlimit(100)]
pub proof fn lemma_parse_of_render(cv: ClaimsView)
    requires
        claims_view_wf(cv),
    ensures
        sp_parse_claims(spec_render_claims(cv)) == Some(cv),
{
    lemma_parse_segments_tail(cv);
    lemma_parse_segments_mid(cv);
    lemma_sp_lit_of("{\"id\":\""@, rseg_id(cv));
    lemma_sp_string_of_escape(cv.id, rseg_exp_full(cv), Seq::empty(), Seq::empty());
    assert(Seq::<char>::empty() + cv.id =~= cv.id);
    lemma_sp_lit_of(",\"exp\":"@, rseg_exp(cv));
    assert(rseg_aud(cv).len() > 0 && rseg_aud(cv)[0] == ',') by {
        reveal_strlit(",\"aud\":\"");
        reveal_strlit(",\"iat\":");
        if cv.aud is Some {
            assert(rseg_aud(cv)[0] == ",\"aud\":\""@[0]);
        } else {
            assert(rseg_aud(cv)[0] == ",\"iat\":"@[0]);
        }
    }
    assert(!spec_is_digit(','));
    lemma_sp_number_of_dec(cv.exp, rseg_aud(cv));
    assert(sp_parse_claims(rseg_all(cv)) == Some(cv));
}


/// Extension rendering splits around any one pair.
pub proof fn lemma_render_extras_split(extras: Seq<(Seq<char>, Seq<char>)>, i: int)
    requires
        0 <= i < extras.len(),
    ensures
        spec_render_extras(extras) == spec_render_extras(extras.take(i)) + spec_render_extra(
            extras[i].0,
            extras[i].1,
        ) + spec_render_extras(extras.skip(i + 1)),
    decreases i,
{
    if i == 0 {
        assert(extras.take(0) =~~= Seq::<(Seq<char>, Seq<char>)>::empty());
        assert(spec_render_extras(Seq::<(Seq<char>, Seq<char>)>::empty()) == Seq::<char>::empty());
        assert(extras.drop_first() =~~= extras.skip(1));
        assert(spec_render_extras(extras) == spec_render_extra(extras[0].0, extras[0].1)
            + spec_render_extras(extras.skip(1)));
        assert(spec_render_extras(extras.take(0)) + spec_render_extra(extras[0].0, extras[0].1)
            + spec_render_extras(extras.skip(1)) =~= spec_render_extra(extras[0].0, extras[0].1)
            + spec_render_extras(extras.skip(1)));
    } else {
        lemma_render_extras_split(extras.drop_first(), i - 1);
        assert(extras.drop_first().take(i - 1) =~~= extras.take(i).drop_first());
        assert(extras.drop_first()[i - 1] == extras[i]);
        assert(extras.drop_first().skip(i) =~~= extras.skip(i + 1));
        assert(extras.take(i)[0] == extras[0]);
        assert(extras.take(i).len() == i);
        assert(spec_render_extras(extras.take(i)) == spec_render_extra(extras[0].0, extras[0].1)
            + spec_render_extras(extras.take(i).drop_first()));
        assert(spec_render_extras(extras) == spec_render_extra(extras[0].0, extras[0].1)
            + spec_render_extras(extras.drop_first()));
        assert(spec_render_extras(extras) =~= spec_render_extras(extras.take(i))
            + spec_render_extra(extras[i].0, extras[i].1) + spec_render_extras(extras.skip(i + 1)));
    }
}

/// Extension payload flattening: every extension pair appears verbatim as a
/// top-level member of the rendered payload object, alongside the standard
/// claim fields rather than nested under a sub-key.
pub proof fn lemma_extension_flattening(cv: ClaimsView, i: int)
    requires
        0 <= i < cv.additional_claims.len(),
    ensures
        exists|prefix: Seq<char>, suffix: Seq<char>|
            spec_render_claims(cv) == #[trigger] (prefix + (spec_render_extra(
                cv.additional_claims[i].0,
                cv.additional_claims[i].1,
            ) + suffix)),
{
    let x = cv.additional_claims;
    lemma_render_extras_split(x, i);
    let pre_ex = spec_render_extras(x.take(i));
    let post_ex = spec_render_extras(x.skip(i + 1));
    let e = spec_render_extra(x[i].0, x[i].1);
    assert(rseg_ex(cv) =~= (pre_ex + e + post_ex) + "}"@);
    let head = "{\"id\":\""@ + (spec_escape(cv.id) + seq!['"']) + (",\"exp\":"@ + spec_dec_digits(
        cv.exp as nat,
    ));
    let prefix = "{\"id\":\""@ + rseg_id(cv).take(rseg_id(cv).len() - rseg_ex(cv).len()) + pre_ex;
    let suffix = post_ex + "}"@;
    assert(rseg_id(cv).len() >= rseg_ex(cv).len()) by {
        lemma_rseg_suffix_lengths(cv);
    }
    assert(spec_render_claims(cv) =~= prefix + (e + suffix)) by {
        lemma_rseg_suffix_decomp(cv);
        assert(rseg_id(cv) == rseg_id(cv).take(rseg_id(cv).len() - rseg_ex(cv).len()) + rseg_ex(
            cv,
        ));
    }
    assert(spec_render_claims(cv) == (prefix + (spec_render_extra(
        cv.additional_claims[i].0,
        cv.additional_claims[i].1,
    ) + suffix)));
}

/// The tail segment is a suffix of the identifier segment onward.
proof fn lemma_rseg_suffix_decomp(cv: ClaimsView)
    ensures
        rseg_ex(cv).len() <= rseg_id(cv).len(),
        rseg_id(cv) == rseg_id(cv).take(rseg_id(cv).len() - rseg_ex(cv).len()) + rseg_ex(cv),
{
    lemma_rseg_suffix_lengths(cv);
    let n = rseg_id(cv).len() - rseg_ex(cv).len();
    assert forall|k: int| 0 <= k < rseg_ex(cv).len() implies rseg_id(cv)[n + k] == rseg_ex(
        cv,
    )[k] by {
        lemma_rseg_suffix_index(cv, k);
    }
    assert(rseg_id(cv) =~= rseg_id(cv).take(n) + rseg_ex(cv));
}

/// The length bookkeeping of the nested segments.
proof fn lemma_rseg_suffix_lengths(cv: ClaimsView)
    ensures
        rseg_ex(cv).len() <= rseg_pur(cv).len(),
        rseg_pur(cv).len() <= rseg_pur_full(cv).len(),
        rseg_pur_full(cv).len() <= rseg_sub(cv).len(),
        rseg_sub(cv).len() <= rseg_sub_full(cv).len(),
        rseg_sub_full(cv).len() <= rseg_nbf(cv).len(),
        rseg_nbf(cv).len() <= rseg_nbf_full(cv).len(),
        rseg_nbf_full(cv).len() <= rseg_iss(cv).len(),
        rseg_iss(cv).len() <= rseg_iat(cv).len(),
        rseg_iat(cv).len() <= rseg_iat_full(cv).len(),
        rseg_iat_full(cv).len() <= rseg_aud(cv).len(),
        rseg_aud(cv).len() <= rseg_exp(cv).len(),
        rseg_exp(cv).len() <= rseg_exp_full(cv).len(),
        rseg_exp_full(cv).len() <= rseg_id(cv).len(),
{
}

/// Each nested segment ends with the tail segment.
#[verifier::rlimit(100)]
proof fn lemma_rseg_suffix_index(cv: ClaimsView, k: int)
    requires
        0 <= k < rseg_ex(cv).len(),
    ensures
        rseg_id(cv)[rseg_id(cv).len() - rseg_ex(cv).len() + k] == rseg_ex(cv)[k],
{
    lemma_rseg_suffix_lengths(cv);
    assert(rseg_pur(cv)[rseg_pur(cv).len() - rseg_ex(cv).len() + k] == rseg_ex(cv)[k]);
    assert(rseg_pur_full(cv)[rseg_pur_full(cv).len() - rseg_ex(cv).len() + k] == rseg_ex(cv)[k]);
    assert(rseg_sub(cv)[rseg_sub(cv).len() - rseg_ex(cv).len() + k] == rseg_ex(cv)[k]);
    assert(rseg_sub_full(cv)[rseg_sub_full(cv).len() - rseg_ex(cv).len() + k] == rseg_ex(cv)[k]);
    assert(rseg_nbf(cv)[rseg_nbf(cv).len() - rseg_ex(cv).len() + k] == rseg_ex(cv)[k]);
    assert(rseg_nbf_full(cv)[rseg_nbf_full(cv).len() - rseg_ex(cv).len() + k] == rseg_ex(cv)[k]);
    assert(rseg_iss(cv)[rseg_iss(cv).len() - rseg_ex(cv).len() + k] == rseg_ex(cv)[k]);
    assert(rseg_iat(cv)[rseg_iat(cv).len() - rseg_ex(cv).len() + k] == rseg_ex(cv)[k]);
    assert(rseg_iat_full(cv)[rseg_iat_full(cv).len() - rseg_ex(cv).len() + k] == rseg_ex(cv)[k]);
    assert(rseg_aud(cv)[rseg_aud(cv).len() - rseg_ex(cv).len() + k] == rseg_ex(cv)[k]);
    assert(rseg_exp(cv)[rseg_exp(cv).len() - rseg_ex(cv).len() + k] == rseg_ex(cv)[k]);
    assert(rseg_exp_full(cv)[rseg_exp_full(cv).len() - rseg_ex(cv).len() + k] == rseg_ex(cv)[k]);
    assert(rseg_id(cv)[rseg_id(cv).len() - rseg_ex(cv).len() + k] == rseg_ex(cv)[k]);
}

} // verus!
