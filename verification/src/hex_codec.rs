//! Hexadecimal encoding and decoding of byte strings, verified against an
//! exact character-level specification.  Keys and signatures travel through
//! the library in this form.
use vstd::prelude::*;

verus! {

/// Whether `c` is a hexadecimal digit, upper or lower case.
pub open spec fn spec_is_hex_digit(c: char) -> bool {
    ('0' <= c <= '9') || ('a' <= c <= 'f') || ('A' <= c <= 'F')
}

/// The value of a hexadecimal digit.
pub open spec fn hex_digit_val(c: char) -> int {
    if '0' <= c <= '9' {
        c as int - '0' as int
    } else if 'a' <= c <= 'f' {
        10 + c as int - 'a' as int
    } else {
        10 + c as int - 'A' as int
    }
}

/// The upper-case digit character of a value below 16.
pub open spec fn hex_digit_char_upper(v: int) -> char {
    if v == 0 {
        '0'
    } else if v == 1 {
        '1'
    } else if v == 2 {
        '2'
    } else if v == 3 {
        '3'
    } else if v == 4 {
        '4'
    } else if v == 5 {
        '5'
    } else if v == 6 {
        '6'
    } else if v == 7 {
        '7'
    } else if v == 8 {
        '8'
    } else if v == 9 {
        '9'
    } else if v == 10 {
        'A'
    } else if v == 11 {
        'B'
    } else if v == 12 {
        'C'
    } else if v == 13 {
        'D'
    } else if v == 14 {
        'E'
    } else {
        'F'
    }
}

/// Whether `c` is an upper-case hexadecimal digit, as the library's own
/// renderings use.
pub open spec fn spec_is_upper_hex_digit(c: char) -> bool {
    ('0' <= c <= '9') || ('A' <= c <= 'F')
}

/// A well-formed hexadecimal rendering: even length, hex digits throughout.
pub open spec fn spec_is_hex_seq(s: Seq<char>) -> bool {
    s.len() % 2 == 0 && forall|i: int| 0 <= i < s.len() ==> spec_is_hex_digit(#[trigger] s[i])
}

/// The byte a pair of hexadecimal digits denotes.
pub open spec fn hex_pair_byte(h: char, l: char) -> u8 {
    (hex_digit_val(h) * 16 + hex_digit_val(l)) as u8
}

/// The bytes a hexadecimal rendering denotes, pair by pair.
pub open spec fn spec_hex_decode(s: Seq<char>) -> Seq<u8> {
    Seq::new((s.len() / 2) as nat, |i: int| hex_pair_byte(s[2 * i], s[2 * i + 1]))
}

/// The upper-case hexadecimal rendering of bytes, two digits per byte.
pub open spec fn hex_upper_of(b: Seq<u8>) -> Seq<char> {
    Seq::new(2 * b.len(), |i: int|
        if i % 2 == 0 {
            hex_digit_char_upper(b[i / 2] as int / 16)
        } else {
            hex_digit_char_upper(b[i / 2] as int % 16)
        })
}

pub(crate) fn is_hex_digit_exec(c: char) -> (r: bool)
    ensures
        r == spec_is_hex_digit(c),
{
    ('0' <= c && c <= '9') || ('a' <= c && c <= 'f') || ('A' <= c && c <= 'F')
}

pub(crate) fn hex_digit_value_exec(c: char) -> (r: u8)
    requires
        spec_is_hex_digit(c),
    ensures
        r == hex_digit_val(c),
        r < 16,
{
    if '0' <= c && c <= '9' {
        (c as u8) - ('0' as u8)
    } else if 'a' <= c && c <= 'f' {
        10 + (c as u8) - ('a' as u8)
    } else {
        10 + (c as u8) - ('A' as u8)
    }
}

pub(crate) fn hex_digit_upper(v: u8) -> (r: char)
    requires
        v < 16,
    ensures
        r == hex_digit_char_upper(v as int),
{
    if v == 0 {
        '0'
    } else if v == 1 {
        '1'
    } else if v == 2 {
        '2'
    } else if v == 3 {
        '3'
    } else if v == 4 {
        '4'
    } else if v == 5 {
        '5'
    } else if v == 6 {
        '6'
    } else if v == 7 {
        '7'
    } else if v == 8 {
        '8'
    } else if v == 9 {
        '9'
    } else if v == 10 {
        'A'
    } else if v == 11 {
        'B'
    } else if v == 12 {
        'C'
    } else if v == 13 {
        'D'
    } else if v == 14 {
        'E'
    } else {
        'F'
    }
}

/// Decodes a hexadecimal string into bytes.  Succeeds exactly on strings of
/// even length made of hexadecimal digits, upper or lower case.
pub fn hex_decode(s: &str) -> (r: Option<Vec<u8>>)
    ensures
        r is Some <==> spec_is_hex_seq(s@),
        r matches Some(b) ==> b@ == spec_hex_decode(s@),
{
    let len = s.unicode_len();
    if len % 2 != 0 {
        return None;
    }
    let pairs = len / 2;
    let mut out: Vec<u8> = Vec::new();
    let mut k: usize = 0;
    while k < pairs
        invariant
            len == s@.len(),
            len % 2 == 0,
            pairs == len / 2,
            k <= pairs,
            forall|i: int| 0 <= i < 2 * k ==> spec_is_hex_digit(#[trigger] s@[i]),
            out@.len() == k,
            forall|i: int| 0 <= i < k ==> #[trigger] out@[i] == hex_pair_byte(
                s@[2 * i],
                s@[2 * i + 1],
            ),
        decreases pairs - k,
    {
        let h = s.get_char(2 * k);
        let l = s.get_char(2 * k + 1);
        if !is_hex_digit_exec(h) || !is_hex_digit_exec(l) {
            return None;
        }
        let b: u8 = hex_digit_value_exec(h) * 16 + hex_digit_value_exec(l);
        out.push(b);
        k = k + 1;
    }
    proof {
        assert(out@ =~= spec_hex_decode(s@));
    }
    Some(out)
}

/// Encodes bytes as upper-case hexadecimal, two digits per byte.
pub fn hex_encode_upper(b: &Vec<u8>) -> (r: String)
    ensures
        r@ == hex_upper_of(b@),
{
    let mut out = String::new();
    let mut i: usize = 0;
    while i < b.len()
        invariant
            i <= b@.len(),
            out@ =~= hex_upper_of(b@.take(i as int)),
        decreases b@.len() - i,
    {
        let byte = b[i];
        out.push(hex_digit_upper(byte / 16));
        out.push(hex_digit_upper(byte % 16));
        proof {
            assert(out@ =~= hex_upper_of(b@.take(i + 1)));
        }
        i = i + 1;
    }
    proof {
        assert(b@.take(b@.len() as int) =~= b@);
    }
    out
}

/// Encoding then decoding is the identity: the upper-case rendering of any
/// byte string is well formed and denotes the same bytes.
pub proof fn lemma_hex_round_trip(b: Seq<u8>)
    ensures
        spec_is_hex_seq(hex_upper_of(b)),
        spec_hex_decode(hex_upper_of(b)) == b,
{
    let s = hex_upper_of(b);
    assert forall|i: int| 0 <= i < s.len() implies spec_is_hex_digit(#[trigger] s[i]) by {
        let v = if i % 2 == 0 {
            b[i / 2] as int / 16
        } else {
            b[i / 2] as int % 16
        };
        assert(0 <= v < 16);
    }
    assert(spec_hex_decode(s) =~= b);
}


/// Each value below 16 maps to its digit character and back.
pub proof fn lemma_hex_digit_roundtrip(v: int)
    requires
        0 <= v < 16,
    ensures
        spec_is_hex_digit(hex_digit_char_upper(v)),
        spec_is_upper_hex_digit(hex_digit_char_upper(v)),
        hex_digit_val(hex_digit_char_upper(v)) == v,
{
}

/// Each upper-case hexadecimal digit is the digit character of its value.
pub proof fn lemma_upper_hex_digit_char(c: char)
    requires
        spec_is_upper_hex_digit(c),
    ensures
        0 <= hex_digit_val(c) < 16,
        hex_digit_char_upper(hex_digit_val(c)) == c,
{
}

} // verus!
