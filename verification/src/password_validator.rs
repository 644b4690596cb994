//! Password strength policy: configurable required character classes and
//! inclusive length bounds, combined with logical AND.  Each unset
//! requirement passes trivially.  The character classes are ASCII ranges and
//! the length bounds count characters, exactly as the contracts state.  This
//! is policy, not cryptography, and is kept apart from the hashing
//! primitive.
use vstd::prelude::*;

verus! {

pub struct PasswordValidator {
    pub must_have_uppercase: bool,
    pub must_have_lowercase: bool,
    pub must_have_digits: bool,
    pub must_have_minimum_length: Option<usize>,
    pub must_have_maxiumum_length: Option<usize>,
    pub must_have_special_charecters: bool,
}

pub open spec fn spec_is_uppercase(c: char) -> bool {
    'A' <= c <= 'Z'
}

pub open spec fn spec_is_lowercase(c: char) -> bool {
    'a' <= c <= 'z'
}

pub open spec fn spec_is_digit(c: char) -> bool {
    '0' <= c <= '9'
}

/// The printable ASCII characters that are neither letters nor digits.
pub open spec fn spec_is_special_symbol(c: char) -> bool {
    ('!' <= c <= '/') || (':' <= c <= '@') || ('[' <= c <= '`') || ('{' <= c <= '~')
}

/// Whether `c` counts as a special symbol for the password policy.
pub fn is_special_symbol(c: char) -> (r: bool)
    ensures
        r == spec_is_special_symbol(c),
{
    ('!' <= c && c <= '/') || (':' <= c && c <= '@') || ('[' <= c && c <= '`') || ('{' <= c && c
        <= '~')
}

impl PasswordValidator {
    /// What the combined policy says of a password, over its characters.
    pub open spec fn spec_validate(self, s: Seq<char>) -> bool {
        &&& (self.must_have_uppercase ==> exists|i: int|
            0 <= i < s.len() && spec_is_uppercase(#[trigger] s[i]))
        &&& (self.must_have_lowercase ==> exists|i: int|
            0 <= i < s.len() && spec_is_lowercase(#[trigger] s[i]))
        &&& (self.must_have_digits ==> exists|i: int|
            0 <= i < s.len() && spec_is_digit(#[trigger] s[i]))
        &&& (self.must_have_special_charecters ==> exists|i: int|
            0 <= i < s.len() && spec_is_special_symbol(#[trigger] s[i]))
        &&& (self.must_have_minimum_length matches Some(l) ==> s.len() >= l)
        &&& (self.must_have_maxiumum_length matches Some(l) ==> s.len() <= l)
    }

    /// Checks every configured requirement; all must hold.
    pub fn validate(self, password: &str) -> (r: bool)
        ensures
            r == self.spec_validate(password@),
    {
        let len = password.unicode_len();
        let mut has_upper = false;
        let mut has_lower = false;
        let mut has_digit = false;
        let mut has_special_symbols = false;

        let mut i: usize = 0;
        while i < len
            invariant
                len == password@.len(),
                i <= len,
                has_upper == exists|j: int| 0 <= j < i && spec_is_uppercase(#[trigger] password@[j]),
                has_lower == exists|j: int| 0 <= j < i && spec_is_lowercase(#[trigger] password@[j]),
                has_digit == exists|j: int| 0 <= j < i && spec_is_digit(#[trigger] password@[j]),
                has_special_symbols == exists|j: int|
                    0 <= j < i && spec_is_special_symbol(#[trigger] password@[j]),
            decreases len - i,
        {
            let c = password.get_char(i);
            has_upper = has_upper || ('A' <= c && c <= 'Z');
            has_lower = has_lower || ('a' <= c && c <= 'z');
            has_digit = has_digit || ('0' <= c && c <= '9');
            has_special_symbols = has_special_symbols || is_special_symbol(c);
            i = i + 1;
        }

        let uppercase_check_pass = !self.must_have_uppercase || has_upper;
        let lowercase_check_pass = !self.must_have_lowercase || has_lower;
        let digit_check_pass = !self.must_have_digits || has_digit;
        let special_symbols_check_pass = !self.must_have_special_charecters || has_special_symbols;

        let min_length_check_pass = match self.must_have_minimum_length {
            Some(l) => len >= l,
            None => true,
        };

        let max_length_check_pass = match self.must_have_maxiumum_length {
            Some(l) => len <= l,
            None => true,
        };

        uppercase_check_pass && lowercase_check_pass && digit_check_pass
            && special_symbols_check_pass && min_length_check_pass && max_length_check_pass
    }

    pub fn with_min_length(self, length: usize) -> (r: Self)
        ensures
            r == (Self { must_have_minimum_length: Some(length), ..self }),
    {
        Self { must_have_minimum_length: Some(length), ..self }
    }

    pub fn with_max_length(self, length: usize) -> (r: Self)
        ensures
            r == (Self { must_have_maxiumum_length: Some(length), ..self }),
    {
        Self { must_have_maxiumum_length: Some(length), ..self }
    }

    pub fn with_special_charecters(self) -> (r: Self)
        ensures
            r == (Self { must_have_special_charecters: true, ..self }),
    {
        Self { must_have_special_charecters: true, ..self }
    }
}

impl Default for PasswordValidator {
    /// Upper case, lower case and a digit required; length between 10 and 20.
    fn default() -> (r: Self)
        ensures
            r.must_have_uppercase,
            r.must_have_lowercase,
            r.must_have_digits,
            r.must_have_minimum_length == Some(10usize),
            r.must_have_maxiumum_length == Some(20usize),
            !r.must_have_special_charecters,
    {
        Self {
            must_have_uppercase: true,
            must_have_lowercase: true,
            must_have_digits: true,
            must_have_minimum_length: Some(10),
            must_have_maxiumum_length: Some(20),
            must_have_special_charecters: false,
        }
    }
}

} // verus!
