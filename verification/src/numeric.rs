//! Parsing of command-line numbers: a decimal count, or an entry
//! address written either in decimal or with a `0x` / `0X` prefix in
//! hexadecimal.

use vstd::prelude::*;
use vstd::string::StrSliceExecFns;

verus! {

/// Why a number failed to parse.
#[derive(Debug, PartialEq, Eq)]
pub enum ParseNumberError {
    /// Nothing where the digits should be.
    Empty,
    /// A character that is no digit of the selected radix, or a lone
    /// sign.
    InvalidDigit,
    /// The digits name a value larger than the machine can hold.
    PosOverflow,
}

/// The value of `c` as a hexadecimal digit, or -1 when it is none.
pub open spec fn digit_value(c: char) -> int {
    if c == '0' {
        0
    } else if c == '1' {
        1
    } else if c == '2' {
        2
    } else if c == '3' {
        3
    } else if c == '4' {
        4
    } else if c == '5' {
        5
    } else if c == '6' {
        6
    } else if c == '7' {
        7
    } else if c == '8' {
        8
    } else if c == '9' {
        9
    } else if c == 'a' || c == 'A' {
        10
    } else if c == 'b' || c == 'B' {
        11
    } else if c == 'c' || c == 'C' {
        12
    } else if c == 'd' || c == 'D' {
        13
    } else if c == 'e' || c == 'E' {
        14
    } else if c == 'f' || c == 'F' {
        15
    } else {
        -1
    }
}

/// Whether `c` is a digit of the given radix.
pub open spec fn is_digit(c: char, radix: int) -> bool {
    0 <= digit_value(c) < radix
}

/// Every character of `s` is a digit of the given radix.
pub open spec fn all_digits(s: Seq<char>, radix: int) -> bool {
    forall|i: int| 0 <= i < s.len() ==> is_digit(s[i], radix)
}

/// The value the digit string `s` names in the given radix, most
/// significant digit first (meaningful when `all_digits` holds).
pub open spec fn digits_value(s: Seq<char>, radix: int) -> int
    decreases s.len(),
{
    if s.len() == 0 {
        0
    } else {
        digits_value(s.drop_last(), radix) * radix + digit_value(s.last())
    }
}

/// The text starts with the hexadecimal marker `0x` or `0X`.
pub open spec fn hex_prefixed(s: Seq<char>) -> bool {
    s.len() >= 2 && s[0] == '0' && (s[1] == 'x' || s[1] == 'X')
}

/// The radix the text selects: 16 behind a hexadecimal marker, else
/// 10.
pub open spec fn number_radix(s: Seq<char>) -> int {
    if hex_prefixed(s) {
        16
    } else {
        10
    }
}

/// The text behind the hexadecimal marker, if any: what the radix
/// parser receives.
pub open spec fn number_digits_part(s: Seq<char>) -> Seq<char> {
    if hex_prefixed(s) {
        s.skip(2)
    } else {
        s
    }
}

/// The digits proper: the digits part without its optional leading
/// plus sign.
pub open spec fn number_body(s: Seq<char>) -> Seq<char> {
    let part = number_digits_part(s);
    if part.len() > 0 && part[0] == '+' {
        part.drop_first()
    } else {
        part
    }
}

/// The text parses: the digits are nonempty, all of the selected
/// radix, and their value fits the machine word.
pub open spec fn number_parse_ok(s: Seq<char>) -> bool {
    &&& number_body(s).len() > 0
    &&& all_digits(number_body(s), number_radix(s))
    &&& digits_value(number_body(s), number_radix(s)) <= usize::MAX
}

/// A digit string of a positive radix names a non-negative value.
proof fn lemma_digits_value_nonneg(s: Seq<char>, radix: int)
    requires
        all_digits(s, radix),
        radix == 10 || radix == 16,
    ensures
        digits_value(s, radix) >= 0,
    decreases s.len(),
{
    if s.len() > 0 {
        assert(all_digits(s.drop_last(), radix));
        lemma_digits_value_nonneg(s.drop_last(), radix);
        assert(digits_value(s.drop_last(), radix) * radix >= 0) by (nonlinear_arith)
            requires
                digits_value(s.drop_last(), radix) >= 0,
                radix > 0,
        ;
    }
}

/// Dropping trailing digits never raises the named value.
proof fn lemma_digits_value_prefix_le(s: Seq<char>, radix: int, k: int)
    requires
        all_digits(s, radix),
        radix == 10 || radix == 16,
        0 <= k <= s.len(),
    ensures
        digits_value(s.take(k), radix) <= digits_value(s, radix),
    decreases s.len() - k,
{
    if k < s.len() {
        let longer = s.take(k + 1);
        assert(longer.drop_last() =~= s.take(k));
        assert(all_digits(longer, radix));
        lemma_digits_value_nonneg(s.take(k), radix);
        assert(digits_value(s.take(k), radix) * radix >= digits_value(s.take(k), radix)) by (
        nonlinear_arith)
            requires
                digits_value(s.take(k), radix) >= 0,
                radix >= 1,
        ;
        assert(digits_value(longer, radix) >= digits_value(s.take(k), radix));
        lemma_digits_value_prefix_le(s, radix, k + 1);
    } else {
        assert(s.take(k) =~= s);
    }
}

/// The value of `c` as a hexadecimal digit.
fn digit_of(c: char) -> (d: Option<u8>)
    ensures
        d is Some <==> digit_value(c) >= 0,
        d matches Some(v) ==> v as int == digit_value(c),
{
    if c == '0' {
        Some(0)
    } else if c == '1' {
        Some(1)
    } else if c == '2' {
        Some(2)
    } else if c == '3' {
        Some(3)
    } else if c == '4' {
        Some(4)
    } else if c == '5' {
        Some(5)
    } else if c == '6' {
        Some(6)
    } else if c == '7' {
        Some(7)
    } else if c == '8' {
        Some(8)
    } else if c == '9' {
        Some(9)
    } else if c == 'a' || c == 'A' {
        Some(10)
    } else if c == 'b' || c == 'B' {
        Some(11)
    } else if c == 'c' || c == 'C' {
        Some(12)
    } else if c == 'd' || c == 'D' {
        Some(13)
    } else if c == 'e' || c == 'E' {
        Some(14)
    } else if c == 'f' || c == 'F' {
        Some(15)
    } else {
        None
    }
}

/// Parses a non-negative machine-word number from text: decimal, or
/// hexadecimal behind a `0x` / `0X` marker, with one optional leading
/// plus sign before the digits. Returns exactly the value the digits
/// name, `Empty` when nothing follows the marker, `InvalidDigit` on a
/// lone sign or a character outside the radix, and `PosOverflow` when
/// the named value does not fit.
pub fn parse_hex_string(s: &str) -> (r: Result<usize, ParseNumberError>)
    ensures
        r is Ok <==> number_parse_ok(s@),
        r matches Ok(v) ==> v as int == digits_value(number_body(s@), number_radix(s@)),
        (r matches Err(ParseNumberError::Empty)) <==> number_digits_part(s@).len() == 0,
        (r matches Err(ParseNumberError::InvalidDigit)) <==> (number_digits_part(s@).len() > 0 && (
        number_body(s@).len() == 0 || !all_digits(number_body(s@), number_radix(s@)))),
        (r matches Err(ParseNumberError::PosOverflow)) <==> (number_body(s@).len() > 0
            && all_digits(number_body(s@), number_radix(s@)) && digits_value(
            number_body(s@),
            number_radix(s@),
        ) > usize::MAX),
{
    let len = s.unicode_len();
    let prefixed = len >= 2 && s.get_char(0) == '0' && (s.get_char(1) == 'x' || s.get_char(1)
        == 'X');
    let radix: u8 = if prefixed {
        16
    } else {
        10
    };
    let start: usize = if prefixed {
        2
    } else {
        0
    };
    let ghost body_spec = number_body(s@);
    assert(prefixed == hex_prefixed(s@));
    assert(radix as int == number_radix(s@));
    if start >= len {
        assert(number_digits_part(s@).len() == 0);
        return Err(ParseNumberError::Empty);
    }
    assert(number_digits_part(s@).len() > 0);
    let mut j = start;
    if s.get_char(j) == '+' {
        j = j + 1;
    }
    assert(body_spec =~= s@.skip(j as int));
    if j >= len {
        assert(body_spec.len() == 0);
        return Err(ParseNumberError::InvalidDigit);
    }
    assert(body_spec.len() > 0);
    let mut k: usize = 0;
    let body_len = len - j;
    while k < body_len
        invariant
            body_len == len - j,
            j + body_len == len,
            len == s@.len(),
            k <= body_len,
            body_spec == s@.skip(j as int),
            body_spec == number_body(s@),
            body_spec.len() == body_len,
            body_len > 0,
            number_digits_part(s@).len() > 0,
            radix == 10 || radix == 16,
            radix as int == number_radix(s@),
            forall|m: int| 0 <= m < k ==> is_digit(body_spec[m], radix as int),
        decreases body_len - k,
    {
        let c = s.get_char(j + k);
        assert(c == body_spec[k as int]);
        let valid = match digit_of(c) {
            Some(d) => d < radix,
            None => false,
        };
        if !valid {
            assert(!is_digit(body_spec[k as int], radix as int));
            return Err(ParseNumberError::InvalidDigit);
        }
        k = k + 1;
    }
    assert(all_digits(body_spec, radix as int));
    let mut acc: usize = 0;
    let mut k2: usize = 0;
    while k2 < body_len
        invariant
            body_len == len - j,
            j + body_len == len,
            len == s@.len(),
            k2 <= body_len,
            body_spec == s@.skip(j as int),
            body_spec == number_body(s@),
            body_spec.len() == body_len,
            body_len > 0,
            number_digits_part(s@).len() > 0,
            radix == 10 || radix == 16,
            radix as int == number_radix(s@),
            all_digits(body_spec, radix as int),
            acc as int == digits_value(body_spec.take(k2 as int), radix as int),
        decreases body_len - k2,
    {
        let c = s.get_char(j + k2);
        assert(c == body_spec[k2 as int]);
        let d = match digit_of(c) {
            Some(d) => d,
            None => 0,
        };
        assert(d as int == digit_value(body_spec[k2 as int]));
        proof {
            assert(body_spec.take(k2 + 1).drop_last() =~= body_spec.take(k2 as int));
            assert(body_spec.take(k2 + 1).last() == body_spec[k2 as int]);
        }
        if acc > (usize::MAX - d as usize) / radix as usize {
            proof {
                let prefix = digits_value(body_spec.take(k2 as int), radix as int);
                assert(prefix * radix + d > usize::MAX) by (nonlinear_arith)
                    requires
                        prefix > (usize::MAX - d) / (radix as int),
                        radix == 10 || radix == 16,
                        0 <= d,
                ;
                assert(digits_value(body_spec.take(k2 + 1), radix as int) > usize::MAX);
                lemma_digits_value_prefix_le(body_spec, radix as int, k2 + 1);
            }
            return Err(ParseNumberError::PosOverflow);
        }
        proof {
            let prefix = digits_value(body_spec.take(k2 as int), radix as int);
            assert(prefix * radix + d <= usize::MAX) by (nonlinear_arith)
                requires
                    prefix <= (usize::MAX - d) / (radix as int),
                    prefix >= 0,
                    radix == 10 || radix == 16,
                    0 <= d < radix,
            ;
        }
        acc = acc * radix as usize + d as usize;
        k2 = k2 + 1;
    }
    proof {
        assert(body_spec.take(body_len as int) =~= body_spec);
    }
    Ok(acc)
}

} // verus!
