//! Numbers as text, and the lines that the session shows to the user.

use vstd::prelude::*;
use vstd::string::{StrSliceExecFns, StringExecFns};

verus! {

/// The characters of each string of `strings`.
pub open spec fn texts(strings: Seq<String>) -> Seq<Seq<char>> {
    strings.map_values(|s: String| s@)
}

/// The character for a digit below sixteen, in lower case.
pub open spec fn digit_char(d: nat) -> char {
    if d == 0 {
        '0'
    } else if d == 1 {
        '1'
    } else if d == 2 {
        '2'
    } else if d == 3 {
        '3'
    } else if d == 4 {
        '4'
    } else if d == 5 {
        '5'
    } else if d == 6 {
        '6'
    } else if d == 7 {
        '7'
    } else if d == 8 {
        '8'
    } else if d == 9 {
        '9'
    } else if d == 10 {
        'a'
    } else if d == 11 {
        'b'
    } else if d == 12 {
        'c'
    } else if d == 13 {
        'd'
    } else if d == 14 {
        'e'
    } else {
        'f'
    }
}

/// `n` in base 16, most significant digit first, without leading zeros.
pub open spec fn hex_digits(n: nat) -> Seq<char>
    decreases n,
{
    if n < 16 {
        seq![digit_char(n)]
    } else {
        hex_digits(n / 16).push(digit_char(n % 16))
    }
}

/// `n` in base 10, most significant digit first, without leading zeros.
pub open spec fn decimal_digits(n: nat) -> Seq<char>
    decreases n,
{
    if n < 10 {
        seq![digit_char(n)]
    } else {
        decimal_digits(n / 10).push(digit_char(n % 10))
    }
}

/// `i` in base 10, with a minus sign in front of a negative number.
pub open spec fn decimal_int(i: int) -> Seq<char> {
    if i < 0 {
        seq!['-'] + decimal_digits((-i) as nat)
    } else {
        decimal_digits(i as nat)
    }
}

/// An address as the session prints it: `0x` and the hexadecimal digits.
pub open spec fn hex_address(addr: nat) -> Seq<char> {
    seq!['0', 'x'] + hex_digits(addr)
}

/// The text of one digit.
fn digit_text(d: usize) -> (text: &'static str)
    requires
        d < 16,
    ensures
        text@ == seq![digit_char(d as nat)],
{
    proof {
        reveal_strlit("0");
        reveal_strlit("1");
        reveal_strlit("2");
        reveal_strlit("3");
        reveal_strlit("4");
        reveal_strlit("5");
        reveal_strlit("6");
        reveal_strlit("7");
        reveal_strlit("8");
        reveal_strlit("9");
        reveal_strlit("a");
        reveal_strlit("b");
        reveal_strlit("c");
        reveal_strlit("d");
        reveal_strlit("e");
        reveal_strlit("f");
    }
    let text = if d == 0 {
        "0"
    } else if d == 1 {
        "1"
    } else if d == 2 {
        "2"
    } else if d == 3 {
        "3"
    } else if d == 4 {
        "4"
    } else if d == 5 {
        "5"
    } else if d == 6 {
        "6"
    } else if d == 7 {
        "7"
    } else if d == 8 {
        "8"
    } else if d == 9 {
        "9"
    } else if d == 10 {
        "a"
    } else if d == 11 {
        "b"
    } else if d == 12 {
        "c"
    } else if d == 13 {
        "d"
    } else if d == 14 {
        "e"
    } else {
        "f"
    };
    text
}

/// Writes `n` in base 16.
pub fn to_hex(n: usize) -> (text: String)
    ensures
        text@ == hex_digits(n as nat),
    decreases n,
{
    if n < 16 {
        String::from_str(digit_text(n))
    } else {
        let mut text = to_hex(n / 16);
        text.append(digit_text(n % 16));
        text
    }
}

/// Writes `n` in base 10.
pub fn to_decimal(n: usize) -> (text: String)
    ensures
        text@ == decimal_digits(n as nat),
    decreases n,
{
    if n < 10 {
        String::from_str(digit_text(n))
    } else {
        let mut text = to_decimal(n / 10);
        text.append(digit_text(n % 10));
        text
    }
}

/// Writes a signed number in base 10.
pub fn to_decimal_signed(i: i32) -> (text: String)
    ensures
        text@ == decimal_int(i as int),
{
    if i < 0 {
        let magnitude: usize = (-(i as i64)) as usize;
        let mut text = String::from_str("-");
        proof {
            reveal_strlit("-");
        }
        let digits = to_decimal(magnitude);
        text.append(digits.as_str());
        text
    } else {
        to_decimal(i as usize)
    }
}

/// Writes an address with its `0x` prefix.
pub fn to_hex_address(addr: usize) -> (text: String)
    ensures
        text@ == hex_address(addr as nat),
{
    let mut text = String::from_str("0x");
    proof {
        reveal_strlit("0x");
    }
    let digits = to_hex(addr);
    text.append(digits.as_str());
    text
}

/// The value of a character as a digit: `0` to `9`, and `a` to `f` in
/// either case for ten to fifteen.
pub open spec fn digit_value(c: char) -> Option<nat> {
    if '0' <= c <= '9' {
        Some((c as u32 - '0' as u32) as nat)
    } else if 'a' <= c <= 'f' {
        Some((c as u32 - 'a' as u32 + 10) as nat)
    } else if 'A' <= c <= 'F' {
        Some((c as u32 - 'A' as u32 + 10) as nat)
    } else {
        None
    }
}

/// Whether `c` is a digit in base `radix`.
pub open spec fn is_digit(c: char, radix: nat) -> bool {
    digit_value(c) matches Some(d) && d < radix
}

/// Whether every character of `s` is a digit in base `radix`.
pub open spec fn all_digits(s: Seq<char>, radix: nat) -> bool {
    forall|i: int| 0 <= i < s.len() ==> is_digit(#[trigger] s[i], radix)
}

/// The number that the digits of `s` write in base `radix`.
pub open spec fn digits_value(s: Seq<char>, radix: nat) -> nat
    decreases s.len(),
{
    if s.len() == 0 {
        0
    } else {
        digits_value(s.drop_last(), radix) * radix + digit_value(s.last())->Some_0
    }
}

/// The number that `s` writes in base `radix`: `s` must be one digit or
/// more, nothing else, and the number must fit a machine word.
pub open spec fn number_of(s: Seq<char>, radix: nat) -> Option<usize> {
    if s.len() > 0 && all_digits(s, radix) && digits_value(s, radix) <= usize::MAX {
        Some(digits_value(s, radix) as usize)
    } else {
        None
    }
}

/// A number is at least what its leading digits write.
pub proof fn lemma_leading_digits(s: Seq<char>, radix: nat, n: int)
    requires
        radix >= 1,
        0 <= n <= s.len(),
    ensures
        digits_value(s.take(n), radix) <= digits_value(s, radix),
    decreases s.len() - n,
{
    if n == s.len() {
        assert(s.take(n) == s);
    } else {
        lemma_leading_digits(s, radix, n + 1);
        let longer = s.take(n + 1);
        assert(longer.drop_last() == s.take(n));
        assert(digits_value(longer.drop_last(), radix) * radix >= digits_value(
            longer.drop_last(),
            radix,
        )) by (nonlinear_arith)
            requires
                radix >= 1,
        ;
    }
}

/// The value of `c` as a digit in base `radix`, if it is one.
pub(crate) fn to_digit(c: char, radix: usize) -> (digit: Option<usize>)
    requires
        radix <= 16,
    ensures
        digit is Some <==> is_digit(c, radix as nat),
        digit matches Some(d) ==> digit_value(c) == Some(d as nat) && d < radix,
{
    let code: u32 = c as u32;
    let value: u32 = if '0' as u32 <= code && code <= '9' as u32 {
        code - '0' as u32
    } else if 'a' as u32 <= code && code <= 'f' as u32 {
        code - 'a' as u32 + 10
    } else if 'A' as u32 <= code && code <= 'F' as u32 {
        code - 'A' as u32 + 10
    } else {
        return None;
    };
    if (value as usize) < radix {
        Some(value as usize)
    } else {
        None
    }
}

/// Reads the characters of `text` from index `from` on as a number in base
/// `radix`.
pub(crate) fn parse_number(text: &str, from: usize, radix: usize) -> (number: Option<usize>)
    requires
        from <= text@.len(),
        1 <= radix <= 16,
    ensures
        number == number_of(text@.skip(from as int), radix as nat),
{
    let ghost digits = text@.skip(from as int);
    let len = text.unicode_len();
    if from == len {
        return None;
    }
    let mut value: usize = 0;
    let mut i: usize = from;
    while i < len
        invariant
            from <= i <= len,
            len == text@.len(),
            1 <= radix <= 16,
            digits == text@.skip(from as int),
            all_digits(digits.take(i - from), radix as nat),
            value == digits_value(digits.take(i - from), radix as nat),
        decreases len - i,
    {
        let c = text.get_char(i);
        let ghost longer = digits.take(i - from + 1);
        proof {
            assert(longer.drop_last() == digits.take(i - from));
            assert(longer.last() == c);
        }
        let digit = match to_digit(c, radix) {
            Some(digit) => digit,
            None => {
                return None;
            },
        };
        let next = match value.checked_mul(radix) {
            Some(scaled) => scaled.checked_add(digit),
            None => None,
        };
        match next {
            Some(next) => {
                value = next;
            },
            None => {
                proof {
                    lemma_leading_digits(digits, radix as nat, i - from + 1);
                }
                return None;
            },
        }
        i += 1;
    }
    assert(digits.take(i - from) == digits);
    Some(value)
}

/// Reads `text` as a number in base 16.
pub fn parse_hex(text: &str) -> (number: Option<usize>)
    ensures
        number == number_of(text@, 16),
{
    assert(text@.skip(0) == text@);
    parse_number(text, 0, 16)
}

/// Reads `text` as a number in base 10.
pub fn parse_decimal(text: &str) -> (number: Option<usize>)
    ensures
        number == number_of(text@, 10),
{
    assert(text@.skip(0) == text@);
    parse_number(text, 0, 10)
}

} // verus!
