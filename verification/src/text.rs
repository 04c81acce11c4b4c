//! Numbers as texts and texts as numbers.

use vstd::prelude::*;
use vstd::string::*;

verus! {

/// `str`'s `==` from the standard library: two string slices are equal exactly
/// when they hold the same characters.
pub assume_specification[ <str as PartialEq>::eq ](a: &str, b: &str) -> (r: bool)
    ensures
        r == (a@ == b@),
;

/// The character for a digit below ten.
pub open spec fn digit_char(d: int) -> char {
    if d == 0 {
        '0'
    } else if d == 1 {
        '1'
    } else if d == 2 {
        '2'
    } else if d == 3 {
        '3'
    } else if d == 4 {
        '4'
    } else if d == 5 {
        '5'
    } else if d == 6 {
        '6'
    } else if d == 7 {
        '7'
    } else if d == 8 {
        '8'
    } else {
        '9'
    }
}

/// The digit that a character stands for.
pub open spec fn digit_value(c: char) -> Option<int> {
    if c == '0' {
        Some(0)
    } else if c == '1' {
        Some(1)
    } else if c == '2' {
        Some(2)
    } else if c == '3' {
        Some(3)
    } else if c == '4' {
        Some(4)
    } else if c == '5' {
        Some(5)
    } else if c == '6' {
        Some(6)
    } else if c == '7' {
        Some(7)
    } else if c == '8' {
        Some(8)
    } else if c == '9' {
        Some(9)
    } else {
        None
    }
}

/// The decimal digits of a natural number, without leading zeros.
pub open spec fn digits(n: nat) -> Seq<char>
    decreases n,
{
    if n < 10 {
        seq![digit_char(n as int)]
    } else {
        digits(n / 10).push(digit_char((n % 10) as int))
    }
}

/// An integer in decimal, with a minus sign where it is negative.
pub open spec fn decimal(i: int) -> Seq<char> {
    if i < 0 {
        seq!['-'] + digits((-i) as nat)
    } else {
        digits(i as nat)
    }
}

/// The number that a run of decimal digits denotes; nothing where the run is
/// empty or holds another character.
pub open spec fn digits_value(text: Seq<char>) -> Option<int>
    decreases text.len(),
{
    if text.len() == 0 {
        None
    } else {
        match digit_value(text.last()) {
            None => None,
            Some(d) => if text.len() == 1 {
                Some(d)
            } else {
                match digits_value(text.drop_last()) {
                    None => None,
                    Some(high) => Some(high * 10 + d),
                }
            },
        }
    }
}

/// The integer that a text denotes: decimal digits after an optional sign.
pub open spec fn integer_value(text: Seq<char>) -> Option<int> {
    if text.len() > 0 && text[0] == '-' {
        match digits_value(text.skip(1)) {
            Some(n) => Some(-n),
            None => None,
        }
    } else if text.len() > 0 && text[0] == '+' {
        digits_value(text.skip(1))
    } else {
        digits_value(text)
    }
}

/// The words with which the standard library turns a text down as an integer.
pub uninterp spec fn integer_refusal(text: Seq<char>) -> Seq<char>;

/// The text of one digit.
fn digit_text(d: u64) -> (text: &'static str)
    requires
        d < 10,
    ensures
        text@ == seq![digit_char(d as int)],
{
    proof {
        reveal_strlit("0");
        reveal_strlit("1");
        reveal_strlit("2");
        reveal_strlit("3");
        reveal_strlit("4");
        reveal_strlit("5");
        reveal_strlit("6");
        reveal_strlit("7");
        reveal_strlit("8");
        reveal_strlit("9");
    }
    let text = if d == 0 {
        "0"
    } else if d == 1 {
        "1"
    } else if d == 2 {
        "2"
    } else if d == 3 {
        "3"
    } else if d == 4 {
        "4"
    } else if d == 5 {
        "5"
    } else if d == 6 {
        "6"
    } else if d == 7 {
        "7"
    } else if d == 8 {
        "8"
    } else {
        "9"
    };
    assert(text@ =~= seq![digit_char(d as int)]);
    text
}

/// Writes a natural number in decimal.
fn natural_to_text(n: u64) -> (text: String)
    ensures
        text@ == digits(n as nat),
{
    let mut rest = n;
    let mut text = String::new();
    while rest >= 10
        invariant
            digits(n as nat) == digits(rest as nat) + text@,
        decreases rest,
    {
        let low = digit_text(rest % 10);
        assert(digits(rest as nat) =~= digits((rest / 10) as nat) + low@);
        text = low.to_owned().concat(text.as_str());
        rest = rest / 10;
        assert(digits(n as nat) =~= digits(rest as nat) + text@);
    }
    digit_text(rest).to_owned().concat(text.as_str())
}

/// Writes an integer in decimal: the digits without leading zeros, behind a
/// minus sign where the number is negative.
pub fn int_to_text(i: i64) -> (text: String)
    ensures
        text@ == decimal(i as int),
{
    if i < 0 {
        // The magnitude of the least integer does not fit the type itself.
        let magnitude: u64 = ((-(i + 1)) as u64) + 1;
        proof {
            reveal_strlit("-");
        }
        let sign = "-".to_owned();
        assert(sign@ =~= seq!['-']);
        sign.concat(natural_to_text(magnitude).as_str())
    } else {
        natural_to_text(i as u64)
    }
}

/// Reads an integer, by `str`'s `parse` from the standard library. A text of
/// decimal digits behind an optional sign gives the number it denotes if that
/// fits in 64 bits. Any other text is refused, in the library's own words.
#[verifier::external_body]
pub(crate) fn parse_int(text: &str) -> (r: Result<i64, String>)
    ensures
        match r {
            Ok(i) => integer_value(text@) == Some(i as int),
            Err(reason) => {
                &&& match integer_value(text@) {
                    Some(n) => n < i64::MIN || n > i64::MAX,
                    None => true,
                }
                &&& reason@ == integer_refusal(text@)
            },
        },
{
    match text.parse::<i64>() {
        Ok(i) => Ok(i),
        Err(error) => Err(error.to_string()),
    }
}

/// `text` with every `from` replaced by `to`.
pub open spec fn replaced(text: Seq<char>, from: char, to: char) -> Seq<char> {
    text.map_values(
        |c: char|
            if c == from {
                to
            } else {
                c
            },
    )
}

/// Puts a period wherever the text has a comma.
pub fn commas_to_periods(text: &str) -> (r: String)
    ensures
        r@ == replaced(text@, ',', '.'),
{
    let ghost whole = replaced(text@, ',', '.');
    let length = text.unicode_len();
    let mut out = String::new();
    let mut i: usize = 0;
    proof {
        reveal_strlit(".");
    }
    assert("."@ =~= seq!['.']);
    assert(out@ =~= whole.take(0));
    while i < length
        invariant
            i <= length,
            length == text@.len(),
            whole == replaced(text@, ',', '.'),
            "."@ == seq!['.'],
            out@ == whole.take(i as int),
        decreases length - i,
    {
        if text.get_char(i) == ',' {
            out.append(".");
        } else {
            out.append(text.substring_char(i, i + 1));
        }
        i += 1;
        assert(out@ =~= whole.take(i as int));
    }
    assert(whole.take(length as int) =~= whole);
    out
}

/// The text of one character, by `String::from` from the standard library.
#[verifier::external_body]
pub(crate) fn char_to_text(code: u8) -> (text: String)
    ensures
        text@ == seq![code as char],
{
    String::from(code as char)
}

} // verus!
