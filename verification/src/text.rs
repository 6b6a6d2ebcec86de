//! Numbers in text: reading and writing decimal numbers, and the offset of a
//! time zone without its colons.

use vstd::prelude::*;
use vstd::string::{StrSliceExecFns, StringExecFns};

verus! {

/// Whether `c` is one of the ten ASCII digits.
pub open spec fn is_digit(c: char) -> bool {
    '0' <= c && c <= '9'
}

/// Whether `text` holds ASCII digits only.
pub open spec fn all_digits(text: Seq<char>) -> bool {
    forall|i: int| 0 <= i < text.len() ==> is_digit(#[trigger] text[i])
}

/// The number that a digit stands for.
pub open spec fn digit_value(c: char) -> nat {
    if is_digit(c) {
        (c as u32 - '0' as u32) as nat
    } else {
        0
    }
}

/// The number that a run of digits writes in base ten.
pub open spec fn decimal_value(digits: Seq<char>) -> nat
    decreases digits.len(),
{
    if digits.len() == 0 {
        0
    } else {
        decimal_value(digits.drop_last()) * 10 + digit_value(digits.last())
    }
}

/// The text without a sign in front: without a leading `+`, and, where
/// `signed`, without a leading `-`.
pub open spec fn unsigned_part(text: Seq<char>, signed: bool) -> Seq<char> {
    if text.len() > 0 && (text[0] == '+' || (signed && text[0] == '-')) {
        text.skip(1)
    } else {
        text
    }
}

/// The number that `digits` writes, where they are digits only, at least one,
/// and the number fits a `u64`.
pub open spec fn parsed_digits(digits: Seq<char>) -> Option<u64> {
    if digits.len() > 0 && all_digits(digits) && decimal_value(digits) <= u64::MAX {
        Some(decimal_value(digits) as u64)
    } else {
        None
    }
}

/// The `u64` that `text` writes: an optional `+` and then digits only, at least
/// one, whose number fits.
pub open spec fn parsed_u64(text: Seq<char>) -> Option<u64> {
    parsed_digits(unsigned_part(text, false))
}

/// The `i64` that `text` writes: an optional `+` or `-` and then digits only, at
/// least one, whose number with that sign fits.
pub open spec fn parsed_i64(text: Seq<char>) -> Option<i64> {
    let digits = unsigned_part(text, true);
    let magnitude = decimal_value(digits) as int;
    let number = if text.len() > 0 && text[0] == '-' {
        -magnitude
    } else {
        magnitude
    };
    if digits.len() > 0 && all_digits(digits) && i64::MIN <= number <= i64::MAX {
        Some(number as i64)
    } else {
        None
    }
}

/// A longer run of digits writes no smaller number than its beginning.
proof fn lemma_value_grows(digits: Seq<char>, count: int)
    requires
        0 <= count <= digits.len(),
    ensures
        decimal_value(digits.take(count)) <= decimal_value(digits),
    decreases digits.len() - count,
{
    if count < digits.len() {
        assert(digits.take(count + 1).drop_last() =~= digits.take(count));
        lemma_value_grows(digits, count + 1);
    } else {
        assert(digits.take(count) =~= digits);
    }
}

/// The number that the text writes from place `from` on.
fn parse_digits(text: &str, from: usize) -> (number: Option<u64>)
    requires
        from <= text@.len(),
    ensures
        number == parsed_digits(text@.skip(from as int)),
{
    let length = text.unicode_len();
    let ghost digits = text@.skip(from as int);
    if from == length {
        return None;
    }
    let mut value: u64 = 0;
    let mut i: usize = from;
    while i < length
        invariant
            from <= i <= length,
            length == text@.len(),
            digits == text@.skip(from as int),
            all_digits(digits.take(i - from)),
            value == decimal_value(digits.take(i - from)),
        decreases length - i,
    {
        let c = text.get_char(i);
        let ghost seen = digits.take(i - from + 1);
        proof {
            assert(digits[i - from] == c);
            assert(seen.drop_last() =~= digits.take(i - from));
            assert(seen.last() == c);
        }
        if !(c >= '0' && c <= '9') {
            return None;
        }
        let digit: u64 = (c as u32 - '0' as u32) as u64;
        let next = match value.checked_mul(10) {
            Some(tens) => tens.checked_add(digit),
            None => None,
        };
        match next {
            Some(sum) => {
                value = sum;
            },
            None => {
                proof {
                    lemma_value_grows(digits, i - from + 1);
                }
                return None;
            },
        }
        proof {
            assert forall|k: int| 0 <= k < seen.len() implies is_digit(#[trigger] seen[k]) by {
                if k < seen.len() - 1 {
                    assert(seen[k] == digits.take(i - from)[k]);
                }
            }
        }
        i += 1;
    }
    assert(digits.take(i - from) =~= digits);
    Some(value)
}

/// The `u64` that `text` writes, if it writes one.
pub fn parse_u64(text: &str) -> (number: Option<u64>)
    ensures
        number == parsed_u64(text@),
{
    if text.unicode_len() > 0 && text.get_char(0) == '+' {
        parse_digits(text, 1)
    } else {
        assert(text@.skip(0) =~= text@);
        parse_digits(text, 0)
    }
}

/// The `i64` that `text` writes, if it writes one.
pub fn parse_i64(text: &str) -> (number: Option<i64>)
    ensures
        number == parsed_i64(text@),
{
    let signed = text.unicode_len() > 0 && (text.get_char(0) == '+' || text.get_char(0) == '-');
    let negative = signed && text.get_char(0) == '-';
    let magnitude = if signed {
        parse_digits(text, 1)
    } else {
        assert(text@.skip(0) =~= text@);
        parse_digits(text, 0)
    };
    match magnitude {
        None => None,
        Some(size) => {
            if negative {
                if size <= 0x8000_0000_0000_0000 {
                    Some((0 - size as i128) as i64)
                } else {
                    None
                }
            } else if size <= 0x7fff_ffff_ffff_ffff {
                Some(size as i64)
            } else {
                None
            }
        },
    }
}

/// The character of a digit.
pub open spec fn digit_char(digit: nat) -> char {
    if digit == 0 {
        '0'
    } else if digit == 1 {
        '1'
    } else if digit == 2 {
        '2'
    } else if digit == 3 {
        '3'
    } else if digit == 4 {
        '4'
    } else if digit == 5 {
        '5'
    } else if digit == 6 {
        '6'
    } else if digit == 7 {
        '7'
    } else if digit == 8 {
        '8'
    } else {
        '9'
    }
}

/// The decimal text of a natural number, without leading zeros.
pub open spec fn natural_text(number: nat) -> Seq<char>
    decreases number,
{
    if number < 10 {
        seq![digit_char(number)]
    } else {
        natural_text(number / 10).push(digit_char(number % 10))
    }
}

/// The decimal text of a number: a `-` before a negative number, no sign
/// otherwise, and no leading zeros.
pub open spec fn decimal_text(number: int) -> Seq<char> {
    if number < 0 {
        seq!['-'] + natural_text((-number) as nat)
    } else {
        natural_text(number as nat)
    }
}

/// The text of a natural number is a run of digits that writes the number.
pub proof fn lemma_natural_text(number: nat)
    ensures
        natural_text(number).len() > 0,
        all_digits(natural_text(number)),
        decimal_value(natural_text(number)) == number,
    decreases number,
{
    let text = natural_text(number);
    if number < 10 {
        assert(text.drop_last() =~= Seq::<char>::empty());
        assert(text.last() == digit_char(number));
        assert(decimal_value(text.drop_last()) == 0);
    } else {
        lemma_natural_text(number / 10);
        let front = natural_text(number / 10);
        assert(text.drop_last() =~= front);
        assert(text.last() == digit_char(number % 10));
        assert forall|i: int| 0 <= i < text.len() implies is_digit(#[trigger] text[i]) by {
            if i < front.len() {
                assert(text[i] == front[i]);
            }
        }
    }
}

/// What is written is read back: the decimal text of a number parses to the number.
pub proof fn lemma_written_number_parses(number: i64)
    ensures
        parsed_i64(decimal_text(number as int)) == Some(number),
{
    let text = decimal_text(number as int);
    if number < 0 {
        let size = (-number) as nat;
        lemma_natural_text(size);
        assert(text[0] == '-');
        assert(text.skip(1) =~= natural_text(size));
    } else {
        lemma_natural_text(number as nat);
        assert(is_digit(text[0]));
    }
}

/// The text of one digit.
fn digit_text(digit: u64) -> (text: &'static str)
    requires
        digit < 10,
    ensures
        text@ == seq![digit_char(digit as nat)],
{
    proof {
        reveal_strlit("0");
        reveal_strlit("1");
        reveal_strlit("2");
        reveal_strlit("3");
        reveal_strlit("4");
        reveal_strlit("5");
        reveal_strlit("6");
        reveal_strlit("7");
        reveal_strlit("8");
        reveal_strlit("9");
    }
    let text = if digit == 0 {
        "0"
    } else if digit == 1 {
        "1"
    } else if digit == 2 {
        "2"
    } else if digit == 3 {
        "3"
    } else if digit == 4 {
        "4"
    } else if digit == 5 {
        "5"
    } else if digit == 6 {
        "6"
    } else if digit == 7 {
        "7"
    } else if digit == 8 {
        "8"
    } else {
        "9"
    };
    assert(text@ =~= seq![digit_char(digit as nat)]);
    text
}

/// The decimal text of a natural number.
pub fn write_natural(number: u64) -> (text: String)
    ensures
        text@ == natural_text(number as nat),
    decreases number,
{
    if number < 10 {
        String::from_str(digit_text(number))
    } else {
        let mut text = write_natural(number / 10);
        text.append(digit_text(number % 10));
        assert(text@ =~= natural_text(number as nat));
        text
    }
}

/// The decimal text of a number.
pub fn write_decimal(number: i64) -> (text: String)
    ensures
        text@ == decimal_text(number as int),
{
    if number < 0 {
        let size: u64 = (0 - number as i128) as u64;
        let mut text = String::from_str("-");
        text.append(write_natural(size).as_str());
        proof {
            reveal_strlit("-");
            assert(text@ =~= decimal_text(number as int));
        }
        text
    } else {
        write_natural(number as u64)
    }
}

/// The text without its colons.
pub open spec fn without_colons(text: Seq<char>) -> Seq<char> {
    text.filter(|c: char| c != ':')
}

/// The text without its colons.
pub fn strip_colons(text: &str) -> (stripped: String)
    ensures
        stripped@ == without_colons(text@),
{
    let length = text.unicode_len();
    let mut stripped = String::new();
    let mut i: usize = 0;
    proof {
        reveal(Seq::filter);
        assert(text@.take(0) =~= Seq::<char>::empty());
    }
    while i < length
        invariant
            i <= length,
            length == text@.len(),
            stripped@ == without_colons(text@.take(i as int)),
        decreases length - i,
    {
        let c = text.get_char(i);
        proof {
            reveal(Seq::filter);
            assert(text@.take(i + 1).drop_last() =~= text@.take(i as int));
            assert(text@.take(i + 1).last() == c);
            assert(text@.subrange(i as int, i + 1) =~= seq![c]);
        }
        if c != ':' {
            stripped.append(text.substring_char(i, i + 1));
            assert(stripped@ =~= without_colons(text@.take(i as int)).push(c));
        }
        i += 1;
    }
    assert(text@.take(i as int) =~= text@);
    stripped
}

} // verus!
