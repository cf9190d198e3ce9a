//! Numbers as the source writes them: in base eight, with an optional word
//! behind them that doubles or triples the value.

use crate::text::{
    after_first_word, chars_of, first_word, range_is, skip_spaces_from, word_end,
};
use vstd::prelude::*;

verus! {

/// The value of a digit of base eight.
pub open spec fn octal_digit(c: char) -> Option<int> {
    if '0' <= c <= '7' {
        Some(c as int - '0' as int)
    } else {
        None
    }
}

/// Whether a text is made of digits of base eight.
pub open spec fn octal_digits(digits: Seq<char>) -> bool {
    forall|i: int| 0 <= i < digits.len() ==> octal_digit(#[trigger] digits[i]) is Some
}

/// The value of a text of digits in base eight, the last digit counting
/// least.
pub open spec fn octal_value(digits: Seq<char>) -> nat
    decreases digits.len(),
{
    if digits.len() == 0 {
        0
    } else {
        (8 * octal_value(digits.drop_last()) + octal_digit(digits.last())->0) as nat
    }
}

/// The digits of a word: the word without its sign.
pub open spec fn unsigned(word: Seq<char>) -> Seq<char> {
    if word.len() > 0 && (word[0] == '-' || word[0] == '+') {
        word.skip(1)
    } else {
        word
    }
}

/// The number that a word writes in base eight: an optional sign, then at
/// least one digit and nothing but digits.
pub open spec fn signed_octal(word: Seq<char>) -> Option<int> {
    let digits = unsigned(word);
    if digits.len() > 0 && octal_digits(digits) {
        if word[0] == '-' {
            Some(-(octal_value(digits) as int))
        } else {
            Some(octal_value(digits) as int)
        }
    } else {
        None
    }
}

/// By how much the word behind a number multiplies it: no word leaves it as
/// it is, `melo` doubles it and `pxelo` triples it.
pub open spec fn multiplier(word: Seq<char>) -> Option<int> {
    if word.len() == 0 {
        Some(1)
    } else if word == "melo"@ {
        Some(2)
    } else if word == "pxelo"@ {
        Some(3)
    } else {
        None
    }
}

/// The value of a number as written: its first word read in base eight,
/// times what its second word stands for, where that fits in 64 bits.
pub open spec fn number_value(text: Seq<char>) -> Option<i64> {
    match (signed_octal(first_word(text)), multiplier(first_word(after_first_word(text)))) {
        (Some(value), Some(times)) => if i64::MIN <= value * times <= i64::MAX {
            Some((value * times) as i64)
        } else {
            None
        },
        _ => None,
    }
}

/// A longer text of digits has no smaller value than a part that it starts
/// with.
proof fn lemma_octal_value_grows(digits: Seq<char>, upto: int)
    requires
        0 <= upto <= digits.len(),
        octal_digits(digits),
    ensures
        octal_value(digits.take(upto)) <= octal_value(digits),
    decreases digits.len(),
{
    if upto == digits.len() {
        assert(digits.take(upto) =~= digits);
    } else {
        assert(digits.drop_last().take(upto) =~= digits.take(upto));
        lemma_octal_value_grows(digits.drop_last(), upto);
        assert(octal_digit(digits.last()) is Some);
    }
}

/// The value of the digits of `text` from `from` up to `to`, where they are
/// digits and their value is at most 2 to the 63rd.
fn octal_of(text: &Vec<char>, from: usize, to: usize) -> (value: Option<i128>)
    requires
        from <= to <= text.len(),
    ensures
        match value {
            Some(value) => {
                &&& octal_digits(text@.subrange(from as int, to as int))
                &&& value == octal_value(text@.subrange(from as int, to as int))
                &&& value <= 0x8000_0000_0000_0000
            },
            None => octal_digits(text@.subrange(from as int, to as int)) ==> octal_value(
                text@.subrange(from as int, to as int),
            ) > 0x8000_0000_0000_0000,
        },
{
    let ghost digits = text@.subrange(from as int, to as int);
    let mut value: i128 = 0;
    let mut at: usize = from;
    assert(digits.take(0) =~= Seq::empty());
    while at < to
        invariant
            from <= at <= to <= text.len(),
            digits == text@.subrange(from as int, to as int),
            octal_digits(digits.take(at - from)),
            value == octal_value(digits.take(at - from)),
            0 <= value <= 0x8000_0000_0000_0000,
        decreases to - at,
    {
        let c = text[at];
        let ghost longer = digits.take(at - from + 1);
        assert(longer.drop_last() =~= digits.take(at - from));
        assert(longer.last() == c);
        if c < '0' || c > '7' {
            assert(octal_digit(digits[at - from]) is None);
            return None;
        }
        let digit: i128 = (c as u32 - '0' as u32) as i128;
        value = value * 8 + digit;
        assert(octal_digits(longer)) by {
            assert forall|i: int| 0 <= i < longer.len() implies octal_digit(
                #[trigger] longer[i],
            ) is Some by {
                if i < longer.len() - 1 {
                    assert(digits.take(at - from)[i] == longer[i]);
                }
            }
        }
        if value > 0x8000_0000_0000_0000 {
            proof {
                if octal_digits(digits) {
                    lemma_octal_value_grows(digits, at - from + 1);
                }
            }
            return None;
        }
        at += 1;
    }
    assert(digits.take(to - from) =~= digits);
    Some(value)
}

/// Reads a number as the source writes it.
pub fn parse_number(text: &str) -> (value: Option<i64>)
    ensures
        value == number_value(text@),
{
    let chars = chars_of(text);
    let start = skip_spaces_from(&chars, 0);
    let end = word_end(&chars, start);
    let next = skip_spaces_from(&chars, end);
    let last = word_end(&chars, next);
    proof {
        assert(chars@.skip(0) =~= text@);
        assert(chars@.subrange(start as int, end as int) =~= first_word(text@));
        assert(chars@.skip(end as int) =~= after_first_word(text@));
        assert(chars@.subrange(next as int, last as int) =~= first_word(after_first_word(text@)));
    }
    let ghost word = first_word(text@);
    let ghost unit = first_word(after_first_word(text@));
    let times: i128 = if next == last {
        1
    } else if range_is(&chars, next, last, &chars_of("melo")) {
        2
    } else if range_is(&chars, next, last, &chars_of("pxelo")) {
        3
    } else {
        return None;
    };
    assert(multiplier(unit) == Some(times as int));
    assert(times == 1 || times == 2 || times == 3);
    let negative = start < end && chars[start] == '-';
    let signed = start < end && (chars[start] == '-' || chars[start] == '+');
    let digits_from: usize = if signed {
        start + 1
    } else {
        start
    };
    assert(chars@.subrange(digits_from as int, end as int) =~= unsigned(word));
    if digits_from == end {
        return None;
    }
    if start < end {
        assert(word[0] == chars@[start as int]);
    }
    match octal_of(&chars, digits_from, end) {
        None => {
            proof {
                if signed_octal(word) is Some {
                    let value = signed_octal(word)->0;
                    assert(value > 0x8000_0000_0000_0000 || value < -0x8000_0000_0000_0000);
                    assert(value * times > 0x8000_0000_0000_0000 || value * times
                        < -0x8000_0000_0000_0000) by (nonlinear_arith)
                        requires
                            value > 0x8000_0000_0000_0000 || value < -0x8000_0000_0000_0000,
                            1 <= times <= 3,
                    ;
                }
            }
            None
        },
        Some(size) => {
            let value: i128 = if negative {
                -size
            } else {
                size
            };
            assert(signed_octal(word) == Some(value as int));
            assert(-0x2_0000_0000_0000_0000 <= value * times <= 0x2_0000_0000_0000_0000)
                by (nonlinear_arith)
                requires
                    -0x8000_0000_0000_0000 <= value <= 0x8000_0000_0000_0000,
                    1 <= times <= 3,
            ;
            let product: i128 = value * times;
            if product < -0x8000_0000_0000_0000 || product > 0x7fff_ffff_ffff_ffff {
                None
            } else {
                Some(product as i64)
            }
        },
    }
}

} // verus!
