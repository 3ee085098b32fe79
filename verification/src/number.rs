//! Decimal numerals: reading and writing unsigned numbers.

use crate::text::chars_of;
use vstd::prelude::*;

verus! {

/// The digit that a character stands for.
pub open spec fn digit_of(c: char) -> Option<nat> {
    if '0' <= c && c <= '9' {
        Some((c as u32 - '0' as u32) as nat)
    } else {
        None
    }
}

/// All of `text` is decimal digits.
pub open spec fn all_digits(text: Seq<char>) -> bool {
    forall|i: int| 0 <= i < text.len() ==> digit_of(#[trigger] text[i]) is Some
}

/// The number that a row of digits writes.
pub open spec fn digits_value(text: Seq<char>) -> nat
    decreases text.len(),
{
    if text.len() == 0 {
        0
    } else {
        10 * digits_value(text.drop_last()) + digit_of(text.last()).unwrap()
    }
}

/// The digits of a numeral, after the one `+` that may stand before them.
pub open spec fn numeral_digits(text: Seq<char>) -> Seq<char> {
    if text.len() > 0 && text[0] == '+' {
        text.drop_first()
    } else {
        text
    }
}

/// The number that `text` writes, where it writes one that is no larger than `max`: an optional
/// `+`, then one digit or more, and nothing else.
pub open spec fn decimal_value(text: Seq<char>, max: nat) -> Option<nat> {
    let digits = numeral_digits(text);
    if digits.len() > 0 && all_digits(digits) && digits_value(digits) <= max {
        Some(digits_value(digits))
    } else {
        None
    }
}

/// The character of a digit.
pub open spec fn digit_char(digit: nat) -> char {
    ('0' as u32 + digit) as char
}

/// The decimal numeral of a number, without leading zeros.
pub open spec fn decimal_text(n: nat) -> Seq<char>
    decreases n,
{
    if n < 10 {
        seq![digit_char(n)]
    } else {
        decimal_text(n / 10).push(digit_char(n % 10))
    }
}

/// A row of digits only grows with each further digit.
proof fn lemma_digits_value_grows(text: Seq<char>, k: int)
    requires
        0 <= k <= text.len(),
        all_digits(text),
    ensures
        digits_value(text.take(k)) <= digits_value(text),
    decreases text.len() - k,
{
    if k == text.len() {
        assert(text.take(k) =~= text);
    } else {
        lemma_digits_value_grows(text, k + 1);
        assert(text.take(k + 1).drop_last() =~= text.take(k));
        assert(text.take(k + 1).last() == text[k]);
    }
}

/// Reads a decimal numeral no larger than `max`.
pub fn parse_decimal(text: &str, max: u64) -> (value: Option<u64>)
    ensures
        match value {
            Some(v) => decimal_value(text@, max as nat) == Some(v as nat),
            None => decimal_value(text@, max as nat) is None,
        },
{
    let chars = chars_of(text);
    let n: usize = chars.len();
    let start: usize = if n > 0 && chars[0] == '+' {
        1
    } else {
        0
    };
    let ghost digits = numeral_digits(text@);
    assert(digits =~= text@.subrange(start as int, n as int));
    if start == n {
        return None;
    }
    let mut value: u64 = 0;
    let mut i: usize = start;
    assert(digits.take(0) =~= Seq::<char>::empty());
    while i < n
        invariant
            n == chars@.len(),
            chars@ == text@,
            start <= i <= n,
            start < n,
            digits == numeral_digits(text@),
            digits == text@.subrange(start as int, n as int),
            all_digits(digits.take(i - start)),
            value == digits_value(digits.take(i - start)),
            value <= max,
        decreases n - i,
    {
        let c: char = chars[i];
        assert(digits[i - start] == c);
        if !('0' <= c && c <= '9') {
            assert(digit_of(digits[i - start]) is None);
            return None;
        }
        let digit: u64 = (c as u32 - '0' as u32) as u64;
        let ghost longer = digits.take(i - start + 1);
        assert(longer.drop_last() =~= digits.take(i - start));
        assert(longer.last() == c);
        assert forall|j: int| 0 <= j < longer.len() implies digit_of(#[trigger] longer[j]) is Some by {
            if j < i - start {
                assert(digits.take(i - start)[j] == longer[j]);
            }
        }
        assert(digits_value(longer) == 10 * value + digit);
        if value > max / 10 || digit > max - 10 * value {
            assert(digits_value(longer) > max);
            proof {
                if all_digits(digits) {
                    lemma_digits_value_grows(digits, i - start + 1);
                }
            }
            return None;
        }
        value = 10 * value + digit;
        i += 1;
    }
    assert(digits.take(n - start) =~= digits);
    Some(value)
}

/// The numeral of one digit.
fn digit_text(digit: u64) -> (text: &'static str)
    requires
        digit < 10,
    ensures
        text@ == seq![digit_char(digit as nat)],
{
    proof {
        reveal_strlit("0");
        reveal_strlit("1");
        reveal_strlit("2");
        reveal_strlit("3");
        reveal_strlit("4");
        reveal_strlit("5");
        reveal_strlit("6");
        reveal_strlit("7");
        reveal_strlit("8");
        reveal_strlit("9");
    }
    let text: &'static str = match digit {
        0 => "0",
        1 => "1",
        2 => "2",
        3 => "3",
        4 => "4",
        5 => "5",
        6 => "6",
        7 => "7",
        8 => "8",
        _ => "9",
    };
    assert(text@ =~= seq![digit_char(digit as nat)]);
    text
}

/// Writes a number as a decimal numeral.
pub fn write_decimal(n: u64) -> (text: String)
    ensures
        text@ == decimal_text(n as nat),
    decreases n,
{
    if n < 10 {
        digit_text(n).to_owned()
    } else {
        let mut text = write_decimal(n / 10);
        text.append(digit_text(n % 10));
        assert(text@ =~= decimal_text((n / 10) as nat) + seq![digit_char((n % 10) as nat)]);
        assert(text@ =~= decimal_text(n as nat));
        text
    }
}

/// The numeral of a number is a row of digits that writes that number.
proof fn lemma_decimal_text_digits(n: nat)
    ensures
        decimal_text(n).len() > 0,
        all_digits(decimal_text(n)),
        digits_value(decimal_text(n)) == n,
    decreases n,
{
    reveal_with_fuel(digits_value, 2);
    if n < 10 {
        assert(decimal_text(n).drop_last() =~= Seq::<char>::empty());
    } else {
        lemma_decimal_text_digits(n / 10);
        let head = decimal_text(n / 10);
        let all = decimal_text(n);
        assert(all.drop_last() =~= head);
        assert forall|i: int| 0 <= i < all.len() implies digit_of(#[trigger] all[i]) is Some by {
            if i < head.len() {
                assert(all[i] == head[i]);
            }
        }
    }
}

/// Reading what was written gives the number back.
pub proof fn lemma_decimal_round_trip(n: nat, max: nat)
    requires
        n <= max,
    ensures
        decimal_value(decimal_text(n), max) == Some(n),
{
    lemma_decimal_text_digits(n);
    assert(digit_of(decimal_text(n)[0]) is Some);
}

/// The numeral of a number from 1000 to 9999 is a row of four digits.
pub proof fn lemma_decimal_of_four_digits(n: nat)
    requires
        1000 <= n <= 9999,
    ensures
        decimal_text(n).len() == 4,
        all_digits(decimal_text(n)),
        digits_value(decimal_text(n)) == n,
{
    lemma_decimal_text_digits(n);
    reveal_with_fuel(decimal_text, 4);
}

/// What is read as a number holds nothing but digits, after the one `+` that may stand at its
/// beginning, and at least one of them. The number is no larger than the limit.
pub proof fn lemma_only_digits_are_read(text: Seq<char>, max: nat)
    requires
        decimal_value(text, max) is Some,
    ensures
        decimal_value(text, max).unwrap() <= max,
        text.len() > 0,
        '0' <= text.last() <= '9',
        forall|i: int|
            0 <= i < text.len() ==> '0' <= (#[trigger] text[i]) <= '9' || (i == 0 && text[i] == '+'),
{
    let digits = numeral_digits(text);
    assert(digit_of(digits[digits.len() - 1]) is Some);
    assert forall|i: int| 0 <= i < text.len() implies '0' <= (#[trigger] text[i]) <= '9' || (i == 0
        && text[i] == '+') by {
        if text[0] == '+' {
            if i > 0 {
                assert(digit_of(digits[i - 1]) is Some);
            }
        } else {
            assert(digit_of(digits[i]) is Some);
        }
    }
}

/// One digit is read as its number, and each further digit multiplies by ten and adds its number.
/// A number above the limit is not read.
pub proof fn lemma_digits_are_read_in_turn(text: Seq<char>, digit: char, limit: nat, max: nat)
    requires
        '0' <= digit <= '9',
    ensures
        decimal_value(seq![digit], max) == (if digit as u32 - 48 <= max {
            Some((digit as u32 - 48) as nat)
        } else {
            None
        }),
        decimal_value(text, limit) matches Some(n) ==> decimal_value(text.push(digit), max) == (
        if 10 * n + (digit as u32 - 48) <= max {
            Some((10 * n + (digit as u32 - 48)) as nat)
        } else {
            None
        }),
{
    reveal_with_fuel(digits_value, 2);
    let one = seq![digit];
    assert(numeral_digits(one) == one);
    assert(one.drop_last() =~= Seq::<char>::empty());
    assert(digits_value(one) == digit as u32 - 48);
    if decimal_value(text, limit) is Some {
        let digits = numeral_digits(text);
        let longer = text.push(digit);
        assert(numeral_digits(longer) =~= digits.push(digit));
        assert(digits.push(digit).drop_last() =~= digits);
        assert forall|i: int| 0 <= i < digits.push(digit).len() implies digit_of(
            #[trigger] digits.push(digit)[i],
        ) is Some by {
            if i < digits.len() {
                assert(digit_of(digits[i]) is Some);
            }
        }
    }
}

/// A `+` before a number without one changes nothing.
pub proof fn lemma_plus_changes_nothing(text: Seq<char>, max: nat)
    requires
        text.len() > 0,
        text[0] != '+',
    ensures
        decimal_value(seq!['+'] + text, max) == decimal_value(text, max),
{
    assert((seq!['+'] + text).drop_first() =~= text);
}

/// The numeral of a number is made of digits, does not begin with a zero unless it is just that,
/// and is read as the number.
pub proof fn lemma_numeral_is_plain(n: nat)
    ensures
        decimal_text(n).len() > 0,
        forall|i: int|
            0 <= i < decimal_text(n).len() ==> '0' <= (#[trigger] decimal_text(n)[i]) <= '9',
        decimal_text(n)[0] == '0' ==> decimal_text(n).len() == 1,
        decimal_value(decimal_text(n), n) == Some(n),
{
    lemma_decimal_text_digits(n);
    lemma_decimal_round_trip(n, n);
    lemma_first_digit_is_not_zero(n);
    assert forall|i: int| 0 <= i < decimal_text(n).len() implies '0' <= (
    #[trigger] decimal_text(n)[i]) <= '9' by {
        assert(digit_of(decimal_text(n)[i]) is Some);
    }
}

/// The numeral of a number above zero does not begin with a zero.
proof fn lemma_first_digit_is_not_zero(n: nat)
    ensures
        n > 0 ==> decimal_text(n)[0] != '0',
        decimal_text(0).len() == 1,
    decreases n,
{
    if n >= 10 {
        lemma_first_digit_is_not_zero(n / 10);
        lemma_decimal_text_digits(n / 10);
        assert(decimal_text(n)[0] == decimal_text(n / 10)[0]);
    }
}

} // verus!
