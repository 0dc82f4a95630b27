//! Integers as decimal text, both ways.

use vstd::prelude::*;
use vstd::string::StringExecFns;
use crate::text::chars_of;

verus! {

/// The character for a digit from 0 to 9.
pub open spec fn digit_char(d: int) -> char {
    (('0' as u8) + d) as char
}

/// The number that a decimal digit stands for.
pub open spec fn digit_value(c: char) -> int {
    (c as u8) - ('0' as u8)
}

/// Whether the character is a decimal digit.
pub open spec fn is_digit(c: char) -> bool {
    '0' <= c <= '9'
}

/// The decimal text of a natural number, without leading zeros.
pub open spec fn decimal(n: nat) -> Seq<char>
    decreases n,
{
    if n < 10 {
        seq![digit_char(n as int)]
    } else {
        decimal(n / 10).push(digit_char((n % 10) as int))
    }
}

/// The decimal text of an integer, with `-` before a negative one.
pub open spec fn signed_decimal(i: int) -> Seq<char> {
    if i < 0 {
        seq!['-'] + decimal((-i) as nat)
    } else {
        decimal(i as nat)
    }
}

/// Whether every character is a decimal digit.
pub open spec fn all_digits(s: Seq<char>) -> bool {
    forall|i: int| 0 <= i < s.len() ==> is_digit(#[trigger] s[i])
}

/// The number that a run of decimal digits stands for.
pub open spec fn digits_value(s: Seq<char>) -> nat
    decreases s.len(),
{
    if s.len() == 0 {
        0
    } else {
        (digits_value(s.drop_last()) * 10 + digit_value(s.last())) as nat
    }
}

/// The integer between `min` and `max` that `text` denotes: a `+` or, where
/// `min` is negative, a `-` may stand first; then comes at least one decimal
/// digit and nothing else. Text of another shape, or whose number lies
/// outside the bounds, denotes nothing.
pub open spec fn parse_integer(text: Seq<char>, min: int, max: int) -> Option<int> {
    let negative = min < 0 && text.len() > 0 && text[0] == '-';
    let body = if text.len() > 0 && (text[0] == '+' || negative) {
        text.skip(1)
    } else {
        text
    };
    let value = if negative {
        -(digits_value(body) as int)
    } else {
        digits_value(body) as int
    };
    if body.len() > 0 && all_digits(body) && min <= value <= max {
        Some(value)
    } else {
        None
    }
}

/// The digit for a number from 0 to 9.
pub fn digit_text(d: u8) -> (text: &'static str)
    requires
        d < 10,
    ensures
        text@ == seq![digit_char(d as int)],
{
    proof {
        reveal_strlit("0");
        reveal_strlit("1");
        reveal_strlit("2");
        reveal_strlit("3");
        reveal_strlit("4");
        reveal_strlit("5");
        reveal_strlit("6");
        reveal_strlit("7");
        reveal_strlit("8");
        reveal_strlit("9");
    }
    let text = match d {
        0 => "0",
        1 => "1",
        2 => "2",
        3 => "3",
        4 => "4",
        5 => "5",
        6 => "6",
        7 => "7",
        8 => "8",
        _ => "9",
    };
    assert(text@ =~= seq![digit_char(d as int)]);
    text
}

/// The decimal text of `n`.
pub fn format_unsigned(n: u128) -> (text: String)
    ensures
        text@ == decimal(n as nat),
    decreases n,
{
    if n < 10 {
        String::from_str(digit_text(n as u8))
    } else {
        let mut text = format_unsigned(n / 10);
        text.append(digit_text((n % 10) as u8));
        assert(text@ =~= decimal((n / 10) as nat).push(digit_char((n % 10) as int)));
        text
    }
}

/// The decimal text of `i`.
pub fn format_signed(i: i128) -> (text: String)
    ensures
        text@ == signed_decimal(i as int),
{
    if i < 0 {
        let magnitude: u128 = ((-(i + 1)) as u128) + 1;
        let digits = format_unsigned(magnitude);
        let mut text = String::from_str("-");
        text.append(digits.as_str());
        proof {
            reveal_strlit("-");
            assert("-"@ =~= seq!['-']);
        }
        text
    } else {
        format_unsigned(i as u128)
    }
}

/// The sign and the size of the integer that `text` denotes, where the size
/// is at most `limit` for a number that is not negative and at most `floor`
/// for a negative one.
#[verifier::loop_isolation(false)]
pub fn parse_bounded(text: &str, floor: u128, limit: u128) -> (r: Option<(bool, u128)>)
    ensures
        match parse_integer(text@, -(floor as int), limit as int) {
            Some(value) => r matches Some((negative, size)) && value == (if negative {
                -(size as int)
            } else {
                size as int
            }),
            None => r is None,
        },
{
    let chars = chars_of(text);
    let n = chars.len();
    let negative = floor > 0 && n > 0 && chars[0] == '-';
    let start: usize = if n > 0 && (chars[0] == '+' || negative) {
        1
    } else {
        0
    };
    let ghost body = text@.skip(start as int);
    assert(text@.skip(0) =~= text@);
    if start == n {
        return None;
    }
    let bound: u128 = if negative {
        floor
    } else {
        limit
    };
    let mut size: u128 = 0;
    let mut i: usize = start;
    while i < n
        invariant
            start <= i <= n,
            n == chars@.len(),
            chars@ == text@,
            body == text@.skip(start as int),
            all_digits(body.take(i - start)),
            size == digits_value(body.take(i - start)),
            size <= bound,
        decreases n - i,
    {
        let c = chars[i];
        let ghost shorter = body.take(i - start);
        let ghost longer = body.take(i - start + 1);
        assert(body[i - start] == c);
        assert(longer.drop_last() =~= shorter);
        assert(longer.last() == c);
        if !('0' <= c && c <= '9') {
            assert(!is_digit(body[i - start]));
            return None;
        }
        assert(all_digits(longer)) by {
            assert forall|j: int| 0 <= j < longer.len() implies is_digit(#[trigger] longer[j]) by {
                if j < i - start {
                    assert(shorter[j] == longer[j]);
                }
            }
        }
        let d: u128 = ((c as u8) - 48u8) as u128;
        assert(digits_value(longer) == size * 10 + d);
        if d > bound || size > (bound - d) / 10 {
            proof {
                if all_digits(body) {
                    lemma_digits_grow(body, i - start + 1);
                }
            }
            return None;
        }
        size = size * 10 + d;
        i = i + 1;
    }
    assert(body.take(n - start) =~= body);
    Some((negative, size))
}

/// The number of a run of digits is at least that of any of its beginnings.
proof fn lemma_digits_grow(s: Seq<char>, k: int)
    requires
        0 <= k <= s.len(),
        all_digits(s),
    ensures
        digits_value(s.take(k)) <= digits_value(s),
    decreases s.len() - k,
{
    if k < s.len() {
        lemma_digits_grow(s, k + 1);
        assert(s.take(k + 1).drop_last() =~= s.take(k));
        assert(s.take(k + 1).last() == s[k]);
        assert(is_digit(s[k]));
    } else {
        assert(s.take(k) =~= s);
    }
}

/// The decimal text of a number is made of digits that stand for it.
pub proof fn lemma_decimal_digits(n: nat)
    ensures
        decimal(n).len() > 0,
        all_digits(decimal(n)),
        digits_value(decimal(n)) == n,
    decreases n,
{
    if n < 10 {
        let text = decimal(n);
        assert(text.len() == 1);
        assert(text.drop_last() =~= Seq::<char>::empty());
        assert(digits_value(text.drop_last()) == 0);
        assert(is_digit(text[0]));
        assert(digit_value(text.last()) == n);
    } else {
        lemma_decimal_digits(n / 10);
        let front = decimal(n / 10);
        let text = decimal(n);
        assert(text.drop_last() =~= front);
        assert(text.last() == digit_char((n % 10) as int));
        assert forall|i: int| 0 <= i < text.len() implies is_digit(#[trigger] text[i]) by {
            if i < front.len() {
                assert(text[i] == front[i]);
            }
        }
    }
}

/// An integer is read back from its decimal text.
pub proof fn lemma_decimal_is_read_back(i: int, min: int, max: int)
    requires
        min <= i <= max,
    ensures
        parse_integer(signed_decimal(i), min, max) == Some(i),
{
    if i < 0 {
        let digits = decimal((-i) as nat);
        lemma_decimal_digits((-i) as nat);
        let text = signed_decimal(i);
        assert(text[0] == '-');
        assert(text.skip(1) =~= digits);
    } else {
        lemma_decimal_digits(i as nat);
        let text = signed_decimal(i);
        assert(is_digit(text[0]));
    }
}

} // verus!
