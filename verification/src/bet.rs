//! Reading and checking a bet.

use vstd::prelude::*;
use vstd::string::StrSliceExecFns;
use crate::hand::Player;
use crate::text::{trim, trimmed};

verus! {

/// What became of a proposed bet.
#[derive(Clone, Copy, Debug, PartialEq, Eq, Structural)]
pub enum BetCheck {
    /// The bet stands, for this amount.
    Accepted(i32),
    /// The input is not a whole number that fits in 32 bits.
    NotANumber,
    /// The amount is more than the player has.
    ExceedsBalance,
    /// The amount is zero or negative.
    NonPositive,
}

/// Whether `c` is one of the ten decimal digits.
pub open spec fn is_digit(c: char) -> bool {
    '0' <= c <= '9'
}

/// Whether `text` consists of decimal digits only.
pub open spec fn all_digits(text: Seq<char>) -> bool {
    forall|i: int| 0 <= i < text.len() ==> is_digit(#[trigger] text[i])
}

/// The number that a run of decimal digits denotes.
pub open spec fn decimal_value(digits: Seq<char>) -> int
    decreases digits.len(),
{
    if digits.len() == 0 {
        0
    } else {
        10 * decimal_value(digits.drop_last()) + (digits.last() as int - '0' as int)
    }
}

/// Whether `text` starts with a sign.
pub open spec fn has_sign(text: Seq<char>) -> bool {
    text.len() > 0 && (text[0] == '-' || text[0] == '+')
}

/// The digits of `text`: what follows the sign, if there is one.
pub open spec fn unsigned_part(text: Seq<char>) -> Seq<char> {
    if has_sign(text) {
        text.skip(1)
    } else {
        text
    }
}

/// The integer that `text` denotes, if it is one: an optional `+` or `-`
/// followed by at least one decimal digit and nothing else.
pub open spec fn signed_decimal(text: Seq<char>) -> Option<int> {
    let digits = unsigned_part(text);
    if digits.len() > 0 && all_digits(digits) {
        if text[0] == '-' {
            Some(-decimal_value(digits))
        } else {
            Some(decimal_value(digits))
        }
    } else {
        None
    }
}

/// The amount that `text` denotes, if it denotes an integer that fits in 32
/// bits.
pub open spec fn parsed_amount(text: Seq<char>) -> Option<i32> {
    match signed_decimal(text) {
        Some(n) => if i32::MIN <= n <= i32::MAX {
            Some(n as i32)
        } else {
            None
        },
        None => None,
    }
}

/// The verdict on a bet of `amount` by a player with `balance`: an amount
/// over the balance is refused first, then one that is not positive.
pub open spec fn bet_check(balance: int, amount: Option<i32>) -> BetCheck {
    match amount {
        None => BetCheck::NotANumber,
        Some(bet) => if bet > balance {
            BetCheck::ExceedsBalance
        } else if bet <= 0 {
            BetCheck::NonPositive
        } else {
            BetCheck::Accepted(bet)
        },
    }
}

/// A run of digits denotes at least as much as any of its prefixes, and no
/// negative number.
pub proof fn lemma_decimal_value_prefix(digits: Seq<char>, n: int)
    requires
        all_digits(digits),
        0 <= n <= digits.len(),
    ensures
        0 <= decimal_value(digits.take(n)) <= decimal_value(digits),
    decreases digits.len() - n,
{
    if n == digits.len() {
        assert(digits.take(n) =~= digits);
        lemma_decimal_value_nonnegative(digits);
    } else {
        lemma_decimal_value_prefix(digits, n + 1);
        assert(digits.take(n + 1).drop_last() =~= digits.take(n));
        assert(is_digit(digits[n]));
        assert(digits.take(n + 1).last() == digits[n]);
        lemma_decimal_value_nonnegative(digits.take(n));
    }
}

/// A run of digits denotes no negative number.
pub proof fn lemma_decimal_value_nonnegative(digits: Seq<char>)
    requires
        all_digits(digits),
    ensures
        0 <= decimal_value(digits),
    decreases digits.len(),
{
    if digits.len() > 0 {
        assert(is_digit(digits.last()));
        lemma_decimal_value_nonnegative(digits.drop_last());
    }
}

/// Reads a whole number from `text`: an optional sign and decimal digits,
/// with nothing before, between or after them.
pub fn parse_amount(text: &str) -> (amount: Option<i32>)
    ensures
        amount == parsed_amount(text@),
{
    if !text.is_ascii() {
        proof {
            let digits = unsigned_part(text@);
            if digits.len() > 0 && all_digits(digits) {
                assert forall|i: int| 0 <= i < text@.len() implies '\0' <= #[trigger] text@[i]
                    <= '\u{7f}' by {
                    if has_sign(text@) && i > 0 {
                        assert(is_digit(digits[i - 1]));
                    } else if !has_sign(text@) {
                        assert(is_digit(digits[i]));
                    }
                }
            }
        }
        return None;
    }
    let n = text.unicode_len();
    if n == 0 {
        return None;
    }
    let first = text.get_ascii(0);
    let negative = first == 45;
    let start: usize = if first == 45 || first == 43 {
        1
    } else {
        0
    };
    if start == n {
        return None;
    }
    let ghost digits = unsigned_part(text@);
    assert(digits =~= text@.subrange(start as int, n as int));
    let mut magnitude: i64 = 0;
    let mut i: usize = start;
    while i < n
        invariant
            start <= i <= n,
            start < n,
            n == text@.len(),
            text.is_ascii(),
            digits == unsigned_part(text@),
            digits == text@.subrange(start as int, n as int),
            all_digits(digits.take(i - start)),
            magnitude == decimal_value(digits.take(i - start)),
            0 <= magnitude <= 2147483648,
        decreases n - i,
    {
        let b = text.get_ascii(i);
        assert(digits[i - start] == text@[i as int]);
        if b < 48 || b > 57 {
            assert(!is_digit(digits[i - start]));
            return None;
        }
        proof {
            let longer = digits.take(i - start + 1);
            assert(longer.drop_last() =~= digits.take(i - start));
            assert(longer.last() == digits[i - start]);
            assert(is_digit(longer.last()));
            assert forall|k: int| 0 <= k < longer.len() implies is_digit(#[trigger] longer[k]) by {
                if k < i - start {
                    assert(is_digit(digits.take(i - start)[k]));
                }
            }
        }
        magnitude = magnitude * 10 + (b - 48) as i64;
        if magnitude > 2147483648 {
            proof {
                if all_digits(digits) {
                    lemma_decimal_value_prefix(digits, i - start + 1);
                }
            }
            return None;
        }
        i += 1;
    }
    assert(digits.take(n - start) =~= digits);
    let value = if negative {
        -magnitude
    } else {
        magnitude
    };
    if value > 2147483647 {
        None
    } else {
        Some(value as i32)
    }
}

/// Checks a bet of `amount`, or the lack of one, against `balance`.
pub fn check_bet(balance: i32, amount: Option<i32>) -> (verdict: BetCheck)
    ensures
        verdict == bet_check(balance as int, amount),
{
    match amount {
        Some(bet) => {
            if bet > balance {
                BetCheck::ExceedsBalance
            } else if bet <= 0 {
                BetCheck::NonPositive
            } else {
                BetCheck::Accepted(bet)
            }
        },
        None => BetCheck::NotANumber,
    }
}

/// Reads one line of input as the player's bet and checks it against the
/// player's balance. Whitespace around the number is ignored.
pub fn place_bet(player: &Player, input: &str) -> (verdict: BetCheck)
    ensures
        verdict == bet_check(player@.balance, parsed_amount(trimmed(input@))),
{
    check_bet(player.balance, parse_amount(trim(input)))
}

} // verus!
