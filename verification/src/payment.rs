//! Fee budgeting: how much of the balance comes back as change, and how
//! a typed amount is read.

use crate::error::Error;
use vstd::prelude::*;

verus! {

/// The safety margin, in the smallest unit, that is added to the
/// size-based fee. A tunable heuristic.
pub const FEE_MARGIN: u64 = 5;

/// What a payment needs: the amount sent, one unit of fee per estimated
/// byte, and the margin.
pub open spec fn required_funds(send_amount: u64, estimated_size: u64, margin: u64) -> int {
    send_amount + estimated_size + margin
}

/// Whether an output of `value` is too small to be worth spending.
pub open spec fn is_dust(value: int, dust_threshold: u64) -> bool {
    value < dust_threshold
}

/// The change of a payment: `InsufficientFunds` when the balance does not
/// cover what the payment needs; no change output when what is left is
/// dust; else a change output of exactly what is left.
pub open spec fn change_plan(
    balance: u64,
    send_amount: u64,
    estimated_size: u64,
    margin: u64,
    dust_threshold: u64,
) -> Result<Option<u64>, Error> {
    let left = balance - required_funds(send_amount, estimated_size, margin);
    if left < 0 {
        Err(Error::InsufficientFunds)
    } else if is_dust(left, dust_threshold) {
        Ok(None)
    } else {
        Ok(Some(left as u64))
    }
}

/// Tests whether an output of `value` is dust.
pub fn output_is_dust(value: u64, dust_threshold: u64) -> (r: bool)
    ensures
        r == is_dust(value as int, dust_threshold),
{
    value < dust_threshold
}

/// Decides the change output of a payment.
pub fn plan_change(
    balance: u64,
    send_amount: u64,
    estimated_size: u64,
    margin: u64,
    dust_threshold: u64,
) -> (r: Result<Option<u64>, Error>)
    ensures
        r == change_plan(balance, send_amount, estimated_size, margin, dust_threshold),
{
    let needed: u128 = send_amount as u128 + estimated_size as u128 + margin as u128;
    if needed > balance as u128 {
        return Err(Error::InsufficientFunds);
    }
    let left: u64 = (balance as u128 - needed) as u64;
    if left < dust_threshold {
        Ok(None)
    } else {
        Ok(Some(left))
    }
}

/// Whether every byte is an ASCII decimal digit.
pub open spec fn all_digits(text: Seq<u8>) -> bool {
    forall|i: int| 0 <= i < text.len() ==> 0x30 <= #[trigger] text[i] <= 0x39
}

/// The number that a string of decimal digits writes.
pub open spec fn decimal_value(digits: Seq<u8>) -> nat
    decreases digits.len(),
{
    if digits.len() == 0 {
        0
    } else {
        decimal_value(digits.drop_last()) * 10 + (digits.last() - 0x30) as nat
    }
}

/// The digits of an amount: the text without one leading plus sign.
pub open spec fn amount_digits(text: Seq<u8>) -> Seq<u8> {
    if text.len() > 0 && text[0] == 0x2b {
        text.drop_first()
    } else {
        text
    }
}

/// The bytes of the word `all`.
pub open spec fn all_keyword() -> Seq<u8> {
    seq![0x61u8, 0x6cu8, 0x6cu8]
}

/// What a typed amount means: the word `all` is the whole balance; a
/// non-empty string of decimal digits, with or without a plus sign before
/// it, is its number if that fits 64 bits; anything else is nothing.
pub open spec fn send_amount_spec(text: Seq<u8>, balance: u64) -> Option<u64> {
    let digits = amount_digits(text);
    if text == all_keyword() {
        Some(balance)
    } else if digits.len() > 0 && all_digits(digits) && decimal_value(digits) <= u64::MAX {
        Some(decimal_value(digits) as u64)
    } else {
        None
    }
}

/// A longer string of digits writes a number at least as large as any
/// prefix of it does.
pub proof fn lemma_decimal_value_grows(digits: Seq<u8>, prefix_len: int)
    requires
        all_digits(digits),
        0 <= prefix_len <= digits.len(),
    ensures
        decimal_value(digits.take(prefix_len)) <= decimal_value(digits),
    decreases digits.len(),
{
    if prefix_len < digits.len() {
        let init = digits.drop_last();
        assert(init.take(prefix_len) =~= digits.take(prefix_len));
        lemma_decimal_value_grows(init, prefix_len);
    } else {
        assert(digits.take(prefix_len) =~= digits);
    }
}

/// Reads a typed amount.
pub fn parse_send_amount(text: &[u8], balance: u64) -> (r: Option<u64>)
    ensures
        r == send_amount_spec(text@, balance),
{
    if text.len() == 3 && text[0] == 0x61 && text[1] == 0x6c && text[2] == 0x6c {
        assert(text@ =~= all_keyword());
        return Some(balance);
    }
    assert(text@ != all_keyword()) by {
        if text@ == all_keyword() {
            assert(all_keyword().len() == 3);
            assert(all_keyword()[0] == 0x61 && all_keyword()[1] == 0x6c && all_keyword()[2]
                == 0x6c);
        }
    }
    let start: usize = if text.len() > 0 && text[0] == 0x2b {
        1
    } else {
        0
    };
    let ghost digits = amount_digits(text@);
    assert(digits =~= text@.skip(start as int));
    if text.len() == start {
        return None;
    }
    let mut value: u64 = 0;
    let mut i: usize = start;
    assert(digits.take(0) =~= Seq::<u8>::empty());
    while i < text.len()
        invariant
            start <= i <= text.len(),
            text@ != all_keyword(),
            digits == amount_digits(text@),
            digits == text@.skip(start as int),
            all_digits(digits.take(i - start)),
            value == decimal_value(digits.take(i - start)),
        decreases text.len() - i,
    {
        let c = text[i];
        let ghost next = digits.take(i - start + 1);
        proof {
            assert(next.drop_last() =~= digits.take(i - start));
            assert(next.last() == c);
        }
        if c < 0x30 || c > 0x39 {
            assert(!all_digits(digits)) by {
                assert(digits[i - start] == c);
            }
            return None;
        }
        let d = (c - 0x30) as u64;
        if value > (u64::MAX - d) / 10 {
            proof {
                assert(decimal_value(next) > u64::MAX);
                if all_digits(digits) {
                    lemma_decimal_value_grows(digits, i - start + 1);
                }
            }
            return None;
        }
        value = value * 10 + d;
        i += 1;
    }
    assert(digits.take(text.len() - start) =~= digits);
    Some(value)
}

} // verus!
