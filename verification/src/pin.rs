//! PINs: how they are drawn for a new account and how a supplied one is
//! checked.

use vstd::prelude::*;
use vstd::string::StringExecFns;

use crate::account::Account;
use crate::amount::is_digit;

verus! {

/// The number of digits in a PIN.
pub const PIN_LENGTH: usize = 6;

/// `pin` is made of exactly six ASCII digits.
pub open spec fn is_pin(pin: Seq<char>) -> bool {
    pin.len() == PIN_LENGTH && forall|i: int| 0 <= i < pin.len() ==> is_digit(#[trigger] pin[i])
}

/// The ASCII digit that stands for `value`.
pub open spec fn digit_char(value: u8) -> char
    recommends
        value <= 9,
{
    (value + '0' as u8) as char
}

/// Every value of `digits` is a digit value: at most nine.
pub open spec fn all_below_ten(digits: Seq<u8>) -> bool {
    forall|i: int| 0 <= i < digits.len() ==> (#[trigger] digits[i]) <= 9
}

/// The text that a sequence of digit values spells.
pub open spec fn digits_text(digits: Seq<u8>) -> Seq<char> {
    digits.map_values(|value: u8| digit_char(value))
}

/// `rand::rngs::ThreadRng`, the handle to a thread's random number
/// generator. It is carried from where it is made to where it is drawn from;
/// nothing is known of what it holds.
#[verifier::external_type_specification]
#[verifier::external_body]
pub struct ExThreadRng(rand::rngs::ThreadRng);

/// `rand::thread_rng`: a handle to the calling thread's generator, which is
/// seeded from the operating system on first use. Nothing is claimed of the
/// handle. Where the operating system can give no seed the call panics; no
/// argument decides that.
pub assume_specification[ rand::thread_rng ]() -> (rng: rand::rngs::ThreadRng);

/// `rand::Rng::gen_range` on an inclusive range of `u8`. Which value comes
/// back is left open; the contract claims only that it lies within the
/// range, bounds included. The call panics on an empty range, which
/// `low <= high` rules out.
#[verifier::external_body]
fn sample_inclusive(rng: &mut rand::rngs::ThreadRng, low: u8, high: u8) -> (value: u8)
    requires
        low <= high,
    ensures
        low <= value <= high,
{
    rand::Rng::gen_range(rng, low..=high)
}

/// The one-character text of a digit value.
fn digit_text(value: u8) -> (text: &'static str)
    requires
        value <= 9,
    ensures
        text@ == seq![digit_char(value)],
{
    proof {
        reveal_strlit("0");
        reveal_strlit("1");
        reveal_strlit("2");
        reveal_strlit("3");
        reveal_strlit("4");
        reveal_strlit("5");
        reveal_strlit("6");
        reveal_strlit("7");
        reveal_strlit("8");
        reveal_strlit("9");
    }
    let text = match value {
        0 => "0",
        1 => "1",
        2 => "2",
        3 => "3",
        4 => "4",
        5 => "5",
        6 => "6",
        7 => "7",
        8 => "8",
        _ => "9",
    };
    text
}

/// Spells digit values as text, one ASCII digit for each value.
fn spell(digits: &Vec<u8>) -> (text: String)
    requires
        all_below_ten(digits@),
    ensures
        text@ == digits_text(digits@),
{
    let mut text = String::new();
    let mut i: usize = 0;
    while i < digits.len()
        invariant
            i <= digits@.len(),
            all_below_ten(digits@),
            text@ == digits_text(digits@.subrange(0, i as int)),
        decreases digits@.len() - i,
    {
        let digit = digit_text(digits[i]);
        text.append(digit);
        i = i + 1;
    }
    text
}

/// Six digit values spell a PIN.
pub proof fn lemma_six_digits_spell_a_pin(digits: Seq<u8>)
    requires
        digits.len() == PIN_LENGTH,
        all_below_ten(digits),
    ensures
        is_pin(digits_text(digits)),
{
    let text = digits_text(digits);
    assert forall|k: int| 0 <= k < text.len() implies is_digit(#[trigger] text[k]) by {
        assert(text[k] == digit_char(digits[k]));
    }
}

/// Makes the PIN that six digit values spell, in their order.
///
/// Returns the PIN exactly when there are six values and each is at most
/// nine; `None` otherwise.
pub fn pin_from_digits(digits: &Vec<u8>) -> (pin: Option<String>)
    ensures
        pin is Some <==> digits@.len() == PIN_LENGTH && all_below_ten(digits@),
        pin matches Some(text) ==> text@ == digits_text(digits@) && is_pin(text@),
{
    if digits.len() != PIN_LENGTH {
        return None;
    }
    let mut i: usize = 0;
    while i < digits.len()
        invariant
            i <= digits@.len(),
            forall|k: int| 0 <= k < i ==> (#[trigger] digits@[k]) <= 9,
        decreases digits@.len() - i,
    {
        if digits[i] > 9 {
            return None;
        }
        i = i + 1;
    }
    proof {
        lemma_six_digits_spell_a_pin(digits@);
    }
    Some(spell(digits))
}

/// Draws a fresh PIN: six digits, each drawn from the thread's generator.
pub fn generate_pin() -> (pin: String)
    ensures
        is_pin(pin@),
{
    let mut rng = rand::thread_rng();
    let mut digits: Vec<u8> = Vec::new();
    while digits.len() < PIN_LENGTH
        invariant
            digits@.len() <= PIN_LENGTH,
            all_below_ten(digits@),
        decreases PIN_LENGTH - digits@.len(),
    {
        let digit = sample_inclusive(&mut rng, 0, 9);
        digits.push(digit);
    }
    proof {
        lemma_six_digits_spell_a_pin(digits@);
    }
    spell(&digits)
}

/// Checks a supplied PIN against an account's PIN: true exactly when the two
/// are the same text.
pub fn verify(account: &Account, supplied_pin: &str) -> (accepted: bool)
    ensures
        accepted == (account@.pin == supplied_pin@),
{
    let supplied: String = supplied_pin.to_owned();
    account.pin == supplied
}

} // verus!
