//! Decimal numbers on the wire: one or more digits and nothing else. They are
//! read with `atoi`, once the text is known to be digits, and written here.
use vstd::prelude::*;

verus! {

/// The ASCII code of the digit zero.
pub const ZERO: u8 = 48;

/// The ASCII code of the digit nine.
pub const NINE: u8 = 57;

/// The ASCII code of the plus sign.
pub const PLUS: u8 = 43;

/// The ASCII code of the minus sign.
pub const MINUS: u8 = 45;

/// Whether `byte` is an ASCII digit.
pub open spec fn is_digit(byte: u8) -> bool {
    48 <= byte <= 57
}

/// The number of ASCII digits that `text` starts with.
pub open spec fn digit_run(text: Seq<u8>) -> nat
    decreases text.len(),
{
    if text.len() > 0 && is_digit(text[0]) {
        1 + digit_run(text.drop_first())
    } else {
        0
    }
}

/// The number that the digits of `digits` spell in base ten; 0 for no digit.
pub open spec fn digits_value(digits: Seq<u8>) -> nat
    decreases digits.len(),
{
    if digits.len() == 0 {
        0
    } else {
        10 * digits_value(digits.drop_last()) + (digits.last() - 48) as nat
    }
}

/// The number spelled by the digits that `text` starts with.
pub open spec fn leading_number(text: Seq<u8>) -> nat {
    digits_value(text.take(digit_run(text) as int))
}

/// What `atoi` makes of `text` as a `u64`.
///
/// An optional sign comes first, then the longest run of digits; what follows
/// the digits is ignored. Without a sign at least one digit is needed. After
/// `+` the digits may be missing, and the result is then 0. After `-` only
/// zero can be represented. A number above `u64::MAX` gives `None`.
pub open spec fn spec_atoi(text: Seq<u8>) -> Option<u64> {
    if text.len() > 0 && text[0] == PLUS {
        let number = leading_number(text.drop_first());
        if number <= u64::MAX {
            Some(number as u64)
        } else {
            None
        }
    } else if text.len() > 0 && text[0] == MINUS {
        if leading_number(text.drop_first()) == 0 {
            Some(0)
        } else {
            None
        }
    } else if digit_run(text) > 0 && leading_number(text) <= u64::MAX {
        Some(leading_number(text) as u64)
    } else {
        None
    }
}

/// `atoi::atoi::<u64>`: parses a number at the start of `text`. It takes
/// more than the wire allows, so `parse_number` calls it on digits only.
///
/// The contract follows `FromRadix10SignedChecked` for an unsigned type: a
/// sign is accepted, digits are read while there are any, an overflow gives
/// `None`, and so does an input from which nothing at all was read. A minus
/// sign subtracts each digit from zero, so any digit but `0` underflows.
#[verifier::external_body]
pub(crate) fn atoi_u64(text: &[u8]) -> (number: Option<u64>)
    ensures
        number == spec_atoi(text@),
{
    atoi::atoi::<u64>(text)
}

/// Whether `text` is a number as the wire spells it: at least one byte, and
/// digits only.
pub open spec fn is_number(text: Seq<u8>) -> bool {
    text.len() > 0 && forall|i: int| 0 <= i < text.len() ==> is_digit(#[trigger] text[i])
}

/// The number that `text` spells on the wire: its digits read in base ten.
/// There is none where `text` is empty, holds a byte that is no digit, a
/// sign too, or spells more than a `u64` holds.
pub open spec fn spec_number(text: Seq<u8>) -> Option<u64> {
    if is_number(text) && digits_value(text) <= u64::MAX {
        Some(digits_value(text) as u64)
    } else {
        None
    }
}

/// On digits and nothing else, `atoi` reads the number that they spell.
pub proof fn lemma_atoi_number(text: Seq<u8>)
    requires
        is_number(text),
    ensures
        spec_atoi(text) == spec_number(text),
{
    lemma_digit_run_all(text);
    assert(is_digit(text[0]));
    assert(text.take(text.len() as int) =~= text);
}

/// Tells whether `text` is a number as the wire spells it.
pub fn is_number_text(text: &[u8]) -> (number: bool)
    ensures
        number == is_number(text@),
{
    if text.len() == 0 {
        return false;
    }
    let mut i: usize = 0;
    while i < text.len()
        invariant
            i <= text.len(),
            forall|k: int| 0 <= k < i ==> is_digit(#[trigger] text@[k]),
        decreases text.len() - i,
    {
        if text[i] < ZERO || text[i] > NINE {
            return false;
        }
        i += 1;
    }
    true
}

/// Reads the number that `text` spells on the wire, if it spells one. The
/// text is tested first, so that `atoi` sees digits only: no sign, and
/// nothing behind the digits that it would pass over.
pub fn parse_number(text: &[u8]) -> (number: Option<u64>)
    ensures
        number == spec_number(text@),
{
    if !is_number_text(text) {
        return None;
    }
    proof {
        lemma_atoi_number(text@);
    }
    atoi_u64(text)
}

/// The digits of `number` in base ten, without leading zeros.
pub open spec fn decimal(number: nat) -> Seq<u8>
    decreases number,
{
    if number < 10 {
        seq![(48 + number) as u8]
    } else {
        decimal(number / 10).push((48 + number % 10) as u8)
    }
}

/// `decimal` writes digits only, at least one, and they spell the number.
pub proof fn lemma_decimal_digits(number: nat)
    ensures
        decimal(number).len() >= 1,
        forall|i: int| 0 <= i < decimal(number).len() ==> is_digit(#[trigger] decimal(number)[i]),
        digits_value(decimal(number)) == number,
    decreases number,
{
    if number < 10 {
        let digits = decimal(number);
        assert(digits.drop_last() =~= Seq::<u8>::empty());
        assert(digits_value(digits.drop_last()) == 0);
    } else {
        lemma_decimal_digits(number / 10);
        let digits = decimal(number);
        assert(digits.drop_last() =~= decimal(number / 10));
    }
}

/// A text of digits only is one run of digits.
pub proof fn lemma_digit_run_all(digits: Seq<u8>)
    requires
        forall|i: int| 0 <= i < digits.len() ==> is_digit(#[trigger] digits[i]),
    ensures
        digit_run(digits) == digits.len(),
    decreases digits.len(),
{
    if digits.len() > 0 {
        lemma_digit_run_all(digits.drop_first());
    }
}

/// Reading back what `decimal` wrote gives the number.
pub proof fn lemma_number_decimal(number: u64)
    ensures
        spec_number(decimal(number as nat)) == Some(number),
{
    lemma_decimal_digits(number as nat);
}

/// Appends the decimal digits of `number` to `out`.
pub fn push_decimal(out: &mut Vec<u8>, number: u64)
    ensures
        final(out)@ == old(out)@ + decimal(number as nat),
    decreases number,
{
    if number >= 10 {
        push_decimal(out, number / 10);
    }
    let digit: u8 = (number % 10) as u8;
    out.push(ZERO + digit);
    assert(final(out)@ =~= old(out)@ + decimal(number as nat));
}

} // verus!
