//! Natural numbers of any size as runs of decimal digits, the lowest digit
//! first.

use crate::text::{decimal, digit_char, digit_str};
use vstd::prelude::*;

verus! {

/// Ten to the power `exponent`.
pub open spec fn pow10(exponent: nat) -> nat
    decreases exponent,
{
    if exponent == 0 {
        1
    } else {
        10 * pow10((exponent - 1) as nat)
    }
}

/// The number that a run of digits stands for, the lowest digit first.
pub open spec fn digits_number(digits: Seq<u8>) -> nat
    decreases digits.len(),
{
    if digits.len() == 0 {
        0
    } else {
        digits.first() as nat + 10 * digits_number(digits.drop_first())
    }
}

/// Every digit is below ten, there is at least one, and the highest is not
/// zero unless it is the only one.
pub open spec fn digits_wf(digits: Seq<u8>) -> bool {
    &&& digits.len() >= 1
    &&& forall|i: int| 0 <= i < digits.len() ==> digits[i] < 10
    &&& digits.len() > 1 ==> digits.last() != 0
}

/// The digits as text, the highest digit first.
pub open spec fn digits_text(digits: Seq<u8>) -> Seq<char> {
    Seq::new(digits.len(), |i: int| digit_char(digits[digits.len() - 1 - i] as nat))
}

/// A digit added at the high end counts ten to the power of its place.
pub proof fn lemma_digits_number_push(digits: Seq<u8>, digit: u8)
    ensures
        digits_number(digits.push(digit)) == digits_number(digits) + digit * pow10(digits.len()),
    decreases digits.len(),
{
    let longer = digits.push(digit);
    if digits.len() == 0 {
        assert(longer.drop_first() =~= Seq::<u8>::empty());
        assert(digits_number(longer.drop_first()) == 0);
        assert(longer.first() == digit);
        assert(digits_number(longer) == digit);
        assert(pow10(0) == 1);
        assert(digit * pow10(0) == digit);
    } else {
        let rest = digits.drop_first();
        lemma_digits_number_push(rest, digit);
        assert(longer.drop_first() =~= rest.push(digit));
        assert(longer.first() == digits.first());
        assert(rest.len() == digits.len() - 1);
        let low = pow10(rest.len());
        assert(pow10(digits.len()) == 10 * low);
        assert(10 * (digit * low) == digit * (10 * low)) by (nonlinear_arith);
        assert(digits_number(longer) == digits.first() + 10 * (digits_number(rest) + digit * low));
        assert(digits_number(digits) == digits.first() + 10 * digits_number(rest));
    }
}

/// A run of digits whose highest digit is not zero stands for a number that
/// is not zero.
pub proof fn lemma_digits_number_positive(digits: Seq<u8>)
    requires
        digits.len() >= 1,
        digits.last() != 0,
    ensures
        digits_number(digits) > 0,
    decreases digits.len(),
{
    if digits.len() > 1 {
        let rest = digits.drop_first();
        assert(rest.last() == digits.last());
        lemma_digits_number_positive(rest);
    } else {
        assert(digits.first() == digits.last());
    }
}

/// Well-formed digits read from the high end are the decimal text of their
/// number.
pub proof fn lemma_digits_text(digits: Seq<u8>)
    requires
        digits_wf(digits),
    ensures
        decimal(digits_number(digits)) == digits_text(digits),
    decreases digits.len(),
{
    let n = digits_number(digits);
    let rest = digits.drop_first();
    if digits.len() == 1 {
        assert(rest.len() == 0);
        assert(digits_number(rest) == 0);
        assert(n == digits[0]);
        assert(decimal(n) =~= digits_text(digits));
    } else {
        assert(rest.last() == digits.last());
        assert(digits_wf(rest));
        lemma_digits_number_positive(rest);
        lemma_digits_text(rest);
        assert(n / 10 == digits_number(rest));
        assert(n % 10 == digits.first() as nat);
        assert(digits_text(rest).push(digit_char(digits.first() as nat)) =~= digits_text(digits));
    }
}

/// The digits of a number that is not zero.
pub fn digits_of(n: u64) -> (digits: Vec<u8>)
    requires
        n > 0,
    ensures
        digits_wf(digits@),
        digits_number(digits@) == n,
        digits@.last() != 0,
{
    let mut digits: Vec<u8> = Vec::new();
    let mut rest: u64 = n;
    proof {
        assert(pow10(0) == 1);
        assert(rest * pow10(0) == rest);
    }
    while rest > 0
        invariant
            n > 0,
            forall|i: int| 0 <= i < digits@.len() ==> digits@[i] < 10,
            digits_number(digits@) + rest * pow10(digits@.len()) == n,
            rest == 0 ==> digits@.len() >= 1 && digits@.last() != 0,
        decreases rest,
    {
        let digit: u8 = (rest % 10) as u8;
        proof {
            lemma_digits_number_push(digits@, digit);
            let place = pow10(digits@.len());
            assert(digit * place + (rest / 10) * (10 * place) == rest * place) by (nonlinear_arith)
                requires
                    rest == 10 * (rest / 10) + digit,
            ;
        }
        digits.push(digit);
        rest = rest / 10;
    }
    digits
}

/// Twice the number, as digits.
pub fn doubled(digits: &Vec<u8>) -> (twice: Vec<u8>)
    requires
        digits_wf(digits@),
        digits@.last() != 0,
    ensures
        digits_wf(twice@),
        twice@.last() != 0,
        digits_number(twice@) == 2 * digits_number(digits@),
{
    let mut twice: Vec<u8> = Vec::new();
    let mut carry: u8 = 0;
    let mut i: usize = 0;
    while i < digits.len()
        invariant
            digits_wf(digits@),
            digits@.last() != 0,
            i <= digits.len(),
            twice@.len() == i,
            carry <= 1,
            forall|j: int| 0 <= j < twice@.len() ==> twice@[j] < 10,
            digits_number(twice@) + carry * pow10(i as nat) == 2 * digits_number(
                digits@.take(i as int),
            ),
            i == digits.len() && carry == 0 ==> twice@.last() != 0,
        decreases digits.len() - i,
    {
        let sum: u8 = 2 * digits[i] + carry;
        let digit: u8 = sum % 10;
        let next_carry: u8 = sum / 10;
        proof {
            lemma_digits_number_push(twice@, digit);
            lemma_digits_number_push(digits@.take(i as int), digits@[i as int]);
            assert(digits@.take(i as int).push(digits@[i as int]) =~= digits@.take(i + 1));
            let place = pow10(i as nat);
            assert(digit * place + next_carry * (10 * place) == (2 * digits@[i as int] + carry)
                * place) by (nonlinear_arith)
                requires
                    2 * digits@[i as int] + carry == 10 * next_carry + digit,
            ;
            assert((2 * digits@[i as int] + carry) * place == 2 * (digits@[i as int] * place) + carry
                * place) by (nonlinear_arith);
        }
        twice.push(digit);
        carry = next_carry;
        i += 1;
    }
    assert(digits@.take(i as int) =~= digits@);
    if carry > 0 {
        proof {
            lemma_digits_number_push(twice@, carry);
        }
        twice.push(carry);
    }
    twice
}

/// Appends the digits to `out`, the highest first.
pub fn push_digits(out: &mut String, digits: &Vec<u8>)
    requires
        forall|i: int| 0 <= i < digits@.len() ==> digits@[i] < 10,
    ensures
        final(out)@ == old(out)@ + digits_text(digits@),
{
    let mut left: usize = digits.len();
    while left > 0
        invariant
            left <= digits.len(),
            forall|i: int| 0 <= i < digits@.len() ==> digits@[i] < 10,
            out@ == old(out)@ + digits_text(digits@).take(digits@.len() - left),
        decreases left,
    {
        left -= 1;
        out.append(digit_str(digits[left]));
        assert(out@ =~= old(out)@ + digits_text(digits@).take(digits@.len() - left));
    }
    assert(digits_text(digits@).take(digits@.len() as int) =~= digits_text(digits@));
}

} // verus!
