//! Text of IEEE-754 binary floats with eight decimals, worked out from the
//! bit pattern in whole numbers.

use crate::digits::{
    digits_number, digits_of, digits_wf, doubled, lemma_digits_text, push_digits,
};
use crate::text::{
    decimal, lemma_decimal_digits, lemma_padded_decimal_digits, padded_decimal, push_decimal,
    push_padded_decimal,
};
use vstd::arithmetic::power2::{
    lemma2_to64, lemma2_to64_rest, lemma_pow2_adds, lemma_pow2_pos, lemma_pow2_strictly_increases,
    lemma_pow2_unfold, pow2,
};
use vstd::prelude::*;

verus! {

/// How many times the smallest step of the text goes into one: ten to the
/// power of the number of decimals.
pub const UNITS: u64 = 100_000_000;

/// The layout of a binary float: the width of its fraction and of its
/// exponent. A sign bit stands above the two.
pub struct FloatFormat {
    pub fraction_bits: nat,
    pub exponent_bits: nat,
}

/// The layout of a float of 32 bits.
pub open spec fn binary32() -> FloatFormat {
    FloatFormat { fraction_bits: 23, exponent_bits: 8 }
}

/// The layout of a float of 64 bits.
pub open spec fn binary64() -> FloatFormat {
    FloatFormat { fraction_bits: 52, exponent_bits: 11 }
}

impl FloatFormat {
    /// The fraction field of a bit pattern.
    pub open spec fn fraction(self, bits: nat) -> nat {
        bits % pow2(self.fraction_bits)
    }

    /// The exponent field of a bit pattern.
    pub open spec fn exponent(self, bits: nat) -> nat {
        (bits / pow2(self.fraction_bits)) % pow2(self.exponent_bits)
    }

    /// Whether the sign bit of a bit pattern is set.
    pub open spec fn negative(self, bits: nat) -> bool {
        (bits / pow2(self.fraction_bits + self.exponent_bits)) % 2 == 1
    }

    /// The bit pattern without its sign bit.
    pub open spec fn magnitude(self, bits: nat) -> nat {
        bits % pow2(self.fraction_bits + self.exponent_bits)
    }

    /// Whether the bit pattern stands for a number, and not for an infinity
    /// or a NaN.
    pub open spec fn finite(self, bits: nat) -> bool {
        self.exponent(bits) != pow2(self.exponent_bits) - 1
    }

    /// The whole number `m` of a finite float `m * 2^e`.
    pub open spec fn mantissa(self, bits: nat) -> nat {
        if self.exponent(bits) == 0 {
            self.fraction(bits)
        } else {
            self.fraction(bits) + pow2(self.fraction_bits)
        }
    }

    /// The power `e` of a finite float `m * 2^e`.
    pub open spec fn scale(self, bits: nat) -> int {
        let biased = if self.exponent(bits) == 0 {
            1
        } else {
            self.exponent(bits) as int
        };
        biased - (pow2((self.exponent_bits - 1) as nat) - 1) - self.fraction_bits
    }

    /// The text of the float with the given bit pattern: `NaN`, `inf` or
    /// `-inf`, or the number rounded to eight decimals.
    pub open spec fn text(self, bits: nat) -> Seq<char> {
        if self.finite(bits) {
            fixed_text(self.negative(bits), scaled(self.mantissa(bits), self.scale(bits)))
        } else if self.fraction(bits) != 0 {
            "NaN"@
        } else if self.negative(bits) {
            "-inf"@
        } else {
            "inf"@
        }
    }

    /// The place of the float in the total order of IEEE-754: negative
    /// floats below positive ones, `-0` below `+0`, and each NaN beyond the
    /// infinity of its sign.
    pub open spec fn order_key(self, bits: nat) -> int {
        if self.negative(bits) {
            -(self.magnitude(bits) as int) - 1
        } else {
            self.magnitude(bits) as int
        }
    }
}

/// `n / d` rounded to the nearest whole number, a tie to the even one.
pub open spec fn rounded_quotient(n: nat, d: nat) -> nat {
    let q = n / d;
    let r = n % d;
    if 2 * r > d || (2 * r == d && q % 2 == 1) {
        q + 1
    } else {
        q
    }
}

/// `mantissa * 2^scale` in units of the last decimal, rounded to the nearest
/// unit, a tie to the even one.
pub open spec fn scaled(mantissa: nat, scale: int) -> nat {
    if scale >= 0 {
        mantissa * pow2(scale as nat) * UNITS as nat
    } else {
        rounded_quotient(mantissa * UNITS as nat, pow2((-scale) as nat))
    }
}

/// The text of a number given in units of the last decimal: the sign, the
/// whole part, a point and eight decimals.
pub open spec fn fixed_text(negative: bool, units: nat) -> Seq<char> {
    let sign = if negative {
        seq!['-']
    } else {
        Seq::<char>::empty()
    };
    sign + decimal(units / UNITS as nat) + seq!['.'] + padded_decimal(units % UNITS as nat, 8)
}

/// The text of the float of 32 bits with the given bit pattern.
pub open spec fn float32_text(bits: u32) -> Seq<char> {
    binary32().text(bits as nat)
}

/// The text of the float of 64 bits with the given bit pattern.
pub open spec fn float64_text(bits: u64) -> Seq<char> {
    binary64().text(bits as nat)
}

/// The text of a float holds no comma.
pub proof fn lemma_float_text_has_no_comma(format: FloatFormat, bits: nat)
    ensures
        forall|i: int| 0 <= i < format.text(bits).len() ==> format.text(bits)[i] != ',',
{
    reveal_strlit("NaN");
    reveal_strlit("inf");
    reveal_strlit("-inf");
    if format.finite(bits) {
        let units = scaled(format.mantissa(bits), format.scale(bits));
        lemma_decimal_digits(units / UNITS as nat);
        lemma_padded_decimal_digits(units % UNITS as nat, 8);
    }
}

/// Some powers of two beyond 64 bits.
pub proof fn lemma_pow2_large()
    ensures
        pow2(80) == 0x1_0000_0000_0000_0000_0000,
        pow2(89) == 0x200_0000_0000_0000_0000_0000,
        pow2(90) == 0x400_0000_0000_0000_0000_0000,
{
    lemma2_to64();
    lemma_pow2_adds(64, 16);
    lemma_pow2_adds(64, 25);
    lemma_pow2_adds(64, 26);
}

/// Two to the power `exponent`, as far as it fits.
fn power_of_two(exponent: u32) -> (power: u128)
    requires
        exponent <= 89,
    ensures
        power == pow2(exponent as nat),
{
    let mut power: u128 = 1;
    let mut i: u32 = 0;
    proof {
        lemma2_to64();
    }
    while i < exponent
        invariant
            i <= exponent <= 89,
            power == pow2(i as nat),
        decreases exponent - i,
    {
        proof {
            lemma_pow2_large();
            lemma_pow2_unfold((i + 1) as nat);
            if i + 1 < 89 {
                lemma_pow2_strictly_increases((i + 1) as nat, 89);
            }
        }
        power = power * 2;
        i += 1;
    }
    power
}

/// `mantissa * 2^-shift` in units of the last decimal, rounded.
fn rounded_units(mantissa: u64, shift: u32) -> (units: u128)
    requires
        mantissa < pow2(53),
        shift >= 1,
    ensures
        units == scaled(mantissa as nat, -(shift as int)),
{
    proof {
        lemma2_to64();
        lemma2_to64_rest();
        lemma_pow2_large();
    }
    assert(mantissa * UNITS < 0x1_0000_0000_0000_0000_0000) by (nonlinear_arith)
        requires
            mantissa < 0x20_0000_0000_0000,
            UNITS == 100_000_000,
    ;
    let n: u128 = mantissa as u128 * UNITS as u128;
    if shift >= 90 {
        proof {
            if shift > 90 {
                lemma_pow2_strictly_increases(90, shift as nat);
            }
            let d = pow2(shift as nat);
            vstd::arithmetic::div_mod::lemma_small_mod(n as nat, d);
            vstd::arithmetic::div_mod::lemma_basic_div(n as int, d as int);
        }
        return 0;
    }
    let d: u128 = power_of_two(shift);
    proof {
        if shift < 89 {
            lemma_pow2_strictly_increases(shift as nat, 89);
        }
        lemma_pow2_pos(shift as nat);
        lemma_pow2_unfold(shift as nat);
    }
    let q: u128 = n / d;
    let r: u128 = n % d;
    proof {
        assert(d >= 2);
        assert(q <= n / 2) by (nonlinear_arith)
            requires
                q == n / d,
                d >= 2,
                n >= 0,
        ;
    }
    if 2 * r > d || (2 * r == d && q % 2 == 1) {
        q + 1
    } else {
        q
    }
}

/// Eight zeros are the decimals of a whole number.
proof fn lemma_zero_decimals()
    ensures
        padded_decimal(0, 8) == "00000000"@,
{
    reveal_strlit("00000000");
    reveal_with_fuel(padded_decimal, 9);
    assert(padded_decimal(0, 8) =~= "00000000"@);
}

/// Appends the text of `mantissa * 2^scale` to `out`.
fn push_finite(out: &mut String, negative: bool, mantissa: u64, scale: i32)
    requires
        mantissa < pow2(53),
        -1100 <= scale <= 1000,
        scale >= 0 ==> mantissa > 0,
    ensures
        final(out)@ == old(out)@ + fixed_text(negative, scaled(mantissa as nat, scale as int)),
{
    proof {
        reveal_strlit("-");
        reveal_strlit(".");
    }
    if negative {
        out.append("-");
    }
    let ghost signed = out@;
    if scale >= 0 {
        let mut digits: Vec<u8> = digits_of(mantissa);
        let mut i: i32 = 0;
        proof {
            lemma2_to64();
            assert(mantissa * pow2(0) == mantissa);
        }
        while i < scale
            invariant
                0 <= i <= scale,
                digits_wf(digits@),
                digits@.last() != 0,
                digits_number(digits@) == mantissa * pow2(i as nat),
            decreases scale - i,
        {
            proof {
                lemma_pow2_unfold((i + 1) as nat);
                assert(2 * (mantissa * pow2(i as nat)) == mantissa * (2 * pow2(i as nat)))
                    by (nonlinear_arith);
            }
            digits = doubled(&digits);
            i += 1;
        }
        push_digits(out, &digits);
        out.append(".");
        out.append("00000000");
        proof {
            let whole = mantissa * pow2(scale as nat);
            let units = scaled(mantissa as nat, scale as int);
            assert(units == whole * UNITS);
            vstd::arithmetic::div_mod::lemma_div_multiples_vanish(whole as int, UNITS as int);
            vstd::arithmetic::div_mod::lemma_mod_multiples_basic(whole as int, UNITS as int);
            assert(whole * UNITS == UNITS * whole) by (nonlinear_arith);
            assert(units / UNITS as nat == whole);
            assert(units % UNITS as nat == 0);
            lemma_digits_text(digits@);
            lemma_zero_decimals();
            assert(out@ =~= old(out)@ + fixed_text(negative, units));
        }
    } else {
        let shift: u32 = (-scale) as u32;
        let units: u128 = rounded_units(mantissa, shift);
        push_decimal(out, units / UNITS as u128);
        out.append(".");
        push_padded_decimal(out, units % UNITS as u128, 8);
        proof {
            assert(out@ =~= old(out)@ + fixed_text(negative, units as nat));
        }
    }
}

/// Whether the layout is that of a float of 64 bits; else it is that of a
/// float of 32 bits.
pub open spec fn format_of(wide: bool) -> FloatFormat {
    if wide {
        binary64()
    } else {
        binary32()
    }
}

/// The fields of a bit pattern: sign, exponent and fraction.
struct Fields {
    negative: bool,
    exponent: u64,
    fraction: u64,
}

/// Takes a bit pattern apart.
fn fields_of(bits: u64, wide: bool) -> (fields: Fields)
    requires
        !wide ==> bits < pow2(32),
    ensures
        fields.negative == format_of(wide).negative(bits as nat),
        fields.exponent == format_of(wide).exponent(bits as nat),
        fields.fraction == format_of(wide).fraction(bits as nat),
        fields.fraction < pow2(format_of(wide).fraction_bits),
        fields.exponent < pow2(format_of(wide).exponent_bits),
{
    proof {
        lemma2_to64();
        lemma2_to64_rest();
    }
    if wide {
        Fields {
            negative: (bits / 0x8000_0000_0000_0000) % 2 == 1,
            exponent: (bits / 0x10_0000_0000_0000) % 0x800,
            fraction: bits % 0x10_0000_0000_0000,
        }
    } else {
        Fields {
            negative: (bits / 0x8000_0000) % 2 == 1,
            exponent: (bits / 0x80_0000) % 0x100,
            fraction: bits % 0x80_0000,
        }
    }
}

/// The text of the float with the given bit pattern.
fn float_to_string(bits: u64, wide: bool) -> (text: String)
    requires
        !wide ==> bits < pow2(32),
    ensures
        text@ == format_of(wide).text(bits as nat),
{
    proof {
        lemma2_to64();
        lemma2_to64_rest();
    }
    let fields = fields_of(bits, wide);
    let top: u64 = if wide {
        0x7ff
    } else {
        0xff
    };
    if fields.exponent == top {
        return if fields.fraction != 0 {
            String::from_str("NaN")
        } else if fields.negative {
            String::from_str("-inf")
        } else {
            String::from_str("inf")
        };
    }
    let hidden: u64 = if wide {
        0x10_0000_0000_0000
    } else {
        0x80_0000
    };
    let offset: i32 = if wide {
        1075
    } else {
        150
    };
    let mantissa: u64 = if fields.exponent == 0 {
        fields.fraction
    } else {
        fields.fraction + hidden
    };
    let biased: i32 = if fields.exponent == 0 {
        1
    } else {
        fields.exponent as i32
    };
    let scale: i32 = biased - offset;
    let mut text = String::new();
    push_finite(&mut text, fields.negative, mantissa, scale);
    assert(text@ =~= format_of(wide).text(bits as nat));
    text
}

/// The text of the float of 32 bits with the given bit pattern: `NaN`, `inf`
/// or `-inf`, or the number rounded to eight decimals, a tie to the even
/// last digit.
pub fn float32_to_string(bits: u32) -> (text: String)
    ensures
        text@ == float32_text(bits),
{
    proof {
        lemma2_to64();
    }
    float_to_string(bits as u64, false)
}

/// The text of the float of 64 bits with the given bit pattern: `NaN`, `inf`
/// or `-inf`, or the number rounded to eight decimals, a tie to the even
/// last digit.
pub fn float64_to_string(bits: u64) -> (text: String)
    ensures
        text@ == float64_text(bits),
{
    float_to_string(bits, true)
}

} // verus!
