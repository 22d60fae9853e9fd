use flight_data_reader::float_text::{float32_to_string, float64_to_string};

fn same32(x: f32) {
    assert_eq!(float32_to_string(x.to_bits()), format!("{:.8}", x), "bits {:#x}", x.to_bits());
}

fn same64(x: f64) {
    assert_eq!(float64_to_string(x.to_bits()), format!("{:.8}", x), "bits {:#x}", x.to_bits());
}

#[test]
fn float32_exact_values() {
    assert_eq!(float32_to_string(1.0f32.to_bits()), "1.00000000");
    assert_eq!(float32_to_string(42.42f32.to_bits()), "42.41999817");
    assert_eq!(float32_to_string((-2.5f32).to_bits()), "-2.50000000");
    assert_eq!(float32_to_string(0x0000_0000), "0.00000000");
    assert_eq!(float32_to_string(0x8000_0000), "-0.00000000");
}

#[test]
fn float64_exact_values() {
    assert_eq!(float64_to_string(1.0f64.to_bits()), "1.00000000");
    assert_eq!(float64_to_string(0.1f64.to_bits()), "0.10000000");
    assert_eq!(float64_to_string((-1234.5678f64).to_bits()), "-1234.56780000");
    assert_eq!(float64_to_string(1e21f64.to_bits()), "1000000000000000000000.00000000");
}

#[test]
fn float_specials() {
    assert_eq!(float32_to_string(f32::INFINITY.to_bits()), "inf");
    assert_eq!(float32_to_string(f32::NEG_INFINITY.to_bits()), "-inf");
    assert_eq!(float32_to_string(f32::NAN.to_bits()), "NaN");
    assert_eq!(float32_to_string(0xffc0_0001), "NaN");
    assert_eq!(float64_to_string(f64::INFINITY.to_bits()), "inf");
    assert_eq!(float64_to_string(f64::NEG_INFINITY.to_bits()), "-inf");
    assert_eq!(float64_to_string(f64::NAN.to_bits()), "NaN");
    assert_eq!(float64_to_string(0xfff0_0000_0000_0001), "NaN");
    same32(f32::NAN);
    same32(-f32::NAN);
    same32(f32::INFINITY);
    same32(f32::NEG_INFINITY);
    same64(f64::NAN);
    same64(-f64::NAN);
    same64(f64::INFINITY);
    same64(f64::NEG_INFINITY);
}

#[test]
fn float_ties_go_to_the_even_digit() {
    // 2^-9 = 0.001953125 and 3 * 2^-9 = 0.005859375 end in a 5 at the ninth decimal.
    assert_eq!(float64_to_string(0.001953125f64.to_bits()), "0.00195312");
    assert_eq!(float64_to_string(0.005859375f64.to_bits()), "0.00585938");
    assert_eq!(float32_to_string(0.001953125f32.to_bits()), "0.00195312");
    assert_eq!(float32_to_string(0.005859375f32.to_bits()), "0.00585938");
    same64(0.001953125);
    same64(0.005859375);
    same64(-0.001953125);
    same64(-0.005859375);
    same32(0.001953125);
    same32(0.005859375);
    // Half of the last decimal: 5e-9 is not a tie in binary.
    same64(5e-9);
    same64(0.000000005);
    same64(0.999999995);
    same64(0.9999999949999999);
    same64(0.99999999999);
}

#[test]
fn float_extremes_agree_with_std() {
    same32(f32::MAX);
    same32(f32::MIN);
    same32(f32::MIN_POSITIVE);
    same32(f32::EPSILON);
    same32(f32::from_bits(1));
    same32(f32::from_bits(0x8000_0001));
    same32(f32::from_bits(0x007f_ffff));
    same32(0.0);
    same32(-0.0);
    same64(f64::MAX);
    same64(f64::MIN);
    same64(f64::MIN_POSITIVE);
    same64(f64::EPSILON);
    same64(f64::from_bits(1));
    same64(f64::from_bits(0x000f_ffff_ffff_ffff));
    same64(0.0);
    same64(-0.0);
    same64(9007199254740992.0);
    same64(9007199254740993.0);
    same64(4503599627370496.5);
    same64(1e308);
    same64(1e-308);
    same64(123456789.123456789);
}

#[test]
fn float32_patterns_agree_with_std() {
    let mut bits: u32 = 0x1234_5678;
    for _ in 0..20000 {
        bits = bits.wrapping_mul(1664525).wrapping_add(1013904223);
        same32(f32::from_bits(bits));
    }
    for exponent in 0..=255u32 {
        for fraction in [0u32, 1, 0x40_0000, 0x7f_ffff, 0x12_3456] {
            same32(f32::from_bits((exponent << 23) | fraction));
            same32(f32::from_bits(0x8000_0000 | (exponent << 23) | fraction));
        }
    }
}

#[test]
fn float64_patterns_agree_with_std() {
    let mut bits: u64 = 0x1234_5678_9abc_def0;
    for _ in 0..4000 {
        bits = bits.wrapping_mul(6364136223846793005).wrapping_add(1442695040888963407);
        same64(f64::from_bits(bits));
    }
    for exponent in 0..=2047u64 {
        for fraction in [0u64, 1, 0x8_0000_0000_0000, 0xf_ffff_ffff_ffff] {
            same64(f64::from_bits((exponent << 52) | fraction));
        }
    }
}

#[test]
fn float64_near_one_agrees_with_std() {
    let mut bits: u64 = 42;
    for _ in 0..20000 {
        bits = bits.wrapping_mul(6364136223846793005).wrapping_add(1442695040888963407);
        let x = (bits >> 11) as f64 / (1u64 << 53) as f64;
        same64(x);
        same64(x * 1000.0);
        same64(-x * 1e-6);
        same32(x as f32);
        same32((x * 1e6) as f32);
    }
}
