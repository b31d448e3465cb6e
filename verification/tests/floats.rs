use nu_msgpack::float::widen;

fn hardware(bits: u32) -> u64 {
    f64::from(f32::from_bits(bits)).to_bits()
}

#[test]
fn widening_keeps_ordinary_numbers() {
    for x in [0.0f32, -0.0, 1.0, -1.0, 0.1, 1.5, 3.1415927, -2.7182817, 1e10, 1e-10, 16777216.0] {
        assert_eq!(widen(x.to_bits()), f64::from(x).to_bits(), "{x}");
    }
    assert_eq!(widen(1.5f32.to_bits()), 1.5f64.to_bits());
    assert_eq!(widen(0x3F80_0000), 0x3FF0_0000_0000_0000);
    assert_eq!(widen(0xC000_0000), 0xC000_0000_0000_0000);
}

#[test]
fn widening_keeps_the_largest_and_the_smallest_numbers() {
    for x in [f32::MAX, f32::MIN, f32::MIN_POSITIVE, -f32::MIN_POSITIVE, f32::EPSILON] {
        assert_eq!(widen(x.to_bits()), f64::from(x).to_bits(), "{x}");
    }
}

#[test]
fn widening_makes_subnormal_numbers_normal() {
    for bits in [
        0x0000_0001u32, 0x0000_0002, 0x0000_0003, 0x0000_0100, 0x0012_3456, 0x003F_FFFF,
        0x0040_0000, 0x007F_FFFF, 0x8000_0001, 0x807F_FFFF,
    ] {
        assert_eq!(widen(bits), hardware(bits), "{bits:#x}");
    }
    assert_eq!(widen(0x0000_0001), 0x36A0_0000_0000_0000);
    assert_eq!(widen(0x007F_FFFF), 0x380F_FFFF_C000_0000);
}

#[test]
fn widening_keeps_zeros_and_infinities() {
    assert_eq!(widen(0x0000_0000), 0x0000_0000_0000_0000);
    assert_eq!(widen(0x8000_0000), 0x8000_0000_0000_0000);
    assert_eq!(widen(f32::INFINITY.to_bits()), f64::INFINITY.to_bits());
    assert_eq!(widen(f32::NEG_INFINITY.to_bits()), f64::NEG_INFINITY.to_bits());
}

#[test]
fn widening_keeps_a_nan_a_nan() {
    assert_eq!(widen(0x7FC0_0000), 0x7FF8_0000_0000_0000);
    assert_eq!(widen(0xFFC0_0000), 0xFFF8_0000_0000_0000);
    assert_eq!(widen(0x7FC0_0001), 0x7FF8_0000_2000_0000);
    assert_eq!(widen(0x7F80_0001), 0x7FF8_0000_2000_0000);
    assert_eq!(widen(0x7FFF_FFFF), 0x7FFF_FFFF_E000_0000);
    for bits in [0x7FC0_0000u32, 0xFFC0_0000, 0x7F80_0001, 0x7FFF_FFFF, 0xFF80_0001] {
        assert!(f64::from_bits(widen(bits)).is_nan());
        assert_eq!(widen(bits) >> 63, u64::from(bits >> 31));
    }
}

#[test]
fn widening_agrees_with_the_machine_across_the_exponents() {
    let mut bits: u32 = 0x0000_0001;
    while bits < 0x7F80_0000 {
        assert_eq!(widen(bits), hardware(bits), "{bits:#x}");
        assert_eq!(widen(bits | 0x8000_0000), hardware(bits | 0x8000_0000), "-{bits:#x}");
        bits += 0x0003_1415;
    }
}
