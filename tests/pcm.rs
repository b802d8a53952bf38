use waved::{normalize, Fraction};

#[test]
fn extremes_normalise_to_unit() {
    for bits in [8u16, 16, 24, 32] {
        let lowest = -(1i64 << (bits - 1)) as i32;
        let highest = ((1i64 << (bits - 1)) - 1) as i32;
        let lo = normalize(lowest, bits);
        let hi = normalize(highest, bits);
        assert_eq!(lo.numerator as i64, -(lo.denominator as i64));
        assert_eq!(hi.numerator as i64, hi.denominator as i64);
        assert_eq!(lo.numerator as f64 / lo.denominator as f64, -1.0);
        assert_eq!(hi.numerator as f64 / hi.denominator as f64, 1.0);
    }
}

#[test]
fn zero_normalises_to_zero() {
    let z = normalize(0, 16);
    assert_eq!(z, Fraction { numerator: 0, denominator: 32767 });
}

#[test]
fn denominators_differ_by_sign() {
    assert_eq!(normalize(-1, 16), Fraction { numerator: -1, denominator: 32768 });
    assert_eq!(normalize(1, 16), Fraction { numerator: 1, denominator: 32767 });
    assert_eq!(normalize(-64, 8), Fraction { numerator: -64, denominator: 128 });
    assert_eq!(normalize(-8_388_608, 24), Fraction { numerator: -8_388_608, denominator: 8_388_608 });
    assert_eq!(normalize(8_388_607, 24), Fraction { numerator: 8_388_607, denominator: 8_388_607 });
}
