use arb_bot::units::{decimal_ge, decimal_sub, from_units, to_units, Decimal, UnitError};
use arb_bot::text::{decimal_text, parse_decimal};

fn dec(mantissa: i128, scale: u32) -> Decimal {
    Decimal { mantissa, scale }
}

#[test]
fn smallest_unit_converts_to_one() {
    assert_eq!(to_units(dec(1, 6), 6), Ok(1));
}

#[test]
fn negative_amount_is_invalid() {
    assert_eq!(to_units(dec(-1, 0), 6), Err(UnitError::InvalidAmount));
    assert_eq!(to_units(dec(-10, 1), 6), Err(UnitError::InvalidAmount));
}

#[test]
fn whole_amount_scales_up() {
    assert_eq!(to_units(dec(1000, 0), 6), Ok(1_000_000_000));
    assert_eq!(to_units(dec(5, 1), 18), Ok(500_000_000_000_000_000));
}

#[test]
fn extra_places_round_half_away_from_zero() {
    // 1.2345675 at 6 places
    assert_eq!(to_units(dec(12_345_675, 7), 6), Ok(1_234_568));
    // 1.2345674 at 6 places
    assert_eq!(to_units(dec(12_345_674, 7), 6), Ok(1_234_567));
    // 0.0000005 rounds up to one unit, 0.0000004 to none
    assert_eq!(to_units(dec(5, 7), 6), Ok(1));
    assert_eq!(to_units(dec(4, 7), 6), Ok(0));
}

#[test]
fn overflow_is_invalid() {
    assert_eq!(to_units(dec(1, 0), 39), Err(UnitError::InvalidAmount));
    assert_eq!(to_units(dec(i128::MAX, 0), 1), Err(UnitError::InvalidAmount));
    assert_eq!(to_units(dec(0, 0), 60), Ok(0));
}

#[test]
fn largest_fitting_amount_converts() {
    assert_eq!(to_units(dec(i128::MAX, 0), 0), Ok(i128::MAX as u128));
}

#[test]
fn from_units_is_exact() {
    assert_eq!(from_units(1_234_567, 6), Ok(dec(1_234_567, 6)));
    assert_eq!(from_units(0, 18), Ok(dec(0, 18)));
    assert_eq!(from_units(u128::MAX, 6), Err(UnitError::InvalidAmount));
    assert_eq!(from_units(1, 39), Err(UnitError::InvalidAmount));
}

#[test]
fn round_trip_keeps_the_value() {
    let cases = [(dec(1000, 0), 6u32), (dec(1, 6), 6), (dec(123_456, 3), 18), (dec(0, 2), 6)];
    for (amount, decimals) in cases {
        let native = to_units(amount, decimals).unwrap();
        let back = from_units(native, decimals).unwrap();
        assert!(decimal_ge(back, amount) && decimal_ge(amount, back));
    }
}

#[test]
fn native_round_trip_is_identity() {
    for n in [0u128, 1, 999_999, 1_000_000_000_000_000_000] {
        let d = from_units(n, 18).unwrap();
        assert_eq!(to_units(d, 18), Ok(n));
    }
}

#[test]
fn exact_differences_use_the_larger_scale() {
    assert_eq!(decimal_sub(dec(10_000_000, 6), dec(20_000_004, 7)), Ok(dec(79_999_996, 7)));
    assert_eq!(decimal_sub(dec(1, 0), dec(5, 1)), Ok(dec(5, 1)));
    assert_eq!(decimal_sub(dec(i128::MIN + 1, 0), dec(2, 0)), Err(UnitError::InvalidAmount));
    assert_eq!(decimal_sub(dec(i128::MAX, 0), dec(1, 1)), Err(UnitError::InvalidAmount));
}

#[test]
fn decimal_comparison_across_scales() {
    assert!(decimal_ge(dec(8_000_000, 6), dec(5, 0)));
    assert!(!decimal_ge(dec(-1_000_000, 6), dec(5, 0)));
    assert!(decimal_ge(dec(5_000_000, 6), dec(5, 0)));
    assert!(decimal_ge(dec(5, 0), dec(5_000_000, 6)));
    assert!(!decimal_ge(dec(4_999_999, 6), dec(5, 0)));
    // a product that overflows decides by sign
    assert!(decimal_ge(dec(1, 38), dec(-i128::MAX, 0)));
    assert!(!decimal_ge(dec(1, 38), dec(i128::MAX, 0)));
}

#[test]
fn decimal_texts_parse() {
    assert_eq!(parse_decimal("1000"), Some(dec(1000, 0)));
    assert_eq!(parse_decimal("0.000001"), Some(dec(1, 6)));
    assert_eq!(parse_decimal("-1.5"), Some(dec(-15, 1)));
    assert_eq!(parse_decimal("2.0"), Some(dec(20, 1)));
    assert_eq!(parse_decimal(""), None);
    assert_eq!(parse_decimal("-"), None);
    assert_eq!(parse_decimal("1."), Some(dec(1, 0)));
    assert_eq!(parse_decimal(".5"), Some(dec(5, 1)));
    assert_eq!(parse_decimal("+5"), Some(dec(5, 0)));
    assert_eq!(parse_decimal("-.25"), Some(dec(-25, 2)));
    assert_eq!(parse_decimal("."), None);
    assert_eq!(parse_decimal("+"), None);
    assert_eq!(parse_decimal("+-1"), None);
    assert_eq!(parse_decimal("1e3"), None);
    assert_eq!(parse_decimal("1.2.3"), None);
    assert_eq!(parse_decimal("12a"), None);
    assert_eq!(parse_decimal("170141183460469231731687303715884105727"), Some(dec(i128::MAX, 0)));
    assert_eq!(parse_decimal("170141183460469231731687303715884105728"), None);
    assert_eq!(parse_decimal("0.000000000000000000000000000000000000001"), None);
}

#[test]
fn decimals_write_as_text() {
    use_text(dec(1_000_000_000, 6), "1000.000000");
    use_text(dec(-1_000_000, 6), "-1.000000");
    use_text(dec(1, 6), "0.000001");
    use_text(dec(-5, 2), "-0.05");
    use_text(dec(42, 0), "42");
    use_text(dec(0, 0), "0");
    use_text(dec(i128::MAX, 0), "170141183460469231731687303715884105727");
}

fn use_text(d: Decimal, expected: &str) {
    let text: String = decimal_text(d).into_iter().collect();
    assert_eq!(text, expected);
    assert_eq!(parse_decimal(&text), Some(d));
}
