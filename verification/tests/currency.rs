use catshi::currency::Currency;
use catshi::text::{parse_i64, parse_u8, u64_to_decimal, i64_zero_padded};

#[test]
fn test_new_yp() {
    assert_eq!(Currency::new_yp(12).0, 12000);
}

#[test]
fn test_formatting() {
    assert_eq!(Currency::from(1000).to_string(), "1.000yp");
    assert_eq!(Currency::from(1500).to_string(), "1.500yp");
    assert_eq!(Currency::from(-1200).to_string(), "-1.200yp");
    assert_eq!(Currency::from(35001).to_string(), "35.001yp");
}

// Further cases.

#[test]
fn test_formatting_small_and_zero() {
    assert_eq!(Currency::from(0).to_string(), "0.000yp");
    assert_eq!(Currency::from(7).to_string(), "0.007yp");
    assert_eq!(Currency::from(-7).to_string(), "-0.007yp");
    assert_eq!(Currency::from(i64::MAX).to_string(), "9223372036854775.807yp");
}

#[test]
fn test_arithmetic() {
    let a = Currency::from(1500);
    let b = Currency::from(-200);
    assert_eq!(a.add(b), Currency::from(1300));
    assert_eq!(a.sub(b), Currency::from(1700));
    assert_eq!(b.neg(), Currency::from(200));
    assert_eq!(a.mul_int(3), Currency::from(4500));
    assert_eq!(i64::from(a), 1500);
}

#[test]
fn test_mul_fraction_rounds_half_to_even() {
    // 25 * 0.02 = 0.5 -> 0; 75 * 0.02 = 1.5 -> 2; 125 * 0.02 = 2.5 -> 2.
    assert_eq!(Currency::from(25).mul_fraction(2, 100), Currency::from(0));
    assert_eq!(Currency::from(75).mul_fraction(2, 100), Currency::from(2));
    assert_eq!(Currency::from(125).mul_fraction(2, 100), Currency::from(2));
    assert_eq!(Currency::from(-75).mul_fraction(2, 100), Currency::from(-2));
    assert_eq!(Currency::from(-125).mul_fraction(2, 100), Currency::from(-2));
    assert_eq!(Currency::from(-130).mul_fraction(2, 100), Currency::from(-3));
    assert_eq!(Currency::from(3).mul_fraction(5, 2), Currency::from(8));
    assert_eq!(Currency::from(1).mul_fraction(3, 2), Currency::from(2));
}

#[test]
fn test_decimal_text_and_parsing() {
    assert_eq!(u64_to_decimal(0), "0");
    assert_eq!(u64_to_decimal(u64::MAX), "18446744073709551615");
    assert_eq!(i64_zero_padded(5, 4), "0005");
    assert_eq!(i64_zero_padded(-5, 4), "-005");
    assert_eq!(i64_zero_padded(123456, 4), "123456");
    assert_eq!(parse_i64("42"), Some(42));
    assert_eq!(parse_i64("+42"), Some(42));
    assert_eq!(parse_i64("-42"), Some(-42));
    assert_eq!(parse_i64("-9223372036854775808"), Some(i64::MIN));
    assert_eq!(parse_i64("9223372036854775807"), Some(i64::MAX));
    assert_eq!(parse_i64("9223372036854775808"), None);
    assert_eq!(parse_i64(""), None);
    assert_eq!(parse_i64("-"), None);
    assert_eq!(parse_i64("+"), None);
    assert_eq!(parse_i64("4x"), None);
    assert_eq!(parse_u8("255"), Some(255));
    assert_eq!(parse_u8("256"), None);
    assert_eq!(parse_u8("-1"), None);
    for s in ["0", "7", "-3", "+12", "00012", "x", "", "99999999999999999999"] {
        assert_eq!(parse_i64(s), s.parse::<i64>().ok());
        assert_eq!(parse_u8(s), s.parse::<u8>().ok());
    }
}
