use fozzie::fixed::Fixed;

#[test]
fn fixed_plus() {
    assert_eq!(Fixed::Finite(895), Fixed::Finite(900).plus(-5));
    assert_eq!(Fixed::NegInf, Fixed::NegInf.plus(1000));
    assert_eq!(Fixed::PosInf, Fixed::PosInf.plus(-1000));
}

#[test]
fn fixed_order() {
    assert!(Fixed::NegInf.le(Fixed::Finite(-1_000_000)));
    assert!(Fixed::Finite(1_000_000).le(Fixed::PosInf));
    assert!(Fixed::NegInf.le(Fixed::NegInf));
    assert!(Fixed::PosInf.le(Fixed::PosInf));
    assert!(Fixed::Finite(-5).le(Fixed::Finite(-5)));
    assert!(!Fixed::Finite(-5).le(Fixed::Finite(-10)));
    assert!(!Fixed::Finite(0).le(Fixed::NegInf));
    assert!(!Fixed::PosInf.le(Fixed::Finite(7)));
    assert_eq!(Fixed::Finite(3), Fixed::Finite(3).max(Fixed::Finite(-3)));
    assert_eq!(Fixed::Finite(3), Fixed::NegInf.max(Fixed::Finite(3)));
    assert_eq!(Fixed::PosInf, Fixed::PosInf.max(Fixed::Finite(3)));
}

#[test]
fn fixed_is_finite() {
    assert!(Fixed::Finite(0).is_finite());
    assert!(!Fixed::NegInf.is_finite());
    assert!(!Fixed::PosInf.is_finite());
}

#[test]
fn fixed_text_has_two_decimals() {
    assert_eq!(" 0.89", Fixed::Finite(890).text());
    assert_eq!(" 1.00", Fixed::Finite(1000).text());
    assert_eq!(" 0.00", Fixed::Finite(0).text());
    assert_eq!("12.34", Fixed::Finite(12340).text());
    assert_eq!("123.45", Fixed::Finite(123450).text());
    assert_eq!("-0.01", Fixed::Finite(-10).text());
    assert_eq!("-1.50", Fixed::Finite(-1500).text());
    assert_eq!("-12.00", Fixed::Finite(-12000).text());
}

#[test]
fn fixed_text_rounds_half_to_even() {
    assert_eq!(" 0.90", Fixed::Finite(895).text());
    assert_eq!(" 0.88", Fixed::Finite(885).text());
    assert_eq!(" 0.89", Fixed::Finite(886).text());
    assert_eq!(" 0.88", Fixed::Finite(884).text());
    assert_eq!(" 1.00", Fixed::Finite(995).text());
    assert_eq!("-0.00", Fixed::Finite(-5).text());
    assert_eq!("-0.02", Fixed::Finite(-15).text());
    assert_eq!("-0.00", Fixed::Finite(-4).text());
}

#[test]
fn fixed_text_of_the_infinities() {
    assert_eq!("     ", Fixed::NegInf.text());
    assert_eq!("  inf", Fixed::PosInf.text());
}

#[test]
fn fixed_text_of_the_extremes() {
    assert_eq!(
        "170141183460469231731687303715884105.73",
        Fixed::Finite(i128::MAX).text()
    );
    assert_eq!(
        "-170141183460469231731687303715884105.73",
        Fixed::Finite(i128::MIN).text()
    );
}
