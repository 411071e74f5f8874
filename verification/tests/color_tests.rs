use fozzie::color::{highlight, inverse};

#[test]
fn test_inverse() {
    assert_eq!("\x1B[7mfoo\x1B[27m", inverse("foo"));
}

#[test]
fn test_highlight() {
    assert_eq!("\x1B[35mf\x1B[39m", highlight('f'));
}

#[test]
fn test_inverse_of_nothing() {
    assert_eq!("\x1B[7m\x1B[27m", inverse(""));
}
