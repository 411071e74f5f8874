use fozzie::cursor::{
    clear_line, clear_screen_down, col, down, left, restore_position, right, save_position, up,
};

#[test]
fn test_up() {
    assert_eq!("\x1B[2A", up(2));
}

#[test]
fn cursor_test_left() {
    assert_eq!("\x1B[1D", left());
}

#[test]
fn cursor_test_right() {
    assert_eq!("\x1B[1C", right());
}

#[test]
fn test_clear_line() {
    assert_eq!("\x1B[2K", clear_line());
}

#[test]
fn test_col() {
    assert_eq!("\x1B[8G", col(8));
}

#[test]
fn test_clear_screen_down() {
    assert_eq!("\x1B[J", clear_screen_down());
}

#[test]
fn test_save_position() {
    assert_eq!("\x1B7", save_position());
}

#[test]
fn test_restore_position() {
    assert_eq!("\x1B8", restore_position());
}

#[test]
fn test_down() {
    assert_eq!("\x1B[3B", down(3));
}

#[test]
fn test_col_of_many_digits() {
    assert_eq!("\x1B[1207G", col(1207));
    assert_eq!("\x1B[0G", col(0));
    assert_eq!("\x1B[10A", up(10));
}
