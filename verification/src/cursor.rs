//! Cursor movement and erasing, as escape sequences.

use vstd::prelude::*;
use vstd::string::StringExecFns;
use crate::text::{decimal, push_char, push_decimal};

verus! {

/// The control sequence `ESC [ n code`.
pub open spec fn csi(n: nat, code: char) -> Seq<char> {
    seq!['\x1B', '['] + decimal(n) + seq![code]
}

/// Builds the control sequence `ESC [ n code`.
pub fn sequence(n: u128, code: char) -> (r: String)
    ensures
        r@ == csi(n as nat, code),
{
    proof {
        reveal_strlit("\x1B[");
    }
    let mut s = String::from_str("\x1B[");
    assert(s@ =~= seq!['\x1B', '[']);
    push_decimal(&mut s, n);
    push_char(&mut s, code);
    s
}

/// Moves the cursor to column `n`, counted from one.
pub fn col(n: usize) -> (r: String)
    ensures
        r@ == csi(n as nat, 'G'),
{
    sequence(n as u128, 'G')
}

/// Moves the cursor up by `n` rows.
pub fn up(n: usize) -> (r: String)
    ensures
        r@ == csi(n as nat, 'A'),
{
    sequence(n as u128, 'A')
}

/// Moves the cursor down by `n` rows.
pub fn down(n: usize) -> (r: String)
    ensures
        r@ == csi(n as nat, 'B'),
{
    sequence(n as u128, 'B')
}

/// Moves the cursor one column to the left.
pub fn left() -> (r: &'static str)
    ensures
        r@ == csi(1, 'D'),
{
    proof {
        reveal_strlit("\x1B[1D");
        assert(decimal(1) =~= seq!['1']);
        assert("\x1B[1D"@ =~= csi(1, 'D'));
    }
    "\x1B[1D"
}

/// Moves the cursor one column to the right.
pub fn right() -> (r: &'static str)
    ensures
        r@ == csi(1, 'C'),
{
    proof {
        reveal_strlit("\x1B[1C");
        assert(decimal(1) =~= seq!['1']);
        assert("\x1B[1C"@ =~= csi(1, 'C'));
    }
    "\x1B[1C"
}

/// Erases the whole current line.
pub fn clear_line() -> (r: &'static str)
    ensures
        r@ == seq!['\x1B', '[', '2', 'K'],
{
    proof {
        reveal_strlit("\x1B[2K");
    }
    "\x1B[2K"
}

/// Erases from the cursor to the end of the screen.
pub fn clear_screen_down() -> (r: &'static str)
    ensures
        r@ == seq!['\x1B', '[', 'J'],
{
    proof {
        reveal_strlit("\x1B[J");
    }
    "\x1B[J"
}

/// Saves the cursor position.
pub fn save_position() -> (r: &'static str)
    ensures
        r@ == seq!['\x1B', '7'],
{
    proof {
        reveal_strlit("\x1B7");
    }
    "\x1B7"
}

/// Restores the cursor position saved last.
pub fn restore_position() -> (r: &'static str)
    ensures
        r@ == seq!['\x1B', '8'],
{
    proof {
        reveal_strlit("\x1B8");
    }
    "\x1B8"
}

} // verus!
