//! Inverse video and highlighting, as escape sequences.

use vstd::prelude::*;
use vstd::string::StringExecFns;
use crate::text::push_char;

verus! {

/// `text` in inverse video.
pub open spec fn inverse_text(text: Seq<char>) -> Seq<char> {
    seq!['\x1B', '[', '7', 'm'] + text + seq!['\x1B', '[', '2', '7', 'm']
}

/// The character `c` in the highlight colour.
pub open spec fn highlight_text(c: char) -> Seq<char> {
    seq!['\x1B', '[', '3', '5', 'm', c, '\x1B', '[', '3', '9', 'm']
}

/// Wraps `text` in the pair of sequences that switch inverse video on and off.
pub fn inverse(text: &str) -> (r: String)
    ensures
        r@ == inverse_text(text@),
{
    proof {
        reveal_strlit("\x1B[7m");
        reveal_strlit("\x1B[27m");
    }
    let mut s = String::from_str("\x1B[7m");
    s.append(text);
    s.append("\x1B[27m");
    assert(s@ =~= inverse_text(text@));
    s
}

/// Wraps `c` in the pair of sequences that switch the highlight colour on
/// and off.
pub fn highlight(c: char) -> (r: String)
    ensures
        r@ == highlight_text(c),
{
    proof {
        reveal_strlit("\x1B[35m");
        reveal_strlit("\x1B[39m");
    }
    let mut s = String::from_str("\x1B[35m");
    push_char(&mut s, c);
    s.append("\x1B[39m");
    assert(s@ =~= highlight_text(c));
    s
}

} // verus!
