//! The settings of a session, and the rule that the number of rows obeys.

use vstd::prelude::*;
use vstd::string::StringExecFns;
use crate::text::{decimal, push_decimal};

verus! {

/// The settings of a session.
pub struct Config {
    /// The greatest number of matches drawn.
    pub lines: usize,
    /// What is drawn before the query.
    pub prompt: String,
    /// Whether each match is drawn with its score.
    pub show_scores: bool,
    /// The query that the session starts with.
    pub query: Option<String>,
    /// The regular expression that splits a line into fields.
    pub delimiter: Option<String>,
    /// The field that queries are matched against.
    pub field: Option<usize>,
    /// The field that is written out; the matched one where there is none.
    pub output: Option<usize>,
    /// Whether the session only filters, a hundred times, and draws nothing.
    pub benchmark: bool,
}

/// Why a number of rows is refused.
#[derive(Clone, Copy, PartialEq, Eq, Structural, Debug)]
pub enum LinesError {
    /// There must be one row at least.
    TooFew,
    /// The rows must leave one row of the terminal, which has `rows`, free.
    TooMany { rows: usize },
}

/// What is said of a number of rows that is refused.
pub open spec fn lines_message(error: LinesError) -> Seq<char> {
    match error {
        LinesError::TooFew => "The argument 'lines' must be greater than 0"@,
        LinesError::TooMany { rows } => "The argument 'lines' must be less than "@ + decimal(
            rows as nat,
        ),
    }
}

impl LinesError {
    /// What to tell the user.
    pub fn message(&self) -> (r: String)
        ensures
            r@ == lines_message(*self),
    {
        match self {
            LinesError::TooFew => String::from_str("The argument 'lines' must be greater than 0"),
            LinesError::TooMany { rows } => {
                let mut r = String::from_str("The argument 'lines' must be less than ");
                push_decimal(&mut r, *rows as u128);
                r
            },
        }
    }
}

/// What becomes of a wish for `lines` rows on a terminal of `rows` rows, or
/// of a height that is not known.
pub open spec fn lines_checked(lines: usize, rows: Option<usize>) -> Result<usize, LinesError> {
    if lines < 1 {
        Err(LinesError::TooFew)
    } else {
        match rows {
            Some(h) if h <= lines => Err(LinesError::TooMany { rows: h }),
            _ => Ok(lines),
        }
    }
}

/// Accepts `lines` rows where that is one at least and, where the height of
/// the terminal is known, less than it.
pub fn parse_lines(lines: usize, rows: Option<usize>) -> (r: Result<usize, LinesError>)
    ensures
        r == lines_checked(lines, rows),
{
    if lines < 1 {
        return Err(LinesError::TooFew);
    }
    if let Some(h) = rows {
        if h <= lines {
            return Err(LinesError::TooMany { rows: h });
        }
    }
    Ok(lines)
}

} // verus!
