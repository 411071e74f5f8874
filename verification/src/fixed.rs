//! Scores: whole numbers of thousandths, extended by the two infinities.
//!
//! Every constant of the scoring rules is a whole number of thousandths, so
//! sums and comparisons of scores are exact.

use vstd::prelude::*;
use vstd::string::StringExecFns;
use crate::text::{decimal, decimal_chars, digit, digit_char, push_char, push_chars};

verus! {

/// A score as a mathematical value: a whole number of thousandths, or
/// minus or plus infinity.
pub enum Value {
    NegInf,
    Finite(int),
    PosInf,
}

impl Value {
    /// The sum of this value and `d` thousandths; an infinity stays what it is.
    pub open spec fn plus(self, d: int) -> Value {
        match self {
            Value::NegInf => Value::NegInf,
            Value::Finite(v) => Value::Finite(v + d),
            Value::PosInf => Value::PosInf,
        }
    }

    /// Whether this value is at most `other`.
    pub open spec fn le(self, other: Value) -> bool {
        match (self, other) {
            (Value::NegInf, _) => true,
            (_, Value::PosInf) => true,
            (Value::Finite(a), Value::Finite(b)) => a <= b,
            _ => false,
        }
    }

    /// The greater of this value and `other`.
    pub open spec fn max(self, other: Value) -> Value {
        if self.le(other) {
            other
        } else {
            self
        }
    }

    /// Whether this value, where it is finite, lies between `lo` and `hi`.
    pub open spec fn within(self, lo: int, hi: int) -> bool {
        self matches Value::Finite(v) ==> lo <= v <= hi
    }
}

/// A score as it is stored: thousandths in an `i128`, or an infinity.
#[derive(Clone, Copy, PartialEq, Eq, Structural, Debug)]
pub enum Fixed {
    NegInf,
    Finite(i128),
    PosInf,
}

impl View for Fixed {
    type V = Value;

    open spec fn view(&self) -> Value {
        match *self {
            Fixed::NegInf => Value::NegInf,
            Fixed::Finite(v) => Value::Finite(v as int),
            Fixed::PosInf => Value::PosInf,
        }
    }
}

impl Fixed {
    /// Adds `d` thousandths; an infinity stays what it is.
    pub fn plus(self, d: i128) -> (r: Fixed)
        requires
            self matches Fixed::Finite(v) ==> i128::MIN <= v + d <= i128::MAX,
        ensures
            r@ == self@.plus(d as int),
    {
        match self {
            Fixed::NegInf => Fixed::NegInf,
            Fixed::Finite(v) => Fixed::Finite(v + d),
            Fixed::PosInf => Fixed::PosInf,
        }
    }

    /// Whether this score is at most `other`.
    pub fn le(self, other: Fixed) -> (r: bool)
        ensures
            r == self@.le(other@),
    {
        match self {
            Fixed::NegInf => true,
            Fixed::Finite(a) => match other {
                Fixed::NegInf => false,
                Fixed::Finite(b) => a <= b,
                Fixed::PosInf => true,
            },
            Fixed::PosInf => match other {
                Fixed::PosInf => true,
                _ => false,
            },
        }
    }

    /// The greater of this score and `other`.
    pub fn max(self, other: Fixed) -> (r: Fixed)
        ensures
            r@ == self@.max(other@),
    {
        if self.le(other) {
            other
        } else {
            self
        }
    }

    /// Whether this score is finite.
    pub fn is_finite(self) -> (r: bool)
        ensures
            r == (self@ is Finite),
    {
        match self {
            Fixed::Finite(_) => true,
            _ => false,
        }
    }
}

/// The hundredths nearest to `a` thousandths, a half going to the even
/// neighbour.
pub open spec fn hundredths(a: nat) -> nat {
    if a % 10 > 5 || (a % 10 == 5 && (a / 10) % 2 == 1) {
        a / 10 + 1
    } else {
        a / 10
    }
}

/// `v` thousandths written with two decimals: a minus sign where `v` is
/// negative, the whole part, a full stop, and two digits.
pub open spec fn two_decimals(v: int) -> Seq<char> {
    let h = hundredths(
        (if v < 0 {
            -v
        } else {
            v
        }) as nat,
    );
    (if v < 0 {
        seq!['-']
    } else {
        Seq::<char>::empty()
    }) + decimal(h / 100) + seq!['.', digit(h % 100 / 10), digit(h % 10)]
}

/// `s` with spaces put before it until it is `width` characters long.
pub open spec fn padded(s: Seq<char>, width: nat) -> Seq<char> {
    if s.len() < width {
        Seq::new((width - s.len()) as nat, |i: int| ' ') + s
    } else {
        s
    }
}

/// What stands for a score in a drawn row: five characters or more, right
/// aligned; nothing but spaces for minus infinity.
pub open spec fn score_text(score: Value) -> Seq<char> {
    match score {
        Value::NegInf => seq![' ', ' ', ' ', ' ', ' '],
        Value::Finite(v) => padded(two_decimals(v), 5),
        Value::PosInf => seq![' ', ' ', 'i', 'n', 'f'],
    }
}

impl Fixed {
    /// The text that stands for this score in a drawn row.
    pub fn text(self) -> (r: String)
        ensures
            r@ == score_text(self@),
    {
        match self {
            Fixed::NegInf => {
                proof {
                    reveal_strlit("     ");
                }
                let r = String::from_str("     ");
                assert(r@ =~= score_text(self@));
                r
            },
            Fixed::PosInf => {
                proof {
                    reveal_strlit("  inf");
                }
                let r = String::from_str("  inf");
                assert(r@ =~= score_text(self@));
                r
            },
            Fixed::Finite(v) => {
                let magnitude: u128 = if v < 0 {
                    ((-(v + 1)) as u128) + 1
                } else {
                    v as u128
                };
                let tenth: u128 = magnitude % 10;
                let mut h: u128 = magnitude / 10;
                if tenth > 5 || (tenth == 5 && h % 2 == 1) {
                    h = h + 1;
                }
                assert(h == hundredths(magnitude as nat));
                let mut body: Vec<char> = Vec::new();
                if v < 0 {
                    body.push('-');
                }
                let mut whole = decimal_chars(h / 100);
                body.append(&mut whole);
                body.push('.');
                body.push(digit_char((h % 100 / 10) as u8));
                body.push(digit_char((h % 10) as u8));
                assert(body@ =~= two_decimals(v as int));
                let mut r = String::new();
                let mut pad: usize = body.len();
                while pad < 5
                    invariant
                        body@.len() <= pad,
                        pad <= 5 || pad == body@.len(),
                        r@ == Seq::new((pad - body@.len()) as nat, |i: int| ' '),
                    decreases 5 - pad,
                {
                    push_char(&mut r, ' ');
                    assert(r@ =~= Seq::new((pad + 1 - body@.len()) as nat, |i: int| ' '));
                    pad = pad + 1;
                }
                push_chars(&mut r, &body);
                assert(r@ =~= score_text(self@));
                r
            },
        }
    }
}

} // verus!
