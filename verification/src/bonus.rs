//! The lexical bonus of each position of a candidate: what a match that
//! lands there earns for beginning a word.

use vstd::prelude::*;

verus! {

/// Bonus after a slash, in thousandths.
pub const SLASH: i128 = 900;

/// Bonus after a hyphen, an underscore or a space, in thousandths.
pub const WORD: i128 = 850;

/// Bonus after a full stop, in thousandths.
pub const DOT: i128 = 600;

/// Bonus of a capital that follows a small letter, in thousandths.
pub const CAPITAL: i128 = 700;

/// Whether `c` is a small ASCII letter.
pub open spec fn is_lower(c: char) -> bool {
    'a' <= c && c <= 'z'
}

/// Whether `c` is an ASCII capital.
pub open spec fn is_upper(c: char) -> bool {
    'A' <= c && c <= 'Z'
}

/// Whether `c` is an ASCII digit.
pub open spec fn is_digit(c: char) -> bool {
    '0' <= c && c <= '9'
}

/// What an ASCII letter or digit earns after `prev`.
pub open spec fn after(prev: char) -> int {
    if prev == '/' {
        SLASH as int
    } else if prev == '-' || prev == '_' || prev == ' ' {
        WORD as int
    } else if prev == '.' {
        DOT as int
    } else {
        0
    }
}

/// The bonus of `current` when it follows `prev`.
pub open spec fn between(prev: char, current: char) -> int {
    if is_lower(current) || is_digit(current) {
        after(prev)
    } else if is_upper(current) {
        if is_lower(prev) {
            CAPITAL as int
        } else {
            after(prev)
        }
    } else {
        0
    }
}

/// The bonus of position `i` of `s`; what precedes position 0 counts as a
/// slash.
pub open spec fn bonus_at(s: Seq<char>, i: int) -> int {
    between(
        if i == 0 {
            '/'
        } else {
            s[i - 1]
        },
        s[i],
    )
}

/// Whether `b` is one of the five values a bonus can take.
pub open spec fn is_bonus_value(b: int) -> bool {
    b == 0 || b == DOT || b == WORD || b == SLASH || b == CAPITAL
}

/// Every bonus is one of the five values.
pub proof fn lemma_bonus_values(s: Seq<char>, i: int)
    ensures
        is_bonus_value(bonus_at(s, i)),
        0 <= bonus_at(s, i) <= SLASH,
{
}

/// What an ASCII letter or digit earns after `ch`.
fn for_previous(ch: char) -> (b: i128)
    ensures
        b == after(ch),
{
    if ch == '/' {
        SLASH
    } else if ch == '-' || ch == '_' || ch == ' ' {
        WORD
    } else if ch == '.' {
        DOT
    } else {
        0
    }
}

/// The bonus of `current` when it follows `prev`.
fn for_char(prev: char, current: char) -> (b: i128)
    ensures
        b == between(prev, current),
{
    if ('a' <= current && current <= 'z') || ('0' <= current && current <= '9') {
        for_previous(prev)
    } else if 'A' <= current && current <= 'Z' {
        if 'a' <= prev && prev <= 'z' {
            CAPITAL
        } else {
            for_previous(prev)
        }
    } else {
        0
    }
}

/// The bonus of every position of `choice_chars`, in thousandths.
pub fn compute(choice_chars: &[char]) -> (bonus: Vec<i128>)
    ensures
        bonus@.len() == choice_chars@.len(),
        forall|i: int| 0 <= i < bonus@.len() ==> bonus@[i] == bonus_at(choice_chars@, i),
        forall|i: int| 0 <= i < bonus@.len() ==> is_bonus_value(#[trigger] bonus@[i] as int),
{
    let mut bonus: Vec<i128> = Vec::new();
    let mut last_char: char = '/';
    let mut i: usize = 0;
    while i < choice_chars.len()
        invariant
            i <= choice_chars@.len(),
            bonus@.len() == i,
            last_char == (if i == 0 {
                '/'
            } else {
                choice_chars@[i - 1]
            }),
            forall|k: int| 0 <= k < i ==> bonus@[k] == bonus_at(choice_chars@, k),
            forall|k: int| 0 <= k < i ==> is_bonus_value(#[trigger] bonus@[k] as int),
        decreases choice_chars@.len() - i,
    {
        let current: char = choice_chars[i];
        bonus.push(for_char(last_char, current));
        last_char = current;
        i = i + 1;
    }
    bonus
}

} // verus!
