//! Building blocks for rendered text: characters in and out of strings, and
//! decimal numerals.

use vstd::prelude::*;

verus! {

/// `c` with an ASCII capital turned into its small letter; every other
/// character is itself.
pub open spec fn lower(c: char) -> char {
    if 'A' <= c && c <= 'Z' {
        ((c as u8) + 32) as char
    } else {
        c
    }
}

/// `s` with every ASCII capital turned into its small letter.
pub open spec fn lowered(s: Seq<char>) -> Seq<char> {
    Seq::new(s.len(), |i: int| lower(s[i]))
}

/// Whether `a` and `b` are the same character once ASCII case is folded.
pub open spec fn same_letter(a: char, b: char) -> bool {
    lower(a) == lower(b)
}

/// Folds the ASCII case of `c`.
pub fn to_lower(c: char) -> (r: char)
    ensures
        r == lower(c),
{
    if 'A' <= c && c <= 'Z' {
        let b: u8 = c as u8;
        (b + 32) as char
    } else {
        c
    }
}

/// Folds the ASCII case of every character of `s`.
pub fn to_lowered(s: &[char]) -> (r: Vec<char>)
    ensures
        r@ == lowered(s@),
{
    let mut out: Vec<char> = Vec::new();
    let mut i: usize = 0;
    while i < s.len()
        invariant
            i <= s@.len(),
            out@ == lowered(s@).take(i as int),
        decreases s@.len() - i,
    {
        out.push(to_lower(s[i]));
        proof {
            assert(lowered(s@).take(i + 1) =~= lowered(s@).take(i as int).push(lower(s@[i as int])));
        }
        i = i + 1;
    }
    proof {
        assert(lowered(s@).take(s@.len() as int) =~= lowered(s@));
    }
    out
}

/// The decimal digit for `d`, which is meant to be below ten.
pub open spec fn digit(d: nat) -> char {
    (d + 48) as char
}

/// The decimal numeral of `n`, most significant digit first, without
/// leading zeros.
pub open spec fn decimal(n: nat) -> Seq<char>
    decreases n,
{
    if n < 10 {
        seq![digit(n)]
    } else {
        decimal(n / 10).push(digit(n % 10))
    }
}

/// `String::push` of std: appends one character to the string.
#[verifier::external_body]
pub(crate) fn push_char(s: &mut String, c: char)
    ensures
        final(s)@ == old(s)@.push(c),
{
    s.push(c)
}

/// Appends the characters of `v`, in order.
pub fn push_chars(s: &mut String, v: &Vec<char>)
    ensures
        final(s)@ == old(s)@ + v@,
{
    let mut i: usize = 0;
    while i < v.len()
        invariant
            i <= v.len(),
            s@ == old(s)@ + v@.take(i as int),
        decreases v.len() - i,
    {
        push_char(s, v[i]);
        i = i + 1;
    }
}

/// The characters of `s`, in order.
pub fn chars_of(s: &str) -> (r: Vec<char>)
    ensures
        r@ == s@,
{
    let mut out: Vec<char> = Vec::new();
    for c in it: s.chars()
        invariant
            it.seq() == s@,
            out@ == it.seq().take(it.index() as int),
    {
        out.push(c);
    }
    out
}

/// The string whose characters are those of `v`.
pub fn string_of(v: &Vec<char>) -> (r: String)
    ensures
        r@ == v@,
{
    let mut s = String::new();
    push_chars(&mut s, v);
    s
}

/// The character that stands for the digit `d`.
pub(crate) fn digit_char(d: u8) -> (c: char)
    requires
        d < 10,
    ensures
        c == digit(d as nat),
{
    (d + 48) as char
}

/// The digits of `n`, least significant first.
fn digits_reversed(n: u128) -> (rev: Vec<char>)
    ensures
        rev@.reverse() == decimal(n as nat),
        rev@.len() >= 1,
{
    let mut rev: Vec<char> = Vec::new();
    let mut m: u128 = n;
    while m >= 10
        invariant
            decimal(n as nat) == decimal(m as nat) + rev@.reverse(),
        decreases m,
    {
        let d: u8 = (m % 10) as u8;
        let ghost before = rev@;
        rev.push(digit_char(d));
        proof {
            assert(rev@.reverse() =~= seq![digit(d as nat)] + before.reverse());
            assert(decimal(m as nat) == decimal((m / 10) as nat).push(digit(d as nat)));
            assert(decimal(m as nat) + before.reverse() =~= decimal((m / 10) as nat)
                + rev@.reverse());
        }
        m = m / 10;
    }
    let ghost before = rev@;
    rev.push(digit_char(m as u8));
    proof {
        assert(rev@.reverse() =~= seq![digit(m as nat)] + before.reverse());
    }
    rev
}

/// The decimal numeral of `n`.
pub fn decimal_chars(n: u128) -> (v: Vec<char>)
    ensures
        v@ == decimal(n as nat),
{
    let rev = digits_reversed(n);
    let mut v: Vec<char> = Vec::new();
    let mut i: usize = rev.len();
    while i > 0
        invariant
            i <= rev.len(),
            v@ == rev@.reverse().take(rev.len() - i),
        decreases i,
    {
        i = i - 1;
        v.push(rev[i]);
        proof {
            let r = rev@.reverse();
            let k = rev.len() - i - 1;
            assert(r[k] == rev@[i as int]);
            assert(r.take(k + 1) =~= r.take(k).push(r[k]));
        }
    }
    proof {
        assert(rev@.reverse().take(rev.len() as int) =~= rev@.reverse());
    }
    v
}

/// Appends the decimal numeral of `n`.
pub fn push_decimal(s: &mut String, n: u128)
    ensures
        final(s)@ == old(s)@ + decimal(n as nat),
{
    let digits = decimal_chars(n);
    push_chars(s, &digits);
}

} // verus!
