//! The query: the characters typed so far, and the cursor among them.
//!
//! The cursor counts characters. The words that the cursor moves by are
//! found by a regular expression, which tells where they are in bytes; the
//! two agree as long as the query holds ASCII characters only.

use vstd::prelude::*;
use vstd::string::StringExecFns;
use vstd::string::StrSliceExecFns;
use crate::cursor;
use crate::cursor::csi;
use crate::pattern::{
    find_matches, regex_compiles, regex_matches, word_end, word_end_pattern, word_start,
    word_start_pattern,
};
use crate::text::{chars_of, push_chars, string_of};

verus! {

/// Where the cursor goes to the left: the start of the last of the matches
/// `spans[..n]` that starts before `position`, or `position` where there is
/// none.
pub open spec fn last_start_before(spans: Seq<(usize, usize)>, position: int, n: int) -> int
    decreases n,
{
    if n <= 0 {
        position
    } else if spans[n - 1].0 < position {
        spans[n - 1].0 as int
    } else {
        last_start_before(spans, position, n - 1)
    }
}

/// The first of the matches `spans[..n]` that starts after `position`, if
/// there is one.
pub open spec fn first_after(spans: Seq<(usize, usize)>, position: int, n: int) -> Option<
    (usize, usize),
>
    decreases n,
{
    if n <= 0 {
        None
    } else {
        match first_after(spans, position, n - 1) {
            Some(span) => Some(span),
            None => if spans[n - 1].0 > position {
                Some(spans[n - 1])
            } else {
                None
            },
        }
    }
}

/// `chars` without the characters from `from` up to `to`.
pub open spec fn without(chars: Seq<char>, from: int, to: int) -> Seq<char> {
    if from < to {
        chars.take(from) + chars.skip(to)
    } else {
        chars
    }
}

/// The query, the cursor, and the prompt that is drawn before the query.
pub struct Search {
    query: Vec<char>,
    position: usize,
    prompt: String,
}

impl Search {
    /// The characters of the query.
    pub closed spec fn chars(&self) -> Seq<char> {
        self.query@
    }

    /// The number of characters before the cursor.
    pub closed spec fn cursor(&self) -> int {
        self.position as int
    }

    /// The prompt.
    pub closed spec fn prompt_text(&self) -> Seq<char> {
        self.prompt@
    }

    /// The cursor lies within the query, or at its end.
    pub open spec fn wf(&self) -> bool {
        0 <= self.cursor() <= self.chars().len()
    }

    /// The line that shows the query: the line cleared, the prompt, the
    /// query, and the cursor at its column.
    pub open spec fn line(&self) -> Seq<char> {
        seq!['\x1B', '[', '2', 'K', '\r'] + self.prompt_text() + self.chars() + csi(
            (self.prompt_text().len() + self.cursor() + 1) as nat,
            'G',
        )
    }

    /// This query with `chars` for its characters and the cursor at `cursor`.
    pub open spec fn becomes(&self, old: &Self, chars: Seq<char>, cursor: int) -> bool {
        &&& self.wf()
        &&& self.prompt_text() == old.prompt_text()
        &&& self.chars() == chars
        &&& self.cursor() == cursor
    }

    /// An empty query behind `prompt`.
    pub fn new(prompt: &str) -> (r: Search)
        ensures
            r.wf(),
            r.prompt_text() == prompt@,
            r.chars() == Seq::<char>::empty(),
            r.cursor() == 0,
    {
        Search { query: Vec::new(), position: 0, prompt: String::from_str(prompt) }
    }

    /// The characters of the query.
    pub fn query(&self) -> (q: &Vec<char>)
        ensures
            q@ == self.chars(),
    {
        &self.query
    }

    /// The number of characters before the cursor.
    pub fn position(&self) -> (p: usize)
        ensures
            p == self.cursor(),
    {
        self.position
    }

    /// The line that shows the query.
    pub fn draw(&self) -> (r: String)
        requires
            self.wf(),
        ensures
            r@ == self.line(),
    {
        proof {
            reveal_strlit("\r");
        }
        let prompt_len: usize = self.prompt.as_str().unicode_len();
        let current_col: u128 = (prompt_len as u128) + (self.position as u128) + 1;
        let mut r = String::from_str(cursor::clear_line());
        r.append("\r");
        r.append(self.prompt.as_str());
        push_chars(&mut r, &self.query);
        let col = cursor::sequence(current_col, 'G');
        r.append(col.as_str());
        assert(r@ =~= self.line());
        r
    }

    /// Puts `character` in at the cursor, and the cursor behind it.
    pub fn keypress(&mut self, character: char) -> (r: String)
        requires
            old(self).wf(),
        ensures
            final(self).becomes(
                old(self),
                old(self).chars().insert(old(self).cursor(), character),
                old(self).cursor() + 1,
            ),
            r@ == final(self).line(),
    {
        self.query.insert(self.position, character);
        let _len: usize = self.query.len();
        self.position = self.position + 1;
        self.draw()
    }

    /// Takes out the character before the cursor, if there is one.
    pub fn backspace(&mut self) -> (r: Option<String>)
        requires
            old(self).wf(),
        ensures
            r.is_some() == (old(self).cursor() > 0),
            r matches Some(line) ==> final(self).becomes(
                old(self),
                old(self).chars().remove(old(self).cursor() - 1),
                old(self).cursor() - 1,
            ) && line@ == final(self).line(),
            r.is_none() ==> final(self).becomes(old(self), old(self).chars(), old(self).cursor()),
    {
        if self.position > 0 {
            self.position = self.position - 1;
            self.query.remove(self.position);
            Some(self.draw())
        } else {
            None
        }
    }

    /// Takes out the character at the cursor, if there is one.
    pub fn delete(&mut self) -> (r: Option<String>)
        requires
            old(self).wf(),
        ensures
            r.is_some() == (old(self).cursor() < old(self).chars().len()),
            r matches Some(line) ==> final(self).becomes(
                old(self),
                old(self).chars().remove(old(self).cursor()),
                old(self).cursor(),
            ) && line@ == final(self).line(),
            r.is_none() ==> final(self).becomes(old(self), old(self).chars(), old(self).cursor()),
    {
        if self.position != self.query.len() {
            self.query.remove(self.position);
            Some(self.draw())
        } else {
            None
        }
    }

    /// Moves the cursor one character to the left, if it is not at the start.
    pub fn left(&mut self) -> (r: Option<&'static str>)
        requires
            old(self).wf(),
        ensures
            r.is_some() == (old(self).cursor() > 0),
            r matches Some(text) ==> text@ == csi(1, 'D'),
            final(self).becomes(
                old(self),
                old(self).chars(),
                if old(self).cursor() > 0 {
                    old(self).cursor() - 1
                } else {
                    old(self).cursor()
                },
            ),
    {
        if self.position > 0 {
            self.position = self.position - 1;
            Some(cursor::left())
        } else {
            None
        }
    }

    /// Moves the cursor one character to the right, if it is not at the end.
    pub fn right(&mut self) -> (r: Option<&'static str>)
        requires
            old(self).wf(),
        ensures
            r.is_some() == (old(self).cursor() < old(self).chars().len()),
            r matches Some(text) ==> text@ == csi(1, 'C'),
            final(self).becomes(
                old(self),
                old(self).chars(),
                if old(self).cursor() < old(self).chars().len() {
                    old(self).cursor() + 1
                } else {
                    old(self).cursor()
                },
            ),
    {
        if self.query.len() != self.position {
            self.position = self.position + 1;
            Some(cursor::right())
        } else {
            None
        }
    }

    /// Empties the query.
    pub fn clear(&mut self) -> (r: String)
        ensures
            final(self).becomes(old(self), Seq::empty(), 0),
            r@ == final(self).line(),
    {
        self.query = Vec::new();
        self.position = 0;
        self.draw()
    }

    /// Makes `text` the query, with the cursor at its end.
    pub fn set_query(&mut self, text: &str) -> (r: String)
        ensures
            final(self).becomes(old(self), text@, text@.len() as int),
            r@ == final(self).line(),
    {
        self.query = chars_of(text);
        self.position = self.query.len();
        self.draw()
    }

    /// Moves the cursor to the start of the last of the words `words` that
    /// starts before it, if there is one.
    pub fn left_word_from(&mut self, words: &Vec<(usize, usize)>) -> (r: String)
        requires
            old(self).wf(),
        ensures
            final(self).becomes(
                old(self),
                old(self).chars(),
                last_start_before(words@, old(self).cursor(), words@.len() as int),
            ),
            r@ == final(self).line(),
    {
        proof {
            lemma_start_before(words@, self.position as int, words@.len() as int);
        }
        self.position = start_before(words, self.position);
        self.draw()
    }

    /// The first characters of the words of the query, as a search with
    /// `\b\w` finds them.
    pub open spec fn word_starts(&self) -> Seq<(usize, usize)> {
        regex_matches(word_start(), self.chars())
    }

    /// The last characters of the words of the query, as a search with
    /// `\w\b` finds them.
    pub open spec fn word_ends(&self) -> Seq<(usize, usize)> {
        regex_matches(word_end(), self.chars())
    }

    /// Where `left_word` puts the cursor: at the start of the word before
    /// it, or where it is, if the words cannot be searched for.
    pub open spec fn after_left_word(&self) -> int {
        if regex_compiles(word_start()) {
            last_start_before(self.word_starts(), self.cursor(), self.word_starts().len() as int)
        } else {
            self.cursor()
        }
    }

    /// Moves the cursor to the start of the word before it: of the last
    /// match of `\b\w` in the query that starts before the cursor.
    pub fn left_word(&mut self) -> (r: String)
        requires
            old(self).wf(),
        ensures
            final(self).becomes(old(self), old(self).chars(), old(self).after_left_word()),
            r@ == final(self).line(),
    {
        let text = string_of(&self.query);
        match find_matches(word_start_pattern(), text.as_str()) {
            Some(words) => self.left_word_from(&words),
            None => self.draw(),
        }
    }

    /// Where `right_word_from` puts the cursor: at the start of the first of
    /// `words` that starts after it, or at the end of the query where there
    /// is none.
    pub open spec fn right_target(&self, words: Seq<(usize, usize)>) -> int {
        match first_after(words, self.cursor(), words.len() as int) {
            Some(span) => span.0 as int,
            None => self.chars().len() as int,
        }
    }

    /// Moves the cursor to the start of the first of the words `words` that
    /// starts after it, or to the end of the query where there is none.
    pub fn right_word_from(&mut self, words: &Vec<(usize, usize)>) -> (r: String)
        requires
            old(self).wf(),
            old(self).right_target(words@) <= old(self).chars().len(),
        ensures
            final(self).becomes(old(self), old(self).chars(), old(self).right_target(words@)),
            r@ == final(self).line(),
    {
        match span_after(words, self.position) {
            Some(span) => {
                self.position = span.0;
            },
            None => {
                self.position = self.query.len();
            },
        }
        self.draw()
    }

    /// Where `right_word` puts the cursor: at the start of the word after it,
    /// or at the end of the query where there is none; or where it is, if
    /// the words cannot be searched for or that start lies beyond the end
    /// of the query.
    pub open spec fn after_right_word(&self) -> int {
        if regex_compiles(word_start()) && self.right_target(self.word_starts())
            <= self.chars().len() {
            self.right_target(self.word_starts())
        } else {
            self.cursor()
        }
    }

    /// Moves the cursor to the start of the word after it: of the first
    /// match of `\b\w` in the query that starts after the cursor, or to the
    /// end of the query where there is none.
    pub fn right_word(&mut self) -> (r: String)
        requires
            old(self).wf(),
        ensures
            final(self).becomes(old(self), old(self).chars(), old(self).after_right_word()),
            r@ == final(self).line(),
    {
        let text = string_of(&self.query);
        match find_matches(word_start_pattern(), text.as_str()) {
            Some(words) => {
                let within = match span_after(&words, self.position) {
                    Some(span) => span.0 <= self.query.len(),
                    None => true,
                };
                if within {
                    self.right_word_from(&words)
                } else {
                    self.draw()
                }
            },
            None => self.draw(),
        }
    }

    /// Takes out the characters between the cursor and the start of the
    /// last of the words `words` that starts before it.
    pub fn backspace_word_from(&mut self, words: &Vec<(usize, usize)>) -> (r: String)
        requires
            old(self).wf(),
        ensures
            final(self).becomes(
                old(self),
                without(
                    old(self).chars(),
                    last_start_before(words@, old(self).cursor(), words@.len() as int),
                    old(self).cursor(),
                ),
                last_start_before(words@, old(self).cursor(), words@.len() as int),
            ),
            r@ == final(self).line(),
    {
        let new_position = start_before(words, self.position);
        proof {
            lemma_start_before(words@, self.position as int, words@.len() as int);
        }
        let to = self.position;
        self.remove_span(new_position, to);
        self.position = new_position;
        self.draw()
    }

    /// What `backspace_word` leaves of the query: it goes without the
    /// characters between the cursor and where `left_word` would put it.
    pub open spec fn after_backspace_word(&self) -> Seq<char> {
        without(self.chars(), self.after_left_word(), self.cursor())
    }

    /// Takes out the characters between the cursor and the start of the
    /// word before it, found as by `left_word`, and puts the cursor there.
    pub fn backspace_word(&mut self) -> (r: String)
        requires
            old(self).wf(),
        ensures
            final(self).becomes(
                old(self),
                old(self).after_backspace_word(),
                old(self).after_left_word(),
            ),
            r@ == final(self).line(),
    {
        let text = string_of(&self.query);
        match find_matches(word_start_pattern(), text.as_str()) {
            Some(words) => self.backspace_word_from(&words),
            None => self.draw(),
        }
    }

    /// Up to where `delete_word_from` takes characters out: the end of the
    /// first of `ends` that starts after the cursor, or the end of the query
    /// where there is none.
    pub open spec fn delete_target(&self, ends: Seq<(usize, usize)>) -> int {
        match first_after(ends, self.cursor(), ends.len() as int) {
            Some(span) => span.1 as int,
            None => self.chars().len() as int,
        }
    }

    /// Takes out the characters from the cursor up to the end of the first
    /// of the word ends `ends` that starts after the cursor, or up to the
    /// end of the query where there is none.
    pub fn delete_word_from(&mut self, ends: &Vec<(usize, usize)>) -> (r: String)
        requires
            old(self).wf(),
            old(self).delete_target(ends@) <= old(self).chars().len(),
        ensures
            final(self).becomes(
                old(self),
                without(old(self).chars(), old(self).cursor(), old(self).delete_target(ends@)),
                old(self).cursor(),
            ),
            r@ == final(self).line(),
    {
        let new_position = match span_after(ends, self.position) {
            Some(span) => span.1,
            None => self.query.len(),
        };
        let from = self.position;
        self.remove_span(from, new_position);
        self.draw()
    }

    /// What `delete_word` leaves of the query: it goes without the characters
    /// from the cursor up to the end of the word after it, or up to its own
    /// end where there is none; or stays whole, if the words cannot be
    /// searched for or that end lies beyond the end of the query.
    pub open spec fn after_delete_word(&self) -> Seq<char> {
        if regex_compiles(word_end()) && self.delete_target(self.word_ends())
            <= self.chars().len() {
            without(self.chars(), self.cursor(), self.delete_target(self.word_ends()))
        } else {
            self.chars()
        }
    }

    /// Takes out the characters from the cursor up to the end of the word
    /// after it: the end of the first match of `\w\b` in the query that
    /// starts after the cursor, or the end of the query where there is none.
    pub fn delete_word(&mut self) -> (r: String)
        requires
            old(self).wf(),
        ensures
            final(self).becomes(old(self), old(self).after_delete_word(), old(self).cursor()),
            r@ == final(self).line(),
    {
        let text = string_of(&self.query);
        match find_matches(word_end_pattern(), text.as_str()) {
            Some(ends) => {
                let within = match span_after(&ends, self.position) {
                    Some(span) => span.1 <= self.query.len(),
                    None => true,
                };
                if within {
                    self.delete_word_from(&ends)
                } else {
                    self.draw()
                }
            },
            None => self.draw(),
        }
    }

    /// Takes out the characters from `from` up to `to`; the cursor stays.
    fn remove_span(&mut self, from: usize, to: usize)
        requires
            to <= old(self).query@.len(),
        ensures
            final(self).query@ == without(old(self).query@, from as int, to as int),
            final(self).position == old(self).position,
            final(self).prompt == old(self).prompt,
    {
        if to <= from {
            return ;
        }
        let mut k: usize = from;
        assert(self.query@ =~= old(self).query@.take(from as int) + old(self).query@.skip(k as int));
        while k < to
            invariant
                from <= k <= to,
                to <= old(self).query@.len(),
                self.position == old(self).position,
                self.prompt == old(self).prompt,
                self.query@ == old(self).query@.take(from as int) + old(self).query@.skip(k as int),
            decreases to - k,
        {
            self.query.remove(from);
            k = k + 1;
            assert(self.query@ =~= old(self).query@.take(from as int) + old(self).query@.skip(
                k as int,
            ));
        }
    }
}

/// The start of the last of `words` that starts before `position`, or
/// `position` where there is none.
fn start_before(words: &Vec<(usize, usize)>, position: usize) -> (r: usize)
    ensures
        r == last_start_before(words@, position as int, words@.len() as int),
{
    let mut new_position = position;
    let mut k: usize = 0;
    while k < words.len()
        invariant
            k <= words@.len(),
            new_position == last_start_before(words@, position as int, k as int),
        decreases words@.len() - k,
    {
        if words[k].0 < position {
            new_position = words[k].0;
        }
        k = k + 1;
    }
    new_position
}

/// The first of `spans` that starts after `position`, if there is one.
fn span_after(spans: &Vec<(usize, usize)>, position: usize) -> (r: Option<(usize, usize)>)
    ensures
        r == first_after(spans@, position as int, spans@.len() as int),
{
    let mut found: Option<(usize, usize)> = None;
    let mut k: usize = 0;
    while k < spans.len()
        invariant
            k <= spans@.len(),
            found == first_after(spans@, position as int, k as int),
        decreases spans@.len() - k,
    {
        if found.is_none() && spans[k].0 > position {
            found = Some(spans[k]);
        }
        k = k + 1;
    }
    found
}

/// A start before `position` is no greater than `position`.
proof fn lemma_start_before(spans: Seq<(usize, usize)>, position: int, n: int)
    requires
        0 <= position,
    ensures
        0 <= last_start_before(spans, position, n) <= position,
    decreases n,
{
    if n > 0 {
        lemma_start_before(spans, position, n - 1);
    }
}

} // verus!
