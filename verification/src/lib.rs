//! Core of an interactive fuzzy selector for the terminal: the scorer, the
//! ranked and windowed list of matches, the editable query, and the text
//! that draws them.
//!
//! Nothing here reads a key or writes to a terminal. A session is a value
//! of `App`: the caller hands it one key at a time, and gets back what to
//! print and whether the session has ended.

use vstd::prelude::*;
use vstd::string::StringExecFns;

pub mod bonus;
pub mod choice;
pub mod choices;
pub mod color;
pub mod config;
pub mod cursor;
pub mod fixed;
pub mod input;
pub mod matcher;
pub mod matrix;
pub mod pattern;
pub mod scorer;
pub mod search;
pub mod text;

use crate::choice::Choice;
use crate::choices::{ranked, Choices};
use crate::config::Config;
use crate::search::Search;

verus! {

/// A key, as the terminal delivers it.
#[derive(Clone, Copy, PartialEq, Eq, Structural, Debug)]
pub enum Key {
    /// A character typed; the line feed stands for `Enter`, the tabulator
    /// for `Tab`.
    Char(char),
    Backspace,
    Left,
    Right,
    Up,
    Down,
    /// A character typed with the control key.
    Ctrl(char),
    /// A character typed with the alt key.
    Alt(char),
    Enter,
    Esc,
    Tab,
}

/// What to do after a key.
pub struct Step {
    /// What to write to the terminal, in one piece.
    pub print: String,
    /// The line to write to the standard output, if a match was chosen.
    pub output: Option<String>,
    /// The exit code, if the session has ended.
    pub exit: Option<i32>,
}

/// What a key asks for.
pub enum Action {
    /// Put a character into the query.
    Insert(char),
    /// Take out the character before the cursor.
    Backspace,
    /// Take out the character at the cursor.
    Delete,
    /// Empty the query.
    Clear,
    /// Move the cursor one character to the left.
    Left,
    /// Move the cursor one character to the right.
    Right,
    /// Move the cursor to the start of the word before it.
    LeftWord,
    /// Move the cursor to the start of the word after it.
    RightWord,
    /// Take out the word before the cursor.
    BackspaceWord,
    /// Take out the word after the cursor.
    DeleteWord,
    /// Select the match above the selected one.
    Previous,
    /// Select the match below the selected one.
    Next,
    /// Make the selected match the query.
    Complete,
    /// End the session with the selected match.
    Select,
    /// End the session without a match.
    Cancel,
    /// Nothing.
    Ignore,
}

/// What `key` asks for.
pub open spec fn action_of(key: Key) -> Action {
    match key {
        Key::Char(c) => if c == '\n' {
            Action::Select
        } else if c == '\t' {
            Action::Complete
        } else {
            Action::Insert(c)
        },
        Key::Enter => Action::Select,
        Key::Tab => Action::Complete,
        Key::Backspace => Action::Backspace,
        Key::Left => Action::Left,
        Key::Right => Action::Right,
        Key::Up => Action::Previous,
        Key::Down => Action::Next,
        Key::Esc => Action::Cancel,
        Key::Ctrl(c) => if c == 'c' {
            Action::Cancel
        } else if c == 'd' {
            Action::Delete
        } else if c == 'u' {
            Action::Clear
        } else {
            Action::Ignore
        },
        Key::Alt(c) => if c == 'b' {
            Action::LeftWord
        } else if c == 'f' {
            Action::RightWord
        } else if c == '\x7F' {
            Action::BackspaceWord
        } else if c == 'd' {
            Action::DeleteWord
        } else {
            Action::Ignore
        },
    }
}

/// Tells what `key` asks for.
pub fn action(key: Key) -> (a: Action)
    ensures
        a == action_of(key),
{
    match key {
        Key::Char(c) => if c == '\n' {
            Action::Select
        } else if c == '\t' {
            Action::Complete
        } else {
            Action::Insert(c)
        },
        Key::Enter => Action::Select,
        Key::Tab => Action::Complete,
        Key::Backspace => Action::Backspace,
        Key::Left => Action::Left,
        Key::Right => Action::Right,
        Key::Up => Action::Previous,
        Key::Down => Action::Next,
        Key::Esc => Action::Cancel,
        Key::Ctrl(c) => if c == 'c' {
            Action::Cancel
        } else if c == 'd' {
            Action::Delete
        } else if c == 'u' {
            Action::Clear
        } else {
            Action::Ignore
        },
        Key::Alt(c) => if c == 'b' {
            Action::LeftWord
        } else if c == 'f' {
            Action::RightWord
        } else if c == '\x7F' {
            Action::BackspaceWord
        } else if c == 'd' {
            Action::DeleteWord
        } else {
            Action::Ignore
        },
    }
}

/// A session: the query and the list of matches.
pub struct App<'a> {
    search: Search,
    choices: Choices<'a>,
}

impl<'a> App<'a> {
    /// The query.
    pub closed spec fn query(&self) -> Search {
        self.search
    }

    /// The list of matches.
    pub closed spec fn list(&self) -> Choices<'a> {
        self.choices
    }

    /// The query and the list are well formed.
    pub open spec fn wf(&self) -> bool {
        self.query().wf() && self.list().wf()
    }

    /// Whether the session went on from `old` with the query as it stands now,
    /// the list ranked anew under it, and `step` redrawing both.
    pub open spec fn refiltered(&self, old: &Self, step: &Step) -> bool {
        &&& self.list().same_setup(&old.list())
        &&& ranked(self.list().candidates(), self.query().chars(), self.list().rows())
        &&& self.list().selection() == 0
        &&& step.print@ == self.query().line() + self.list().frame()
        &&& step.output is None
        &&& step.exit is None
    }

    /// Whether the query holds what it held in `old`, with the cursor where
    /// it was.
    pub open spec fn same_query(&self, old: &Self) -> bool {
        self.query().becomes(&old.query(), old.query().chars(), old.query().cursor())
    }

    /// Whether the session went on from `old` without any change, and `step`
    /// prints nothing.
    pub open spec fn ignored(&self, old: &Self, step: &Step) -> bool {
        &&& self.same_query(old)
        &&& self.list() == old.list()
        &&& step.print@ == Seq::<char>::empty()
        &&& step.output is None
        &&& step.exit is None
    }

    /// Whether `new` and `step` are what `action` makes of the session `old`.
    pub open spec fn acts(old: &Self, action: Action, new: &Self, step: &Step) -> bool {
        let q = old.query();
        match action {
            Action::Insert(c) => new.query().becomes(
                &q,
                q.chars().insert(q.cursor(), c),
                q.cursor() + 1,
            ) && new.refiltered(old, step),
            Action::Backspace => if q.cursor() > 0 {
                new.query().becomes(&q, q.chars().remove(q.cursor() - 1), q.cursor() - 1)
                    && new.refiltered(old, step)
            } else {
                new.ignored(old, step)
            },
            Action::Delete => if q.cursor() < q.chars().len() {
                new.query().becomes(&q, q.chars().remove(q.cursor()), q.cursor())
                    && new.refiltered(old, step)
            } else {
                new.ignored(old, step)
            },
            Action::Clear => new.query().becomes(&q, Seq::empty(), 0) && new.refiltered(old, step),
            Action::Left => {
                &&& new.list() == old.list()
                &&& step.output is None
                &&& step.exit is None
                &&& if q.cursor() > 0 {
                    new.query().becomes(&q, q.chars(), q.cursor() - 1) && step.print@
                        == cursor::csi(1, 'D')
                } else {
                    new.same_query(old) && step.print@ == Seq::<char>::empty()
                }
            },
            Action::Right => {
                &&& new.list() == old.list()
                &&& step.output is None
                &&& step.exit is None
                &&& if q.cursor() < q.chars().len() {
                    new.query().becomes(&q, q.chars(), q.cursor() + 1) && step.print@
                        == cursor::csi(1, 'C')
                } else {
                    new.same_query(old) && step.print@ == Seq::<char>::empty()
                }
            },
            Action::LeftWord => new.query().becomes(&q, q.chars(), q.after_left_word())
                && new.refiltered(old, step),
            Action::RightWord => new.query().becomes(&q, q.chars(), q.after_right_word())
                && new.refiltered(old, step),
            Action::BackspaceWord => new.query().becomes(
                &q,
                q.after_backspace_word(),
                q.after_left_word(),
            ) && new.refiltered(old, step),
            Action::DeleteWord => new.query().becomes(&q, q.after_delete_word(), q.cursor())
                && new.refiltered(old, step),
            Action::Previous => {
                &&& new.same_query(old)
                &&& new.list().same_setup(&old.list())
                &&& new.list().rows() == old.list().rows()
                &&& new.list().selection() == (if old.list().rows().len() == 0 {
                    0
                } else if old.list().selection() == 0 {
                    old.list().rows().len() - 1
                } else {
                    old.list().selection() - 1
                })
                &&& step.print@ == new.list().frame()
                &&& step.output is None
                &&& step.exit is None
            },
            Action::Next => {
                &&& new.same_query(old)
                &&& new.list().same_setup(&old.list())
                &&& new.list().rows() == old.list().rows()
                &&& new.list().selection() == (if old.list().rows().len() == 0 {
                    0
                } else if old.list().selection() == old.list().rows().len() - 1 {
                    0
                } else {
                    old.list().selection() + 1
                })
                &&& step.print@ == new.list().frame()
                &&& step.output is None
                &&& step.exit is None
            },
            Action::Complete => if old.list().rows().len() > 0 {
                let text = old.list().rows()[old.list().selection()].candidate().text();
                new.query().becomes(&q, text, text.len() as int) && new.refiltered(old, step)
            } else {
                new.ignored(old, step)
            },
            Action::Select => if old.list().rows().len() > 0 {
                &&& new.same_query(old)
                &&& new.list() == old.list()
                &&& step.print@ == seq!['\r', '\x1B', '[', 'J']
                &&& step.output matches Some(line) && line@ == old.list().rows()[old.list().selection()].candidate().output()
                    + seq!['\n']
                &&& step.exit == Some(0i32)
            } else {
                new.ignored(old, step)
            },
            Action::Cancel => {
                &&& new.same_query(old)
                &&& new.list() == old.list()
                &&& step.print@ == seq!['\r', '\x1B', '[', 'J']
                &&& step.output is None
                &&& step.exit == Some(1i32)
            },
            Action::Ignore => new.ignored(old, step),
        }
    }

    /// A session over `candidates` with the settings of `config`: an empty
    /// query behind the prompt, and a list that holds no match until the
    /// session starts.
    pub fn new(config: &Config, candidates: &'a [Choice]) -> (r: App<'a>)
        requires
            forall|i: int| 0 <= i < candidates@.len() ==> (#[trigger] candidates@[i]).wf(),
        ensures
            r.wf(),
            r.query().prompt_text() == config.prompt@,
            r.query().chars() == Seq::<char>::empty(),
            r.query().cursor() == 0,
            r.list().candidates() == candidates@,
            r.list().height() == config.lines,
            r.list().scored() == config.show_scores,
            r.list().rows().len() == 0,
    {
        App {
            search: Search::new(config.prompt.as_str()),
            choices: Choices::new(config.lines, candidates, config.show_scores),
        }
    }

    /// Starts the session and gives what draws it for the first time: the
    /// list of all candidates; then, with a first query, that query and the
    /// list ranked under it, and without one, the empty query.
    pub fn start(&mut self, query: Option<&str>) -> (print: String)
        requires
            old(self).wf(),
        ensures
            final(self).wf(),
            final(self).list().same_setup(&old(self).list()),
            final(self).list().selection() == 0,
            final(self).query().becomes(
                &old(self).query(),
                match query {
                    Some(text) => text@,
                    None => old(self).query().chars(),
                },
                match query {
                    Some(text) => text@.len() as int,
                    None => old(self).query().cursor(),
                },
            ),
            ranked(
                final(self).list().candidates(),
                match query {
                    Some(text) => text@,
                    None => Seq::empty(),
                },
                final(self).list().rows(),
            ),
            query is None ==> print@ == final(self).list().first_frame()
                + final(self).query().line(),
            query is Some ==> exists|first: Choices<'a>|
                {
                    &&& first.same_setup(&old(self).list())
                    &&& first.selection() == 0
                    &&& ranked(first.candidates(), Seq::empty(), first.rows())
                    &&& print@ == #[trigger] first.first_frame() + final(self).query().line()
                        + final(self).list().frame()
                },
    {
        let mut print = self.choices.initial_draw();
        let ghost first = self.choices;
        match query {
            Some(text) => {
                let line = self.search.set_query(text);
                print.append(line.as_str());
                let frame = self.choices.filter(self.search.query().as_slice());
                print.append(frame.as_str());
                assert(print@ == first.first_frame() + self.query().line() + self.list().frame());
            },
            None => {
                let line = self.search.draw();
                print.append(line.as_str());
            },
        }
        print
    }

    /// Ranks the candidates under `query` a hundred times over, and draws
    /// nothing.
    pub fn benchmark(&mut self, query: &str)
        requires
            old(self).wf(),
        ensures
            final(self).wf(),
            final(self).query() == old(self).query(),
            final(self).list().same_setup(&old(self).list()),
            final(self).list().selection() == 0,
            ranked(final(self).list().candidates(), query@, final(self).list().rows()),
    {
        let chars = crate::text::chars_of(query);
        let _first = self.choices.filter(chars.as_slice());
        let mut pass: usize = 1;
        while pass < 100
            invariant
                self.wf(),
                chars@ == query@,
                self.query() == old(self).query(),
                self.list().same_setup(&old(self).list()),
                self.list().selection() == 0,
                ranked(self.list().candidates(), query@, self.list().rows()),
            decreases 100 - pass,
        {
            let _again = self.choices.filter(chars.as_slice());
            pass = pass + 1;
        }
    }

    /// Takes one key: changes the query or the selection as the key asks,
    /// and tells what to print and whether the session has ended.
    pub fn step(&mut self, key: Key) -> (step: Step)
        requires
            old(self).wf(),
        ensures
            final(self).wf(),
            App::acts(old(self), action_of(key), final(self), &step),
    {
        match action(key) {
            Action::Insert(c) => {
                let line = self.search.keypress(c);
                self.refilter(line)
            },
            Action::Backspace => match self.search.backspace() {
                Some(line) => self.refilter(line),
                None => nothing(),
            },
            Action::Delete => match self.search.delete() {
                Some(line) => self.refilter(line),
                None => nothing(),
            },
            Action::Clear => {
                let line = self.search.clear();
                self.refilter(line)
            },
            Action::Left => match self.search.left() {
                Some(text) => Step { print: String::from_str(text), output: None, exit: None },
                None => nothing(),
            },
            Action::Right => match self.search.right() {
                Some(text) => Step { print: String::from_str(text), output: None, exit: None },
                None => nothing(),
            },
            Action::LeftWord => {
                let line = self.search.left_word();
                self.refilter(line)
            },
            Action::RightWord => {
                let line = self.search.right_word();
                self.refilter(line)
            },
            Action::BackspaceWord => {
                let line = self.search.backspace_word();
                self.refilter(line)
            },
            Action::DeleteWord => {
                let line = self.search.delete_word();
                self.refilter(line)
            },
            Action::Previous => Step { print: self.choices.previous(), output: None, exit: None },
            Action::Next => Step { print: self.choices.next(), output: None, exit: None },
            Action::Complete => {
                if self.choices.len() > 0 {
                    let line = self.search.set_query(self.choices.current_match().searchable());
                    self.refilter(line)
                } else {
                    nothing()
                }
            },
            Action::Select => {
                if self.choices.len() > 0 {
                    let (print, line) = self.choices.select();
                    Step { print, output: Some(line), exit: Some(0) }
                } else {
                    nothing()
                }
            },
            Action::Cancel => Step { print: self.choices.cancel(), output: None, exit: Some(1) },
            Action::Ignore => nothing(),
        }
    }

    /// Ranks the candidates under the query as it stands, and gives the
    /// step that draws `line` and the list.
    fn refilter(&mut self, line: String) -> (step: Step)
        requires
            old(self).wf(),
            line@ == old(self).query().line(),
        ensures
            final(self).wf(),
            final(self).query() == old(self).query(),
            final(self).refiltered(old(self), &step),
    {
        let mut print = line;
        let frame = self.choices.filter(self.search.query().as_slice());
        print.append(frame.as_str());
        Step { print, output: None, exit: None }
    }
}

/// The step that prints nothing and goes on.
fn nothing() -> (step: Step)
    ensures
        step.print@ == Seq::<char>::empty(),
        step.output is None,
        step.exit is None,
{
    Step { print: String::new(), output: None, exit: None }
}

} // verus!
