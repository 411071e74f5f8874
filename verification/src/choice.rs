//! A candidate: one line of input, with what the scorer needs of it worked
//! out once.

use vstd::prelude::*;
use vstd::string::StringExecFns;
use crate::bonus;
use crate::config::Config;
use crate::pattern::{regex_compiles, regex_split, split_fields};
use crate::text::{chars_of, lowered, to_lowered};

verus! {

/// Whether `field`, and `output` where there is one, name fields among
/// `count` of them.
pub open spec fn fields_named(count: nat, field: Option<usize>, output: Option<usize>) -> bool {
    &&& field matches Some(f) && f < count
    &&& output matches Some(o) ==> o < count
}

/// A candidate. It never changes once made.
pub struct Choice {
    searchable: String,
    lower_searchable: Vec<char>,
    searchable_len: usize,
    returnable: String,
    bonus: Vec<i128>,
}

impl Choice {
    /// The text that queries are matched against.
    pub closed spec fn text(&self) -> Seq<char> {
        self.searchable@
    }

    /// The text that is written out when this candidate is chosen.
    pub closed spec fn output(&self) -> Seq<char> {
        self.returnable@
    }

    /// The folded text, the length and the bonuses agree with the text.
    pub closed spec fn wf(&self) -> bool {
        &&& self.lower_searchable@ == lowered(self.searchable@)
        &&& self.searchable_len == self.searchable@.len()
        &&& self.bonus@.len() == self.searchable@.len()
        &&& forall|i: int|
            0 <= i < self.bonus@.len() ==> self.bonus@[i] == bonus::bonus_at(self.searchable@, i)
    }

    /// A candidate that is matched against `searchable` and written out as
    /// `returnable`.
    pub fn of(searchable: &str, returnable: &str) -> (c: Choice)
        ensures
            c.wf(),
            c.text() == searchable@,
            c.output() == returnable@,
    {
        let (bonus, searchable_len, lower_searchable) = parse_searchable(searchable);
        Choice {
            searchable: String::from_str(searchable),
            lower_searchable,
            searchable_len,
            returnable: String::from_str(returnable),
            bonus,
        }
    }

    /// Whether this is the candidate made of `fields`: matched against
    /// field `field`, and written out as field `output`, or as the matched
    /// field where there is no `output`.
    pub open spec fn is_of_fields(
        &self,
        fields: Seq<Seq<char>>,
        field: Option<usize>,
        output: Option<usize>,
    ) -> bool {
        &&& self.wf()
        &&& fields_named(fields.len(), field, output)
        &&& self.text() == fields[field.unwrap() as int]
        &&& self.output() == fields[(match output {
            Some(o) => o,
            None => field.unwrap(),
        }) as int]
    }

    /// The candidate made of the fields of a line, where `field` and
    /// `output` name fields that the line has.
    pub fn from_fields(fields: &Vec<String>, field: Option<usize>, output: Option<usize>) -> (r:
        Option<Choice>)
        ensures
            r.is_some() == fields_named(fields@.len(), field, output),
            r matches Some(c) ==> c.is_of_fields(fields.deep_view(), field, output),
    {
        let f = match field {
            Some(f) => f,
            None => {
                return None;
            },
        };
        if f >= fields.len() {
            return None;
        }
        let o = match output {
            Some(o) => o,
            None => f,
        };
        if o >= fields.len() {
            return None;
        }
        let c = Choice::of(fields[f].as_str(), fields[o].as_str());
        proof {
            assert(fields.deep_view()[f as int] == fields@[f as int]@);
            assert(fields.deep_view()[o as int] == fields@[o as int]@);
        }
        Some(c)
    }

    /// Whether this is the candidate that `config` makes of the line
    /// `content`: without a delimiter the whole line is matched and written
    /// out; with one, the line is split at the matches of the delimiter,
    /// and the fields that `config` names are matched and written out.
    pub open spec fn comes_of(&self, content: Seq<char>, config: &Config) -> bool {
        &&& self.wf()
        &&& match config.delimiter {
            None => self.text() == content && self.output() == content,
            Some(pattern) => self.is_of_fields(
                regex_split(pattern@, content),
                config.field,
                config.output,
            ),
        }
    }

    /// Whether `config` makes a candidate of the line `content`: always
    /// without a delimiter; with one, where the delimiter is a regular
    /// expression and the line, split by it, has the fields that `config`
    /// names.
    pub open spec fn is_made(content: Seq<char>, config: &Config) -> bool {
        match config.delimiter {
            None => true,
            Some(pattern) => regex_compiles(pattern@) && fields_named(
                regex_split(pattern@, content).len(),
                config.field,
                config.output,
            ),
        }
    }

    /// The candidate that `config` makes of the line `content`. Without a
    /// delimiter there always is one. With a delimiter there is none where
    /// the delimiter is no regular expression, or where the line lacks one
    /// of the fields that `config` names.
    pub fn new(content: &str, config: &Config) -> (r: Option<Choice>)
        ensures
            r.is_some() == Choice::is_made(content@, config),
            r matches Some(c) ==> c.comes_of(content@, config),
    {
        match &config.delimiter {
            Some(pattern) => match split_fields(pattern.as_str(), content) {
                Some(fields) => Choice::from_fields(&fields, config.field, config.output),
                None => None,
            },
            None => Some(Choice::of(content, content)),
        }
    }

    /// The text that queries are matched against.
    pub fn searchable(&self) -> (s: &str)
        ensures
            s@ == self.text(),
    {
        self.searchable.as_str()
    }

    /// The text that is written out when this candidate is chosen.
    pub fn returnable(&self) -> (s: &str)
        ensures
            s@ == self.output(),
    {
        self.returnable.as_str()
    }

    /// The number of characters of the searchable text.
    pub fn len(&self) -> (n: usize)
        requires
            self.wf(),
        ensures
            n == self.text().len(),
    {
        self.searchable_len
    }

    /// The folded character at position `i`.
    pub fn lower_at(&self, i: usize) -> (c: char)
        requires
            self.wf(),
            i < self.text().len(),
        ensures
            c == crate::text::lower(self.text()[i as int]),
    {
        self.lower_searchable[i]
    }

    /// The bonus of position `i`, in thousandths.
    pub fn bonus_at(&self, i: usize) -> (b: i128)
        requires
            self.wf(),
            i < self.text().len(),
        ensures
            b == bonus::bonus_at(self.text(), i as int),
    {
        self.bonus[i]
    }
}

/// The bonuses, the length and the folded characters of `searchable`.
fn parse_searchable(searchable: &str) -> (r: (Vec<i128>, usize, Vec<char>))
    ensures
        r.0@.len() == searchable@.len(),
        forall|i: int| 0 <= i < r.0@.len() ==> r.0@[i] == bonus::bonus_at(searchable@, i),
        r.1 == searchable@.len(),
        r.2@ == lowered(searchable@),
{
    let chars = chars_of(searchable);
    let bonus = bonus::compute(chars.as_slice());
    let searchable_len = chars.len();
    let lower_searchable = to_lowered(chars.as_slice());
    (bonus, searchable_len, lower_searchable)
}

} // verus!
