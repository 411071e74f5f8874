//! A candidate that contains the query, with its score and the positions
//! that are highlighted when it is drawn.

use std::cmp::Ordering;
use vstd::prelude::*;
use vstd::string::StringExecFns;
use crate::choice::Choice;
use crate::color::{highlight, highlight_text, inverse, inverse_text};
use crate::fixed::{score_text, Fixed, Value};
use crate::scorer::{embeds, is_subsequence, positions_of, score_of, Score};
use crate::text::{chars_of, push_char, same_letter, to_lower};

verus! {

/// The characters of `text[..n]`, those at one of `places` wrapped in the
/// highlight colour.
pub open spec fn highlighted(text: Seq<char>, places: Seq<int>, n: int) -> Seq<char>
    decreases n,
{
    if n <= 0 {
        Seq::empty()
    } else {
        highlighted(text, places, n - 1) + (if places.contains(n - 1) {
            highlight_text(text[n - 1])
        } else {
            seq![text[n - 1]]
        })
    }
}

/// The score between brackets, and a space.
pub open spec fn score_label(score: Value) -> Seq<char> {
    seq!['('] + score_text(score) + seq![')', ' ']
}

/// A drawn row: the text with its highlights, after the score where scores
/// are shown, the whole in inverse video where the row is the selected one.
pub open spec fn drawn(
    text: Seq<char>,
    places: Seq<int>,
    score: Value,
    selected: bool,
    show_scores: bool,
) -> Seq<char> {
    let row = (if show_scores {
        score_label(score)
    } else {
        Seq::empty()
    }) + highlighted(text, places, text.len() as int);
    if selected {
        inverse_text(row)
    } else {
        row
    }
}

/// A candidate that contains the query.
pub struct Match<'a> {
    choice: &'a Choice,
    scorer: Score,
}

impl<'a> Match<'a> {
    /// The candidate.
    pub closed spec fn candidate(&self) -> &'a Choice {
        self.choice
    }

    /// The score of the candidate under the query.
    pub closed spec fn score(&self) -> Value {
        self.scorer.score@
    }

    /// The positions of the candidate at which the query's characters match.
    pub closed spec fn places(&self) -> Seq<int> {
        self.scorer.places()
    }

    /// The row as it is drawn.
    pub open spec fn drawing(&self, selected: bool, show_scores: bool) -> Seq<char> {
        drawn(self.candidate().text(), self.places(), self.score(), selected, show_scores)
    }

    /// Whether this match comes before `other` in the ranking: its score is
    /// the greater one.
    pub open spec fn outranks(&self, other: &Self) -> bool {
        !self.score().le(other.score())
    }

    /// Where this match stands to `other` in the ranking, which goes from
    /// the greatest score down: `Less` where it comes first, `Equal` where
    /// the scores are the same.
    pub open spec fn rank_of(&self, other: &Self) -> Ordering {
        if self.score() == other.score() {
            Ordering::Equal
        } else if self.outranks(other) {
            Ordering::Less
        } else {
            Ordering::Greater
        }
    }

    /// Whether this is what `new` gives for `query` and `choice`.
    pub open spec fn is_for(&self, query: Seq<char>, choice: &Choice) -> bool {
        &&& self.candidate() == choice
        &&& self.score() == score_of(query, choice.text())
        &&& self.places() == positions_of(query, choice.text())
    }

    /// Whether every character of `query` occurs in `choice`, in order,
    /// ASCII case set aside.
    pub fn is_match(query: &[char], choice: &Choice) -> (r: bool)
        requires
            choice.wf(),
        ensures
            r == is_subsequence(query@, choice.text()),
    {
        let ghost q = query@;
        let ghost t = choice.text();
        let n = choice.len();
        let mut i: usize = 0;
        let mut j: usize = 0;
        let ghost mut p: Seq<int> = Seq::empty();
        while i < query.len()
            invariant
                i <= q.len(),
                j <= n,
                n == t.len(),
                q == query@,
                t == choice.text(),
                choice.wf(),
                embeds(q.take(i as int), t, p),
                i == 0 ==> j == 0,
                i > 0 ==> p[i - 1] == j - 1,
                forall|o: Seq<int>|
                    i > 0 && embeds(q.take(i as int), t, o) ==> #[trigger] o[i - 1] >= j - 1,
            decreases q.len() - i,
        {
            let wanted = to_lower(query[i]);
            let ghost start = j;
            let mut found = false;
            // One pass over the candidate serves the whole query: the scan
            // for a character goes on where the scan for the one before ended.
            while j < n && !found
                invariant
                    start <= j <= n,
                    n == t.len(),
                    i < q.len(),
                    t == choice.text(),
                    choice.wf(),
                    wanted == crate::text::lower(q[i as int]),
                    !found ==> forall|k: int| start <= k < j ==> !same_letter(q[i as int], t[k]),
                    found ==> start < j && same_letter(q[i as int], t[j - 1]) && forall|k: int|
                        start <= k < j - 1 ==> !same_letter(q[i as int], t[k]),
                decreases n - j,
            {
                if choice.lower_at(j) == wanted {
                    found = true;
                }
                j = j + 1;
            }
            if !found {
                proof {
                    assert forall|o: Seq<int>| !embeds(q, t, o) by {
                        if embeds(q, t, o) {
                            lemma_prefix_embeds(q, t, o, i as int);
                            let head = o.take(i as int);
                            if i > 0 {
                                assert(head[i - 1] >= start - 1);
                                assert(o[i - 1] < o[i as int]);
                            }
                            assert(start <= o[i as int] < n);
                            assert(same_letter(q[i as int], t[o[i as int]]));
                        }
                    }
                }
                return false;
            }
            proof {
                let grown = p.push(j - 1);
                lemma_grown_embeds(q, t, p, i as int, j - 1);
                assert forall|o: Seq<int>| embeds(q.take(i + 1), t, o) implies #[trigger] o[i as int]
                    >= j - 1 by {
                    lemma_prefix_embeds(q.take(i + 1), t, o, i as int);
                    assert(q.take(i + 1).take(i as int) =~= q.take(i as int));
                    let head = o.take(i as int);
                    if i > 0 {
                        assert(head[i - 1] >= start - 1);
                        assert(o[i - 1] < o[i as int]);
                    }
                    assert(q.take(i + 1)[i as int] == q[i as int]);
                    assert(same_letter(q[i as int], t[o[i as int]]));
                }
                p = grown;
            }
            i = i + 1;
        }
        proof {
            assert(q.take(i as int) =~= q);
        }
        true
    }

    /// The match of `choice` under `query`, where `choice` contains `query`.
    pub fn new(query: &[char], choice: &'a Choice) -> (r: Option<Self>)
        requires
            choice.wf(),
        ensures
            r.is_some() == is_subsequence(query@, choice.text()),
            r matches Some(m) ==> m.is_for(query@, choice) && embeds(
                query@,
                choice.text(),
                m.places(),
            ),
    {
        if Self::is_match(query, choice) {
            Some(Self { choice, scorer: Score::new(query, choice) })
        } else {
            None
        }
    }

    /// The candidate.
    pub fn choice(&self) -> (c: &'a Choice)
        ensures
            c == self.candidate(),
    {
        self.choice
    }

    /// The score of the candidate under the query.
    pub fn value(&self) -> (v: Fixed)
        ensures
            v@ == self.score(),
    {
        self.scorer.score
    }

    /// The positions of the candidate at which the query's characters match.
    pub fn positions(&self) -> (p: &Vec<usize>)
        ensures
            p@.len() == self.places().len(),
            forall|k: int| 0 <= k < p@.len() ==> p@[k] as int == self.places()[k],
    {
        &self.scorer.positions
    }

    /// Where this match stands to `other` in the ranking.
    pub fn ranking(&self, other: &Self) -> (o: Ordering)
        ensures
            o == self.rank_of(other),
            (o is Less) == self.outranks(other),
            (o is Greater) == other.outranks(self),
            (o is Equal) == (self.score() == other.score()),
    {
        let mine = self.scorer.score;
        let theirs = other.scorer.score;
        if mine == theirs {
            Ordering::Equal
        } else if mine.le(theirs) {
            Ordering::Greater
        } else {
            Ordering::Less
        }
    }

    /// The text of the candidate.
    pub fn to_string(&self) -> (r: String)
        ensures
            r@ == self.candidate().text(),
    {
        String::from_str(self.choice.searchable())
    }

    /// The row that shows this match.
    pub fn draw(&self, selected: bool, show_scores: bool) -> (r: String)
        ensures
            r@ == self.drawing(selected, show_scores),
    {
        let mut row = String::new();
        if show_scores {
            proof {
                reveal_strlit("(");
                reveal_strlit(") ");
            }
            row.append("(");
            let label = self.scorer.score.text();
            row.append(label.as_str());
            row.append(") ");
            assert(row@ =~= score_label(self.score()));
        }
        let highlights = self.draw_highlights();
        row.append(highlights.as_str());
        if selected {
            inverse(row.as_str())
        } else {
            row
        }
    }

    /// The text of the candidate, the matched characters in the highlight
    /// colour.
    fn draw_highlights(&self) -> (r: String)
        ensures
            r@ == highlighted(
                self.candidate().text(),
                self.places(),
                self.candidate().text().len() as int,
            ),
    {
        let content = chars_of(self.choice.searchable());
        let mut r = String::new();
        let mut i: usize = 0;
        while i < content.len()
            invariant
                i <= content.len(),
                content@ == self.choice.text(),
                r@ == highlighted(content@, self.places(), i as int),
            decreases content.len() - i,
        {
            if self.is_highlighted(i) {
                let piece = highlight(content[i]);
                r.append(piece.as_str());
            } else {
                push_char(&mut r, content[i]);
            }
            i = i + 1;
        }
        r
    }

    /// Whether position `i` of the candidate is one of the matched ones.
    fn is_highlighted(&self, i: usize) -> (r: bool)
        ensures
            r == self.places().contains(i as int),
    {
        let positions = &self.scorer.positions;
        let mut k: usize = 0;
        while k < positions.len()
            invariant
                k <= positions@.len(),
                positions@ == self.scorer.positions@,
                forall|a: int| 0 <= a < k ==> self.places()[a] != i as int,
            decreases positions@.len() - k,
        {
            if positions[k] == i {
                assert(self.places()[k as int] == i as int);
                return true;
            }
            k = k + 1;
        }
        false
    }
}

/// Two matches are equal where their scores are.
impl<'a> PartialEq for Match<'a> {
    fn eq(&self, other: &Self) -> (r: bool) {
        other.scorer.score == self.scorer.score
    }
}

impl<'a> vstd::std_specs::cmp::PartialEqSpecImpl for Match<'a> {
    open spec fn obeys_eq_spec() -> bool {
        true
    }

    open spec fn eq_spec(&self, other: &Self) -> bool {
        self.score() == other.score()
    }
}

impl<'a> Eq for Match<'a> {

}

/// A match is less than another where it comes before it in the ranking:
/// where its score is the greater one.
impl<'a> PartialOrd for Match<'a> {
    fn partial_cmp(&self, other: &Self) -> (r: Option<Ordering>) {
        Some(self.ranking(other))
    }
}

impl<'a> vstd::std_specs::cmp::PartialOrdSpecImpl for Match<'a> {
    open spec fn obeys_partial_cmp_spec() -> bool {
        true
    }

    open spec fn partial_cmp_spec(&self, other: &Self) -> Option<Ordering> {
        Some(self.rank_of(other))
    }
}

/// The first `i` positions of an embedding embed the first `i` characters.
proof fn lemma_prefix_embeds(q: Seq<char>, t: Seq<char>, o: Seq<int>, i: int)
    requires
        embeds(q, t, o),
        0 <= i <= q.len(),
    ensures
        embeds(q.take(i), t, o.take(i)),
{
    let head = o.take(i);
    assert forall|k: int| 0 <= k < head.len() implies 0 <= #[trigger] head[k] < t.len()
        && same_letter(q.take(i)[k], t[head[k]]) by {
        assert(head[k] == o[k]);
    }
    assert forall|a: int, b: int| 0 <= a < b < head.len() implies head[a] < head[b] by {
        assert(head[a] == o[a] && head[b] == o[b]);
    }
}

/// An embedding of the first `i` characters, with a later position added
/// where character `i` occurs, embeds the first `i + 1` characters.
proof fn lemma_grown_embeds(q: Seq<char>, t: Seq<char>, p: Seq<int>, i: int, at: int)
    requires
        0 <= i < q.len(),
        embeds(q.take(i), t, p),
        0 <= at < t.len(),
        same_letter(q[i], t[at]),
        i > 0 ==> p[i - 1] < at,
    ensures
        embeds(q.take(i + 1), t, p.push(at)),
{
    let grown = p.push(at);
    assert forall|k: int| 0 <= k < grown.len() implies 0 <= #[trigger] grown[k] < t.len()
        && same_letter(q.take(i + 1)[k], t[grown[k]]) by {
        if k < i {
            assert(grown[k] == p[k]);
            assert(q.take(i)[k] == q[k]);
        }
    }
    assert forall|a: int, b: int| 0 <= a < b < grown.len() implies grown[a] < grown[b] by {
        assert(grown[a] == p[a]);
        if b < i {
            assert(grown[b] == p[b]);
        } else if a < i - 1 {
            assert(p[a] < p[i - 1]);
        }
    }
}

} // verus!
