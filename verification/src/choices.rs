//! The list of matches: filtered and ranked anew for every query, with one
//! of them selected and a window of them drawn.

use rayon::slice::ParallelSliceMut;
use vstd::prelude::*;
use vstd::string::StringExecFns;
use crate::choice::Choice;
use crate::cursor;
use crate::cursor::csi;
use crate::matcher::Match;
use crate::scorer::{is_subsequence, score_of};

verus! {

/// How many rows are kept in view below the selected one.
pub const OFFSET: usize = 1;

/// How many rows are drawn: all matches, up to `max_rows`.
pub open spec fn visible(len: int, max_rows: int) -> int {
    if len < max_rows {
        len
    } else {
        max_rows
    }
}

/// The index of the first row drawn.
pub open spec fn start_of(selected: int, max_rows: int, len: int) -> int {
    if len == 0 {
        0
    } else if selected + OFFSET < max_rows {
        0
    } else if selected + OFFSET + 1 >= len {
        len - max_rows
    } else {
        selected + OFFSET + 1 - max_rows
    }
}

/// The window drawn lies within the matches. Where it has two rows or
/// more it holds the selected match, and the match after it, if there is one.
pub proof fn lemma_window(selected: int, max_rows: int, len: int)
    requires
        0 <= selected < len,
        0 <= max_rows,
    ensures
        0 <= start_of(selected, max_rows, len),
        start_of(selected, max_rows, len) + visible(len, max_rows) <= len,
        max_rows >= 2 ==> start_of(selected, max_rows, len) <= selected < start_of(
            selected,
            max_rows,
            len,
        ) + visible(len, max_rows),
        max_rows >= 2 && selected + OFFSET < len ==> selected + OFFSET < start_of(
            selected,
            max_rows,
            len,
        ) + visible(len, max_rows),
{
}

/// The rows `from .. from + count` of `rows`, drawn and joined by a line
/// feed and a carriage return.
pub open spec fn rows_text<'a>(
    rows: Seq<Match<'a>>,
    selected: int,
    show_scores: bool,
    from: int,
    count: int,
) -> Seq<char>
    decreases count,
{
    if count <= 0 {
        Seq::empty()
    } else if count == 1 {
        rows[from].drawing(from == selected, show_scores)
    } else {
        rows_text(rows, selected, show_scores, from, count - 1) + seq!['\n', '\r'] + rows[from
            + count - 1].drawing(from + count - 1 == selected, show_scores)
    }
}

/// Whether `after` holds the matches of `before` in the order of `at`, which
/// names each index of `before` once; a match with a greater score comes
/// first, and matches with the same score come in the order they had.
pub open spec fn stably_sorted<'a>(before: Seq<Match<'a>>, after: Seq<Match<'a>>, at: Seq<int>)
    -> bool {
    &&& after.len() == before.len()
    &&& at.len() == before.len()
    &&& forall|k: int| 0 <= k < at.len() ==> 0 <= #[trigger] at[k] < before.len()
    &&& forall|k: int| 0 <= k < at.len() ==> #[trigger] after[k] == before[at[k]]
    &&& forall|a: int, b: int| 0 <= a < b < at.len() ==> at[a] != at[b]
    &&& forall|a: int, b: int| 0 <= a < b < after.len() ==> !after[b].outranks(&after[a])
    &&& forall|a: int, b: int|
        0 <= a < b < after.len() && after[a].score() == after[b].score() ==> at[a] < at[b]
}

/// `par_sort_by` of rayon, with `Match::ranking` to compare, which orders
/// all matches by their scores: a stable sort. The vector holds what it
/// held, a match with a greater score before one with a smaller, and matches
/// with the same score in the order they had.
#[verifier::external_body]
fn sort_matches<'a>(matches: &mut Vec<Match<'a>>)
    ensures
        exists|at: Seq<int>| stably_sorted(old(matches)@, final(matches)@, at),
{
    matches.par_sort_by(|a, b| a.ranking(b));
}

/// Whether `rows` holds, for `query`, the matches among `candidates`: `from`
/// names the candidate of each row, every candidate that contains the query
/// has its row, rows go from the greatest score down, and rows with the same
/// score follow the order of the candidates.
pub open spec fn ranked_by<'a>(
    candidates: Seq<Choice>,
    query: Seq<char>,
    rows: Seq<Match<'a>>,
    from: Seq<int>,
) -> bool {
    &&& from.len() == rows.len()
    &&& forall|k: int|
        0 <= k < from.len() ==> 0 <= #[trigger] from[k] < candidates.len() && is_subsequence(
            query,
            candidates[from[k]].text(),
        ) && rows[k].is_for(query, &candidates[from[k]])
    &&& forall|a: int, b: int| 0 <= a < b < from.len() ==> from[a] != from[b]
    &&& forall|i: int|
        0 <= i < candidates.len() && is_subsequence(query, #[trigger] candidates[i].text())
            ==> from.contains(i)
    &&& forall|a: int, b: int| 0 <= a < b < rows.len() ==> !rows[b].outranks(&rows[a])
    &&& forall|a: int, b: int|
        0 <= a < b < rows.len() && rows[a].score() == rows[b].score() ==> from[a] < from[b]
}

/// Whether `rows` is the ranking of `candidates` under `query`.
pub open spec fn ranked<'a>(candidates: Seq<Choice>, query: Seq<char>, rows: Seq<Match<'a>>)
    -> bool {
    exists|from: Seq<int>| ranked_by(candidates, query, rows, from)
}

/// Two rankings of the same candidates under the same query take the row
/// at each place from the same candidate.
proof fn lemma_same_origin<'a>(
    candidates: Seq<Choice>,
    query: Seq<char>,
    one: Seq<Match<'a>>,
    from_one: Seq<int>,
    other: Seq<Match<'a>>,
    from_other: Seq<int>,
    k: int,
)
    requires
        ranked_by(candidates, query, one, from_one),
        ranked_by(candidates, query, other, from_other),
        one.len() == other.len(),
        0 <= k < one.len(),
    ensures
        from_one[k] == from_other[k],
    decreases k,
{
    assert forall|i: int| 0 <= i < k implies from_one[i] == from_other[i] by {
        lemma_same_origin(candidates, query, one, from_one, other, from_other, i);
    }
    assert(from_other.contains(from_one[k]));
    let m = choose|m: int| 0 <= m < from_other.len() && from_other[m] == from_one[k];
    assert(from_one.contains(from_other[k]));
    let n = choose|n: int| 0 <= n < from_one.len() && from_one[n] == from_other[k];
    if m < k {
        assert(from_one[m] == from_other[m]);
    } else if n < k {
        assert(from_one[n] == from_other[n]);
    } else if m > k && n > k {
        // Each of the two candidates would come before the other.
        assert(!other[m].outranks(&other[k]));
        assert(!one[n].outranks(&one[k]));
        assert(one[k].score() == score_of(query, candidates[from_one[k]].text()));
        assert(other[m].score() == one[k].score());
        assert(one[n].score() == other[k].score());
        assert(one[k].score() == one[n].score());
    }
}

/// The ranking of the candidates under a query is one: two rankings have
/// as many rows, and at each place a row of the same candidate, with the
/// same score and the same positions.
pub proof fn lemma_ranking_is_unique<'a>(
    candidates: Seq<Choice>,
    query: Seq<char>,
    one: Seq<Match<'a>>,
    other: Seq<Match<'a>>,
)
    requires
        ranked(candidates, query, one),
        ranked(candidates, query, other),
    ensures
        one.len() == other.len(),
        forall|k: int|
            0 <= k < one.len() ==> (#[trigger] one[k]).candidate() == other[k].candidate()
                && one[k].score() == other[k].score() && one[k].places() == other[k].places(),
{
    let from_one = choose|from: Seq<int>| ranked_by(candidates, query, one, from);
    let from_other = choose|from: Seq<int>| ranked_by(candidates, query, other, from);
    assert(from_one.to_set() =~= from_other.to_set()) by {
        assert forall|v: int| from_one.to_set().contains(v) implies from_other.to_set().contains(
            v,
        ) by {
            let k = choose|k: int| 0 <= k < from_one.len() && from_one[k] == v;
            assert(from_other.contains(from_one[k]));
        }
        assert forall|v: int| from_other.to_set().contains(v) implies from_one.to_set().contains(
            v,
        ) by {
            let k = choose|k: int| 0 <= k < from_other.len() && from_other[k] == v;
            assert(from_one.contains(from_other[k]));
        }
    }
    assert(from_one.no_duplicates());
    assert(from_other.no_duplicates());
    from_one.unique_seq_to_set();
    from_other.unique_seq_to_set();
    assert forall|k: int| 0 <= k < one.len() implies (#[trigger] one[k]).candidate()
        == other[k].candidate() && one[k].score() == other[k].score() && one[k].places()
        == other[k].places() by {
        lemma_same_origin(candidates, query, one, from_one, other, from_other, k);
        assert(from_one[k] == from_other[k]);
    }
}

/// The candidates, the matches of the current query, and which of them is
/// selected.
pub struct Choices<'a> {
    choices: &'a [Choice],
    selected: usize,
    max_choices: usize,
    matches: Vec<Match<'a>>,
    show_scores: bool,
}

impl<'a> Choices<'a> {
    /// All candidates, in the order of the input.
    pub closed spec fn candidates(&self) -> Seq<Choice> {
        self.choices@
    }

    /// The matches of the current query, best first.
    pub closed spec fn rows(&self) -> Seq<Match<'a>> {
        self.matches@
    }

    /// The index of the selected match.
    pub closed spec fn selection(&self) -> int {
        self.selected as int
    }

    /// The greatest number of rows drawn.
    pub closed spec fn height(&self) -> int {
        self.max_choices as int
    }

    /// Whether rows are drawn with their scores.
    pub closed spec fn scored(&self) -> bool {
        self.show_scores
    }

    /// Every candidate is well formed, and the selection names a match, or
    /// is 0 where there is none.
    pub open spec fn wf(&self) -> bool {
        &&& forall|i: int|
            0 <= i < self.candidates().len() ==> (#[trigger] self.candidates()[i]).wf()
        &&& self.rows().len() > 0 ==> 0 <= self.selection() < self.rows().len()
        &&& self.rows().len() == 0 ==> self.selection() == 0
    }

    /// The same candidates, window height and way of drawing.
    pub open spec fn same_setup(&self, other: &Self) -> bool {
        &&& self.candidates() == other.candidates()
        &&& self.height() == other.height()
        &&& self.scored() == other.scored()
    }

    /// The rows in view, drawn.
    pub open spec fn window(&self) -> Seq<char> {
        rows_text(
            self.rows(),
            self.selection(),
            self.scored(),
            start_of(self.selection(), self.height(), self.rows().len() as int),
            visible(self.rows().len() as int, self.height()),
        )
    }

    /// The block that redraws the list below the prompt and puts the cursor
    /// back where it was.
    pub open spec fn frame(&self) -> Seq<char> {
        seq!['\x1B', '7', '\r', '\n', '\x1B', '[', 'J', '\r'] + self.window() + seq!['\x1B', '8']
    }

    /// What draws the list for the first time: the rows in view on the
    /// lines below, then the cursor back up by as many rows, at the start of
    /// its line.
    pub open spec fn first_frame(&self) -> Seq<char> {
        seq!['\r', '\n'] + self.window() + csi(
            visible(self.rows().len() as int, self.height()) as nat,
            'A',
        ) + seq!['\r']
    }

    /// A list over `choices` that draws at most `max_choices` rows. It holds
    /// no match until it is filtered.
    pub fn new(max_choices: usize, choices: &'a [Choice], show_scores: bool) -> (r: Choices<'a>)
        requires
            forall|i: int| 0 <= i < choices@.len() ==> (#[trigger] choices@[i]).wf(),
        ensures
            r.wf(),
            r.candidates() == choices@,
            r.height() == max_choices,
            r.scored() == show_scores,
            r.rows().len() == 0,
            r.selection() == 0,
    {
        Choices { selected: 0, matches: Vec::new(), choices, max_choices, show_scores }
    }

    /// Filters with the empty query, which every candidate matches, and
    /// gives what draws the list for the first time: the rows, then the
    /// cursor back up on the row of the prompt.
    pub fn initial_draw(&mut self) -> (r: String)
        requires
            old(self).wf(),
        ensures
            final(self).wf(),
            final(self).same_setup(old(self)),
            final(self).selection() == 0,
            ranked(final(self).candidates(), Seq::empty(), final(self).rows()),
            final(self).rows().len() == final(self).candidates().len(),
            r@ == final(self).first_frame(),
    {
        let empty: Vec<char> = Vec::new();
        self.filter_choices(empty.as_slice());
        proof {
            reveal_strlit("\r\n");
            reveal_strlit("\r");
            lemma_everything_matches_nothing(self.candidates(), self.rows());
        }
        let mut r = String::from_str("\r\n");
        let rows = self.draw_choices();
        r.append(rows.as_str());
        let up = cursor::up(self.max_choices());
        r.append(up.as_str());
        r.append("\r");
        r
    }

    /// Moves the selection one match up, from the first to the last, and
    /// redraws the list.
    pub fn previous(&mut self) -> (r: String)
        requires
            old(self).wf(),
        ensures
            final(self).wf(),
            final(self).same_setup(old(self)),
            final(self).rows() == old(self).rows(),
            final(self).selection() == (if old(self).rows().len() == 0 {
                0
            } else if old(self).selection() == 0 {
                old(self).rows().len() - 1
            } else {
                old(self).selection() - 1
            }),
            r@ == final(self).frame(),
    {
        if self.selected == 0 {
            self.selected = self.last_index();
        } else {
            self.selected = self.selected - 1;
        }
        assert(self.candidates() == old(self).candidates());
        self.draw()
    }

    /// Moves the selection one match down, from the last to the first, and
    /// redraws the list.
    pub fn next(&mut self) -> (r: String)
        requires
            old(self).wf(),
        ensures
            final(self).wf(),
            final(self).same_setup(old(self)),
            final(self).rows() == old(self).rows(),
            final(self).selection() == (if old(self).rows().len() == 0 {
                0
            } else if old(self).selection() == old(self).rows().len() - 1 {
                0
            } else {
                old(self).selection() + 1
            }),
            r@ == final(self).frame(),
    {
        if self.selected == self.last_index() {
            self.selected = 0;
        } else {
            self.selected = self.selected + 1;
        }
        assert(self.candidates() == old(self).candidates());
        self.draw()
    }

    /// What ends the session with the selected match: the text that clears
    /// the list from the terminal, and the line that goes to the output.
    pub fn select(&self) -> (r: (String, String))
        requires
            self.wf(),
            self.rows().len() > 0,
        ensures
            r.0@ == seq!['\r', '\x1B', '[', 'J'],
            r.1@ == self.rows()[self.selection()].candidate().output() + seq!['\n'],
    {
        proof {
            reveal_strlit("\n");
        }
        let mut line = String::from_str(self.current_match().returnable());
        line.append("\n");
        (self.cancel(), line)
    }

    /// The candidate of the selected match.
    pub fn current_match(&self) -> (c: &'a Choice)
        requires
            self.wf(),
            self.rows().len() > 0,
        ensures
            c == self.rows()[self.selection()].candidate(),
    {
        self.matches[self.selected].choice()
    }

    /// The text that clears the list from the terminal.
    pub fn cancel(&self) -> (r: String)
        ensures
            r@ == seq!['\r', '\x1B', '[', 'J'],
    {
        proof {
            reveal_strlit("\r");
        }
        let mut r = String::from_str("\r");
        r.append(cursor::clear_screen_down());
        assert(r@ =~= seq!['\r', '\x1B', '[', 'J']);
        r
    }

    /// Ranks the candidates under `query`, selects the best match, and
    /// redraws the list.
    pub fn filter(&mut self, query: &[char]) -> (r: String)
        requires
            old(self).wf(),
        ensures
            final(self).wf(),
            final(self).same_setup(old(self)),
            final(self).selection() == 0,
            ranked(final(self).candidates(), query@, final(self).rows()),
            forall|a: int, b: int|
                0 <= a < b < final(self).rows().len() ==> final(self).rows()[b].score().le(
                    final(self).rows()[a].score(),
                ),
            r@ == final(self).frame(),
    {
        self.filter_choices(query);
        proof {
            let rows = self.rows();
            assert forall|a: int, b: int| 0 <= a < b < rows.len() implies rows[b].score().le(
                rows[a].score(),
            ) by {
                assert(!rows[b].outranks(&rows[a]));
            }
        }
        self.draw()
    }

    /// The number of matches.
    pub fn len(&self) -> (n: usize)
        ensures
            n == self.rows().len(),
    {
        self.matches.len()
    }

    /// The index of the selected match.
    pub fn selected(&self) -> (i: usize)
        ensures
            i == self.selection(),
    {
        self.selected
    }

    /// The greatest number of rows drawn.
    pub fn max_rows(&self) -> (n: usize)
        ensures
            n == self.height(),
    {
        self.max_choices
    }

    /// The matches of the current query, best first.
    pub fn matches(&self) -> (m: &Vec<Match<'a>>)
        ensures
            m@ == self.rows(),
    {
        &self.matches
    }

    /// All candidates, in the order of the input.
    pub fn choices(&self) -> (c: &'a [Choice])
        ensures
            c@ == self.candidates(),
    {
        self.choices
    }

    /// Ranks the candidates under `query`, and selects the best match.
    fn filter_choices(&mut self, query: &[char])
        requires
            old(self).wf(),
        ensures
            final(self).wf(),
            final(self).same_setup(old(self)),
            final(self).selection() == 0,
            ranked(final(self).candidates(), query@, final(self).rows()),
    {
        self.selected = 0;
        let choices: &'a [Choice] = self.choices;
        assert(choices@ == old(self).candidates());
        let mut matches: Vec<Match<'a>> = Vec::new();
        let ghost mut from: Seq<int> = Seq::empty();
        let mut i: usize = 0;
        while i < choices.len()
            invariant
                i <= choices@.len(),
                forall|k: int| 0 <= k < choices@.len() ==> (#[trigger] choices@[k]).wf(),
                from.len() == matches@.len(),
                forall|k: int|
                    0 <= k < from.len() ==> 0 <= #[trigger] from[k] < i && is_subsequence(
                        query@,
                        choices@[from[k]].text(),
                    ) && matches@[k].is_for(query@, &choices@[from[k]]),
                forall|a: int, b: int| 0 <= a < b < from.len() ==> from[a] < from[b],
                forall|k: int|
                    0 <= k < i && is_subsequence(query@, #[trigger] choices@[k].text())
                        ==> from.contains(k),
            decreases choices@.len() - i,
        {
            let ghost before = from;
            match Match::new(query, &choices[i]) {
                Some(found) => {
                    matches.push(found);
                    proof {
                        from = before.push(i as int);
                        assert(from[from.len() - 1] == i);
                        assert forall|k: int|
                            0 <= k < i + 1 && is_subsequence(
                                query@,
                                #[trigger] choices@[k].text(),
                            ) implies from.contains(k) by {
                            if k < i {
                                let at = choose|at: int| 0 <= at < before.len() && before[at] == k;
                                assert(from[at] == k);
                            }
                        }
                    }
                },
                None => {},
            }
            i = i + 1;
        }
        let ghost filtered = matches@;
        sort_matches(&mut matches);
        proof {
            let at = choose|at: Seq<int>| stably_sorted(filtered, matches@, at);
            let origin = Seq::new(at.len(), |k: int| from[at[k]]);
            assert forall|k: int|
                0 <= k < choices@.len() && is_subsequence(
                    query@,
                    #[trigger] choices@[k].text(),
                ) implies origin.contains(k) by {
                let f = choose|f: int| 0 <= f < from.len() && from[f] == k;
                lemma_distinct_below(at, at.len() as int);
                assert(at.contains(f));
                let s = choose|s: int| 0 <= s < at.len() && at[s] == f;
                assert(origin[s] == k);
            }
            assert forall|a: int, b: int| 0 <= a < b < origin.len() implies origin[a] != origin[b] by {
                assert(at[a] != at[b]);
                if at[a] < at[b] {
                    assert(from[at[a]] < from[at[b]]);
                } else {
                    assert(from[at[b]] < from[at[a]]);
                }
            }
            assert forall|a: int, b: int|
                0 <= a < b < matches@.len() && matches@[a].score()
                    == matches@[b].score() implies origin[a] < origin[b] by {
                assert(at[a] < at[b]);
            }
            assert(ranked_by(choices@, query@, matches@, origin));
        }
        self.matches = matches;
    }

    /// The block that redraws the list.
    fn draw(&self) -> (r: String)
        requires
            self.wf(),
        ensures
            r@ == self.frame(),
    {
        proof {
            reveal_strlit("\r\n");
            reveal_strlit("\r");
        }
        let mut r = String::from_str(cursor::save_position());
        r.append("\r\n");
        r.append(cursor::clear_screen_down());
        r.append("\r");
        let rows = self.draw_choices();
        r.append(rows.as_str());
        r.append(cursor::restore_position());
        assert(r@ =~= self.frame());
        r
    }

    /// The index of the last match, or 0 where there is none.
    fn last_index(&self) -> (i: usize)
        ensures
            i == (if self.rows().len() == 0 {
                0
            } else {
                self.rows().len() - 1
            }),
    {
        if self.matches.len() == 0 {
            0
        } else {
            self.matches.len() - 1
        }
    }

    /// The rows in view, drawn.
    fn draw_choices(&self) -> (r: String)
        requires
            self.wf(),
        ensures
            r@ == self.window(),
    {
        proof {
            if self.matches@.len() > 0 {
                lemma_window(self.selection(), self.height(), self.rows().len() as int);
            }
        }
        let from = self.starting_position();
        let count = self.max_choices();
        let len = self.matches.len();
        let mut r = String::new();
        let mut k: usize = 0;
        while k < count
            invariant
                k <= count,
                from + count <= len,
                len == self.matches@.len(),
                r@ == rows_text(self.rows(), self.selection(), self.scored(), from as int, k as int),
            decreases count - k,
        {
            let ghost before = r@;
            if k > 0 {
                proof {
                    reveal_strlit("\n\r");
                }
                r.append("\n\r");
            }
            let i = from + k;
            let row = self.matches[i].draw(i == self.selected, self.show_scores);
            r.append(row.as_str());
            proof {
                if k == 0 {
                    assert(r@ =~= row@);
                } else {
                    assert(r@ =~= before + seq!['\n', '\r'] + row@);
                }
            }
            k = k + 1;
        }
        r
    }

    /// How many rows are drawn.
    fn max_choices(&self) -> (n: usize)
        ensures
            n == visible(self.rows().len() as int, self.height()),
    {
        if self.matches.len() < self.max_choices {
            self.matches.len()
        } else {
            self.max_choices
        }
    }

    /// The index of the first row drawn.
    fn starting_position(&self) -> (i: usize)
        requires
            self.wf(),
        ensures
            i == start_of(self.selection(), self.height(), self.rows().len() as int),
    {
        let len = self.matches.len();
        if len == 0 {
            0
        } else if self.selected + OFFSET < self.max_choices {
            0
        } else if self.selected + OFFSET >= len - 1 {
            len - self.max_choices
        } else {
            self.selected + OFFSET + 1 - self.max_choices
        }
    }
}

/// A sequence of distinct numbers below `n` holds `n` of them at most, and
/// `n` of them exactly when it holds every number below `n`.
proof fn lemma_distinct_below(s: Seq<int>, n: int)
    requires
        0 <= n,
        forall|k: int| 0 <= k < s.len() ==> 0 <= #[trigger] s[k] < n,
        forall|a: int, b: int| 0 <= a < b < s.len() ==> s[a] != s[b],
    ensures
        s.len() <= n,
        s.len() == n <==> forall|v: int| 0 <= v < n ==> s.contains(v),
{
    let image = s.to_set();
    let all = vstd::set_lib::set_int_range(0, n);
    assert(s.no_duplicates());
    s.unique_seq_to_set();
    vstd::set_lib::lemma_int_range(0, n);
    assert(image.subset_of(all)) by {
        assert forall|v: int| image.contains(v) implies all.contains(v) by {
            let k = choose|k: int| 0 <= k < s.len() && s[k] == v;
        }
    }
    vstd::set_lib::lemma_len_subset(image, all);
    if s.len() == n {
        vstd::set_lib::lemma_subset_equality(image, all);
        assert forall|v: int| 0 <= v < n implies s.contains(v) by {
            assert(all.contains(v));
        }
    }
    if forall|v: int| 0 <= v < n ==> s.contains(v) {
        assert(image =~= all);
    }
}

/// Under the empty query every candidate has its row.
proof fn lemma_everything_matches_nothing<'a>(candidates: Seq<Choice>, rows: Seq<Match<'a>>)
    requires
        ranked(candidates, Seq::empty(), rows),
    ensures
        rows.len() == candidates.len(),
{
    let from = choose|from: Seq<int>| ranked_by(candidates, Seq::empty(), rows, from);
    assert forall|i: int| 0 <= i < candidates.len() implies from.contains(i) by {
        assert(crate::scorer::embeds(Seq::empty(), candidates[i].text(), Seq::empty()));
    }
    lemma_distinct_below(from, candidates.len() as int);
}

} // verus!
