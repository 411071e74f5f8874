//! The scorer: how well a query fits a candidate, and at which positions
//! of the candidate the query's characters are taken to match.

use vstd::prelude::*;
use crate::bonus::{bonus_at, lemma_bonus_values};
use crate::choice::Choice;
use crate::fixed::{Fixed, Value};
use crate::matrix::Matrix;
use crate::text::{lowered, same_letter, to_lowered};

verus! {

/// What each candidate character after the last match costs, in thousandths.
pub const GAP_TRAILING: i128 = -5;

/// What each candidate character between two matches costs, in thousandths.
pub const GAP_INNER: i128 = -10;

/// What each candidate character before the first match costs, in thousandths.
pub const GAP_LEADING: i128 = -5;

/// What a match directly after another match earns, in thousandths.
pub const MATCH_CONSECUTIVE: i128 = 1000;

/// The cost of skipping one candidate character in row `i`.
pub open spec fn gap(q: Seq<char>, i: int) -> int {
    if i == q.len() - 1 {
        GAP_TRAILING as int
    } else {
        GAP_INNER as int
    }
}

/// The best score of `q[..=i]` against `t[..=j]` among the alignments that
/// match `q[i]` with `t[j]`; minus infinity where there is none.
pub open spec fn best_at(q: Seq<char>, t: Seq<char>, i: int, j: int) -> Value
    decreases i, j, 0int,
{
    if i < 0 || j < 0 || !same_letter(q[i], t[j]) {
        Value::NegInf
    } else if i == 0 {
        Value::Finite(j * GAP_LEADING + bonus_at(t, j))
    } else if j == 0 {
        Value::NegInf
    } else {
        best_upto(q, t, i - 1, j - 1).plus(bonus_at(t, j)).max(
            best_at(q, t, i - 1, j - 1).plus(MATCH_CONSECUTIVE as int),
        )
    }
}

/// The best score of `q[..=i]` against `t[..=j]`, wherever `q[i]` is
/// matched; minus infinity where it cannot be.
pub open spec fn best_upto(q: Seq<char>, t: Seq<char>, i: int, j: int) -> Value
    decreases i, j, 1int,
{
    if i < 0 || j < 0 {
        Value::NegInf
    } else {
        let before = if j == 0 {
            Value::NegInf
        } else {
            best_upto(q, t, i, j - 1)
        };
        best_at(q, t, i, j).max(before.plus(gap(q, i)))
    }
}

/// The score of `q` against `t`.
pub open spec fn score_of(q: Seq<char>, t: Seq<char>) -> Value {
    if q.len() == 0 {
        Value::NegInf
    } else if q.len() == t.len() {
        Value::PosInf
    } else {
        best_upto(q, t, q.len() - 1, t.len() - 1)
    }
}

/// Whether the walk back through the table takes `t[j]` as the match of
/// `q[i]`.
pub open spec fn hit(q: Seq<char>, t: Seq<char>, i: int, j: int, required: bool) -> bool {
    best_at(q, t, i, j) != Value::NegInf && (required || best_at(q, t, i, j) == best_upto(
        q,
        t,
        i,
        j,
    ))
}

/// Whether the score at row `i` and column `j` is that of a match directly
/// after a match of the row before.
pub open spec fn consecutive(q: Seq<char>, t: Seq<char>, i: int, j: int) -> bool {
    i > 0 && j > 0 && best_upto(q, t, i, j) == best_at(q, t, i - 1, j - 1).plus(
        MATCH_CONSECUTIVE as int,
    )
}

/// The positions that the walk back records for rows `0..=i`, when row `i`
/// is searched from column `j` downwards. Column 0 is never tested: a row
/// that reaches it is recorded at 0, and so is every row before it.
pub open spec fn trace(q: Seq<char>, t: Seq<char>, i: int, j: int, required: bool) -> Seq<int>
    decreases i + 1, j,
{
    if i < 0 {
        Seq::empty()
    } else if j <= 0 {
        Seq::new((i + 1) as nat, |k: int| 0int)
    } else if hit(q, t, i, j, required) {
        trace(q, t, i - 1, j - 1, consecutive(q, t, i, j)).push(j)
    } else {
        trace(q, t, i, j - 1, required)
    }
}

/// The positions of `t` at which the characters of `q` are taken to match.
pub open spec fn positions_of(q: Seq<char>, t: Seq<char>) -> Seq<int> {
    if q.len() == t.len() {
        Seq::new(q.len(), |k: int| k)
    } else {
        trace(q, t, q.len() - 1, t.len() - 1, false)
    }
}

/// Whether `p` places the characters of `q`, in order, on characters of `t`
/// that are the same but for ASCII case.
pub open spec fn embeds(q: Seq<char>, t: Seq<char>, p: Seq<int>) -> bool {
    &&& p.len() == q.len()
    &&& forall|i: int|
        0 <= i < p.len() ==> 0 <= #[trigger] p[i] < t.len() && same_letter(q[i], t[p[i]])
    &&& forall|i: int, k: int| 0 <= i < k < p.len() ==> p[i] < p[k]
}

/// Whether the characters of `q` occur in `t`, in order, ASCII case set
/// aside.
pub open spec fn is_subsequence(q: Seq<char>, t: Seq<char>) -> bool {
    exists|p: Seq<int>| embeds(q, t, p)
}

/// No cell is plus infinity, and a finite cell lies within bounds that grow
/// with the row and the column only.
pub proof fn lemma_cell_bounds(q: Seq<char>, t: Seq<char>, i: int, j: int)
    ensures
        best_at(q, t, i, j) !is PosInf,
        best_upto(q, t, i, j) !is PosInf,
        best_at(q, t, i, j).within(-10 * (j + 1), 1000 * (i + 1)),
        best_upto(q, t, i, j).within(-10 * (j + 1), 1000 * (i + 1)),
    decreases i, j,
{
    if i < 0 || j < 0 {
    } else {
        lemma_bonus_values(t, j);
        if i > 0 && j > 0 {
            lemma_cell_bounds(q, t, i - 1, j - 1);
        }
        if j > 0 {
            lemma_cell_bounds(q, t, i, j - 1);
        }
    }
}

/// A cell that is finite as a match is finite whatever is matched; and a
/// match in a later row follows a finite cell of the row before.
pub proof fn lemma_finite_cells(q: Seq<char>, t: Seq<char>, i: int, j: int)
    ensures
        best_at(q, t, i, j) is Finite ==> best_upto(q, t, i, j) is Finite && 0 <= i && 0 <= j
            && same_letter(q[i], t[j]),
        best_at(q, t, i, j) is Finite && i > 0 ==> j > 0 && best_upto(q, t, i - 1, j - 1) is Finite,
        best_upto(q, t, i, j) is Finite ==> 0 <= i && 0 <= j,
{
    lemma_cell_bounds(q, t, i, j);
    lemma_cell_bounds(q, t, i - 1, j - 1);
    lemma_cell_bounds(q, t, i, j - 1);
}

/// The walk back records one position for each row, none beyond the column
/// it started from.
pub proof fn lemma_trace_shape(q: Seq<char>, t: Seq<char>, i: int, j: int, required: bool)
    requires
        -1 <= i,
    ensures
        trace(q, t, i, j, required).len() == i + 1,
        forall|k: int|
            0 <= k <= i ==> 0 <= #[trigger] trace(q, t, i, j, required)[k] && (trace(
                q,
                t,
                i,
                j,
                required,
            )[k] <= j || trace(q, t, i, j, required)[k] == 0),
    decreases i + 1, j,
{
    if i < 0 {
    } else if j <= 0 {
    } else if hit(q, t, i, j, required) {
        lemma_trace_shape(q, t, i - 1, j - 1, consecutive(q, t, i, j));
    } else {
        lemma_trace_shape(q, t, i, j - 1, required);
    }
}

/// Where the cell that the walk back starts from is finite, the positions
/// it records embed `q[..=i]` in `t[..=j]`.
pub proof fn lemma_trace_embeds(q: Seq<char>, t: Seq<char>, i: int, j: int, required: bool)
    requires
        0 <= i < q.len(),
        if required {
            best_at(q, t, i, j) is Finite
        } else {
            best_upto(q, t, i, j) is Finite
        },
    ensures
        trace(q, t, i, j, required).len() == i + 1,
        forall|k: int|
            0 <= k <= i ==> 0 <= #[trigger] trace(q, t, i, j, required)[k] <= j && same_letter(
                q[k],
                t[trace(q, t, i, j, required)[k]],
            ),
        forall|a: int, b: int|
            0 <= a < b <= i ==> trace(q, t, i, j, required)[a] < trace(q, t, i, j, required)[b],
    decreases i, j,
{
    lemma_finite_cells(q, t, i, j);
    lemma_cell_bounds(q, t, i, j);
    let p = trace(q, t, i, j, required);
    if j <= 0 {
        // Only the first row has a finite cell in the first column.
        lemma_finite_cells(q, t, i, 0);
        assert(best_at(q, t, i, 0) is Finite);
        assert(i == 0);
    } else if hit(q, t, i, j, required) {
        let next = consecutive(q, t, i, j);
        lemma_cell_bounds(q, t, i - 1, j - 1);
        if i > 0 {
            lemma_trace_embeds(q, t, i - 1, j - 1, next);
        }
        let rest = trace(q, t, i - 1, j - 1, next);
        assert(p == rest.push(j));
        assert forall|k: int| 0 <= k <= i implies 0 <= #[trigger] p[k] <= j && same_letter(
            q[k],
            t[p[k]],
        ) by {
            if k < i {
                assert(p[k] == rest[k]);
            }
        }
        assert forall|a: int, b: int| 0 <= a < b <= i implies p[a] < p[b] by {
            assert(p[a] == rest[a]);
            if b < i {
                assert(p[b] == rest[b]);
            }
        }
    } else {
        lemma_cell_bounds(q, t, i, j - 1);
        lemma_trace_embeds(q, t, i, j - 1, required);
    }
}

/// Where `p` embeds `q` in `t`, row `i` is finite from column `p[i]` on.
proof fn lemma_embedding_row(q: Seq<char>, t: Seq<char>, p: Seq<int>, i: int, j: int)
    requires
        embeds(q, t, p),
        0 <= i < q.len(),
        p[i] <= j,
    ensures
        best_upto(q, t, i, j) is Finite,
        best_at(q, t, i, p[i]) is Finite,
    decreases i, j,
{
    lemma_cell_bounds(q, t, i, j);
    lemma_cell_bounds(q, t, i, j - 1);
    if j == p[i] {
        if i > 0 {
            assert(p[i - 1] < p[i]);
            lemma_embedding_row(q, t, p, i - 1, j - 1);
            lemma_cell_bounds(q, t, i - 1, j - 1);
        }
        assert(best_at(q, t, i, j) is Finite);
    } else {
        lemma_embedding_row(q, t, p, i, j - 1);
    }
}

/// The score of a query that occurs in the candidate is finite, or plus
/// infinity where the two are equally long.
pub proof fn lemma_subsequence_scores(q: Seq<char>, t: Seq<char>)
    requires
        is_subsequence(q, t),
        q.len() > 0,
    ensures
        best_upto(q, t, q.len() - 1, t.len() - 1) is Finite,
        score_of(q, t) != Value::NegInf,
{
    let p = choose|p: Seq<int>| embeds(q, t, p);
    let last = q.len() - 1;
    assert(0 <= p[last] < t.len());
    lemma_embedding_row(q, t, p, last, t.len() - 1);
}

/// An embedding of a query in a candidate of the same length places every
/// character at its own index.
pub proof fn lemma_embedding_of_equal_length(q: Seq<char>, t: Seq<char>, p: Seq<int>)
    requires
        embeds(q, t, p),
        q.len() == t.len(),
    ensures
        p =~= Seq::new(q.len(), |k: int| k),
{
    assert forall|i: int| 0 <= i < p.len() implies p[i] == i by {
        lemma_increasing_from_below(p, i);
        lemma_increasing_from_above(p, t.len() as int, i);
    }
}

/// A strictly increasing sequence of natural numbers is at least `i` at
/// index `i`.
proof fn lemma_increasing_from_below(p: Seq<int>, i: int)
    requires
        0 <= i < p.len(),
        forall|k: int| 0 <= k < p.len() ==> 0 <= #[trigger] p[k],
        forall|a: int, b: int| 0 <= a < b < p.len() ==> p[a] < p[b],
    ensures
        i <= p[i],
    decreases i,
{
    if i > 0 {
        lemma_increasing_from_below(p, i - 1);
    }
}

/// A strictly increasing sequence of numbers below `n` leaves room, at
/// index `i`, for the entries after it.
proof fn lemma_increasing_from_above(p: Seq<int>, n: int, i: int)
    requires
        0 <= i < p.len(),
        forall|k: int| 0 <= k < p.len() ==> #[trigger] p[k] < n,
        forall|a: int, b: int| 0 <= a < b < p.len() ==> p[a] < p[b],
    ensures
        p[i] <= n - (p.len() - i),
    decreases p.len() - i,
{
    if i < p.len() - 1 {
        lemma_increasing_from_above(p, n, i + 1);
    }
}

/// The positions recorded for a query that occurs in the candidate embed
/// the query in the candidate: they increase strictly, and the candidate's
/// characters there are those of the query but for ASCII case.
pub proof fn lemma_positions_embed(q: Seq<char>, t: Seq<char>)
    requires
        is_subsequence(q, t),
    ensures
        embeds(q, t, positions_of(q, t)),
{
    let p = choose|p: Seq<int>| embeds(q, t, p);
    if q.len() == t.len() {
        lemma_embedding_of_equal_length(q, t, p);
    } else if q.len() == 0 {
    } else {
        lemma_subsequence_scores(q, t);
        lemma_trace_embeds(q, t, q.len() - 1, t.len() - 1, false);
    }
}

/// What the next character of the query earns at position `b`, when the
/// one before it is placed at `a`: the reward of a match directly after a
/// match, or else the bonus of `b` less the cost of the characters skipped.
pub open spec fn link(t: Seq<char>, a: int, b: int) -> int {
    if b == a + 1 {
        MATCH_CONSECUTIVE as int
    } else {
        (b - a - 1) * GAP_INNER + bonus_at(t, b)
    }
}

/// What placing the first `i + 1` characters of the query at `p[..=i]`
/// earns, with nothing counted after `p[i]`.
pub open spec fn placed(t: Seq<char>, p: Seq<int>, i: int) -> int
    decreases i,
{
    if i <= 0 {
        p[0] * GAP_LEADING + bonus_at(t, p[0])
    } else {
        placed(t, p, i - 1) + link(t, p[i - 1], p[i])
    }
}

/// The score of the alignment that places the characters of `q` at the
/// positions `p` of `t`.
pub open spec fn alignment_score(q: Seq<char>, t: Seq<char>, p: Seq<int>) -> int {
    placed(t, p, q.len() - 1) + (t.len() - 1 - p[q.len() - 1]) * GAP_TRAILING
}

/// Whether `p[..=i]` places the characters `q[..=i]`, in order, on
/// characters of `t` that are the same but for ASCII case.
pub open spec fn embeds_upto(q: Seq<char>, t: Seq<char>, p: Seq<int>, i: int) -> bool {
    &&& i < p.len()
    &&& forall|k: int| 0 <= k <= i ==> 0 <= #[trigger] p[k] < t.len() && same_letter(q[k], t[p[k]])
    &&& forall|a: int, b: int| 0 <= a < b <= i ==> p[a] < p[b]
}

/// What the first characters earn depends on their positions only.
proof fn lemma_placed_prefix(t: Seq<char>, p: Seq<int>, r: Seq<int>, i: int)
    requires
        0 <= i < p.len(),
        i < r.len(),
        forall|k: int| 0 <= k <= i ==> p[k] == r[k],
    ensures
        placed(t, p, i) == placed(t, r, i),
    decreases i,
{
    if i > 0 {
        lemma_placed_prefix(t, p, r, i - 1);
    }
}

/// No alignment earns more than the table holds: what placing `q[..=i]` at
/// `p[..=i]` earns is at most the cell of row `i` at column `p[i]`, and from
/// there on at most the best of the row.
proof fn lemma_placed_at_most(q: Seq<char>, t: Seq<char>, p: Seq<int>, i: int, j: int)
    requires
        0 <= i < q.len(),
        embeds_upto(q, t, p, i),
        p[i] <= j < t.len(),
    ensures
        Value::Finite(placed(t, p, i)).le(best_at(q, t, i, p[i])),
        Value::Finite(placed(t, p, i) + (j - p[i]) * gap(q, i)).le(best_upto(q, t, i, j)),
    decreases i, j,
{
    lemma_cell_bounds(q, t, i, j);
    lemma_cell_bounds(q, t, i, j - 1);
    lemma_cell_bounds(q, t, i, p[i]);
    if j == p[i] {
        if i > 0 {
            assert(p[i - 1] < p[i]);
            lemma_placed_at_most(q, t, p, i - 1, j - 1);
            lemma_cell_bounds(q, t, i - 1, j - 1);
            lemma_bonus_values(t, j);
            if p[i - 1] != j - 1 {
                assert((j - 1 - p[i - 1]) * gap(q, i - 1) == (j - p[i - 1] - 1) * GAP_INNER);
            }
        }
        assert(Value::Finite(placed(t, p, i)).le(best_at(q, t, i, j)));
        let apart = j - p[i];
        assert(apart * gap(q, i) == 0) by (nonlinear_arith)
            requires
                apart == 0,
        ;
    } else {
        lemma_placed_at_most(q, t, p, i, j - 1);
        assert((j - p[i]) * gap(q, i) == (j - 1 - p[i]) * gap(q, i) + gap(q, i))
            by (nonlinear_arith);
        let before = best_upto(q, t, i, j - 1);
        assert(Value::Finite(placed(t, p, i) + (j - 1 - p[i]) * gap(q, i)).le(before));
        assert(before.plus(gap(q, i)).le(best_upto(q, t, i, j)));
    }
}

/// A finite cell is earned by an alignment: one that places `q[i]` at `j`.
proof fn lemma_witness_at(q: Seq<char>, t: Seq<char>, i: int, j: int) -> (p: Seq<int>)
    requires
        0 <= i < q.len(),
        j < t.len(),
        best_at(q, t, i, j) is Finite,
    ensures
        p.len() == i + 1,
        embeds_upto(q, t, p, i),
        p[i] == j,
        best_at(q, t, i, j) == Value::Finite(placed(t, p, i)),
    decreases i, j, 0int,
{
    lemma_finite_cells(q, t, i, j);
    if i == 0 {
        seq![j]
    } else {
        lemma_cell_bounds(q, t, i - 1, j - 1);
        lemma_bonus_values(t, j);
        let through = best_upto(q, t, i - 1, j - 1).plus(bonus_at(t, j));
        let after = best_at(q, t, i - 1, j - 1).plus(MATCH_CONSECUTIVE as int);
        if through.le(after) {
            let head = lemma_witness_at(q, t, i - 1, j - 1);
            let p = head.push(j);
            lemma_placed_prefix(t, p, head, i - 1);
            assert(embeds_upto(q, t, p, i)) by {
                assert forall|k: int| 0 <= k <= i implies 0 <= #[trigger] p[k] < t.len()
                    && same_letter(q[k], t[p[k]]) by {
                    if k < i {
                        assert(p[k] == head[k]);
                    }
                }
                assert forall|a: int, b: int| 0 <= a < b <= i implies p[a] < p[b] by {
                    assert(p[a] == head[a]);
                    if b < i {
                        assert(p[b] == head[b]);
                    } else if a < i - 1 {
                        assert(head[a] < head[i - 1]);
                    }
                }
            }
            p
        } else {
            let head = lemma_witness_upto(q, t, i - 1, j - 1);
            let p = head.push(j);
            lemma_placed_prefix(t, p, head, i - 1);
            lemma_placed_at_most(q, t, head, i - 1, j - 1);
            // A match directly after a match earns more than its bonus: the
            // alignment found cannot end next to `j`.
            assert(head[i - 1] < j - 1);
            assert(embeds_upto(q, t, p, i)) by {
                assert forall|k: int| 0 <= k <= i implies 0 <= #[trigger] p[k] < t.len()
                    && same_letter(q[k], t[p[k]]) by {
                    if k < i {
                        assert(p[k] == head[k]);
                    }
                }
                assert forall|a: int, b: int| 0 <= a < b <= i implies p[a] < p[b] by {
                    assert(p[a] == head[a]);
                    if b < i {
                        assert(p[b] == head[b]);
                    } else if a < i - 1 {
                        assert(head[a] < head[i - 1]);
                    }
                }
            }
            p
        }
    }
}

/// A finite best of a row is earned by an alignment: one that places `q[i]`
/// at `j` or before it.
proof fn lemma_witness_upto(q: Seq<char>, t: Seq<char>, i: int, j: int) -> (p: Seq<int>)
    requires
        0 <= i < q.len(),
        j < t.len(),
        best_upto(q, t, i, j) is Finite,
    ensures
        p.len() == i + 1,
        embeds_upto(q, t, p, i),
        p[i] <= j,
        best_upto(q, t, i, j) == Value::Finite(placed(t, p, i) + (j - p[i]) * gap(q, i)),
    decreases i, j, 1int,
{
    lemma_finite_cells(q, t, i, j);
    lemma_cell_bounds(q, t, i, j);
    lemma_cell_bounds(q, t, i, j - 1);
    let before = if j == 0 {
        Value::NegInf
    } else {
        best_upto(q, t, i, j - 1)
    };
    if best_at(q, t, i, j).le(before.plus(gap(q, i))) {
        let p = lemma_witness_upto(q, t, i, j - 1);
        assert((j - p[i]) * gap(q, i) == (j - 1 - p[i]) * gap(q, i) + gap(q, i)) by (nonlinear_arith);
        p
    } else {
        lemma_witness_at(q, t, i, j)
    }
}

/// The best of the last row, at the last column, is the score of the best
/// alignment of the query with the candidate: no alignment earns more, and
/// where the query occurs in the candidate one alignment earns as much.
/// Where it does not occur, the cell is minus infinity.
pub proof fn lemma_score_is_best(q: Seq<char>, t: Seq<char>)
    requires
        q.len() > 0,
    ensures
        forall|p: Seq<int>| #[trigger]
            embeds(q, t, p) ==> Value::Finite(alignment_score(q, t, p)).le(
                best_upto(q, t, q.len() - 1, t.len() - 1),
            ),
        is_subsequence(q, t) ==> exists|p: Seq<int>| #[trigger]
            embeds(q, t, p) && best_upto(q, t, q.len() - 1, t.len() - 1) == Value::Finite(
                alignment_score(q, t, p),
            ),
        !is_subsequence(q, t) ==> best_upto(q, t, q.len() - 1, t.len() - 1) == Value::NegInf,
{
    let last = q.len() - 1;
    let end = t.len() - 1;
    assert forall|p: Seq<int>| #[trigger] embeds(q, t, p) implies Value::Finite(
        alignment_score(q, t, p),
    ).le(best_upto(q, t, last, end)) by {
        assert(0 <= p[last] < t.len());
        lemma_placed_at_most(q, t, p, last, end);
    }
    lemma_cell_bounds(q, t, last, end);
    if best_upto(q, t, last, end) is Finite {
        lemma_finite_cells(q, t, last, end);
        let p = lemma_witness_upto(q, t, last, end);
        assert(embeds(q, t, p));
        assert(best_upto(q, t, last, end) == Value::Finite(alignment_score(q, t, p)));
    }
    if is_subsequence(q, t) {
        lemma_subsequence_scores(q, t);
    }
}

/// The outcome of scoring one candidate: the score, and for each character
/// of the query the position of the candidate where it is taken to match.
pub struct Score {
    pub score: Fixed,
    pub positions: Vec<usize>,
}

impl Score {
    /// The positions as mathematical integers.
    pub open spec fn places(&self) -> Seq<int> {
        Seq::new(self.positions@.len(), |k: int| self.positions@[k] as int)
    }

    /// Scores `query` against `choice`.
    pub fn new(query: &[char], choice: &Choice) -> (r: Score)
        requires
            choice.wf(),
        ensures
            r.score@ == score_of(query@, choice.text()),
            r.places() == positions_of(query@, choice.text()),
            is_subsequence(query@, choice.text()) ==> embeds(
                query@,
                choice.text(),
                r.places(),
            ),
    {
        let query_length = query.len();
        let choice_length = choice.len();
        proof {
            if is_subsequence(query@, choice.text()) {
                lemma_positions_embed(query@, choice.text());
            }
        }
        if query_length == 0 {
            let r = Score { score: Fixed::NegInf, positions: Vec::new() };
            assert(r.places() =~= positions_of(query@, choice.text()));
            r
        } else if query_length == choice_length {
            let mut positions: Vec<usize> = Vec::new();
            let mut k: usize = 0;
            while k < query_length
                invariant
                    k <= query_length,
                    positions@.len() == k,
                    forall|a: int| 0 <= a < k ==> positions@[a] == a,
                decreases query_length - k,
            {
                positions.push(k);
                k = k + 1;
            }
            let r = Score { score: Fixed::PosInf, positions };
            assert(r.places() =~= positions_of(query@, choice.text()));
            r
        } else {
            let (main, diagonal) = compute(query, choice, query_length, choice_length);
            let score = if choice_length == 0 {
                Fixed::NegInf
            } else {
                main.get((query_length - 1, choice_length - 1))
            };
            let positions = positions(
                choice_length,
                query_length,
                &main,
                &diagonal,
                Ghost(query@),
                Ghost(choice.text()),
            );
            let r = Score { score, positions };
            proof {
                lemma_trace_shape(query@, choice.text(), query_length - 1, choice_length - 1, false);
            }
            assert(r.places() =~= positions_of(query@, choice.text()));
            r
        }
    }
}

/// Whether the two tables hold, in their first `rows` rows, the scores of
/// `q` against `t`: `main` the best scores, `diagonal` those of a match in
/// the cell itself.
pub open spec fn filled(main: &Matrix, diagonal: &Matrix, q: Seq<char>, t: Seq<char>, rows: int)
    -> bool {
    &&& main.wf()
    &&& diagonal.wf()
    &&& main.width() == q.len()
    &&& main.height() == t.len()
    &&& diagonal.width() == q.len()
    &&& diagonal.height() == t.len()
    &&& forall|i: int, j: int|
        0 <= i < rows && 0 <= j < t.len() ==> #[trigger] main.at(i, j) == best_upto(q, t, i, j)
    &&& forall|i: int, j: int|
        0 <= i < rows && 0 <= j < t.len() ==> #[trigger] diagonal.at(i, j) == best_at(q, t, i, j)
}

/// Fills the two tables: for every character of the query a row, for every
/// character of the candidate a column.
fn compute(query: &[char], choice: &Choice, query_length: usize, choice_length: usize) -> (r: (
    Matrix,
    Matrix,
))
    requires
        choice.wf(),
        query_length == query@.len(),
        choice_length == choice.text().len(),
    ensures
        filled(&r.0, &r.1, query@, choice.text(), query_length as int),
{
    let ghost q = query@;
    let ghost t = choice.text();
    let lower_query = to_lowered(query);
    let mut diagonal = Matrix::new(query_length, choice_length);
    let mut main = Matrix::new(query_length, choice_length);
    let mut i: usize = 0;
    while i < query_length
        invariant
            i <= query_length,
            choice.wf(),
            q == query@,
            t == choice.text(),
            query_length == q.len(),
            choice_length == t.len(),
            lower_query@ == lowered(q),
            filled(&main, &diagonal, q, t, i as int),
        decreases query_length - i,
    {
        let mut prev_score = Fixed::NegInf;
        let gap_score: i128 = if i == query_length - 1 {
            GAP_TRAILING
        } else {
            GAP_INNER
        };
        let qchar: char = lower_query[i];
        let mut j: usize = 0;
        while j < choice_length
            invariant
                i < query_length,
                j <= choice_length,
                choice.wf(),
                t == choice.text(),
                query_length == q.len(),
                choice_length == t.len(),
                gap_score == gap(q, i as int),
                qchar == crate::text::lower(q[i as int]),
                filled(&main, &diagonal, q, t, i as int),
                prev_score@ == (if j == 0 {
                    Value::NegInf
                } else {
                    best_upto(q, t, i as int, j - 1)
                }),
                forall|b: int| 0 <= b < j ==> #[trigger] main.at(i as int, b) == best_upto(q, t, i as int, b),
                forall|b: int|
                    0 <= b < j ==> #[trigger] diagonal.at(i as int, b) == best_at(q, t, i as int, b),
            decreases choice_length - j,
        {
            proof {
                lemma_cell_bounds(q, t, i as int, j as int);
                lemma_cell_bounds(q, t, i as int, j - 1);
                lemma_cell_bounds(q, t, i - 1, j - 1);
                lemma_bonus_values(t, j as int);
            }
            let ghost main_before = main;
            let ghost diagonal_before = diagonal;
            if qchar == choice.lower_at(j) {
                let bonus_score: i128 = choice.bonus_at(j);
                let current_score = if i == 0 {
                    Fixed::Finite((j as i128) * GAP_LEADING + bonus_score)
                } else if j > 0 {
                    let m_score = main.get((i - 1, j - 1));
                    let d_score = diagonal.get((i - 1, j - 1));
                    m_score.plus(bonus_score).max(d_score.plus(MATCH_CONSECUTIVE))
                } else {
                    Fixed::NegInf
                };
                assert(current_score@ == best_at(q, t, i as int, j as int));
                prev_score = current_score.max(prev_score.plus(gap_score));
                diagonal.set((i, j), current_score);
                main.set((i, j), prev_score);
            } else {
                assert(best_at(q, t, i as int, j as int) == Value::NegInf);
                prev_score = prev_score.plus(gap_score);
                diagonal.set((i, j), Fixed::NegInf);
                main.set((i, j), prev_score);
            }
            proof {
                assert(prev_score@ == best_upto(q, t, i as int, j as int));
                assert forall|a: int, b: int| 0 <= a < i && 0 <= b < t.len() implies #[trigger] main.at(
                    a,
                    b,
                ) == best_upto(q, t, a, b) by {
                    assert(main.at(a, b) == main_before.at(a, b));
                }
                assert forall|a: int, b: int|
                    0 <= a < i && 0 <= b < t.len() implies #[trigger] diagonal.at(a, b) == best_at(
                    q,
                    t,
                    a,
                    b,
                ) by {
                    assert(diagonal.at(a, b) == diagonal_before.at(a, b));
                }
                assert forall|b: int| 0 <= b < j + 1 implies #[trigger] main.at(i as int, b)
                    == best_upto(q, t, i as int, b) by {
                    if b < j {
                        assert(main.at(i as int, b) == main_before.at(i as int, b));
                    }
                }
                assert forall|b: int| 0 <= b < j + 1 implies #[trigger] diagonal.at(i as int, b)
                    == best_at(q, t, i as int, b) by {
                    if b < j {
                        assert(diagonal.at(i as int, b) == diagonal_before.at(i as int, b));
                    }
                }
            }
            j = j + 1;
        }
        i = i + 1;
    }
    (main, diagonal)
}

/// Walks back through the filled tables, from the last row and the last
/// column, and records for each row the column taken as its match.
fn positions(
    choice_length: usize,
    query_length: usize,
    main: &Matrix,
    diagonal: &Matrix,
    Ghost(q): Ghost<Seq<char>>,
    Ghost(t): Ghost<Seq<char>>,
) -> (positions: Vec<usize>)
    requires
        query_length == q.len(),
        choice_length == t.len(),
        filled(main, diagonal, q, t, query_length as int),
    ensures
        positions@.len() == query_length,
        forall|k: int|
            0 <= k < query_length ==> positions@[k] as int == trace(
                q,
                t,
                query_length - 1,
                choice_length - 1,
                false,
            )[k],
{
    let ghost whole = trace(q, t, query_length - 1, choice_length - 1, false);
    let mut positions: Vec<usize> = Vec::new();
    let mut k: usize = 0;
    while k < query_length
        invariant
            k <= query_length,
            positions@.len() == k,
            forall|a: int| 0 <= a < k ==> positions@[a] == 0,
        decreases query_length - k,
    {
        positions.push(0);
        k = k + 1;
    }
    proof {
        lemma_trace_shape(q, t, query_length - 1, choice_length - 1, false);
    }
    if choice_length == 0 {
        return positions;
    }
    let mut match_required = false;
    let mut choice_index: usize = choice_length - 1;
    let mut query_index: usize = query_length;
    let ghost mut recorded: Seq<int> = Seq::empty();
    while query_index > 0
        invariant
            query_index <= query_length,
            choice_index < choice_length,
            query_length == q.len(),
            choice_length == t.len(),
            filled(main, diagonal, q, t, query_length as int),
            positions@.len() == query_length,
            recorded.len() == query_length - query_index,
            forall|a: int| 0 <= a < query_index ==> positions@[a] == 0,
            forall|a: int|
                query_index <= a < query_length ==> positions@[a] as int == recorded[a
                    - query_index],
            whole == trace(q, t, query_index - 1, choice_index as int, match_required) + recorded,
        decreases query_index,
    {
        query_index = query_index - 1;
        let mut found = false;
        while choice_index > 0 && !found
            invariant
                query_index < query_length,
                choice_index < choice_length,
                query_length == q.len(),
                choice_length == t.len(),
                filled(main, diagonal, q, t, query_length as int),
                positions@.len() == query_length,
                forall|a: int| 0 <= a < query_index ==> positions@[a] == 0,
                !found ==> positions@[query_index as int] == 0,
                !found ==> recorded.len() == query_length - query_index - 1,
                !found ==> forall|a: int|
                    query_index < a < query_length ==> positions@[a] as int == recorded[a
                        - query_index - 1],
                !found ==> whole == trace(
                    q,
                    t,
                    query_index as int,
                    choice_index as int,
                    match_required,
                ) + recorded,
                found ==> recorded.len() == query_length - query_index,
                found ==> forall|a: int|
                    query_index <= a < query_length ==> positions@[a] as int == recorded[a
                        - query_index],
                found ==> whole == trace(
                    q,
                    t,
                    query_index - 1,
                    choice_index as int,
                    match_required,
                ) + recorded,
            decreases choice_index,
        {
            let d = diagonal.get((query_index, choice_index));
            let m = main.get((query_index, choice_index));
            proof {
                lemma_cell_bounds(q, t, query_index - 1, choice_index - 1);
            }
            if d != Fixed::NegInf && (match_required || d == m) {
                let ghost before = trace(
                    q,
                    t,
                    query_index as int,
                    choice_index as int,
                    match_required,
                );
                assert(hit(q, t, query_index as int, choice_index as int, match_required));
                // If this score came from a match directly after a match, the
                // character before must be a match too.
                match_required = query_index > 0 && m == diagonal.get(
                    (query_index - 1, choice_index - 1),
                ).plus(MATCH_CONSECUTIVE);
                assert(match_required == consecutive(q, t, query_index as int, choice_index as int));
                positions.set(query_index, choice_index);
                proof {
                    let rest = trace(q, t, query_index - 1, choice_index - 1, match_required);
                    assert(before == rest.push(choice_index as int));
                    let grown = seq![choice_index as int] + recorded;
                    assert(before + recorded =~= rest + grown);
                    recorded = grown;
                }
                choice_index = choice_index - 1;
                found = true;
            } else {
                assert(!hit(q, t, query_index as int, choice_index as int, match_required));
                choice_index = choice_index - 1;
            }
        }
        proof {
            if !found {
                // The row reached the first column: it stays at 0, as do all rows before it.
                let here = trace(q, t, query_index as int, 0, match_required);
                let rest = trace(q, t, query_index - 1, 0, match_required);
                let grown = seq![0int] + recorded;
                lemma_trace_shape(q, t, query_index - 1, 0, match_required);
                assert(here =~= rest.push(0));
                assert(here + recorded =~= rest + grown);
                recorded = grown;
            }
        }
    }
    proof {
        assert(trace(q, t, -1, choice_index as int, match_required) =~= Seq::<int>::empty());
        assert(whole =~= recorded);
    }
    positions
}

} // verus!
