//! The input: one candidate for each of its lines.

use vstd::prelude::*;
use vstd::slice::slice_subrange;
use vstd::utf8::{decode_utf8, valid_utf8};
use crate::choice::Choice;
use crate::config::Config;

verus! {

/// The byte that ends a line.
pub const LINE_FEED: u8 = 10;

/// The byte that may stand before the end of a line, and is no part of it.
pub const CARRIAGE_RETURN: u8 = 13;

/// The index of the first line feed of `input` at `from` or after it, or
/// the length of `input` where there is none.
pub open spec fn line_end(input: Seq<u8>, from: int) -> int
    decreases input.len() - from,
{
    if from >= input.len() {
        input.len() as int
    } else if input[from] == LINE_FEED {
        from
    } else {
        line_end(input, from + 1)
    }
}

/// `line` without the carriage return at its end, if it has one.
pub open spec fn without_return(line: Seq<u8>) -> Seq<u8> {
    if line.len() > 0 && line.last() == CARRIAGE_RETURN {
        line.drop_last()
    } else {
        line
    }
}

/// The lines of `input` from the byte `from` on: each reaches up to the
/// next line feed, or to the end of the input, and goes without the
/// carriage return at its end. After the last line feed there is a line
/// only if there are bytes.
pub open spec fn lines_from(input: Seq<u8>, from: int) -> Seq<Seq<u8>>
    decreases input.len() - from,
    via lines_from_decreases
{
    if from < 0 || from >= input.len() {
        Seq::empty()
    } else {
        seq![without_return(input.subrange(from, line_end(input, from)))] + (if line_end(
            input,
            from,
        ) < input.len() {
            lines_from(input, line_end(input, from) + 1)
        } else {
            Seq::empty()
        })
    }
}

#[via_fn]
proof fn lines_from_decreases(input: Seq<u8>, from: int) {
    if 0 <= from < input.len() {
        lemma_line_end(input, from);
    }
}

/// A line ends at its start or after it, and within the input.
pub proof fn lemma_line_end(input: Seq<u8>, from: int)
    requires
        0 <= from <= input.len(),
    ensures
        from <= line_end(input, from) <= input.len(),
        line_end(input, from) < input.len() ==> input[line_end(input, from)] == LINE_FEED,
        forall|k: int| from <= k < line_end(input, from) ==> input[k] != LINE_FEED,
    decreases input.len() - from,
{
    if from < input.len() && input[from] != LINE_FEED {
        lemma_line_end(input, from + 1);
    }
}

/// The lines of `input`.
pub open spec fn lines(input: Seq<u8>) -> Seq<Seq<u8>> {
    lines_from(input, 0)
}

/// Whether `candidates` are what `config` makes of `lines`, in their order:
/// `from` names the line of each candidate. A line has its candidate where
/// it is UTF-8 and `config` makes one of its text, and only there.
pub open spec fn read_by(
    lines: Seq<Seq<u8>>,
    config: &Config,
    candidates: Seq<Choice>,
    from: Seq<int>,
) -> bool {
    &&& from.len() == candidates.len()
    &&& forall|k: int|
        0 <= k < from.len() ==> 0 <= #[trigger] from[k] < lines.len() && valid_utf8(
            lines[from[k]],
        ) && candidates[k].comes_of(decode_utf8(lines[from[k]]), config)
    &&& forall|a: int, b: int| 0 <= a < b < from.len() ==> from[a] < from[b]
    &&& forall|i: int|
        0 <= i < lines.len() && valid_utf8(#[trigger] lines[i]) && Choice::is_made(
            decode_utf8(lines[i]),
            config,
        ) ==> from.contains(i)
}

/// `std::str::from_utf8`: the text that `bytes` encode, where they are
/// UTF-8, and nothing where they are not.
#[verifier::external_body]
fn decode(bytes: &[u8]) -> (r: Option<&str>)
    ensures
        r.is_some() == valid_utf8(bytes@),
        r matches Some(text) ==> text@ == decode_utf8(bytes@),
{
    std::str::from_utf8(bytes).ok()
}

/// The end of the line that starts at `from`.
fn find_line_end(input: &[u8], from: usize) -> (end: usize)
    requires
        from <= input@.len(),
    ensures
        end == line_end(input@, from as int),
        from <= end <= input@.len(),
{
    proof {
        lemma_line_end(input@, from as int);
    }
    let mut end: usize = from;
    while end < input.len() && input[end] != LINE_FEED
        invariant
            from <= end <= input@.len(),
            line_end(input@, from as int) == line_end(input@, end as int),
        decreases input@.len() - end,
    {
        end = end + 1;
    }
    end
}

/// `line` without the carriage return at its end, if it has one.
fn strip_return(line: &[u8]) -> (r: &[u8])
    ensures
        r@ == without_return(line@),
{
    let len = line.len();
    if len > 0 && line[len - 1] == CARRIAGE_RETURN {
        slice_subrange(line, 0, len - 1)
    } else {
        line
    }
}

/// The candidates of `input`, one for each line, in the order of the lines.
/// A line that is no UTF-8 is passed over, and so is a line of which
/// `config` makes no candidate; every other line has its candidate.
pub fn candidates(input: &[u8], config: &Config) -> (r: Vec<Choice>)
    ensures
        forall|k: int| 0 <= k < r@.len() ==> (#[trigger] r@[k]).wf(),
        exists|from: Seq<int>| read_by(lines(input@), config, r@, from),
{
    let mut out: Vec<Choice> = Vec::new();
    let ghost mut from: Seq<int> = Seq::empty();
    let ghost mut seen: Seq<Seq<u8>> = Seq::empty();
    let mut start: usize = 0;
    while start < input.len()
        invariant
            start <= input@.len(),
            lines(input@) == seen + lines_from(input@, start as int),
            from.len() == out@.len(),
            forall|k: int| 0 <= k < out@.len() ==> (#[trigger] out@[k]).wf(),
            forall|k: int|
                0 <= k < from.len() ==> 0 <= #[trigger] from[k] < seen.len() && valid_utf8(
                    seen[from[k]],
                ) && out@[k].comes_of(decode_utf8(seen[from[k]]), config),
            forall|a: int, b: int| 0 <= a < b < from.len() ==> from[a] < from[b],
            forall|i: int|
                0 <= i < seen.len() && valid_utf8(#[trigger] seen[i]) && Choice::is_made(
                    decode_utf8(seen[i]),
                    config,
                ) ==> from.contains(i),
        decreases input@.len() - start,
    {
        let end = find_line_end(input, start);
        let line = strip_return(slice_subrange(input, start, end));
        let ghost before = from;
        let ghost index = seen.len() as int;
        proof {
            let rest = lines_from(
                input@,
                if end < input@.len() {
                    end + 1
                } else {
                    end as int
                },
            );
            assert(lines_from(input@, start as int) == seq![line@] + rest);
            assert(seen + (seq![line@] + rest) =~= seen.push(line@) + rest);
            seen = seen.push(line@);
        }
        match decode(line) {
            Some(text) => match Choice::new(text, config) {
                Some(candidate) => {
                    out.push(candidate);
                    proof {
                        from = before.push(index);
                        assert(from[from.len() - 1] == index);
                    }
                },
                None => {},
            },
            None => {},
        }
        proof {
            assert forall|i: int|
                0 <= i < seen.len() && valid_utf8(#[trigger] seen[i]) && Choice::is_made(
                    decode_utf8(seen[i]),
                    config,
                ) implies from.contains(i) by {
                if i < index {
                    let at = choose|at: int| 0 <= at < before.len() && before[at] == i;
                    assert(from[at] == i);
                } else {
                    assert(from[from.len() - 1] == i);
                }
            }
        }
        start = if end < input.len() {
            end + 1
        } else {
            end
        };
    }
    proof {
        assert(lines(input@) =~= seen);
        assert(read_by(lines(input@), config, out@, from));
    }
    out
}

} // verus!
