//! Reading a whole file: its lines, and what they say of the print.

use crate::error::ParseFailure;
use crate::info::{GcodeInfo, GcodeInfoView};
use crate::parser::{Parser, State, lemma_run_refused, lemma_run_step, outcome, run};
use vstd::prelude::*;
use vstd::slice::slice_subrange;

verus! {

/// The length of the first line of `text`: the number of bytes before the
/// first line feed.
pub open spec fn line_len(text: Seq<u8>) -> int
    decreases text.len(),
{
    if text.len() == 0 || text[0] == '\n' as u8 {
        0
    } else {
        1 + line_len(text.drop_first())
    }
}

/// The line without a carriage return at its end.
pub open spec fn without_return(line: Seq<u8>) -> Seq<u8> {
    if line.len() > 0 && line.last() == '\r' as u8 {
        line.drop_last()
    } else {
        line
    }
}

/// The lines of `text`. A line ends with a line feed, or with a carriage
/// return and a line feed, neither of which belongs to it. What follows the
/// last line feed is a line too, unless it is empty.
pub open spec fn lines_of(text: Seq<u8>) -> Seq<Seq<u8>>
    decreases text.len(),
    via lines_of_decreases
{
    if text.len() == 0 {
        Seq::empty()
    } else if line_len(text) >= text.len() {
        seq![text]
    } else {
        seq![without_return(text.take(line_len(text)))] + lines_of(text.skip(line_len(text) + 1))
    }
}

#[via_fn]
proof fn lines_of_decreases(text: Seq<u8>) {
    lemma_line_len_bounds(text);
}

/// The first line lies within the text.
pub proof fn lemma_line_len_bounds(text: Seq<u8>)
    ensures
        0 <= line_len(text) <= text.len(),
    decreases text.len(),
{
    if text.len() == 0 || text[0] == '\n' as u8 {
    } else {
        lemma_line_len_bounds(text.drop_first());
    }
}

/// The first line has `k` bytes where no byte before `k` is a line feed and
/// the text ends at `k` or has a line feed there.
pub proof fn lemma_line_len(text: Seq<u8>, k: int)
    requires
        0 <= k <= text.len(),
        forall|i: int| 0 <= i < k ==> text[i] != '\n' as u8,
        k == text.len() || text[k] == '\n' as u8,
    ensures
        line_len(text) == k,
    decreases k,
{
    if k > 0 {
        let rest = text.drop_first();
        assert forall|i: int| 0 <= i < k - 1 implies rest[i] != '\n' as u8 by {
            assert(rest[i] == text[i + 1]);
        }
        lemma_line_len(rest, k - 1);
    }
}

/// Reads the lines of `text` and gives what they say of the print, or the
/// first refused line with the reason.
pub fn parse_file(text: &[u8]) -> (parsed: Result<GcodeInfo, ParseFailure>)
    ensures
        match parsed {
            Ok(info) => outcome(lines_of(text@)) == Ok::<GcodeInfoView, ParseFailure>(info@),
            Err(failure) => outcome(lines_of(text@)) == Err::<GcodeInfoView, ParseFailure>(
                failure,
            ),
        },
{
    let n: usize = text.len();
    let ghost all = lines_of(text@);
    let ghost mut done: Seq<Seq<u8>> = Seq::empty();
    let mut parser: Parser = Parser::new();
    let mut start: usize = 0;
    let mut number: usize = 0;
    assert(text@.skip(0) =~= text@);
    while start < n
        invariant
            start <= n,
            n == text@.len(),
            number <= start,
            number == done.len(),
            all == lines_of(text@),
            all =~= done + lines_of(text@.skip(start as int)),
            run(State::initial(), done) == Ok::<State, ParseFailure>(parser@),
        decreases n - start,
    {
        let ghost rest = text@.skip(start as int);
        let mut end: usize = start;
        while end < n && text[end] != '\n' as u8
            invariant
                start <= end <= n,
                n == text@.len(),
                forall|j: int| start <= j < end ==> text@[j] != '\n' as u8,
            decreases n - end,
        {
            end += 1;
        }
        proof {
            lemma_line_len(rest, end - start);
        }
        let stop: usize = if end < n && end > start && text[end - 1] == '\r' as u8 {
            end - 1
        } else {
            end
        };
        let next: usize = if end < n {
            end + 1
        } else {
            n
        };
        let line: &[u8] = slice_subrange(text, start, stop);
        proof {
            if end < n {
                assert(rest.take(end - start) =~= text@.subrange(start as int, end as int));
                assert(line@ =~= without_return(rest.take(line_len(rest))));
                assert(rest.skip(line_len(rest) + 1) =~= text@.skip(next as int));
            } else {
                assert(line@ =~= rest);
                assert(text@.skip(next as int) =~= Seq::<u8>::empty());
            }
            assert(lines_of(rest) =~= seq![line@] + lines_of(text@.skip(next as int)));
            assert(all =~= done.push(line@) + lines_of(text@.skip(next as int)));
            assert(all.take(number as int) =~= done);
            assert(all.take(number + 1) =~= done.push(line@));
            lemma_run_step(State::initial(), all, number as int);
        }
        match parser.feed_line(line) {
            Ok(()) => {},
            Err(error) => {
                proof {
                    lemma_run_refused(State::initial(), all, number + 1);
                }
                return Err(ParseFailure { line: number, error });
            },
        }
        proof {
            done = done.push(line@);
        }
        number += 1;
        start = next;
    }
    assert(text@.skip(n as int) =~= Seq::<u8>::empty());
    assert(all =~= done);
    Ok(parser.finish())
}

} // verus!
