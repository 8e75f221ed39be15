//! A payload of lines.
//!
//! ```text
//! batch ::= line ( "\n" line )* [ "\n" ]
//! ```
//!
//! One line break at the very end is allowed and adds no line. Every line
//! has to be a line of the grammar: an empty line is not skipped.

use crate::line::{chomp, line_metric, parse_line};
use crate::metric::{Metric, MetricView, ParseError};
use crate::scan::{find_byte, leading, other_than, NEWLINE};
use vstd::prelude::*;
use vstd::slice::slice_subrange;

verus! {

/// The lines of `s`: what stands before, between and after its line breaks.
pub open spec fn lines(s: Seq<u8>) -> Seq<Seq<u8>>
    decreases s.len(),
{
    let n = leading(s, other_than(NEWLINE)) as int;
    if n >= s.len() {
        seq![s]
    } else {
        seq![s.take(n)] + lines(s.skip(n + 1))
    }
}

/// Every one of `ls` is a line of the grammar.
pub open spec fn all_parse(ls: Seq<Seq<u8>>) -> bool {
    forall|i: int| 0 <= i < ls.len() ==> (#[trigger] line_metric(ls[i])) is Some
}

/// The metrics that a payload stands for, in the order of its lines.
///
/// The empty payload is refused as empty. Any other is cut into lines, after
/// the line break that ends it, if one does, is taken off; it stands for the
/// metrics of its lines where all of them are lines of the grammar, and is
/// malformed where one is not.
pub open spec fn batch_of(input: Seq<u8>) -> Result<Seq<MetricView>, ParseError> {
    if input.len() == 0 {
        Err(ParseError::EmptyInput)
    } else if all_parse(lines(chomp(input))) {
        Ok(lines(chomp(input)).map_values(|l: Seq<u8>| line_metric(l).unwrap()))
    } else {
        Err(ParseError::MalformedInput)
    }
}

/// The models of a sequence of metrics.
pub open spec fn views(ms: Seq<Metric>) -> Seq<MetricView> {
    ms.map_values(|m: Metric| m@)
}

/// Parses a payload of one or more metric lines joined by line breaks.
///
/// Returns the metrics in the order of their lines. One malformed line
/// fails the whole payload.
pub fn parse_batch(input: &[u8]) -> (r: Result<Vec<Metric>, ParseError>)
    ensures
        match r {
            Ok(ms) => batch_of(input@) == Ok::<Seq<MetricView>, ParseError>(views(ms@)),
            Err(e) => batch_of(input@) == Err::<Seq<MetricView>, ParseError>(e),
        },
{
    let n = input.len();
    if n == 0 {
        return Err(ParseError::EmptyInput);
    }
    let end: usize = if input[n - 1] == NEWLINE {
        n - 1
    } else {
        n
    };
    let body = slice_subrange(input, 0, end);
    assert(body@ =~= chomp(input@));
    let mut out: Vec<Metric> = Vec::new();
    let mut pos: usize = 0;
    let ghost mut done: Seq<Seq<u8>> = Seq::empty();
    assert(body@.skip(0) =~= body@);
    loop
        invariant_except_break
            lines(body@) == done + lines(body@.skip(pos as int)),
        invariant
            input@.len() > 0,
            body@ == chomp(input@),
            pos <= end == body.len(),
            out.len() == done.len(),
            forall|i: int| 0 <= i < done.len() ==> line_metric(#[trigger] done[i]) == Some(out[i]@),
        ensures
            lines(body@) == done,
            out.len() == done.len(),
            forall|i: int| 0 <= i < done.len() ==> line_metric(#[trigger] done[i]) == Some(out[i]@),
        decreases end - pos,
    {
        let stop = find_byte(body, pos, NEWLINE);
        let line = slice_subrange(body, pos, stop);
        let ghost rest = body@.skip(pos as int);
        assert(line@ =~= rest.take(stop - pos));
        assert(stop == end ==> line@ =~= rest);
        let ghost index = done.len() as int;
        assert(lines(body@)[index] == line@) by {
            assert(lines(rest)[0] == line@);
        }
        match parse_line(line) {
            Some(m) => {
                out.push(m);
            },
            None => {
                assert(!all_parse(lines(body@)));
                return Err(ParseError::MalformedInput);
            },
        }
        proof {
            done = done.push(line@);
        }
        if stop == end {
            assert(lines(rest) =~= seq![line@]);
            assert(lines(body@) =~= done);
            break ;
        }
        assert(rest.skip(stop - pos + 1) =~= body@.skip(stop + 1));
        assert(lines(body@) =~= done + lines(body@.skip(stop + 1)));
        pos = stop + 1;
    }
    proof {
        let ls = lines(body@);
        assert(all_parse(ls));
        assert(ls.map_values(|l: Seq<u8>| line_metric(l).unwrap()) =~= views(out@));
    }
    Ok(out)
}

} // verus!
