//! The grammar of a single line, and the function that reads one.
//!
//! ```text
//! line  ::= name ":" value "|" token [ "|@" rate ]
//! name  ::= one or more bytes other than ":"
//! value ::= one or more bytes other than "|"
//! token ::= one or more ASCII letters and digits
//! ```
//!
//! Name and value are UTF-8 texts; the rate is a floating-point literal.

use crate::metric::{
    bytes_of, is_token, type_of_token, unit_of_token, Metric, MetricType, MetricView, ParseError,
};
use crate::rate::{is_float_literal, is_rate_literal, lemma_float_literal_is_plain};
use crate::scan::{
    alphanumerics, find_byte, leading, lemma_leading, other_than, AT, BAR, COLON, NEWLINE,
};
use crate::text::{lemma_ascii_is_utf8, utf8_text};
use crate::token::{alphanumeric, parse_metric_type, parse_unit};
use vstd::prelude::*;
use vstd::slice::slice_subrange;
use vstd::string::StringSliceAdditionalSpecFns;
use vstd::utf8::valid_utf8;

verus! {

/// What follows the token: nothing, and then the metric has no rate, or
/// `|@` and a floating-point literal up to the end, which is its rate.
/// `None` where `tail` is neither.
pub open spec fn rate_of_tail(tail: Seq<u8>) -> Option<Option<Seq<u8>>> {
    if tail.len() == 0 {
        Some(None)
    } else if tail.len() >= 2 && tail[0] == BAR && tail[1] == AT && is_float_literal(tail.skip(2)) {
        Some(Some(tail.skip(2)))
    } else {
        None
    }
}

/// What follows the value's `|`: a token, which gives the type and the
/// unit, and then the rate, if any.
pub open spec fn type_and_rate(s: Seq<u8>) -> Option<(Seq<u8>, Option<Seq<u8>>)> {
    let n = leading(s, alphanumerics()) as int;
    if n == 0 {
        None
    } else {
        match rate_of_tail(s.skip(n)) {
            Some(rate) => Some((s.take(n), rate)),
            None => None,
        }
    }
}

/// What follows the name's `:`: a value that is a non-empty UTF-8 text, its
/// closing `|`, and the rest of the line.
pub open spec fn value_and_rest(s: Seq<u8>) -> Option<(Seq<u8>, Seq<u8>)> {
    let n = leading(s, other_than(BAR)) as int;
    if n == 0 || n == s.len() || !valid_utf8(s.take(n)) {
        None
    } else {
        Some((s.take(n), s.skip(n + 1)))
    }
}

/// The name of a line, a non-empty UTF-8 text before the first `:`, and
/// what follows that `:`.
pub open spec fn name_and_rest(line: Seq<u8>) -> Option<(Seq<u8>, Seq<u8>)> {
    let n = leading(line, other_than(COLON)) as int;
    if n == 0 || n == line.len() || !valid_utf8(line.take(n)) {
        None
    } else {
        Some((line.take(n), line.skip(n + 1)))
    }
}

/// The metric that `line` stands for, where it is a line of the grammar.
pub open spec fn line_metric(line: Seq<u8>) -> Option<MetricView> {
    match name_and_rest(line) {
        None => None,
        Some((name, after_name)) => match value_and_rest(after_name) {
            None => None,
            Some((value, after_value)) => match type_and_rate(after_value) {
                None => None,
                Some((token, sample_rate)) => Some(
                    MetricView {
                        name,
                        value,
                        metric_type: type_of_token(token),
                        unit: unit_of_token(token),
                        sample_rate,
                    },
                ),
            },
        },
    }
}

/// `s` without the line break that ends it, if one does.
pub open spec fn chomp(s: Seq<u8>) -> Seq<u8> {
    if s.len() > 0 && s.last() == NEWLINE {
        s.drop_last()
    } else {
        s
    }
}

/// The metric that `input` stands for: `input` is one line, with or
/// without the line break that ends it.
pub open spec fn metric_of(input: Seq<u8>) -> Option<MetricView> {
    line_metric(chomp(input))
}

/// Every metric that a line stands for is well formed.
pub proof fn lemma_line_metric_wf(line: Seq<u8>)
    requires
        line_metric(line) is Some,
    ensures
        line_metric(line).unwrap().wf(),
{
    let (name, after_name) = name_and_rest(line).unwrap();
    let (value, after_value) = value_and_rest(after_name).unwrap();
    let (token, sample_rate) = type_and_rate(after_value).unwrap();
    lemma_leading(line, other_than(COLON));
    lemma_leading(after_name, other_than(BAR));
    lemma_leading(after_value, alphanumerics());
    assert forall|i: int| 0 <= i < name.len() implies name[i] != COLON by {
        assert(other_than(COLON)(line[i]));
    }
    assert forall|i: int| 0 <= i < value.len() implies value[i] != BAR by {
        assert(other_than(BAR)(after_name[i]));
    }
    assert forall|i: int| 0 <= i < token.len() implies crate::scan::is_alphanumeric(
        #[trigger] token[i],
    ) by {
        assert(alphanumerics()(after_value[i]));
    }
}

/// Reads the rate that follows a token.
///
/// Returns `Some(None)` where `tail` is empty, `Some(Some(rate))` where it
/// is `|@` and a floating-point literal, and `None` otherwise.
pub fn sample_rate<'a>(tail: &'a [u8]) -> (r: Option<Option<&'a str>>)
    ensures
        match r {
            Some(Some(rate)) => rate_of_tail(tail@) == Some(Some(rate.spec_bytes())),
            Some(None) => rate_of_tail(tail@) == Some(None::<Seq<u8>>),
            None => rate_of_tail(tail@) is None,
        },
{
    let n = tail.len();
    if n == 0 {
        return Some(None);
    }
    if n < 2 || tail[0] != BAR || tail[1] != AT {
        return None;
    }
    let literal = slice_subrange(tail, 2, n);
    assert(literal@ =~= tail@.skip(2));
    if !is_rate_literal(literal) {
        return None;
    }
    proof {
        lemma_float_literal_is_plain(literal@);
        lemma_ascii_is_utf8(literal@);
    }
    match utf8_text(literal) {
        Some(rate) => Some(Some(rate)),
        None => None,
    }
}

/// Reads one line that holds no line break of its own.
pub(crate) fn parse_line(line: &[u8]) -> (r: Option<Metric>)
    ensures
        match r {
            Some(m) => line_metric(line@) == Some(m@),
            None => line_metric(line@) is None,
        },
{
    let n = line.len();
    let colon = find_byte(line, 0, COLON);
    assert(line@.skip(0) =~= line@);
    if colon == 0 || colon == n {
        return None;
    }
    let name_bytes = slice_subrange(line, 0, colon);
    assert(name_bytes@ =~= line@.take(colon as int));
    let name = match utf8_text(name_bytes) {
        Some(name) => name,
        None => {
            return None;
        },
    };
    let ghost after_name = line@.skip(colon + 1);
    let bar = find_byte(line, colon + 1, BAR);
    if bar == colon + 1 || bar == n {
        return None;
    }
    let value_bytes = slice_subrange(line, colon + 1, bar);
    assert(value_bytes@ =~= after_name.take(bar - colon - 1));
    let value = match utf8_text(value_bytes) {
        Some(value) => value,
        None => {
            return None;
        },
    };
    let after_value = slice_subrange(line, bar + 1, n);
    assert(after_value@ =~= after_name.skip(bar - colon));
    let (tail, token_bytes) = match alphanumeric(after_value) {
        Some(parts) => parts,
        None => {
            return None;
        },
    };
    let rate = match sample_rate(tail) {
        Some(rate) => rate,
        None => {
            return None;
        },
    };
    proof {
        lemma_line_metric_wf(line@);
        assert(is_token(token_bytes@));
        assert forall|i: int| 0 <= i < token_bytes@.len() implies #[trigger] token_bytes@[i]
            < 0x80 by {
            assert(crate::scan::is_alphanumeric(token_bytes@[i]));
        }
        lemma_ascii_is_utf8(token_bytes@);
    }
    let token = match utf8_text(token_bytes) {
        Some(token) => token,
        None => {
            return None;
        },
    };
    let metric_type = parse_metric_type(token);
    let unit = parse_unit(token);
    assert(bytes_of(unit) == unit_of_token(token_bytes@));
    Some(Metric::assemble(name, value, metric_type, unit, rate))
}

/// Parses a single metric line, with or without the line break that ends
/// it.
///
/// Succeeds exactly on the inputs that are a line of the grammar, and then
/// returns the metric the line stands for. Every other input, the empty one
/// among them, is malformed.
pub fn parse_metric(input: &[u8]) -> (r: Result<Metric, ParseError>)
    ensures
        match r {
            Ok(m) => metric_of(input@) == Some(m@),
            Err(e) => e == ParseError::MalformedInput && metric_of(input@) is None,
        },
{
    let n = input.len();
    let end: usize = if n > 0 && input[n - 1] == NEWLINE {
        n - 1
    } else {
        n
    };
    let line = slice_subrange(input, 0, end);
    assert(line@ =~= chomp(input@));
    match parse_line(line) {
        Some(m) => Ok(m),
        None => Err(ParseError::MalformedInput),
    }
}

} // verus!
