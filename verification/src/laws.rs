//! What holds of the grammar as a whole.

use crate::batch::{all_parse, batch_of, lines};
use crate::line::{
    chomp, line_metric, lemma_line_metric_wf, metric_of, name_and_rest, rate_of_tail,
    type_and_rate, value_and_rest,
};
use crate::metric::{
    counter_token, gauge_token, is_token, set_token, type_of_token, unit_of_token, MetricType,
    MetricView, ParseError,
};
use crate::rate::{is_float_literal, lemma_float_literal_is_plain, lemma_float_literal_is_not_empty};
use crate::scan::{
    alphanumerics, is_alphanumeric, leading, lemma_leading_is, other_than, AT, BAR, COLON, NEWLINE,
};
use vstd::prelude::*;
use vstd::utf8::valid_utf8;

verus! {

/// A text that can stand before the delimiter `d`: non-empty UTF-8 that
/// does not hold `d`.
pub open spec fn is_field(s: Seq<u8>, d: u8) -> bool {
    s.len() > 0 && !s.contains(d) && valid_utf8(s)
}

/// The rate may follow a token.
pub open spec fn is_rate(rate: Option<Seq<u8>>) -> bool {
    rate matches Some(r) ==> is_float_literal(r)
}

/// The line written from a name, a value, a token and a rate.
pub open spec fn compose(
    name: Seq<u8>,
    value: Seq<u8>,
    token: Seq<u8>,
    rate: Option<Seq<u8>>,
) -> Seq<u8> {
    (MetricView {
        name,
        value,
        metric_type: type_of_token(token),
        unit: unit_of_token(token),
        sample_rate: rate,
    }).line()
}

/// A line written from valid parts is read back as those parts: the type
/// is the one the token stands for, the unit is the token where it is not
/// reserved, and the rate is the literal that was written.
pub proof fn law_written_line_is_read(
    name: Seq<u8>,
    value: Seq<u8>,
    token: Seq<u8>,
    rate: Option<Seq<u8>>,
)
    requires
        is_field(name, COLON),
        is_field(value, BAR),
        is_token(token),
        is_rate(rate),
    ensures
        name + seq![COLON] + value + seq![BAR] + token + (match rate {
            Some(r) => seq![BAR, AT] + r,
            None => Seq::empty(),
        }) == compose(name, value, token, rate),
        metric_of(compose(name, value, token, rate)) == Some(
            MetricView {
                name,
                value,
                metric_type: type_of_token(token),
                unit: unit_of_token(token),
                sample_rate: rate,
            },
        ),
{
    let m = MetricView {
        name,
        value,
        metric_type: type_of_token(token),
        unit: unit_of_token(token),
        sample_rate: rate,
    };
    assert(m.token() == token);
    let line = compose(name, value, token, rate);
    let suffix = m.suffix();
    let after_value = token + suffix;
    let after_name = value + seq![BAR] + after_value;
    assert(line =~= name + seq![COLON] + after_name);

    // The line ends in a byte of the token or of the rate, never in a line break.
    assert(line.last() != NEWLINE) by {
        match rate {
            Some(r) => {
                lemma_float_literal_is_not_empty(r);
                lemma_float_literal_is_plain(r);
                assert(line.last() == r.last());
            },
            None => {
                assert(line.last() == token.last());
                assert(is_alphanumeric(token.last()));
            },
        }
    }
    assert(chomp(line) == line);

    assert(name_and_rest(line) == Some((name, after_name))) by {
        assert forall|i: int| 0 <= i < name.len() implies other_than(COLON)(#[trigger] line[i]) by {
            assert(name.contains(name[i]));
        }
        lemma_leading_is(line, other_than(COLON), name.len() as int);
        assert(line.take(name.len() as int) =~= name);
        assert(line.skip(name.len() as int + 1) =~= after_name);
    }
    assert(value_and_rest(after_name) == Some((value, after_value))) by {
        assert forall|i: int| 0 <= i < value.len() implies other_than(BAR)(
            #[trigger] after_name[i],
        ) by {
            assert(value.contains(value[i]));
        }
        lemma_leading_is(after_name, other_than(BAR), value.len() as int);
        assert(after_name.take(value.len() as int) =~= value);
        assert(after_name.skip(value.len() as int + 1) =~= after_value);
    }
    assert(type_and_rate(after_value) == Some((token, rate))) by {
        assert forall|i: int| 0 <= i < token.len() implies alphanumerics()(
            #[trigger] after_value[i],
        ) by {
            assert(is_alphanumeric(token[i]));
        }
        if suffix.len() > 0 {
            assert(after_value[token.len() as int] == BAR);
        }
        lemma_leading_is(after_value, alphanumerics(), token.len() as int);
        assert(after_value.take(token.len() as int) =~= token);
        assert(after_value.skip(token.len() as int) =~= suffix);
        match rate {
            Some(r) => {
                assert(suffix.skip(2) =~= r);
            },
            None => {},
        }
        assert(rate_of_tail(suffix) == Some(rate));
    }
}

/// A line whose token is one of the reserved `c`, `g` and `s` is a
/// counter, a gauge or a set, and has no unit.
pub proof fn law_reserved_token_names_type(name: Seq<u8>, value: Seq<u8>)
    requires
        is_field(name, COLON),
        is_field(value, BAR),
    ensures
        metric_of(name + seq![COLON] + value + seq![BAR] + counter_token()) == Some(
            MetricView {
                name,
                value,
                metric_type: MetricType::Counter,
                unit: None,
                sample_rate: None,
            },
        ),
        metric_of(name + seq![COLON] + value + seq![BAR] + gauge_token()) == Some(
            MetricView { name, value, metric_type: MetricType::Gauge, unit: None, sample_rate: None },
        ),
        metric_of(name + seq![COLON] + value + seq![BAR] + set_token()) == Some(
            MetricView {
                name,
                value,
                metric_type: MetricType::UniqueSet,
                unit: None,
                sample_rate: None,
            },
        ),
{
    law_written_line_is_read(name, value, counter_token(), None);
    law_written_line_is_read(name, value, gauge_token(), None);
    law_written_line_is_read(name, value, set_token(), None);
    assert(counter_token() != gauge_token()) by {
        assert(counter_token()[0] != gauge_token()[0]);
    }
    assert(counter_token() != set_token()) by {
        assert(counter_token()[0] != set_token()[0]);
    }
    assert(gauge_token() != set_token()) by {
        assert(gauge_token()[0] != set_token()[0]);
    }
    assert(name + seq![COLON] + value + seq![BAR] + counter_token() + Seq::<u8>::empty() =~= name
        + seq![COLON] + value + seq![BAR] + counter_token());
    assert(name + seq![COLON] + value + seq![BAR] + gauge_token() + Seq::<u8>::empty() =~= name
        + seq![COLON] + value + seq![BAR] + gauge_token());
    assert(name + seq![COLON] + value + seq![BAR] + set_token() + Seq::<u8>::empty() =~= name
        + seq![COLON] + value + seq![BAR] + set_token());
}

/// A line whose token is not reserved is a sample, and the token is its
/// unit, byte for byte.
pub proof fn law_other_token_is_unit(name: Seq<u8>, value: Seq<u8>, unit: Seq<u8>)
    requires
        is_field(name, COLON),
        is_field(value, BAR),
        is_token(unit),
        unit != counter_token(),
        unit != gauge_token(),
        unit != set_token(),
    ensures
        metric_of(name + seq![COLON] + value + seq![BAR] + unit) == Some(
            MetricView {
                name,
                value,
                metric_type: MetricType::Sample,
                unit: Some(unit),
                sample_rate: None,
            },
        ),
{
    law_written_line_is_read(name, value, unit, None);
    assert(name + seq![COLON] + value + seq![BAR] + unit + Seq::<u8>::empty() =~= name + seq![
        COLON,
    ] + value + seq![BAR] + unit);
}

/// A line with `|@` and a floating-point literal after its token is the
/// metric of the line without them, with that literal as its rate.
pub proof fn law_rate_is_kept(name: Seq<u8>, value: Seq<u8>, token: Seq<u8>, rate: Seq<u8>)
    requires
        is_field(name, COLON),
        is_field(value, BAR),
        is_token(token),
        is_float_literal(rate),
    ensures
        metric_of(name + seq![COLON] + value + seq![BAR] + token) matches Some(plain) && metric_of(
            name + seq![COLON] + value + seq![BAR] + token + seq![BAR, AT] + rate,
        ) == Some(
            MetricView {
                name: plain.name,
                value: plain.value,
                metric_type: plain.metric_type,
                unit: plain.unit,
                sample_rate: Some(rate),
            },
        ),
{
    law_written_line_is_read(name, value, token, None);
    law_written_line_is_read(name, value, token, Some(rate));
    assert(name + seq![COLON] + value + seq![BAR] + token + Seq::<u8>::empty() =~= name + seq![
        COLON,
    ] + value + seq![BAR] + token);
    assert(name + seq![COLON] + value + seq![BAR] + token + (seq![BAR, AT] + rate) =~= name + seq![
        COLON,
    ] + value + seq![BAR] + token + seq![BAR, AT] + rate);
}

/// Whatever is read from an input is a well-formed metric.
pub proof fn law_read_metric_is_well_formed(input: Seq<u8>)
    requires
        metric_of(input) is Some,
    ensures
        metric_of(input).unwrap().wf(),
{
    lemma_line_metric_wf(chomp(input));
}

/// The line that stands for a well-formed metric is read back as that
/// metric.
pub proof fn law_line_of_metric_is_read(m: MetricView)
    requires
        m.wf(),
    ensures
        metric_of(m.line()) == Some(m),
{
    let token = m.token();
    assert(is_token(token) && type_of_token(token) == m.metric_type && unit_of_token(token)
        == m.unit) by {
        assert(counter_token() != gauge_token()) by {
            assert(counter_token()[0] != gauge_token()[0]);
        }
        assert(counter_token() != set_token()) by {
            assert(counter_token()[0] != set_token()[0]);
        }
        assert(gauge_token() != set_token()) by {
            assert(gauge_token()[0] != set_token()[0]);
        }
        assert(is_alphanumeric(counter_token()[0]));
        assert(is_alphanumeric(gauge_token()[0]));
        assert(is_alphanumeric(set_token()[0]));
    }
    law_written_line_is_read(m.name, m.value, token, m.sample_rate);
}

/// Writing the metric that was read from an input as a line, and reading
/// that line, gives the same metric again.
pub proof fn law_round_trip(input: Seq<u8>)
    requires
        metric_of(input) is Some,
    ensures
        metric_of(metric_of(input).unwrap().line()) == metric_of(input),
{
    law_read_metric_is_well_formed(input);
    law_line_of_metric_is_read(metric_of(input).unwrap());
}

/// One line break at the very end of an input changes nothing: a line and
/// a payload are read alike with and without it.
pub proof fn law_final_line_break_is_optional(input: Seq<u8>)
    requires
        input.len() > 0,
        input.last() != NEWLINE,
    ensures
        metric_of(input + seq![NEWLINE]) == metric_of(input),
        batch_of(input + seq![NEWLINE]) == batch_of(input),
{
    assert(chomp(input + seq![NEWLINE]) =~= input);
}

/// A payload is read line by line: what stands before its first line
/// break is read as a line of its own, what stands after it as a payload of
/// its own, and the first metric comes first.
pub proof fn law_batch_is_read_line_by_line(head: Seq<u8>, rest: Seq<u8>)
    requires
        !head.contains(NEWLINE),
        rest.len() > 0,
    ensures
        batch_of(head + seq![NEWLINE] + rest) == match (line_metric(head), batch_of(rest)) {
            (Some(m), Ok(ms)) => Ok(seq![m] + ms),
            _ => Err(ParseError::MalformedInput),
        },
{
    let input = head + seq![NEWLINE] + rest;
    let body = head + seq![NEWLINE] + chomp(rest);
    assert(chomp(input) =~= body);
    assert forall|i: int| 0 <= i < head.len() implies other_than(NEWLINE)(#[trigger] body[i]) by {
        assert(head.contains(head[i]));
    }
    lemma_leading_is(body, other_than(NEWLINE), head.len() as int);
    assert(body.take(head.len() as int) =~= head);
    assert(body.skip(head.len() as int + 1) =~= chomp(rest));
    let later = lines(chomp(rest));
    let all = lines(body);
    assert(all == seq![head] + later);
    let read = |l: Seq<u8>| line_metric(l).unwrap();
    if all_parse(all) {
        assert(line_metric(all[0]) is Some);
        assert forall|i: int| 0 <= i < later.len() implies (#[trigger] line_metric(
            later[i],
        )) is Some by {
            assert(later[i] == all[i + 1]);
        }
        assert(all.map_values(read) =~= seq![line_metric(head).unwrap()] + later.map_values(read));
    } else if line_metric(head) is Some && all_parse(later) {
        assert forall|i: int| 0 <= i < all.len() implies (#[trigger] line_metric(all[i])) is Some by {
            if i > 0 {
                assert(all[i] == later[i - 1]);
            }
        }
    }
}

/// A payload of a single line stands for the one metric of that line.
pub proof fn law_batch_of_one_line(input: Seq<u8>)
    requires
        input.len() > 0,
        !chomp(input).contains(NEWLINE),
    ensures
        batch_of(input) == match metric_of(input) {
            Some(m) => Ok(seq![m]),
            None => Err(ParseError::MalformedInput),
        },
{
    let body = chomp(input);
    assert forall|i: int| 0 <= i < body.len() implies other_than(NEWLINE)(#[trigger] body[i]) by {
        assert(body.contains(body[i]));
    }
    lemma_leading_is(body, other_than(NEWLINE), body.len() as int);
    assert(lines(body) =~= seq![body]);
    let read = |l: Seq<u8>| line_metric(l).unwrap();
    if line_metric(body) is Some {
        assert(all_parse(lines(body)));
        assert(lines(body).map_values(read) =~= seq![line_metric(body).unwrap()]);
    } else {
        assert(line_metric(lines(body)[0]) is None);
    }
}

} // verus!
