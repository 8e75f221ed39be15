//! The metric record and its mathematical model.

use crate::rate::is_float_literal;
use crate::scan::{is_alphanumeric, AT, BAR, COLON};
use vstd::prelude::*;
use vstd::string::StringSliceAdditionalSpecFns;
use vstd::utf8::{encode_utf8, valid_utf8};

verus! {

/// All possible types of a metric.
#[derive(Debug, Clone, Copy, PartialEq, Eq, Structural)]
pub enum MetricType {
    /// A counter adds the value sent with the metric to a bucket as a new
    /// increment.
    Counter,
    /// A gauge is an arbitrary value that can be recorded and then added to
    /// or subtracted from with a subsequent signed metric.
    Gauge,
    /// A sample represents a timing. For each flush interval a backend
    /// calculates aggregates like percentiles, mean and standard deviation.
    Sample,
    /// A set tracks unique occurrences of values between flushes.
    UniqueSet,
}

/// Why an input was not parsed.
#[derive(Debug, Clone, Copy, PartialEq, Eq, Structural)]
pub enum ParseError {
    /// The bytes do not match the grammar: a delimiter is missing, a
    /// required segment is empty or is not UTF-8, the rate is no
    /// floating-point literal, or bytes follow the end of the line.
    MalformedInput,
    /// A batch was asked for and the input holds no byte.
    EmptyInput,
}

/// `c`, the token of a counter.
pub open spec fn counter_token() -> Seq<u8> {
    seq![0x63u8]
}

/// `g`, the token of a gauge.
pub open spec fn gauge_token() -> Seq<u8> {
    seq![0x67u8]
}

/// `s`, the token of a set.
pub open spec fn set_token() -> Seq<u8> {
    seq![0x73u8]
}

/// A discriminator token: one or more ASCII letters and digits.
pub open spec fn is_token(t: Seq<u8>) -> bool {
    t.len() > 0 && forall|i: int| 0 <= i < t.len() ==> is_alphanumeric(#[trigger] t[i])
}

/// The type that a discriminator token stands for: the three reserved
/// tokens name their types, every other token is a sample's unit.
pub open spec fn type_of_token(t: Seq<u8>) -> MetricType {
    if t == counter_token() {
        MetricType::Counter
    } else if t == gauge_token() {
        MetricType::Gauge
    } else if t == set_token() {
        MetricType::UniqueSet
    } else {
        MetricType::Sample
    }
}

/// The unit that a discriminator token carries: the token itself for a
/// sample, none for the reserved tokens.
pub open spec fn unit_of_token(t: Seq<u8>) -> Option<Seq<u8>> {
    if type_of_token(t) == MetricType::Sample {
        Some(t)
    } else {
        None
    }
}

/// A metric as the contracts see it: each text by the bytes that encode it.
pub ghost struct MetricView {
    pub name: Seq<u8>,
    pub value: Seq<u8>,
    pub metric_type: MetricType,
    pub unit: Option<Seq<u8>>,
    pub sample_rate: Option<Seq<u8>>,
}

impl MetricView {
    /// What holds of every metric: name and value are non-empty UTF-8 texts
    /// free of the delimiter that ends them, a unit is there exactly for a
    /// sample and is a token that is not reserved, and a rate is a
    /// floating-point literal.
    pub open spec fn wf(self) -> bool {
        &&& self.name.len() > 0
        &&& !self.name.contains(COLON)
        &&& valid_utf8(self.name)
        &&& self.value.len() > 0
        &&& !self.value.contains(BAR)
        &&& valid_utf8(self.value)
        &&& self.unit is Some <==> self.metric_type == MetricType::Sample
        &&& self.unit matches Some(u) ==> is_token(u) && type_of_token(u) == MetricType::Sample
        &&& self.sample_rate matches Some(r) ==> is_float_literal(r)
    }

    /// The discriminator token that the metric is written with.
    pub open spec fn token(self) -> Seq<u8> {
        match self.metric_type {
            MetricType::Counter => counter_token(),
            MetricType::Gauge => gauge_token(),
            MetricType::UniqueSet => set_token(),
            MetricType::Sample => self.unit.unwrap(),
        }
    }

    /// The rate as it follows the token: `|@` and the literal, or nothing.
    pub open spec fn suffix(self) -> Seq<u8> {
        match self.sample_rate {
            Some(r) => seq![BAR, AT] + r,
            None => Seq::empty(),
        }
    }

    /// The line that stands for the metric: `name:value|token`, then `|@`
    /// and the rate where there is one.
    pub open spec fn line(self) -> Seq<u8> {
        self.name + seq![COLON] + self.value + seq![BAR] + self.token() + self.suffix()
    }
}

/// The bytes of an optional text.
pub open spec fn bytes_of(text: Option<String>) -> Option<Seq<u8>> {
    match text {
        Some(t) => Some(encode_utf8(t@)),
        None => None,
    }
}

/// A single emitted metric: a name, a value and a type, with a unit where
/// the type is a sample, and the rate at which it was sampled where one was
/// sent.
#[derive(Debug, PartialEq, Eq)]
pub struct Metric {
    name: String,
    value: String,
    metric_type: MetricType,
    unit: Option<String>,
    sample_rate: Option<String>,
}

impl View for Metric {
    type V = MetricView;

    closed spec fn view(&self) -> MetricView {
        MetricView {
            name: encode_utf8(self.name@),
            value: encode_utf8(self.value@),
            metric_type: self.metric_type,
            unit: bytes_of(self.unit),
            sample_rate: bytes_of(self.sample_rate),
        }
    }
}

impl Metric {
    #[verifier::type_invariant]
    closed spec fn well_formed(&self) -> bool {
        self@.wf()
    }

    /// Puts a metric together from its parts.
    pub(crate) fn assemble(
        name: &str,
        value: &str,
        metric_type: MetricType,
        unit: Option<String>,
        sample_rate: Option<&str>,
    ) -> (m: Metric)
        requires
            (MetricView {
                name: name.spec_bytes(),
                value: value.spec_bytes(),
                metric_type,
                unit: bytes_of(unit),
                sample_rate: match sample_rate {
                    Some(r) => Some(r.spec_bytes()),
                    None => None,
                },
            }).wf(),
        ensures
            m@ == (MetricView {
                name: name.spec_bytes(),
                value: value.spec_bytes(),
                metric_type,
                unit: bytes_of(unit),
                sample_rate: match sample_rate {
                    Some(r) => Some(r.spec_bytes()),
                    None => None,
                },
            }),
    {
        let sample_rate = match sample_rate {
            Some(r) => Some(r.to_owned()),
            None => None,
        };
        Metric { name: name.to_owned(), value: value.to_owned(), metric_type, unit, sample_rate }
    }

    /// The metric's name.
    pub fn name(&self) -> (r: &str)
        ensures
            r.spec_bytes() == self@.name,
    {
        self.name.as_str()
    }

    /// The metric's value, as it was written.
    pub fn value(&self) -> (r: &str)
        ensures
            r.spec_bytes() == self@.value,
    {
        self.value.as_str()
    }

    /// The type of the metric.
    pub fn metric_type(&self) -> (r: MetricType)
        ensures
            r == self@.metric_type,
    {
        self.metric_type
    }

    /// The unit of measurement of a sample, such as `ms`; `None` for every
    /// other type.
    pub fn unit(&self) -> (r: Option<&str>)
        ensures
            r is Some <==> self@.metric_type == MetricType::Sample,
            match r {
                Some(u) => self@.unit == Some(u.spec_bytes()),
                None => self@.unit is None,
            },
    {
        proof {
            use_type_invariant(self);
        }
        match &self.unit {
            Some(u) => Some(u.as_str()),
            None => None,
        }
    }

    /// The rate at which the metric is sampled, as the floating-point
    /// literal that was sent; `None` where none was sent.
    pub fn sample_rate(&self) -> (r: Option<&str>)
        ensures
            match r {
                Some(t) => self@.sample_rate == Some(t.spec_bytes()) && is_float_literal(
                    t.spec_bytes(),
                ),
                None => self@.sample_rate is None,
            },
    {
        proof {
            use_type_invariant(self);
        }
        match &self.sample_rate {
            Some(t) => Some(t.as_str()),
            None => None,
        }
    }

    /// Writes the metric as the line that stands for it: `name:value|token`,
    /// then `|@` and the rate where there is one. Read again, the line gives
    /// this metric.
    pub fn to_line(&self) -> (out: Vec<u8>)
        ensures
            out@ == self@.line(),
            self@.wf(),
            crate::line::metric_of(out@) == Some(self@),
    {
        proof {
            use_type_invariant(self);
            crate::laws::law_line_of_metric_is_read(self@);
        }
        let mut out: Vec<u8> = Vec::new();
        append(&mut out, self.name.as_str().as_bytes());
        out.push(COLON);
        append(&mut out, self.value.as_str().as_bytes());
        out.push(BAR);
        match self.metric_type {
            MetricType::Counter => out.push(0x63),
            MetricType::Gauge => out.push(0x67),
            MetricType::UniqueSet => out.push(0x73),
            MetricType::Sample => match &self.unit {
                Some(u) => append(&mut out, u.as_str().as_bytes()),
                None => {},
            },
        }
        assert(out@ =~= self@.name + seq![COLON] + self@.value + seq![BAR] + self@.token());
        match &self.sample_rate {
            Some(r) => {
                out.push(BAR);
                out.push(AT);
                append(&mut out, r.as_str().as_bytes());
            },
            None => {},
        }
        assert(out@ =~= self@.line());
        out
    }
}

/// Appends the bytes of `more` to `out`.
fn append(out: &mut Vec<u8>, more: &[u8])
    ensures
        final(out)@ == old(out)@ + more@,
{
    let mut i: usize = 0;
    while i < more.len()
        invariant
            i <= more.len(),
            out@ == old(out)@ + more@.take(i as int),
        decreases more.len() - i,
    {
        out.push(more[i]);
        i += 1;
        assert(out@ =~= old(out)@ + more@.take(i as int));
    }
    assert(more@.take(i as int) =~= more@);
}

} // verus!
