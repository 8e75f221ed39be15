//! The discriminator token of a line: the run of letters and digits that
//! names the metric's type or, for a sample, its unit.

use crate::metric::{counter_token, gauge_token, set_token, type_of_token, MetricType};
use crate::scan::{alphanumerics, leading};
use vstd::prelude::*;
use vstd::string::StringSliceAdditionalSpecFns;

verus! {

/// Splits `input` after its longest prefix of ASCII letters and digits,
/// giving the rest first and the prefix second; `None` where that prefix is
/// empty.
///
/// Trusted: this is nom's `alphanumeric` on a byte slice. It walks the
/// input up to the first byte outside `0-9A-Za-z`, fails when that is the
/// first byte or the input is empty, and otherwise returns the input after
/// that position and the input before it.
#[verifier::external_body]
pub(crate) fn alphanumeric<'a>(input: &'a [u8]) -> (r: Option<(&'a [u8], &'a [u8])>)
    ensures
        r is Some <==> leading(input@, alphanumerics()) > 0,
        r matches Some((rest, run)) ==> run@ == input@.take(leading(input@, alphanumerics()) as int)
            && rest@ == input@.skip(leading(input@, alphanumerics()) as int),
{
    match nom::alphanumeric(input) {
        nom::IResult::Done(rest, run) => Some((rest, run)),
        nom::IResult::Error(_) => None,
        nom::IResult::Incomplete(_) => None,
    }
}

/// The type that the discriminator token `s` stands for: `c` is a counter,
/// `g` a gauge, `s` a set, and anything else a sample.
pub fn parse_metric_type(s: &str) -> (t: MetricType)
    ensures
        t == type_of_token(s.spec_bytes()),
{
    let b = s.as_bytes();
    if b.len() != 1 {
        MetricType::Sample
    } else if b[0] == 0x63 {
        assert(b@ =~= counter_token());
        MetricType::Counter
    } else if b[0] == 0x67 {
        assert(b@ =~= gauge_token());
        MetricType::Gauge
    } else if b[0] == 0x73 {
        assert(b@ =~= set_token());
        MetricType::UniqueSet
    } else {
        MetricType::Sample
    }
}

/// The unit that the discriminator token `s` carries: the token itself
/// where it stands for a sample, `None` where it is one of the reserved
/// tokens `c`, `g` and `s`.
pub fn parse_unit(s: &str) -> (unit: Option<String>)
    ensures
        unit is Some <==> type_of_token(s.spec_bytes()) == MetricType::Sample,
        unit matches Some(u) ==> u@ == s@,
{
    match parse_metric_type(s) {
        MetricType::Sample => Some(s.to_owned()),
        _ => None,
    }
}

} // verus!
