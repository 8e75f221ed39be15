use statsd_parser::{parse_metric, parse_metric_type, parse_unit, Metric, MetricType, ParseError};

type Parts<'a> = (&'a str, &'a str, MetricType, Option<&'a str>, Option<f64>);

fn parts(m: &Metric) -> Parts<'_> {
    (
        m.name(),
        m.value(),
        m.metric_type(),
        m.unit(),
        m.sample_rate().map(|text| text.parse::<f64>().unwrap()),
    )
}

#[test]
fn it_parses_counter() {
    let m = parse_metric(b"gorets:1|c").unwrap();
    assert_eq!(parts(&m), ("gorets", "1", MetricType::Counter, None, None));
}

#[test]
fn it_parses_counter_with_sample_rate() {
    let m = parse_metric(b"gorets:1|c|@0.1").unwrap();
    assert_eq!(parts(&m), ("gorets", "1", MetricType::Counter, None, Some(0.1)));
}

#[test]
fn it_parses_sample() {
    let m = parse_metric(b"glork:320|ms").unwrap();
    assert_eq!(parts(&m), ("glork", "320", MetricType::Sample, Some("ms"), None));
}

#[test]
fn it_parses_sample_with_sample_rate() {
    let m = parse_metric(b"glork:320|ms|@0.1").unwrap();
    assert_eq!(parts(&m), ("glork", "320", MetricType::Sample, Some("ms"), Some(0.1)));
}

#[test]
fn it_parses_gauge() {
    let m = parse_metric(b"gaugor:333|g").unwrap();
    assert_eq!(parts(&m), ("gaugor", "333", MetricType::Gauge, None, None));
}

#[test]
fn it_parses_set() {
    let m = parse_metric(b"uniques:765|s").unwrap();
    assert_eq!(parts(&m), ("uniques", "765", MetricType::UniqueSet, None, None));
}

#[test]
fn reserved_tokens_name_their_types() {
    for (token, metric_type) in
        [("c", MetricType::Counter), ("g", MetricType::Gauge), ("s", MetricType::UniqueSet)]
    {
        for (name, value) in [("a", "1"), ("some.long-name", "-12.5"), ("n|n", "v:v"), ("é", "+3")] {
            let line = format!("{}:{}|{}", name, value, token);
            let m = parse_metric(line.as_bytes()).unwrap();
            assert_eq!(parts(&m), (name, value, metric_type, None, None));
        }
    }
}

#[test]
fn other_tokens_are_units_of_samples() {
    for unit in ["ms", "h", "C", "G", "S", "cc", "gs", "c1", "0", "kB", "ms2"] {
        let line = format!("load:7|{}", unit);
        let m = parse_metric(line.as_bytes()).unwrap();
        assert_eq!(parts(&m), ("load", "7", MetricType::Sample, Some(unit), None));
    }
}

#[test]
fn rate_is_read_as_a_number() {
    for (text, rate) in [("0.1", 0.1), ("1", 1.0), ("2.5e-1", 0.25), ("-3", -3.0), ("0", 0.0), ("1E2", 100.0)] {
        for token in ["c", "g", "s", "ms"] {
            let line = format!("a:1|{}|@{}", token, text);
            let m = parse_metric(line.as_bytes()).unwrap();
            assert_eq!(m.sample_rate(), Some(text));
            assert_eq!(m.sample_rate().unwrap().parse::<f64>().unwrap(), rate);
            let plain = parse_metric(format!("a:1|{}", token).as_bytes()).unwrap();
            assert_eq!(m.metric_type(), plain.metric_type());
            assert_eq!(m.unit(), plain.unit());
        }
    }
}

#[test]
fn rate_may_be_infinite_or_no_number() {
    let m = parse_metric(b"a:1|c|@-Infinity").unwrap();
    assert_eq!(m.sample_rate().unwrap().parse::<f64>().unwrap(), f64::NEG_INFINITY);
    let m = parse_metric(b"a:1|c|@NaN").unwrap();
    assert!(m.sample_rate().unwrap().parse::<f64>().unwrap().is_nan());
}

#[test]
fn malformed_lines_are_refused() {
    for line in ["", ":1|c", "x:|c", "x:1|", "x:1|c|@notanumber"] {
        assert_eq!(parse_metric(line.as_bytes()), Err(ParseError::MalformedInput), "{:?}", line);
    }
}

#[test]
fn missing_delimiters_are_refused() {
    for line in ["x", "x:", "x:1", "x|1:c", "x1|c", ":", "|", "x:1|c|", "x:1|c|@", "x:1|c@0.1"] {
        assert_eq!(parse_metric(line.as_bytes()), Err(ParseError::MalformedInput), "{:?}", line);
    }
}

#[test]
fn trailing_bytes_are_refused() {
    for line in ["x:1|c ", "x:1|c|x", "x:1|ms-1", "x:1|c|@0.1 ", "x:1|c|@0.1|@0.2", "x:1|c\n\n", "x:1|c\ny:2|g", "x:1|c|@0.1\nz"] {
        assert_eq!(parse_metric(line.as_bytes()), Err(ParseError::MalformedInput), "{:?}", line);
    }
}

#[test]
fn token_stops_at_the_first_other_byte() {
    assert_eq!(parse_metric(b"x:1|m s"), Err(ParseError::MalformedInput));
    assert_eq!(parse_metric(b"x:1|_ms"), Err(ParseError::MalformedInput));
    assert_eq!(parse_metric("x:1|m\u{e9}".as_bytes()), Err(ParseError::MalformedInput));
    let m = parse_metric(b"x:1|ms9Z|@1").unwrap();
    assert_eq!(m.unit(), Some("ms9Z"));
    assert_eq!(m.sample_rate(), Some("1"));
}

#[test]
fn line_break_at_the_end_is_allowed() {
    let with = parse_metric(b"gorets:1|c\n").unwrap();
    let without = parse_metric(b"gorets:1|c").unwrap();
    assert_eq!(with, without);
    let with = parse_metric(b"glork:320|ms|@0.1\n").unwrap();
    let without = parse_metric(b"glork:320|ms|@0.1").unwrap();
    assert_eq!(with, without);
    assert_eq!(parse_metric(b"\n"), Err(ParseError::MalformedInput));
}

#[test]
fn name_ends_at_the_first_colon_and_value_at_the_first_bar() {
    let m = parse_metric(b"a|b:c:d|ms").unwrap();
    assert_eq!(parts(&m), ("a|b", "c:d", MetricType::Sample, Some("ms"), None));
    assert_eq!(parse_metric(b"a:b|c|d"), Err(ParseError::MalformedInput));
}

#[test]
fn text_that_is_not_utf8_is_refused() {
    assert_eq!(parse_metric(b"\xff:1|c"), Err(ParseError::MalformedInput));
    assert_eq!(parse_metric(b"x:\xc3|c"), Err(ParseError::MalformedInput));
    assert_eq!(parse_metric(b"x:\xed\xa0\x80|c"), Err(ParseError::MalformedInput));
    assert_eq!(parse_metric(b"x:1|c|@\xff"), Err(ParseError::MalformedInput));
    let m = parse_metric("na\u{ef}ve:\u{20ac}5|c".as_bytes()).unwrap();
    assert_eq!(parts(&m), ("na\u{ef}ve", "\u{20ac}5", MetricType::Counter, None, None));
}

#[test]
fn written_line_is_read_back() {
    for line in ["gorets:1|c", "glork:320|ms|@0.1", "gaugor:333|g", "uniques:765|s", "a|b:c:d|h|@-2.5E+3", "x:1|C|@.5"] {
        let m = parse_metric(line.as_bytes()).unwrap();
        let written = m.to_line();
        assert_eq!(written, line.as_bytes());
        assert_eq!(parse_metric(&written), Ok(m));
    }
    let m = parse_metric(b"gorets:1|c|@0.1\n").unwrap();
    assert_eq!(m.to_line(), b"gorets:1|c|@0.1");
}

#[test]
fn token_is_classified_by_exact_match() {
    assert_eq!(parse_metric_type("c"), MetricType::Counter);
    assert_eq!(parse_metric_type("g"), MetricType::Gauge);
    assert_eq!(parse_metric_type("s"), MetricType::UniqueSet);
    for token in ["ms", "C", "G", "S", "", "cc", "c ", "h"] {
        assert_eq!(parse_metric_type(token), MetricType::Sample, "{:?}", token);
    }
}

#[test]
fn unit_is_the_token_unless_reserved() {
    assert_eq!(parse_unit("c"), None);
    assert_eq!(parse_unit("g"), None);
    assert_eq!(parse_unit("s"), None);
    assert_eq!(parse_unit("ms"), Some(String::from("ms")));
    assert_eq!(parse_unit("C"), Some(String::from("C")));
    assert_eq!(parse_unit("sc"), Some(String::from("sc")));
}
