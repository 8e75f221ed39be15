use statsd_parser::{parse_batch, parse_metric, Metric, MetricType, ParseError};

type Parts<'a> = (&'a str, &'a str, MetricType, Option<&'a str>, Option<f64>);

fn all_parts(ms: &[Metric]) -> Vec<Parts<'_>> {
    ms.iter()
        .map(|m| {
            (
                m.name(),
                m.value(),
                m.metric_type(),
                m.unit(),
                m.sample_rate().map(|text| text.parse::<f64>().unwrap()),
            )
        })
        .collect()
}

#[test]
fn it_parses_single_metric_with_statsd() {
    let ms = parse_batch(b"gorets:1|c").unwrap();
    assert_eq!(all_parts(&ms), vec![("gorets", "1", MetricType::Counter, None, None)]);
}

#[test]
fn it_parses_multiple_metrics_with_statsd() {
    let data = b"gorets:1|c\nglork:320|ms\ngaugor:333|g\nuniques:765|s";
    let ms = parse_batch(data).unwrap();
    assert_eq!(
        all_parts(&ms),
        vec![
            ("gorets", "1", MetricType::Counter, None, None),
            ("glork", "320", MetricType::Sample, Some("ms"), None),
            ("gaugor", "333", MetricType::Gauge, None, None),
            ("uniques", "765", MetricType::UniqueSet, None, None),
        ]
    );
}

#[test]
fn empty_batch_is_refused_as_empty() {
    assert_eq!(parse_batch(b""), Err(ParseError::EmptyInput));
}

#[test]
fn line_break_at_the_end_of_a_batch_adds_no_record() {
    let with = parse_batch(b"gorets:1|c\n").unwrap();
    let without = parse_batch(b"gorets:1|c").unwrap();
    assert_eq!(with.len(), 1);
    assert_eq!(with, without);
    let with = parse_batch(b"gorets:1|c|@0.1\nglork:320|ms|@0.5\n").unwrap();
    let without = parse_batch(b"gorets:1|c|@0.1\nglork:320|ms|@0.5").unwrap();
    assert_eq!(with, without);
    assert_eq!(
        all_parts(&with),
        vec![
            ("gorets", "1", MetricType::Counter, None, Some(0.1)),
            ("glork", "320", MetricType::Sample, Some("ms"), Some(0.5)),
        ]
    );
}

#[test]
fn empty_lines_are_not_skipped() {
    for data in ["\n", "\n\n", "a:1|c\n\n", "a:1|c\n\nb:2|g", "\na:1|c", " \na:1|c", "a:1|c\n \nb:2|g", "a:1|c\n\t"] {
        assert_eq!(parse_batch(data.as_bytes()), Err(ParseError::MalformedInput), "{:?}", data);
    }
}

#[test]
fn one_malformed_line_fails_the_batch() {
    for data in ["a:1|c\nb:2", "a:1\nb:2|c", "a:1|c\nb:2|g\nc:3|", "a:1|c\nb:2|ms|@x\nc:3|s", "a:1|c\r\nb:2|g"] {
        assert_eq!(parse_batch(data.as_bytes()), Err(ParseError::MalformedInput), "{:?}", data);
    }
}

#[test]
fn batch_is_the_metrics_of_its_lines_in_order() {
    let lines = ["z:1|c", "a:2|g|@0.5", "z:1|c", "m:3|ms", "k:4|s|@1e-3"];
    let data = lines.join("\n");
    let ms = parse_batch(data.as_bytes()).unwrap();
    assert_eq!(ms.len(), lines.len());
    for (m, line) in ms.iter().zip(lines.iter()) {
        assert_eq!(Ok(m), parse_metric(line.as_bytes()).as_ref());
    }
    let first = parse_batch(b"z:1|c").unwrap();
    let rest = parse_batch(lines[1..].join("\n").as_bytes()).unwrap();
    let joined: Vec<Metric> = first.into_iter().chain(rest).collect();
    assert_eq!(ms, joined);
}

#[test]
fn batch_of_one_line_is_that_line() {
    for line in ["gorets:1|c", "glork:320|ms|@0.1", "gorets:1|c\n"] {
        let ms = parse_batch(line.as_bytes()).unwrap();
        assert_eq!(ms, vec![parse_metric(line.as_bytes()).unwrap()]);
    }
    assert_eq!(parse_batch(b"gorets"), Err(ParseError::MalformedInput));
}
