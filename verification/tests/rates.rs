use statsd_parser::parse_metric;
use statsd_parser::rate::is_rate_literal;
use statsd_parser::scan::{find_byte, skip_digits};

const LITERALS: [&str; 30] = [
    "0.1", "1", "2.5e-1", "+1", "-1", ".5", "5.", "1e5", "1E5", "1e+5", "1e-5", "0", "00012",
    "123456789012345678901234567890", "1.5E10", "5.e3", ".5e3", "inf", "-inf", "+inf", "infinity",
    "+infinity", "-INFINITY", "InFiNiTy", "nan", "NaN", "-nan", "+NAN", "1e400", "0.000000001e-400",
];

const OTHERS: [&str; 36] = [
    "", ".", "+", "-", "+.", "e5", ".e5", "1e", "1e+", "1e-", "1.2.3", "1e5.5", "0x10", " 1", "1 ",
    "notanumber", "infinit", "infinitys", "in", "na", "nane", "1_000", "--1", "+-1", "1f", "1,5",
    "1e5e5", "inf.", "i", "1+1", "\u{661}", "1\n", "\n1", "1.5\u{e9}", "NAN5", "@0.1",
];

#[test]
fn literals_are_accepted_as_rust_accepts_them() {
    for text in LITERALS {
        assert!(text.parse::<f64>().is_ok(), "{:?}", text);
        assert!(is_rate_literal(text.as_bytes()), "{:?}", text);
    }
}

#[test]
fn other_texts_are_refused_as_rust_refuses_them() {
    for text in OTHERS {
        assert!(text.parse::<f64>().is_err(), "{:?}", text);
        assert!(!is_rate_literal(text.as_bytes()), "{:?}", text);
    }
}

#[test]
fn short_texts_are_classified_as_rust_classifies_them() {
    let alphabet = b"0+-.eEiInNaAfFtyY9 ";
    let mut text: Vec<u8> = Vec::new();
    for a in alphabet {
        for b in alphabet {
            for c in alphabet {
                text.clear();
                text.extend_from_slice(&[*a, *b, *c]);
                for len in 0..=3 {
                    let piece = std::str::from_utf8(&text[..len]).unwrap();
                    assert_eq!(
                        is_rate_literal(piece.as_bytes()),
                        piece.parse::<f64>().is_ok(),
                        "{:?}",
                        piece
                    );
                }
            }
        }
    }
}

#[test]
fn line_takes_a_rate_exactly_where_it_is_a_literal() {
    for text in LITERALS {
        let line = format!("x:1|c|@{}", text);
        let m = parse_metric(line.as_bytes()).unwrap();
        assert_eq!(m.sample_rate(), Some(text), "{:?}", text);
    }
    for text in OTHERS {
        let line = format!("x:1|c|@{}", text);
        if text == "1\n" {
            // The line break ends the line; the rate before it is a literal.
            assert_eq!(parse_metric(line.as_bytes()).unwrap().sample_rate(), Some("1"));
        } else {
            assert!(parse_metric(line.as_bytes()).is_err(), "{:?}", text);
        }
    }
}

#[test]
fn find_byte_gives_the_first_position() {
    assert_eq!(find_byte(b"ab:cd:e", 0, b':'), 2);
    assert_eq!(find_byte(b"ab:cd:e", 2, b':'), 2);
    assert_eq!(find_byte(b"ab:cd:e", 3, b':'), 5);
    assert_eq!(find_byte(b"ab:cd:e", 6, b':'), 7);
    assert_eq!(find_byte(b"ab:cd:e", 7, b':'), 7);
    assert_eq!(find_byte(b"", 0, b':'), 0);
}

#[test]
fn skip_digits_stops_at_the_first_other_byte() {
    assert_eq!(skip_digits(b"123a4", 0), 3);
    assert_eq!(skip_digits(b"123a4", 3), 3);
    assert_eq!(skip_digits(b"123a4", 4), 5);
    assert_eq!(skip_digits(b"/:", 0), 0);
    assert_eq!(skip_digits(b"09", 0), 2);
}
