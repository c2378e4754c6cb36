use peer_sync::codec::{decode, encode_action, encode_position, split_tokens, ParseError, Position, Record};
use peer_sync::number::{check_number, Coord};

fn coord(text: &str) -> Coord {
    Coord::from_text(text.as_bytes()).expect("a number")
}

fn position(x: &str, y: &str) -> Position {
    Position { x: coord(x), y: coord(y) }
}

fn decoded_position(bytes: &[u8]) -> (String, String) {
    match decode(bytes) {
        Ok(Record::Position(p)) => (
            String::from_utf8(p.x.text().to_vec()).unwrap(),
            String::from_utf8(p.y.text().to_vec()).unwrap(),
        ),
        _ => panic!("not a position record"),
    }
}

#[test]
fn encode_position_writes_both_coordinates_then_tag() {
    assert_eq!(encode_position(&position("5", "-5")), b"5 -5 p".to_vec());
    assert_eq!(encode_position(&position("1.5", "0")), b"1.5 0 p".to_vec());
}

#[test]
fn encode_action_is_single_tag() {
    assert_eq!(encode_action(), b"a".to_vec());
}

#[test]
fn round_trip_negates_both_coordinates() {
    let cases = [("5", "-5", "-5", "5"), ("10", "20", "-10", "-20"), ("-0.25", "+3", "0.25", "-3"), ("inf", "NaN", "-inf", "-NaN")];
    for (x, y, nx, ny) in cases {
        let wire = encode_position(&position(x, y));
        assert_eq!(decoded_position(&wire), (nx.to_string(), ny.to_string()));
    }
}

#[test]
fn round_trip_of_formatted_floats() {
    for (x, y) in [(5.0f32, -5.0f32), (0.1, 350.0), (-123.456, 1e-7)] {
        let p = position(&format!("{}", x), &format!("{}", y));
        let (dx, dy) = decoded_position(&encode_position(&p));
        assert_eq!(dx.parse::<f32>().unwrap(), -x);
        assert_eq!(dy.parse::<f32>().unwrap(), -y);
    }
}

#[test]
fn decode_action_record() {
    assert!(matches!(decode(b"a"), Ok(Record::Action)));
    assert!(matches!(decode(b"  a\n"), Ok(Record::Action)));
}

#[test]
fn decode_unknown_tag_fails() {
    assert_eq!(decode(b"1 2 q").err(), Some(ParseError));
    assert_eq!(decode(b"P").err(), Some(ParseError));
    assert_eq!(decode(b"1 2 pp").err(), Some(ParseError));
    assert_eq!(decode(b"1 2 A").err(), Some(ParseError));
}

#[test]
fn decode_empty_fails() {
    assert_eq!(decode(b"").err(), Some(ParseError));
    assert_eq!(decode(b" \t\r\n").err(), Some(ParseError));
}

#[test]
fn decode_missing_field_fails() {
    assert_eq!(decode(b"1.0 p").err(), Some(ParseError));
    assert_eq!(decode(b"p").err(), Some(ParseError));
}

#[test]
fn decode_extra_field_fails() {
    assert_eq!(decode(b"1.0 2.0 3.0 p").err(), Some(ParseError));
    assert_eq!(decode(b"1 a").err(), Some(ParseError));
}

#[test]
fn decode_bad_number_fails() {
    assert_eq!(decode(b"x 1 p").err(), Some(ParseError));
    assert_eq!(decode(b"1 1..0 p").err(), Some(ParseError));
    assert_eq!(decode(b"--1 2 p").err(), Some(ParseError));
    assert_eq!(decode(b"1e 2 p").err(), Some(ParseError));
    assert_eq!(decode(b"\xff 2 p").err(), Some(ParseError));
}

#[test]
fn decode_accepts_any_ascii_whitespace() {
    assert_eq!(decoded_position(b"\t1.5\n 2\x0cp\r\n"), ("-1.5".to_string(), "-2".to_string()));
}

#[test]
fn split_tokens_on_whitespace_runs() {
    let toks = split_tokens(b"  ab\t c  d ");
    assert_eq!(toks, vec![b"ab".to_vec(), b"c".to_vec(), b"d".to_vec()]);
    assert!(split_tokens(b"   ").is_empty());
}

#[test]
fn number_text_accepted() {
    for t in ["0", "5", "-5", "+5", "5.", ".5", "-0.25", "1e10", "1E-7", "2.5e+3", "inf", "-INF", "Infinity", "nan", "NaN"] {
        assert!(check_number(t.as_bytes()), "{}", t);
    }
}

#[test]
fn number_text_rejected() {
    for t in ["", "+", "-", ".", "e5", "1e", "1e+", "1.2.3", "--1", "+-1", "infx", "in", "1 2", "0x10", "1_000"] {
        assert!(!check_number(t.as_bytes()), "{}", t);
        assert!(Coord::from_text(t.as_bytes()).is_none());
    }
}

#[test]
fn negated_flips_sign() {
    assert_eq!(coord("3").negated().text(), b"-3");
    assert_eq!(coord("-3").negated().text(), b"3");
    assert_eq!(coord("+3").negated().text(), b"-3");
    assert_eq!(coord("-inf").negated().text(), b"inf");
}

#[test]
fn number_text_agrees_with_float_parsing() {
    let samples = [
        "0", "-0", "5", "+5", "5.", ".5", "-.5", "1e3", "1E3", "1e+3", "1e-3", "1.5e3", "inf", "INF", "+inf",
        "-Infinity", "infinity", "nan", "NaN", "-nan", "", "+", ".", "..", "e", "e3", ".e3", "1e", "1e+", "1.2.3",
        "--1", "+-1", "infin", "nana", "0x1", "1_0", "1,5", "١",
    ];
    for t in samples {
        assert_eq!(check_number(t.as_bytes()), t.parse::<f32>().is_ok(), "{}", t);
    }
}
