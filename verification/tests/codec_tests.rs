use bing_chat::codec::{decode_frames, encode_frame};
use bing_chat::json::{json_text, parse_json_text, JsonValue};

fn parse(text: &str) -> JsonValue {
    parse_json_text(text).expect("fixture should parse")
}

#[test]
fn encode_appends_single_delimiter() {
    let v = parse("{\"a\":1}");
    assert_eq!(encode_frame(&v), "{\"a\":1}\u{1e}");
}

#[test]
fn decode_of_encode_yields_the_payload() {
    let v = parse("{\"protocol\":\"json\",\"version\":1}");
    let frames = decode_frames(&encode_frame(&v)).expect("decode should succeed");
    assert_eq!(frames.len(), 1);
    assert_eq!(json_text(&frames[0]), json_text(&v));
}

#[test]
fn decode_of_concatenated_encodings_keeps_order() {
    let a = parse("{\"type\":1}");
    let b = parse("[1,2,3]");
    let c = parse("\"last\"");
    let mut wire = encode_frame(&a);
    wire.push_str(&encode_frame(&b));
    wire.push_str(&encode_frame(&c));
    let frames = decode_frames(&wire).expect("decode should succeed");
    assert_eq!(frames.len(), 3);
    assert_eq!(json_text(&frames[0]), "{\"type\":1}");
    assert_eq!(json_text(&frames[1]), "[1,2,3]");
    assert_eq!(json_text(&frames[2]), "\"last\"");
}

#[test]
fn decode_trims_pieces_and_drops_empty_ones() {
    let frames = decode_frames("  {\"type\":6} \u{1e}\u{1e}   \u{1e}").expect("decode");
    assert_eq!(frames.len(), 1);
    assert_eq!(json_text(&frames[0]), "{\"type\":6}");
}

#[test]
fn decode_fails_on_any_malformed_piece() {
    assert!(decode_frames("{\"ok\":true}\u{1e}not json\u{1e}").is_none());
}

#[test]
fn parser_reads_nested_structures() {
    let v = parse("{\"item\":{\"messages\":[{\"n\":-7},[true,false,null]]}}");
    assert_eq!(json_text(&v), "{\"item\":{\"messages\":[{\"n\":-7},[true,false,null]]}}");
}

#[test]
fn parser_handles_escapes() {
    let v = parse("\"a\\u0041\\n\\t\\\\\\\"\\u00e9\"");
    match &v {
        JsonValue::Str(s) => assert_eq!(s, "aA\n\t\\\"\u{e9}"),
        _ => panic!("expected a string"),
    }
}

#[test]
fn serializer_escapes_controls_quotes_and_backslashes() {
    let v = JsonValue::Str("a\"b\\c\u{1e}\n".to_string());
    assert_eq!(json_text(&v), "\"a\\\"b\\\\c\\u001e\\u000a\"");
}

#[test]
fn parser_reads_integer_bounds() {
    match parse("9223372036854775807") {
        JsonValue::Int(n) => assert_eq!(n, i64::MAX),
        _ => panic!("expected an integer"),
    }
    match parse("-9223372036854775808") {
        JsonValue::Int(n) => assert_eq!(n, i64::MIN),
        _ => panic!("expected an integer"),
    }
}

#[test]
fn parser_rejects_what_the_grammar_forbids() {
    assert!(parse_json_text("9223372036854775808").is_none());
    assert!(parse_json_text("01").is_none());
    assert!(parse_json_text("1.").is_none());
    assert!(parse_json_text("1e").is_none());
    assert!(parse_json_text("1e+").is_none());
    assert!(parse_json_text("\"\\ud800\"").is_none());
    assert!(parse_json_text("{\"a\":1,}").is_none());
    assert!(parse_json_text("").is_none());
}

#[test]
fn fractional_numbers_are_carried_as_their_exact_text() {
    match parse("0.85") {
        JsonValue::Num(t) => assert_eq!(t, "0.85"),
        _ => panic!("expected a kept number text"),
    }
    match parse("-1.5e+10") {
        JsonValue::Num(t) => assert_eq!(t, "-1.5e+10"),
        _ => panic!("expected a kept number text"),
    }
    let v = parse("{\"score\":0.85,\"n\":3}");
    assert_eq!(json_text(&v), "{\"score\":0.85,\"n\":3}");
}

#[test]
fn int_round_trips_through_text() {
    for n in [0i64, 1, -1, 42, -107, 1000000, i64::MAX, i64::MIN] {
        let v = JsonValue::Int(n);
        let back = parse(&json_text(&v));
        match back {
            JsonValue::Int(m) => assert_eq!(m, n),
            _ => panic!("expected an integer"),
        }
    }
}
