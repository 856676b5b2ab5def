use xdiff::{parse_json, to_json, to_json_pretty, JsonValue};

fn parse(s: &[u8]) -> JsonValue {
    parse_json(s).expect("expected valid JSON")
}

#[test]
fn parse_and_render_compact() {
    let v = parse(b"{\"a\":1,\"b\":[true,null,\"x\"]}");
    assert_eq!(to_json(&v), b"{\"a\":1,\"b\":[true,null,\"x\"]}".to_vec());
}

#[test]
fn parse_accepts_whitespace_and_keeps_number_lexemes() {
    let v = parse(b" { \"pi\" : 3.50 , \"e\" : -2e10 } ");
    assert_eq!(to_json(&v), b"{\"pi\":3.50,\"e\":-2e10}".to_vec());
}

#[test]
fn parse_rejects_malformed_text() {
    assert!(parse_json(b"{").is_none());
    assert!(parse_json(b"").is_none());
    assert!(parse_json(b"{\"a\":}").is_none());
    assert!(parse_json(b"[1,]").is_none());
    assert!(parse_json(b"{\"a\":1} x").is_none());
}

#[test]
fn parse_keeps_string_escapes() {
    let v = parse(b"{\"s\":\"a\\\"b\\\\c\"}");
    assert_eq!(to_json(&v), b"{\"s\":\"a\\\"b\\\\c\"}".to_vec());
}

#[test]
fn pretty_rendering_is_fixed_layout() {
    let v = parse(b"{\"a\":1,\"b\":{\"c\":[1,2]}}");
    let expected = "{\n  \"a\": 1,\n  \"b\": {\n    \"c\": [\n      1,\n      2\n    ]\n  }\n}";
    assert_eq!(to_json_pretty(&v), expected.as_bytes().to_vec());
}

#[test]
fn pretty_empty_containers_stay_on_one_line() {
    let v = parse(b"{\"a\":{},\"b\":[]}");
    let expected = "{\n  \"a\": {},\n  \"b\": []\n}";
    assert_eq!(to_json_pretty(&v), expected.as_bytes().to_vec());
}

#[test]
fn duplicate_is_deep_and_equal() {
    let v = parse(b"{\"a\":[1,{\"b\":2}]}");
    let c = v.duplicate();
    assert_eq!(to_json(&c), to_json(&v));
}
