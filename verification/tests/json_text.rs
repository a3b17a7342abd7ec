use mailgun_rs::json::{flat_json, lookup_value, nested_json, parse_flat_json};

fn pairs(items: &[(&str, &str)]) -> Vec<(String, String)> {
    items.iter().map(|p| (String::from(p.0), String::from(p.1))).collect()
}

#[test]
fn empty_object() {
    let v: Vec<(String, String)> = Vec::new();
    assert_eq!(flat_json(&v), "{}");
    assert_eq!(parse_flat_json("{}").unwrap(), v);
}

#[test]
fn one_member() {
    let v = pairs(&[("firstname", "Dongri")]);
    assert_eq!(flat_json(&v), "{\"firstname\":\"Dongri\"}");
}

#[test]
fn members_keep_order() {
    let v = pairs(&[("b", "2"), ("a", "1")]);
    let text = flat_json(&v);
    assert_eq!(text, "{\"b\":\"2\",\"a\":\"1\"}");
    assert_eq!(parse_flat_json(&text).unwrap(), v);
}

#[test]
fn escaping_specials() {
    let v = pairs(&[("q", "say \"hi\""), ("b", "a\\b"), ("n", "line1\nline2")]);
    let text = flat_json(&v);
    assert_eq!(
        text,
        "{\"q\":\"say \\\"hi\\\"\",\"b\":\"a\\\\b\",\"n\":\"line1\\u000aline2\"}"
    );
    assert_eq!(parse_flat_json(&text).unwrap(), v);
    let independent: std::collections::HashMap<String, String> =
        serde_json::from_str(&text).unwrap();
    assert_eq!(independent["q"], "say \"hi\"");
    assert_eq!(independent["b"], "a\\b");
    assert_eq!(independent["n"], "line1\nline2");
}

#[test]
fn parser_accepts_short_escapes_and_whitespace() {
    let parsed = parse_flat_json(" { \"a\" : \"x\\ty\" , \"b\" : \"c\\nd\" } ").unwrap();
    assert_eq!(parsed, pairs(&[("a", "x\ty"), ("b", "c\nd")]));
}

#[test]
fn parser_rejects_non_objects() {
    assert!(parse_flat_json("").is_none());
    assert!(parse_flat_json("42").is_none());
    assert!(parse_flat_json("\"just a string\"").is_none());
    assert!(parse_flat_json("{\"a\":1}").is_none());
    assert!(parse_flat_json("{\"a\":\"1\"").is_none());
    assert!(parse_flat_json("{\"a\" \"1\"}").is_none());
    assert!(parse_flat_json("{\"a\":\"unterminated}").is_none());
}

#[test]
fn nested_object_text() {
    let v = vec![
        (String::from("x@y.com"), pairs(&[("firstname", "Dongri"), ("id", "1")])),
        (String::from("z@y.com"), pairs(&[("firstname", "Ann")])),
    ];
    assert_eq!(
        nested_json(&v),
        "{\"x@y.com\":{\"firstname\":\"Dongri\",\"id\":\"1\"},\"z@y.com\":{\"firstname\":\"Ann\"}}"
    );
}

#[test]
fn lookup_finds_first_match() {
    let v = pairs(&[("a", "1"), ("b", "2"), ("a", "3")]);
    assert_eq!(lookup_value(&v, "a"), Some(String::from("1")));
    assert_eq!(lookup_value(&v, "b"), Some(String::from("2")));
    assert_eq!(lookup_value(&v, "c"), None);
}

#[test]
fn general_unicode_escapes() {
    assert_eq!(
        parse_flat_json("{\"k\":\"\\u2713\"}").unwrap(),
        pairs(&[("k", "\u{2713}")])
    );
    assert_eq!(
        parse_flat_json("{\"k\":\"\\u00e9 and \\u00E9\"}").unwrap(),
        pairs(&[("k", "\u{e9} and \u{e9}")])
    );
    assert!(parse_flat_json("{\"k\":\"\\uD800\"}").is_none());
    assert!(parse_flat_json("{\"k\":\"\\u12\"}").is_none());
    assert!(parse_flat_json("{\"k\":\"\\u12G4\"}").is_none());
}

#[test]
fn unicode_escape_round_trip() {
    let v = pairs(&[("k", "bell\u{7}tab")]);
    let text = flat_json(&v);
    assert_eq!(text, "{\"k\":\"bell\\u0007tab\"}");
    assert_eq!(parse_flat_json(&text).unwrap(), v);
}
