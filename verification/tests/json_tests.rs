use event_gateway::json::{json_from_str, json_to_string};
use event_gateway::JsonValue;

fn round_trips(v: &JsonValue) {
    let text = json_to_string(v);
    let back = json_from_str(&text).expect("canonical text should parse");
    assert!(&back == v);
}

#[test]
fn scalars_round_trip() {
    round_trips(&JsonValue::Null);
    round_trips(&JsonValue::Bool(true));
    round_trips(&JsonValue::Bool(false));
    round_trips(&JsonValue::Int(0));
    round_trips(&JsonValue::Int(-1));
    round_trips(&JsonValue::Int(i64::MAX));
    round_trips(&JsonValue::Int(i64::MIN));
    round_trips(&JsonValue::Text("".to_string()));
    round_trips(&JsonValue::Text("hello \"world\" \\ \n\t\r".to_string()));
}

#[test]
fn containers_round_trip() {
    let v = JsonValue::Obj(vec![
        ("a".to_string(), JsonValue::Arr(vec![JsonValue::Int(1), JsonValue::Null])),
        ("b".to_string(), JsonValue::Obj(vec![])),
        ("c".to_string(), JsonValue::Arr(vec![])),
    ]);
    round_trips(&v);
}

#[test]
fn canonical_text_is_compact() {
    let v = JsonValue::Obj(vec![
        ("x".to_string(), JsonValue::Int(42)),
        ("y".to_string(), JsonValue::Text("z".to_string())),
    ]);
    assert_eq!(json_to_string(&v), r#"{"x":42,"y":"z"}"#);
}

#[test]
fn parser_rejects_malformed_documents() {
    assert!(json_from_str("").is_none());
    assert!(json_from_str("{").is_none());
    assert!(json_from_str("nul").is_none());
    assert!(json_from_str("[1,]").is_none());
    assert!(json_from_str("\"open").is_none());
    assert!(json_from_str("12 34").is_none());
}

#[test]
fn parser_reads_numbers_with_bounds() {
    assert!(matches!(json_from_str("9223372036854775807"), Some(JsonValue::Int(i64::MAX))));
    assert!(matches!(json_from_str("-9223372036854775808"), Some(JsonValue::Int(i64::MIN))));
    // integers beyond machine range keep their literal text
    assert!(matches!(
        json_from_str("9223372036854775808"),
        Some(JsonValue::Num(ref s)) if s == "9223372036854775808"
    ));
    assert!(matches!(
        json_from_str("-9223372036854775809"),
        Some(JsonValue::Num(ref s)) if s == "-9223372036854775809"
    ));
}

#[test]
fn fractions_and_exponents_round_trip_as_literal_text() {
    for text in ["1.5", "-0.25", "2e10", "6.02E+23", "1e-9", "0.1"] {
        let v = json_from_str(text).expect("number should parse");
        assert!(matches!(v, JsonValue::Num(ref s) if s == text));
        assert_eq!(json_to_string(&v), text);
        round_trips(&v);
    }
    let doc = json_from_str(r#"{"pi":3.14159,"big":1e100}"#).expect("document should parse");
    assert_eq!(json_to_string(&doc), r#"{"pi":3.14159,"big":1e100}"#);
    // a point or exponent must be followed by digits
    assert!(json_from_str("1.").is_none());
    assert!(json_from_str("1e").is_none());
}

#[test]
fn whitespace_between_tokens_is_accepted() {
    let text = " {\n  \"a\" : [ 1 , 2 ] ,\r\n  \"b\" : { } ,\n  \"c\" : \"k v\"\n} \n";
    let v = json_from_str(text).expect("whitespaced document should parse");
    let expected = JsonValue::Obj(vec![
        ("a".to_string(), JsonValue::Arr(vec![JsonValue::Int(1), JsonValue::Int(2)])),
        ("b".to_string(), JsonValue::Obj(vec![])),
        ("c".to_string(), JsonValue::Text("k v".to_string())),
    ]);
    assert!(v == expected);
    // whitespace inside strings is content, not separator
    let w = json_from_str("\" a b \"").expect("string should parse");
    assert!(w == JsonValue::Text(" a b ".to_string()));
}

#[test]
fn pretty_rule_files_are_read_back() {
    let pretty = "{\n  \"id\": \"00000000-0000-0000-0000-000000000007\",\n  \"order\": 2,\n  \"topic\": \"t\",\n  \"eventTypeCondition\": \"any\",\n  \"eventVersionCondition\": null,\n  \"description\": null\n}";
    let rule = event_gateway::TopicRoutingRule::from_json(pretty).expect("pretty rule should parse");
    assert_eq!(rule.order, 2);
    assert_eq!(rule.topic.as_str(), "t");
}
