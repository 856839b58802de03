use event_gateway::{CompiledRegex, Condition, StringExpression};

fn regex(pattern: &str) -> CompiledRegex {
    CompiledRegex::new(pattern.to_string()).expect("pattern should compile")
}

#[test]
fn test_any_match() {
    let condition = Condition::ANY;
    assert!(condition.matches("test123"));
    assert!(condition.matches("random"));
}

#[test]
fn test_serialization_deserialization() {
    let any_condition = Condition::ANY;
    let serialized = any_condition.to_json();
    assert_eq!(serialized, r#""any""#);
    let deserialized = Condition::from_json(&serialized).expect("Failed to deserialize ANY condition");
    assert!(matches!(deserialized, Condition::ANY));

    let equals_condition = Condition::ONE(StringExpression::Equals {
        value: "test".to_string(),
    });
    let serialized = equals_condition.to_json();
    assert_eq!(serialized, r#"{"type":"equals","value":"test"}"#);
    let deserialized = Condition::from_json(&serialized).expect("Failed to deserialize Equals condition");
    assert!(matches!(deserialized, Condition::ONE(StringExpression::Equals { value }) if value == "test"));

    let regex_condition = Condition::ONE(StringExpression::RegexMatch { value: regex("^test.*") });
    let serialized = regex_condition.to_json();
    assert_eq!(serialized, r#"{"type":"regexMatch","value":"^test.*"}"#);
    let deserialized = Condition::from_json(&serialized).expect("Failed to deserialize RegexMatch condition");
    assert!(matches!(deserialized, Condition::ONE(StringExpression::RegexMatch { value }) if value.as_str() == "^test.*"));

    let starts_with_condition = Condition::ONE(StringExpression::StartsWith {
        value: "test".to_string(),
    });
    let serialized = starts_with_condition.to_json();
    assert_eq!(serialized, r#"{"type":"startsWith","value":"test"}"#);
    let deserialized = Condition::from_json(&serialized).expect("Failed to deserialize StartsWith condition");
    assert!(matches!(deserialized, Condition::ONE(StringExpression::StartsWith { value }) if value == "test"));

    let ends_with_condition = Condition::ONE(StringExpression::EndsWith {
        value: "test".to_string(),
    });
    let serialized = ends_with_condition.to_json();
    assert_eq!(serialized, r#"{"type":"endsWith","value":"test"}"#);
    let deserialized = Condition::from_json(&serialized).expect("Failed to deserialize EndsWith condition");
    assert!(matches!(deserialized, Condition::ONE(StringExpression::EndsWith { value }) if value == "test"));

    let contains_condition = Condition::ONE(StringExpression::Contains {
        value: "test".to_string(),
    });
    let serialized = contains_condition.to_json();
    assert_eq!(serialized, r#"{"type":"contains","value":"test"}"#);
    let deserialized = Condition::from_json(&serialized).expect("Failed to deserialize Contains condition");
    assert!(matches!(deserialized, Condition::ONE(StringExpression::Contains { value }) if value == "test"));

    let and_condition = Condition::AND(vec![
        Condition::ONE(StringExpression::Equals {
            value: "test1".to_string(),
        }),
        Condition::ONE(StringExpression::Equals {
            value: "test2".to_string(),
        }),
    ]);
    let serialized = and_condition.to_json();
    assert_eq!(serialized, r#"{"and":[{"type":"equals","value":"test1"},{"type":"equals","value":"test2"}]}"#);
    let deserialized = Condition::from_json(&serialized).expect("Failed to deserialize AND condition");
    assert!(matches!(deserialized, Condition::AND(conditions) if conditions.len() == 2));

    let or_condition = Condition::OR(vec![
        Condition::ONE(StringExpression::Equals {
            value: "test1".to_string(),
        }),
        Condition::ONE(StringExpression::Equals {
            value: "test2".to_string(),
        }),
    ]);
    let serialized = or_condition.to_json();
    assert_eq!(serialized, r#"{"or":[{"type":"equals","value":"test1"},{"type":"equals","value":"test2"}]}"#);
    let deserialized = Condition::from_json(&serialized).expect("Failed to deserialize OR condition");
    assert!(matches!(deserialized, Condition::OR(conditions) if conditions.len() == 2));

    let not_condition = Condition::NOT(Box::new(Condition::ONE(StringExpression::Equals {
        value: "test".to_string(),
    })));
    let serialized = not_condition.to_json();
    assert_eq!(serialized, r#"{"not":{"type":"equals","value":"test"}}"#);
    let deserialized = Condition::from_json(&serialized).expect("Failed to deserialize NOT condition");
    assert!(matches!(deserialized, Condition::NOT(_)));
}

#[test]
fn test_complex_condition_serialization() {
    let complex_condition = Condition::AND(vec![
        Condition::OR(vec![
            Condition::ONE(StringExpression::Equals {
                value: "test1".to_string(),
            }),
            Condition::NOT(Box::new(Condition::ONE(StringExpression::Equals {
                value: "test2".to_string(),
            }))),
        ]),
        Condition::ONE(StringExpression::StartsWith {
            value: "prefix".to_string(),
        }),
    ]);

    let serialized = complex_condition.to_json();
    let deserialized = Condition::from_json(&serialized).expect("Failed to deserialize complex condition");

    match deserialized {
        Condition::AND(conditions) => {
            assert_eq!(conditions.len(), 2);
            match &conditions[0] {
                Condition::OR(or_conditions) => {
                    assert_eq!(or_conditions.len(), 2);
                    assert!(matches!(&or_conditions[0], Condition::ONE(StringExpression::Equals { value }) if value == "test1"));
                    assert!(matches!(&or_conditions[1], Condition::NOT(_)));
                }
                _ => panic!("Expected OR condition"),
            }
            assert!(matches!(&conditions[1], Condition::ONE(StringExpression::StartsWith { value }) if value == "prefix"));
        }
        _ => panic!("Expected AND condition"),
    }
}

#[test]
fn test_regex_match() {
    let condition = Condition::ONE(StringExpression::RegexMatch { value: regex("^test.*") });
    assert!(condition.matches("test123"));
    assert!(!condition.matches("random"));
}

#[test]
fn test_equals() {
    let condition = Condition::ONE(StringExpression::Equals {
        value: "test".to_string(),
    });
    assert!(condition.matches("test"));
    assert!(!condition.matches("Test"));
}

#[test]
fn test_starts_with() {
    let condition = Condition::ONE(StringExpression::StartsWith {
        value: "start".to_string(),
    });
    assert!(condition.matches("start_here"));
    assert!(!condition.matches("finish_start"));
}

#[test]
fn test_ends_with() {
    let condition = Condition::ONE(StringExpression::EndsWith {
        value: "end".to_string(),
    });
    assert!(condition.matches("the_end"));
    assert!(!condition.matches("end_the"));
}

#[test]
fn test_contains() {
    let condition = Condition::ONE(StringExpression::Contains {
        value: "inside".to_string(),
    });
    assert!(condition.matches("this_is_inside_that"));
    assert!(!condition.matches("outside"));
}

#[test]
fn test_and_conditions() {
    let and_condition = Condition::AND(vec![
        Condition::ONE(StringExpression::StartsWith {
            value: "start".to_string(),
        }),
        Condition::ONE(StringExpression::EndsWith {
            value: "finish".to_string(),
        }),
    ]);
    assert!(and_condition.matches("start_middle_finish"));
    assert!(!and_condition.matches("start_finish_fail"));
}

#[test]
fn test_or_conditions() {
    let or_condition = Condition::OR(vec![
        Condition::ONE(StringExpression::Equals {
            value: "option1".to_string(),
        }),
        Condition::ONE(StringExpression::Equals {
            value: "option2".to_string(),
        }),
    ]);
    assert!(or_condition.matches("option1"));
    assert!(or_condition.matches("option2"));
    assert!(!or_condition.matches("option3"));
}

#[test]
fn test_not_condition() {
    let not_condition = Condition::NOT(Box::new(Condition::ONE(StringExpression::Equals {
        value: "nope".to_string(),
    })));
    assert!(not_condition.matches("yes"));
    assert!(!not_condition.matches("nope"));
}

#[test]
fn serialize_deserialize_condition() {
    let condition = Condition::AND(vec![
        Condition::ONE(StringExpression::RegexMatch { value: regex("^test.*") }),
        Condition::ONE(StringExpression::Equals {
            value: "test123".to_string(),
        }),
    ]);

    let serialized = condition.to_json();

    let deserialized = Condition::from_json(&serialized).expect("Failed to deserialize condition");

    assert!(deserialized.matches("test123"));
    assert!(!deserialized.matches("no_match"));
    assert_eq!(
        serialized,
        r#"{"and":[{"type":"regexMatch","value":"^test.*"},{"type":"equals","value":"test123"}]}"#
    );
}

#[test]
fn bad_regex_is_rejected_at_deserialization() {
    assert!(CompiledRegex::new("(unclosed".to_string()).is_none());
    assert!(Condition::from_json(r#"{"type":"regexMatch","value":"(unclosed"}"#).is_none());
}

#[test]
fn condition_equality_compares_regex_sources() {
    let a = Condition::ONE(StringExpression::RegexMatch { value: regex("^a+$") });
    let b = Condition::ONE(StringExpression::RegexMatch { value: regex("^a+$") });
    let c = Condition::ONE(StringExpression::RegexMatch { value: regex("^b+$") });
    assert!(a == b);
    assert!(a != c);
}

#[test]
fn escaped_strings_round_trip() {
    let condition = Condition::ONE(StringExpression::Equals {
        value: "line\none\t\"quoted\" \\slash".to_string(),
    });
    let serialized = condition.to_json();
    let deserialized = Condition::from_json(&serialized).expect("escaped condition should parse");
    assert!(condition == deserialized);
}
