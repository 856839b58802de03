use event_gateway::{
    Condition, DataSchema, JSchema, JsonValue, Schema, StringExpression, Topic, TopicRoutingRule,
    Uid,
};

fn person_schema_value() -> JsonValue {
    JsonValue::Obj(vec![
        ("type".to_string(), JsonValue::Text("object".to_string())),
        (
            "properties".to_string(),
            JsonValue::Obj(vec![
                (
                    "name".to_string(),
                    JsonValue::Obj(vec![(
                        "type".to_string(),
                        JsonValue::Text("string".to_string()),
                    )]),
                ),
                (
                    "age".to_string(),
                    JsonValue::Obj(vec![
                        ("type".to_string(), JsonValue::Text("integer".to_string())),
                        ("minimum".to_string(), JsonValue::Int(0)),
                    ]),
                ),
            ]),
        ),
        (
            "required".to_string(),
            JsonValue::Arr(vec![JsonValue::Text("name".to_string())]),
        ),
    ])
}

fn name_only_schema_value() -> JsonValue {
    JsonValue::Obj(vec![
        ("type".to_string(), JsonValue::Text("object".to_string())),
        (
            "properties".to_string(),
            JsonValue::Obj(vec![(
                "name".to_string(),
                JsonValue::Obj(vec![(
                    "type".to_string(),
                    JsonValue::Text("string".to_string()),
                )]),
            )]),
        ),
        (
            "required".to_string(),
            JsonValue::Arr(vec![JsonValue::Text("name".to_string())]),
        ),
    ])
}

#[test]
fn test_topic_routing_rule_serde() {
    let rule = TopicRoutingRule {
        id: Uid::from_bytes(*uuid::Uuid::new_v4().as_bytes()),
        order: 1,
        topic: Topic::new("example".to_string()).unwrap(),
        event_type_condition: Condition::ONE(StringExpression::StartsWith {
            value: "test".into(),
        }),
        event_version_condition: Some(Condition::ONE(StringExpression::Equals {
            value: "1".into(),
        })),
        description: Some("A routing rule.".into()),
    };

    let serialized = rule.to_json();
    let deserialized = TopicRoutingRule::from_json(&serialized).unwrap();
    assert!(rule == deserialized);
}

#[test]
fn test_data_schema_serde() {
    let raw_schema = name_only_schema_value();

    let schema = DataSchema {
        name: "example".into(),
        description: Some("A schema.".into()),
        schema: Schema::Json(JSchema::new(raw_schema).unwrap()),
        event_type: "example".into(),
        event_version: Some("1".into()),
        metadata: Some(vec![]),
    };

    let serialized = schema.to_json();
    println!("{}", serialized);
    let deserialized = DataSchema::from_json(&serialized).unwrap();
    assert!(schema == deserialized);
}

#[test]
fn test_detailed_schema_validation() {
    let schema = Schema::Json(JSchema::new(person_schema_value()).unwrap());

    let valid_data = JsonValue::Obj(vec![
        ("name".to_string(), JsonValue::Text("John".to_string())),
        ("age".to_string(), JsonValue::Int(30)),
    ]);
    assert!(schema.validate(&valid_data).is_ok());

    let invalid_data = JsonValue::Obj(vec![("age".to_string(), JsonValue::Int(30))]);
    let result = schema.validate(&invalid_data);
    assert!(result.is_err());
    let errors = result.unwrap_err();
    assert!(!errors.is_empty());
    assert!(errors[0].message.contains("required"));

    let invalid_type_data = JsonValue::Obj(vec![
        ("name".to_string(), JsonValue::Text("John".to_string())),
        ("age".to_string(), JsonValue::Text("thirty".to_string())),
    ]);
    let result = schema.validate(&invalid_type_data);
    assert!(result.is_err());
    let errors = result.unwrap_err();
    assert!(!errors.is_empty());
    assert!(errors[0].instance_path.contains("age"));
}

#[test]
fn schemas_with_fractional_constants_validate() {
    let schema_value = JsonValue::Obj(vec![
        ("type".to_string(), JsonValue::Text("object".to_string())),
        (
            "properties".to_string(),
            JsonValue::Obj(vec![(
                "ratio".to_string(),
                JsonValue::Obj(vec![
                    ("type".to_string(), JsonValue::Text("number".to_string())),
                    ("minimum".to_string(), JsonValue::Num("0.5".to_string())),
                ]),
            )]),
        ),
    ]);
    let schema = Schema::Json(JSchema::new(schema_value).unwrap());

    let ok = JsonValue::Obj(vec![("ratio".to_string(), JsonValue::Num("0.75".to_string()))]);
    assert!(schema.validate(&ok).is_ok());

    let too_small = JsonValue::Obj(vec![("ratio".to_string(), JsonValue::Num("0.25".to_string()))]);
    assert!(schema.validate(&too_small).is_err());
}

#[test]
fn malformed_number_texts_are_rejected_at_ingestion() {
    let bad = JsonValue::Obj(vec![(
        "minimum".to_string(),
        JsonValue::Num("not a number".to_string()),
    )]);
    assert!(JSchema::new(bad).is_none());
}

#[test]
fn schema_that_does_not_compile_is_rejected() {
    let bad = JsonValue::Obj(vec![(
        "type".to_string(),
        JsonValue::Text("no_such_type".to_string()),
    )]);
    assert!(JSchema::new(bad).is_none());
}

#[test]
fn schema_round_trip_keeps_the_verdict() {
    let schema = DataSchema {
        name: "people".into(),
        description: None,
        schema: Schema::Json(JSchema::new(person_schema_value()).unwrap()),
        event_type: "person".into(),
        event_version: None,
        metadata: None,
    };
    let back = DataSchema::from_json(&schema.to_json()).unwrap();
    let instance = JsonValue::Obj(vec![("age".to_string(), JsonValue::Int(3))]);
    assert_eq!(
        schema.schema.is_valid(&instance),
        back.schema.is_valid(&instance)
    );
}

#[test]
fn draft_is_read_from_the_schema_field() {
    let with_draft4 = JsonValue::Obj(vec![
        (
            "$schema".to_string(),
            JsonValue::Text("http://json-schema.org/draft-04/schema#".to_string()),
        ),
        ("type".to_string(), JsonValue::Text("object".to_string())),
    ]);
    let js = JSchema::new(with_draft4).unwrap();
    assert!(matches!(js.draft_version, event_gateway::DraftKind::Draft4));

    let plain = JSchema::new(name_only_schema_value()).unwrap();
    assert!(matches!(plain.draft_version, event_gateway::DraftKind::Draft7));
}
