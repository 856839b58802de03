use event_gateway::json::{json_from_str, json_to_string};
use event_gateway::{JsonValue, Topic, TopicValidationError};

#[test]
fn test_valid_topics() {
    assert!(Topic::new("valid_topic".to_string()).is_ok());
    assert!(Topic::new("valid.topic".to_string()).is_ok());
    assert!(Topic::new("valid-topic".to_string()).is_ok());
    assert!(Topic::new("valid_topic.123".to_string()).is_ok());
    assert!(Topic::new("ValidTopic".to_string()).is_ok());
}

#[test]
fn test_invalid_topics() {
    assert!(matches!(
        Topic::new("".to_string()),
        Err(TopicValidationError::Empty)
    ));
    assert!(matches!(
        Topic::new("invalid topic".to_string()),
        Err(TopicValidationError::InvalidCharacters(_))
    ));
    assert!(matches!(
        Topic::new("invalid/topic".to_string()),
        Err(TopicValidationError::InvalidCharacters(_))
    ));
    assert!(matches!(
        Topic::new("a".repeat(256)),
        Err(TopicValidationError::TooLong(_))
    ));
}

#[test]
fn test_serialization() {
    let topic = Topic::new("test_topic".to_string()).unwrap();
    let serialized = json_to_string(&JsonValue::Text(topic.as_str().to_string()));
    assert_eq!(serialized, "\"test_topic\"");

    let deserialized = match json_from_str(&serialized) {
        Some(JsonValue::Text(s)) => Topic::new(s).unwrap(),
        other => panic!("expected a JSON string, got {:?}", other.is_some()),
    };
    assert!(topic == deserialized);
}

#[test]
fn topic_length_boundaries() {
    assert!(Topic::new("a".repeat(255)).is_ok());
    assert!(matches!(
        Topic::new("a".repeat(256)),
        Err(TopicValidationError::TooLong(n)) if n == 256
    ));
}

#[test]
fn topic_invalid_characters_are_reported() {
    match Topic::new("a b".to_string()) {
        Err(TopicValidationError::InvalidCharacters(bad)) => assert_eq!(bad, " "),
        other => panic!("expected invalid characters, got ok={}", other.is_ok()),
    }
}

#[test]
fn topic_new_keeps_the_name() {
    let topic = Topic::new("orders.v1".to_string()).unwrap();
    assert_eq!(topic.as_str(), "orders.v1");
    assert_eq!(topic.into_string(), "orders.v1");
}
