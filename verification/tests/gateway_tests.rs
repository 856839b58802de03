use event_gateway::{
    Condition, Data, DataSchema, Event, EventGateway, GatewayError, InMemoryStorage, JSchema,
    JsonValue, NoOpPublisher, Schema, StringExpression, Topic, TopicRoutingRule,
    TopicValidationConfig, Uid,
};

fn fresh_id() -> Uid {
    Uid::from_bytes(*uuid::Uuid::new_v4().as_bytes())
}

fn equals_rule(order: i32, topic: &str, event_type: &str) -> TopicRoutingRule {
    TopicRoutingRule {
        id: fresh_id(),
        order,
        topic: Topic::new(topic.to_string()).unwrap(),
        event_type_condition: Condition::ONE(StringExpression::Equals {
            value: event_type.to_string(),
        }),
        event_version_condition: None,
        description: None,
    }
}

fn plain_event(event_type: &str) -> Event {
    Event {
        id: fresh_id(),
        event_type: event_type.to_string(),
        event_version: None,
        metadata: vec![],
        transport_metadata: None,
        data_type: None,
        data: Data::String("".to_string()),
        timestamp: None,
        origin: None,
    }
}

const FULL_THRESHOLD: u64 = 1_000_000;

#[test]
fn routes_to_the_first_matching_rule_and_publishes() {
    let store = InMemoryStorage::new().with_initial_routing_rules(vec![
        equals_rule(0, "t1", "event_one"),
        equals_rule(1, "t2", "event_two"),
    ]);
    let mut gateway = EventGateway::new(NoOpPublisher::new(), store, true, FULL_THRESHOLD);

    let outcome = gateway.handle(&plain_event("event_two"));
    assert!(outcome.response.is_ok());
    let archive = outcome.archive.expect("sampling at full threshold archives every event");
    assert_eq!(archive.destination_topic, "t2");
    assert!(archive.routing_id.is_some());
    assert!(archive.failure_reason.is_none());
}

#[test]
fn version_condition_without_event_version_gives_no_route() {
    let mut rule = equals_rule(0, "t", "e");
    rule.event_version_condition = Some(Condition::ONE(StringExpression::Equals {
        value: "1.0".to_string(),
    }));
    let store = InMemoryStorage::new().with_initial_routing_rules(vec![rule]);
    let mut gateway = EventGateway::new(NoOpPublisher::new(), store, true, FULL_THRESHOLD);

    let event = plain_event("e");
    let outcome = gateway.handle(&event);
    match &outcome.response {
        Err(GatewayError::NoTopicToRoute(msg)) => {
            assert_eq!(*msg, format!("No topic to route event: {}", event.id.to_text()));
        }
        _ => panic!("expected a no-route response"),
    }
    let archive = outcome.archive.expect("unrouted events are still archived");
    assert_eq!(archive.destination_topic, "unknown");
    assert!(archive.routing_id.is_none());
    assert_eq!(archive.failure_reason.as_deref(), Some("No topic to route event"));
}

#[test]
fn failing_schema_gives_a_schema_invalid_response() {
    let rule = equals_rule(0, "t", "e");
    let schema_value = JsonValue::Obj(vec![
        ("type".to_string(), JsonValue::Text("object".to_string())),
        (
            "properties".to_string(),
            JsonValue::Obj(vec![(
                "a".to_string(),
                JsonValue::Obj(vec![(
                    "type".to_string(),
                    JsonValue::Text("integer".to_string()),
                )]),
            )]),
        ),
    ]);
    let validation = TopicValidationConfig {
        id: fresh_id(),
        topic: Topic::new("t".to_string()).unwrap(),
        schema: DataSchema {
            name: "a_is_integer".to_string(),
            description: None,
            schema: Schema::Json(JSchema::new(schema_value).unwrap()),
            event_type: "e".to_string(),
            event_version: None,
            metadata: None,
        },
    };
    let store = InMemoryStorage::new()
        .with_initial_routing_rules(vec![rule])
        .with_initial_topic_validations(vec![validation]);
    let mut gateway = EventGateway::new(NoOpPublisher::new(), store, true, FULL_THRESHOLD);

    let mut event = plain_event("e");
    event.data = Data::Json(vec![("a".to_string(), JsonValue::Text("x".to_string()))]);

    let outcome = gateway.handle(&event);
    assert!(matches!(outcome.response, Err(GatewayError::SchemaInvalid(_))));
    let archive = outcome.archive.expect("rejected events are still archived");
    let reason = archive.failure_reason.expect("a schema failure is recorded");
    assert!(reason.starts_with("Schema validation failed for 'a_is_integer'"));
}

#[test]
fn passing_schema_lets_the_event_through() {
    let rule = equals_rule(0, "t", "e");
    let schema_value = JsonValue::Obj(vec![
        ("type".to_string(), JsonValue::Text("object".to_string())),
        (
            "properties".to_string(),
            JsonValue::Obj(vec![(
                "a".to_string(),
                JsonValue::Obj(vec![(
                    "type".to_string(),
                    JsonValue::Text("integer".to_string()),
                )]),
            )]),
        ),
    ]);
    let validation = TopicValidationConfig {
        id: fresh_id(),
        topic: Topic::new("t".to_string()).unwrap(),
        schema: DataSchema {
            name: "a_is_integer".to_string(),
            description: None,
            schema: Schema::Json(JSchema::new(schema_value).unwrap()),
            event_type: "e".to_string(),
            event_version: None,
            metadata: None,
        },
    };
    let store = InMemoryStorage::new()
        .with_initial_routing_rules(vec![rule])
        .with_initial_topic_validations(vec![validation]);
    let mut gateway = EventGateway::new(NoOpPublisher::new(), store, true, FULL_THRESHOLD);

    let mut event = plain_event("e");
    event.data = Data::Json(vec![("a".to_string(), JsonValue::Int(5))]);

    let outcome = gateway.handle(&event);
    assert!(outcome.response.is_ok());
}

#[test]
fn sampling_disabled_never_archives() {
    let store = InMemoryStorage::new().with_initial_routing_rules(vec![equals_rule(0, "t", "e")]);
    let mut gateway = EventGateway::new(NoOpPublisher::new(), store, false, FULL_THRESHOLD);

    let outcome = gateway.handle(&plain_event("e"));
    assert!(outcome.response.is_ok());
    assert!(outcome.archive.is_none());
}

#[test]
fn full_threshold_archives_every_event() {
    let store = InMemoryStorage::new().with_initial_routing_rules(vec![equals_rule(0, "t", "e")]);
    let mut gateway = EventGateway::new(NoOpPublisher::new(), store, true, FULL_THRESHOLD);

    for _ in 0..8 {
        let outcome = gateway.handle(&plain_event("e"));
        assert!(outcome.response.is_ok());
        assert!(outcome.archive.is_some());
    }
}

#[test]
fn zero_threshold_archives_nothing() {
    let store = InMemoryStorage::new().with_initial_routing_rules(vec![equals_rule(0, "t", "e")]);
    let mut gateway = EventGateway::new(NoOpPublisher::new(), store, true, 0);

    let mut event = plain_event("e");
    // an id whose bytes do not sum to zero
    event.id = Uid::from_bytes([1; 16]);
    let outcome = gateway.handle(&event);
    assert!(outcome.response.is_ok());
    assert!(outcome.archive.is_none());
}

#[test]
fn archive_delay_doubles_with_jitter_and_caps() {
    let id = Uid::from_bytes([0; 16]);
    // value mod 100 of the all-zero id is 0
    assert_eq!(event_gateway::gateway::next_archive_delay(100, &id), 200);
    assert_eq!(event_gateway::gateway::next_archive_delay(3000, &id), 5000);

    let id2 = Uid::from_bytes([
        0, 0, 0, 0, 0, 0, 0, 0, 0, 0, 0, 0, 0, 0, 0, 7,
    ]);
    assert_eq!(event_gateway::gateway::next_archive_delay(100, &id2), 207);
}

#[test]
fn sampling_is_deterministic_in_the_id() {
    let config = event_gateway::EventSamplingConfig::new(true, 500_000);
    let event = plain_event("e");
    let first = config.should_store_event(&event);
    for _ in 0..4 {
        assert_eq!(config.should_store_event(&event), first);
    }
}

#[test]
fn metric_labels_default_to_unknown() {
    let mut event = plain_event("e");
    let labels = event_gateway::gateway::metric_labels(&event, true);
    assert_eq!(labels.0, "e");
    assert_eq!(labels.1, "unknown");
    assert_eq!(labels.2, "unknown");
    assert_eq!(labels.3, "success");

    event.event_version = Some("2.1".to_string());
    event.origin = Some("ingest".to_string());
    let labels = event_gateway::gateway::metric_labels(&event, false);
    assert_eq!(labels.1, "2.1");
    assert_eq!(labels.2, "ingest");
    assert_eq!(labels.3, "failure");
}

#[test]
fn message_key_prefers_the_configured_metadata_field() {
    let mut event = plain_event("e");
    event.metadata = vec![
        ("tenant".to_string(), "acme".to_string()),
        ("region".to_string(), "eu".to_string()),
    ];

    let by_field = event_gateway::gateway::message_key(&event, &Some("tenant".to_string()));
    assert_eq!(by_field, "acme");

    let missing = event_gateway::gateway::message_key(&event, &Some("absent".to_string()));
    assert_eq!(missing, event.id.to_text());

    let unconfigured = event_gateway::gateway::message_key(&event, &None);
    assert_eq!(unconfigured, event.id.to_text());
}
