use event_gateway::{Data, DataType, Event, JsonValue, Uid};

fn base_event(id: Uid) -> Event {
    Event {
        id,
        event_type: "test_type".to_string(),
        event_version: Some("1.0".to_string()),
        metadata: vec![("author".to_string(), "Alice".to_string())],
        transport_metadata: None,
        data_type: Some(DataType::Json),
        data: Data::Json(vec![("key".to_string(), JsonValue::Text("value".to_string()))]),
        timestamp: None,
        origin: Some("example".to_string()),
    }
}

#[test]
fn test_serde_data_type() {
    let uuid = uuid::Uuid::new_v4();
    let event = base_event(Uid::from_bytes(*uuid.as_bytes()));
    let serialized = event.to_json();
    assert!(serialized.contains("\"dataType\":\"json\""));

    let deserialized = Event::from_json(&serialized).expect("Failed to deserialize");
    assert!(deserialized.data_type == Some(DataType::Json));
}

#[test]
fn test_serde() {
    let uuid = uuid::Uuid::new_v4();
    let timestamp = chrono::Utc::now().timestamp_millis();

    let mut event = base_event(Uid::from_bytes(*uuid.as_bytes()));
    event.timestamp = Some(timestamp);

    let serialized = event.to_json();

    assert!(serialized.contains(&uuid.to_string()));
    assert!(serialized.contains("\"test_type\""));
    assert!(serialized.contains("\"author\":\"Alice\""));
    let deserialized = Event::from_json(&serialized).expect("Failed to deserialize");
    println!("{}", serialized);
    assert!(deserialized == event);
}

#[test]
fn event_round_trip_keeps_every_field() {
    let event = Event {
        id: Uid::from_bytes([7; 16]),
        event_type: "orders.created".to_string(),
        event_version: None,
        metadata: vec![],
        transport_metadata: Some(vec![("originatorIp".to_string(), "10.0.0.1".to_string())]),
        data_type: Some(DataType::Binary),
        data: Data::Binary(vec![0, 1, 2, 255]),
        timestamp: Some(-5),
        origin: None,
    };
    let text = event.to_json();
    let back = Event::from_json(&text).expect("event should parse back");
    assert!(back == event);
}

#[test]
fn event_with_string_payload_round_trips() {
    let event = Event {
        id: Uid::from_bytes([0; 16]),
        event_type: "t".to_string(),
        event_version: None,
        metadata: vec![],
        transport_metadata: None,
        data_type: Some(DataType::String),
        data: Data::String("plain text".to_string()),
        timestamp: None,
        origin: None,
    };
    let back = Event::from_json(&event.to_json()).expect("event should parse back");
    assert!(matches!(back.data, Data::String(ref s) if s == "plain text"));
}

#[test]
fn fractional_payloads_flow_through() {
    let event = Event {
        id: Uid::from_bytes([5; 16]),
        event_type: "m".to_string(),
        event_version: None,
        metadata: vec![],
        transport_metadata: None,
        data_type: None,
        data: Data::Json(vec![("value".to_string(), JsonValue::Num("1.5".to_string()))]),
        timestamp: None,
        origin: None,
    };
    let text = event.to_json();
    assert!(text.contains(r#""value":1.5"#));
    let back = Event::from_json(&text).expect("event should parse back");
    assert!(back == event);
}

#[test]
fn uid_text_round_trips() {
    let uuid = uuid::Uuid::new_v4();
    let id = Uid::from_bytes(*uuid.as_bytes());
    let text = id.to_text();
    assert_eq!(text, uuid.to_string());
    let back = event_gateway::uid::parse_uid(&text).expect("hyphenated id should parse");
    assert!(back == id);
    assert!(event_gateway::uid::parse_uid("not-a-uid").is_none());

    // uppercase hex digits are read too
    let upper = text.to_uppercase();
    let from_upper = event_gateway::uid::parse_uid(&upper).expect("uppercase id should parse");
    assert!(from_upper == id);
}
