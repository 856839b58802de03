use event_gateway::{
    CachedRuleStore, Condition, InMemoryStorage, Storage, StorageError, StringExpression, Topic,
    TopicRoutingRule, Uid,
};

fn fresh_id() -> Uid {
    Uid::from_bytes(*uuid::Uuid::new_v4().as_bytes())
}

fn versioned_rule(topic: &str, event_type: &str) -> TopicRoutingRule {
    TopicRoutingRule {
        id: fresh_id(),
        order: 0,
        topic: Topic::new(topic.to_string()).unwrap(),
        description: None,
        event_version_condition: Some(Condition::ONE(StringExpression::Equals {
            value: "1.0".to_string(),
        })),
        event_type_condition: Condition::ONE(StringExpression::Equals {
            value: event_type.to_string(),
        }),
    }
}

#[test]
fn test_in_memory_storage() {
    let storage = InMemoryStorage::new();
    let rule = versioned_rule("topic", "event");

    let storage = storage.with_initial_routing_rules(vec![rule.clone()]);
    let retrieved = storage.get_rule(rule.id).unwrap();
    assert!(retrieved == Some(rule));
}

#[test]
fn in_memory_storage_serves_its_snapshot() {
    let a = versioned_rule("topic_a", "ev_a");
    let b = versioned_rule("topic_b", "ev_b");
    let storage = InMemoryStorage::new().with_initial_routing_rules(vec![a.clone(), b.clone()]);

    let all = storage.get_all_rules().unwrap();
    assert_eq!(all.len(), 2);
    assert!(all[0] == a);
    assert!(all[1] == b);
    assert!(storage.get_rule(fresh_id()).unwrap().is_none());
}

#[test]
fn in_memory_storage_refuses_writes() {
    let mut storage = InMemoryStorage::new();
    let rule = versioned_rule("topic", "event");
    assert!(matches!(
        storage.add_rule(&rule),
        Err(StorageError::Other(_))
    ));
    assert!(matches!(
        storage.delete_rule(rule.id),
        Err(StorageError::Other(_))
    ));
}

#[test]
fn cached_store_serves_rules_after_refresh() {
    let mut cache = CachedRuleStore::new(300, 1000);
    let a = versioned_rule("topic_a", "ev_a");
    let b = versioned_rule("topic_b", "ev_b");

    // two writers add a rule each; each write is followed by a refresh
    assert!(cache.begin_refresh());
    cache.complete_refresh(1001, vec![a.clone()], vec![]);
    assert!(cache.begin_refresh());
    cache.complete_refresh(1002, vec![a.clone(), b.clone()], vec![]);

    let (rules, needs_refresh) = cache.read_rules(1003);
    assert!(!needs_refresh);
    assert_eq!(rules.len(), 2);
    assert!(rules[0] == a);
    assert!(rules[1] == b);
}

#[test]
fn only_one_refresh_runs_at_a_time() {
    let mut cache = CachedRuleStore::new(300, 0);
    assert!(cache.begin_refresh());
    // a second attempt while the first holds the flag is refused
    assert!(!cache.begin_refresh());
    cache.abort_refresh();
    assert!(cache.begin_refresh());
}

#[test]
fn stale_cache_still_serves_and_asks_for_a_refresh() {
    let mut cache = CachedRuleStore::new(10, 0);
    let a = versioned_rule("topic_a", "ev_a");
    assert!(cache.begin_refresh());
    cache.complete_refresh(0, vec![a.clone()], vec![]);

    let (rules, needs_refresh) = cache.read_rules(1000);
    assert!(needs_refresh);
    assert_eq!(rules.len(), 1);
    assert!(rules[0] == a);
}

#[test]
fn archive_rows_carry_the_routing_outcome() {
    let rule_id = fresh_id();
    let row_id = fresh_id();
    let event = event_gateway::Event {
        id: fresh_id(),
        event_type: "e".to_string(),
        event_version: Some("1.0".to_string()),
        metadata: vec![],
        transport_metadata: None,
        data_type: None,
        data: event_gateway::Data::String("payload".to_string()),
        timestamp: None,
        origin: None,
    };
    let row = event_gateway::storage::build_archive_row(
        &event,
        Some(rule_id),
        Some("t".to_string()),
        Some("No topic to route event".to_string()),
        row_id,
        12345,
    );
    assert!(row.event_id == event.id);
    assert_eq!(row.event_type, "e");
    assert_eq!(row.stored_at, 12345);
    let text = event_gateway::json::json_to_string(&row.to_value());
    assert!(text.contains(&row_id.to_text()));
    assert!(text.contains("\"eventData\":\"payload\""));
}

#[test]
fn archive_rows_parse_back_from_their_text() {
    let event = event_gateway::Event {
        id: fresh_id(),
        event_type: "e".to_string(),
        event_version: None,
        metadata: vec![],
        transport_metadata: None,
        data_type: None,
        data: event_gateway::Data::Json(vec![(
            "k".to_string(),
            event_gateway::JsonValue::Int(1),
        )]),
        timestamp: None,
        origin: None,
    };
    let row = event_gateway::storage::build_archive_row(
        &event,
        None,
        Some("t".to_string()),
        None,
        fresh_id(),
        777,
    );
    let text = event_gateway::json::json_to_string(&row.to_value());
    let back = event_gateway::StoredEvent::from_json(&text).expect("row should parse back");
    assert!(back.id == row.id);
    assert!(back.event_id == row.event_id);
    assert_eq!(back.stored_at, 777);
    assert!(event_gateway::StoredEvent::from_json("{broken").is_none());
}

#[test]
fn sampled_events_are_rebuilt_from_their_rows() {
    let event = event_gateway::Event {
        id: fresh_id(),
        event_type: "e".to_string(),
        event_version: Some("2".to_string()),
        metadata: vec![("author".to_string(), "Alice".to_string())],
        transport_metadata: None,
        data_type: None,
        data: event_gateway::Data::Json(vec![(
            "k".to_string(),
            event_gateway::JsonValue::Int(1),
        )]),
        timestamp: None,
        origin: None,
    };
    let row = event_gateway::storage::build_archive_row(
        &event,
        None,
        Some("t".to_string()),
        None,
        fresh_id(),
        777,
    );
    let rebuilt = event_gateway::storage::rebuild_sampled_event(&row);
    assert!(rebuilt.id == event.id);
    assert_eq!(rebuilt.event_type, "e");
    assert_eq!(rebuilt.event_version.as_deref(), Some("2"));
    assert_eq!(rebuilt.timestamp, Some(777));
    assert!(matches!(rebuilt.data, event_gateway::Data::Json(ref fields) if fields.len() == 1));
}
