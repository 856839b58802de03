use event_gateway::file_store::{
    delete_in_files, filter_events_by_routing, filter_events_by_type, page_events, rule_file,
    rules_from_files, sort_events_by_stored_at_desc, stored_events_from_files,
    update_rule_in_files,
};
use event_gateway::{
    Condition, FileStorage, StorageError, StringExpression, Topic, TopicRoutingRule, Uid,
};

fn rule_with_order(order: i32, topic: &str) -> TopicRoutingRule {
    TopicRoutingRule {
        id: Uid::from_bytes(*uuid::Uuid::new_v4().as_bytes()),
        order,
        topic: Topic::new(topic.to_string()).unwrap(),
        event_type_condition: Condition::ONE(StringExpression::Equals {
            value: "test_event".to_string(),
        }),
        event_version_condition: None,
        description: None,
    }
}

#[test]
fn paths_are_rooted_at_the_base() {
    let storage = FileStorage::new("/var/lib/gw".to_string());
    assert_eq!(storage.get_rules_path(), "/var/lib/gw/rules");
    assert_eq!(storage.get_validations_path(), "/var/lib/gw/validations");
    assert_eq!(storage.get_events_path(), "/var/lib/gw/events");
}

#[test]
fn rule_files_are_named_by_id_and_parse_back() {
    let rule = rule_with_order(3, "t");
    let (name, content) = rule_file(&rule);
    assert_eq!(name, format!("{}.json", rule.id.to_text()));
    let back = TopicRoutingRule::from_json(&content).unwrap();
    assert!(back == rule);
}

#[test]
fn update_of_missing_id_is_not_found() {
    let rule = rule_with_order(0, "t");
    let names = vec!["somebody-else.json".to_string()];
    assert!(matches!(
        update_rule_in_files(&names, &rule.id, &rule),
        Err(StorageError::NotFound)
    ));

    let present = vec![format!("{}.json", rule.id.to_text())];
    assert!(update_rule_in_files(&present, &rule.id, &rule).is_ok());
}

#[test]
fn delete_of_missing_id_is_not_found() {
    let id = Uid::from_bytes([9; 16]);
    assert!(matches!(
        delete_in_files(&vec![], &id),
        Err(StorageError::NotFound)
    ));

    let present = vec![format!("{}.json", id.to_text())];
    let removed = delete_in_files(&present, &id).unwrap();
    assert_eq!(removed, present[0]);
}

#[test]
fn directory_snapshots_parse_and_sort_by_order() {
    let a = rule_with_order(5, "t_a");
    let b = rule_with_order(1, "t_b");
    let c = rule_with_order(3, "t_c");
    let contents = vec![
        rule_file(&a).1,
        rule_file(&b).1,
        rule_file(&c).1,
    ];
    let rules = rules_from_files(&contents).unwrap();
    assert_eq!(rules.len(), 3);
    assert_eq!(rules[0].order, 1);
    assert_eq!(rules[1].order, 3);
    assert_eq!(rules[2].order, 5);
}

#[test]
fn a_broken_file_fails_the_whole_read() {
    let a = rule_with_order(5, "t_a");
    let contents = vec![rule_file(&a).1, "{not json".to_string()];
    assert!(matches!(
        rules_from_files(&contents),
        Err(StorageError::SerializationError(_))
    ));
}

fn archive_row(event_type: &str, stored_at: i64, routing: Option<Uid>) -> event_gateway::StoredEvent {
    let event = event_gateway::Event {
        id: Uid::from_bytes(*uuid::Uuid::new_v4().as_bytes()),
        event_type: event_type.to_string(),
        event_version: None,
        metadata: vec![],
        transport_metadata: None,
        data_type: None,
        data: event_gateway::Data::String("".to_string()),
        timestamp: None,
        origin: None,
    };
    event_gateway::storage::build_archive_row(
        &event,
        routing,
        Some("t".to_string()),
        None,
        Uid::from_bytes(*uuid::Uuid::new_v4().as_bytes()),
        stored_at,
    )
}

#[test]
fn event_directories_parse_filter_sort_and_paginate() {
    let rid = Uid::from_bytes([3; 16]);
    let rows = vec![
        archive_row("a", 10, None),
        archive_row("b", 30, Some(rid)),
        archive_row("a", 20, Some(rid)),
    ];
    let contents: Vec<String> = rows
        .iter()
        .map(|r| event_gateway::json::json_to_string(&r.to_value()))
        .collect();

    let parsed = stored_events_from_files(&contents).expect("rows should parse");
    assert_eq!(parsed.len(), 3);

    let of_a = filter_events_by_type(&parsed, "a");
    assert_eq!(of_a.len(), 2);

    let sorted = sort_events_by_stored_at_desc(of_a);
    assert_eq!(sorted[0].stored_at, 20);
    assert_eq!(sorted[1].stored_at, 10);

    let by_routing = filter_events_by_routing(&parsed, &rid);
    assert_eq!(by_routing.len(), 2);

    let all_sorted = sort_events_by_stored_at_desc(parsed);
    let second_page = page_events(&all_sorted, 2, 1);
    assert_eq!(second_page.len(), 2);
    assert_eq!(second_page[0].stored_at, 20);
    assert_eq!(second_page[1].stored_at, 10);
    assert!(page_events(&all_sorted, -1, 0).is_empty());
    assert!(page_events(&all_sorted, 5, 9).is_empty());

    let mut broken = contents.clone();
    broken.push("nonsense".to_string());
    assert!(stored_events_from_files(&broken).is_err());
}
