use event_gateway::{
    Condition, Data, Event, StringExpression, Topic, TopicRouter, TopicRoutingRule, TopicRoutings,
    Uid,
};

fn fresh_id() -> Uid {
    Uid::from_bytes(*uuid::Uuid::new_v4().as_bytes())
}

fn plain_event(event_type: &str) -> Event {
    Event {
        id: fresh_id(),
        event_type: event_type.to_string(),
        event_version: None,
        data: Data::String("".to_string()),
        data_type: None,
        transport_metadata: None,
        metadata: vec![],
        origin: None,
        timestamp: None,
    }
}

#[test]
fn test_topic_router() {
    let routings = TopicRoutings {
        rules: vec![
            TopicRoutingRule {
                id: fresh_id(),
                order: 0,
                topic: Topic::new("topic_one".to_string()).unwrap(),
                description: None,
                event_version_condition: None,
                event_type_condition: Condition::ONE(StringExpression::Equals {
                    value: "event_one".to_string(),
                }),
            },
            TopicRoutingRule {
                id: fresh_id(),
                order: 0,
                topic: Topic::new("topic_two".to_string()).unwrap(),
                description: None,
                event_version_condition: None,
                event_type_condition: Condition::ONE(StringExpression::Equals {
                    value: "event_two".to_string(),
                }),
            },
        ],
    };
    let event = plain_event("event_one");
    let event_two = plain_event("event_two");
    let event_three = plain_event("event_three");

    assert_eq!(
        routings.route(&event).map(|r| r.topic.as_str()),
        Some("topic_one")
    );
    assert_eq!(
        routings.route(&event_two).map(|r| r.topic.as_str()),
        Some("topic_two")
    );
    assert!(routings.route(&event_three).is_none());
}

#[test]
fn test_topic_router_with_version_match() {
    let routings = TopicRoutings {
        rules: vec![TopicRoutingRule {
            id: fresh_id(),
            order: 0,
            topic: Topic::new("topic".to_string()).unwrap(),
            description: None,
            event_version_condition: Some(Condition::ONE(StringExpression::Equals {
                value: "1.0".to_string(),
            })),
            event_type_condition: Condition::ONE(StringExpression::Equals {
                value: "event".to_string(),
            }),
        }],
    };
    let event = plain_event("event");

    let mut event_two = plain_event("event");
    event_two.event_version = Some("1.0".to_string());

    let mut event_three = plain_event("event_three");
    event_three.event_version = Some("3.0".to_string());

    assert!(routings.route(&event).is_none());
    assert_eq!(
        routings.route(&event_two).map(|r| r.topic.as_str()),
        Some("topic")
    );
    assert!(routings.route(&event_three).is_none());
}

#[test]
fn router_picks_the_first_match_in_order() {
    let make = |topic: &str, value: &str| TopicRoutingRule {
        id: fresh_id(),
        order: 0,
        topic: Topic::new(topic.to_string()).unwrap(),
        description: None,
        event_version_condition: None,
        event_type_condition: Condition::ONE(StringExpression::StartsWith {
            value: value.to_string(),
        }),
    };
    let routings = TopicRoutings {
        rules: vec![make("first", "ev"), make("second", "event")],
    };
    // both rules match; the first in the provided order wins
    assert_eq!(
        routings.route(&plain_event("event_x")).map(|r| r.topic.as_str()),
        Some("first")
    );
}
