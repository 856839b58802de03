use event_gateway::config::{
    default_cache_refresh_interval, default_dbname, parse_endpoint, RequestMetadata,
};

#[test]
fn endpoint_with_port_is_split() {
    let (host, port) = parse_endpoint("localhost:5433");
    assert_eq!(host, "localhost");
    assert_eq!(port, 5433);
}

#[test]
fn endpoint_without_port_gets_the_default() {
    let (host, port) = parse_endpoint("db.internal");
    assert_eq!(host, "db.internal");
    assert_eq!(port, 5432);
}

#[test]
fn malformed_ports_fall_back_to_the_default() {
    assert_eq!(parse_endpoint("h:").1, 5432);
    assert_eq!(parse_endpoint("h:abc").1, 5432);
    assert_eq!(parse_endpoint("h:99999").1, 5432);
    assert_eq!(parse_endpoint("h:1:2").1, 5432);
}

#[test]
fn defaults_match_the_documented_values() {
    assert_eq!(default_cache_refresh_interval(), 300);
    assert_eq!(default_dbname(), "event_gateway");
}

#[test]
fn request_metadata_keeps_only_known_entries() {
    let full = RequestMetadata {
        originator_ip: Some("10.1.2.3".to_string()),
        user_agent: Some("curl".to_string()),
    };
    let map = full.to_hash_map_string();
    assert_eq!(map.len(), 2);
    assert_eq!(map[0].0, "originatorIp");
    assert_eq!(map[0].1, "10.1.2.3");
    assert_eq!(map[1].0, "userAgent");
    assert_eq!(map[1].1, "curl");

    let empty = RequestMetadata { originator_ip: None, user_agent: None };
    assert!(empty.to_hash_map_string().is_empty());
}
