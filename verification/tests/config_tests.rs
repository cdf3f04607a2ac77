use piinguin::config::{
    apply_rule_to_kind, define_redact_pair_rule, parse_config, rule_names, serialize_config,
    StructError,
};

fn reparse(text: &str) -> serde_json::Value {
    serde_json::from_str(text).expect("serialized config must be valid JSON")
}

#[test]
fn parse_rejects_non_objects() {
    assert!(parse_config("[1, 2, 3]").is_none());
    assert!(parse_config("\"rules\"").is_none());
    assert!(parse_config("not json at all").is_none());
    assert!(parse_config("{}").is_some());
}

#[test]
fn apply_rule_creates_applications_and_list() {
    let doc = parse_config("{}").unwrap();
    let doc2 = apply_rule_to_kind(&doc, "freeform", "@ip:hash").unwrap();
    let v = reparse(&serialize_config(&doc2));
    assert_eq!(v["applications"]["freeform"][0], serde_json::Value::String("@ip:hash".into()));
}

#[test]
fn apply_rule_twice_appends_twice() {
    let doc = parse_config("{}").unwrap();
    let once = apply_rule_to_kind(&doc, "ip", "@ip:replace").unwrap();
    let twice = apply_rule_to_kind(&once, "ip", "@ip:replace").unwrap();
    let v = reparse(&serialize_config(&twice));
    let list = v["applications"]["ip"].as_array().expect("a list");
    assert_eq!(list.len(), 2);
    assert_eq!(list[0], serde_json::Value::String("@ip:replace".into()));
    assert_eq!(list[1], serde_json::Value::String("@ip:replace".into()));
}

#[test]
fn apply_rule_keeps_other_members() {
    let doc = parse_config(
        "{\"rules\": {\"device_id\": {\"type\": \"pattern\"}}, \"applications\": {\"ip\": [\"@ip:hash\"]}}",
    )
    .unwrap();
    let doc2 = apply_rule_to_kind(&doc, "ip", "device_id").unwrap();
    let v = reparse(&serialize_config(&doc2));
    assert_eq!(v["rules"]["device_id"]["type"], serde_json::Value::String("pattern".into()));
    let list = v["applications"]["ip"].as_array().expect("a list");
    assert_eq!(list.len(), 2);
    assert_eq!(list[0], serde_json::Value::String("@ip:hash".into()));
    assert_eq!(list[1], serde_json::Value::String("device_id".into()));
}

#[test]
fn apply_rule_rejects_bad_applications() {
    let doc = parse_config("{\"applications\": 5}").unwrap();
    assert_eq!(
        apply_rule_to_kind(&doc, "ip", "@ip:hash").unwrap_err(),
        StructError::BadApplications
    );
}

#[test]
fn apply_rule_rejects_bad_kind_entry() {
    let doc = parse_config("{\"applications\": {\"ip\": \"oops\"}}").unwrap();
    assert_eq!(apply_rule_to_kind(&doc, "ip", "@ip:hash").unwrap_err(), StructError::BadKindEntry);
}

#[test]
fn define_rule_creates_rules_member() {
    let doc = parse_config("{}").unwrap();
    let doc2 = define_redact_pair_rule(&doc, "remove_all_foo_keys", "foo").unwrap();
    let v = reparse(&serialize_config(&doc2));
    assert_eq!(
        v["rules"]["remove_all_foo_keys"]["type"],
        serde_json::Value::String("redactPair".into())
    );
    assert_eq!(
        v["rules"]["remove_all_foo_keys"]["keyPattern"],
        serde_json::Value::String("foo".into())
    );
}

#[test]
fn define_rule_overwrites_existing_definition() {
    let doc = parse_config("{\"rules\": {\"r\": {\"type\": \"pattern\"}}}").unwrap();
    let doc2 = define_redact_pair_rule(&doc, "r", "bar").unwrap();
    let v = reparse(&serialize_config(&doc2));
    assert_eq!(v["rules"]["r"]["type"], serde_json::Value::String("redactPair".into()));
    assert_eq!(v["rules"]["r"]["keyPattern"], serde_json::Value::String("bar".into()));
}

#[test]
fn define_rule_rejects_bad_rules() {
    let doc = parse_config("{\"rules\": []}").unwrap();
    assert_eq!(define_redact_pair_rule(&doc, "r", "x").unwrap_err(), StructError::BadRules);
}

#[test]
fn rule_names_lists_user_rules_in_document_order() {
    let doc = parse_config("{\"rules\": {\"a\": {}, \"b\": {}}}").unwrap();
    assert_eq!(rule_names(&doc), vec!["a".to_string(), "b".to_string()]);
    let bare = parse_config("{}").unwrap();
    assert!(rule_names(&bare).is_empty());
    let odd = parse_config("{\"rules\": 7}").unwrap();
    assert!(rule_names(&odd).is_empty());
}

#[test]
fn numbers_round_trip_through_serialization() {
    let doc = parse_config("{\"limit\": 42, \"ratio\": 1.5, \"on\": true, \"off\": null}").unwrap();
    let v = reparse(&serialize_config(&doc));
    assert_eq!(v["limit"], serde_json::Value::Number(42.into()));
    assert_eq!(v["ratio"].as_f64(), Some(1.5));
    assert_eq!(v["on"], serde_json::Value::Bool(true));
    assert_eq!(v["off"], serde_json::Value::Null);
}
