use piinguin::resolve::{resolve, resolve_checked, Lookup};
use piinguin::value::{AnnotatedValue, EventValue, Meta};

fn bare(value: Option<EventValue>) -> AnnotatedValue {
    AnnotatedValue { value, meta: Meta { path: None, remarks: vec![], errors: vec![] } }
}

/// A sample event with nested objects and an array, as an annotated tree.
fn sample_tree() -> AnnotatedValue {
    bare(Some(EventValue::Obj(vec![
        (
            "message".to_string(),
            bare(Some(EventValue::Str(
                "Paid with card 1234-1234-1234-1234 on d/deadbeef1234".to_string(),
            ))),
        ),
        ("level".to_string(), bare(Some(EventValue::Str("warning".to_string())))),
        (
            "extra".to_string(),
            bare(Some(EventValue::Obj(vec![(
                "foo".to_string(),
                bare(Some(EventValue::Arr(vec![
                    bare(Some(EventValue::U64(1))),
                    bare(Some(EventValue::U64(2))),
                    bare(Some(EventValue::U64(3))),
                    bare(Some(EventValue::Str("127.0.0.1".to_string()))),
                ]))),
            )]))),
        ),
    ])))
}

fn str_value(node: &AnnotatedValue) -> &str {
    match &node.value {
        Some(EventValue::Str(s)) => s.as_str(),
        _ => panic!("expected a string value"),
    }
}

#[test]
fn empty_path_names_the_root() {
    let root = sample_tree();
    let hit = resolve(&root, "").expect("empty path must name the root");
    assert!(std::ptr::eq(hit, &root));
}

#[test]
fn dot_path_names_the_root() {
    let root = sample_tree();
    let hit = resolve(&root, ".").expect("the path \".\" must name the root");
    assert!(std::ptr::eq(hit, &root));
}

#[test]
fn resolves_map_keys_and_array_indices() {
    let root = sample_tree();
    let msg = resolve(&root, "message").expect("message exists");
    assert_eq!(str_value(msg), "Paid with card 1234-1234-1234-1234 on d/deadbeef1234");
    let ip = resolve(&root, "extra.foo.3").expect("extra.foo.3 exists");
    assert_eq!(str_value(ip), "127.0.0.1");
}

#[test]
fn composition_of_resolution() {
    let root = sample_tree();
    let two_step = resolve(resolve(&root, "extra").expect("extra exists"), "foo.3")
        .expect("foo.3 exists below extra");
    let one_step = resolve(&root, "extra.foo.3").expect("extra.foo.3 exists");
    assert_eq!(str_value(two_step), str_value(one_step));
}

#[test]
fn trailing_dot_resolves_like_the_segment() {
    let root = sample_tree();
    let plain = resolve(&root, "level").expect("level exists");
    let dotted = resolve(&root, "level.").expect("level. resolves to the same node");
    assert_eq!(str_value(plain), str_value(dotted));
}

#[test]
fn out_of_range_index_is_missing_not_fatal() {
    let root = sample_tree();
    assert!(matches!(resolve_checked(&root, "extra.foo.99"), Lookup::Missing));
}

#[test]
fn absent_key_is_missing() {
    let root = sample_tree();
    assert!(matches!(resolve_checked(&root, "nope"), Lookup::Missing));
    assert!(matches!(resolve_checked(&root, "extra.bar"), Lookup::Missing));
}

#[test]
fn scalar_has_no_children() {
    let root = sample_tree();
    assert!(matches!(resolve_checked(&root, "level.anything"), Lookup::Missing));
}

#[test]
fn empty_segment_is_a_fault() {
    let root = sample_tree();
    assert!(matches!(resolve_checked(&root, ".message"), Lookup::Fault));
    assert!(matches!(resolve_checked(&root, "extra..foo"), Lookup::Fault));
}

#[test]
fn non_numeric_array_index_is_a_fault() {
    let root = sample_tree();
    assert!(matches!(resolve_checked(&root, "extra.foo.first"), Lookup::Fault));
}

#[test]
fn overlong_numeral_index_is_a_fault() {
    let root = sample_tree();
    assert!(matches!(
        resolve_checked(&root, "extra.foo.99999999999999999999999999"),
        Lookup::Fault
    ));
}

#[test]
fn redacted_node_resolves_with_absent_value() {
    let root = bare(Some(EventValue::Obj(vec![("gone".to_string(), bare(None))])));
    let hit = resolve(&root, "gone").expect("the node exists even with its value removed");
    assert!(hit.value.is_none());
}
