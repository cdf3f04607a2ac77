use piinguin::path::{last_key, parse_index, str_eq};
use piinguin::value::{values_equal, AnnotatedValue, EventValue, Meta};

fn bare(value: Option<EventValue>) -> AnnotatedValue {
    AnnotatedValue { value, meta: Meta { path: None, remarks: vec![], errors: vec![] } }
}

fn noted(value: Option<EventValue>) -> AnnotatedValue {
    AnnotatedValue {
        value,
        meta: Meta {
            path: Some("somewhere".to_string()),
            remarks: vec!["!m".to_string()],
            errors: vec!["oops".to_string()],
        },
    }
}

#[test]
fn leaf_values_compare_structurally() {
    assert!(values_equal(&Some(EventValue::U64(7)), &Some(EventValue::U64(7))));
    assert!(!values_equal(&Some(EventValue::U64(7)), &Some(EventValue::U64(8))));
    assert!(!values_equal(&Some(EventValue::U64(7)), &Some(EventValue::I64(7))));
    assert!(values_equal(&None, &None));
    assert!(!values_equal(&Some(EventValue::Null), &None));
    let half = 0.5f64.to_bits();
    let quarter = 0.25f64.to_bits();
    assert!(values_equal(&Some(EventValue::F64Bits(half)), &Some(EventValue::F64Bits(half))));
    assert!(!values_equal(&Some(EventValue::F64Bits(half)), &Some(EventValue::F64Bits(quarter))));
}

#[test]
fn nested_comparison_ignores_metadata_everywhere() {
    let a = Some(EventValue::Arr(vec![bare(Some(EventValue::Str("x".to_string())))]));
    let b = Some(EventValue::Arr(vec![noted(Some(EventValue::Str("x".to_string())))]));
    assert!(values_equal(&a, &b));
    let c = Some(EventValue::Obj(vec![("k".to_string(), bare(Some(EventValue::Bool(true))))]));
    let d = Some(EventValue::Obj(vec![("k".to_string(), noted(Some(EventValue::Bool(true))))]));
    assert!(values_equal(&c, &d));
    let e = Some(EventValue::Obj(vec![("k2".to_string(), bare(Some(EventValue::Bool(true))))]));
    assert!(!values_equal(&c, &e));
}

#[test]
fn nested_value_differences_are_seen() {
    let a = Some(EventValue::Arr(vec![bare(Some(EventValue::U64(1))), bare(None)]));
    let b = Some(EventValue::Arr(vec![bare(Some(EventValue::U64(1))), bare(Some(EventValue::U64(2)))]));
    assert!(!values_equal(&a, &b));
    let shorter = Some(EventValue::Arr(vec![bare(Some(EventValue::U64(1)))]));
    assert!(!values_equal(&a, &shorter));
}

#[test]
fn last_key_takes_text_after_the_final_dot() {
    assert_eq!(last_key("extra.foo"), "foo");
    assert_eq!(last_key("message"), "message");
    assert_eq!(last_key("a.b.c"), "c");
    assert_eq!(last_key("trailing."), "");
    assert_eq!(last_key(""), "");
}

#[test]
fn parse_index_accepts_exactly_decimal_numerals() {
    assert_eq!(parse_index("0"), Some(0));
    assert_eq!(parse_index("007"), Some(7));
    assert_eq!(parse_index("99"), Some(99));
    assert_eq!(parse_index(""), None);
    assert_eq!(parse_index("-1"), None);
    assert_eq!(parse_index("1x"), None);
    assert_eq!(parse_index("99999999999999999999999999"), None);
}

#[test]
fn str_eq_compares_character_for_character() {
    assert!(str_eq("abc", "abc"));
    assert!(!str_eq("abc", "abd"));
    assert!(!str_eq("abc", "ab"));
    assert!(str_eq("", ""));
}
