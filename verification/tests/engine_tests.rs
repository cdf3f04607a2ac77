use piinguin::engine::{Search, SuggestError, Suggestion};
use piinguin::value::{AnnotatedValue, EventValue, Meta};

fn bare(value: Option<EventValue>) -> AnnotatedValue {
    AnnotatedValue { value, meta: Meta { path: None, remarks: vec![], errors: vec![] } }
}

fn message_event(text: &str) -> AnnotatedValue {
    bare(Some(EventValue::Obj(vec![(
        "message".to_string(),
        bare(Some(EventValue::Str(text.to_string()))),
    )])))
}

/// Drives a search to completion, asking `outcome` for each candidate's
/// stripped tree in order; `None` stands for a failed candidate strip.
fn run_search(mut s: Search, outcome: impl Fn(usize) -> Option<AnnotatedValue>) -> Vec<Suggestion> {
    let mut i: usize = 0;
    while !s.is_done() {
        match outcome(i) {
            Some(t) => s.record_outcome(&t),
            None => s.record_failure(),
        }
        i += 1;
    }
    s.into_suggestions()
}

#[test]
fn baseline_config_must_be_a_json_object() {
    let event = message_event("hello");
    let err = Search::begin(event, "[1, 2]", "message").err().expect("must fail");
    assert_eq!(err, SuggestError::MalformedConfig);
    let event = message_event("hello");
    let err = Search::begin(event, "nonsense", "message").err().expect("must fail");
    assert_eq!(err, SuggestError::MalformedConfig);
}

#[test]
fn structural_errors_abort_the_whole_request() {
    let event = message_event("hello");
    let err = Search::begin(event, "{\"applications\": 5}", "message").err().expect("must fail");
    assert!(matches!(err, SuggestError::Structure(_)));
    let event = message_event("hello");
    let err = Search::begin(event, "{\"applications\": {\"freeform\": 3}}", "message").err().expect("must fail");
    assert!(matches!(err, SuggestError::Structure(_)));
    let event = message_event("hello");
    let err = Search::begin(event, "{\"rules\": []}", "message").err().expect("must fail");
    assert!(matches!(err, SuggestError::Structure(_)));
}

#[test]
fn candidate_count_is_rules_by_kinds_plus_key_row() {
    let event = message_event("hello");
    let s = Search::begin(event, "{}", "message").unwrap();
    // 16 built-in rules by 9 categories, then one key-removal rule by 9.
    assert_eq!(s.candidate_count(), 16 * 9 + 9);
}

#[test]
fn user_rules_are_candidates_too() {
    let event = message_event("hello");
    let s = Search::begin(
        event,
        "{\"rules\": {\"device_id\": {\"type\": \"pattern\"}}}",
        "message",
    )
    .unwrap();
    assert_eq!(s.candidate_count(), 17 * 9 + 9);
}

#[test]
fn unchanged_outcomes_yield_no_suggestions() {
    let event = message_event("card 1234-1234-1234-1234");
    let s = Search::begin(event, "{}", "message").unwrap();
    let found = run_search(s, |_| Some(message_event("card 1234-1234-1234-1234")));
    assert!(found.is_empty());
}

#[test]
fn failed_candidates_are_absorbed_silently() {
    let event = message_event("hello");
    let s = Search::begin(event, "{}", "message").unwrap();
    let found = run_search(s, |_| None);
    assert!(found.is_empty());
}

#[test]
fn creditcard_hash_on_freeform_is_suggested_when_it_changes_the_value() {
    let event = message_event("card 1234-1234-1234-1234");
    let s = Search::begin(event, "{}", "message").unwrap();
    // Rule-major enumeration: "@creditcard:hash" is the 13th built-in rule,
    // "freeform" the first category, so that pair is candidate 12 * 9.
    let changed_at = 12 * 9;
    let found = run_search(s, move |i| {
        if i == changed_at {
            Some(message_event("card AAAAAAAAAAAAAAAA"))
        } else {
            Some(message_event("card 1234-1234-1234-1234"))
        }
    });
    assert_eq!(found.len(), 1);
    match &found[0] {
        Suggestion::Value { pii_kind, rule, config } => {
            assert_eq!(pii_kind, "freeform");
            assert_eq!(rule, "@creditcard:hash");
            let v: serde_json::Value = serde_json::from_str(config).unwrap();
            assert_eq!(
                v["applications"]["freeform"][0],
                serde_json::Value::String("@creditcard:hash".into())
            );
        },
        Suggestion::Key { .. } => panic!("expected a value suggestion"),
    }
}

fn array_event(items: Vec<AnnotatedValue>) -> AnnotatedValue {
    bare(Some(EventValue::Obj(vec![(
        "extra".to_string(),
        bare(Some(EventValue::Obj(vec![(
            "foo".to_string(),
            bare(Some(EventValue::Arr(items))),
        )]))),
    )])))
}

#[test]
fn out_of_range_path_never_produces_spurious_suggestions() {
    let event = array_event(vec![bare(Some(EventValue::U64(1)))]);
    // Index 99 misses in the baseline and in every candidate: both observe
    // nothing, and nothing-versus-nothing is no difference.
    let s = Search::begin(event, "{}", "extra.foo.99").unwrap();
    let found = run_search(s, |_| array_event(vec![bare(Some(EventValue::U64(2)))]).into());
    assert!(found.is_empty());
}

fn foo_event(value: Option<EventValue>) -> AnnotatedValue {
    bare(Some(EventValue::Obj(vec![(
        "extra".to_string(),
        bare(Some(EventValue::Obj(vec![("foo".to_string(), bare(value))]))),
    )])))
}

#[test]
fn key_removal_suggestion_when_the_value_goes_absent() {
    let event = foo_event(Some(EventValue::Str("127.0.0.1".to_string())));
    let s = Search::begin(event, "{}", "extra.foo").unwrap();
    // The key phase starts after the 16 * 9 value candidates; make the first
    // key candidate ("freeform") observe an absent value.
    let key_start = 16 * 9;
    let found = run_search(s, move |i| {
        if i == key_start {
            Some(foo_event(None))
        } else {
            Some(foo_event(Some(EventValue::Str("127.0.0.1".to_string()))))
        }
    });
    assert_eq!(found.len(), 1);
    match &found[0] {
        Suggestion::Key { pii_kind, key, config } => {
            assert_eq!(pii_kind, "freeform");
            assert_eq!(key, "foo");
            let v: serde_json::Value = serde_json::from_str(config).unwrap();
            assert_eq!(
                v["rules"]["remove_all_foo_keys"]["type"],
                serde_json::Value::String("redactPair".into())
            );
            assert_eq!(
                v["rules"]["remove_all_foo_keys"]["keyPattern"],
                serde_json::Value::String("foo".into())
            );
            assert_eq!(
                v["applications"]["freeform"][0],
                serde_json::Value::String("remove_all_foo_keys".into())
            );
        },
        Suggestion::Value { .. } => panic!("expected a key suggestion"),
    }
}

#[test]
fn trailing_empty_key_yields_zero_key_suggestions() {
    let event = message_event("hello");
    let s = Search::begin(event, "{}", "message.").unwrap();
    // No key phase at all: only the 16 * 9 value candidates are planned.
    assert_eq!(s.candidate_count(), 16 * 9);
    // Even when every candidate differs, everything kept is a value
    // suggestion.
    let found = run_search(s, |_| Some(message_event("other")));
    assert_eq!(found.len(), 16 * 9);
    for s in &found {
        assert!(matches!(s, Suggestion::Value { .. }));
    }
}

#[test]
fn textually_identical_configs_still_yield_separate_entries() {
    // The baseline defines a rule named like a built-in one, so two distinct
    // candidates produce character-for-character the same resulting config.
    let event = message_event("10.0.0.1");
    let s = Search::begin(event, "{\"rules\": {\"@ip:replace\": {}}}", "message").unwrap();
    // Candidate 0 is ("@ip:replace" the built-in, "freeform"); candidate
    // 16 * 9 is ("@ip:replace" the user rule, "freeform").
    let twin = 16 * 9;
    let found = run_search(s, move |i| {
        if i == 0 || i == twin {
            Some(message_event("[ip]"))
        } else {
            Some(message_event("10.0.0.1"))
        }
    });
    assert_eq!(found.len(), 2);
    let configs: Vec<&String> = found
        .iter()
        .map(|s| match s {
            Suggestion::Value { config, .. } => config,
            Suggestion::Key { config, .. } => config,
        })
        .collect();
    assert_eq!(configs[0], configs[1]);
}

#[test]
fn metadata_differences_alone_are_no_difference() {
    let event = message_event("hello");
    let s = Search::begin(event, "{}", "message").unwrap();
    // Candidates observe the same value but freshly annotated metadata.
    let found = run_search(s, |_| {
        Some(bare(Some(EventValue::Obj(vec![(
            "message".to_string(),
            AnnotatedValue {
                value: Some(EventValue::Str("hello".to_string())),
                meta: Meta {
                    path: Some("message".to_string()),
                    remarks: vec!["!x".to_string()],
                    errors: vec![],
                },
            },
        )]))))
    });
    assert!(found.is_empty());
}

#[test]
fn value_appearing_where_path_missed_is_a_difference() {
    let event = array_event(vec![bare(Some(EventValue::U64(1)))]);
    let s = Search::begin(event, "{}", "extra.foo.1").unwrap();
    // One candidate grows the array so the index resolves.
    let found = run_search(s, |i| {
        if i == 5 {
            Some(array_event(vec![
                bare(Some(EventValue::U64(1))),
                bare(Some(EventValue::U64(2))),
            ]))
        } else {
            Some(array_event(vec![bare(Some(EventValue::U64(1)))]))
        }
    });
    assert_eq!(found.len(), 1);
}
