use mechanise::recorded::{correct_malformed_json, event_objects, split_on};

#[test]
fn split_cuts_at_each_separator() {
    assert_eq!(split_on("a--b----c", "--"), vec!["a", "b", "", "c"]);
    assert_eq!(split_on("abc", "--"), vec!["abc"]);
    assert_eq!(split_on("", "x"), vec![""]);
    assert_eq!(split_on("x", "x"), vec!["", ""]);
    assert_eq!(split_on("aaa", "aa"), vec!["", "a"]);
}

#[test]
fn keys_missing_their_quote_are_repaired() {
    assert_eq!(
        correct_malformed_json("{\"type:\"message_stop\"}"),
        "{\"type\": \"message_stop\"}"
    );
    assert_eq!(correct_malformed_json("{\"a\":1}"), "{\"a\":1}");
}

#[test]
fn recorded_line_yields_one_object_per_event() {
    let line = "event: type\":\"ping\"}event: event: type\":\"message_stop\"}";
    assert_eq!(
        event_objects(line),
        vec!["{\"type\":\"ping\"}".to_string(), "{\"type\":\"message_stop\"}".to_string()]
    );
    assert!(event_objects("").is_empty());
    assert_eq!(event_objects("event: index:0}"), vec!["{\"index:0}".to_string()]);
}
