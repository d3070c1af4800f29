use devloop::name_map::NameMap;
use devloop::state::{snapshots_differ, SessionState, StateError};
use devloop::template::render_template_values;
use devloop::value::SessionValue;
use regex::{Captures, Regex};

fn text(value: &str) -> SessionValue {
    SessionValue::String(value.into())
}

fn values(pairs: Vec<(&str, SessionValue)>) -> NameMap<SessionValue> {
    let mut values = NameMap::new();
    for (key, value) in pairs {
        values.insert(key.into(), value);
    }
    values
}

#[test]
fn render_template_substitutes_known_state_keys() {
    let mut state = SessionState::with_values("state.json".into(), None);
    state.set("tunnel_url".into(), text("https://example.trycloudflare.com"));
    state.set("current_post_slug".into(), text("example-post"));

    assert_eq!(
        state.render_template("{{ tunnel_url }}/posts/{{current_post_slug}}"),
        "https://example.trycloudflare.com/posts/example-post"
    );
}

#[test]
fn templates_agree_with_the_reference_pattern() {
    let session = values(vec![
        ("a", text("1")),
        ("a-b.c_D9", text("{{a}}")),
        ("n", SessionValue::Number("3".into())),
    ]);
    let pattern = Regex::new(r"\{\{\s*([a-zA-Z0-9_.-]+)\s*\}\}").expect("pattern");
    for template in [
        "",
        "plain",
        "{{a}}",
        "{{{a}}}",
        "{{ a }}{{\u{a0}\u{2003}a\n}}",
        "{{a b}} {{}} {{ }} {{a}",
        "x{{a-b.c_D9}}y{{n}}z{{missing}}",
        "{{{{a}}}}",
        "{ {a}} {{a} }",
        "{{é}}{{a}}",
    ] {
        let expected = pattern.replace_all(template, |captures: &Captures| {
            session.get(&captures[1]).and_then(|value| value.as_str()).unwrap_or("").to_owned()
        });
        assert_eq!(render_template_values(&session, template), expected);
    }
}

#[test]
fn a_read_gives_back_what_was_written() {
    let mut state = SessionState::with_values("s.json".into(), None);
    assert_eq!(state.path(), "s.json");
    assert!(state.set("slug".into(), text("a")));
    assert!(!state.set("slug".into(), text("a")));
    assert!(state.set_if_changed("slug", text("b")));
    assert_eq!(state.get_string("slug").as_deref(), Some("b"));
    assert_eq!(state.get_string("other"), None);
    assert!(state.set("n".into(), SessionValue::Null));
    assert_eq!(state.get_string("n"), None);
}

#[test]
fn stored_values_are_loaded() {
    let state = SessionState::with_values("s.json".into(), Some(values(vec![("a", text("1"))])));
    assert_eq!(state.get_string("a").as_deref(), Some("1"));
}

#[test]
fn objects_are_merged_key_by_key() {
    let mut state = SessionState::with_values("s.json".into(), Some(values(vec![("a", text("1"))])));
    let object = values(vec![("a", text("2")), ("b", SessionValue::Bool(false))]);
    assert!(state.merge_json_object(&object));
    assert!(!state.merge_json_object(&object));
    assert!(!state.merge_json_object(&NameMap::new()));
    assert_eq!(state.get_string("a").as_deref(), Some("2"));
    assert!(state.merge_json_object(&values(vec![("b", SessionValue::Bool(true))])));
}

#[test]
fn snapshots_are_compared_by_what_they_hold() {
    let nested = |n: &str| {
        SessionValue::Object(vec![(
            "k".into(),
            SessionValue::Array(vec![SessionValue::Number(n.into())]),
        )])
    };
    let one = values(vec![("a", text("1")), ("o", nested("1"))]);
    assert!(!snapshots_differ(&one, &one.clone()));
    assert!(snapshots_differ(&one, &values(vec![("a", text("1")), ("o", nested("2"))])));
    assert!(snapshots_differ(&one, &values(vec![("a", text("1"))])));
    assert!(snapshots_differ(&one, &values(vec![("b", text("1")), ("o", nested("1"))])));
    assert!(!snapshots_differ(&NameMap::new(), &NameMap::new()));
}

#[test]
fn states_are_loaded_from_the_text_of_their_file() {
    let state = SessionState::load("s.json".into(), None).expect("no file yet");
    assert_eq!(state.path(), "s.json");
    assert!(state.snapshot().is_empty());

    let raw = r#"{"slug": "a\u00e9", "n": 12, "on": true}"#;
    let state = SessionState::load("s.json".into(), Some(raw)).expect("stored state");
    assert_eq!(state.get_string("slug").as_deref(), Some("a\u{e9}"));
    assert_eq!(state.snapshot().get("n"), Some(&SessionValue::Number("12".into())));

    for raw in ["", "[]", "{", "{} x"] {
        let error = SessionState::load("/w/s.json".into(), Some(raw)).expect_err("bad file");
        assert_eq!(error.message(), "failed to parse state file /w/s.json");
    }
}

#[test]
fn saved_states_are_loaded_again() {
    let mut nested = SessionValue::Null;
    for _ in 0..126 {
        nested = SessionValue::Array(vec![nested]);
    }
    let session = values(vec![
        ("text", text("a \"b\" \\ \n \u{1} \u{1f600}")),
        ("least", SessionValue::Number("-9223372036854775808".into())),
        ("most", SessionValue::Number("18446744073709551615".into())),
        (
            "object",
            SessionValue::Object(vec![
                ("a".into(), SessionValue::Bool(false)),
                ("b".into(), SessionValue::Array(Vec::new())),
            ]),
        ),
        ("nested", nested),
    ]);
    let state = SessionState::with_values("s.json".into(), Some(session));
    let saved = state.saved().expect("text");
    let loaded = SessionState::load("s.json".into(), Some(&saved)).expect("state");
    assert!(!snapshots_differ(&state.snapshot(), &loaded.snapshot()));
}

#[test]
fn states_are_saved_with_one_key_to_a_line() {
    let session = values(vec![("b", text("2")), ("a", SessionValue::Number("1".into()))]);
    let state = SessionState::with_values("s.json".into(), Some(session));
    assert_eq!(state.saved().expect("text"), "{\n  \"a\": 1,\n  \"b\": \"2\"\n}");

    let session = values(vec![("a", SessionValue::Number("one".into()))]);
    let state = SessionState::with_values("s.json".into(), Some(session));
    assert_eq!(state.saved().expect_err("no number"), StateError::NotJson);
    assert_eq!(StateError::NotJson.message(), "session state cannot be written as JSON");
}

#[test]
fn set_persists_latest_values_to_disk() {
    let mut state = SessionState::with_values("state.json".into(), None);
    assert!(state.set("current_post_slug".into(), text("example-post")));
    let saved: serde_json::Value =
        serde_json::from_str(&state.saved().expect("text")).expect("parse state");
    assert_eq!(saved["current_post_slug"], serde_json::Value::String("example-post".into()));
}

#[test]
fn numbers_with_fractions_are_saved_as_they_are_held() {
    for printed in [
        "0.5",
        "-1.50",
        "1e300",
        "5e-324",
        "0.1",
        "123456789.12345679",
        "1.7976931348623157e308",
        "-0.0",
        "18446744073709551616",
    ] {
        let raw = format!("{{\"n\": {printed}}}");
        let state = SessionState::load("s.json".into(), Some(&raw)).expect("state");
        let number = match state.snapshot().get("n") {
            Some(SessionValue::Number(number)) => number.clone(),
            other => panic!("no number: {other:?}"),
        };
        let value: serde_json::Value = serde_json::from_str(&raw).expect("value");
        assert_eq!(number, value["n"].to_string());
        let expected = serde_json::to_string_pretty(&value).expect("text");
        assert_eq!(state.saved().expect("text"), expected);
    }
}

#[test]
fn the_sign_of_a_zero_is_no_change() {
    let number = |text: &str| SessionValue::Number(text.into());
    let nested = |text: &str| {
        SessionValue::Object(vec![("k".into(), SessionValue::Array(vec![number(text)]))])
    };
    assert_eq!(number("0.0"), number("-0.0"));
    assert_ne!(number("0"), number("0.0"));
    let mut state = SessionState::with_values("s.json".into(), Some(values(vec![
        ("a", number("0.0")),
        ("b", nested("-0.0")),
    ])));
    let before = state.snapshot();
    assert!(!state.set("a".into(), number("-0.0")));
    assert!(!state.merge_json_object(&values(vec![("a", number("-0.0")), ("b", nested("0.0"))])));
    assert!(state.saved().expect("text").contains("\"a\": 0.0"));
    let other = values(vec![("a", number("-0.0")), ("b", nested("0.0"))]);
    assert!(!snapshots_differ(&before, &other));
    assert!(state.set("a".into(), number("0")));
}

#[test]
fn texts_that_are_no_numbers_are_not_saved() {
    for text in ["", "one", "inf", "NaN", "1e999", "--1", "0x1"] {
        let session = values(vec![("a", SessionValue::Array(vec![SessionValue::Number(text.into())]))]);
        let state = SessionState::with_values("s.json".into(), Some(session));
        assert_eq!(state.saved().expect_err("no number"), StateError::NotJson);
    }
}
