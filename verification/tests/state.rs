use nimble::launcher::{deep_link_contexts, read_context_from_state, state_file_content};

/// A stand-in for the `state.json` file: `None` until written.
struct StateFile(Option<String>);

impl StateFile {
    fn write(&mut self, context: &str) {
        self.0 = Some(state_file_content(context));
    }
    fn read(&self) -> String {
        read_context_from_state(self.0.clone())
    }
}

#[test]
fn state_roundtrip() {
    let mut f = StateFile(None);
    f.write("reddit");
    assert_eq!(f.read(), "reddit");
}

#[test]
fn state_missing_file_returns_empty() {
    let f = StateFile(None);
    assert_eq!(f.read(), "");
}

#[test]
fn state_empty_context_persists() {
    let mut f = StateFile(None);
    f.write("foo");
    f.write("");
    assert_eq!(f.read(), "");
}

#[test]
fn state_malformed_json_returns_empty() {
    let f = StateFile(Some("not json".to_string()));
    assert_eq!(f.read(), "");
}

#[test]
fn state_missing_context_key_returns_empty() {
    let f = StateFile(Some(r#"{"other":"val"}"#.to_string()));
    assert_eq!(f.read(), "");
}

#[test]
fn state_file_is_pretty_json() {
    assert_eq!(state_file_content("work"), "{\n  \"context\": \"work\"\n}");
}

#[test]
fn state_roundtrip_with_quotes_and_unicode() {
    let mut f = StateFile(None);
    f.write("say \"hi\" — ok\n");
    assert_eq!(f.read(), "say \"hi\" — ok\n");
}

#[test]
fn state_non_string_context_reads_empty() {
    let f = StateFile(Some(r#"{"context": 5}"#.to_string()));
    assert_eq!(f.read(), "");
}

#[test]
fn deep_link_event_sets_and_resets_contexts() {
    let payload = r#"["nimble://ctx/set/my%20work", "https://x", "nimble://ctx/reset", "nimble:///ctx/set/home"]"#;
    assert_eq!(deep_link_contexts(payload), vec!["my work", "", "home"]);
}

#[test]
fn deep_link_event_not_json_sets_nothing() {
    assert!(deep_link_contexts("nimble://ctx/set/x").is_empty());
}

#[test]
fn state_file_escapes_like_json() {
    assert_eq!(
        state_file_content("a\"b\\c\td\u{1}\u{1f}é"),
        "{\n  \"context\": \"a\\\"b\\\\c\\td\\u0001\\u001fé\"\n}"
    );
}
