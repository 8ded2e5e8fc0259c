use cromulent::json::Json;
use cromulent::protocol::{ContentBlock, Message, MessageRole, ModelInfo, ThinkingLevel};
use cromulent::session::{
    fork_session_helper, fork_with, header_updated, legacy_file_content, sort_listed_sessions, text_before_exec, ForkError, ForkOptions,
    LoadedSessionState, SessionHeader, SessionStore,
};
use cromulent::util::{
    generate_ask_id, generate_message_id, generate_run_id, generate_session_id, generate_tool_call_id, path_join,
};

fn model() -> ModelInfo {
    ModelInfo {
        provider: "fake".to_string(),
        id: "m".to_string(),
        display_name: "M".to_string(),
        context_window: 1000,
        supports_reasoning: false,
        supports_tools: true,
    }
}

fn msg(id: &str) -> Message {
    Message {
        id: id.to_string(),
        timestamp: "t".to_string(),
        role: MessageRole::User,
        content: vec![ContentBlock::Text { text: id.to_string() }],
        tool_call_id: None,
        tool_name: None,
        is_error: None,
    }
}

fn session() -> LoadedSessionState {
    let header = SessionHeader::new("ses_1".to_string(), "/w".to_string(), model(), ThinkingLevel::Low);
    LoadedSessionState { header, messages: vec![msg("m1"), msg("m2"), msg("m3")] }
}

#[test]
fn header_for_new_session() {
    let h = SessionHeader::new("ses_1".to_string(), "/w".to_string(), model(), ThinkingLevel::High);
    assert_eq!(h.type_field, "session_header");
    assert_eq!(h.schema_version, 2);
    assert_eq!(h.created, h.updated);
    assert_eq!(h.thinking_level, ThinkingLevel::High);
}

#[test]
fn header_at_a_clock_reading() {
    let t = "2025-01-02T03:04:05+00:00";
    let h = SessionHeader::created_at("ses_2".to_string(), "/w".to_string(), model(), ThinkingLevel::Low, t.to_string());
    assert_eq!(h.created, t);
    assert_eq!(h.updated, t);
    assert_eq!(h.session_id, "ses_2");
    assert_eq!(h.cwd, "/w");
    assert_eq!(h.schema_version, 2);
}

#[test]
fn store_paths() {
    let store = SessionStore::new("/data/sessions".to_string());
    assert_eq!(store.session_dir("ses_a"), "/data/sessions/ses_a");
    assert_eq!(store.header_path("ses_a"), "/data/sessions/ses_a/header.json");
    assert_eq!(store.messages_path("ses_a"), "/data/sessions/ses_a/messages.jsonl");
    assert_eq!(store.legacy_path("ses_a"), "/data/sessions/ses_a.jsonl");
}

#[test]
fn joins_follow_path_rules() {
    assert_eq!(path_join("/a/", "b"), "/a/b");
    assert_eq!(path_join("", "b"), "b");
    assert_eq!(path_join("/a", "/b"), "/b");
}

#[test]
fn fork_keeps_prefix_through_entry() {
    let forked = fork_with(session(), "m2", ForkOptions::default(), "ses_new".to_string(), "now".to_string()).unwrap();
    let ids: Vec<&str> = forked.messages.iter().map(|m| m.id.as_str()).collect();
    assert_eq!(ids, vec!["m1", "m2"]);
    assert_eq!(forked.header.session_id, "ses_new");
    assert_eq!(forked.header.created, "now");
    assert_eq!(forked.header.updated, "now");
    assert_eq!(forked.header.cwd, "/w");
    assert_eq!(forked.header.thinking_level, ThinkingLevel::Low);
    assert_eq!(forked.header.schema_version, 2);
}

#[test]
fn fork_options_override_header() {
    let opts = ForkOptions { model: None, thinking_level: Some(ThinkingLevel::High), cwd: Some("/other".to_string()) };
    let forked = fork_session_helper(session(), "m1", opts).unwrap();
    assert_eq!(forked.messages.len(), 1);
    assert_eq!(forked.header.cwd, "/other");
    assert_eq!(forked.header.thinking_level, ThinkingLevel::High);
    assert!(forked.header.session_id.starts_with("ses_"));
    assert_eq!(forked.header.session_id.len(), 16);
}

#[test]
fn fork_of_unknown_entry_fails() {
    match fork_session_helper(session(), "nope", ForkOptions::default()) {
        Err(e) => {
            assert_eq!(e.message(), "entry not found: nope");
            match e {
                ForkError::EntryNotFound(id) => assert_eq!(id, "nope"),
            }
        },
        Ok(_) => panic!("expected an error"),
    }
}

#[test]
fn legacy_header_rewrite() {
    assert_eq!(legacy_file_content("{\"h\":2}", "{\"h\":1}\n{\"m\":1}\n{\"m\":2}\n"), "{\"h\":2}\n{\"m\":1}\n{\"m\":2}\n");
    assert_eq!(legacy_file_content("{\"h\":2}", ""), "{\"h\":2}\n");
    assert_eq!(legacy_file_content("{\"h\":2}", "{\"h\":1}\n"), "{\"h\":2}\n");
}

#[test]
fn session_ids_have_twelve_hex_digits() {
    let id = generate_session_id();
    assert!(id.starts_with("ses_"));
    assert_eq!(id.len(), 16);
    assert!(id[4..].chars().all(|c| c.is_ascii_hexdigit() && !c.is_ascii_uppercase()));
    assert_ne!(generate_session_id(), generate_session_id());
}

#[test]
fn other_ids_carry_their_prefixes() {
    for (id, prefix) in [
        (generate_run_id(), "run_"),
        (generate_message_id(), "msg_"),
        (generate_ask_id(), "ask_"),
        (generate_tool_call_id(), "call_"),
    ] {
        assert!(id.starts_with(prefix));
        assert_eq!(id.len(), prefix.len() + 12);
    }
}

#[test]
fn lists_sessions_newest_first() {
    let v = vec![
        ("a".to_string(), "2024-01-01T00:00:00Z".to_string()),
        ("b".to_string(), "2024-03-01T00:00:00Z".to_string()),
        ("c".to_string(), "2024-01-01T00:00:00Z".to_string()),
        ("d".to_string(), "unknown".to_string()),
    ];
    let r = sort_listed_sessions(v);
    let ids: Vec<&str> = r.iter().map(|x| x.0.as_str()).collect();
    assert_eq!(ids, vec!["d", "b", "a", "c"]);
    assert!(text_before_exec("abc", "abd"));
    assert!(text_before_exec("ab", "abc"));
    assert!(!text_before_exec("abc", "abc"));
    assert!(!text_before_exec("é", "z"));
}

#[test]
fn header_update_time() {
    let h = Json::Object(vec![("updated".to_string(), Json::Str("2024-05-01T00:00:00Z".to_string()))]);
    assert_eq!(header_updated(Some(&h)), "2024-05-01T00:00:00Z");
    assert_eq!(header_updated(Some(&Json::Null)), "unknown");
    assert_eq!(header_updated(None), "unknown");
}

#[test]
fn unused_session_is_discarded_when_replaced() {
    let empty = LoadedSessionState {
        header: SessionHeader::new("ses_e".to_string(), "/w".to_string(), model(), ThinkingLevel::Low),
        messages: vec![],
    };
    assert_eq!(empty.discard_when_replaced(), Some("ses_e".to_string()));
    assert_eq!(session().discard_when_replaced(), None);
}
