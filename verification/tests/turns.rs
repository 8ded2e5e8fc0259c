use cromulent::agent::{end_turn, new_assistant_message_with_thinking, RunLoop, StreamState, TurnEnd};
use cromulent::control::{check_idle, cycle_models, next_model, selected_model, IdleCommand, RunStatus};
use cromulent::protocol::{ContentBlock, ProviderEvent};

fn feed(st: &mut StreamState, evs: Vec<ProviderEvent>) -> bool {
    let mut stop = false;
    for e in evs {
        stop = st.on_event(e);
    }
    stop
}

#[test]
fn stream_collects_text_and_calls() {
    let mut st = StreamState::new();
    let stop = feed(
        &mut st,
        vec![
            ProviderEvent::TextDelta { text: "Hel".to_string() },
            ProviderEvent::TextDelta { text: "lo".to_string() },
            ProviderEvent::ThinkingDelta { text: "hm".to_string() },
            ProviderEvent::ToolCallStarted { id: "c1".to_string(), name: "read".to_string() },
            ProviderEvent::ToolCallArgumentsDelta { id: "c1".to_string(), delta: "{\"path\":".to_string() },
            ProviderEvent::ToolCallArgumentsDelta { id: "c1".to_string(), delta: "\"a\"}".to_string() },
            ProviderEvent::ToolCallCompleted { id: "c1".to_string() },
            ProviderEvent::Usage { input_tokens: 3, output_tokens: 4 },
        ],
    );
    assert!(!stop);
    assert_eq!(st.text.as_deref(), Some("Hello"));
    assert_eq!(st.thinking.as_deref(), Some("hm"));
    assert!(st.pending.is_empty());
    assert_eq!(st.tool_calls.len(), 1);
    assert_eq!(st.tool_calls[0].arguments, "{\"path\":\"a\"}");
    assert!(st.on_event(ProviderEvent::Completed));
    let (end, keep) = end_turn(&st, false, false);
    assert_eq!(end, TurnEnd::ToolCalls);
    assert!(keep);
    assert_eq!(end.reason(), "tool_calls");
}

#[test]
fn turn_collects_a_call_with_its_name_and_arguments() {
    let mut st = StreamState::new();
    let stop = feed(
        &mut st,
        vec![
            ProviderEvent::ToolCallStarted { id: "c1".to_string(), name: "read".to_string() },
            ProviderEvent::ToolCallArgumentsDelta { id: "c1".to_string(), delta: "{}".to_string() },
            ProviderEvent::ToolCallCompleted { id: "c1".to_string() },
            ProviderEvent::Completed,
        ],
    );
    assert!(stop);
    assert_eq!(st.tool_calls.len(), 1);
    assert_eq!((st.tool_calls[0].id.as_str(), st.tool_calls[0].name.as_str(), st.tool_calls[0].arguments.as_str()), ("c1", "read", "{}"));
    let (end, keep) = end_turn(&st, false, false);
    assert_eq!((end, keep), (TurnEnd::ToolCalls, true));
    assert_eq!(end.reason(), "tool_calls");
    let m = new_assistant_message_with_thinking(st.text.clone(), st.thinking.clone(), st.tool_calls);
    assert_eq!(m.content.len(), 1);
    assert!(matches!(&m.content[0], ContentBlock::ToolCall { id, name, arguments } if id == "c1" && name == "read" && arguments == "{}"));
}

#[test]
fn pending_calls_follow_their_events() {
    let mut st = StreamState::new();
    feed(
        &mut st,
        vec![
            ProviderEvent::ToolCallStarted { id: "a".to_string(), name: "grep".to_string() },
            ProviderEvent::ToolCallStarted { id: "b".to_string(), name: "find".to_string() },
            ProviderEvent::ToolCallArgumentsDelta { id: "b".to_string(), delta: "{ \"pattern\" :".to_string() },
            ProviderEvent::TextDelta { text: "x".to_string() },
            ProviderEvent::ToolCallArgumentsDelta { id: "zz".to_string(), delta: "ignored".to_string() },
            ProviderEvent::ToolCallArgumentsDelta { id: "b".to_string(), delta: " \"*.rs\" }".to_string() },
            ProviderEvent::ToolCallArgumentsDelta { id: "a".to_string(), delta: "{not json".to_string() },
        ],
    );
    assert_eq!(st.pending.len(), 2);
    assert_eq!(st.pending[0].arguments, "{not json");
    assert_eq!(st.pending[1].arguments, "{ \"pattern\" : \"*.rs\" }");
    st.on_event(ProviderEvent::ToolCallCompleted { id: "b".to_string() });
    st.on_event(ProviderEvent::ToolCallCompleted { id: "a".to_string() });
    assert!(st.pending.is_empty());
    assert_eq!(st.tool_calls[0].arguments, "{\"pattern\":\"*.rs\"}");
    assert_eq!(st.tool_calls[1].arguments, "null");
}

#[test]
fn stream_error_ends_turn() {
    let mut st = StreamState::new();
    assert!(st.on_event(ProviderEvent::Error { message: "boom".to_string() }));
    let (end, keep) = end_turn(&st, false, false);
    assert_eq!(end, TurnEnd::Failed);
    assert!(!keep);
    let (end, _) = end_turn(&st, true, false);
    assert_eq!(end, TurnEnd::Aborted);
    let empty = StreamState::new();
    assert_eq!(end_turn(&empty, false, false).0, TurnEnd::Completed);
    assert_eq!(end_turn(&empty, false, true).0, TurnEnd::Aborted);
}

#[test]
fn assistant_message_content_order() {
    let m = new_assistant_message_with_thinking(Some("answer".to_string()), Some("why".to_string()), vec![]);
    assert!(matches!(&m.content[0], ContentBlock::Thinking { text } if text == "why"));
    assert!(matches!(&m.content[1], ContentBlock::Text { text } if text == "answer"));
    let e = new_assistant_message_with_thinking(Some(String::new()), None, vec![]);
    assert!(e.content.is_empty());
}

#[test]
fn run_loop_turns() {
    let mut l = RunLoop::new(2);
    assert_eq!(l.next_turn(false), Some(1));
    l.record(TurnEnd::ToolCalls);
    assert_eq!(l.next_turn(false), Some(2));
    l.record(TurnEnd::ToolCalls);
    assert_eq!(l.next_turn(false), None);
    assert_eq!(l.stop_reason(false), "completed");
    let mut c = RunLoop::new(5);
    assert_eq!(c.next_turn(true), None);
    assert_eq!(c.stop_reason(false), "aborted");
    let mut f = RunLoop::new(5);
    assert_eq!(f.next_turn(false), Some(1));
    f.record(TurnEnd::Failed);
    assert_eq!(f.next_turn(false), None);
    assert_eq!(f.stop_reason(false), "error");
}

#[test]
fn idle_rules_and_model_cycle() {
    assert!(check_idle(false, IdleCommand::Prompt).is_ok());
    assert_eq!(
        check_idle(true, IdleCommand::Prompt).unwrap_err(),
        "A run is already in progress. Abort first or wait for it to complete."
    );
    assert_eq!(check_idle(true, IdleCommand::SetModel).unwrap_err(), "Cannot change model while a run is active. Abort first.");
    let models = cycle_models();
    assert_eq!(models.len(), 4);
    let mut m = models[0].clone();
    for _ in 0..4 {
        m = next_model(&m);
    }
    assert_eq!((m.provider.as_str(), m.id.as_str()), ("fake", "default"));
    let n = next_model(&selected_model("x".to_string(), "y".to_string()));
    assert_eq!((n.provider.as_str(), n.id.as_str()), ("openai", "gpt-5.5"));
    let mut s = RunStatus::Running { run_id: "r1".to_string() };
    s.finish("r0");
    assert!(s.is_running());
    assert_eq!(s.run_id(), Some("r1"));
    s.finish("r1");
    assert!(!s.is_running());
}

#[test]
fn run_turns_are_numbered_and_cancel_aborts() {
    let mut l = RunLoop::new(3);
    let mut taken = Vec::new();
    while let Some(t) = l.next_turn(taken.len() == 2) {
        taken.push(t);
        l.record(TurnEnd::ToolCalls);
    }
    assert_eq!(taken, vec![1, 2]);
    assert_eq!(l.stopped, Some(TurnEnd::Aborted));
    assert_eq!(l.stop_reason(false), "aborted");
}
