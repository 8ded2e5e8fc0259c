use cromulent::agent::{build_system_prompt, compact, estimate_tokens, message_to_llm, messages_to_llm, new_tool_result_message, new_user_message, AgentRunner, PromptContext};
use cromulent::protocol::{ContentBlock, LlmContentBlock, LlmMessage, Message, MessageRole, ToolDefinition};
use cromulent::json::Json;

fn text_msg(role: MessageRole, text: &str) -> Message {
    Message {
        id: "m".to_string(),
        timestamp: "t".to_string(),
        role,
        content: vec![ContentBlock::Text { text: text.to_string() }],
        tool_call_id: None,
        tool_name: None,
        is_error: None,
    }
}

fn llm(text: &str) -> LlmMessage {
    LlmMessage { role: "user".to_string(), content: vec![LlmContentBlock::Text { text: text.to_string() }] }
}

#[test]
fn runner_constructs() {
    let _r = AgentRunner::new();
}

#[test]
fn prompt_lists_tools() {
    let none = build_system_prompt(&PromptContext { cwd: "/w".to_string(), date: "2024-01-02".to_string(), tools: vec![] });
    assert!(none.starts_with("You are cromulent, a headless coding agent.\n"));
    assert!(none.ends_with("Working directory: /w\nCurrent date: 2024-01-02\n"));
    let with = build_system_prompt(&PromptContext {
        cwd: "/w".to_string(),
        date: "d".to_string(),
        tools: vec![
            ToolDefinition { name: "read".to_string(), description: "Reads.".to_string(), input_schema: Json::Null },
            ToolDefinition { name: "grep".to_string(), description: "Greps.".to_string(), input_schema: Json::Null },
        ],
    });
    assert!(with.contains("You have access to the following tools:\n- `read`: Reads.\n- `grep`: Greps.\n\n### Tool rules\n"));
    assert!(with.ends_with("- Make real changes with tools when appropriate."));
}

#[test]
fn transcript_for_provider() {
    assert!(message_to_llm(&text_msg(MessageRole::System, "sys")).is_none());
    let m = message_to_llm(&text_msg(MessageRole::Assistant, "hi")).unwrap();
    assert_eq!(m.role, "assistant");
    let tool = new_tool_result_message("c1".to_string(), "read".to_string(), "out".to_string(), false, None);
    let t = message_to_llm(&tool).unwrap();
    assert_eq!(t.role, "tool");
    match &t.content[0] {
        LlmContentBlock::ToolResult { tool_call_id, content, is_error } => {
            assert_eq!(tool_call_id, "c1");
            assert_eq!(content, "out");
            assert!(!is_error);
        },
        other => panic!("unexpected {:?}", other),
    }
    let all = messages_to_llm(&[text_msg(MessageRole::System, "s"), new_user_message("q".to_string()), tool]);
    assert_eq!(all.len(), 2);
    assert_eq!(all[0].role, "user");
}

#[test]
fn compaction_keeps_recent_messages() {
    let short: Vec<LlmMessage> = (0..5).map(|_| llm("x")).collect();
    assert_eq!(compact(short).len(), 5);
    let big = "y".repeat(10_000);
    let long: Vec<LlmMessage> = (0..40).map(|_| llm(&big)).collect();
    assert_eq!(estimate_tokens(&long), 100_000);
    let c = compact(long);
    assert_eq!(c.len(), 31);
    match &c[0].content[0] {
        LlmContentBlock::Text { text } => assert_eq!(
            text,
            "[Earlier conversation: 10 messages, ~25000 tokens. This portion has been compacted to reduce context size. The full transcript is available on disk. Key context from the compacted section: the conversation continues below.]"
        ),
        other => panic!("unexpected {:?}", other),
    }
    let small: Vec<LlmMessage> = (0..40).map(|_| llm("z")).collect();
    assert_eq!(compact(small).len(), 40);
}
