use cromulent::auth::ProviderAuthConfig;
use cromulent::json::{Json, JsonNumber};
use cromulent::protocol::{LlmContentBlock, LlmMessage, ModelInfo, ProviderEvent, ThinkingLevel, ToolDefinition};
use cromulent::providers::request::{build_request_body, ProviderRequest};
use cromulent::tools::error::{unknown_tool, ToolError};
use cromulent::providers::{
    classify_sse_line, custom_registrations, dispatch_event, retry_delay, retryable_status, with_attempts,
    DeepSeekCompatProvider, FakeProvider, ProviderError, SseLine, SseState,
};

fn s(x: &str) -> Json {
    Json::Str(x.to_string())
}

fn obj(members: Vec<(&str, Json)>) -> Json {
    Json::Object(members.into_iter().map(|(k, v)| (k.to_string(), v)).collect())
}

fn num(n: u64) -> Json {
    Json::Number(JsonNumber { as_i64: Some(n as i64), as_u64: Some(n) })
}

#[test]
fn request_failed_has_no_source() {
    match ProviderError::request_failed("boom".to_string()) {
        ProviderError::RequestFailed { message, source } => {
            assert_eq!(message, "boom");
            assert!(source.is_none());
        },
        other => panic!("unexpected {:?}", other),
    }
    assert_eq!(ProviderError::request_failed("boom".to_string()).message(), "Request failed: boom");
    assert_eq!(ProviderError::NotFound("x".to_string()).message(), "Provider not found: x");
}

#[test]
fn retry_policy() {
    assert_eq!(retry_delay(1), 250);
    assert_eq!(retry_delay(2), 500);
    assert_eq!(retry_delay(3), 1000);
    assert_eq!(retry_delay(4), 2000);
    assert_eq!(with_attempts("HTTP 500".to_string(), 3), "HTTP 500 (after 3/5 attempts)");
    assert!(retryable_status(429));
    assert!(retryable_status(503));
    assert!(!retryable_status(404));
}

#[test]
fn fake_provider_events() {
    let plain = FakeProvider::new();
    assert!(plain.script.is_none());
    let ev = plain.events();
    assert_eq!(ev.len(), 2);
    match &ev[0] {
        ProviderEvent::TextDelta { text } => assert_eq!(text, "Fake provider response."),
        other => panic!("unexpected {:?}", other),
    }
    let scripted = FakeProvider::scripted(vec![ProviderEvent::ThinkingEnd, ProviderEvent::Completed]);
    assert_eq!(scripted.events().len(), 2);
}

#[test]
fn deepseek_configuration() {
    let p = DeepSeekCompatProvider::with_env(Some("key".to_string()), None);
    assert!(p.is_configured());
    assert_eq!(p.base_url, "https://api.deepseek.com/chat/completions");
    let q = DeepSeekCompatProvider::with_env(None, Some("http://localhost".to_string()));
    assert!(!q.is_configured());
    assert_eq!(q.base_url, "http://localhost");
}

#[test]
fn custom_provider_registrations() {
    let entries = vec![
        ("openai".to_string(), ProviderAuthConfig { api_key: None, api_key_env: None, base_url: None, default_model: None }),
        ("groq".to_string(), ProviderAuthConfig { api_key: None, api_key_env: None, base_url: None, default_model: None }),
        ("local".to_string(), ProviderAuthConfig { api_key: None, api_key_env: None, base_url: Some("http://l".to_string()), default_model: None }),
        ("fake".to_string(), ProviderAuthConfig { api_key: None, api_key_env: None, base_url: None, default_model: None }),
    ];
    let r = custom_registrations(&entries, true, &vec!["openai".to_string(), "fake".to_string()]);
    assert_eq!(r, vec![
        ("groq".to_string(), "https://api.groq.com/v1/chat/completions".to_string()),
        ("local".to_string(), "http://l".to_string()),
    ]);
    let again = custom_registrations(&entries, false, &vec!["groq".to_string()]);
    assert_eq!(again.iter().map(|p| p.0.as_str()).collect::<Vec<_>>(), vec!["openai", "local", "fake"]);
}

#[test]
fn dispatch_text_and_tools() {
    let ev = dispatch_event("response.output_text.delta", &obj(vec![("delta", s("hi"))]));
    assert_eq!(ev.len(), 1);
    match &ev[0] {
        ProviderEvent::TextDelta { text } => assert_eq!(text, "hi"),
        other => panic!("unexpected {:?}", other),
    }
    assert!(dispatch_event("output_text.delta", &obj(vec![("delta", s(""))])).is_empty());
    let started = dispatch_event(
        "response.output_item.added",
        &obj(vec![("type", s("function_call")), ("id", s("c1")), ("name", s("read"))]),
    );
    match &started[0] {
        ProviderEvent::ToolCallStarted { id, name } => {
            assert_eq!(id, "c1");
            assert_eq!(name, "read");
        },
        other => panic!("unexpected {:?}", other),
    }
    let args = dispatch_event("function_call_arguments.delta", &obj(vec![("item_id", s("c1")), ("delta", s("{\"a\""))]));
    assert_eq!(args.len(), 1);
    let done = dispatch_event("response.output_item.done", &obj(vec![("type", s("message")), ("id", s("c1"))]));
    assert!(done.is_empty());
    assert!(dispatch_event("something.else", &obj(vec![])).is_empty());
}

#[test]
fn dispatch_completion_and_failure() {
    let data = obj(vec![("response", obj(vec![("usage", obj(vec![("input_tokens", num(12)), ("output_tokens", num(5))]))]))]);
    let ev = dispatch_event("response.completed", &data);
    assert_eq!(ev.len(), 2);
    match &ev[0] {
        ProviderEvent::Usage { input_tokens, output_tokens } => {
            assert_eq!(*input_tokens, 12);
            assert_eq!(*output_tokens, 5);
        },
        other => panic!("unexpected {:?}", other),
    }
    assert!(matches!(ev[1], ProviderEvent::Completed));
    let bare = dispatch_event("completed", &obj(vec![]));
    assert_eq!(bare.len(), 1);
    let failed = dispatch_event("error", &obj(vec![("error", obj(vec![("message", s("bad"))]))]));
    match &failed[0] {
        ProviderEvent::Error { message } => assert_eq!(message, "bad"),
        other => panic!("unexpected {:?}", other),
    }
    let generic = dispatch_event("response.failed", &obj(vec![]));
    match &generic[0] {
        ProviderEvent::Error { message } => assert_eq!(message, "provider returned error"),
        other => panic!("unexpected {:?}", other),
    }
}

#[test]
fn stream_lines() {
    assert!(matches!(classify_sse_line("event: response.completed "), SseLine::Event(ref t) if t == "response.completed"));
    assert!(matches!(classify_sse_line("data:  {\"a\":1} "), SseLine::Data(ref d) if d == "{\"a\":1}"));
    assert!(matches!(classify_sse_line("data: [DONE]"), SseLine::Ignore));
    assert!(matches!(classify_sse_line(": comment"), SseLine::Ignore));
    let mut st = SseState::new();
    st.on_line("event: response.output_text.delta");
    let ev = st.on_data(Some(&obj(vec![("delta", s("x"))])), "{\"delta\":\"x\"}");
    assert_eq!(ev.len(), 1);
    assert_eq!(st.current_event, "");
    let bad = st.on_data(None, "{oops");
    match &bad[0] {
        ProviderEvent::Error { message } => assert_eq!(message, "malformed SSE data, ignoring: {oops"),
        other => panic!("unexpected {:?}", other),
    }
    let typed = st.on_data(Some(&obj(vec![("type", s("output_text.delta")), ("delta", s("y"))])), "");
    assert_eq!(typed.len(), 1);
}

fn member<'a>(j: &'a Json, key: &str) -> Option<&'a Json> {
    match j {
        Json::Object(m) => m.iter().find(|(k, _)| k == key).map(|(_, v)| v),
        _ => None,
    }
}

fn text_of(j: Option<&Json>) -> Option<&str> {
    match j {
        Some(Json::Str(s)) => Some(s.as_str()),
        _ => None,
    }
}

#[test]
fn request_body_shape() {
    let model = ModelInfo {
        provider: "openai".to_string(),
        id: "gpt-5.5".to_string(),
        display_name: "GPT-5.5".to_string(),
        context_window: 200_000,
        supports_reasoning: true,
        supports_tools: true,
    };
    let messages = vec![
        LlmMessage { role: "system".to_string(), content: vec![LlmContentBlock::Text { text: "s".to_string() }] },
        LlmMessage { role: "user".to_string(), content: vec![LlmContentBlock::Text { text: "hi".to_string() }] },
        LlmMessage {
            role: "tool".to_string(),
            content: vec![LlmContentBlock::ToolResult { tool_call_id: "c1".to_string(), content: "ok".to_string(), is_error: false }],
        },
        LlmMessage { role: "assistant".to_string(), content: vec![LlmContentBlock::Thinking { text: "t".to_string() }] },
    ];
    let tools = vec![ToolDefinition { name: "read".to_string(), description: "Read".to_string(), input_schema: Json::Null }];
    let body = build_request_body(ProviderRequest {
        model,
        system_prompt: "sys".to_string(),
        messages,
        tools,
        thinking_level: ThinkingLevel::High,
        cwd: "/w".to_string(),
    });
    let keys: Vec<&str> = match &body {
        Json::Object(m) => m.iter().map(|(k, _)| k.as_str()).collect(),
        _ => vec![],
    };
    assert_eq!(keys, vec!["model", "instructions", "input", "tools", "stream", "reasoning"]);
    assert_eq!(text_of(member(&body, "model")), Some("gpt-5.5"));
    assert_eq!(text_of(member(&body, "instructions")), Some("sys"));
    assert!(matches!(member(&body, "stream"), Some(Json::Bool(true))));
    assert_eq!(text_of(member(member(&body, "reasoning").unwrap(), "effort")), Some("high"));
    let input = match member(&body, "input") {
        Some(Json::Array(v)) => v,
        _ => panic!("no input"),
    };
    assert_eq!(input.len(), 3);
    assert_eq!(text_of(member(&input[0], "role")), Some("user"));
    assert_eq!(text_of(member(&input[1], "role")), Some("user"));
    assert_eq!(text_of(member(&input[2], "role")), Some("assistant"));
    let blocks = match member(&input[2], "content") {
        Some(Json::Array(v)) => v,
        _ => panic!("no content"),
    };
    assert_eq!(text_of(member(&blocks[0], "text")), Some("[reasoning]\nt"));
    let result_blocks = match member(&input[1], "content") {
        Some(Json::Array(v)) => v,
        _ => panic!("no content"),
    };
    assert_eq!(text_of(member(&result_blocks[0], "type")), Some("tool_result"));
    assert!(matches!(member(&result_blocks[0], "is_error"), Some(Json::Bool(false))));
}

#[test]
fn body_without_prompt_tools_or_reasoning() {
    let model = ModelInfo {
        provider: "deepseek".to_string(),
        id: "d".to_string(),
        display_name: String::new(),
        context_window: 1,
        supports_reasoning: false,
        supports_tools: true,
    };
    let body = build_request_body(ProviderRequest {
        model,
        system_prompt: String::new(),
        messages: vec![],
        tools: vec![],
        thinking_level: ThinkingLevel::Low,
        cwd: String::new(),
    });
    let keys: Vec<&str> = match &body {
        Json::Object(m) => m.iter().map(|(k, _)| k.as_str()).collect(),
        _ => vec![],
    };
    assert_eq!(keys, vec!["model", "input", "stream"]);
    assert!(matches!(unknown_tool("nope"), ToolError::NotFound(ref m) if m == "Unknown tool: nope"));
}

#[test]
fn test_explicit_api_key_constructor() {
    let provider = DeepSeekCompatProvider::with_env(Some("key".to_string()), None);
    assert!(provider.is_configured());
    let provider = DeepSeekCompatProvider::with_env(None, None);
    assert!(!provider.is_configured());
}
