//! The data that flows between the client, the agent loop and providers.
use vstd::prelude::*;
use crate::json::Json;

verus! {

/// Token usage of one model turn.
#[derive(Debug, Clone, Copy, PartialEq, Eq, Structural)]
pub struct UsageInfo {
    pub input_tokens: u32,
    pub output_tokens: u32,
}

/// How much the model reasons before answering.
#[derive(Debug, Clone, Copy, PartialEq, Eq, Structural)]
pub enum ThinkingLevel {
    Low,
    Medium,
    High,
}

/// A provider and model pair, with what the model supports.
#[derive(Debug, Clone)]
pub struct ModelInfo {
    pub provider: String,
    pub id: String,
    pub display_name: String,
    pub context_window: u32,
    pub supports_reasoning: bool,
    pub supports_tools: bool,
}

/// A model as data: provider, id, display name, context window, reasoning
/// and tool support.
pub type ModelView = (Seq<char>, Seq<char>, Seq<char>, u32, bool, bool);

impl View for ModelInfo {
    type V = ModelView;

    open spec fn view(&self) -> ModelView {
        (self.provider@, self.id@, self.display_name@, self.context_window, self.supports_reasoning, self.supports_tools)
    }
}

/// The context window assumed when a model does not state one.
pub fn default_context_window() -> (r: u32)
    ensures
        r == 128_000,
{
    128_000
}

/// Models support tools unless they say otherwise.
pub fn default_supports_tools() -> (r: bool)
    ensures
        r,
{
    true
}

/// Copies a model description.
pub fn copy_model(m: &ModelInfo) -> (r: ModelInfo)
    ensures
        r@ == m@,
{
    ModelInfo {
        provider: copy_string(&m.provider),
        id: copy_string(&m.id),
        display_name: copy_string(&m.display_name),
        context_window: m.context_window,
        supports_reasoning: m.supports_reasoning,
        supports_tools: m.supports_tools,
    }
}

/// Copies a string.
pub fn copy_string(s: &String) -> (r: String)
    ensures
        r@ == s@,
{
    let v = crate::text::chars_of(s.as_str());
    crate::text::string_of(&v)
}

/// Who wrote a transcript entry.
#[derive(Debug, Clone, Copy, PartialEq, Eq, Structural)]
pub enum MessageRole {
    System,
    User,
    Assistant,
    Tool,
}

/// A piece of a message: text, reasoning, a tool call (its arguments as
/// JSON text), or a tool's result.
#[derive(Debug)]
pub enum ContentBlock {
    Text { text: String },
    Thinking { text: String },
    ToolCall { id: String, name: String, arguments: String },
    ToolResult { tool_call_id: String, content: Vec<ContentBlock>, is_error: bool, metadata: Option<Json> },
}

/// One entry of the transcript.
#[derive(Debug)]
pub struct Message {
    pub id: String,
    pub timestamp: String,
    pub role: MessageRole,
    pub content: Vec<ContentBlock>,
    pub tool_call_id: Option<String>,
    pub tool_name: Option<String>,
    pub is_error: Option<bool>,
}

/// A tool offered to the model: name, description and argument schema.
#[derive(Debug)]
pub struct ToolDefinition {
    pub name: String,
    pub description: String,
    pub input_schema: Json,
}

/// What a provider's stream yields, normalized across providers.
#[derive(Debug)]
pub enum ProviderEvent {
    TextDelta { text: String },
    ThinkingDelta { text: String },
    ThinkingEnd,
    ToolCallStarted { id: String, name: String },
    ToolCallArgumentsDelta { id: String, delta: String },
    ToolCallCompleted { id: String },
    Usage { input_tokens: u32, output_tokens: u32 },
    Completed,
    Error { message: String },
}

/// A message as a provider request carries it.
#[derive(Debug)]
pub struct LlmMessage {
    pub role: String,
    pub content: Vec<LlmContentBlock>,
}

/// A piece of a provider request message; tool-call arguments are JSON
/// text.
#[derive(Debug)]
pub enum LlmContentBlock {
    Text { text: String },
    Thinking { text: String },
    ToolCall { id: String, name: String, arguments: String },
    ToolResult { tool_call_id: String, content: String, is_error: bool },
}

/// A question put to the user.
#[derive(Debug)]
pub struct AskPayload {
    pub id: String,
    pub question: String,
    pub context: Option<String>,
    pub options: Vec<AskOption>,
    pub allow_multiple: bool,
    pub allow_freeform: bool,
    pub allow_comment: bool,
    pub timeout_ms: Option<u64>,
}

/// Free-form answers are allowed unless the question says otherwise.
pub fn default_true() -> (r: bool)
    ensures
        r,
{
    true
}

/// A choice offered with a question.
#[derive(Debug)]
pub struct AskOption {
    pub title: String,
    pub description: Option<String>,
}

/// The user's answer to a question.
#[derive(Debug)]
pub struct AskUserResponse {
    pub selected: Vec<String>,
    pub freeform: Option<String>,
    pub comment: Option<String>,
}

/// A tool's result: content blocks, whether it is an error, and metadata.
#[derive(Debug)]
pub struct ToolResult {
    pub content: Vec<ContentBlock>,
    pub is_error: bool,
    pub metadata: Option<Json>,
}

/// A command from the client.
#[derive(Debug)]
pub enum ClientCommand {
    Prompt { id: Option<String>, message: String },
    Abort { id: Option<String> },
    UserResponse { id: Option<String>, ask_id: String, response: AskUserResponse },
    SetModel { id: Option<String>, provider: String, model_id: String },
    SetThinking { id: Option<String>, level: ThinkingLevel },
    CycleModel { id: Option<String> },
    Bash { id: Option<String>, command: String },
    ListSessions { id: Option<String> },
    LoadSession { id: Option<String>, session_id: String },
    NewSession { id: Option<String> },
    ForkSession { id: Option<String>, entry_id: String },
    GetState { id: Option<String> },
    GetMessages { id: Option<String> },
    ExportSession { id: Option<String>, output_path: String },
    Shutdown { id: Option<String> },
    Invalid,
}

/// A client command as it arrives.
#[derive(Debug)]
pub struct ClientCommandEnvelope {
    pub command: ClientCommand,
}

/// The state the client can ask for.
#[derive(Debug)]
pub struct StateSnapshot {
    pub model: ModelInfo,
    pub thinking_level: ThinkingLevel,
    pub session_id: String,
    pub cwd: String,
    pub message_count: usize,
    pub is_streaming: bool,
    pub run_id: Option<String>,
}

/// A provider event as data.
pub enum EventView {
    TextDelta(Seq<char>),
    ThinkingDelta(Seq<char>),
    ThinkingEnd,
    ToolCallStarted(Seq<char>, Seq<char>),
    ToolCallArgumentsDelta(Seq<char>, Seq<char>),
    ToolCallCompleted(Seq<char>),
    Usage(u32, u32),
    Completed,
    Error(Seq<char>),
}

pub open spec fn event_view(e: ProviderEvent) -> EventView {
    match e {
        ProviderEvent::TextDelta { text } => EventView::TextDelta(text@),
        ProviderEvent::ThinkingDelta { text } => EventView::ThinkingDelta(text@),
        ProviderEvent::ThinkingEnd => EventView::ThinkingEnd,
        ProviderEvent::ToolCallStarted { id, name } => EventView::ToolCallStarted(id@, name@),
        ProviderEvent::ToolCallArgumentsDelta { id, delta } => EventView::ToolCallArgumentsDelta(id@, delta@),
        ProviderEvent::ToolCallCompleted { id } => EventView::ToolCallCompleted(id@),
        ProviderEvent::Usage { input_tokens, output_tokens } => EventView::Usage(input_tokens, output_tokens),
        ProviderEvent::Completed => EventView::Completed,
        ProviderEvent::Error { message } => EventView::Error(message@),
    }
}

pub open spec fn event_views(s: Seq<ProviderEvent>) -> Seq<EventView> {
    s.map_values(|e: ProviderEvent| event_view(e))
}

} // verus!
