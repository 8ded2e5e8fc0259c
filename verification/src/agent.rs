//! The agent: its system prompt, the provider's view of the transcript,
//! new transcript entries, and compaction of long transcripts.
use vstd::prelude::*;
use vstd::string::StringSliceAdditionalSpecFns;
use vstd::utf8::encode_utf8;
use crate::protocol::{copy_string, ContentBlock, LlmContentBlock, LlmMessage, Message, MessageRole, ProviderEvent, ToolDefinition, ToolResult, UsageInfo};
use crate::tools::error::{error_text, ToolError};
use crate::text::{chars_of, decimal, extend_chars, extend_str, join, join_chars, push_decimal, string_of, views};
use crate::util::{generate_message_id, is_prefixed_id, now_iso};

verus! {

/// Runs the agent's turns.
#[derive(Debug)]
pub struct AgentRunner;

impl AgentRunner {
    pub fn new() -> (r: AgentRunner) {
        AgentRunner
    }
}

/// Why a run stopped, and the entries it added.
#[derive(Debug)]
pub struct RunResult {
    pub messages: Vec<Message>,
    pub stop_reason: String,
}

// ---------------------------------------------------------------------------
// The system prompt
// ---------------------------------------------------------------------------

/// What the system prompt is made from.
#[derive(Debug)]
pub struct PromptContext {
    pub cwd: String,
    pub date: String,
    pub tools: Vec<ToolDefinition>,
}

pub open spec fn prompt_head() -> Seq<char> {
    "You are cromulent, a headless coding agent.\nYou can inspect files, edit files, run shell commands, search with grep/find, and ask the user for clarification.\n\n## Core rules\n- Be concise and explicit about file paths.\n- Do not invent file contents or command outputs.\n- Do not make assumptions about the codebase without reading relevant files first.\n- Preserve existing style and structure; keep edits surgical unless explicitly asked otherwise.\n- If you are unsure, ask the user for clarification using `ask_user`.\n\n## Operational context\nWorking directory: "@
}

pub open spec fn tools_intro() -> Seq<char> {
    "\n\n## Available tools\n\nYou have access to the following tools:\n"@
}

pub open spec fn tool_rules() -> Seq<char> {
    "\n\n### Tool rules\n- Prefer `read`/`find`/`grep` over `bash` for exploration.\n- `read` exact regions before editing; `read` returns `LINE#HASH:content` anchors.\n- Use `hashline_edit` for existing files, copying anchors from `read`.\n- Replacement lines in `hashline_edit` must be literal file content: no `LINE#HASH:` prefixes and no diff `+`/`-` prefixes.\n- Use `write` for new files only; it is create-only by default.\n- Make the smallest correct change. Do not rewrite whole files/functions, reformat, rename, refactor, or reorganize unless requested.\n- Broad or risky changes require `ask_user` after gathering context.\n- Before `ask_user`, gather enough context to ask a focused question.\n- Make real changes with tools when appropriate."@
}

/// The line of a tool in the prompt.
pub open spec fn tool_line(t: ToolDefinition) -> Seq<char> {
    "- `"@ + t.name@ + "`: "@ + t.description@
}

/// The tools section: none without tools.
pub open spec fn tool_section(tools: Seq<ToolDefinition>) -> Seq<char> {
    if tools.len() == 0 {
        Seq::empty()
    } else {
        tools_intro() + join(tools.map_values(|t: ToolDefinition| tool_line(t)), seq!['\n']) + tool_rules()
    }
}

/// The system prompt: the agent's rules, the working directory and date,
/// and the tools with the rules for using them.
pub open spec fn system_prompt(cwd: Seq<char>, date: Seq<char>, tools: Seq<ToolDefinition>) -> Seq<char> {
    prompt_head() + cwd + "\nCurrent date: "@ + date + seq!['\n'] + tool_section(tools)
}

/// Builds the system prompt.
pub fn build_system_prompt(ctx: &PromptContext) -> (r: String)
    ensures
        r@ == system_prompt(ctx.cwd@, ctx.date@, ctx.tools@),
{
    let mut out: Vec<char> = Vec::new();
    extend_str(&mut out, "You are cromulent, a headless coding agent.\nYou can inspect files, edit files, run shell commands, search with grep/find, and ask the user for clarification.\n\n## Core rules\n- Be concise and explicit about file paths.\n- Do not invent file contents or command outputs.\n- Do not make assumptions about the codebase without reading relevant files first.\n- Preserve existing style and structure; keep edits surgical unless explicitly asked otherwise.\n- If you are unsure, ask the user for clarification using `ask_user`.\n\n## Operational context\nWorking directory: ");
    extend_str(&mut out, ctx.cwd.as_str());
    extend_str(&mut out, "\nCurrent date: ");
    extend_str(&mut out, ctx.date.as_str());
    out.push('\n');
    let ghost base = out@;
    if ctx.tools.len() > 0 {
        extend_str(&mut out, "\n\n## Available tools\n\nYou have access to the following tools:\n");
        let mut lines: Vec<Vec<char>> = Vec::new();
        let mut i: usize = 0;
        while i < ctx.tools.len()
            invariant
                i <= ctx.tools.len(),
                views(lines@) == ctx.tools@.take(i as int).map_values(|t: ToolDefinition| tool_line(t)),
            decreases ctx.tools.len() - i,
        {
            let mut l: Vec<char> = Vec::new();
            extend_str(&mut l, "- `");
            extend_str(&mut l, ctx.tools[i].name.as_str());
            extend_str(&mut l, "`: ");
            extend_str(&mut l, ctx.tools[i].description.as_str());
            let ghost before = views(lines@);
            lines.push(l);
            assert(views(lines@) =~= ctx.tools@.take(i + 1).map_values(|t: ToolDefinition| tool_line(t))) by {
                assert(views(lines@) =~= before.push(tool_line(ctx.tools@[i as int])));
            }
            i += 1;
        }
        assert(ctx.tools@.take(ctx.tools.len() as int) =~= ctx.tools@);
        let nl: Vec<char> = vec!['\n'];
        assert(nl@ =~= seq!['\n']);
        let joined = join_chars(&lines, &nl);
        extend_chars(&mut out, &joined);
        extend_str(&mut out, "\n\n### Tool rules\n- Prefer `read`/`find`/`grep` over `bash` for exploration.\n- `read` exact regions before editing; `read` returns `LINE#HASH:content` anchors.\n- Use `hashline_edit` for existing files, copying anchors from `read`.\n- Replacement lines in `hashline_edit` must be literal file content: no `LINE#HASH:` prefixes and no diff `+`/`-` prefixes.\n- Use `write` for new files only; it is create-only by default.\n- Make the smallest correct change. Do not rewrite whole files/functions, reformat, rename, refactor, or reorganize unless requested.\n- Broad or risky changes require `ask_user` after gathering context.\n- Before `ask_user`, gather enough context to ask a focused question.\n- Make real changes with tools when appropriate.");
    } else {
        assert(out@ =~= base + Seq::<char>::empty());
    }
    string_of(&out)
}

// ---------------------------------------------------------------------------
// The provider's view of the transcript
// ---------------------------------------------------------------------------

/// A provider request block as data: `0` text, `1` reasoning, `2` tool call,
/// `3` tool result; its id, name or text fields; and the error flag.
pub type LlmBlockView = (int, Seq<char>, Seq<char>, Seq<char>, bool);

pub open spec fn llm_block_view(b: LlmContentBlock) -> LlmBlockView {
    match b {
        LlmContentBlock::Text { text } => (0, text@, Seq::empty(), Seq::empty(), false),
        LlmContentBlock::Thinking { text } => (1, text@, Seq::empty(), Seq::empty(), false),
        LlmContentBlock::ToolCall { id, name, arguments } => (2, id@, name@, arguments@, false),
        LlmContentBlock::ToolResult { tool_call_id, content, is_error } => (3, tool_call_id@, content@, Seq::empty(), is_error),
    }
}

pub open spec fn llm_block_views(s: Seq<LlmContentBlock>) -> Seq<LlmBlockView> {
    s.map_values(|b: LlmContentBlock| llm_block_view(b))
}

/// The texts of the text blocks, in order.
pub open spec fn text_parts(c: Seq<ContentBlock>) -> Seq<Seq<char>>
    decreases c.len(),
{
    if c.len() == 0 {
        Seq::empty()
    } else {
        let prev = text_parts(c.drop_last());
        match c.last() {
            ContentBlock::Text { text } => prev.push(text@),
            _ => prev,
        }
    }
}

/// A block as the provider sees it: a tool result becomes the text of its
/// text blocks, one per line.
pub open spec fn block_to_llm(b: ContentBlock) -> LlmBlockView {
    match b {
        ContentBlock::Text { text } => (0, text@, Seq::empty(), Seq::empty(), false),
        ContentBlock::Thinking { text } => (1, text@, Seq::empty(), Seq::empty(), false),
        ContentBlock::ToolCall { id, name, arguments } => (2, id@, name@, arguments@, false),
        ContentBlock::ToolResult { tool_call_id, content, is_error, metadata: _ } => (
            3,
            tool_call_id@,
            join(text_parts(content@), seq!['\n']),
            Seq::empty(),
            is_error,
        ),
    }
}

pub open spec fn role_name(r: MessageRole) -> Seq<char> {
    match r {
        MessageRole::User => "user"@,
        MessageRole::Assistant => "assistant"@,
        MessageRole::Tool => "tool"@,
        MessageRole::System => "system"@,
    }
}

/// A message as the provider sees it: none for system messages and for
/// messages without content.
pub open spec fn message_llm_spec(m: Message) -> Option<(Seq<char>, Seq<LlmBlockView>)> {
    if m.role == MessageRole::System || m.content@.len() == 0 {
        None
    } else {
        Some((role_name(m.role), m.content@.map_values(|b: ContentBlock| block_to_llm(b))))
    }
}

pub open spec fn llm_message_view(m: LlmMessage) -> (Seq<char>, Seq<LlmBlockView>) {
    (m.role@, llm_block_views(m.content@))
}

/// A tool result reaches the provider as a tool result for the same call,
/// with the same error flag: a failed tool is reported as failed and a
/// successful one as successful. A result made of one text block carries
/// that text; every block that is not a tool result is sent as not an
/// error.
pub proof fn law_tool_results_keep_their_flag(m: Message, i: int)
    requires
        m.role != MessageRole::System,
        0 <= i < m.content@.len(),
    ensures
        message_llm_spec(m) matches Some((_, bs)) && bs.len() == m.content@.len() && {
            &&& m.content@[i] matches ContentBlock::ToolResult { tool_call_id, content, is_error, metadata: _ } ==> {
                &&& bs[i].0 == 3
                &&& bs[i].1 == tool_call_id@
                &&& bs[i].4 == is_error
                &&& (content@.len() == 1 && content@[0] is Text ==> bs[i].2 == content@[0]->Text_text@)
            }
            &&& !(m.content@[i] is ToolResult) ==> !bs[i].4
        },
{
    if let ContentBlock::ToolResult { tool_call_id: _, content, is_error: _, metadata: _ } = m.content@[i] {
        if content@.len() == 1 && content@[0] is Text {
            let c = content@;
            assert(c.drop_last() =~= Seq::<ContentBlock>::empty());
            assert(text_parts(c.drop_last()) == Seq::<Seq<char>>::empty());
            assert(c.last() == c[0]);
            assert(text_parts(c) =~= seq![c[0]->Text_text@]);
            assert(join(seq![c[0]->Text_text@], seq!['\n']) == c[0]->Text_text@);
        }
    }
}

fn flatten_texts(c: &Vec<ContentBlock>) -> (r: String)
    ensures
        r@ == join(text_parts(c@), seq!['\n']),
{
    let mut parts: Vec<Vec<char>> = Vec::new();
    let mut i: usize = 0;
    assert(c@.take(0) =~= Seq::<ContentBlock>::empty());
    while i < c.len()
        invariant
            i <= c.len(),
            views(parts@) == text_parts(c@.take(i as int)),
        decreases c.len() - i,
    {
        assert(c@.take(i + 1).drop_last() =~= c@.take(i as int));
        assert(c@.take(i + 1).last() == c@[i as int]);
        match &c[i] {
            ContentBlock::Text { text } => {
                let ghost before = views(parts@);
                parts.push(chars_of(text.as_str()));
                assert(views(parts@) =~= before.push(text@));
            },
            _ => {},
        }
        i += 1;
    }
    assert(c@.take(c.len() as int) =~= c@);
    let nl: Vec<char> = vec!['\n'];
    assert(nl@ =~= seq!['\n']);
    string_of(&join_chars(&parts, &nl))
}

fn block_to_llm_exec(b: &ContentBlock) -> (r: LlmContentBlock)
    ensures
        llm_block_view(r) == block_to_llm(*b),
{
    match b {
        ContentBlock::Text { text } => LlmContentBlock::Text { text: copy_string(text) },
        ContentBlock::Thinking { text } => LlmContentBlock::Thinking { text: copy_string(text) },
        ContentBlock::ToolCall { id, name, arguments } => LlmContentBlock::ToolCall {
            id: copy_string(id),
            name: copy_string(name),
            arguments: copy_string(arguments),
        },
        ContentBlock::ToolResult { tool_call_id, content, is_error, metadata: _ } => LlmContentBlock::ToolResult {
            tool_call_id: copy_string(tool_call_id),
            content: flatten_texts(content),
            is_error: *is_error,
        },
    }
}

/// A message as the provider sees it.
pub fn message_to_llm(message: &Message) -> (r: Option<LlmMessage>)
    ensures
        match message_llm_spec(*message) {
            None => r is None,
            Some(v) => r matches Some(m) && llm_message_view(m) == v,
        },
{
    let role = match message.role {
        MessageRole::System => return None,
        MessageRole::User => "user",
        MessageRole::Assistant => "assistant",
        MessageRole::Tool => "tool",
    };
    if message.content.len() == 0 {
        return None;
    }
    let mut content: Vec<LlmContentBlock> = Vec::new();
    let mut i: usize = 0;
    while i < message.content.len()
        invariant
            i <= message.content.len(),
            llm_block_views(content@) == message.content@.take(i as int).map_values(|b: ContentBlock| block_to_llm(b)),
        decreases message.content.len() - i,
    {
        let b = block_to_llm_exec(&message.content[i]);
        let ghost before = llm_block_views(content@);
        content.push(b);
        assert(llm_block_views(content@) =~= message.content@.take(i + 1).map_values(|b: ContentBlock| block_to_llm(b))) by {
            assert(llm_block_views(content@) =~= before.push(llm_block_view(b)));
        }
        i += 1;
    }
    assert(message.content@.take(message.content.len() as int) =~= message.content@);
    proof {
        reveal_strlit("user");
        reveal_strlit("assistant");
        reveal_strlit("tool");
    }
    Some(LlmMessage { role: role.to_string(), content })
}

/// The messages as the provider sees them, in order.
pub open spec fn messages_llm_spec(ms: Seq<Message>) -> Seq<(Seq<char>, Seq<LlmBlockView>)>
    decreases ms.len(),
{
    if ms.len() == 0 {
        Seq::empty()
    } else {
        let prev = messages_llm_spec(ms.drop_last());
        match message_llm_spec(ms.last()) {
            Some(v) => prev.push(v),
            None => prev,
        }
    }
}

pub open spec fn llm_message_views(s: Seq<LlmMessage>) -> Seq<(Seq<char>, Seq<LlmBlockView>)> {
    s.map_values(|m: LlmMessage| llm_message_view(m))
}

/// Converts messages for the provider, dropping system messages.
pub fn messages_to_llm(messages: &[Message]) -> (r: Vec<LlmMessage>)
    ensures
        llm_message_views(r@) == messages_llm_spec(messages@),
{
    let mut out: Vec<LlmMessage> = Vec::new();
    let mut i: usize = 0;
    assert(messages@.take(0) =~= Seq::<Message>::empty());
    assert(llm_message_views(out@) =~= Seq::<(Seq<char>, Seq<LlmBlockView>)>::empty());
    while i < messages.len()
        invariant
            i <= messages.len(),
            llm_message_views(out@) == messages_llm_spec(messages@.take(i as int)),
        decreases messages.len() - i,
    {
        assert(messages@.take(i + 1).drop_last() =~= messages@.take(i as int));
        assert(messages@.take(i + 1).last() == messages@[i as int]);
        match message_to_llm(&messages[i]) {
            Some(m) => {
                let ghost before = llm_message_views(out@);
                out.push(m);
                assert(llm_message_views(out@) =~= before.push(llm_message_view(m)));
            },
            None => {},
        }
        i += 1;
    }
    assert(messages@.take(messages.len() as int) =~= messages@);
    out
}

// ---------------------------------------------------------------------------
// New transcript entries
// ---------------------------------------------------------------------------

/// A new user message with the given text.
pub fn new_user_message(text: String) -> (r: Message)
    ensures
        r.role == MessageRole::User,
        r.content@.len() == 1,
        r.content@[0] matches ContentBlock::Text { text: t } && t == text,
        r.tool_call_id is None,
        r.tool_name is None,
        r.is_error is None,
        is_prefixed_id(r.id@, "msg_"@),
{
    let mut content: Vec<ContentBlock> = Vec::new();
    content.push(ContentBlock::Text { text });
    Message {
        id: generate_message_id(),
        timestamp: now_iso(),
        role: MessageRole::User,
        content,
        tool_call_id: None,
        tool_name: None,
        is_error: None,
    }
}

/// A new tool-result message.
pub fn new_tool_result_message(tool_call_id: String, tool_name: String, content_text: String, is_error: bool, metadata: Option<crate::json::Json>) -> (r: Message)
    ensures
        r.role == MessageRole::Tool,
        r.content@.len() == 1,
        r.content@[0] matches ContentBlock::ToolResult { tool_call_id: c, content: inner, is_error: e, metadata: m }
            && c@ == tool_call_id@ && e == is_error && m == metadata && inner@.len() == 1
            && (inner@[0] matches ContentBlock::Text { text } && text == content_text),
        r.tool_call_id matches Some(c) && c == tool_call_id,
        r.tool_name == Some(tool_name),
        r.is_error == Some(is_error),
        is_prefixed_id(r.id@, "msg_"@),
{
    let mut inner: Vec<ContentBlock> = Vec::new();
    inner.push(ContentBlock::Text { text: content_text });
    let mut content: Vec<ContentBlock> = Vec::new();
    content.push(ContentBlock::ToolResult { tool_call_id: copy_string(&tool_call_id), content: inner, is_error, metadata });
    Message {
        id: generate_message_id(),
        timestamp: now_iso(),
        role: MessageRole::Tool,
        content,
        tool_call_id: Some(tool_call_id),
        tool_name: Some(tool_name),
        is_error: Some(is_error),
    }
}

// ---------------------------------------------------------------------------
// Compaction
// ---------------------------------------------------------------------------

/// Messages kept in full when a transcript is compacted.
pub const KEEP_RECENT: usize = 30;

/// Estimated tokens above which a transcript is compacted.
pub const TOKEN_THRESHOLD: usize = 64_000;

/// Bytes of UTF-8 text.
pub open spec fn bytes(s: Seq<char>) -> nat {
    encode_utf8(s).len()
}

/// The bytes of text a block carries.
pub open spec fn block_bytes(b: LlmContentBlock) -> nat {
    match b {
        LlmContentBlock::Text { text } => bytes(text@),
        LlmContentBlock::Thinking { text } => bytes(text@),
        LlmContentBlock::ToolResult { tool_call_id: _, content, is_error: _ } => bytes(content@),
        LlmContentBlock::ToolCall { id: _, name: _, arguments } => bytes(arguments@),
    }
}

pub open spec fn blocks_bytes(bs: Seq<LlmContentBlock>) -> nat
    decreases bs.len(),
{
    if bs.len() == 0 { 0 } else { blocks_bytes(bs.drop_last()) + block_bytes(bs.last()) }
}

pub open spec fn total_bytes(ms: Seq<LlmMessage>) -> nat
    decreases ms.len(),
{
    if ms.len() == 0 { 0 } else { total_bytes(ms.drop_last()) + blocks_bytes(ms.last().content@) }
}

/// About four bytes of text per token.
pub open spec fn estimate_spec(ms: Seq<LlmMessage>) -> nat {
    total_bytes(ms) / 4
}

/// The text a block carries: its text, its reasoning, its tool result, or
/// its call's arguments.
pub open spec fn carried_text(b: LlmContentBlock) -> Seq<char> {
    match b {
        LlmContentBlock::Text { text } => text@,
        LlmContentBlock::Thinking { text } => text@,
        LlmContentBlock::ToolResult { tool_call_id: _, content, is_error: _ } => content@,
        LlmContentBlock::ToolCall { id: _, name: _, arguments } => arguments@,
    }
}

/// The estimate counts all the text a transcript carries, tool results
/// included: no transcript counts nothing, a message without blocks adds
/// nothing, and one more block at the end of the last message adds exactly
/// the UTF-8 length of its text to the count, so the estimate (the count
/// over four) grows by at least a quarter of it.
pub proof fn law_estimate_counts_all_text(ms: Seq<LlmMessage>, m1: LlmMessage, m2: LlmMessage, b: LlmContentBlock)
    requires
        m2.content@ == m1.content@.push(b),
    ensures
        total_bytes(Seq::<LlmMessage>::empty()) == 0,
        m1.content@.len() == 0 ==> total_bytes(ms.push(m1)) == total_bytes(ms),
        total_bytes(ms.push(m2)) == total_bytes(ms.push(m1)) + encode_utf8(carried_text(b)).len(),
        estimate_spec(ms.push(m2)) >= estimate_spec(ms.push(m1)) + encode_utf8(carried_text(b)).len() / 4,
        estimate_spec(ms.push(m2)) * 4 <= total_bytes(ms.push(m2)) < estimate_spec(ms.push(m2)) * 4 + 4,
{
    assert(ms.push(m2).drop_last() == ms);
    assert(ms.push(m1).drop_last() == ms);
    assert(m2.content@.drop_last() == m1.content@);
    let x = total_bytes(ms.push(m1));
    let y = encode_utf8(carried_text(b)).len();
    let t = total_bytes(ms.push(m2));
    assert(t == x + y);
    assert((x + y) / 4 >= x / 4 + y / 4) by (nonlinear_arith);
    assert(t / 4 * 4 <= t < t / 4 * 4 + 4) by (nonlinear_arith);
}

proof fn lemma_total_bytes_prefix(ms: Seq<LlmMessage>, k: int)
    requires
        0 <= k <= ms.len(),
    ensures
        total_bytes(ms.take(k)) <= total_bytes(ms),
    decreases ms.len() - k,
{
    if k < ms.len() {
        lemma_total_bytes_prefix(ms, k + 1);
        assert(ms.take(k + 1).drop_last() =~= ms.take(k));
    } else {
        assert(ms.take(k) =~= ms);
    }
}

fn text_bytes(s: &String) -> (n: usize)
    requires
        bytes(s@) <= usize::MAX,
    ensures
        n == bytes(s@),
{
    s.as_str().len()
}

/// Estimates the tokens of messages.
pub fn estimate_tokens(messages: &[LlmMessage]) -> (n: usize)
    requires
        total_bytes(messages@) <= usize::MAX,
    ensures
        n == estimate_spec(messages@),
{
    let mut total: usize = 0;
    let mut i: usize = 0;
    while i < messages.len()
        invariant
            i <= messages.len(),
            total == total_bytes(messages@.take(i as int)),
            total_bytes(messages@) <= usize::MAX,
        decreases messages.len() - i,
    {
        proof {
            lemma_total_bytes_prefix(messages@, i + 1);
            assert(messages@.take(i + 1).drop_last() =~= messages@.take(i as int));
        }
        let content = &messages[i].content;
        let ghost cv = content@;
        let mut j: usize = 0;
        let ghost base = total;
        while j < content.len()
            invariant
                j <= content.len(),
                cv == content@,
                total == base + blocks_bytes(cv.take(j as int)),
                base + blocks_bytes(cv) <= usize::MAX,
            decreases content.len() - j,
        {
            proof {
                assert(cv.take(j + 1).drop_last() =~= cv.take(j as int));
                assert(cv.take(j + 1) =~= cv.take(j as int).push(cv[j as int]));
                lemma_blocks_bytes_prefix(cv, j + 1);
            }
            let b = match &content[j] {
                LlmContentBlock::Text { text } => text_bytes(text),
                LlmContentBlock::Thinking { text } => text_bytes(text),
                LlmContentBlock::ToolResult { tool_call_id: _, content, is_error: _ } => text_bytes(content),
                LlmContentBlock::ToolCall { id: _, name: _, arguments } => text_bytes(arguments),
            };
            total = total + b;
            j += 1;
        }
        assert(cv.take(content.len() as int) =~= cv);
        i += 1;
    }
    assert(messages@.take(messages.len() as int) =~= messages@);
    total / 4
}

proof fn lemma_blocks_bytes_prefix(bs: Seq<LlmContentBlock>, k: int)
    requires
        0 <= k <= bs.len(),
    ensures
        blocks_bytes(bs.take(k)) <= blocks_bytes(bs),
    decreases bs.len() - k,
{
    if k < bs.len() {
        lemma_blocks_bytes_prefix(bs, k + 1);
        assert(bs.take(k + 1).drop_last() =~= bs.take(k));
    } else {
        assert(bs.take(k) =~= bs);
    }
}

/// The note that stands for the compacted older messages.
pub open spec fn summary_text(count: nat, tokens: nat) -> Seq<char> {
    "[Earlier conversation: "@ + decimal(count) + " messages, ~"@ + decimal(tokens)
        + " tokens. This portion has been compacted to reduce context size. The full transcript is available on disk. Key context from the compacted section: the conversation continues below.]"@
}

/// Whether a transcript is compacted: more than the recent messages, and
/// more estimated tokens than the threshold.
pub open spec fn needs_compaction(ms: Seq<LlmMessage>) -> bool {
    ms.len() > KEEP_RECENT && estimate_spec(ms) > TOKEN_THRESHOLD
}

/// Compacts a long transcript for the provider: the older messages give
/// way to one user note that counts them; the recent ones stay exact.
pub fn compact(messages: Vec<LlmMessage>) -> (r: Vec<LlmMessage>)
    requires
        total_bytes(messages@) <= usize::MAX,
    ensures
        !needs_compaction(messages@) ==> r@ == messages@,
        needs_compaction(messages@) ==> ({
            let split = messages@.len() - KEEP_RECENT;
            &&& r@.len() == KEEP_RECENT + 1
            &&& r@.skip(1) == messages@.skip(split)
            &&& r@[0].role@ == "user"@
            &&& llm_block_views(r@[0].content@) == seq![(0int, summary_text(split as nat, estimate_spec(messages@.take(split))), Seq::<char>::empty(), Seq::<char>::empty(), false)]
        }),
{
    if messages.len() <= KEEP_RECENT {
        return messages;
    }
    let est = estimate_tokens(messages.as_slice());
    if est <= TOKEN_THRESHOLD {
        return messages;
    }
    let split = messages.len() - KEEP_RECENT;
    let mut older = messages;
    let ghost all = older@;
    let mut recent = older.split_off(split);
    assert(older@ =~= all.take(split as int));
    proof {
        lemma_total_bytes_prefix(all, split as int);
    }
    let older_tokens = estimate_tokens(older.as_slice());
    let mut t: Vec<char> = Vec::new();
    extend_str(&mut t, "[Earlier conversation: ");
    push_decimal(&mut t, older.len());
    extend_str(&mut t, " messages, ~");
    push_decimal(&mut t, older_tokens);
    extend_str(&mut t, " tokens. This portion has been compacted to reduce context size. The full transcript is available on disk. Key context from the compacted section: the conversation continues below.]");
    let mut content: Vec<LlmContentBlock> = Vec::new();
    content.push(LlmContentBlock::Text { text: string_of(&t) });
    let summary = LlmMessage { role: "user".to_string(), content };
    let mut out: Vec<LlmMessage> = Vec::new();
    out.push(summary);
    out.append(&mut recent);
    assert(llm_block_views(out@[0].content@) =~= seq![(0int, summary_text(split as nat, estimate_spec(all.take(split as int))), Seq::<char>::empty(), Seq::<char>::empty(), false)]);
    assert(out@.skip(1) =~= all.skip(split as int));
    out
}

// ---------------------------------------------------------------------------
// A model turn
// ---------------------------------------------------------------------------

/// A tool call whose arguments are still arriving.
#[derive(Debug)]
pub struct PendingCall {
    pub id: String,
    pub name: String,
    pub arguments: String,
}

/// A finished tool call: id, name and the arguments as compact JSON text.
#[derive(Debug)]
pub struct ToolCall {
    pub id: String,
    pub name: String,
    pub arguments: String,
}

/// What a turn's event stream has delivered so far.
#[derive(Debug)]
pub struct StreamState {
    pub text: Option<String>,
    pub thinking: Option<String>,
    pub pending: Vec<PendingCall>,
    pub tool_calls: Vec<ToolCall>,
    pub usage: Option<UsageInfo>,
    pub error: Option<String>,
}

pub open spec fn opt_text(o: Option<String>) -> Option<Seq<char>> {
    match o {
        Some(s) => Some(s@),
        None => None,
    }
}

/// Text appended to an optional accumulator.
pub open spec fn appended(o: Option<Seq<char>>, t: Seq<char>) -> Option<Seq<char>> {
    match o {
        Some(s) => Some(s + t),
        None => Some(t),
    }
}

/// The position of the pending call with the given id.
pub open spec fn pending_index(p: Seq<PendingCall>, id: Seq<char>) -> Option<int> {
    if exists|i: int| 0 <= i < p.len() && p[i].id@ == id {
        Some(choose|i: int| 0 <= i < p.len() && p[i].id@ == id)
    } else {
        None
    }
}

/// Pending calls have distinct ids.
pub open spec fn ids_distinct(p: Seq<PendingCall>) -> bool {
    forall|i: int, j: int| 0 <= i < p.len() && 0 <= j < p.len() && i != j ==> p[i].id@ != p[j].id@
}

pub open spec fn call_view(c: ToolCall) -> (Seq<char>, Seq<char>, Seq<char>) {
    (c.id@, c.name@, c.arguments@)
}

pub open spec fn call_views(s: Seq<ToolCall>) -> Seq<(Seq<char>, Seq<char>, Seq<char>)> {
    s.map_values(|c: ToolCall| call_view(c))
}

/// The pending calls as (id, name, arguments so far).
pub open spec fn pending_views(p: Seq<PendingCall>) -> Seq<(Seq<char>, Seq<char>, Seq<char>)> {
    p.map_values(|c: PendingCall| (c.id@, c.name@, c.arguments@))
}

/// The JSON text `raw` as serde_json reads it into a value and prints it
/// back (`serde_json::from_str::<Value>`, then `to_string`: compact, keys
/// in its map order), or `None` where it does not parse.
pub uninterp spec fn json_compact(raw: Seq<char>) -> Option<Seq<char>>;

/// Parses `raw` as a JSON value and prints it compactly, with serde_json;
/// the result is named by `json_compact`.
#[verifier::external_body]
fn compact_json(raw: &str) -> (r: Option<String>)
    ensures
        match json_compact(raw@) {
            Some(t) => r matches Some(s) && s@ == t,
            None => r is None,
        },
{
    serde_json::from_str::<serde_json::Value>(raw).ok().map(|v| v.to_string())
}

/// The arguments a finished call keeps: the streamed text read as JSON and
/// printed compactly, or `null` where it is not JSON.
pub open spec fn arguments_text(raw: Seq<char>) -> Seq<char> {
    match json_compact(raw) {
        Some(t) => t,
        None => "null"@,
    }
}

/// The arguments a finished call keeps, from the streamed text.
pub fn normalize_arguments(raw: &str) -> (r: String)
    ensures
        r@ == arguments_text(raw@),
{
    match compact_json(raw) {
        Some(t) => t,
        None => {
            proof {
                reveal_strlit("null");
            }
            "null".to_string()
        },
    }
}

proof fn lemma_pending_index_of(p: Seq<PendingCall>, id: Seq<char>, i: int)
    requires
        ids_distinct(p),
        0 <= i < p.len(),
        p[i].id@ == id,
    ensures
        pending_index(p, id) == Some(i),
{
    let j = choose|j: int| 0 <= j < p.len() && p[j].id@ == id;
    assert(j == i);
}

fn find_pending(p: &Vec<PendingCall>, id: &str) -> (r: Option<usize>)
    ensures
        match r {
            Some(i) => i < p.len() && p@[i as int].id@ == id@,
            None => forall|i: int| 0 <= i < p.len() ==> p@[i].id@ != id@,
        },
{
    let mut i: usize = 0;
    while i < p.len()
        invariant
            i <= p.len(),
            forall|k: int| 0 <= k < i ==> p@[k].id@ != id@,
        decreases p.len() - i,
    {
        if crate::json::str_eq(p[i].id.as_str(), id) {
            return Some(i);
        }
        i += 1;
    }
    None
}

fn append_opt(o: Option<String>, t: &str) -> (r: Option<String>)
    ensures
        opt_text(r) == appended(opt_text(o), t@),
{
    let mut v: Vec<char> = match &o {
        Some(s) => chars_of(s.as_str()),
        None => Vec::new(),
    };
    extend_str(&mut v, t);
    proof {
        if o is None {
            assert(v@ =~= t@);
        }
    }
    Some(string_of(&v))
}

impl StreamState {
    /// The calls whose arguments are still arriving.
    pub open spec fn pending_calls(&self) -> Seq<PendingCall> {
        self.pending@
    }

    /// Nothing delivered yet.
    pub fn new() -> (r: StreamState)
        ensures
            r.text is None,
            r.thinking is None,
            r.pending_calls().len() == 0,
            ids_distinct(r.pending_calls()),
            r.tool_calls@.len() == 0,
            r.usage is None,
            r.error is None,
    {
        StreamState { text: None, thinking: None, pending: Vec::new(), tool_calls: Vec::new(), usage: None, error: None }
    }

    /// Whether the turn produced anything to keep: text, reasoning or a call.
    pub open spec fn has_content_spec(&self) -> bool {
        (match self.text { Some(t) => t@.len() > 0, None => false })
            || (match self.thinking { Some(t) => t@.len() > 0, None => false })
            || self.tool_calls@.len() > 0
    }

    /// Whether the turn produced anything to keep.
    pub fn has_content(&self) -> (r: bool)
        ensures
            r == self.has_content_spec(),
    {
        let t = match &self.text {
            Some(x) => x.as_str().unicode_len() > 0,
            None => false,
        };
        let k = match &self.thinking {
            Some(x) => x.as_str().unicode_len() > 0,
            None => false,
        };
        t || k || self.tool_calls.len() > 0
    }

    /// Takes one event of the stream; tells whether the stream is over (it
    /// completed or failed). Text and reasoning accumulate; a started call
    /// (re)starts with no arguments; argument pieces are appended to the
    /// pending call with their id; a completion finishes that call, its
    /// arguments read as JSON and printed compactly (`null` where they do
    /// not parse); usage is kept; an error is kept and ends the stream.
    /// No other event touches the pending calls.
    pub fn on_event(&mut self, ev: ProviderEvent) -> (stop: bool)
        requires
            ids_distinct(old(self).pending_calls()),
        ensures
            ids_distinct(final(self).pending_calls()),
            stop == (ev is Completed || ev is Error),
            match ev {
                ProviderEvent::TextDelta { text } => opt_text(final(self).text) == appended(opt_text(old(self).text), text@),
                _ => final(self).text == old(self).text,
            },
            match ev {
                ProviderEvent::ThinkingDelta { text } => opt_text(final(self).thinking) == appended(opt_text(old(self).thinking), text@),
                _ => final(self).thinking == old(self).thinking,
            },
            match ev {
                ProviderEvent::Usage { input_tokens, output_tokens } => final(self).usage == Some(UsageInfo { input_tokens, output_tokens }),
                _ => final(self).usage == old(self).usage,
            },
            match ev {
                ProviderEvent::Error { message } => final(self).error == Some(message),
                _ => final(self).error == old(self).error,
            },
            match ev {
                ProviderEvent::ToolCallCompleted { id } => match pending_index(old(self).pending_calls(), id@) {
                    Some(i) => call_views(final(self).tool_calls@) == call_views(old(self).tool_calls@).push(
                        (id@, old(self).pending_calls()[i].name@, arguments_text(old(self).pending_calls()[i].arguments@)),
                    ) && final(self).pending_calls() == old(self).pending_calls().remove(i),
                    None => final(self).tool_calls@ == old(self).tool_calls@
                        && final(self).pending_calls() == old(self).pending_calls(),
                },
                _ => final(self).tool_calls@ == old(self).tool_calls@,
            },
            match ev {
                ProviderEvent::ToolCallStarted { id, name } => match pending_index(old(self).pending_calls(), id@) {
                    Some(i) => pending_views(final(self).pending_calls())
                        == pending_views(old(self).pending_calls()).update(i, (id@, name@, Seq::<char>::empty())),
                    None => pending_views(final(self).pending_calls())
                        == pending_views(old(self).pending_calls()).push((id@, name@, Seq::<char>::empty())),
                },
                ProviderEvent::ToolCallArgumentsDelta { id, delta } => match pending_index(old(self).pending_calls(), id@) {
                    Some(i) => pending_views(final(self).pending_calls()) == pending_views(old(self).pending_calls()).update(
                        i,
                        (id@, old(self).pending_calls()[i].name@, old(self).pending_calls()[i].arguments@ + delta@),
                    ),
                    None => final(self).pending_calls() == old(self).pending_calls(),
                },
                ProviderEvent::ToolCallCompleted { id: _ } => true,
                _ => final(self).pending_calls() == old(self).pending_calls(),
            },
    {
        match ev {
            ProviderEvent::TextDelta { text } => {
                let old_t = self.text.take();
                self.text = append_opt(old_t, text.as_str());
                false
            },
            ProviderEvent::ThinkingDelta { text } => {
                let old_t = self.thinking.take();
                self.thinking = append_opt(old_t, text.as_str());
                false
            },
            ProviderEvent::ThinkingEnd => false,
            ProviderEvent::ToolCallStarted { id, name } => {
                match find_pending(&self.pending, id.as_str()) {
                    Some(i) => {
                        let ghost idv = id@;
                        let ghost namev = name@;
                        proof {
                            lemma_pending_index_of(old(self).pending@, idv, i as int);
                        }
                        self.pending.set(i, PendingCall { id, name, arguments: string_of(&Vec::new()) });
                        assert(pending_views(self.pending@) =~= pending_views(old(self).pending@).update(
                            i as int,
                            (idv, namev, Seq::<char>::empty()),
                        ));
                        proof {
                            assert forall|a: int, b: int| 0 <= a < self.pending@.len() && 0 <= b < self.pending@.len() && a != b implies self.pending@[a].id@ != self.pending@[b].id@ by {
                                if a != i && b != i {
                                    assert(self.pending@[a] == old(self).pending@[a]);
                                    assert(self.pending@[b] == old(self).pending@[b]);
                                } else if a == i {
                                    assert(self.pending@[b] == old(self).pending@[b]);
                                    assert(old(self).pending@[i as int].id@ == idv);
                                } else {
                                    assert(self.pending@[a] == old(self).pending@[a]);
                                    assert(old(self).pending@[i as int].id@ == idv);
                                }
                            }
                        }
                    },
                    None => {
                        let ghost idv = id@;
                        let ghost namev = name@;
                        self.pending.push(PendingCall { id, name, arguments: string_of(&Vec::new()) });
                        assert(pending_views(self.pending@) =~= pending_views(old(self).pending@).push(
                            (idv, namev, Seq::<char>::empty()),
                        ));
                    },
                }
                false
            },
            ProviderEvent::ToolCallArgumentsDelta { id, delta } => {
                match find_pending(&self.pending, id.as_str()) {
                    Some(i) => {
                        let mut a = chars_of(self.pending[i].arguments.as_str());
                        extend_str(&mut a, delta.as_str());
                        let nm = copy_string(&self.pending[i].name);
                        let ghost idv = id@;
                        proof {
                            lemma_pending_index_of(old(self).pending@, idv, i as int);
                        }
                        self.pending.set(i, PendingCall { id, name: nm, arguments: string_of(&a) });
                        assert(pending_views(self.pending@) =~= pending_views(old(self).pending@).update(
                            i as int,
                            (idv, old(self).pending@[i as int].name@, old(self).pending@[i as int].arguments@ + delta@),
                        ));
                        proof {
                            assert forall|x: int, y: int| 0 <= x < self.pending@.len() && 0 <= y < self.pending@.len() && x != y implies self.pending@[x].id@ != self.pending@[y].id@ by {
                                if x != i && y != i {
                                    assert(self.pending@[x] == old(self).pending@[x]);
                                    assert(self.pending@[y] == old(self).pending@[y]);
                                } else if x == i {
                                    assert(self.pending@[y] == old(self).pending@[y]);
                                } else {
                                    assert(self.pending@[x] == old(self).pending@[x]);
                                }
                            }
                        }
                    },
                    None => {},
                }
                false
            },
            ProviderEvent::ToolCallCompleted { id } => {
                match find_pending(&self.pending, id.as_str()) {
                    Some(i) => {
                        proof {
                            let p = old(self).pending@;
                            assert(p[i as int].id@ == id@);
                            let j = choose|j: int| 0 <= j < p.len() && p[j].id@ == id@;
                            assert(j == i);
                        }
                        let ghost before_p = self.pending@;
                        let c = self.pending.remove(i);
                        proof {
                            assert forall|a: int, b: int| 0 <= a < self.pending@.len() && 0 <= b < self.pending@.len() && a != b implies self.pending@[a].id@ != self.pending@[b].id@ by {
                                let a2 = if a < i { a } else { a + 1 };
                                let b2 = if b < i { b } else { b + 1 };
                                assert(self.pending@[a] == before_p[a2]);
                                assert(self.pending@[b] == before_p[b2]);
                            }
                        }
                        let ghost before = call_views(self.tool_calls@);
                        let arguments = normalize_arguments(c.arguments.as_str());
                        self.tool_calls.push(ToolCall { id, name: c.name, arguments });
                        assert(call_views(self.tool_calls@) =~= before.push(call_view(self.tool_calls@.last())));
                    },
                    None => {},
                }
                false
            },
            ProviderEvent::Usage { input_tokens, output_tokens } => {
                self.usage = Some(UsageInfo { input_tokens, output_tokens });
                false
            },
            ProviderEvent::Completed => true,
            ProviderEvent::Error { message } => {
                self.error = Some(message);
                true
            },
        }
    }
}

/// The content of an assistant message: the reasoning and the text when
/// not empty, then the tool calls.
pub open spec fn assistant_content(text: Option<Seq<char>>, thinking: Option<Seq<char>>, calls: Seq<(Seq<char>, Seq<char>, Seq<char>)>) -> Seq<LlmBlockView> {
    (match thinking { Some(t) => if t.len() > 0 { seq![(1int, t, Seq::<char>::empty(), Seq::<char>::empty(), false)] } else { Seq::empty() }, None => Seq::empty() })
        + (match text { Some(t) => if t.len() > 0 { seq![(0int, t, Seq::<char>::empty(), Seq::<char>::empty(), false)] } else { Seq::empty() }, None => Seq::empty() })
        + calls.map_values(|c: (Seq<char>, Seq<char>, Seq<char>)| (2int, c.0, c.1, c.2, false))
}

pub open spec fn content_views(c: Seq<ContentBlock>) -> Seq<LlmBlockView> {
    c.map_values(|b: ContentBlock| block_to_llm(b))
}

/// A new assistant message from a turn's reasoning, text and tool calls.
pub fn new_assistant_message_with_thinking(text: Option<String>, thinking: Option<String>, tool_calls: Vec<ToolCall>) -> (r: Message)
    ensures
        r.role == MessageRole::Assistant,
        content_views(r.content@) == assistant_content(opt_text(text), opt_text(thinking), call_views(tool_calls@)),
        r.tool_call_id is None,
        r.tool_name is None,
        r.is_error is None,
        is_prefixed_id(r.id@, "msg_"@),
{
    let mut content: Vec<ContentBlock> = Vec::new();
    match thinking {
        Some(t) => {
            if t.as_str().unicode_len() > 0 {
                content.push(ContentBlock::Thinking { text: t });
            }
        },
        None => {},
    }
    match text {
        Some(t) => {
            if t.as_str().unicode_len() > 0 {
                content.push(ContentBlock::Text { text: t });
            }
        },
        None => {},
    }
    let ghost head = content_views(content@);
    let ghost cv = call_views(tool_calls@);
    assert(content_views(content@) =~= head + cv.take(0).map_values(|c: (Seq<char>, Seq<char>, Seq<char>)| (2int, c.0, c.1, c.2, false)));
    let mut calls = tool_calls;
    let mut k: usize = 0;
    let n = calls.len();
    assert(cv.skip(0) =~= cv);
    while calls.len() > 0
        invariant
            k + calls.len() == n,
            n == cv.len(),
            call_views(calls@) == cv.skip(k as int),
            content_views(content@) == head + cv.take(k as int).map_values(|c: (Seq<char>, Seq<char>, Seq<char>)| (2int, c.0, c.1, c.2, false)),
        decreases calls.len(),
    {
        let ghost before_calls = calls@;
        let c = calls.remove(0);
        assert(call_view(c) == cv[k as int]) by {
            assert(call_views(before_calls)[0] == cv.skip(k as int)[0]);
        }
        assert(call_views(calls@) =~= cv.skip(k + 1)) by {
            assert(calls@ =~= before_calls.subrange(1, before_calls.len() as int));
            assert forall|i: int| 0 <= i < calls@.len() implies call_views(calls@)[i] == cv.skip(k + 1)[i] by {
                assert(call_views(before_calls)[i + 1] == cv.skip(k as int)[i + 1]);
            }
        }
        let ghost before = content_views(content@);
        content.push(ContentBlock::ToolCall { id: c.id, name: c.name, arguments: c.arguments });
        assert(content_views(content@) =~= before.push(block_to_llm(content@.last())));
        assert(cv.take(k + 1) =~= cv.take(k as int).push(cv[k as int]));
        assert(content_views(content@) =~= head + cv.take(k + 1).map_values(|c: (Seq<char>, Seq<char>, Seq<char>)| (2int, c.0, c.1, c.2, false)));
        k += 1;
    }
    assert(cv.take(n as int) =~= cv);
    Message {
        id: generate_message_id(),
        timestamp: now_iso(),
        role: MessageRole::Assistant,
        content,
        tool_call_id: None,
        tool_name: None,
        is_error: None,
    }
}

/// What happens at the end of a turn.
#[derive(Debug, Clone, Copy, PartialEq, Eq, Structural)]
pub enum TurnEnd {
    /// The turn was cancelled: the run stops as aborted.
    Aborted,
    /// The provider failed: the run stops with an error.
    Failed,
    /// The model called tools: run them, then take another turn.
    ToolCalls,
    /// The model answered: the run is complete.
    Completed,
}

/// The end of a turn: cancellation first, then a provider error, then tool
/// calls, and otherwise completion (or abortion when cancelled meanwhile).
pub open spec fn turn_end_spec(cancelled_in_stream: bool, failed: bool, has_calls: bool, cancelled_after: bool) -> TurnEnd {
    if cancelled_in_stream {
        TurnEnd::Aborted
    } else if failed {
        TurnEnd::Failed
    } else if has_calls {
        TurnEnd::ToolCalls
    } else if cancelled_after {
        TurnEnd::Aborted
    } else {
        TurnEnd::Completed
    }
}

impl TurnEnd {
    /// The stop reason that the turn reports.
    pub fn reason(self) -> (r: String)
        ensures
            r@ == (match self {
                TurnEnd::Aborted => "aborted"@,
                TurnEnd::Failed => "error"@,
                TurnEnd::ToolCalls => "tool_calls"@,
                TurnEnd::Completed => "completed"@,
            }),
    {
        match self {
            TurnEnd::Aborted => "aborted".to_string(),
            TurnEnd::Failed => "error".to_string(),
            TurnEnd::ToolCalls => "tool_calls".to_string(),
            TurnEnd::Completed => "completed".to_string(),
        }
    }
}

/// Decides how a turn ends, and whether its assistant message is kept.
pub fn end_turn(state: &StreamState, cancelled_in_stream: bool, cancelled_after: bool) -> (r: (TurnEnd, bool))
    ensures
        r.0 == turn_end_spec(cancelled_in_stream, state.error is Some, state.tool_calls@.len() > 0, cancelled_after),
        r.1 == (!cancelled_in_stream && state.has_content_spec()),
{
    let keep = !cancelled_in_stream && state.has_content();
    let end = if cancelled_in_stream {
        TurnEnd::Aborted
    } else if state.error.is_some() {
        TurnEnd::Failed
    } else if state.tool_calls.len() > 0 {
        TurnEnd::ToolCalls
    } else if cancelled_after {
        TurnEnd::Aborted
    } else {
        TurnEnd::Completed
    };
    (end, keep)
}

/// What a tool's result reads as in the transcript: the text of its text
/// blocks one per line, or the error; whether it is an error; its metadata.
pub open spec fn tool_outcome_text(r: Result<ToolResult, ToolError>) -> (Seq<char>, bool) {
    match r {
        Ok(t) => (join(text_parts(t.content@), seq!['\n']), t.is_error),
        Err(e) => ("Tool execution error: "@ + error_text(e@), true),
    }
}

/// What a tool's result reads as in the transcript.
pub fn tool_result_text(r: Result<ToolResult, ToolError>) -> (out: (String, bool, Option<crate::json::Json>))
    ensures
        (out.0@, out.1) == tool_outcome_text(r),
        match r {
            Ok(t) => out.2 == t.metadata,
            Err(_) => out.2 is None,
        },
{
    match r {
        Ok(t) => {
            let text = flatten_texts(&t.content);
            (text, t.is_error, t.metadata)
        },
        Err(e) => {
            let m = e.message();
            let mut v: Vec<char> = Vec::new();
            extend_str(&mut v, "Tool execution error: ");
            extend_str(&mut v, m.as_str());
            (string_of(&v), true, None)
        },
    }
}

/// A run's turns: at most `max_turns`, ending early when a turn stops.
#[derive(Debug)]
pub struct RunLoop {
    pub turn: u32,
    pub max_turns: u32,
    pub stopped: Option<TurnEnd>,
}

/// The run after asking for the next turn, and the turn granted: none once
/// a turn stopped the run or the limit is reached; none, stopping the run
/// as aborted, when it was cancelled; else the next number.
pub open spec fn next_turn_spec(l: RunLoop, cancelled: bool) -> (RunLoop, Option<u32>) {
    if l.stopped is Some || l.turn >= l.max_turns {
        (l, None)
    } else if cancelled {
        (RunLoop { turn: l.turn, max_turns: l.max_turns, stopped: Some(TurnEnd::Aborted) }, None)
    } else {
        (RunLoop { turn: (l.turn + 1) as u32, max_turns: l.max_turns, stopped: None }, Some((l.turn + 1) as u32))
    }
}

/// The run after a turn ended: every end but tool calls stops it.
pub open spec fn record_spec(l: RunLoop, end: TurnEnd) -> RunLoop {
    if end == TurnEnd::ToolCalls {
        l
    } else {
        RunLoop { turn: l.turn, max_turns: l.max_turns, stopped: Some(end) }
    }
}

/// The turns a run takes when, before each turn, cancellation is read from
/// `cancels` and each turn taken ends as `ends` says: it asks for a turn,
/// and while one is granted, records its end and asks again.
pub open spec fn run_turns(l: RunLoop, cancels: Seq<bool>, ends: Seq<TurnEnd>) -> Seq<u32>
    decreases cancels.len(),
{
    if cancels.len() == 0 || ends.len() == 0 {
        Seq::empty()
    } else {
        match next_turn_spec(l, cancels[0]) {
            (l2, Some(t)) => seq![t] + run_turns(record_spec(l2, ends[0]), cancels.drop_first(), ends.drop_first()),
            (_, None) => Seq::empty(),
        }
    }
}

/// The run's state once the turns of `run_turns` are taken.
pub open spec fn run_final(l: RunLoop, cancels: Seq<bool>, ends: Seq<TurnEnd>) -> RunLoop
    decreases cancels.len(),
{
    if cancels.len() == 0 || ends.len() == 0 {
        l
    } else {
        match next_turn_spec(l, cancels[0]) {
            (l2, Some(_)) => run_final(record_spec(l2, ends[0]), cancels.drop_first(), ends.drop_first()),
            (l2, None) => l2,
        }
    }
}

proof fn lemma_run_turns(l: RunLoop, cancels: Seq<bool>, ends: Seq<TurnEnd>)
    requires
        l.stopped is None,
        l.turn <= l.max_turns,
    ensures
        ({
            let t = run_turns(l, cancels, ends);
            &&& t.len() <= l.max_turns - l.turn
            &&& t.len() <= ends.len() && t.len() <= cancels.len()
            &&& forall|i: int| 0 <= i < t.len() ==> #[trigger] t[i] == l.turn + i + 1
            &&& forall|i: int| 0 <= i < t.len() - 1 ==> #[trigger] ends[i] == TurnEnd::ToolCalls
            &&& t.len() < cancels.len() && t.len() < ends.len() && (t.len() == 0 || ends[t.len() - 1] == TurnEnd::ToolCalls)
                && cancels[t.len() as int] && l.turn + t.len() < l.max_turns ==> run_final(l, cancels, ends).stopped == Some(TurnEnd::Aborted)
        }),
    decreases cancels.len(),
{
    if cancels.len() == 0 || ends.len() == 0 {
    } else {
        let (l2, r) = next_turn_spec(l, cancels[0]);
        if let Some(t0) = r {
            let l3 = record_spec(l2, ends[0]);
            let rest = run_turns(l3, cancels.drop_first(), ends.drop_first());
            let t = run_turns(l, cancels, ends);
            assert(t == seq![t0] + rest);
            if ends[0] == TurnEnd::ToolCalls {
                lemma_run_turns(l3, cancels.drop_first(), ends.drop_first());
                assert forall|i: int| 0 <= i < t.len() implies #[trigger] t[i] == l.turn + i + 1 by {
                    if i > 0 {
                        assert(t[i] == rest[i - 1]);
                    }
                }
                assert forall|i: int| 0 <= i < t.len() - 1 implies #[trigger] ends[i] == TurnEnd::ToolCalls by {
                    if i > 0 {
                        assert(ends[i] == ends.drop_first()[i - 1]);
                    }
                }
                if t.len() < cancels.len() && t.len() < ends.len() && t.len() > 0 && cancels[t.len() as int] {
                    assert(cancels.drop_first()[rest.len() as int] == cancels[t.len() as int]);
                    if rest.len() > 0 {
                        assert(ends.drop_first()[rest.len() - 1] == ends[t.len() - 1]);
                    }
                }
            } else {
                assert(run_turns(l3, cancels.drop_first(), ends.drop_first()) == Seq::<u32>::empty()) by {
                    if cancels.drop_first().len() > 0 && ends.drop_first().len() > 0 {
                        assert(next_turn_spec(l3, cancels.drop_first()[0]).1 is None);
                    }
                }
                assert(t =~= seq![t0]);
            }
        }
    }
}

/// Across a whole run of at most `max_turns` turns, whatever the provider
/// and the cancellations do: the turns taken are numbered 1, 2, ... in
/// order, and there are at most `max_turns` of them; only a turn that
/// ended in tool calls is followed by another; and a cancellation seen
/// before a turn that would otherwise be taken stops the run as aborted,
/// which its stop reason then reports.
pub proof fn law_run_turns(max_turns: u32, cancels: Seq<bool>, ends: Seq<TurnEnd>)
    ensures
        ({
            let l = RunLoop { turn: 0, max_turns, stopped: None };
            let t = run_turns(l, cancels, ends);
            &&& t.len() <= max_turns
            &&& forall|i: int| 0 <= i < t.len() ==> #[trigger] t[i] == i + 1
            &&& forall|i: int| 0 <= i < t.len() - 1 ==> #[trigger] ends[i] == TurnEnd::ToolCalls
            &&& t.len() < cancels.len() && t.len() < ends.len() && (t.len() == 0 || ends[t.len() - 1] == TurnEnd::ToolCalls)
                && cancels[t.len() as int] && t.len() < max_turns ==> run_final(l, cancels, ends).stopped == Some(TurnEnd::Aborted)
        }),
{
    lemma_run_turns(RunLoop { turn: 0, max_turns, stopped: None }, cancels, ends);
}

impl RunLoop {
    /// A run of at most `max_turns` turns.
    pub fn new(max_turns: u32) -> (r: RunLoop)
        ensures
            r.turn == 0,
            r.max_turns == max_turns,
            r.stopped is None,
    {
        RunLoop { turn: 0, max_turns, stopped: None }
    }

    /// The next turn to take, if any: none once a turn stopped the run, or
    /// the turn limit is reached, or the run was cancelled.
    pub fn next_turn(&mut self, cancelled: bool) -> (r: Option<u32>)
        ensures
            final(self).max_turns == old(self).max_turns,
            old(self).turn <= old(self).max_turns ==> final(self).turn <= final(self).max_turns,
            r matches Some(t) ==> 1 <= t <= final(self).max_turns && t == final(self).turn,
            (cancelled && old(self).stopped is None && old(self).turn < old(self).max_turns) ==> r is None && final(self).stopped == Some(TurnEnd::Aborted) && final(self).turn == old(self).turn,
            (!cancelled && old(self).stopped is None && old(self).turn < old(self).max_turns) ==> r == Some((old(self).turn + 1) as u32) && final(self).turn == old(self).turn + 1 && final(self).stopped is None,
            (old(self).stopped is Some || old(self).turn >= old(self).max_turns) ==> r is None && final(self).turn == old(self).turn && final(self).stopped == old(self).stopped,
            (*final(self), r) == next_turn_spec(*old(self), cancelled),
    {
        if self.stopped.is_some() || self.turn >= self.max_turns {
            return None;
        }
        if cancelled {
            self.stopped = Some(TurnEnd::Aborted);
            return None;
        }
        self.turn = self.turn + 1;
        Some(self.turn)
    }

    /// Records how a turn ended: every end but tool calls stops the run.
    pub fn record(&mut self, end: TurnEnd)
        ensures
            final(self).turn == old(self).turn,
            final(self).max_turns == old(self).max_turns,
            final(self).stopped == (if end == TurnEnd::ToolCalls { old(self).stopped } else { Some(end) }),
            *final(self) == record_spec(*old(self), end),
    {
        if end != TurnEnd::ToolCalls {
            self.stopped = Some(end);
        }
    }

    /// The run's stop reason: aborted when cancelled at the end; else the
    /// reason of the turn that stopped it; else complete (the turn limit
    /// was reached).
    pub fn stop_reason(&self, cancelled: bool) -> (r: String)
        ensures
            r@ == (if cancelled {
                "aborted"@
            } else {
                match self.stopped {
                    Some(TurnEnd::Aborted) => "aborted"@,
                    Some(TurnEnd::Failed) => "error"@,
                    Some(TurnEnd::ToolCalls) => "tool_calls"@,
                    _ => "completed"@,
                }
            }),
    {
        if cancelled {
            return "aborted".to_string();
        }
        match self.stopped {
            Some(e) => e.reason(),
            None => "completed".to_string(),
        }
    }
}

} // verus!
