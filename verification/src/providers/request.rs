//! The body of a Responses API request, built from a provider request.
use vstd::prelude::*;
use crate::json::{members_get, spec_as_bool, spec_as_str, spec_get, str_eq, Json};
use crate::protocol::{copy_string, LlmContentBlock, LlmMessage, ModelInfo, ThinkingLevel, ToolDefinition};
use crate::text::{chars_of, extend_str, string_of};

verus! {

/// What a provider is asked: the model, the system prompt, the transcript,
/// the tools offered, the reasoning effort and the working directory.
#[derive(Debug)]
pub struct ProviderRequest {
    pub model: ModelInfo,
    pub system_prompt: String,
    pub messages: Vec<LlmMessage>,
    pub tools: Vec<ToolDefinition>,
    pub thinking_level: ThinkingLevel,
    pub cwd: String,
}

/// Whether `j` is the string `s`.
pub open spec fn is_text(j: Json, s: Seq<char>) -> bool {
    j matches Json::Str(x) && x@ == s
}

/// Whether a member has the key `k` and the string value `s`.
pub open spec fn text_member(m: (String, Json), k: Seq<char>, s: Seq<char>) -> bool {
    m.0@ == k && is_text(m.1, s)
}

/// The request form of one content block.
pub open spec fn block_json(j: Json, b: LlmContentBlock) -> bool {
    match j {
        Json::Object(m) => match b {
            LlmContentBlock::Text { text } => m@.len() == 2 && text_member(m@[0], "type"@, "input_text"@)
                && text_member(m@[1], "text"@, text@),
            LlmContentBlock::Thinking { text } => m@.len() == 2 && text_member(m@[0], "type"@, "input_text"@)
                && text_member(m@[1], "text"@, "[reasoning]\n"@ + text@),
            LlmContentBlock::ToolCall { id, name, arguments } => m@.len() == 4 && text_member(m@[0], "type"@, "function_call"@)
                && text_member(m@[1], "id"@, id@) && text_member(m@[2], "name"@, name@)
                && text_member(m@[3], "arguments"@, arguments@),
            LlmContentBlock::ToolResult { tool_call_id, content, is_error } => m@.len() == 4
                && text_member(m@[0], "type"@, "tool_result"@) && text_member(m@[1], "tool_call_id"@, tool_call_id@)
                && text_member(m@[2], "content"@, content@) && m@[3].0@ == "is_error"@ && m@[3].1 == Json::Bool(is_error),
        },
        _ => false,
    }
}

/// The role a message has in the request: tool results go as the user's.
pub open spec fn request_role(role: Seq<char>) -> Seq<char> {
    if role == "tool"@ { "user"@ } else { role }
}

/// The request form of one message: its role and its blocks.
pub open spec fn item_json(j: Json, msg: LlmMessage) -> bool {
    j matches Json::Object(m) && m@.len() == 2 && text_member(m@[0], "role"@, request_role(msg.role@))
        && m@[1].0@ == "content"@ && (m@[1].1 matches Json::Array(bs) && bs@.len() == msg.content@.len()
        && forall|i: int| 0 <= i < bs@.len() ==> block_json(#[trigger] bs@[i], msg.content@[i]))
}

/// The input items of a transcript: every message but the system ones (the
/// system prompt goes as the instructions), in order.
pub open spec fn input_items(v: Seq<Json>, msgs: Seq<LlmMessage>) -> bool
    decreases msgs.len(),
{
    if msgs.len() == 0 {
        v.len() == 0
    } else if msgs.last().role@ == "system"@ {
        input_items(v, msgs.drop_last())
    } else {
        v.len() > 0 && item_json(v.last(), msgs.last()) && input_items(v.drop_last(), msgs.drop_last())
    }
}

fn text_json(s: &str) -> (j: Json)
    ensures
        is_text(j, s@),
{
    Json::Str(string_of(&chars_of(s)))
}

fn text_pair(k: &str, s: &str) -> (m: (String, Json))
    ensures
        text_member(m, k@, s@),
{
    (string_of(&chars_of(k)), text_json(s))
}

/// The request form of one content block.
fn block_to_json(b: &LlmContentBlock) -> (j: Json)
    ensures
        block_json(j, *b),
{
    let mut m: Vec<(String, Json)> = Vec::new();
    match b {
        LlmContentBlock::Text { text } => {
            m.push(text_pair("type", "input_text"));
            m.push(text_pair("text", text.as_str()));
        },
        LlmContentBlock::Thinking { text } => {
            m.push(text_pair("type", "input_text"));
            let mut t: Vec<char> = Vec::new();
            extend_str(&mut t, "[reasoning]\n");
            extend_str(&mut t, text.as_str());
            let ts = string_of(&t);
            m.push(text_pair("text", ts.as_str()));
        },
        LlmContentBlock::ToolCall { id, name, arguments } => {
            m.push(text_pair("type", "function_call"));
            m.push(text_pair("id", id.as_str()));
            m.push(text_pair("name", name.as_str()));
            m.push(text_pair("arguments", arguments.as_str()));
        },
        LlmContentBlock::ToolResult { tool_call_id, content, is_error } => {
            m.push(text_pair("type", "tool_result"));
            m.push(text_pair("tool_call_id", tool_call_id.as_str()));
            m.push(text_pair("content", content.as_str()));
            m.push((string_of(&chars_of("is_error")), Json::Bool(*is_error)));
        },
    }
    Json::Object(m)
}

/// The request form of one message.
fn message_to_item(msg: &LlmMessage) -> (j: Json)
    ensures
        item_json(j, *msg),
{
    let mut blocks: Vec<Json> = Vec::new();
    let mut i: usize = 0;
    while i < msg.content.len()
        invariant
            i <= msg.content@.len(),
            blocks@.len() == i,
            forall|k: int| 0 <= k < i ==> block_json(#[trigger] blocks@[k], msg.content@[k]),
        decreases msg.content@.len() - i,
    {
        blocks.push(block_to_json(&msg.content[i]));
        i += 1;
    }
    let role = if str_eq(msg.role.as_str(), "tool") {
        text_json("user")
    } else {
        text_json(msg.role.as_str())
    };
    let mut m: Vec<(String, Json)> = Vec::new();
    m.push((string_of(&chars_of("role")), role));
    m.push((string_of(&chars_of("content")), Json::Array(blocks)));
    Json::Object(m)
}

/// The input items of a transcript.
pub fn build_input_items(messages: &[LlmMessage]) -> (r: Vec<Json>)
    ensures
        input_items(r@, messages@),
{
    let mut items: Vec<Json> = Vec::new();
    let mut i: usize = 0;
    while i < messages.len()
        invariant
            i <= messages@.len(),
            input_items(items@, messages@.take(i as int)),
        decreases messages@.len() - i,
    {
        let ghost before = items@;
        assert(messages@.take(i + 1).drop_last() =~= messages@.take(i as int));
        assert(messages@.take(i + 1).last() == messages@[i as int]);
        if !str_eq(messages[i].role.as_str(), "system") {
            items.push(message_to_item(&messages[i]));
            assert(items@.drop_last() =~= before);
        }
        i += 1;
    }
    assert(messages@.take(messages@.len() as int) =~= messages@);
    items
}

/// The request form of a tool: a function with its schema as parameters.
pub open spec fn tool_json(j: Json, t: ToolDefinition) -> bool {
    j matches Json::Object(m) && m@.len() == 4 && text_member(m@[0], "type"@, "function"@)
        && text_member(m@[1], "name"@, t.name@) && text_member(m@[2], "description"@, t.description@)
        && m@[3].0@ == "parameters"@ && m@[3].1 == t.input_schema
}

/// The reasoning effort of a thinking level.
pub open spec fn effort(l: ThinkingLevel) -> Seq<char> {
    match l {
        ThinkingLevel::Low => "low"@,
        ThinkingLevel::Medium => "medium"@,
        ThinkingLevel::High => "high"@,
    }
}

/// The keys of a request body, in order: the model; the instructions when
/// there is a system prompt; the input; the tools when there are any;
/// streaming; the reasoning effort when the model reasons.
pub open spec fn body_keys(req: ProviderRequest) -> Seq<Seq<char>> {
    seq!["model"@] + (if req.system_prompt@.len() > 0 { seq!["instructions"@] } else { Seq::empty() }) + seq!["input"@]
        + (if req.tools@.len() > 0 { seq!["tools"@] } else { Seq::empty() }) + seq!["stream"@]
        + (if req.model.supports_reasoning { seq!["reasoning"@] } else { Seq::empty() })
}

pub open spec fn object_keys(j: Json) -> Seq<Seq<char>> {
    match j {
        Json::Object(m) => m@.map_values(|x: (String, Json)| x.0@),
        _ => Seq::empty(),
    }
}

/// What the body holds under each of its keys.
pub open spec fn body_values(j: Json, req: ProviderRequest) -> bool {
    &&& spec_as_str(spec_get(j, "model"@)) == Some(req.model.id@)
    &&& req.system_prompt@.len() > 0 ==> spec_as_str(spec_get(j, "instructions"@)) == Some(req.system_prompt@)
    &&& spec_get(j, "input"@) matches Some(Json::Array(v)) && input_items(v@, req.messages@)
    &&& req.tools@.len() > 0 ==> (spec_get(j, "tools"@) matches Some(Json::Array(v)) && v@.len() == req.tools@.len()
        && forall|i: int| 0 <= i < v@.len() ==> tool_json(#[trigger] v@[i], req.tools@[i]))
    &&& spec_as_bool(spec_get(j, "stream"@)) == Some(true)
    &&& req.model.supports_reasoning ==> (spec_get(j, "reasoning"@) matches Some(Json::Object(e)) && e@.len() == 1
        && text_member(e@[0], "effort"@, effort(req.thinking_level)))
}

proof fn lemma_keys_differ()
    ensures
        "model"@ != "instructions"@,
        "model"@ != "input"@,
        "model"@ != "tools"@,
        "model"@ != "stream"@,
        "model"@ != "reasoning"@,
        "instructions"@ != "input"@,
        "instructions"@ != "tools"@,
        "instructions"@ != "stream"@,
        "instructions"@ != "reasoning"@,
        "input"@ != "tools"@,
        "input"@ != "stream"@,
        "input"@ != "reasoning"@,
        "tools"@ != "stream"@,
        "tools"@ != "reasoning"@,
        "stream"@ != "reasoning"@,
{
    reveal_strlit("model");
    reveal_strlit("instructions");
    reveal_strlit("input");
    reveal_strlit("tools");
    reveal_strlit("stream");
    reveal_strlit("reasoning");
    assert("model"@[0] != "input"@[0]);
    assert("model"@[0] != "tools"@[0]);
    assert("input"@[0] != "tools"@[0]);
    assert("model"@.len() == 5 && "input"@.len() == 5 && "tools"@.len() == 5);
    assert("instructions"@.len() == 12 && "stream"@.len() == 6 && "reasoning"@.len() == 9);
}

/// Each key of a body built in the order of `body_keys` finds its member.
proof fn lemma_body_lookups(m: Seq<(String, Json)>, req: ProviderRequest)
    requires
        m.map_values(|x: (String, Json)| x.0@) == body_keys(req),
    ensures
        forall|k: int| 0 <= k < m.len() ==> members_get(m, (#[trigger] m[k]).0@) == Some(m[k].1),
        !body_keys(req).contains("instructions"@) ==> members_get(m, "instructions"@) is None,
        !body_keys(req).contains("tools"@) ==> members_get(m, "tools"@) is None,
        !body_keys(req).contains("reasoning"@) ==> members_get(m, "reasoning"@) is None,
{
    lemma_keys_differ();
    let keys = body_keys(req);
    assert(m.len() == keys.len());
    assert forall|k: int| 0 <= k < m.len() implies members_get(m, (#[trigger] m[k]).0@) == Some(m[k].1) by {
        assert forall|j: int| 0 <= j < k implies (#[trigger] m[j]).0@ != m[k].0@ by {
            assert(m[j].0@ == keys[j] && m[k].0@ == keys[k]);
        }
        crate::json::lemma_members_get_at(m, k, m[k].0@);
    }
    assert forall|key: Seq<char>| !keys.contains(key) implies members_get(m, key) is None by {
        assert forall|j: int| 0 <= j < m.len() implies (#[trigger] m[j]).0@ != key by {
            assert(m[j].0@ == keys[j]);
        }
        crate::json::lemma_members_get_none(m, key);
    }
}

/// The tools of a request in request form.
fn tools_to_json(tools: Vec<ToolDefinition>) -> (r: Vec<Json>)
    ensures
        r@.len() == tools@.len(),
        forall|i: int| 0 <= i < r@.len() ==> tool_json(#[trigger] r@[i], tools@[i]),
{
    let ghost tv = tools@;
    let mut rest = tools;
    let mut out: Vec<Json> = Vec::new();
    while rest.len() > 0
        invariant
            out@.len() + rest@.len() == tv.len(),
            rest@ == tv.skip(out@.len() as int),
            forall|i: int| 0 <= i < out@.len() ==> tool_json(#[trigger] out@[i], tv[i]),
        decreases rest.len(),
    {
        let ghost k = out@.len() as int;
        let ghost before = rest@;
        let t = rest.remove(0);
        assert(t == tv[k]) by {
            assert(before[0] == tv.skip(k)[0]);
        }
        assert(rest@ =~= tv.skip(k + 1));
        let mut m: Vec<(String, Json)> = Vec::new();
        m.push(text_pair("type", "function"));
        m.push(text_pair("name", t.name.as_str()));
        m.push(text_pair("description", t.description.as_str()));
        m.push((string_of(&chars_of("parameters")), t.input_schema));
        out.push(Json::Object(m));
    }
    out
}

/// The body of a streaming Responses API request.
pub fn build_request_body(request: ProviderRequest) -> (r: Json)
    ensures
        object_keys(r) == body_keys(request),
        body_values(r, request),
{
    let ghost req = request;
    let ProviderRequest { model, system_prompt, messages, tools, thinking_level, cwd: _ } = request;
    let mut body: Vec<(String, Json)> = Vec::new();
    body.push(text_pair("model", model.id.as_str()));
    let has_prompt = chars_of(system_prompt.as_str()).len() > 0;
    let ghost i_instr = body@.len() as int;
    if has_prompt {
        body.push(text_pair("instructions", system_prompt.as_str()));
    }
    let ghost i_input = body@.len() as int;
    let items = build_input_items(messages.as_slice());
    body.push((string_of(&chars_of("input")), Json::Array(items)));
    let has_tools = tools.len() > 0;
    let ghost i_tools = body@.len() as int;
    if has_tools {
        let t = tools_to_json(tools);
        body.push((string_of(&chars_of("tools")), Json::Array(t)));
    }
    let ghost i_stream = body@.len() as int;
    body.push((string_of(&chars_of("stream")), Json::Bool(true)));
    let ghost i_reason = body@.len() as int;
    if model.supports_reasoning {
        let e = match thinking_level {
            ThinkingLevel::Low => "low",
            ThinkingLevel::Medium => "medium",
            ThinkingLevel::High => "high",
        };
        let mut em: Vec<(String, Json)> = Vec::new();
        em.push(text_pair("effort", e));
        body.push((string_of(&chars_of("reasoning")), Json::Object(em)));
    }
    let ghost bm = body@;
    let r = Json::Object(body);
    proof {
        reveal_strlit("model");
        reveal_strlit("instructions");
        reveal_strlit("input");
        reveal_strlit("tools");
        reveal_strlit("stream");
        reveal_strlit("reasoning");
        assert(object_keys(r) =~= body_keys(req));
        lemma_body_lookups(bm, req);
        assert(members_get(bm, bm[0].0@) == Some(bm[0].1));
        if has_prompt {
            assert(members_get(bm, bm[i_instr].0@) == Some(bm[i_instr].1));
        }
        assert(members_get(bm, bm[i_input].0@) == Some(bm[i_input].1));
        if has_tools {
            assert(members_get(bm, bm[i_tools].0@) == Some(bm[i_tools].1));
        }
        assert(members_get(bm, bm[i_stream].0@) == Some(bm[i_stream].1));
        if req.model.supports_reasoning {
            assert(members_get(bm, bm[i_reason].0@) == Some(bm[i_reason].1));
        }
    }
    r
}

} // verus!
