//! Provider errors, retry policy, the scripted provider, provider
//! registration, and reading the Responses API event stream.
use vstd::prelude::*;
use crate::auth::{opt_view, ProviderAuthConfig};
use crate::json::{get_str, get_u64, json_get, spec_as_str, spec_as_u64, spec_get, str_eq, Json};
use crate::protocol::{copy_string, event_view, event_views, EventView, ProviderEvent};
use crate::tools::hashline::parse::trimmed_slice;
use crate::text::{decimal, extend_str, push_decimal, string_of, trim};

pub mod request;

verus! {

// ---------------------------------------------------------------------------
// Errors
// ---------------------------------------------------------------------------

/// What can go wrong with a provider. The failure of an outside operation
/// carries its message.
#[derive(Debug)]
pub enum ProviderError {
    NotFound(String),
    ApiKeyMissing(String),
    RequestFailed { message: String, source: Option<String> },
    StreamEnded,
    Cancelled,
    Io(String),
}

impl ProviderError {
    /// A failed request with the given message and no underlying error.
    pub fn request_failed(message: String) -> (r: ProviderError)
        ensures
            r matches ProviderError::RequestFailed { message: m, source: s } && m == message && s is None,
    {
        ProviderError::RequestFailed { message, source: None }
    }

    /// The text that describes the error.
    pub fn message(&self) -> (r: String)
        ensures
            match self {
                ProviderError::NotFound(n) => r@ == "Provider not found: "@ + n@,
                ProviderError::ApiKeyMissing(n) => r@ == "API key not configured for provider `"@ + n@ + "`"@,
                ProviderError::RequestFailed { message, source: _ } => r@ == "Request failed: "@ + message@,
                ProviderError::StreamEnded => r@ == "Stream ended unexpectedly"@,
                ProviderError::Cancelled => r@ == "Request was cancelled"@,
                ProviderError::Io(m) => r@ == m@,
            },
    {
        let mut v: Vec<char> = Vec::new();
        match self {
            ProviderError::NotFound(n) => {
                extend_str(&mut v, "Provider not found: ");
                extend_str(&mut v, n.as_str());
            },
            ProviderError::ApiKeyMissing(n) => {
                extend_str(&mut v, "API key not configured for provider `");
                extend_str(&mut v, n.as_str());
                extend_str(&mut v, "`");
            },
            ProviderError::RequestFailed { message, source: _ } => {
                extend_str(&mut v, "Request failed: ");
                extend_str(&mut v, message.as_str());
            },
            ProviderError::StreamEnded => {
                extend_str(&mut v, "Stream ended unexpectedly");
            },
            ProviderError::Cancelled => {
                extend_str(&mut v, "Request was cancelled");
            },
            ProviderError::Io(m) => {
                extend_str(&mut v, m.as_str());
            },
        }
        string_of(&v)
    }
}

// ---------------------------------------------------------------------------
// Retries
// ---------------------------------------------------------------------------

/// Attempts made per provider request.
pub const MAX_REQUEST_ATTEMPTS: usize = 5;

/// The exponential backoff after attempt `attempt`, in milliseconds: a
/// quarter second after the first attempt, doubling after each further
/// one.
pub open spec fn backoff(attempt: nat) -> nat
    decreases attempt,
{
    if attempt <= 1 {
        250
    } else {
        2 * backoff((attempt - 1) as nat)
    }
}

proof fn lemma_backoff_grows(a: nat, b: nat)
    requires
        a <= b,
    ensures
        backoff(a) <= backoff(b),
    decreases b,
{
    if a < b {
        lemma_backoff_grows(a, (b - 1) as nat);
    }
}

/// The wait before retrying after attempt `attempt`, in milliseconds.
pub fn retry_delay(attempt: usize) -> (ms: u64)
    requires
        backoff(attempt as nat) <= u64::MAX,
    ensures
        ms == backoff(attempt as nat),
{
    let mut ms: u64 = 250;
    let mut k: usize = 1;
    while k < attempt
        invariant
            1 <= k <= attempt || (k == 1 && attempt <= 1),
            ms == backoff(k as nat),
            backoff(attempt as nat) <= u64::MAX,
        decreases attempt - k,
    {
        proof {
            lemma_backoff_grows((k + 1) as nat, attempt as nat);
        }
        ms = ms * 2;
        k += 1;
    }
    ms
}

/// Each retry waits twice as long as the one before it.
pub proof fn law_backoff_doubles(attempt: nat)
    requires
        attempt >= 1,
    ensures
        backoff(attempt + 1) == 2 * backoff(attempt),
        backoff(1) == 250,
{
}

/// A request's last error, with how many of the attempts were made.
pub open spec fn attempts_text(message: Seq<char>, attempts: nat) -> Seq<char> {
    message + " (after "@ + decimal(attempts) + "/"@ + decimal(MAX_REQUEST_ATTEMPTS as nat) + " attempts)"@
}

/// Appends the count of attempts to a request's last error.
pub fn with_attempts(message: String, attempts: usize) -> (r: String)
    ensures
        r@ == attempts_text(message@, attempts as nat),
{
    let mut v: Vec<char> = Vec::new();
    extend_str(&mut v, message.as_str());
    extend_str(&mut v, " (after ");
    push_decimal(&mut v, attempts);
    extend_str(&mut v, "/");
    push_decimal(&mut v, MAX_REQUEST_ATTEMPTS);
    extend_str(&mut v, " attempts)");
    string_of(&v)
}

/// Whether an HTTP status is worth another attempt: rate limiting or a
/// server error.
pub fn retryable_status(status: u16) -> (r: bool)
    ensures
        r == (status == 429 || (500 <= status && status <= 599)),
{
    status == 429 || (500 <= status && status <= 599)
}

/// What to do after an attempt fails: give up (with the final message) or
/// wait and try again.
pub fn after_failed_attempt(retryable: bool, attempt: usize) -> (give_up: bool)
    ensures
        give_up == (!retryable || attempt == MAX_REQUEST_ATTEMPTS),
{
    !retryable || attempt == MAX_REQUEST_ATTEMPTS
}

// ---------------------------------------------------------------------------
// Providers
// ---------------------------------------------------------------------------

/// A provider for tests: it plays back a script of events, or answers with
/// one line of text.
#[derive(Debug)]
pub struct FakeProvider {
    pub script: Option<Vec<ProviderEvent>>,
}

impl FakeProvider {
    /// A provider without a script.
    pub fn new() -> (r: FakeProvider)
        ensures
            r.script is None,
    {
        FakeProvider { script: None }
    }

    /// A provider that plays back the given events in order.
    pub fn scripted(events: Vec<ProviderEvent>) -> (r: FakeProvider)
        ensures
            r.script == Some(events),
    {
        FakeProvider { script: Some(events) }
    }

    /// The events a request receives: the script, or a text reply and the
    /// end of the turn.
    pub fn events(self) -> (r: Vec<ProviderEvent>)
        ensures
            match self.script {
                Some(s) => r@ == s@,
                None => r@.len() == 2 && (r@[0] matches ProviderEvent::TextDelta { text } && text@ == "Fake provider response."@)
                    && r@[1] is Completed,
            },
    {
        match self.script {
            Some(s) => s,
            None => {
                let mut v: Vec<ProviderEvent> = Vec::new();
                v.push(ProviderEvent::TextDelta { text: "Fake provider response.".to_string() });
                v.push(ProviderEvent::Completed);
                v
            },
        }
    }
}

/// The DeepSeek Chat Completions endpoint.
#[derive(Debug)]
pub struct DeepSeekCompatProvider {
    pub api_key: Option<String>,
    pub base_url: String,
}

/// The endpoint used unless the environment names another.
pub open spec fn deepseek_default_url() -> Seq<char> {
    "https://api.deepseek.com/chat/completions"@
}

impl DeepSeekCompatProvider {
    /// A provider with the key and endpoint override read from the
    /// environment.
    pub fn with_env(api_key: Option<String>, base_url_env: Option<String>) -> (r: DeepSeekCompatProvider)
        ensures
            r.api_key == api_key,
            r.base_url@ == (match base_url_env {
                Some(u) => u@,
                None => deepseek_default_url(),
            }),
    {
        let base_url = match base_url_env {
            Some(u) => u,
            None => "https://api.deepseek.com/chat/completions".to_string(),
        };
        DeepSeekCompatProvider { api_key, base_url }
    }

    /// Whether a key is configured.
    pub fn is_configured(&self) -> (r: bool)
        ensures
            r == self.api_key is Some,
    {
        self.api_key.is_some()
    }
}

/// The endpoint of a custom provider without a configured one.
pub open spec fn custom_url(name: Seq<char>) -> Seq<char> {
    "https://api."@ + name + ".com/v1/chat/completions"@
}

/// The endpoint of a custom provider.
pub fn custom_base_url(name: &str, auth: &ProviderAuthConfig) -> (r: String)
    ensures
        r@ == (match auth.base_url {
            Some(u) => u@,
            None => custom_url(name@),
        }),
{
    match &auth.base_url {
        Some(u) => copy_string(u),
        None => {
            let mut v: Vec<char> = Vec::new();
            extend_str(&mut v, "https://api.");
            extend_str(&mut v, name);
            extend_str(&mut v, ".com/v1/chat/completions");
            string_of(&v)
        },
    }
}

/// Whether a name is among the registered ones.
pub open spec fn registered_in(names: Seq<Seq<char>>, n: Seq<char>) -> bool {
    exists|i: int| 0 <= i < names.len() && names[i] == n
}

pub open spec fn string_seq_views(v: Seq<String>) -> Seq<Seq<char>> {
    v.map_values(|s: String| s@)
}

fn is_registered(names: &Vec<String>, n: &str) -> (r: bool)
    ensures
        r == registered_in(string_seq_views(names@), n@),
{
    let ghost nv = string_seq_views(names@);
    let mut i: usize = 0;
    while i < names.len()
        invariant
            i <= names.len(),
            nv == string_seq_views(names@),
            forall|j: int| 0 <= j < i ==> nv[j] != n@,
        decreases names.len() - i,
    {
        if str_eq(names[i].as_str(), n) {
            assert(nv[i as int] == n@);
            return true;
        }
        i += 1;
    }
    false
}

/// The custom providers to register from configuration entries, in order:
/// each entry whose name is not yet registered (and, for the main
/// configuration file, is not one of the built-in `openai` and `fake`),
/// with its endpoint. A name registered once is not registered again.
pub open spec fn registration_plan(entries: Seq<(String, ProviderAuthConfig)>, skip_builtins: bool, registered: Seq<Seq<char>>) -> Seq<(Seq<char>, Seq<char>)>
    decreases entries.len(),
{
    if entries.len() == 0 {
        Seq::empty()
    } else {
        let prev = registration_plan(entries.drop_last(), skip_builtins, registered);
        let n = entries.last().0@;
        if (skip_builtins && (n == "openai"@ || n == "fake"@)) || registered_in(registered + plan_names(prev), n) {
            prev
        } else {
            prev.push((n, endpoint_of(n, entries.last().1)))
        }
    }
}

/// The endpoint of a custom provider: the configured one, or the
/// conventional URL of its name.
pub open spec fn endpoint_of(name: Seq<char>, auth: ProviderAuthConfig) -> Seq<char> {
    match auth.base_url {
        Some(u) => u@,
        None => custom_url(name),
    }
}

pub open spec fn plan_names(p: Seq<(Seq<char>, Seq<char>)>) -> Seq<Seq<char>> {
    p.map_values(|x: (Seq<char>, Seq<char>)| x.0)
}

pub open spec fn pair_views(v: Seq<(String, String)>) -> Seq<(Seq<char>, Seq<char>)> {
    v.map_values(|p: (String, String)| (p.0@, p.1@))
}

/// The providers to register from configuration entries, with their
/// endpoints.
pub fn custom_registrations(entries: &Vec<(String, ProviderAuthConfig)>, skip_builtins: bool, registered: &Vec<String>) -> (r: Vec<(String, String)>)
    ensures
        pair_views(r@) == registration_plan(entries@, skip_builtins, string_seq_views(registered@)),
{
    proof {
        reveal_strlit("openai");
        reveal_strlit("fake");
    }
    let mut out: Vec<(String, String)> = Vec::new();
    let mut names: Vec<String> = Vec::new();
    let mut k: usize = 0;
    while k < registered.len()
        invariant
            k <= registered.len(),
            string_seq_views(names@) == string_seq_views(registered@).take(k as int),
        decreases registered.len() - k,
    {
        let ghost before = names@;
        names.push(copy_string(&registered[k]));
        assert(string_seq_views(names@) =~= string_seq_views(registered@).take(k + 1)) by {
            assert(string_seq_views(names@) =~= string_seq_views(before).push(registered@[k as int]@));
        }
        k += 1;
    }
    assert(string_seq_views(registered@).take(registered.len() as int) =~= string_seq_views(registered@));
    let ghost reg = string_seq_views(registered@);
    let mut i: usize = 0;
    assert(pair_views(out@) =~= Seq::<(Seq<char>, Seq<char>)>::empty());
    assert(plan_names(Seq::<(Seq<char>, Seq<char>)>::empty()) =~= Seq::<Seq<char>>::empty());
    assert(reg + Seq::<Seq<char>>::empty() =~= reg);
    while i < entries.len()
        invariant
            i <= entries.len(),
            reg == string_seq_views(registered@),
            pair_views(out@) == registration_plan(entries@.take(i as int), skip_builtins, reg),
            string_seq_views(names@) == reg + plan_names(registration_plan(entries@.take(i as int), skip_builtins, reg)),
        decreases entries.len() - i,
    {
        let ghost prev = registration_plan(entries@.take(i as int), skip_builtins, reg);
        assert(entries@.take(i + 1).drop_last() =~= entries@.take(i as int));
        assert(entries@.take(i + 1).last() == entries@[i as int]);
        let name = entries[i].0.as_str();
        let builtin = str_eq(name, "openai") || str_eq(name, "fake");
        if (skip_builtins && builtin) || is_registered(&names, name) {
        } else {
            let url = custom_base_url(name, &entries[i].1);
            let ghost before_out = out@;
            let ghost before_names = names@;
            let ghost pair = (name@, url@);
            out.push((copy_string(&entries[i].0), url));
            names.push(copy_string(&entries[i].0));
            assert(pair_views(out@) =~= pair_views(before_out).push(pair));
            assert(string_seq_views(names@) =~= string_seq_views(before_names).push(name@));
            assert(plan_names(prev.push(pair)) =~= plan_names(prev).push(name@));
            assert(reg + plan_names(prev).push(name@) =~= (reg + plan_names(prev)).push(name@));
        }
        i += 1;
    }
    assert(entries@.take(entries.len() as int) =~= entries@);
    out
}

// ---------------------------------------------------------------------------
// The Responses API event stream
// ---------------------------------------------------------------------------

pub open spec fn str_or_empty(o: Option<Seq<char>>) -> Seq<char> {
    match o {
        Some(s) => s,
        None => Seq::empty(),
    }
}

pub open spec fn one_of(t: Seq<char>, a: Seq<char>, b: Seq<char>) -> bool {
    t == a || t == b
}

/// A non-empty text as one event, or none.
pub open spec fn text_event(d: Option<Seq<char>>, thinking: bool) -> Seq<EventView> {
    match d {
        Some(x) => if x.len() > 0 {
            seq![if thinking { EventView::ThinkingDelta(x) } else { EventView::TextDelta(x) }]
        } else {
            Seq::empty()
        },
        None => Seq::empty(),
    }
}

pub open spec fn is_function_call(data: Json) -> bool {
    spec_as_str(spec_get(data, "type"@)) == Some("function_call"@)
}

/// A token count as the stream reports it, cut to 32 bits.
pub open spec fn token_count(usage: Json, key: Seq<char>) -> u32 {
    (match spec_as_u64(spec_get(usage, key)) {
        Some(n) => n,
        None => 0u64,
    }) as u32
}

/// The message of a failure event.
pub open spec fn failure_message(data: Json) -> Seq<char> {
    match spec_as_str(spec_get(data, "message"@)) {
        Some(m) => m,
        None => match spec_get(data, "error"@) {
            Some(e) => match spec_as_str(spec_get(e, "message"@)) {
                Some(m) => m,
                None => "provider returned error"@,
            },
            None => "provider returned error"@,
        },
    }
}

/// Events of text, reasoning and tool-call types.
pub open spec fn dispatch_deltas(t: Seq<char>, data: Json) -> Option<Seq<EventView>> {
    if one_of(t, "response.output_text.delta"@, "output_text.delta"@) {
        Some(text_event(spec_as_str(spec_get(data, "delta"@)), false))
    } else if one_of(t, "response.reasoning_text.delta"@, "reasoning_text.delta"@) {
        Some(text_event(spec_as_str(spec_get(data, "delta"@)), true))
    } else if one_of(t, "response.reasoning_text.done"@, "reasoning_text.done"@) {
        Some(seq![EventView::ThinkingEnd])
    } else {
        None
    }
}

pub open spec fn call_started(data: Json) -> Seq<EventView> {
    let id = str_or_empty(spec_as_str(spec_get(data, "id"@)));
    let name = str_or_empty(spec_as_str(spec_get(data, "name"@)));
    if is_function_call(data) && id.len() > 0 && name.len() > 0 {
        seq![EventView::ToolCallStarted(id, name)]
    } else {
        Seq::empty()
    }
}

pub open spec fn call_arguments(data: Json) -> Seq<EventView> {
    let id = str_or_empty(spec_as_str(spec_get(data, "item_id"@)));
    let delta = str_or_empty(spec_as_str(spec_get(data, "delta"@)));
    if id.len() > 0 && delta.len() > 0 {
        seq![EventView::ToolCallArgumentsDelta(id, delta)]
    } else {
        Seq::empty()
    }
}

pub open spec fn call_done(data: Json, key: Seq<char>, need_call: bool) -> Seq<EventView> {
    let id = str_or_empty(spec_as_str(spec_get(data, key)));
    if (!need_call || is_function_call(data)) && id.len() > 0 {
        seq![EventView::ToolCallCompleted(id)]
    } else {
        Seq::empty()
    }
}

/// Events of the tool-call types.
pub open spec fn dispatch_calls(t: Seq<char>, data: Json) -> Option<Seq<EventView>> {
    if one_of(t, "response.output_item.added"@, "output_item.added"@) {
        Some(call_started(data))
    } else if one_of(t, "response.function_call_arguments.delta"@, "function_call_arguments.delta"@) {
        Some(call_arguments(data))
    } else if one_of(t, "response.function_call_arguments.done"@, "function_call_arguments.done"@) {
        Some(call_done(data, "item_id"@, false))
    } else if one_of(t, "response.output_item.done"@, "output_item.done"@) {
        Some(call_done(data, "id"@, true))
    } else {
        None
    }
}

pub open spec fn completion(data: Json) -> Seq<EventView> {
    match spec_get(data, "response"@) {
        Some(r) => match spec_get(r, "usage"@) {
            Some(u) => seq![EventView::Usage(token_count(u, "input_tokens"@), token_count(u, "output_tokens"@)), EventView::Completed],
            None => seq![EventView::Completed],
        },
        None => seq![EventView::Completed],
    }
}

/// Answer text and reasoning are told apart: an output-text delta with a
/// non-empty piece `d` gives exactly one text event carrying `d`, and a
/// reasoning-text delta exactly one reasoning event carrying `d`; an empty
/// or missing piece gives no event at all.
pub proof fn law_stream_deltas(data: Json, d: Seq<char>)
    ensures
        spec_as_str(spec_get(data, "delta"@)) == Some(d) && d.len() > 0 ==> {
            &&& dispatch_spec("response.output_text.delta"@, data) == seq![EventView::TextDelta(d)]
            &&& dispatch_spec("output_text.delta"@, data) == seq![EventView::TextDelta(d)]
            &&& dispatch_spec("response.reasoning_text.delta"@, data) == seq![EventView::ThinkingDelta(d)]
            &&& dispatch_spec("reasoning_text.delta"@, data) == seq![EventView::ThinkingDelta(d)]
        },
        (spec_as_str(spec_get(data, "delta"@)) is None || spec_as_str(spec_get(data, "delta"@)) == Some(Seq::<char>::empty())) ==> {
            &&& dispatch_spec("response.output_text.delta"@, data).len() == 0
            &&& dispatch_spec("response.reasoning_text.delta"@, data).len() == 0
        },
{
    reveal_strlit("response.output_text.delta");
    reveal_strlit("output_text.delta");
    reveal_strlit("response.reasoning_text.delta");
    reveal_strlit("reasoning_text.delta");
    assert("response.reasoning_text.delta"@ != "response.output_text.delta"@) by {
        assert("response.reasoning_text.delta"@[9] != "response.output_text.delta"@[9]);
    }
    assert("response.reasoning_text.delta"@ != "output_text.delta"@) by {
        assert("response.reasoning_text.delta"@.len() != "output_text.delta"@.len());
    }
    assert("reasoning_text.delta"@ != "response.output_text.delta"@) by {
        assert("reasoning_text.delta"@.len() != "response.output_text.delta"@.len());
    }
    assert("reasoning_text.delta"@ != "output_text.delta"@) by {
        assert("reasoning_text.delta"@[0] != "output_text.delta"@[0]);
    }
}

pub open spec fn is_failure(t: Seq<char>) -> bool {
    t == "response.failed"@ || t == "failed"@ || t == "response.incomplete"@ || t == "incomplete"@ || t == "error"@
}

/// The events that one stream event of the given type carries.
pub open spec fn dispatch_spec(t: Seq<char>, data: Json) -> Seq<EventView> {
    match dispatch_deltas(t, data) {
        Some(e) => e,
        None => match dispatch_calls(t, data) {
            Some(e) => e,
            None => if one_of(t, "response.completed"@, "completed"@) {
                completion(data)
            } else if is_failure(t) {
                seq![EventView::Error(failure_message(data))]
            } else {
                Seq::empty()
            },
        },
    }
}

fn owned(s: &str) -> (r: String)
    ensures
        r@ == s@,
{
    string_of(&crate::text::chars_of(s))
}

fn str_or_empty_exec<'a>(o: Option<&'a str>) -> (r: &'a str)
    ensures
        r@ == str_or_empty(match o { Some(s) => Some(s@), None => None }),
{
    match o {
        Some(s) => s,
        None => {
            proof {
                reveal_strlit("");
            }
            ""
        },
    }
}

fn is_one_of(t: &str, a: &str, b: &str) -> (r: bool)
    ensures
        r == one_of(t@, a@, b@),
{
    str_eq(t, a) || str_eq(t, b)
}

fn function_call(data: &Json) -> (r: bool)
    ensures
        r == is_function_call(*data),
{
    proof {
        reveal_strlit("function_call");
    }
    match get_str(data, "type") {
        Some(t) => str_eq(t, "function_call"),
        None => false,
    }
}

fn tokens(usage: &Json, key: &str) -> (r: u32)
    ensures
        r == token_count(*usage, key@),
{
    let n: u64 = match get_u64(usage, key) {
        Some(n) => n,
        None => 0,
    };
    n as u32
}

fn failure_text(data: &Json) -> (r: String)
    ensures
        r@ == failure_message(*data),
{
    match get_str(data, "message") {
        Some(m) => owned(m),
        None => match json_get(data, "error") {
            Some(e) => match get_str(e, "message") {
                Some(m) => owned(m),
                None => "provider returned error".to_string(),
            },
            None => "provider returned error".to_string(),
        },
    }
}

fn one_event(e: ProviderEvent) -> (r: Vec<ProviderEvent>)
    ensures
        event_views(r@) == seq![event_view(e)],
{
    let mut v: Vec<ProviderEvent> = Vec::new();
    v.push(e);
    assert(event_views(v@) =~= seq![event_view(e)]);
    v
}

fn no_events() -> (r: Vec<ProviderEvent>)
    ensures
        event_views(r@) == Seq::<EventView>::empty(),
{
    let v: Vec<ProviderEvent> = Vec::new();
    assert(event_views(v@) =~= Seq::<EventView>::empty());
    v
}

fn text_events(d: Option<&str>, thinking: bool) -> (r: Vec<ProviderEvent>)
    ensures
        event_views(r@) == text_event(match d { Some(s) => Some(s@), None => None }, thinking),
{
    match d {
        Some(x) => {
            if x.unicode_len() > 0 {
                if thinking {
                    one_event(ProviderEvent::ThinkingDelta { text: owned(x) })
                } else {
                    one_event(ProviderEvent::TextDelta { text: owned(x) })
                }
            } else {
                no_events()
            }
        },
        None => no_events(),
    }
}

fn deltas_exec(t: &str, data: &Json) -> (r: Option<Vec<ProviderEvent>>)
    ensures
        match dispatch_deltas(t@, *data) {
            Some(e) => r matches Some(v) && event_views(v@) == e,
            None => r is None,
        },
{
    proof {
        reveal_strlit("response.output_text.delta");
        reveal_strlit("output_text.delta");
        reveal_strlit("response.reasoning_text.delta");
        reveal_strlit("reasoning_text.delta");
        reveal_strlit("response.reasoning_text.done");
        reveal_strlit("reasoning_text.done");
    }
    if is_one_of(t, "response.output_text.delta", "output_text.delta") {
        Some(text_events(get_str(data, "delta"), false))
    } else if is_one_of(t, "response.reasoning_text.delta", "reasoning_text.delta") {
        Some(text_events(get_str(data, "delta"), true))
    } else if is_one_of(t, "response.reasoning_text.done", "reasoning_text.done") {
        Some(one_event(ProviderEvent::ThinkingEnd))
    } else {
        None
    }
}

fn call_started_exec(data: &Json) -> (r: Vec<ProviderEvent>)
    ensures
        event_views(r@) == call_started(*data),
{
    let id = str_or_empty_exec(get_str(data, "id"));
    let name = str_or_empty_exec(get_str(data, "name"));
    if function_call(data) && id.unicode_len() > 0 && name.unicode_len() > 0 {
        one_event(ProviderEvent::ToolCallStarted { id: owned(id), name: owned(name) })
    } else {
        no_events()
    }
}

fn call_arguments_exec(data: &Json) -> (r: Vec<ProviderEvent>)
    ensures
        event_views(r@) == call_arguments(*data),
{
    let id = str_or_empty_exec(get_str(data, "item_id"));
    let delta = str_or_empty_exec(get_str(data, "delta"));
    if id.unicode_len() > 0 && delta.unicode_len() > 0 {
        one_event(ProviderEvent::ToolCallArgumentsDelta { id: owned(id), delta: owned(delta) })
    } else {
        no_events()
    }
}

fn call_done_exec(data: &Json, key: &str, need_call: bool) -> (r: Vec<ProviderEvent>)
    ensures
        event_views(r@) == call_done(*data, key@, need_call),
{
    let id = str_or_empty_exec(get_str(data, key));
    if (!need_call || function_call(data)) && id.unicode_len() > 0 {
        one_event(ProviderEvent::ToolCallCompleted { id: owned(id) })
    } else {
        no_events()
    }
}

fn calls_exec(t: &str, data: &Json) -> (r: Option<Vec<ProviderEvent>>)
    ensures
        match dispatch_calls(t@, *data) {
            Some(e) => r matches Some(v) && event_views(v@) == e,
            None => r is None,
        },
{
    proof {
        reveal_strlit("response.output_item.added");
        reveal_strlit("output_item.added");
        reveal_strlit("response.function_call_arguments.delta");
        reveal_strlit("function_call_arguments.delta");
        reveal_strlit("response.function_call_arguments.done");
        reveal_strlit("function_call_arguments.done");
        reveal_strlit("response.output_item.done");
        reveal_strlit("output_item.done");
        reveal_strlit("item_id");
        reveal_strlit("id");
    }
    if is_one_of(t, "response.output_item.added", "output_item.added") {
        Some(call_started_exec(data))
    } else if is_one_of(t, "response.function_call_arguments.delta", "function_call_arguments.delta") {
        Some(call_arguments_exec(data))
    } else if is_one_of(t, "response.function_call_arguments.done", "function_call_arguments.done") {
        Some(call_done_exec(data, "item_id", false))
    } else if is_one_of(t, "response.output_item.done", "output_item.done") {
        Some(call_done_exec(data, "id", true))
    } else {
        None
    }
}

fn completion_exec(data: &Json) -> (r: Vec<ProviderEvent>)
    ensures
        event_views(r@) == completion(*data),
{
    let usage = match json_get(data, "response") {
        Some(r) => json_get(r, "usage"),
        None => None,
    };
    match usage {
        Some(u) => {
            let mut v: Vec<ProviderEvent> = Vec::new();
            v.push(ProviderEvent::Usage { input_tokens: tokens(u, "input_tokens"), output_tokens: tokens(u, "output_tokens") });
            v.push(ProviderEvent::Completed);
            assert(event_views(v@) =~= completion(*data));
            v
        },
        None => one_event(ProviderEvent::Completed),
    }
}

fn failure_exec(t: &str) -> (r: bool)
    ensures
        r == is_failure(t@),
{
    str_eq(t, "response.failed") || str_eq(t, "failed") || str_eq(t, "response.incomplete") || str_eq(t, "incomplete")
        || str_eq(t, "error")
}

/// The events that one stream event of the given type carries: text and
/// reasoning deltas, the start, arguments and end of tool calls, usage and
/// completion, and failures; other types carry none.
pub fn dispatch_event(event_type: &str, data: &Json) -> (r: Vec<ProviderEvent>)
    ensures
        event_views(r@) == dispatch_spec(event_type@, *data),
{
    proof {
        reveal_strlit("response.completed");
        reveal_strlit("completed");
    }
    match deltas_exec(event_type, data) {
        Some(v) => v,
        None => match calls_exec(event_type, data) {
            Some(v) => v,
            None => {
                if is_one_of(event_type, "response.completed", "completed") {
                    completion_exec(data)
                } else if failure_exec(event_type) {
                    one_event(ProviderEvent::Error { message: failure_text(data) })
                } else {
                    no_events()
                }
            },
        },
    }
}

/// What one line of the event stream is.
#[derive(Debug)]
pub enum SseLine {
    /// `event: <type>`: the type of the data that follows.
    Event(String),
    /// `data: <json>`: the trimmed data, to be parsed.
    Data(String),
    /// Anything else, and the `[DONE]` marker.
    Ignore,
}

pub open spec fn starts_with(s: Seq<char>, p: Seq<char>) -> bool {
    p.len() <= s.len() && s.take(p.len() as int) == p
}

/// How a line of the event stream is read.
pub open spec fn classify_spec(line: Seq<char>) -> (bool, bool, Seq<char>) {
    if starts_with(line, "event: "@) {
        (true, false, trim(line.skip(7)))
    } else if starts_with(line, "data: "@) {
        let d = trim(line.skip(6));
        if d == "[DONE]"@ { (false, false, Seq::empty()) } else { (false, true, d) }
    } else {
        (false, false, Seq::empty())
    }
}

pub open spec fn sse_line_view(l: SseLine) -> (bool, bool, Seq<char>) {
    match l {
        SseLine::Event(t) => (true, false, t@),
        SseLine::Data(d) => (false, true, d@),
        SseLine::Ignore => (false, false, Seq::empty()),
    }
}

fn has_prefix(v: &Vec<char>, p: &str) -> (r: bool)
    ensures
        r == starts_with(v@, p@),
{
    let pc = crate::text::chars_of(p);
    if pc.len() > v.len() {
        return false;
    }
    let head = crate::text::slice_chars(v, 0, pc.len());
    assert(head@ == v@.take(pc.len() as int));
    crate::text::chars_eq(&head, &pc)
}

/// Reads one line of the event stream.
pub fn classify_sse_line(line: &str) -> (r: SseLine)
    ensures
        sse_line_view(r) == classify_spec(line@),
{
    proof {
        reveal_strlit("event: ");
        reveal_strlit("data: ");
        reveal_strlit("[DONE]");
    }
    let v = crate::text::chars_of(line);
    if has_prefix(&v, "event: ") {
        let t = trimmed_slice(&v, 7, v.len());
        assert(v@.subrange(7, v.len() as int) =~= v@.skip(7));
        return SseLine::Event(string_of(&t));
    }
    if has_prefix(&v, "data: ") {
        let d = trimmed_slice(&v, 6, v.len());
        assert(v@.subrange(6, v.len() as int) =~= v@.skip(6));
        let done = crate::text::chars_of("[DONE]");
        if crate::text::chars_eq(&d, &done) {
            return SseLine::Ignore;
        }
        return SseLine::Data(string_of(&d));
    }
    SseLine::Ignore
}

/// The events of a data line: for data that does not parse, an error that
/// quotes it; otherwise the events of its type, the pending `event:` type
/// or else the data's own `type`.
pub open spec fn data_events(current_event: Seq<char>, parsed: Option<Json>, data: Seq<char>) -> Seq<EventView> {
    match parsed {
        None => seq![EventView::Error("malformed SSE data, ignoring: "@ + data)],
        Some(j) => dispatch_spec(
            if current_event.len() == 0 { str_or_empty(spec_as_str(spec_get(j, "type"@))) } else { current_event },
            j,
        ),
    }
}

/// The state of an event stream: the type named by the last `event:` line.
#[derive(Debug)]
pub struct SseState {
    pub current_event: String,
}

impl SseState {
    /// The state at the start of a stream.
    pub fn new() -> (r: SseState)
        ensures
            r.current_event@ == Seq::<char>::empty(),
    {
        SseState { current_event: string_of(&Vec::new()) }
    }

    /// Takes one line: an `event:` line sets the pending type; the caller
    /// parses a data line and hands it to `on_data`.
    pub fn on_line(&mut self, line: &str) -> (r: SseLine)
        ensures
            sse_line_view(r) == classify_spec(line@),
            match r {
                SseLine::Event(t) => final(self).current_event@ == t@,
                _ => final(self).current_event@ == old(self).current_event@,
            },
    {
        let r = classify_sse_line(line);
        match &r {
            SseLine::Event(t) => {
                self.current_event = copy_string(t);
            },
            _ => {},
        }
        r
    }

    /// Takes the parsed data of a data line (`None` where it did not
    /// parse): gives its events and clears the pending type.
    pub fn on_data(&mut self, parsed: Option<&Json>, data: &str) -> (r: Vec<ProviderEvent>)
        ensures
            event_views(r@) == data_events(old(self).current_event@, match parsed { Some(j) => Some(*j), None => None }, data@),
            final(self).current_event@ == Seq::<char>::empty(),
    {
        proof {
            reveal_strlit("type");
        }
        let r = match parsed {
            None => {
                let mut m: Vec<char> = Vec::new();
                extend_str(&mut m, "malformed SSE data, ignoring: ");
                extend_str(&mut m, data);
                one_event(ProviderEvent::Error { message: string_of(&m) })
            },
            Some(j) => {
                if self.current_event.as_str().unicode_len() == 0 {
                    let t = str_or_empty_exec(get_str(j, "type"));
                    dispatch_event(t, j)
                } else {
                    dispatch_event(self.current_event.as_str(), j)
                }
            },
        };
        self.current_event = string_of(&Vec::new());
        r
    }
}

} // verus!
