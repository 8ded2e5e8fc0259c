//! The ask-user tool: reading the question from the arguments, and what the
//! user's answer reads as.
use vstd::prelude::*;
use crate::json::{get_bool, get_str, get_u64, json_get, spec_as_bool, spec_as_str, spec_as_u64, spec_get, Json};
use crate::protocol::{AskOption, AskUserResponse};
use crate::text::{chars_of, extend_str, join, string_of};
use crate::tools::error::{ToolError, ToolErrorView};

verus! {

/// The ask-user tool.
#[derive(Debug)]
pub struct AskUserTool;

/// A question as the arguments give it: the text, context, the options,
/// whether several may be chosen, whether free text and a comment are
/// allowed, and a timeout.
#[derive(Debug)]
pub struct AskRequest {
    pub question: String,
    pub context: Option<String>,
    pub options: Vec<AskOption>,
    pub allow_multiple: bool,
    pub allow_freeform: bool,
    pub allow_comment: bool,
    pub timeout_ms: Option<u64>,
}

pub open spec fn opt_str(o: Option<String>) -> Option<Seq<char>> {
    match o {
        Some(s) => Some(s@),
        None => None,
    }
}

/// The options that carry a title, in order, as (title, description).
pub open spec fn options_of(a: Seq<Json>) -> Seq<(Seq<char>, Option<Seq<char>>)>
    decreases a.len(),
{
    if a.len() == 0 {
        Seq::empty()
    } else {
        let prev = options_of(a.drop_last());
        match spec_as_str(spec_get(a.last(), "title"@)) {
            Some(t) => prev.push((t, spec_as_str(spec_get(a.last(), "description"@)))),
            None => prev,
        }
    }
}

pub open spec fn option_views(v: Seq<AskOption>) -> Seq<(Seq<char>, Option<Seq<char>>)> {
    v.map_values(|o: AskOption| (o.title@, opt_str(o.description)))
}

/// The options of the arguments: those of the `options` array, none else.
pub open spec fn request_options(a: Json) -> Seq<(Seq<char>, Option<Seq<char>>)> {
    match spec_get(a, "options"@) {
        Some(Json::Array(v)) => options_of(v@),
        _ => Seq::empty(),
    }
}

/// Whether a request matches the arguments.
pub open spec fn ask_request_ok(r: AskRequest, a: Json) -> bool {
    &&& spec_as_str(spec_get(a, "question"@)) == Some(r.question@)
    &&& opt_str(r.context) == spec_as_str(spec_get(a, "context"@))
    &&& option_views(r.options@) == request_options(a)
    &&& r.allow_multiple == (match spec_as_bool(spec_get(a, "allowMultiple"@)) { Some(b) => b, None => false })
    &&& r.allow_freeform == (match spec_as_bool(spec_get(a, "allowFreeform"@)) { Some(b) => b, None => true })
    &&& r.allow_comment == (match spec_as_bool(spec_get(a, "allowComment"@)) { Some(b) => b, None => false })
    &&& r.timeout_ms == spec_as_u64(spec_get(a, "timeoutMs"@))
}

fn owned(s: &str) -> (r: String)
    ensures
        r@ == s@,
{
    string_of(&chars_of(s))
}

fn owned_opt(s: Option<&str>) -> (r: Option<String>)
    ensures
        opt_str(r) == (match s { Some(x) => Some(x@), None => None }),
{
    match s {
        Some(x) => Some(owned(x)),
        None => None,
    }
}

fn read_options(a: &Vec<Json>) -> (r: Vec<AskOption>)
    ensures
        option_views(r@) == options_of(a@),
{
    let mut out: Vec<AskOption> = Vec::new();
    let mut i: usize = 0;
    assert(option_views(out@) =~= options_of(a@.take(0)));
    while i < a.len()
        invariant
            i <= a.len(),
            option_views(out@) == options_of(a@.take(i as int)),
        decreases a.len() - i,
    {
        assert(a@.take(i + 1).drop_last() =~= a@.take(i as int));
        assert(a@.take(i + 1).last() == a@[i as int]);
        match get_str(&a[i], "title") {
            Some(t) => {
                let ghost before = out@;
                out.push(AskOption { title: owned(t), description: owned_opt(get_str(&a[i], "description")) });
                assert(option_views(out@) =~= option_views(before).push(option_views(out@).last()));
            },
            None => {},
        }
        i += 1;
    }
    assert(a@.take(a.len() as int) =~= a@);
    out
}

/// Reads a question from the arguments; the question text is required.
pub fn ask_request(arguments: &Json) -> (r: Result<AskRequest, ToolError>)
    ensures
        match spec_as_str(spec_get(*arguments, "question"@)) {
            None => r matches Err(e) && e@ == ToolErrorView::InvalidArguments("Missing required 'question' argument"@),
            Some(_) => r matches Ok(q) && ask_request_ok(q, *arguments),
        },
{
    let question = match get_str(arguments, "question") {
        None => return Err(ToolError::InvalidArguments("Missing required 'question' argument".to_string())),
        Some(q) => owned(q),
    };
    let options = match json_get(arguments, "options") {
        Some(Json::Array(v)) => read_options(v),
        _ => {
            let v: Vec<AskOption> = Vec::new();
            assert(option_views(v@) =~= Seq::<(Seq<char>, Option<Seq<char>>)>::empty());
            v
        },
    };
    Ok(AskRequest {
        question,
        context: owned_opt(get_str(arguments, "context")),
        options,
        allow_multiple: match get_bool(arguments, "allowMultiple") {
            Some(b) => b,
            None => false,
        },
        allow_freeform: match get_bool(arguments, "allowFreeform") {
            Some(b) => b,
            None => true,
        },
        allow_comment: match get_bool(arguments, "allowComment") {
            Some(b) => b,
            None => false,
        },
        timeout_ms: get_u64(arguments, "timeoutMs"),
    })
}

pub open spec fn strs(v: Seq<String>) -> Seq<Seq<char>> {
    v.map_values(|s: String| s@)
}

/// The parts of an answer that say something, in order.
pub open spec fn answer_parts(selected: Seq<Seq<char>>, freeform: Option<Seq<char>>, comment: Option<Seq<char>>) -> Seq<Seq<char>> {
    let a: Seq<Seq<char>> = if selected.len() > 0 { seq!["Selected: "@ + join(selected, ", "@)] } else { Seq::empty() };
    let b: Seq<Seq<char>> = match freeform {
        Some(f) => if f.len() > 0 { seq!["Response: "@ + f] } else { Seq::empty() },
        None => Seq::empty(),
    };
    let c: Seq<Seq<char>> = match comment {
        Some(m) => if m.len() > 0 { seq!["Comment: "@ + m] } else { Seq::empty() },
        None => Seq::empty(),
    };
    a + b + c
}

/// What an answer reads as: its parts on separate lines, or a note that
/// there was none.
pub open spec fn answer_text_spec(selected: Seq<Seq<char>>, freeform: Option<Seq<char>>, comment: Option<Seq<char>>) -> Seq<char> {
    let p = answer_parts(selected, freeform, comment);
    if p.len() == 0 {
        "User provided no response."@
    } else {
        join(p, seq!['\n'])
    }
}

fn prefixed(prefix: &str, s: &Vec<char>) -> (r: Vec<char>)
    ensures
        r@ == prefix@ + s@,
{
    let mut v: Vec<char> = Vec::new();
    extend_str(&mut v, prefix);
    crate::text::extend_chars(&mut v, s);
    v
}

/// What the user's answer reads as.
pub fn answer_text(response: &AskUserResponse) -> (r: String)
    ensures
        r@ == answer_text_spec(strs(response.selected@), opt_str(response.freeform), opt_str(response.comment)),
{
    let mut parts: Vec<Vec<char>> = Vec::new();
    let ghost sel = strs(response.selected@);
    if response.selected.len() > 0 {
        let sv = crate::tools::hashline::hash::vec_chars_of_strings(response.selected.as_slice());
        assert(crate::tools::hashline::hash::string_views(response.selected@) =~= sel);
        let sep = chars_of(", ");
        let joined = crate::text::join_chars(&sv, &sep);
        parts.push(prefixed("Selected: ", &joined));
    }
    let ghost pa = crate::text::views(parts@);
    match &response.freeform {
        Some(f) => {
            if f.as_str().unicode_len() > 0 {
                parts.push(prefixed("Response: ", &chars_of(f.as_str())));
            }
        },
        None => {},
    }
    let ghost pb = crate::text::views(parts@);
    match &response.comment {
        Some(c) => {
            if c.as_str().unicode_len() > 0 {
                parts.push(prefixed("Comment: ", &chars_of(c.as_str())));
            }
        },
        None => {},
    }
    assert(crate::text::views(parts@) =~= answer_parts(sel, opt_str(response.freeform), opt_str(response.comment)));
    if parts.len() == 0 {
        "User provided no response.".to_string()
    } else {
        let nl: Vec<char> = vec!['\n'];
        assert(nl@ =~= seq!['\n']);
        let t = crate::text::join_chars(&parts, &nl);
        string_of(&t)
    }
}

} // verus!
