//! Paths under the user's home, identifiers and timestamps.
use vstd::prelude::*;
use crate::text::{chars_of, extend_chars, extend_str, string_of};

verus! {

// ---------------------------------------------------------------------------
// Paths
// ---------------------------------------------------------------------------

/// `Path::join` on Unix: an absolute component replaces the base; otherwise
/// the component follows the base, with a `'/'` between them unless the base
/// is empty or already ends with one.
pub open spec fn join_path(base: Seq<char>, comp: Seq<char>) -> Seq<char> {
    if comp.len() > 0 && comp[0] == '/' {
        comp
    } else if base.len() == 0 || base.last() == '/' {
        base + comp
    } else {
        base + seq!['/'] + comp
    }
}

/// Joins a component onto a path.
pub fn path_join(base: &str, comp: &str) -> (r: String)
    ensures
        r@ == join_path(base@, comp@),
{
    let b = chars_of(base);
    let c = chars_of(comp);
    let mut out: Vec<char> = Vec::new();
    if c.len() > 0 && c[0] == '/' {
        extend_chars(&mut out, &c);
        assert(out@ =~= c@);
    } else if b.len() == 0 || b[b.len() - 1] == '/' {
        extend_chars(&mut out, &b);
        extend_chars(&mut out, &c);
    } else {
        extend_chars(&mut out, &b);
        out.push('/');
        extend_chars(&mut out, &c);
        assert(out@ =~= b@ + seq!['/'] + c@);
    }
    string_of(&out)
}

/// The user's home directory, as `dirs::home_dir` finds it. It depends on
/// the environment and the password database, so nothing is stated of it.
#[verifier::external_body]
fn home_dir() -> (r: Option<String>) {
    dirs::home_dir().map(|p| p.to_string_lossy().into_owned())
}

/// The application's home directory under the given user home, or under the
/// working directory when there is none.
pub open spec fn cromulent_dir_in(home: Option<Seq<char>>) -> Seq<char> {
    join_path(
        match home {
            Some(h) => h,
            None => "."@,
        },
        ".cromulent"@,
    )
}

pub open spec fn opt_str_view(o: Option<String>) -> Option<Seq<char>> {
    match o {
        Some(s) => Some(s@),
        None => None,
    }
}

/// The application's home directory under `home`.
pub fn cromulent_dir_from(home: Option<String>) -> (r: String)
    ensures
        r@ == cromulent_dir_in(opt_str_view(home)),
{
    proof {
        reveal_strlit(".");
    }
    match home {
        Some(h) => path_join(h.as_str(), ".cromulent"),
        None => path_join(".", ".cromulent"),
    }
}

/// The application's home directory (`~/.cromulent`).
pub fn default_cromulent_dir() -> (r: String)
    ensures
        exists|h: Option<Seq<char>>| r@ == cromulent_dir_in(h),
{
    let home = home_dir();
    let r = cromulent_dir_from(home);
    assert(r@ == cromulent_dir_in(opt_str_view(home)));
    r
}

/// The sessions directory (`~/.cromulent/sessions`).
pub fn default_sessions_dir() -> (r: String)
    ensures
        exists|h: Option<Seq<char>>| r@ == join_path(cromulent_dir_in(h), "sessions"@),
{
    let d = default_cromulent_dir();
    path_join(d.as_str(), "sessions")
}

/// The configuration directory (`~/.cromulent`).
pub fn default_config_dir() -> (r: String)
    ensures
        exists|h: Option<Seq<char>>| r@ == cromulent_dir_in(h),
{
    default_cromulent_dir()
}

/// The configuration file (`~/.cromulent/config.json`).
pub fn default_config_path() -> (r: String)
    ensures
        exists|h: Option<Seq<char>>| r@ == join_path(cromulent_dir_in(h), "config.json"@),
{
    let d = default_config_dir();
    path_join(d.as_str(), "config.json")
}

// ---------------------------------------------------------------------------
// Identifiers
// ---------------------------------------------------------------------------

pub open spec fn is_lower_hex(c: char) -> bool {
    ('0' <= c && c <= '9') || ('a' <= c && c <= 'f')
}

/// The hyphenated lower-case form of a UUID: 8-4-4-4-12 hexadecimal digits.
pub open spec fn hyphenated_uuid(s: Seq<char>) -> bool {
    &&& s.len() == 36
    &&& forall|i: int| 0 <= i < 36 ==> (if i == 8 || i == 13 || i == 18 || i == 23 {
        s[i] == '-'
    } else {
        is_lower_hex(#[trigger] s[i])
    })
}

/// A fresh random UUID (`Uuid::new_v4`), in its `Display` form, which the
/// uuid crate writes hyphenated in lower case. Which UUID comes back is
/// chance; only its form is stated.
#[verifier::external_body]
fn new_uuid_text() -> (r: String)
    ensures
        hyphenated_uuid(r@),
{
    uuid::Uuid::new_v4().to_string()
}

/// An identifier: the prefix, then twelve lower-case hexadecimal digits.
pub open spec fn is_prefixed_id(s: Seq<char>, prefix: Seq<char>) -> bool {
    &&& s.len() == prefix.len() + 12
    &&& s.take(prefix.len() as int) == prefix
    &&& forall|i: int| prefix.len() <= i < s.len() ==> is_lower_hex(#[trigger] s[i])
}

/// The prefix followed by the first twelve digits of a fresh UUID.
fn prefixed_id(prefix: &str) -> (r: String)
    ensures
        is_prefixed_id(r@, prefix@),
{
    let u = chars_of(new_uuid_text().as_str());
    let mut out: Vec<char> = Vec::new();
    extend_str(&mut out, prefix);
    let ghost p = prefix@;
    let mut i: usize = 0;
    let mut taken: usize = 0;
    while i < u.len() && taken < 12
        invariant
            hyphenated_uuid(u@),
            i <= u.len(),
            taken <= 12,
            taken <= i,
            i <= 36,
            (i as int) - (taken as int) <= (if i > 23 { 4int } else if i > 18 { 3int } else if i > 13 { 2int } else if i > 8 { 1int } else { 0int }),
            out@.len() == p.len() + taken,
            out@.take(p.len() as int) == p,
            forall|k: int| p.len() <= k < out@.len() ==> is_lower_hex(#[trigger] out@[k]),
        decreases u.len() - i,
    {
        let c = u[i];
        if c != '-' {
            assert(is_lower_hex(u@[i as int]));
            let ghost before = out@;
            out.push(c);
            assert(out@.take(p.len() as int) =~= before.take(p.len() as int));
            taken += 1;
        }
        i += 1;
    }
    string_of(&out)
}

/// A new session identifier (`ses_` and twelve hexadecimal digits).
pub fn generate_session_id() -> (r: String)
    ensures
        is_prefixed_id(r@, "ses_"@),
{
    prefixed_id("ses_")
}

/// A new run identifier (`run_` and twelve hexadecimal digits).
pub fn generate_run_id() -> (r: String)
    ensures
        is_prefixed_id(r@, "run_"@),
{
    prefixed_id("run_")
}

/// A new message identifier (`msg_` and twelve hexadecimal digits).
pub fn generate_message_id() -> (r: String)
    ensures
        is_prefixed_id(r@, "msg_"@),
{
    prefixed_id("msg_")
}

/// A new ask identifier (`ask_` and twelve hexadecimal digits).
pub fn generate_ask_id() -> (r: String)
    ensures
        is_prefixed_id(r@, "ask_"@),
{
    prefixed_id("ask_")
}

/// A new tool call identifier (`call_` and twelve hexadecimal digits).
pub fn generate_tool_call_id() -> (r: String)
    ensures
        is_prefixed_id(r@, "call_"@),
{
    prefixed_id("call_")
}

// ---------------------------------------------------------------------------
// Time
// ---------------------------------------------------------------------------

/// The current time as RFC 3339 text (`Utc::now().to_rfc3339()`). It is the
/// clock's reading, so nothing is stated of it.
#[verifier::external_body]
pub fn now_iso() -> (r: String) {
    chrono::Utc::now().to_rfc3339()
}

} // verus!
