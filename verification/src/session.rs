//! Session metadata, where sessions live on disk, and forking.
use vstd::prelude::*;
use crate::protocol::{copy_model, copy_string, Message, ModelInfo, ModelView, ThinkingLevel};
use crate::text::{chars_of, extend_chars, extend_str, join, join_chars, string_of, views};
use crate::tools::hashline::guard::{std_lines, std_lines_exec};
use crate::json::{get_str, spec_as_str, spec_get, Json};
use crate::util::{generate_session_id, is_prefixed_id, join_path, now_iso, path_join};

verus! {

/// The metadata of a session, stored as `header.json` in its directory.
#[derive(Debug)]
pub struct SessionHeader {
    pub type_field: String,
    pub session_id: String,
    pub created: String,
    pub updated: String,
    pub cwd: String,
    pub model: ModelInfo,
    pub thinking_level: ThinkingLevel,
    pub schema_version: u32,
}

impl SessionHeader {
    /// A header for a new session, created and updated at the clock
    /// reading `now`, in the current schema.
    pub fn created_at(session_id: String, cwd: String, model: ModelInfo, thinking_level: ThinkingLevel, now: String) -> (r: SessionHeader)
        ensures
            r.type_field@ == "session_header"@,
            r.session_id == session_id,
            r.cwd == cwd,
            r.model == model,
            r.thinking_level == thinking_level,
            r.created@ == now@,
            r.updated@ == now@,
            r.schema_version == 2,
    {
        let updated = copy_string(&now);
        SessionHeader {
            type_field: "session_header".to_string(),
            session_id,
            created: now,
            updated,
            cwd,
            model,
            thinking_level,
            schema_version: 2,
        }
    }

    /// A header for a new session, created and updated now, in the current
    /// schema: `created_at` with the clock's reading, which is not stated.
    pub fn new(session_id: String, cwd: String, model: ModelInfo, thinking_level: ThinkingLevel) -> (r: SessionHeader)
        ensures
            r.type_field@ == "session_header"@,
            r.session_id == session_id,
            r.cwd == cwd,
            r.model == model,
            r.thinking_level == thinking_level,
            r.created@ == r.updated@,
            r.schema_version == 2,
    {
        SessionHeader::created_at(session_id, cwd, model, thinking_level, now_iso())
    }
}

/// A session in memory: its header and its transcript.
#[derive(Debug)]
pub struct LoadedSessionState {
    pub header: SessionHeader,
    pub messages: Vec<Message>,
}

impl LoadedSessionState {
    /// The session to delete when another one is loaded in its place: the
    /// current one, by its id, where it holds no entries (it was created
    /// and never used), and none otherwise.
    pub fn discard_when_replaced(&self) -> (r: Option<String>)
        ensures
            match r {
                Some(id) => self.messages@.len() == 0 && id@ == self.header.session_id@,
                None => self.messages@.len() > 0,
            },
    {
        if self.messages.len() == 0 {
            Some(copy_string(&self.header.session_id))
        } else {
            None
        }
    }
}

/// Where sessions are kept: one directory per session holding
/// `header.json` and `messages.jsonl`, or, for the first schema, one
/// `<id>.jsonl` file.
#[derive(Debug)]
pub struct SessionStore {
    sessions_dir: String,
}

impl SessionStore {
    pub closed spec fn dir(&self) -> Seq<char> {
        self.sessions_dir@
    }

    /// A store over the given directory.
    pub fn new(sessions_dir: String) -> (r: SessionStore)
        ensures
            r.dir() == sessions_dir@,
    {
        SessionStore { sessions_dir }
    }

    /// The directory of a session.
    pub fn session_dir(&self, session_id: &str) -> (r: String)
        ensures
            r@ == join_path(self.dir(), session_id@),
    {
        path_join(self.sessions_dir.as_str(), session_id)
    }

    /// The header file of a session.
    pub fn header_path(&self, session_id: &str) -> (r: String)
        ensures
            r@ == join_path(join_path(self.dir(), session_id@), "header.json"@),
    {
        let d = self.session_dir(session_id);
        path_join(d.as_str(), "header.json")
    }

    /// The transcript file of a session.
    pub fn messages_path(&self, session_id: &str) -> (r: String)
        ensures
            r@ == join_path(join_path(self.dir(), session_id@), "messages.jsonl"@),
    {
        let d = self.session_dir(session_id);
        path_join(d.as_str(), "messages.jsonl")
    }

    /// The single file of a session in the first schema.
    pub fn legacy_path(&self, session_id: &str) -> (r: String)
        ensures
            r@ == join_path(self.dir(), session_id@ + ".jsonl"@),
    {
        let mut name: Vec<char> = Vec::new();
        extend_str(&mut name, session_id);
        extend_str(&mut name, ".jsonl");
        let n = string_of(&name);
        path_join(self.sessions_dir.as_str(), n.as_str())
    }
}

/// The content of a single-file session after its header is replaced: the
/// new header line, then every line after the first, each ending in a newline.
pub open spec fn legacy_content(header_json: Seq<char>, existing: Seq<char>) -> Seq<char> {
    let l = std_lines(existing);
    let rest = join(if l.len() > 0 { l.drop_first() } else { l }, seq!['\n']);
    if rest.len() == 0 {
        header_json + seq!['\n']
    } else {
        header_json + seq!['\n'] + rest + seq!['\n']
    }
}

/// Rewrites a single-file session with a new header line.
pub fn legacy_file_content(header_json: &str, existing: &str) -> (r: String)
    ensures
        r@ == legacy_content(header_json@, existing@),
{
    let ev = chars_of(existing);
    let mut l = std_lines_exec(&ev);
    if l.len() > 0 {
        let ghost before = views(l@);
        l.remove(0);
        assert(views(l@) =~= before.drop_first());
    }
    let sep: Vec<char> = vec!['\n'];
    assert(sep@ =~= seq!['\n']);
    let rest = join_chars(&l, &sep);
    let mut out: Vec<char> = Vec::new();
    extend_str(&mut out, header_json);
    out.push('\n');
    if rest.len() > 0 {
        extend_chars(&mut out, &rest);
        out.push('\n');
    }
    string_of(&out)
}

// ---------------------------------------------------------------------------
// Forking
// ---------------------------------------------------------------------------

/// What a fork may change of the source session's header.
#[derive(Debug)]
pub struct ForkOptions {
    pub model: Option<ModelInfo>,
    pub thinking_level: Option<ThinkingLevel>,
    pub cwd: Option<String>,
}

impl Default for ForkOptions {
    fn default() -> (r: ForkOptions)
        ensures
            r.model is None,
            r.thinking_level is None,
            r.cwd is None,
    {
        ForkOptions { model: None, thinking_level: None, cwd: None }
    }
}

/// Why a fork failed.
#[derive(Debug)]
pub enum ForkError {
    EntryNotFound(String),
}

impl ForkError {
    /// The text that describes the error.
    pub fn message(&self) -> (r: String)
        ensures
            match self {
                ForkError::EntryNotFound(id) => r@ == "entry not found: "@ + id@,
            },
    {
        match self {
            ForkError::EntryNotFound(id) => {
                let mut m: Vec<char> = Vec::new();
                extend_str(&mut m, "entry not found: ");
                extend_str(&mut m, id.as_str());
                string_of(&m)
            },
        }
    }
}

/// The position of the first message with the given id.
pub open spec fn first_with_id(msgs: Seq<Message>, id: Seq<char>) -> Option<nat>
    decreases msgs.len(),
{
    if msgs.len() == 0 {
        None
    } else if msgs[0].id@ == id {
        Some(0)
    } else {
        match first_with_id(msgs.drop_first(), id) {
            Some(k) => Some(k + 1),
            None => None,
        }
    }
}

proof fn lemma_first_with_id_bound(msgs: Seq<Message>, id: Seq<char>)
    ensures
        first_with_id(msgs, id) matches Some(k) ==> k < msgs.len(),
    decreases msgs.len(),
{
    if msgs.len() > 0 {
        lemma_first_with_id_bound(msgs.drop_first(), id);
    }
}

/// Finds the first message with the given id.
pub fn position_of_entry(msgs: &Vec<Message>, id: &str) -> (r: Option<usize>)
    ensures
        match first_with_id(msgs@, id@) {
            Some(k) => r == Some(k as usize),
            None => r is None,
        },
        r matches Some(i) ==> i < msgs.len(),
{
    let mut i: usize = 0;
    assert(msgs@.skip(0) == msgs@);
    while i < msgs.len()
        invariant
            i <= msgs.len(),
            first_with_id(msgs@, id@) == (match first_with_id(msgs@.skip(i as int), id@) {
                Some(k) => Some((k + i) as nat),
                None => None::<nat>,
            }),
        decreases msgs.len() - i,
    {
        assert(msgs@.skip(i as int)[0] == msgs@[i as int]);
        if crate::json::str_eq(msgs[i].id.as_str(), id) {
            assert(first_with_id(msgs@.skip(i as int), id@) == Some(0nat));
            return Some(i);
        }
        assert(msgs@.skip(i as int).drop_first() =~= msgs@.skip(i + 1));
        i += 1;
    }
    None
}

/// The header of a fork: a new id and timestamps; the options' cwd, model
/// and thinking level where given, else the source's; the source's schema.
pub open spec fn fork_header_ok(h: SessionHeader, src: SessionHeader, options: ForkOptions, id: Seq<char>, now: Seq<char>) -> bool {
    &&& h.type_field@ == "session_header"@
    &&& h.session_id@ == id
    &&& h.created@ == now
    &&& h.updated@ == now
    &&& h.cwd@ == (match options.cwd {
        Some(c) => c@,
        None => src.cwd@,
    })
    &&& h.model@ == (match options.model {
        Some(m) => m@,
        None => src.model@,
    })
    &&& h.thinking_level == (match options.thinking_level {
        Some(t) => t,
        None => src.thinking_level,
    })
    &&& h.schema_version == src.schema_version
}

/// Forks a session up to and including the entry `entry_id`, under the
/// given new id and time.
pub fn fork_with(session: LoadedSessionState, entry_id: &str, options: ForkOptions, new_id: String, now: String) -> (r: Result<LoadedSessionState, ForkError>)
    ensures
        match first_with_id(session.messages@, entry_id@) {
            None => r matches Err(ForkError::EntryNotFound(e)) && e@ == entry_id@,
            Some(k) => r matches Ok(s) && s.messages@ == session.messages@.take(k + 1 as int)
                && fork_header_ok(s.header, session.header, options, new_id@, now@),
        },
{
    proof {
        lemma_first_with_id_bound(session.messages@, entry_id@);
    }
    let idx = match position_of_entry(&session.messages, entry_id) {
        None => return Err(ForkError::EntryNotFound(entry_id.to_string())),
        Some(i) => i,
    };
    let ghost orig = session.messages@;
    let LoadedSessionState { header, messages } = session;
    let mut messages = messages;
    messages.truncate(idx + 1);
    assert(messages@ =~= orig.take(idx + 1));
    let cwd = match options.cwd {
        Some(c) => c,
        None => copy_string(&header.cwd),
    };
    let model = match options.model {
        Some(m) => m,
        None => copy_model(&header.model),
    };
    let thinking_level = match options.thinking_level {
        Some(t) => t,
        None => header.thinking_level,
    };
    let updated = copy_string(&now);
    let h = SessionHeader {
        type_field: "session_header".to_string(),
        session_id: new_id,
        created: now,
        updated,
        cwd,
        model,
        thinking_level,
        schema_version: header.schema_version,
    };
    Ok(LoadedSessionState { header: h, messages })
}

/// Forks a session up to and including the entry `entry_id`, under a fresh
/// session id and the current time.
pub fn fork_session_helper(session: LoadedSessionState, entry_id: &str, options: ForkOptions) -> (r: Result<LoadedSessionState, ForkError>)
    ensures
        match first_with_id(session.messages@, entry_id@) {
            None => r matches Err(ForkError::EntryNotFound(e)) && e@ == entry_id@,
            Some(k) => r matches Ok(s) && s.messages@ == session.messages@.take(k + 1 as int)
                && is_prefixed_id(s.header.session_id@, "ses_"@)
                && s.header.created@ == s.header.updated@
                && fork_header_ok(s.header, session.header, options, s.header.session_id@, s.header.created@),
        },
{
    let now = now_iso();
    let id = generate_session_id();
    fork_with(session, entry_id, options, id, now)
}

/// A fork ends with the entry it was made at, and no earlier entry has
/// that id.
pub proof fn law_fork_ends_at_entry(ms: Seq<Message>, id: Seq<char>)
    requires
        first_with_id(ms, id) is Some,
    ensures
        ({
            let k = first_with_id(ms, id)->Some_0;
            &&& k < ms.len()
            &&& ms.take(k + 1 as int).last().id@ == id
            &&& forall|j: int| 0 <= j < k ==> (#[trigger] ms[j]).id@ != id
        }),
    decreases ms.len(),
{
    lemma_first_with_id_bound(ms, id);
    if ms[0].id@ != id {
        law_fork_ends_at_entry(ms.drop_first(), id);
        let k = first_with_id(ms, id)->Some_0;
        assert forall|j: int| 0 <= j < k implies (#[trigger] ms[j]).id@ != id by {
            if j > 0 {
                assert(ms[j] == ms.drop_first()[j - 1]);
            }
        }
        assert(ms.take(k + 1 as int).last() == ms[k as int]);
        assert(ms.drop_first().take(k as int).last() == ms.drop_first()[k - 1]);
    }
}

// ---------------------------------------------------------------------------
// Listing sessions
// ---------------------------------------------------------------------------

/// Whether text `a` orders strictly before `b`: the order of `str`, which
/// compares UTF-8 bytes and so agrees with comparing code points one by one.
pub open spec fn text_before(a: Seq<char>, b: Seq<char>) -> bool
    decreases a.len(),
{
    if b.len() == 0 {
        false
    } else if a.len() == 0 {
        true
    } else if a[0] != b[0] {
        (a[0] as u32) < (b[0] as u32)
    } else {
        text_before(a.drop_first(), b.drop_first())
    }
}

/// Whether `a` orders strictly before `b`.
pub fn text_before_exec(a: &str, b: &str) -> (r: bool)
    ensures
        r == text_before(a@, b@),
{
    let x = chars_of(a);
    let y = chars_of(b);
    let mut i: usize = 0;
    assert(x@.skip(0) =~= x@ && y@.skip(0) =~= y@);
    while i < x.len() && i < y.len() && x[i] == y[i]
        invariant
            i <= x@.len(),
            i <= y@.len(),
            text_before(x@, y@) == text_before(x@.skip(i as int), y@.skip(i as int)),
        decreases x.len() - i,
    {
        assert(x@.skip(i as int).drop_first() =~= x@.skip(i + 1));
        assert(y@.skip(i as int).drop_first() =~= y@.skip(i + 1));
        i += 1;
    }
    if i == y.len() {
        return false;
    }
    if i == x.len() {
        return true;
    }
    assert(x@.skip(i as int)[0] == x@[i as int] && y@.skip(i as int)[0] == y@[i as int]);
    (x[i] as u32) < (y[i] as u32)
}

/// Inserts a listed session after every one updated no earlier.
pub open spec fn insert_listed(s: Seq<(String, String)>, x: (String, String)) -> Seq<(String, String)>
    decreases s.len(),
{
    if s.len() == 0 {
        seq![x]
    } else if !text_before(s.last().1@, x.1@) {
        s.push(x)
    } else {
        insert_listed(s.drop_last(), x).push(s.last())
    }
}

/// Sessions (id, last update) from the most recently updated down; those
/// updated at the same time keep their order.
pub open spec fn sort_listed(s: Seq<(String, String)>) -> Seq<(String, String)>
    decreases s.len(),
{
    if s.len() == 0 {
        s
    } else {
        insert_listed(sort_listed(s.drop_last()), s.last())
    }
}

proof fn lemma_insert_listed_at(s: Seq<(String, String)>, x: (String, String), j: int)
    requires
        0 <= j <= s.len(),
        forall|k: int| j <= k < s.len() ==> text_before(#[trigger] s[k].1@, x.1@),
        j > 0 ==> !text_before(s[j - 1].1@, x.1@),
    ensures
        insert_listed(s, x) == s.insert(j, x),
    decreases s.len(),
{
    if s.len() == 0 {
        assert(s.insert(j, x) =~= seq![x]);
    } else if !text_before(s.last().1@, x.1@) {
        assert(j == s.len());
        assert(s.insert(j, x) =~= s.push(x));
    } else {
        let q = s.drop_last();
        assert forall|k: int| j <= k < q.len() implies text_before(#[trigger] q[k].1@, x.1@) by {
            assert(q[k] == s[k]);
        }
        lemma_insert_listed_at(q, x, j);
        assert(s.insert(j, x) =~= q.insert(j, x).push(s.last()));
    }
}

fn insert_listed_exec(v: &mut Vec<(String, String)>, x: (String, String))
    ensures
        final(v)@ == insert_listed(old(v)@, x),
{
    let ghost s = v@;
    let mut j = v.len();
    while j > 0 && text_before_exec(v[j - 1].1.as_str(), x.1.as_str())
        invariant
            j <= v.len(),
            s == v@,
            forall|k: int| j <= k < v.len() ==> text_before(#[trigger] s[k].1@, x.1@),
        decreases j,
    {
        j -= 1;
    }
    proof {
        lemma_insert_listed_at(s, x, j as int);
    }
    v.insert(j, x);
}

/// Orders listed sessions (id, last update) from the most recently updated
/// down, keeping the order of those updated at the same time.
pub fn sort_listed_sessions(sessions: Vec<(String, String)>) -> (r: Vec<(String, String)>)
    ensures
        r@ == sort_listed(sessions@),
{
    let ghost sv = sessions@;
    let mut rest = sessions;
    let mut out: Vec<(String, String)> = Vec::new();
    let ghost mut k: int = 0;
    assert(out@ =~= sort_listed(sv.take(0)));
    assert(rest@ =~= sv.skip(0));
    while rest.len() > 0
        invariant
            0 <= k <= sv.len(),
            k + rest.len() == sv.len(),
            rest@ == sv.skip(k),
            out@ == sort_listed(sv.take(k)),
        decreases rest.len(),
    {
        let ghost before = rest@;
        let x = rest.remove(0);
        assert(x == sv[k]) by {
            assert(before[0] == sv.skip(k)[0]);
        }
        assert(sv.take(k + 1).drop_last() =~= sv.take(k));
        assert(rest@ =~= sv.skip(k + 1));
        insert_listed_exec(&mut out, x);
        proof {
            k = k + 1;
        }
    }
    assert(sv.take(sv.len() as int) =~= sv);
    out
}

proof fn lemma_text_before_asym(a: Seq<char>, b: Seq<char>)
    ensures
        text_before(a, b) ==> !text_before(b, a),
    decreases a.len(),
{
    if a.len() > 0 && b.len() > 0 && a[0] == b[0] {
        lemma_text_before_asym(a.drop_first(), b.drop_first());
    }
}

/// Listed sessions run from the most recently updated down.
pub open spec fn newest_first(s: Seq<(String, String)>) -> bool {
    forall|i: int| 1 <= i < s.len() ==> !text_before(#[trigger] s[i - 1].1@, s[i].1@)
}

proof fn lemma_insert_listed(s: Seq<(String, String)>, x: (String, String))
    requires
        newest_first(s),
    ensures
        newest_first(insert_listed(s, x)),
        insert_listed(s, x).to_multiset() == s.to_multiset().insert(x),
        insert_listed(s, x).len() == s.len() + 1,
        insert_listed(s, x).last() == x || (s.len() > 0 && insert_listed(s, x).last() == s.last()),
    decreases s.len(),
{
    broadcast use vstd::seq_lib::to_multiset_build;
    if s.len() == 0 {
        assert(seq![x] =~= s.push(x));
    } else if !text_before(s.last().1@, x.1@) {
        let t = s.push(x);
        assert forall|i: int| 1 <= i < t.len() implies !text_before(#[trigger] t[i - 1].1@, t[i].1@) by {
            if i < s.len() {
                assert(t[i - 1] == s[i - 1] && t[i] == s[i]);
            }
        }
    } else {
        let q = s.drop_last();
        assert forall|i: int| 1 <= i < q.len() implies !text_before(#[trigger] q[i - 1].1@, q[i].1@) by {
            assert(q[i - 1] == s[i - 1] && q[i] == s[i]);
        }
        lemma_insert_listed(q, x);
        let u = insert_listed(q, x);
        let t = u.push(s.last());
        lemma_text_before_asym(s.last().1@, x.1@);
        if u.last() != x {
            assert(q.len() > 0 && u.last() == q.last());
            assert(q.last() == s[s.len() - 2]);
            assert(!text_before(s[s.len() - 2].1@, s[s.len() - 1].1@));
        }
        assert forall|i: int| 1 <= i < t.len() implies !text_before(#[trigger] t[i - 1].1@, t[i].1@) by {
            if i < u.len() {
                assert(t[i - 1] == u[i - 1] && t[i] == u[i]);
            } else {
                assert(t[i - 1] == u.last());
            }
        }
        assert(s =~= q.push(s.last()));
        assert(t.to_multiset() =~= s.to_multiset().insert(x));
    }
}

/// Sessions are listed from the most recently updated down, and the list
/// holds exactly the sessions found.
pub proof fn law_sessions_newest_first(s: Seq<(String, String)>)
    ensures
        newest_first(sort_listed(s)),
        sort_listed(s).to_multiset() == s.to_multiset(),
    decreases s.len(),
{
    if s.len() > 0 {
        let q = s.drop_last();
        law_sessions_newest_first(q);
        lemma_insert_listed(sort_listed(q), s.last());
        broadcast use vstd::seq_lib::to_multiset_build;
        assert(s =~= q.push(s.last()));
    }
}

/// The last update that a session's header records, `"unknown"` where it
/// records none.
pub open spec fn header_updated_spec(header: Option<Json>) -> Seq<char> {
    match header {
        Some(h) => match spec_as_str(spec_get(h, "updated"@)) {
            Some(u) => u,
            None => "unknown"@,
        },
        None => "unknown"@,
    }
}

/// The last update that a session's header records, given the header as
/// parsed (`None` where it is not JSON).
pub fn header_updated(header: Option<&Json>) -> (r: String)
    ensures
        r@ == header_updated_spec(match header { Some(h) => Some(*h), None => None }),
{
    match header {
        Some(h) => match get_str(h, "updated") {
            Some(u) => string_of(&chars_of(u)),
            None => "unknown".to_string(),
        },
        None => "unknown".to_string(),
    }
}

} // verus!
