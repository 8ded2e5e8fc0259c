//! The JSON values that tool arguments and provider events carry, as plain
//! data that the library reads.
use vstd::prelude::*;

verus! {

/// What the logic reads of a JSON number: its value as an `i64` and as a
/// `u64`, where it has one.
#[derive(Clone, Copy, Debug, PartialEq, Eq)]
pub struct JsonNumber {
    pub as_i64: Option<i64>,
    pub as_u64: Option<u64>,
}

/// A JSON value. Object members keep their order; keys are unique.
#[derive(Debug)]
pub enum Json {
    Null,
    Bool(bool),
    Number(JsonNumber),
    Str(String),
    Array(Vec<Json>),
    Object(Vec<(String, Json)>),
}

/// The member of an object under `key` (the first one, keys being unique).
pub open spec fn spec_get(v: Json, key: Seq<char>) -> Option<Json> {
    match v {
        Json::Object(m) => members_get(m@, key),
        _ => None,
    }
}

/// The value of the first member named `key`.
pub open spec fn members_get(m: Seq<(String, Json)>, key: Seq<char>) -> Option<Json>
    decreases m.len(),
{
    if m.len() == 0 {
        None
    } else if m[0].0@ == key {
        Some(m[0].1)
    } else {
        members_get(m.drop_first(), key)
    }
}

/// A member is found by its key when no member before it has that key.
pub proof fn lemma_members_get_at(m: Seq<(String, Json)>, i: int, key: Seq<char>)
    requires
        0 <= i < m.len(),
        m[i].0@ == key,
        forall|j: int| 0 <= j < i ==> (#[trigger] m[j]).0@ != key,
    ensures
        members_get(m, key) == Some(m[i].1),
    decreases i,
{
    if i > 0 {
        assert(m[0].0@ != key);
        let t = m.drop_first();
        assert forall|j: int| 0 <= j < i - 1 implies (#[trigger] t[j]).0@ != key by {
            assert(t[j] == m[j + 1]);
        }
        lemma_members_get_at(t, i - 1, key);
    }
}

/// No member has the key.
pub proof fn lemma_members_get_none(m: Seq<(String, Json)>, key: Seq<char>)
    requires
        forall|j: int| 0 <= j < m.len() ==> (#[trigger] m[j]).0@ != key,
    ensures
        members_get(m, key) is None,
    decreases m.len(),
{
    if m.len() > 0 {
        assert(m[0].0@ != key);
        let t = m.drop_first();
        assert forall|j: int| 0 <= j < t.len() implies (#[trigger] t[j]).0@ != key by {
            assert(t[j] == m[j + 1]);
        }
        lemma_members_get_none(t, key);
    }
}

pub open spec fn spec_as_str(v: Option<Json>) -> Option<Seq<char>> {
    match v {
        Some(Json::Str(s)) => Some(s@),
        _ => None,
    }
}

pub open spec fn spec_as_bool(v: Option<Json>) -> Option<bool> {
    match v {
        Some(Json::Bool(b)) => Some(b),
        _ => None,
    }
}

pub open spec fn spec_as_i64(v: Option<Json>) -> Option<i64> {
    match v {
        Some(Json::Number(n)) => n.as_i64,
        _ => None,
    }
}

pub open spec fn spec_as_u64(v: Option<Json>) -> Option<u64> {
    match v {
        Some(Json::Number(n)) => n.as_u64,
        _ => None,
    }
}

/// Position of the first member named `key`.
fn find_member(m: &Vec<(String, Json)>, key: &str) -> (r: Option<usize>)
    ensures
        match r {
            Some(i) => i < m@.len() && members_get(m@, key@) == Some(m@[i as int].1),
            None => members_get(m@, key@) is None,
        },
{
    let mut i: usize = 0;
    assert(m@.skip(0) == m@);
    while i < m.len()
        invariant
            i <= m.len(),
            members_get(m@.skip(i as int), key@) == members_get(m@, key@),
        decreases m.len() - i,
    {
        if str_eq(m[i].0.as_str(), key) {
            assert(m@.skip(i as int)[0] == m@[i as int]);
            return Some(i);
        }
        assert(m@.skip(i as int).drop_first() == m@.skip(i + 1));
        i += 1;
    }
    None
}

/// Looks up a member of an object.
pub fn json_get<'a>(v: &'a Json, key: &str) -> (r: Option<&'a Json>)
    ensures
        match r {
            Some(x) => spec_get(*v, key@) == Some(*x),
            None => spec_get(*v, key@) is None,
        },
{
    match v {
        Json::Object(m) => {
            match find_member(m, key) {
                Some(i) => Some(&m[i].1),
                None => None,
            }
        },
        _ => None,
    }
}

/// Whether two strings are equal.
pub fn str_eq(a: &str, b: &str) -> (r: bool)
    ensures
        r == (a@ == b@),
{
    let x = crate::text::chars_of(a);
    let y = crate::text::chars_of(b);
    crate::text::chars_eq(&x, &y)
}

/// `value.get(key).and_then(|v| v.as_str())`.
pub fn get_str<'a>(v: &'a Json, key: &str) -> (r: Option<&'a str>)
    ensures
        match r {
            Some(s) => spec_as_str(spec_get(*v, key@)) == Some(s@),
            None => spec_as_str(spec_get(*v, key@)) is None,
        },
{
    match json_get(v, key) {
        Some(Json::Str(s)) => Some(s.as_str()),
        _ => None,
    }
}

/// `value.get(key).and_then(|v| v.as_bool())`.
pub fn get_bool(v: &Json, key: &str) -> (r: Option<bool>)
    ensures
        r == spec_as_bool(spec_get(*v, key@)),
{
    match json_get(v, key) {
        Some(Json::Bool(b)) => Some(*b),
        _ => None,
    }
}

/// `value.get(key).and_then(|v| v.as_i64())`.
pub fn get_i64(v: &Json, key: &str) -> (r: Option<i64>)
    ensures
        r == spec_as_i64(spec_get(*v, key@)),
{
    match json_get(v, key) {
        Some(Json::Number(n)) => n.as_i64,
        _ => None,
    }
}

/// `value.get(key).and_then(|v| v.as_u64())`.
pub fn get_u64(v: &Json, key: &str) -> (r: Option<u64>)
    ensures
        r == spec_as_u64(spec_get(*v, key@)),
{
    match json_get(v, key) {
        Some(Json::Number(n)) => n.as_u64,
        _ => None,
    }
}

} // verus!
