//! The exact-text edit tool: each replacement names text that occurs once
//! in the file as it stands; replacements must not overlap.
use vstd::prelude::*;
use vstd::utf8::{encode_scalar, encode_utf8};
use crate::json::{get_str, json_get, spec_as_str, spec_get, Json};
use crate::tools::files::msg_missing_path;
use crate::text::{chars_of, debug_str, decimal, extend_chars, extend_str, push_debug, push_decimal, slice_chars, string_of};
use crate::tools::error::{ToolError, ToolErrorView};
use crate::tools::hashline::spans::{find_occurrence, first_occ};

verus! {

/// The exact-text edit tool.
#[derive(Debug)]
pub struct EditTool;

/// How many times `w` occurs in `c` from `from` on, counting matches that
/// do not overlap, from the left.
pub open spec fn occ_count(c: Seq<char>, w: Seq<char>, from: nat) -> nat
    decreases c.len() + 1 - from,
{
    match first_occ(c, w, from) {
        None => 0,
        Some(p) => if w.len() > 0 && p + w.len() <= c.len() && p >= from {
            1 + occ_count(c, w, p + w.len())
        } else {
            0
        },
    }
}

proof fn lemma_first_occ_facts(c: Seq<char>, w: Seq<char>, from: nat)
    ensures
        first_occ(c, w, from) matches Some(p) ==> from <= p && p + w.len() <= c.len(),
    decreases c.len() + 1 - from,
{
    if from + w.len() <= c.len() && c.subrange(from as int, (from + w.len()) as int) != w {
        lemma_first_occ_facts(c, w, from + 1);
    }
}

/// Counts all non-overlapping occurrences, from the left.
fn count_all(c: &Vec<char>, w: &Vec<char>) -> (n: usize)
    requires
        w.len() > 0,
    ensures
        n == occ_count(c@, w@, 0),
{
    let mut n: usize = 0;
    let mut from: usize = 0;
    let mut done = false;
    while !done
        invariant
            w.len() > 0,
            n <= from <= c.len(),
            occ_count(c@, w@, 0) == n + (if done { 0 } else { occ_count(c@, w@, from as nat) }),
        decreases c.len() - from + (if done { 0int } else { 1int }),
    {
        proof {
            lemma_first_occ_facts(c@, w@, from as nat);
        }
        match find_occurrence(c, w, from) {
            None => {
                done = true;
            },
            Some(p) => {
                n = n + 1;
                from = p + w.len();
            },
        }
    }
    n
}

/// Bytes of UTF-8 before character position `k`.
pub open spec fn byte_offset(c: Seq<char>, k: int) -> nat {
    encode_utf8(c.take(k)).len()
}

proof fn lemma_encode_push(a: Seq<char>, x: char)
    ensures
        encode_utf8(a.push(x)).len() == encode_utf8(a).len() + encode_scalar(x as u32).len(),
    decreases a.len(),
{
    if a.len() == 0 {
        assert(a.push(x).drop_first() =~= Seq::<char>::empty());
        assert(encode_utf8(Seq::<char>::empty()) =~= Seq::<u8>::empty());
    } else {
        lemma_encode_push(a.drop_first(), x);
        assert(a.push(x).drop_first() =~= a.drop_first().push(x));
    }
}

fn char_bytes(c: char) -> (w: usize)
    ensures
        w == encode_scalar(c as u32).len(),
{
    let u = c as u32;
    if u <= 0x7f { 1 } else if u <= 0x7ff { 2 } else if u <= 0xffff { 3 } else { 4 }
}

fn bytes_before(c: &Vec<char>, k: usize) -> (n: usize)
    requires
        k <= c.len(),
        byte_offset(c@, k as int) <= usize::MAX,
    ensures
        n == byte_offset(c@, k as int),
{
    let mut n: usize = 0;
    let mut i: usize = 0;
    assert(c@.take(0) =~= Seq::<char>::empty());
    assert(encode_utf8(Seq::<char>::empty()) =~= Seq::<u8>::empty());
    while i < k
        invariant
            i <= k <= c.len(),
            n == byte_offset(c@, i as int),
            byte_offset(c@, k as int) <= usize::MAX,
        decreases k - i,
    {
        proof {
            lemma_encode_push(c@.take(i as int), c@[i as int]);
            assert(c@.take(i + 1) =~= c@.take(i as int).push(c@[i as int]));
            lemma_offset_monotone(c@, i + 1, k as int);
        }
        n = n + char_bytes(c[i]);
        i += 1;
    }
    n
}

proof fn lemma_offset_monotone(c: Seq<char>, a: int, b: int)
    requires
        0 <= a <= b <= c.len(),
    ensures
        byte_offset(c, a) <= byte_offset(c, b),
    decreases b - a,
{
    if a < b {
        lemma_offset_monotone(c, a, b - 1);
        lemma_encode_push(c.take(b - 1), c[b - 1]);
        assert(c.take(b) =~= c.take(b - 1).push(c[b - 1]));
    }
}

/// A replacement found in the unedited text: where, the old text and the
/// new one.
pub type Found = (nat, nat, Seq<char>, Seq<char>);

/// How the messages about edit number `i` begin.
pub open spec fn edit_label(i: nat) -> Seq<char> {
    "edits["@ + decimal(i) + "]: "@
}

/// The replacement of edit number `i`, or why it cannot be made.
pub open spec fn find_edit(c: Seq<char>, e: Json, i: nat) -> Result<Found, ToolErrorView> {
    match spec_as_str(spec_get(e, "oldText"@)) {
        None => Err(ToolErrorView::InvalidArguments(edit_label(i) + "missing 'oldText'"@)),
        Some(old) => match spec_as_str(spec_get(e, "newText"@)) {
            None => Err(ToolErrorView::InvalidArguments(edit_label(i) + "missing 'newText'"@)),
            Some(new) => {
                let n = occ_count(c, old, 0);
                if old.len() == 0 {
                    Err(ToolErrorView::EditFailed(edit_label(i) + "oldText must not be empty"@))
                } else if n == 0 {
                    Err(ToolErrorView::EditFailed(edit_label(i) + "oldText "@ + debug_str(old) + " not found in file"@))
                } else if n > 1 {
                    Err(ToolErrorView::EditFailed(
                        edit_label(i) + "oldText "@ + debug_str(old) + " found "@ + decimal(n) + " times (must be unique)"@,
                    ))
                } else {
                    let p = first_occ(c, old, 0)->Some_0;
                    Ok((p, p + old.len(), old, new))
                }
            },
        },
    }
}

/// The replacements of the first `k` edits, or the first error.
pub open spec fn find_edits(c: Seq<char>, edits: Seq<Json>, k: int) -> Result<Seq<Found>, ToolErrorView>
    decreases k,
{
    if k <= 0 {
        Ok(Seq::empty())
    } else {
        match find_edits(c, edits, k - 1) {
            Err(x) => Err(x),
            Ok(s) => match find_edit(c, edits[k - 1], (k - 1) as nat) {
                Err(x) => Err(x),
                Ok(f) => Ok(s.push(f)),
            },
        }
    }
}

proof fn lemma_find_edits_err(c: Seq<char>, edits: Seq<Json>, k: int, n: int)
    requires
        0 <= k <= n,
        find_edits(c, edits, k) is Err,
    ensures
        find_edits(c, edits, n) == find_edits(c, edits, k),
    decreases n - k,
{
    if k < n {
        lemma_find_edits_err(c, edits, k, n - 1);
    }
}

/// Inserts a replacement after every one that starts no later.
pub open spec fn insert_found(s: Seq<Found>, x: Found) -> Seq<Found>
    decreases s.len(),
{
    if s.len() == 0 {
        seq![x]
    } else if s.last().0 <= x.0 {
        s.push(x)
    } else {
        insert_found(s.drop_last(), x).push(s.last())
    }
}

/// A stable sort of replacements by where they start.
pub open spec fn sort_found(s: Seq<Found>) -> Seq<Found>
    decreases s.len(),
{
    if s.len() == 0 { s } else { insert_found(sort_found(s.drop_last()), s.last()) }
}

/// The first pair of neighbours that overlap, if any.
#[verifier::opaque]
pub open spec fn first_overlap(t: Seq<Found>) -> Option<int> {
    if exists|i: int| 1 <= i < t.len() && #[trigger] t[i].0 < t[i - 1].1 {
        Some(choose|i: int| 1 <= i < t.len() && #[trigger] t[i].0 < t[i - 1].1
            && forall|j: int| 1 <= j < i ==> !(#[trigger] t[j].0 < t[j - 1].1))
    } else {
        None
    }
}

/// The text with each replacement made, in order.
pub open spec fn apply_found(c: Seq<char>, t: Seq<Found>, k: int, cur: int) -> Seq<char>
    decreases t.len() - k,
{
    if k < 0 || k >= t.len() {
        c.subrange(cur, c.len() as int)
    } else {
        c.subrange(cur, t[k].0 as int) + t[k].3 + apply_found(c, t, k + 1, t[k].1 as int)
    }
}

pub open spec fn overlap_text(c: Seq<char>, a: Found, b: Found) -> Seq<char> {
    "Edits overlap: oldText "@ + debug_str(a.2) + " (bytes "@ + decimal(byte_offset(c, a.0 as int)) + "-"@
        + decimal(byte_offset(c, a.1 as int)) + ") and oldText "@ + debug_str(b.2) + " (bytes "@ + decimal(
        byte_offset(c, b.0 as int),
    ) + "-"@ + decimal(byte_offset(c, b.1 as int)) + ")"@
}

/// What replacements found in `c` come to: the first overlap of two, in
/// order of position, or the new text.
pub open spec fn replaced_text(c: Seq<char>, s: Seq<Found>) -> Result<Seq<char>, ToolErrorView> {
    let t = sort_found(s);
    match first_overlap(t) {
        Some(i) => Err(ToolErrorView::EditFailed(overlap_text(c, t[i - 1], t[i]))),
        None => Ok(apply_found(c, t, 0, 0)),
    }
}

/// What the edits come to: the first edit that cannot be made; the first
/// overlap of replacements in order of position; or the new text.
pub open spec fn text_edits_spec(c: Seq<char>, edits: Seq<Json>) -> Result<Seq<char>, ToolErrorView> {
    match find_edits(c, edits, edits.len() as int) {
        Err(x) => Err(x),
        Ok(s) => replaced_text(c, s),
    }
}

/// Whether edit `e` can be made on `c`: it has new text, and its old text
/// occurs exactly once.
pub open spec fn edit_ok(c: Seq<char>, e: Json) -> bool {
    &&& spec_as_str(spec_get(e, "newText"@)) is Some
    &&& spec_as_str(spec_get(e, "oldText"@)) matches Some(old) && occ_count(c, old, 0) == 1
}

/// A replacement found in the unedited text.
struct Replacement {
    start: usize,
    end: usize,
    old: Vec<char>,
    new: Vec<char>,
}

impl View for Replacement {
    type V = Found;

    closed spec fn view(&self) -> Found {
        (self.start as nat, self.end as nat, self.old@, self.new@)
    }
}

spec fn found_views(s: Seq<Replacement>) -> Seq<Found> {
    s.map_values(|x: Replacement| x@)
}

/// Whether a replacement lies inside `c` and covers its old text.
pub open spec fn fits(c: Seq<char>, x: Found) -> bool {
    x.0 + x.2.len() == x.1 && x.1 <= c.len()
}

fn edit_prefix(i: usize) -> (v: Vec<char>)
    ensures
        v@ == edit_label(i as nat),
{
    let mut v: Vec<char> = Vec::new();
    extend_str(&mut v, "edits[");
    push_decimal(&mut v, i);
    extend_str(&mut v, "]: ");
    v
}

/// Finds the replacement of edit number `i`.
fn find_one(c: &Vec<char>, e: &Json, i: usize) -> (r: Result<Replacement, ToolError>)
    ensures
        r is Ok <==> edit_ok(c@, *e),
        match find_edit(c@, *e, i as nat) {
            Err(x) => r matches Err(y) && y@ == x,
            Ok(f) => r matches Ok(y) && y@ == f && fits(c@, f),
        },
{
    let old = match get_str(e, "oldText") {
        None => {
            let mut m = edit_prefix(i);
            extend_str(&mut m, "missing 'oldText'");
            return Err(ToolError::InvalidArguments(string_of(&m)));
        },
        Some(s) => s,
    };
    let new = match get_str(e, "newText") {
        None => {
            let mut m = edit_prefix(i);
            extend_str(&mut m, "missing 'newText'");
            return Err(ToolError::InvalidArguments(string_of(&m)));
        },
        Some(s) => s,
    };
    let w = chars_of(old);
    if w.len() == 0 {
        proof {
            assert(old@ =~= Seq::<char>::empty());
            assert(occ_count(c@, w@, 0) == 0);
        }
        let mut m = edit_prefix(i);
        extend_str(&mut m, "oldText must not be empty");
        return Err(ToolError::EditFailed(string_of(&m)));
    }
    proof {
        lemma_first_occ_facts(c@, w@, 0);
        assert(c@.len() == c.len());
    }
    let p = match find_occurrence(c, &w, 0) {
        None => {
            let mut m = edit_prefix(i);
            extend_str(&mut m, "oldText ");
            push_debug(&mut m, old);
            extend_str(&mut m, " not found in file");
            return Err(ToolError::EditFailed(string_of(&m)));
        },
        Some(p) => p,
    };
    let n = count_all(c, &w);
    if n > 1 {
        let mut m = edit_prefix(i);
        extend_str(&mut m, "oldText ");
        push_debug(&mut m, old);
        extend_str(&mut m, " found ");
        push_decimal(&mut m, n);
        extend_str(&mut m, " times (must be unique)");
        return Err(ToolError::EditFailed(string_of(&m)));
    }
    let end = p + w.len();
    Ok(Replacement { start: p, end, old: w, new: chars_of(new) })
}

/// Finds the replacement of every edit, or the first that cannot be made.
fn find_all(c: &Vec<char>, edits: &Vec<Json>) -> (r: Result<Vec<Replacement>, ToolError>)
    ensures
        match find_edits(c@, edits@, edits@.len() as int) {
            Err(x) => r matches Err(y) && y@ == x,
            Ok(s) => r matches Ok(v) && found_views(v@) == s && forall|k: int| 0 <= k < s.len() ==> fits(c@, #[trigger] s[k]),
        },
{
    let mut out: Vec<Replacement> = Vec::new();
    let mut i: usize = 0;
    assert(found_views(out@) =~= Seq::<Found>::empty());
    while i < edits.len()
        invariant
            i <= edits.len(),
            find_edits(c@, edits@, i as int) == Ok::<Seq<Found>, ToolErrorView>(found_views(out@)),
            out@.len() == i,
            forall|k: int| 0 <= k < i ==> fits(c@, #[trigger] found_views(out@)[k]),
        decreases edits.len() - i,
    {
        let ghost before = out@;
        match find_one(c, &edits[i], i) {
            Err(e) => {
                proof {
                    lemma_find_edits_err(c@, edits@, i + 1, edits@.len() as int);
                }
                return Err(e);
            },
            Ok(x) => {
                let ghost xv = x@;
                out.push(x);
                assert(found_views(out@) =~= found_views(before).push(xv));
            },
        }
        i += 1;
    }
    Ok(out)
}

proof fn lemma_insert_found_at(s: Seq<Found>, x: Found, j: int)
    requires
        0 <= j <= s.len(),
        forall|k: int| j <= k < s.len() ==> !(#[trigger] s[k].0 <= x.0),
        j > 0 ==> s[j - 1].0 <= x.0,
    ensures
        insert_found(s, x) == s.insert(j, x),
    decreases s.len(),
{
    if s.len() == 0 {
        assert(s.insert(j, x) =~= seq![x]);
    } else if s.last().0 <= x.0 {
        assert(j == s.len());
        assert(s.insert(j, x) =~= s.push(x));
    } else {
        let q = s.drop_last();
        assert forall|k: int| j <= k < q.len() implies !(#[trigger] q[k].0 <= x.0) by {
            assert(q[k] == s[k]);
        }
        lemma_insert_found_at(q, x, j);
        assert(s.insert(j, x) =~= q.insert(j, x).push(s.last()));
    }
}

proof fn lemma_insert_found_fits(c: Seq<char>, s: Seq<Found>, x: Found)
    requires
        forall|k: int| 0 <= k < s.len() ==> fits(c, #[trigger] s[k]),
        fits(c, x),
    ensures
        insert_found(s, x).len() == s.len() + 1,
        forall|k: int| 0 <= k < insert_found(s, x).len() ==> fits(c, #[trigger] insert_found(s, x)[k]),
    decreases s.len(),
{
    if s.len() > 0 && !(s.last().0 <= x.0) {
        let q = s.drop_last();
        assert forall|k: int| 0 <= k < q.len() implies fits(c, #[trigger] q[k]) by {
            assert(q[k] == s[k]);
        }
        lemma_insert_found_fits(c, q, x);
        let u = insert_found(q, x);
        assert forall|k: int| 0 <= k < u.push(s.last()).len() implies fits(c, #[trigger] u.push(s.last())[k]) by {
            if k < u.len() {
                assert(u.push(s.last())[k] == u[k]);
            }
        }
    } else if s.len() > 0 {
        assert forall|k: int| 0 <= k < s.push(x).len() implies fits(c, #[trigger] s.push(x)[k]) by {
            if k < s.len() {
                assert(s.push(x)[k] == s[k]);
            }
        }
    }
}

proof fn lemma_sort_found_fits(c: Seq<char>, s: Seq<Found>)
    requires
        forall|k: int| 0 <= k < s.len() ==> fits(c, #[trigger] s[k]),
    ensures
        sort_found(s).len() == s.len(),
        forall|k: int| 0 <= k < sort_found(s).len() ==> fits(c, #[trigger] sort_found(s)[k]),
    decreases s.len(),
{
    if s.len() > 0 {
        let q = s.drop_last();
        assert forall|k: int| 0 <= k < q.len() implies fits(c, #[trigger] q[k]) by {
            assert(q[k] == s[k]);
        }
        lemma_sort_found_fits(c, q);
        lemma_insert_found_fits(c, sort_found(q), s.last());
    }
}

/// Inserts a replacement after every one that starts no later.
fn insert_replacement(v: &mut Vec<Replacement>, x: Replacement)
    ensures
        found_views(final(v)@) == insert_found(found_views(old(v)@), x@),
{
    let ghost s = found_views(v@);
    let mut j = v.len();
    while j > 0 && !(v[j - 1].start <= x.start)
        invariant
            j <= v.len(),
            s == found_views(v@),
            forall|k: int| j <= k < v.len() ==> !(#[trigger] s[k].0 <= x@.0),
        decreases j,
    {
        j -= 1;
    }
    proof {
        lemma_insert_found_at(s, x@, j as int);
    }
    let ghost xv = x@;
    v.insert(j, x);
    assert(found_views(v@) =~= s.insert(j as int, xv));
}

/// Sorts replacements by where they start, keeping the order of those that
/// start together.
fn sort_replacements(items: Vec<Replacement>) -> (r: Vec<Replacement>)
    ensures
        found_views(r@) == sort_found(found_views(items@)),
{
    let ghost sv = found_views(items@);
    let mut rest = items;
    let mut out: Vec<Replacement> = Vec::new();
    let ghost mut k: int = 0;
    assert(found_views(out@) =~= sort_found(sv.take(0)));
    assert(found_views(rest@) =~= sv.skip(0));
    while rest.len() > 0
        invariant
            0 <= k <= sv.len(),
            k + rest.len() == sv.len(),
            found_views(rest@) == sv.skip(k),
            found_views(out@) == sort_found(sv.take(k)),
        decreases rest.len(),
    {
        let ghost before = rest@;
        let x = rest.remove(0);
        assert(x@ == sv[k]) by {
            assert(found_views(before)[0] == sv.skip(k)[0]);
        }
        assert(sv.take(k + 1).drop_last() =~= sv.take(k));
        assert(found_views(rest@) =~= sv.skip(k + 1)) by {
            assert(rest@ =~= before.subrange(1, before.len() as int));
            assert forall|i: int| 0 <= i < rest.len() implies found_views(rest@)[i] == sv.skip(k + 1)[i] by {
                assert(found_views(before)[i + 1] == sv.skip(k)[i + 1]);
            }
        }
        insert_replacement(&mut out, x);
        proof {
            k = k + 1;
        }
    }
    assert(sv.take(sv.len() as int) =~= sv);
    out
}

proof fn lemma_offset_fits(c: Seq<char>, k: int)
    requires
        0 <= k <= c.len(),
        encode_utf8(c).len() <= usize::MAX,
    ensures
        byte_offset(c, k) <= usize::MAX,
{
    lemma_offset_monotone(c, k, c.len() as int);
    assert(c.take(c.len() as int) =~= c);
}

/// Appends `(bytes a-b)` for the span of a replacement.
fn push_byte_span(m: &mut Vec<char>, c: &Vec<char>, x: &Replacement)
    requires
        fits(c@, x@),
        encode_utf8(c@).len() <= usize::MAX,
    ensures
        final(m)@ == old(m)@ + " (bytes "@ + decimal(byte_offset(c@, x@.0 as int)) + "-"@ + decimal(byte_offset(c@, x@.1 as int)) + ")"@,
{
    proof {
        lemma_offset_fits(c@, x@.0 as int);
        lemma_offset_fits(c@, x@.1 as int);
    }
    let a = bytes_before(c, x.start);
    let b = bytes_before(c, x.end);
    extend_str(m, " (bytes ");
    push_decimal(m, a);
    extend_str(m, "-");
    push_decimal(m, b);
    extend_str(m, ")");
}

/// The message about two replacements that overlap.
fn overlap_message(c: &Vec<char>, a: &Replacement, b: &Replacement) -> (r: String)
    requires
        fits(c@, a@),
        fits(c@, b@),
        encode_utf8(c@).len() <= usize::MAX,
    ensures
        r@ == overlap_text(c@, a@, b@),
{
    let mut m: Vec<char> = Vec::new();
    extend_str(&mut m, "Edits overlap: oldText ");
    let qa = string_of(&a.old);
    push_debug(&mut m, qa.as_str());
    push_byte_span(&mut m, c, a);
    extend_str(&mut m, " and oldText ");
    let qb = string_of(&b.old);
    push_debug(&mut m, qb.as_str());
    push_byte_span(&mut m, c, b);
    let ghost x = a@;
    let ghost y = b@;
    assert(m@ =~= overlap_text(c@, x, y)) by {
        reveal_strlit(") and oldText ");
        reveal_strlit(")");
        reveal_strlit(" and oldText ");
    }
    string_of(&m)
}

/// The first pair of neighbours that overlap, if any.
fn find_overlap(t: &Vec<Replacement>) -> (r: Option<usize>)
    ensures
        match first_overlap(found_views(t@)) {
            None => r is None,
            Some(i) => r == Some(i as usize) && 1 <= i < t@.len(),
        },
        r matches Some(i) ==> 1 <= i < t@.len(),
{
    let ghost tv = found_views(t@);
    let mut i: usize = 1;
    while i < t.len()
        invariant
            1 <= i,
            tv == found_views(t@),
            t@.len() > 0 ==> i <= t@.len(),
            forall|j: int| 1 <= j < i && j < tv.len() ==> !(#[trigger] tv[j].0 < tv[j - 1].1),
        decreases t.len() - i,
    {
        if t[i].start < t[i - 1].end {
            proof {
                reveal(first_overlap);
                assert(tv[i as int].0 < tv[i - 1].1);
                let w = choose|w: int| 1 <= w < tv.len() && #[trigger] tv[w].0 < tv[w - 1].1
                    && forall|j: int| 1 <= j < w ==> !(#[trigger] tv[j].0 < tv[j - 1].1);
                assert(1 <= w < tv.len() && tv[w].0 < tv[w - 1].1 && forall|j: int| 1 <= j < w ==> !(#[trigger] tv[j].0 < tv[j - 1].1)) by {
                    assert(forall|j: int| 1 <= j < i ==> !(#[trigger] tv[j].0 < tv[j - 1].1));
                }
                if w < i {
                    assert(!(tv[w].0 < tv[w - 1].1));
                } else if w > i {
                    assert(!(tv[i as int].0 < tv[i - 1].1));
                }
            }
            return Some(i);
        }
        i += 1;
    }
    proof {
        reveal(first_overlap);
    }
    None
}

/// The text with the replacements made, given in order and apart.
fn apply_replacements(c: &Vec<char>, t: &Vec<Replacement>) -> (r: Vec<char>)
    requires
        forall|k: int| 0 <= k < t@.len() ==> fits(c@, #[trigger] found_views(t@)[k]),
        first_overlap(found_views(t@)) is None,
    ensures
        r@ == apply_found(c@, found_views(t@), 0, 0),
{
    let ghost tv = found_views(t@);
    proof {
        reveal(first_overlap);
    }
    let mut out: Vec<char> = Vec::new();
    let mut cur: usize = 0;
    let mut k: usize = 0;
    assert(forall|j: int| 1 <= j < tv.len() ==> !(#[trigger] tv[j].0 < tv[j - 1].1));
    while k < t.len()
        invariant
            k <= t@.len(),
            tv == found_views(t@),
            cur <= c@.len(),
            forall|j: int| 0 <= j < tv.len() ==> fits(c@, #[trigger] tv[j]),
            forall|j: int| 1 <= j < tv.len() ==> !(#[trigger] tv[j].0 < tv[j - 1].1),
            k > 0 ==> cur == tv[k - 1].1,
            k == 0 ==> cur == 0,
            apply_found(c@, tv, 0, 0) == out@ + apply_found(c@, tv, k as int, cur as int),
        decreases t@.len() - k,
    {
        assert(fits(c@, tv[k as int]));
        if k > 0 {
            assert(!(tv[k as int].0 < tv[k - 1].1));
        }
        let ghost before = out@;
        let ghost rest = apply_found(c@, tv, k + 1, tv[k as int].1 as int);
        let piece = slice_chars(c, cur, t[k].start);
        extend_chars(&mut out, &piece);
        extend_chars(&mut out, &t[k].new);
        assert(apply_found(c@, tv, k as int, cur as int) == piece@ + tv[k as int].3 + rest);
        assert(before + (piece@ + tv[k as int].3 + rest) =~= out@ + rest);
        cur = t[k].end;
        k += 1;
    }
    let tail = slice_chars(c, cur, c.len());
    let ghost before = out@;
    extend_chars(&mut out, &tail);
    out
}

/// The text of a file after exact-text edits: each edit's `oldText` must
/// be non-empty and occur exactly once in the unedited text, and the
/// replacements must not overlap; they are all made on the unedited text.
/// Makes replacements found in `c`, unless two of them overlap.
fn make_replacements(c: &Vec<char>, found: Vec<Replacement>) -> (r: Result<String, ToolError>)
    requires
        forall|k: int| 0 <= k < found@.len() ==> fits(c@, #[trigger] found_views(found@)[k]),
        encode_utf8(c@).len() <= usize::MAX,
    ensures
        match replaced_text(c@, found_views(found@)) {
            Err(x) => r matches Err(e) && e@ == x,
            Ok(t) => r matches Ok(s) && s@ == t,
        },
{
    let ghost s = found_views(found@);
    proof {
        lemma_sort_found_fits(c@, s);
    }
    let t = sort_replacements(found);
    match find_overlap(&t) {
        Some(i) => {
            let m = overlap_message(c, &t[i - 1], &t[i]);
            Err(ToolError::EditFailed(m))
        },
        None => {
            let out = apply_replacements(c, &t);
            Ok(string_of(&out))
        },
    }
}

/// The text of a file after exact-text edits: each edit's `oldText` must
/// be non-empty and occur exactly once in the unedited text, and the
/// replacements must not overlap; they are all made on the unedited text.
pub fn text_edits(content: &str, edits: &Vec<Json>) -> (r: Result<String, ToolError>)
    ensures
        match text_edits_spec(content@, edits@) {
            Err(x) => r matches Err(e) && e@ == x,
            Ok(t) => r matches Ok(s) && s@ == t,
        },
{
    let total = content.as_bytes().len();
    let c = chars_of(content);
    assert(encode_utf8(c@).len() <= usize::MAX);
    match find_all(&c, edits) {
        Err(e) => Err(e),
        Ok(v) => make_replacements(&c, v),
    }
}

/// The arguments of an edit: the path, and the edits, of which there must
/// be at least one.
pub open spec fn edit_args_spec(a: Json) -> Result<(Seq<char>, Seq<Json>), ToolErrorView> {
    match spec_as_str(spec_get(a, "path"@)) {
        None => Err(ToolErrorView::InvalidArguments(msg_missing_path())),
        Some(p) => match spec_get(a, "edits"@) {
            Some(Json::Array(v)) => if v@.len() == 0 {
                Err(ToolErrorView::InvalidArguments("'edits' array must not be empty"@))
            } else {
                Ok((p, v@))
            },
            _ => Err(ToolErrorView::InvalidArguments("Missing or invalid 'edits' array"@)),
        },
    }
}

/// The arguments of an edit.
pub fn edit_args<'a>(arguments: &'a Json) -> (r: Result<(String, &'a Vec<Json>), ToolError>)
    ensures
        match edit_args_spec(*arguments) {
            Err(x) => r matches Err(e) && e@ == x,
            Ok((p, v)) => r matches Ok(y) && y.0@ == p && y.1@ == v,
        },
{
    let p = match get_str(arguments, "path") {
        None => return Err(ToolError::InvalidArguments("Missing required 'path' argument".to_string())),
        Some(p) => p,
    };
    match json_get(arguments, "edits") {
        Some(Json::Array(v)) => {
            if v.len() == 0 {
                Err(ToolError::InvalidArguments("'edits' array must not be empty".to_string()))
            } else {
                Ok((string_of(&chars_of(p)), v))
            }
        },
        _ => Err(ToolError::InvalidArguments("Missing or invalid 'edits' array".to_string())),
    }
}

/// The report of an edit.
pub open spec fn edit_report_spec(n: nat, path: Seq<char>) -> Seq<char> {
    "Applied "@ + decimal(n) + " edit(s) to '"@ + path + "'"@
}

/// The report of `n` edits made to `path`.
pub fn edit_report(n: usize, path: &str) -> (r: String)
    ensures
        r@ == edit_report_spec(n as nat, path@),
{
    let mut v: Vec<char> = Vec::new();
    extend_str(&mut v, "Applied ");
    push_decimal(&mut v, n);
    extend_str(&mut v, " edit(s) to '");
    extend_str(&mut v, path);
    extend_str(&mut v, "'");
    string_of(&v)
}

/// An edit whose text occurs once replaces that occurrence and leaves the
/// rest of the text as it was.
pub proof fn law_single_edit(c: Seq<char>, e: Json)
    requires
        edit_ok(c, e),
    ensures
        ({
            let old = spec_as_str(spec_get(e, "oldText"@))->Some_0;
            let new = spec_as_str(spec_get(e, "newText"@))->Some_0;
            let p = first_occ(c, old, 0)->Some_0;
            text_edits_spec(c, seq![e]) == Ok::<Seq<char>, ToolErrorView>(c.take(p as int) + new + c.skip((p + old.len()) as int))
        }),
{
    let old = spec_as_str(spec_get(e, "oldText"@))->Some_0;
    let new = spec_as_str(spec_get(e, "newText"@))->Some_0;
    lemma_first_occ_facts(c, old, 0);
    let p = first_occ(c, old, 0)->Some_0;
    let edits = seq![e];
    assert(find_edits(c, edits, 0) == Ok::<Seq<Found>, ToolErrorView>(Seq::empty()));
    let f: Found = (p, p + old.len(), old, new);
    assert(find_edit(c, edits[0], 0) == Ok::<Found, ToolErrorView>(f));
    assert(find_edits(c, edits, 1) == Ok::<Seq<Found>, ToolErrorView>(seq![f]));
    let t = seq![f];
    assert(Seq::<Found>::empty().push(f) =~= t);
    assert(sort_found(t.drop_last()) =~= Seq::<Found>::empty());
    assert(sort_found(t) == t);
    reveal(first_overlap);
    assert(first_overlap(t) is None);
    assert(apply_found(c, t, 1, (p + old.len()) as int) == c.subrange((p + old.len()) as int, c.len() as int));
    assert(c.take(p as int) =~= c.subrange(0, p as int));
    assert(c.skip((p + old.len()) as int) =~= c.subrange((p + old.len()) as int, c.len() as int));
}

/// Edits are all matched against the unedited text: when two edits can be
/// made together, the order in which they are given does not matter.
pub proof fn law_edit_order_irrelevant(c: Seq<char>, a: Json, b: Json)
    requires
        text_edits_spec(c, seq![a, b]) is Ok,
    ensures
        text_edits_spec(c, seq![b, a]) == text_edits_spec(c, seq![a, b]),
{
    let ab = seq![a, b];
    let ba = seq![b, a];
    assert(ab[0] == a && ab[1] == b && ba[0] == b && ba[1] == a);
    assert(find_edits(c, ab, 0) == Ok::<Seq<Found>, ToolErrorView>(Seq::empty()));
    assert(find_edits(c, ba, 0) == Ok::<Seq<Found>, ToolErrorView>(Seq::empty()));
    assert(ab.len() == 2);
    assert(find_edits(c, ab, 2) is Ok);
    assert(find_edits(c, ab, 1) is Ok);
    let fa = find_edit(c, a, 0)->Ok_0;
    let fb = find_edit(c, b, 1)->Ok_0;
    assert(find_edit(c, a, 0) is Ok);
    assert(find_edit(c, b, 1) is Ok);
    assert(find_edit(c, b, 0) == Ok::<Found, ToolErrorView>(fb));
    assert(find_edit(c, a, 1) == Ok::<Found, ToolErrorView>(fa));
    let old_a = spec_as_str(spec_get(a, "oldText"@))->Some_0;
    let old_b = spec_as_str(spec_get(b, "oldText"@))->Some_0;
    assert(old_a.len() > 0 && old_b.len() > 0);
    let s1 = seq![fa, fb];
    let s2 = seq![fb, fa];
    assert(Seq::<Found>::empty().push(fa).push(fb) =~= s1);
    assert(Seq::<Found>::empty().push(fb).push(fa) =~= s2);
    assert(find_edits(c, ab, 1) == Ok::<Seq<Found>, ToolErrorView>(seq![fa]));
    assert(find_edits(c, ab, 2) == Ok::<Seq<Found>, ToolErrorView>(s1));
    assert(find_edits(c, ba, 1) == Ok::<Seq<Found>, ToolErrorView>(seq![fb]));
    assert(find_edits(c, ba, 2) == Ok::<Seq<Found>, ToolErrorView>(s2));
    assert(s1.drop_last() =~= seq![fa]);
    assert(s2.drop_last() =~= seq![fb]);
    assert(seq![fa].drop_last() =~= Seq::<Found>::empty());
    assert(seq![fb].drop_last() =~= Seq::<Found>::empty());
    assert(sort_found(Seq::<Found>::empty()) == Seq::<Found>::empty());
    assert(insert_found(Seq::<Found>::empty(), fa) =~= seq![fa]);
    assert(insert_found(Seq::<Found>::empty(), fb) =~= seq![fb]);
    assert(seq![fa].last() == fa && seq![fb].last() == fb);
    assert(sort_found(seq![fa]) =~= seq![fa]);
    assert(sort_found(seq![fb]) =~= seq![fb]);
    reveal(first_overlap);
    if fa.0 == fb.0 {
        let t = sort_found(s1);
        assert(t =~= seq![fa, fb]);
        assert(t[1].0 < t[0].1);
        assert(first_overlap(t) is Some);
        assert(false);
    }
    if fa.0 < fb.0 {
        assert(sort_found(s1) =~= seq![fa, fb]);
        assert(insert_found(Seq::<Found>::empty(), fb) =~= seq![fb]);
        assert(sort_found(s2) =~= seq![fa, fb]);
    } else {
        assert(insert_found(Seq::<Found>::empty(), fa) =~= seq![fa]);
        assert(sort_found(s1) =~= seq![fb, fa]);
        assert(sort_found(s2) =~= seq![fb, fa]);
    }
}

proof fn lemma_find_edits_ok(c: Seq<char>, edits: Seq<Json>, k: int)
    requires
        0 <= k <= edits.len(),
        find_edits(c, edits, k) is Ok,
    ensures
        forall|i: int| 0 <= i < k ==> edit_ok(c, #[trigger] edits[i]),
    decreases k,
{
    if k > 0 {
        lemma_find_edits_ok(c, edits, k - 1);
        assert(find_edit(c, edits[k - 1], (k - 1) as nat) is Ok);
    }
}

/// Edits go through only when the old text of each of them occurs exactly
/// once in the unedited text.
pub proof fn law_edits_need_unique_text(c: Seq<char>, edits: Seq<Json>)
    requires
        text_edits_spec(c, edits) is Ok,
    ensures
        forall|i: int| 0 <= i < edits.len() ==> edit_ok(c, #[trigger] edits[i]),
{
    lemma_find_edits_ok(c, edits, edits.len() as int);
}

} // verus!
