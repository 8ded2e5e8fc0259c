//! Planning a hash-anchored edit of a file: every check, the new content,
//! and the report, from the current content and the operations.
use vstd::prelude::*;
use crate::text::{chars_of, decimal, extend_chars, extend_str, push_decimal, slice_chars, string_of, visible, visible_chars, views};
use crate::tools::error::{ToolError, ToolErrorView};
use crate::tools::hashline::diff::{changed_line_range, changed_range, compact_diff, compact_diff_text, range_view};
use crate::tools::hashline::edit::Op;
use crate::tools::hashline::guard::{generated_guard, guard_large_edit, large_edit_guard, validate_generated_guard};
use crate::tools::hashline::hash::{file_digest, file_hash, format_region_chars, region_text};
use crate::tools::hashline::spans::{apply_spans, apply_spans_spec, op_fits, ops_size, resolve, resolve_spans, SpanView};

verus! {

/// What an edit came to: whether it changed anything, the new content, and
/// what to report.
#[derive(Debug)]
pub struct EditOutcome {
    pub applied: bool,
    pub new_content: String,
    pub text: String,
    pub old_hash: String,
    pub new_hash: String,
    pub changed: Option<(usize, usize)>,
    pub lines_added: i128,
    pub diff_preview: String,
    pub anchors_start: Option<usize>,
    pub anchors_end: Option<usize>,
}

pub open spec fn opt_nat(o: Option<usize>) -> Option<nat> {
    match o {
        Some(x) => Some(x as nat),
        None => None,
    }
}

/// First line of the anchors shown after an edit: two before the change.
pub open spec fn anchors_lo(s: nat) -> nat {
    if s >= 3 { (s - 2) as nat } else { 1 }
}

/// Last line of the anchors shown after an edit: two after the change,
/// within the file.
pub open spec fn anchors_hi(e: nat, n: nat) -> nat {
    if e + 2 <= n { e + 2 } else { n }
}

/// The anchors shown for the change `(s, e)` in new text `nc`.
pub open spec fn window_text(nc: Seq<char>, s: nat, e: nat) -> Seq<char> {
    let n = visible(nc).len();
    let st = anchors_lo(s);
    let en = anchors_hi(e, n);
    if st <= en && n > 0 {
        region_text(visible(nc).subrange(st - 1, en as int), st as usize)
    } else {
        Seq::empty()
    }
}

pub open spec fn noop_text(path: Seq<char>) -> Seq<char> {
    "No changes needed for "@ + path + "."@
}

/// The report of an applied edit.
pub open spec fn applied_text(path: Seq<char>, count: nat, diff: Seq<char>, window: Option<(nat, nat)>, anchors: Seq<char>) -> Seq<char> {
    "Applied "@ + decimal(count) + " edit(s) to "@ + path + ".\n\nDiff preview:\n"@ + diff + (match window {
        Some((st, en)) => if anchors.len() > 0 {
            "\n\n--- Updated anchors "@ + decimal(st) + "-"@ + decimal(en) + " ---\n"@ + anchors
        } else {
            Seq::empty()
        },
        None => Seq::empty(),
    })
}

/// The outcome of an edit that changed nothing.
pub open spec fn is_noop_outcome(o: EditOutcome, path: Seq<char>, c: Seq<char>) -> bool {
    &&& !o.applied
    &&& o.new_content@ == c
    &&& o.text@ == noop_text(path)
    &&& o.old_hash@ == file_digest(c)
    &&& o.new_hash@ == file_digest(c)
    &&& o.changed is None
    &&& o.lines_added == 0
    &&& o.diff_preview@ == Seq::<char>::empty()
    &&& o.anchors_start is None
    &&& o.anchors_end is None
}

/// The anchors window of a change in a text of `n` lines.
pub open spec fn window_of(changed: Option<(nat, nat)>, n: nat) -> Option<(nat, nat)> {
    match changed {
        Some((s, e)) => Some((anchors_lo(s), anchors_hi(e, n))),
        None => None,
    }
}

/// The outcome of applying spans `t` to content `c`.
pub open spec fn is_applied_outcome(o: EditOutcome, path: Seq<char>, c: Seq<char>, t: Seq<SpanView>) -> bool {
    let nc = apply_spans_spec(c, t);
    let changed = changed_range(c, nc);
    let diff = compact_diff_text(c, nc, 80);
    let window = window_of(changed, visible(nc).len());
    let anchors = match changed {
        Some((s, e)) => window_text(nc, s, e),
        None => Seq::empty(),
    };
    &&& o.applied
    &&& o.new_content@ == nc
    &&& o.old_hash@ == file_digest(c)
    &&& o.new_hash@ == file_digest(nc)
    &&& range_view(o.changed) == changed
    &&& o.diff_preview@ == diff
    &&& o.lines_added == visible(nc).len() - visible(c).len()
    &&& opt_nat(o.anchors_start) == (match window { Some(w) => Some(w.0), None => None::<nat> })
    &&& opt_nat(o.anchors_end) == (match window { Some(w) => Some(w.1), None => None::<nat> })
    &&& o.text@ == applied_text(path, t.len(), diff, window, anchors)
}

/// What an edit of content `c` at `path` comes to: a refusal of the path or
/// a generated file; an error of the operations; no change; a refusal of a
/// large edit; or the applied edit.
pub open spec fn plan_ok(r: Result<EditOutcome, ToolError>, path: Seq<char>, c: Seq<char>, scope: Seq<char>, ops: Seq<Op>) -> bool {
    match generated_guard(path, c, scope) {
        Err(x) => r matches Err(e) && e@ == x,
        Ok(_) => match resolve(c, ops) {
            Err(x) => r matches Err(e) && e@ == x,
            Ok(t) => if t.len() == 0 {
                r matches Ok(o) && is_noop_outcome(o, path, c)
            } else {
                match large_edit_guard(c, t, scope) {
                    Err(x) => r matches Err(e) && e@ == x,
                    Ok(_) => r matches Ok(o) && is_applied_outcome(o, path, c, t),
                }
            },
        },
    }
}

fn region_of(lines: &Vec<Vec<char>>, st: usize, en: usize) -> (r: Vec<char>)
    requires
        1 <= st <= en <= lines.len(),
    ensures
        r@ == region_text(views(lines@).subrange(st - 1, en as int), st),
{
    let mut part: Vec<Vec<char>> = Vec::new();
    let mut i = st - 1;
    while i < en
        invariant
            1 <= st,
            st - 1 <= i <= en <= lines.len(),
            views(lines@).len() == lines.len(),
            views(part@) == views(lines@).subrange(st - 1, i as int),
        decreases en - i,
    {
        let l = slice_chars(&lines[i], 0, lines[i].len());
        assert(lines@[i as int]@.subrange(0, lines@[i as int]@.len() as int) =~= lines@[i as int]@);
        let ghost before = part@;
        part.push(l);
        assert(views(lines@)[i as int] == lines@[i as int]@);
        assert(views(part@) =~= views(before).push(l@));
        assert(views(lines@).subrange(st - 1, i + 1) =~= views(lines@).subrange(st - 1, i as int).push(views(lines@)[i as int]));
        i += 1;
    }
    format_region_chars(&part, st)
}

fn anchors_for(changed: Option<(usize, usize)>, nv: &Vec<char>) -> (r: (Option<usize>, Option<usize>, Vec<char>))
    ensures
        opt_nat(r.0) == (match window_of(range_view(changed), visible(nv@).len()) { Some(w) => Some(w.0), None => None::<nat> }),
        opt_nat(r.1) == (match window_of(range_view(changed), visible(nv@).len()) { Some(w) => Some(w.1), None => None::<nat> }),
        r.2@ == (match range_view(changed) {
            Some((s, e)) => window_text(nv@, s, e),
            None => Seq::empty(),
        }),
{
    let new_lines = visible_chars(nv);
    assert(views(new_lines@).len() == new_lines@.len());
    let n = new_lines.len();
    match changed {
        Some((s, e)) => {
            let st: usize = if s >= 3 { s - 2 } else { 1 };
            let en: usize = if n >= 2 && e <= n - 2 { e + 2 } else { n };
            let text = if st <= en && n > 0 {
                region_of(&new_lines, st, en)
            } else {
                Vec::new()
            };
            proof {
                if !(st <= en && n > 0) {
                    assert(text@ =~= Seq::<char>::empty());
                }
            }
            (Some(st), Some(en), text)
        },
        None => {
            let v: Vec<char> = Vec::new();
            assert(v@ =~= Seq::<char>::empty());
            (None, None, v)
        },
    }
}

fn report_text(path: &str, count: usize, diff: &str, st: Option<usize>, en: Option<usize>, anchors: &Vec<char>) -> (r: Vec<char>)
    requires
        st is Some <==> en is Some,
    ensures
        r@ == applied_text(
            path@,
            count as nat,
            diff@,
            match (st, en) { (Some(a), Some(b)) => Some((a as nat, b as nat)), _ => None },
            anchors@,
        ),
{
    let mut t: Vec<char> = Vec::new();
    extend_str(&mut t, "Applied ");
    push_decimal(&mut t, count);
    extend_str(&mut t, " edit(s) to ");
    extend_str(&mut t, path);
    extend_str(&mut t, ".\n\nDiff preview:\n");
    extend_str(&mut t, diff);
    let ghost base = t@;
    match (st, en) {
        (Some(a), Some(b)) => {
            if anchors.len() > 0 {
                extend_str(&mut t, "\n\n--- Updated anchors ");
                push_decimal(&mut t, a);
                extend_str(&mut t, "-");
                push_decimal(&mut t, b);
                extend_str(&mut t, " ---\n");
                extend_chars(&mut t, anchors);
            } else {
                assert(t@ =~= base + Seq::<char>::empty());
            }
        },
        _ => {
            assert(t@ =~= base + Seq::<char>::empty());
        },
    }
    assert(t@ =~= applied_text(
        path@,
        count as nat,
        diff@,
        match (st, en) { (Some(a), Some(b)) => Some((a as nat, b as nat)), _ => None },
        anchors@,
    ));
    t
}

fn finish_applied(path: &str, content: &str, c: &Vec<char>, spans: &Vec<crate::tools::hashline::spans::Span>) -> (o: EditOutcome)
    requires
        c@ == content@,
        content@.len() < usize::MAX,
        crate::tools::hashline::spans::spans_applicable(crate::tools::hashline::spans::span_views(spans@), c.len() as nat),
        c.len() + crate::tools::hashline::spans::repl_total(crate::tools::hashline::spans::span_views(spans@)) < usize::MAX,
    ensures
        is_applied_outcome(o, path@, content@, crate::tools::hashline::spans::span_views(spans@)),
{
    let nv = apply_spans(c, spans);
    let result = string_of(&nv);
    let changed = changed_line_range(content, result.as_str());
    let new_hash = file_hash(result.as_str());
    let old_hash = file_hash(content);
    let diff_preview = compact_diff(content, result.as_str(), 80);
    let nl = visible_chars(&nv);
    let ol = visible_chars(c);
    assert(views(nl@).len() == nl@.len());
    assert(views(ol@).len() == ol@.len());
    let new_count = nl.len();
    let old_count = ol.len();
    let (st, en, anchors) = anchors_for(changed, &nv);
    let t = report_text(path, spans.len(), diff_preview.as_str(), st, en, &anchors);
    EditOutcome {
        applied: true,
        new_content: result,
        text: string_of(&t),
        old_hash,
        new_hash,
        changed,
        lines_added: new_count as i128 - old_count as i128,
        diff_preview,
        anchors_start: st,
        anchors_end: en,
    }
}

/// Plans a hash-anchored edit of `content` (the file at `path`): refuses
/// protected and generated files outside a broad refactor, resolves the
/// operations, refuses edits too large for the scope, and computes the new
/// content, the hashes, the diff preview and the refreshed anchors.
pub fn plan_hashline_edit(path: &str, content: &str, scope: &str, ops: &Vec<Op>) -> (r: Result<EditOutcome, ToolError>)
    requires
        content@.len() + ops_size(ops@) < usize::MAX,
        forall|i: int| 0 <= i < ops.len() ==> op_fits(#[trigger] ops@[i], content@.len()),
    ensures
        plan_ok(r, path@, content@, scope@, ops@),
{
    let c = chars_of(content);
    match validate_generated_guard(path, &c, scope) {
        Err(e) => return Err(e),
        Ok(()) => {},
    }
    let spans = match resolve_spans(&c, ops) {
        Err(e) => return Err(e),
        Ok(s) => s,
    };
    if spans.len() == 0 {
        let mut t: Vec<char> = Vec::new();
        extend_str(&mut t, "No changes needed for ");
        extend_str(&mut t, path);
        extend_str(&mut t, ".");
        assert(t@ =~= noop_text(path@));
        let empty: Vec<char> = Vec::new();
        return Ok(EditOutcome {
            applied: false,
            new_content: string_of(&c),
            text: string_of(&t),
            old_hash: file_hash(content),
            new_hash: file_hash(content),
            changed: None,
            lines_added: 0,
            diff_preview: string_of(&empty),
            anchors_start: None,
            anchors_end: None,
        });
    }
    match guard_large_edit(&c, &spans, scope) {
        Err(e) => return Err(e),
        Ok(()) => {},
    }
    Ok(finish_applied(path, content, &c, &spans))
}

/// An edit with no operations changes nothing: unless the file is refused,
/// it is a no-op that keeps the content and its hash.
pub proof fn law_no_ops_is_noop(r: Result<EditOutcome, ToolError>, path: Seq<char>, c: Seq<char>, scope: Seq<char>)
    requires
        plan_ok(r, path, c, scope, Seq::<Op>::empty()),
        generated_guard(path, c, scope) is Ok,
    ensures
        r matches Ok(o) && is_noop_outcome(o, path, c),
{
    crate::tools::hashline::spans::law_no_ops_no_spans(c);
}

} // verus!
