//! Resolving validated operations into character spans of the file, putting
//! them in order, refusing overlaps, and applying them.
use vstd::prelude::*;
use crate::text::{
    extend_chars, join, join_chars, lemma_split_nl_facts, slice_chars, split_nl, views, visible,
    visible_chars,
};
use crate::tools::error::{ToolError, ToolErrorView};
use crate::tools::hashline::edit::{
    check_all_anchors, check_anchor_spec, check_op_anchors, lemma_check_all_step, stale_error,
    stale_text, validate_all_anchors, mismatch_views, Mismatch, Op,
};
use crate::tools::hashline::hash::{string_views, vec_chars_of_strings};
use crate::text::chars_of;

verus! {

// ---------------------------------------------------------------------------
// Line offsets
// ---------------------------------------------------------------------------

/// Character offset where line `i` (0-based) starts: every earlier line
/// and its newline come before it.
pub open spec fn line_offset(lines: Seq<Seq<char>>, i: int) -> nat
    decreases i,
{
    if i <= 0 {
        0
    } else {
        line_offset(lines, i - 1) + lines[i - 1].len() + 1
    }
}

proof fn lemma_line_offset_prefix(p: Seq<Seq<char>>, i: int)
    requires
        0 <= i < p.len(),
    ensures
        line_offset(p, i) == line_offset(p.drop_last(), i),
    decreases i,
{
    if i > 0 {
        lemma_line_offset_prefix(p, i - 1);
    }
}

pub proof fn lemma_line_offset_monotone(p: Seq<Seq<char>>, i: int, j: int)
    requires
        i <= j,
    ensures
        line_offset(p, i) <= line_offset(p, j),
    decreases j - i,
{
    if i < j {
        lemma_line_offset_monotone(p, i, j - 1);
    }
}

/// Within the joined text, each piece ends no later than the text.
proof fn lemma_join_offsets(p: Seq<Seq<char>>)
    requires
        p.len() >= 1,
    ensures
        line_offset(p, p.len() - 1) + p.last().len() == join(p, seq!['\n']).len(),
        forall|i: int| 0 <= i < p.len() ==> line_offset(p, i) + (#[trigger] p[i]).len() <= join(p, seq!['\n']).len(),
    decreases p.len(),
{
    if p.len() > 1 {
        let q = p.drop_last();
        lemma_join_offsets(q);
        lemma_line_offset_prefix(p, p.len() - 2);
        assert forall|i: int| 0 <= i < p.len() implies line_offset(p, i) + (#[trigger] p[i]).len() <= join(p, seq!['\n']).len() by {
            if i < p.len() - 1 {
                lemma_line_offset_prefix(p, i);
                assert(q[i] == p[i]);
            }
        }
    }
}

/// Every visible line of a text lies within the text.
pub proof fn lemma_visible_offsets(c: Seq<char>)
    ensures
        forall|i: int| 0 <= i < visible(c).len() ==> line_offset(visible(c), i) + (#[trigger] visible(c)[i]).len() <= c.len(),
{
    if c.len() > 0 {
        lemma_split_nl_facts(c);
        let p = split_nl(c);
        lemma_join_offsets(p);
        assert forall|i: int| 0 <= i < visible(c).len() implies line_offset(visible(c), i) + (#[trigger] visible(c)[i]).len() <= c.len() by {
            if c.last() == '\n' {
                lemma_line_offset_prefix(p, i);
                assert(visible(c)[i] == p[i]);
            }
            assert(p[i] == p[i]);
        }
    }
}

/// The start offset of every line.
pub fn line_offsets(lines: &Vec<Vec<char>>, total: usize) -> (starts: Vec<usize>)
    requires
        forall|i: int| 0 <= i < lines.len() ==> line_offset(views(lines@), i) + (#[trigger] lines@[i]@).len() <= total,
    ensures
        starts.len() == lines.len(),
        forall|i: int| 0 <= i < lines.len() ==> starts@[i] == line_offset(views(lines@), i),
{
    let mut starts: Vec<usize> = Vec::new();
    let mut off: usize = 0;
    let mut i: usize = 0;
    while i < lines.len()
        invariant
            i <= lines.len(),
            starts.len() == i,
            i < lines.len() ==> off == line_offset(views(lines@), i as int),
            forall|i: int| 0 <= i < lines.len() ==> line_offset(views(lines@), i) + (#[trigger] lines@[i]@).len() <= total,
            forall|j: int| 0 <= j < i ==> starts@[j] == line_offset(views(lines@), j),
        decreases lines.len() - i,
    {
        starts.push(off);
        assert(views(lines@)[i as int] == lines@[i as int]@);
        assert(line_offset(views(lines@), i as int) + lines@[i as int]@.len() <= total);
        if i + 1 < lines.len() {
            assert(line_offset(views(lines@), i + 1) == off + views(lines@)[i as int].len() + 1);
            assert(line_offset(views(lines@), i + 1) + lines@[i + 1]@.len() <= total);
            off = off + lines[i].len() + 1;
        }
        i += 1;
    }
    starts
}

/// The visible lines of a text and where each starts.
pub fn build_index(content: &Vec<char>) -> (r: (Vec<Vec<char>>, Vec<usize>))
    ensures
        views(r.0@) == visible(content@),
        r.1.len() == r.0.len(),
        forall|i: int| 0 <= i < r.0.len() ==> r.1@[i] == line_offset(visible(content@), i),
        forall|i: int| 0 <= i < r.0.len() ==> r.1@[i] + (#[trigger] r.0@[i]@).len() <= content.len(),
{
    let lines = visible_chars(content);
    proof {
        lemma_visible_offsets(content@);
        assert forall|i: int| 0 <= i < lines.len() implies line_offset(views(lines@), i) + (#[trigger] lines@[i]@).len() <= content.len() by {
            assert(views(lines@)[i] == lines@[i]@);
        }
    }
    let starts = line_offsets(&lines, content.len());
    (lines, starts)
}

/// The end of line `line` (1-based), past its newline when another line
/// follows and the text goes on.
pub fn line_end(lines: &Vec<Vec<char>>, starts: &Vec<usize>, line: usize, content: &Vec<char>) -> (end: usize)
    requires
        1 <= line <= lines.len(),
        starts.len() == lines.len(),
        starts@[line - 1] + lines@[line - 1]@.len() <= content.len(),
    ensures
        end == (if line < lines.len() && starts@[line - 1] + lines@[line - 1]@.len() < content.len() {
            starts@[line - 1] + lines@[line - 1]@.len() + 1
        } else {
            starts@[line - 1] + lines@[line - 1]@.len()
        }),
        end <= content.len(),
{
    let idx = line - 1;
    let mut end = starts[idx] + lines[idx].len();
    if line < lines.len() && end < content.len() {
        end += 1;
    }
    end
}

/// What a span does.
#[derive(Clone, Copy, PartialEq, Eq, Debug, Structural)]
pub enum SpanKind {
    Replace,
    Insert,
    ReplaceText,
}

/// A resolved edit: characters `start..end` of the file are replaced by
/// `repl`; `line_start..=line_end` are the lines it concerns.
#[derive(Debug)]
pub struct Span {
    pub start: usize,
    pub end: usize,
    pub repl: Vec<char>,
    pub line_start: usize,
    pub line_end: usize,
    pub kind: SpanKind,
}

pub struct SpanView {
    pub start: nat,
    pub end: nat,
    pub repl: Seq<char>,
    pub line_start: nat,
    pub line_end: nat,
    pub kind: SpanKind,
}

impl View for Span {
    type V = SpanView;

    open spec fn view(&self) -> SpanView {
        SpanView {
            start: self.start as nat,
            end: self.end as nat,
            repl: self.repl@,
            line_start: self.line_start as nat,
            line_end: self.line_end as nat,
            kind: self.kind,
        }
    }
}

pub open spec fn span_views(s: Seq<Span>) -> Seq<SpanView> {
    s.map_values(|x: Span| x@)
}


// ---------------------------------------------------------------------------
// Occurrences
// ---------------------------------------------------------------------------

/// The first position at or after `from` where `w` occurs in `c`.
pub open spec fn first_occ(c: Seq<char>, w: Seq<char>, from: nat) -> Option<nat>
    decreases c.len() + 1 - from,
{
    if from + w.len() > c.len() {
        None
    } else if c.subrange(from as int, (from + w.len()) as int) == w {
        Some(from)
    } else {
        first_occ(c, w, from + 1)
    }
}

fn matches_at(c: &Vec<char>, w: &Vec<char>, p: usize) -> (r: bool)
    requires
        p + w.len() <= c.len(),
    ensures
        r == (c@.subrange(p as int, p + w.len()) == w@),
{
    let mut k: usize = 0;
    while k < w.len()
        invariant
            k <= w.len(),
            p + w.len() <= c.len(),
            forall|j: int| 0 <= j < k ==> c@[p + j] == w@[j],
        decreases w.len() - k,
    {
        if c[p + k] != w[k] {
            assert(c@.subrange(p as int, p + w.len())[k as int] != w@[k as int]);
            return false;
        }
        k += 1;
    }
    assert(c@.subrange(p as int, p + w.len()) =~= w@);
    true
}

/// The first occurrence of `w` in `c` at or after `from`.
pub fn find_occurrence(c: &Vec<char>, w: &Vec<char>, from: usize) -> (r: Option<usize>)
    requires
        from <= c.len(),
    ensures
        match first_occ(c@, w@, from as nat) {
            None => r is None,
            Some(p) => r == Some(p as usize),
        },
{
    let mut p = from;
    while p <= c.len() && w.len() <= c.len() - p
        invariant
            from <= p,
            p <= c.len() + 1,
            first_occ(c@, w@, from as nat) == first_occ(c@, w@, p as nat),
        decreases c.len() + 1 - p,
    {
        proof {
            if p == c.len() {
                assert(c@.subrange(p as int, p as int) =~= w@);
            }
        }
        if matches_at(c, w, p) {
            return Some(p);
        }
        p += 1;
    }
    None
}

// ---------------------------------------------------------------------------
// The span of one operation
// ---------------------------------------------------------------------------

/// Where line `line` (1-based) ends, past its newline when another line
/// follows and the text goes on.
pub open spec fn line_end_at(lines: Seq<Seq<char>>, c: Seq<char>, line: int) -> nat {
    let e = line_offset(lines, line - 1) + lines[line - 1].len();
    if line < lines.len() && e < c.len() {
        (e + 1) as nat
    } else {
        e
    }
}

/// The end of the text of line `line` (1-based), before its newline.
pub open spec fn text_end(lines: Seq<Seq<char>>, line: int) -> nat {
    line_offset(lines, line - 1) + lines[line - 1].len()
}

pub open spec fn nl() -> Seq<char> {
    seq!['\n']
}

/// The payload lines joined with newlines.
pub open spec fn payload(repl: Seq<String>) -> Seq<char> {
    join(string_views(repl), nl())
}

pub open spec fn msg_empty_old() -> Seq<char> {
    "[E_BAD_OP] replace_text requires non-empty oldText."@
}

pub open spec fn msg_no_match() -> Seq<char> {
    "[E_NO_MATCH] replace_text found no exact unique match in the current file."@
}

pub open spec fn msg_multi_match() -> Seq<char> {
    "[E_MULTI_MATCH] replace_text found multiple exact matches in the current file. Re-read and use hashline edits."@
}

pub open spec fn msg_overlap() -> Seq<char> {
    "[E_OVERLAP] Edits overlap or target the same insertion boundary; merge them into one edit."@
}

/// The span that one operation resolves to, its anchors being valid.
pub open spec fn op_span(c: Seq<char>, lines: Seq<Seq<char>>, op: Op) -> Result<SpanView, ToolErrorView> {
    match op {
        Op::Replace { pos, end, lines: repl } => {
            let el: int = match end {
                Some(e) => e.line as int,
                None => pos.line as int,
            };
            let r = payload(repl@);
            Ok(SpanView {
                start: line_offset(lines, pos.line - 1),
                end: if r.len() == 0 { line_end_at(lines, c, el) } else { text_end(lines, el) },
                repl: r,
                line_start: pos.line as nat,
                line_end: el as nat,
                kind: SpanKind::Replace,
            })
        },
        Op::Append { pos, lines: repl } => {
            let txt = payload(repl@);
            let start: nat = if c.len() == 0 {
                0
            } else {
                match pos {
                    Some(a) => text_end(lines, a.line as int),
                    None => c.len(),
                }
            };
            let r = if c.len() == 0 {
                txt
            } else if pos is Some {
                nl() + txt
            } else if c.last() == '\n' {
                txt + nl()
            } else {
                nl() + txt
            };
            Ok(SpanView {
                start,
                end: start,
                repl: r,
                line_start: match pos {
                    Some(a) => (a.line + 1) as nat,
                    None => lines.len() + 1,
                },
                line_end: match pos {
                    Some(a) => (a.line + repl@.len()) as nat,
                    None => lines.len() + repl@.len(),
                },
                kind: SpanKind::Insert,
            })
        },
        Op::Prepend { pos, lines: repl } => {
            let txt = payload(repl@);
            let start: nat = match pos {
                Some(a) => line_offset(lines, a.line - 1),
                None => 0,
            };
            Ok(SpanView {
                start,
                end: start,
                repl: if c.len() == 0 { txt } else { txt + nl() },
                line_start: match pos {
                    Some(a) => a.line as nat,
                    None => 1,
                },
                line_end: match pos {
                    Some(a) => (a.line + repl@.len() - 1) as nat,
                    None => repl@.len(),
                },
                kind: SpanKind::Insert,
            })
        },
        Op::ReplaceText { old, new } => {
            if old@.len() == 0 {
                Err(ToolErrorView::InvalidArguments(msg_empty_old()))
            } else {
                match first_occ(c, old@, 0) {
                    None => Err(ToolErrorView::EditFailed(msg_no_match())),
                    Some(p) => match first_occ(c, old@, p + old@.len()) {
                        Some(_) => Err(ToolErrorView::EditFailed(msg_multi_match())),
                        None => Ok(SpanView {
                            start: p,
                            end: p + old@.len(),
                            repl: new@,
                            line_start: 1,
                            line_end: 1,
                            kind: SpanKind::ReplaceText,
                        }),
                    },
                }
            }
        },
    }
}

proof fn lemma_first_occ_bounds(c: Seq<char>, w: Seq<char>, from: nat)
    ensures
        first_occ(c, w, from) matches Some(p) ==> from <= p && p + w.len() <= c.len(),
    decreases c.len() + 1 - from,
{
    if from + w.len() <= c.len() && c.subrange(from as int, (from + w.len()) as int) != w {
        lemma_first_occ_bounds(c, w, from + 1);
    }
}

/// The anchors of an operation name existing lines, in order.
pub open spec fn anchors_ok(op: Op, n: nat) -> bool {
    match op {
        Op::Replace { pos, end, lines: _ } => 1 <= pos.line <= n && match end {
            Some(e) => 1 <= e.line <= n && pos.line <= e.line,
            None => true,
        },
        Op::Append { pos, lines: _ } => match pos {
            Some(a) => 1 <= a.line <= n,
            None => true,
        },
        Op::Prepend { pos, lines: _ } => match pos {
            Some(a) => 1 <= a.line <= n,
            None => true,
        },
        Op::ReplaceText { old: _, new: _ } => true,
    }
}

/// Line numbers of an operation's span fit in a machine word.
pub open spec fn op_fits(op: Op, n: nat) -> bool {
    match op {
        Op::Append { pos: _, lines: repl } => n + repl@.len() + 1 <= usize::MAX,
        Op::Prepend { pos: _, lines: repl } => n + repl@.len() <= usize::MAX,
        _ => true,
    }
}

pub open spec fn span_in(v: SpanView, len: nat) -> bool {
    v.start <= v.end <= len
}

/// The line index of a text: its visible lines and where each starts.
pub open spec fn index_of(c: Seq<char>, lines: Seq<Vec<char>>, starts: Seq<usize>) -> bool {
    &&& views(lines) == visible(c)
    &&& starts.len() == lines.len()
    &&& forall|i: int| 0 <= i < lines.len() ==> starts[i] == line_offset(visible(c), i)
    &&& forall|i: int| 0 <= i < lines.len() ==> starts[i] + (#[trigger] lines[i]@).len() <= c.len()
}

fn payload_chars(repl: &Vec<String>) -> (r: Vec<char>)
    ensures
        r@ == payload(repl@),
{
    let parts = vec_chars_of_strings(repl.as_slice());
    let sep: Vec<char> = vec!['\n'];
    assert(sep@ =~= nl());
    join_chars(&parts, &sep)
}

fn with_newline_before(txt: &Vec<char>) -> (r: Vec<char>)
    ensures
        r@ == nl() + txt@,
{
    let mut r: Vec<char> = vec!['\n'];
    extend_chars(&mut r, txt);
    assert(r@ =~= nl() + txt@);
    r
}

fn with_newline_after(txt: &Vec<char>) -> (r: Vec<char>)
    ensures
        r@ == txt@ + nl(),
{
    let mut r: Vec<char> = Vec::new();
    extend_chars(&mut r, txt);
    r.push('\n');
    assert(r@ =~= txt@ + nl());
    r
}

/// Resolves one operation, whose anchors are valid, into a span.
fn op_span_exec(c: &Vec<char>, lines: &Vec<Vec<char>>, starts: &Vec<usize>, op: &Op) -> (r: Result<Span, ToolError>)
    requires
        index_of(c@, lines@, starts@),
        anchors_ok(*op, lines.len() as nat),
        op_fits(*op, lines.len() as nat),
    ensures
        match op_span(c@, visible(c@), *op) {
            Err(x) => r matches Err(e) && e@ == x,
            Ok(v) => r matches Ok(s) && s@ == v && span_in(v, c.len() as nat),
        },
{
    let ghost lv = visible(c@);
    assert(lv.len() == lines.len());
    match op {
        Op::Replace { pos, end, lines: repl } => {
            let el = match end {
                Some(e) => e.line,
                None => pos.line,
            };
            let start = starts[pos.line - 1];
            let r = payload_chars(repl);
            assert(lines@[el - 1]@ == lv[el - 1]);
            let endb = if r.len() == 0 {
                line_end(lines, starts, el, c)
            } else {
                starts[el - 1] + lines[el - 1].len()
            };
            proof {
                lemma_line_offset_monotone(lv, pos.line - 1, el - 1);
            }
            Ok(Span { start, end: endb, repl: r, line_start: pos.line, line_end: el, kind: SpanKind::Replace })
        },
        Op::Append { pos, lines: repl } => {
            let txt = payload_chars(repl);
            let (start, r) = if c.len() == 0 {
                (0usize, txt)
            } else {
                match pos {
                    Some(a) => {
                        assert(lines@[a.line - 1]@ == lv[a.line - 1]);
                        (starts[a.line - 1] + lines[a.line - 1].len(), with_newline_before(&txt))
                    },
                    None => {
                        if c[c.len() - 1] == '\n' {
                            (c.len(), with_newline_after(&txt))
                        } else {
                            (c.len(), with_newline_before(&txt))
                        }
                    },
                }
            };
            let line_start = match pos {
                Some(a) => a.line + 1,
                None => lines.len() + 1,
            };
            let line_end = match pos {
                Some(a) => a.line + repl.len(),
                None => lines.len() + repl.len(),
            };
            Ok(Span { start, end: start, repl: r, line_start, line_end, kind: SpanKind::Insert })
        },
        Op::Prepend { pos, lines: repl } => {
            let txt = payload_chars(repl);
            let start = match pos {
                Some(a) => starts[a.line - 1],
                None => 0,
            };
            proof {
                if let Some(a) = pos {
                    assert(starts@[a.line - 1] + lines@[a.line - 1]@.len() <= c.len());
                }
            }
            let r = if c.len() == 0 { txt } else { with_newline_after(&txt) };
            let line_start = match pos {
                Some(a) => a.line,
                None => 1,
            };
            let line_end = match pos {
                Some(a) => a.line + repl.len() - 1,
                None => repl.len(),
            };
            Ok(Span { start, end: start, repl: r, line_start, line_end, kind: SpanKind::Insert })
        },
        Op::ReplaceText { old, new } => {
            let old_c = chars_of(old.as_str());
            if old_c.len() == 0 {
                return Err(ToolError::InvalidArguments("[E_BAD_OP] replace_text requires non-empty oldText.".to_string()));
            }
            proof {
                lemma_first_occ_bounds(c@, old@, 0);
            }
            match find_occurrence(c, &old_c, 0) {
                None => Err(ToolError::EditFailed("[E_NO_MATCH] replace_text found no exact unique match in the current file.".to_string())),
                Some(p) => {
                    match find_occurrence(c, &old_c, p + old_c.len()) {
                        Some(_) => Err(ToolError::EditFailed("[E_MULTI_MATCH] replace_text found multiple exact matches in the current file. Re-read and use hashline edits.".to_string())),
                        None => {
                            let nv = chars_of(new.as_str());
                            Ok(Span { start: p, end: p + old_c.len(), repl: nv, line_start: 1, line_end: 1, kind: SpanKind::ReplaceText })
                        },
                    }
                },
            }
        },
    }
}

// ---------------------------------------------------------------------------
// Spans of all operations, in order
// ---------------------------------------------------------------------------

/// The spans of the first `k` operations, or the first error among them.
pub open spec fn spans_upto(c: Seq<char>, ops: Seq<Op>, k: int) -> Result<Seq<SpanView>, ToolErrorView>
    decreases k,
{
    if k <= 0 {
        Ok(Seq::empty())
    } else {
        match spans_upto(c, ops, k - 1) {
            Err(x) => Err(x),
            Ok(s) => match op_span(c, visible(c), ops[k - 1]) {
                Err(x) => Err(x),
                Ok(v) => Ok(s.push(v)),
            },
        }
    }
}

proof fn lemma_spans_upto_err(c: Seq<char>, ops: Seq<Op>, k: int, n: int)
    requires
        0 <= k <= n,
        spans_upto(c, ops, k) is Err,
    ensures
        spans_upto(c, ops, n) == spans_upto(c, ops, k),
    decreases n - k,
{
    if k < n {
        lemma_spans_upto_err(c, ops, k, n - 1);
    }
}

// ---------------------------------------------------------------------------
// Ordering
// ---------------------------------------------------------------------------

/// Spans are ordered by start, then by end.
pub open spec fn key_le(a: SpanView, b: SpanView) -> bool {
    a.start < b.start || (a.start == b.start && a.end <= b.end)
}

/// Inserts `x` after every span that orders before it or with it.
pub open spec fn insert_span(s: Seq<SpanView>, x: SpanView) -> Seq<SpanView>
    decreases s.len(),
{
    if s.len() == 0 {
        seq![x]
    } else if key_le(s.last(), x) {
        s.push(x)
    } else {
        insert_span(s.drop_last(), x).push(s.last())
    }
}

/// A stable sort of spans by start, then end.
pub open spec fn sort_spans(s: Seq<SpanView>) -> Seq<SpanView>
    decreases s.len(),
{
    if s.len() == 0 {
        s
    } else {
        insert_span(sort_spans(s.drop_last()), s.last())
    }
}

pub open spec fn sorted_spans(s: Seq<SpanView>) -> bool {
    forall|i: int| 1 <= i < s.len() ==> key_le(#[trigger] s[i - 1], s[i])
}

proof fn lemma_insert_at(s: Seq<SpanView>, x: SpanView, j: int)
    requires
        0 <= j <= s.len(),
        forall|k: int| j <= k < s.len() ==> !key_le(#[trigger] s[k], x),
        j > 0 ==> key_le(s[j - 1], x),
    ensures
        insert_span(s, x) == s.insert(j, x),
    decreases s.len(),
{
    if s.len() == 0 {
        assert(s.insert(j, x) =~= seq![x]);
    } else if key_le(s.last(), x) {
        assert(j == s.len());
        assert(s.insert(j, x) =~= s.push(x));
    } else {
        let q = s.drop_last();
        assert forall|k: int| j <= k < q.len() implies !key_le(#[trigger] q[k], x) by {
            assert(q[k] == s[k]);
        }
        lemma_insert_at(q, x, j);
        assert(s.insert(j, x) =~= q.insert(j, x).push(s.last()));
    }
}

proof fn lemma_insert_sorted(s: Seq<SpanView>, x: SpanView)
    requires
        sorted_spans(s),
    ensures
        sorted_spans(insert_span(s, x)),
        insert_span(s, x).len() == s.len() + 1,
        forall|i: int| 0 <= i < insert_span(s, x).len() ==> #[trigger] insert_span(s, x)[i] == x || s.contains(insert_span(s, x)[i]),
    decreases s.len(),
{
    if s.len() == 0 {
    } else if key_le(s.last(), x) {
        let t = s.push(x);
        assert forall|i: int| 0 <= i < t.len() implies #[trigger] t[i] == x || s.contains(t[i]) by {
            if i < s.len() {
                assert(t[i] == s[i]);
            }
        }
    } else {
        let q = s.drop_last();
        assert forall|i: int| 1 <= i < q.len() implies key_le(#[trigger] q[i - 1], q[i]) by {
            assert(q[i - 1] == s[i - 1] && q[i] == s[i]);
        }
        lemma_insert_sorted(q, x);
        let u = insert_span(q, x);
        let t = u.push(s.last());
        // The last element of `u` is `x` or the last element of `q`; both order before `s.last()`.
        if q.len() > 0 {
            assert(key_le(s[s.len() - 2], s[s.len() - 1]));
            assert(q.last() == s[s.len() - 2]);
        }
        assert(key_le(u.last(), s.last()));
        assert forall|i: int| 0 <= i < t.len() implies #[trigger] t[i] == x || s.contains(t[i]) by {
            if i < u.len() {
                assert(t[i] == u[i]);
                if u[i] != x {
                    let k = choose|k: int| 0 <= k < q.len() && q[k] == u[i];
                    assert(s[k] == q[k]);
                }
            } else {
                assert(s[s.len() - 1] == t[i]);
            }
        }
        assert forall|i: int| 1 <= i < t.len() implies key_le(#[trigger] t[i - 1], t[i]) by {
            if i < u.len() {
                assert(t[i - 1] == u[i - 1] && t[i] == u[i]);
            }
        }
    }
}

proof fn lemma_sort_spans(s: Seq<SpanView>)
    ensures
        sorted_spans(sort_spans(s)),
        sort_spans(s).len() == s.len(),
        forall|i: int| 0 <= i < s.len() ==> s.contains(#[trigger] sort_spans(s)[i]),
    decreases s.len(),
{
    if s.len() > 0 {
        let q = s.drop_last();
        lemma_sort_spans(q);
        let t = sort_spans(q);
        lemma_insert_sorted(t, s.last());
        let u = sort_spans(s);
        assert forall|i: int| 0 <= i < s.len() implies s.contains(#[trigger] sort_spans(s)[i]) by {
            if u[i] != s.last() {
                assert(t.contains(u[i]));
                let k = choose|k: int| 0 <= k < t.len() && t[k] == u[i];
                assert(q.contains(t[k]));
                let m = choose|m: int| 0 <= m < q.len() && q[m] == t[k];
                assert(s[m] == q[m]);
            } else {
                assert(s[s.len() - 1] == u[i]);
            }
        }
    }
}

/// Inserts a span into a sorted vector of spans.
fn insert_sorted(v: &mut Vec<Span>, x: Span)
    ensures
        span_views(final(v)@) == insert_span(span_views(old(v)@), x@),
{
    let ghost s = span_views(v@);
    let mut j = v.len();
    while j > 0 && !(v[j - 1].start < x.start || (v[j - 1].start == x.start && v[j - 1].end <= x.end))
        invariant
            j <= v.len(),
            s == span_views(v@),
            forall|k: int| j <= k < v.len() ==> !key_le(#[trigger] s[k], x@),
        decreases j,
    {
        j -= 1;
    }
    proof {
        lemma_insert_at(s, x@, j as int);
    }
    let ghost xv = x@;
    v.insert(j, x);
    assert(span_views(v@) =~= s.insert(j as int, xv));
}

/// Sorts spans by start, then end, keeping the order of equal ones.
fn sort_span_vec(spans: Vec<Span>) -> (r: Vec<Span>)
    ensures
        span_views(r@) == sort_spans(span_views(spans@)),
{
    let ghost sv = span_views(spans@);
    let mut rest = spans;
    let mut out: Vec<Span> = Vec::new();
    let ghost mut k: int = 0;
    assert(span_views(out@) =~= sort_spans(sv.take(0)));
    assert(span_views(rest@) =~= sv.skip(0));
    while rest.len() > 0
        invariant
            0 <= k <= sv.len(),
            k + rest.len() == sv.len(),
            span_views(rest@) == sv.skip(k),
            span_views(out@) == sort_spans(sv.take(k)),
        decreases rest.len(),
    {
        let ghost before = rest@;
        let x = rest.remove(0);
        assert(x@ == sv[k]) by {
            assert(span_views(before)[0] == sv.skip(k)[0]);
        }
        assert(sv.take(k + 1).drop_last() =~= sv.take(k));
        assert(span_views(rest@) =~= sv.skip(k + 1)) by {
            assert(rest@ =~= before.subrange(1, before.len() as int));
            assert forall|i: int| 0 <= i < rest.len() implies span_views(rest@)[i] == sv.skip(k + 1)[i] by {
                assert(span_views(before)[i + 1] == sv.skip(k)[i + 1]);
            }
        }
        insert_sorted(&mut out, x);
        proof {
            k = k + 1;
        }
    }
    assert(sv.take(sv.len() as int) =~= sv);
    out
}

// ---------------------------------------------------------------------------
// Overlaps
// ---------------------------------------------------------------------------

/// Two neighbouring spans in order overlap, or insert at the same place.
pub open spec fn overlaps(a: SpanView, b: SpanView) -> bool {
    b.start < a.end || (b.start == a.start && b.end == a.end)
}

pub open spec fn has_overlap(t: Seq<SpanView>) -> bool {
    exists|i: int| 1 <= i < t.len() && overlaps(#[trigger] t[i - 1], t[i])
}

fn find_overlap(t: &Vec<Span>) -> (r: bool)
    ensures
        r == has_overlap(span_views(t@)),
{
    let ghost tv = span_views(t@);
    let mut i: usize = 1;
    while i < t.len()
        invariant
            1 <= i,
            tv == span_views(t@),
            forall|j: int| 1 <= j < i && j < t.len() ==> !overlaps(#[trigger] tv[j - 1], tv[j]),
        decreases t.len() - i,
    {
        if t[i].start < t[i - 1].end || (t[i].start == t[i - 1].start && t[i].end == t[i - 1].end) {
            assert(overlaps(tv[i - 1], tv[i as int]));
            return true;
        }
        i += 1;
    }
    false
}

/// Sorted, free of overlaps, and within a text of length `len`: the spans
/// can be applied together.
pub open spec fn spans_applicable(t: Seq<SpanView>, len: nat) -> bool {
    &&& sorted_spans(t)
    &&& !has_overlap(t)
    &&& forall|i: int| 0 <= i < t.len() ==> span_in(#[trigger] t[i], len)
}

// ---------------------------------------------------------------------------
// Sizes
// ---------------------------------------------------------------------------

/// Characters that the spans insert in all.
pub open spec fn repl_total(t: Seq<SpanView>) -> nat
    decreases t.len(),
{
    if t.len() == 0 {
        0
    } else {
        repl_total(t.drop_last()) + t.last().repl.len()
    }
}

/// An upper bound on what an operation inserts.
pub open spec fn op_size(op: Op) -> nat {
    match op {
        Op::Replace { pos: _, end: _, lines } => payload(lines@).len() + 1,
        Op::Append { pos: _, lines } => payload(lines@).len() + 1,
        Op::Prepend { pos: _, lines } => payload(lines@).len() + 1,
        Op::ReplaceText { old: _, new } => new@.len(),
    }
}

pub open spec fn ops_size(ops: Seq<Op>) -> nat
    decreases ops.len(),
{
    if ops.len() == 0 {
        0
    } else {
        ops_size(ops.drop_last()) + op_size(ops.last())
    }
}

proof fn lemma_insert_repl_total(q: Seq<SpanView>, x: SpanView)
    ensures
        repl_total(insert_span(q, x)) == repl_total(q) + x.repl.len(),
    decreases q.len(),
{
    if q.len() == 0 {
        assert(seq![x].drop_last() =~= Seq::<SpanView>::empty());
        assert(insert_span(q, x) == seq![x]);
        assert(repl_total(seq![x]) == repl_total(Seq::<SpanView>::empty()) + x.repl.len());
    } else if key_le(q.last(), x) {
        assert(q.push(x).drop_last() =~= q);
        assert(insert_span(q, x) == q.push(x));
    } else {
        lemma_insert_repl_total(q.drop_last(), x);
        let u = insert_span(q.drop_last(), x);
        assert(insert_span(q, x) == u.push(q.last()));
        assert(u.push(q.last()).drop_last() =~= u);
        assert(repl_total(u.push(q.last())) == repl_total(u) + q.last().repl.len());
    }
}

proof fn lemma_sort_repl_total(s: Seq<SpanView>)
    ensures
        repl_total(sort_spans(s)) == repl_total(s),
    decreases s.len(),
{
    if s.len() > 0 {
        lemma_sort_repl_total(s.drop_last());
        lemma_insert_repl_total(sort_spans(s.drop_last()), s.last());
    }
}

proof fn lemma_op_span_size(c: Seq<char>, op: Op)
    ensures
        op_span(c, visible(c), op) matches Ok(v) ==> v.repl.len() <= op_size(op),
{
}

proof fn lemma_spans_size(c: Seq<char>, ops: Seq<Op>, k: int)
    requires
        0 <= k <= ops.len(),
    ensures
        spans_upto(c, ops, k) matches Ok(s) ==> repl_total(s) <= ops_size(ops.take(k)),
    decreases k,
{
    if k > 0 {
        lemma_spans_size(c, ops, k - 1);
        lemma_op_span_size(c, ops[k - 1]);
        assert(ops.take(k).drop_last() =~= ops.take(k - 1));
        if let Ok(s) = spans_upto(c, ops, k) {
            let p = spans_upto(c, ops, k - 1)->Ok_0;
            assert(s.drop_last() =~= p);
        }
    }
}

// ---------------------------------------------------------------------------
// Resolution
// ---------------------------------------------------------------------------

/// What the operations resolve to on text `c`: the first anchor error; a
/// stale-anchor report when any anchor's hash no longer matches; the first
/// error of an operation; an overlap error; or the spans in order.
pub open spec fn resolve(c: Seq<char>, ops: Seq<Op>) -> Result<Seq<SpanView>, ToolErrorView> {
    let lines = visible(c);
    match check_all_anchors(ops, lines) {
        Err(x) => Err(x),
        Ok(ms) => if ms.len() > 0 {
            Err(ToolErrorView::EditFailed(stale_text(ms, lines)))
        } else {
            match spans_upto(c, ops, ops.len() as int) {
                Err(x) => Err(x),
                Ok(s) => if has_overlap(sort_spans(s)) {
                    Err(ToolErrorView::EditFailed(msg_overlap()))
                } else {
                    Ok(sort_spans(s))
                },
            }
        },
    }
}

proof fn lemma_check_op_ok(op: Op, lines: Seq<Seq<char>>)
    ensures
        check_op_anchors(op, lines) matches Ok(m) ==> anchors_ok(op, lines.len()) && forall|k: int|
            0 <= k < m.len() ==> 1 <= (#[trigger] m[k]).0 <= lines.len(),
{
    reveal(check_op_anchors);
}

proof fn lemma_check_all_ok(ops: Seq<Op>, lines: Seq<Seq<char>>)
    ensures
        check_all_anchors(ops, lines) matches Ok(ms) ==> (forall|i: int| 0 <= i < ops.len() ==> anchors_ok(#[trigger] ops[i], lines.len())) && (forall|k: int|
            0 <= k < ms.len() ==> 1 <= (#[trigger] ms[k]).0 <= lines.len()),
    decreases ops.len(),
{
    lemma_check_all_step(ops, lines);
    if ops.len() > 0 {
        lemma_check_all_ok(ops.drop_first(), lines);
        lemma_check_op_ok(ops[0], lines);
        if let Ok(ms) = check_all_anchors(ops, lines) {
            let m = check_op_anchors(ops[0], lines)->Ok_0;
            let rest = check_all_anchors(ops.drop_first(), lines)->Ok_0;
            assert(ms == m + rest);
            assert forall|i: int| 0 <= i < ops.len() implies anchors_ok(#[trigger] ops[i], lines.len()) by {
                if i > 0 {
                    assert(ops[i] == ops.drop_first()[i - 1]);
                }
            }
            assert forall|k: int| 0 <= k < ms.len() implies 1 <= (#[trigger] ms[k]).0 <= lines.len() by {
                if k >= m.len() {
                    assert(ms[k] == rest[k - m.len()]);
                } else {
                    assert(ms[k] == m[k]);
                }
            }
        }
    }
}

/// Resolves validated operations into spans of the text, one per
/// operation, ordered by start and end, refusing overlaps.
pub fn resolve_spans(content: &Vec<char>, ops: &Vec<Op>) -> (r: Result<Vec<Span>, ToolError>)
    requires
        forall|i: int| 0 <= i < ops.len() ==> op_fits(#[trigger] ops@[i], content.len() as nat),
    ensures
        match resolve(content@, ops@) {
            Err(x) => r matches Err(e) && e@ == x,
            Ok(t) => r matches Ok(v) && span_views(v@) == t && spans_applicable(t, content.len() as nat)
                && repl_total(t) <= ops_size(ops@) && t.len() == ops.len(),
        },
{
    let (lines, starts) = build_index(content);
    let ghost lv = visible(content@);
    proof {
        crate::text::lemma_visible_len(content@);
        lemma_check_all_ok(ops@, lv);
    }
    let mismatches = match validate_all_anchors(ops, &lines) {
        Err(e) => return Err(e),
        Ok(m) => m,
    };
    if mismatches.len() > 0 {
        proof {
            assert forall|k: int| 0 <= k < mismatches.len() implies 1 <= #[trigger] mismatches@[k].line <= lines.len() by {
                assert(mismatch_views(mismatches@)[k].0 == mismatches@[k].line);
            }
        }
        let text = stale_error(&mismatches, &lines);
        return Err(ToolError::EditFailed(text));
    }
    let mut spans: Vec<Span> = Vec::new();
    let mut i: usize = 0;
    assert(span_views(spans@) =~= Seq::<SpanView>::empty());
    while i < ops.len()
        invariant
            i <= ops.len(),
            index_of(content@, lines@, starts@),
            lv == visible(content@),
            lv.len() <= content.len(),
            check_all_anchors(ops@, lv) matches Ok(ms) && ms.len() == 0,
            forall|j: int| 0 <= j < ops.len() ==> anchors_ok(#[trigger] ops@[j], lv.len()),
            forall|j: int| 0 <= j < ops.len() ==> op_fits(#[trigger] ops@[j], content.len() as nat),
            spans_upto(content@, ops@, i as int) == Ok::<Seq<SpanView>, ToolErrorView>(span_views(spans@)),
            forall|j: int| 0 <= j < spans.len() ==> span_in(#[trigger] span_views(spans@)[j], content.len() as nat),
            spans.len() == i,
        decreases ops.len() - i,
    {
        assert(anchors_ok(ops@[i as int], lv.len()));
        assert(op_fits(ops@[i as int], lv.len())) by {
            assert(op_fits(ops@[i as int], content.len() as nat));
        }
        match op_span_exec(content, &lines, &starts, &ops[i]) {
            Err(e) => {
                proof {
                    assert(spans_upto(content@, ops@, i + 1) == Err::<Seq<SpanView>, ToolErrorView>(e@));
                    lemma_spans_upto_err(content@, ops@, i + 1, ops.len() as int);
                }
                return Err(e);
            },
            Ok(sp) => {
                let ghost before = span_views(spans@);
                spans.push(sp);
                assert(span_views(spans@) =~= before.push(sp@));
            },
        }
        i += 1;
    }
    let ghost unsorted = span_views(spans@);
    let sorted = sort_span_vec(spans);
    proof {
        lemma_sort_spans(unsorted);
        lemma_sort_repl_total(unsorted);
        lemma_spans_size(content@, ops@, ops.len() as int);
        assert(ops@.take(ops.len() as int) =~= ops@);
        assert forall|j: int| 0 <= j < sorted.len() implies span_in(#[trigger] span_views(sorted@)[j], content.len() as nat) by {
            let k = choose|k: int| 0 <= k < unsorted.len() && unsorted[k] == sort_spans(unsorted)[j];
        }
    }
    if find_overlap(&sorted) {
        return Err(ToolError::EditFailed("[E_OVERLAP] Edits overlap or target the same insertion boundary; merge them into one edit.".to_string()));
    }
    Ok(sorted)
}

// ---------------------------------------------------------------------------
// Applying spans
// ---------------------------------------------------------------------------

/// Where the text resumes after the first `k` spans.
pub open spec fn cursor(t: Seq<SpanView>, k: int) -> nat {
    if k <= 0 {
        0
    } else {
        t[k - 1].end
    }
}

/// The new text up to the end of the `k`-th span.
pub open spec fn apply_upto(c: Seq<char>, t: Seq<SpanView>, k: int) -> Seq<char>
    decreases k,
{
    if k <= 0 {
        Seq::empty()
    } else {
        apply_upto(c, t, k - 1) + c.subrange(cursor(t, k - 1) as int, t[k - 1].start as int) + t[k - 1].repl
    }
}

/// The text with every span replaced by its replacement.
pub open spec fn apply_spans_spec(c: Seq<char>, t: Seq<SpanView>) -> Seq<char> {
    apply_upto(c, t, t.len() as int) + c.subrange(cursor(t, t.len() as int) as int, c.len() as int)
}

/// Replaces each span of the text by its replacement.
pub fn apply_spans(content: &Vec<char>, spans: &Vec<Span>) -> (r: Vec<char>)
    requires
        spans_applicable(span_views(spans@), content.len() as nat),
    ensures
        r@ == apply_spans_spec(content@, span_views(spans@)),
        r.len() <= content.len() + repl_total(span_views(spans@)),
{
    let ghost t = span_views(spans@);
    let mut out: Vec<char> = Vec::new();
    let mut cur: usize = 0;
    let mut k: usize = 0;
    while k < spans.len()
        invariant
            k <= spans.len(),
            t == span_views(spans@),
            spans_applicable(t, content.len() as nat),
            cur == cursor(t, k as int),
            cur <= content.len(),
            out@ == apply_upto(content@, t, k as int),
            out.len() <= cur + repl_total(t.take(k as int)),
        decreases spans.len() - k,
    {
        assert(span_in(t[k as int], content.len() as nat));
        if k > 0 {
            assert(key_le(t[k - 1], t[k as int]));
            assert(!overlaps(t[k - 1], t[k as int]));
        }
        let gap = slice_chars(content, cur, spans[k].start);
        extend_chars(&mut out, &gap);
        extend_chars(&mut out, &spans[k].repl);
        assert(t.take(k + 1).drop_last() =~= t.take(k as int));
        cur = spans[k].end;
        k += 1;
    }
    assert(t.take(spans.len() as int) =~= t);
    let tail = slice_chars(content, cur, content.len());
    extend_chars(&mut out, &tail);
    out
}

// ---------------------------------------------------------------------------
// Laws
// ---------------------------------------------------------------------------

/// No operations resolve to no spans.
pub proof fn law_no_ops_no_spans(c: Seq<char>)
    ensures
        resolve(c, Seq::<Op>::empty()) == Ok::<Seq<SpanView>, ToolErrorView>(Seq::empty()),
{
    crate::tools::hashline::edit::lemma_check_all_step(Seq::<Op>::empty(), visible(c));
    assert(sort_spans(Seq::<SpanView>::empty()) =~= Seq::<SpanView>::empty());
}

/// Applying no spans leaves the text as it is.
pub proof fn law_apply_nothing(c: Seq<char>)
    ensures
        apply_spans_spec(c, Seq::<SpanView>::empty()) == c,
{
    assert(c.subrange(0, c.len() as int) =~= c);
    assert(Seq::<char>::empty() + c =~= c);
}

/// An edit is applied only when every anchor of every operation names an
/// existing line and carries that line's current hash.
pub proof fn law_resolved_edits_have_current_anchors(c: Seq<char>, ops: Seq<Op>)
    requires
        resolve(c, ops) is Ok,
    ensures
        forall|i: int| 0 <= i < ops.len() ==> crate::tools::hashline::edit::op_anchors_match(#[trigger] ops[i], visible(c)),
{
    crate::tools::hashline::edit::law_clean_check_means_anchors_match(ops, visible(c));
}

/// The spans of a resolved edit are in order, do not overlap, and lie in
/// the text.
pub proof fn law_resolved_spans_applicable(c: Seq<char>, ops: Seq<Op>)
    requires
        resolve(c, ops) is Ok,
        forall|i: int| 0 <= i < ops.len() ==> op_fits(#[trigger] ops[i], c.len()),
    ensures
        spans_applicable(resolve(c, ops)->Ok_0, c.len()),
        resolve(c, ops)->Ok_0.len() == ops.len(),
{
    let lines = visible(c);
    lemma_spans_upto_len(c, ops, ops.len() as int);
    lemma_check_all_ok(ops, lines);
    lemma_spans_in_bounds(c, ops, ops.len() as int);
    let s = spans_upto(c, ops, ops.len() as int)->Ok_0;
    lemma_sort_spans(s);
    let t = sort_spans(s);
    assert forall|j: int| 0 <= j < t.len() implies span_in(#[trigger] t[j], c.len()) by {
        let k = choose|k: int| 0 <= k < s.len() && s[k] == t[j];
    }
}

/// The first `k` lines of a text, each with the newline that ends it.
pub open spec fn lines_before(lines: Seq<Seq<char>>, k: int) -> Seq<char> {
    if k <= 0 {
        Seq::empty()
    } else {
        join(lines.take(k), nl()) + nl()
    }
}

/// In a text joined from lines, the text before line `k` (0-based) is the
/// first `k` lines, each with its newline.
proof fn lemma_join_take_offset(p: Seq<Seq<char>>, k: int)
    requires
        0 <= k < p.len(),
    ensures
        line_offset(p, k) <= join(p, nl()).len(),
        join(p, nl()).take(line_offset(p, k) as int) == lines_before(p, k),
    decreases p.len(),
{
    lemma_join_offsets(p);
    if k == 0 {
        assert(join(p, nl()).take(0) =~= Seq::<char>::empty());
    } else {
        let q = p.drop_last();
        lemma_join_offsets(q);
        assert(join(p, nl()) == join(q, nl()) + nl() + p.last());
        if k < p.len() - 1 {
            lemma_join_take_offset(q, k);
            lemma_line_offset_prefix(p, k);
            assert(q.take(k) =~= p.take(k));
            assert(join(p, nl()).take(line_offset(p, k) as int) =~= join(q, nl()).take(line_offset(q, k) as int));
        } else {
            lemma_line_offset_prefix(p, k - 1);
            assert(line_offset(p, k) == line_offset(q, k - 1) + q[k - 1].len() + 1);
            assert(q.last() == q[k - 1]);
            assert(line_offset(p, k) == join(q, nl()).len() + 1);
            assert(q =~= p.take(k));
            assert(join(p, nl()).take(line_offset(p, k) as int) =~= join(q, nl()) + nl());
        }
    }
}

/// In any text, the text before visible line `k` (0-based) is the first
/// `k` visible lines, each with its newline.
proof fn lemma_visible_take_offset(c: Seq<char>, k: int)
    requires
        0 <= k < visible(c).len(),
    ensures
        line_offset(visible(c), k) <= c.len(),
        c.take(line_offset(visible(c), k) as int) == lines_before(visible(c), k),
{
    lemma_split_nl_facts(c);
    let p = split_nl(c);
    lemma_join_take_offset(p, k);
    if c.last() == '\n' {
        lemma_line_offset_prefix(p, k);
        assert(visible(c) == p.drop_last());
        assert(p.drop_last().take(k) =~= p.take(k));
    }
}

/// A prepend anchored at line `L` inserts its lines right before that line:
/// the text before the insertion point is exactly lines 1 to `L - 1`, each
/// with its newline, and line `L` follows it; nothing is removed, and what
/// is inserted is the payload lines, each ending in a newline.
pub proof fn law_prepend_before_anchor(c: Seq<char>, a: crate::tools::hashline::parse::Anchor, repl: Vec<String>)
    requires
        1 <= a.line <= visible(c).len(),
    ensures
        op_span(c, visible(c), Op::Prepend { pos: Some(a), lines: repl }) matches Ok(v) && {
            &&& v.start == v.end
            &&& v.start <= c.len()
            &&& c.take(v.start as int) == lines_before(visible(c), a.line - 1)
            &&& v.start + visible(c)[a.line - 1].len() <= c.len()
            &&& c.subrange(v.start as int, (v.start + visible(c)[a.line - 1].len()) as int) == visible(c)[a.line - 1]
            &&& v.repl == join(string_views(repl@), seq!['\n']) + seq!['\n']
        },
{
    let k = a.line - 1;
    lemma_visible_take_offset(c, k as int);
    lemma_visible_offsets(c);
    lemma_visible_line_at(c, k as int);
}

/// In a text joined from lines, line `k` (0-based) sits at its offset.
proof fn lemma_join_line_at(p: Seq<Seq<char>>, k: int)
    requires
        0 <= k < p.len(),
    ensures
        line_offset(p, k) + p[k].len() <= join(p, nl()).len(),
        join(p, nl()).subrange(line_offset(p, k) as int, (line_offset(p, k) + p[k].len()) as int) == p[k],
    decreases p.len(),
{
    lemma_join_offsets(p);
    if p.len() == 1 {
        assert(join(p, nl()) == p[0]);
        assert(p[0].subrange(0, p[0].len() as int) =~= p[0]);
    } else {
        let q = p.drop_last();
        lemma_join_offsets(q);
        assert(join(p, nl()) == join(q, nl()) + nl() + p.last());
        if k < p.len() - 1 {
            lemma_join_line_at(q, k);
            lemma_line_offset_prefix(p, k);
            assert(q[k] == p[k]);
            assert(join(p, nl()).subrange(line_offset(p, k) as int, (line_offset(p, k) + p[k].len()) as int)
                =~= join(q, nl()).subrange(line_offset(q, k) as int, (line_offset(q, k) + q[k].len()) as int));
        } else {
            lemma_line_offset_prefix(p, k - 1);
            assert(line_offset(p, k) == line_offset(q, k - 1) + q[k - 1].len() + 1);
            assert(q.last() == q[k - 1]);
            assert(line_offset(p, k) == join(q, nl()).len() + 1);
            assert(join(p, nl()).subrange(line_offset(p, k) as int, (line_offset(p, k) + p[k].len()) as int) =~= p.last());
        }
    }
}

/// In any text, visible line `k` (0-based) sits at its offset.
proof fn lemma_visible_line_at(c: Seq<char>, k: int)
    requires
        0 <= k < visible(c).len(),
    ensures
        line_offset(visible(c), k) + visible(c)[k].len() <= c.len(),
        c.subrange(line_offset(visible(c), k) as int, (line_offset(visible(c), k) + visible(c)[k].len()) as int) == visible(c)[k],
{
    lemma_split_nl_facts(c);
    let p = split_nl(c);
    lemma_join_line_at(p, k);
    if c.last() == '\n' {
        lemma_line_offset_prefix(p, k);
        assert(visible(c) == p.drop_last());
        assert(visible(c)[k] == p[k]);
    }
}

proof fn lemma_spans_upto_len(c: Seq<char>, ops: Seq<Op>, k: int)
    requires
        0 <= k <= ops.len(),
    ensures
        spans_upto(c, ops, k) matches Ok(s) ==> s.len() == k,
    decreases k,
{
    if k > 0 {
        lemma_spans_upto_len(c, ops, k - 1);
    }
}

/// A single exact-text replacement, by the number `k` of non-overlapping
/// occurrences of its old text: an empty old text is refused as a bad
/// operation; none is `[E_NO_MATCH]`, more than one `[E_MULTI_MATCH]`; one
/// gives the one span over that occurrence.
pub proof fn law_single_replace_text(c: Seq<char>, old: String, new: String)
    ensures
        ({
            let ops = seq![Op::ReplaceText { old, new }];
            let k = crate::tools::replace::occ_count(c, old@, 0);
            &&& old@.len() == 0 ==> resolve(c, ops) == Err::<Seq<SpanView>, ToolErrorView>(ToolErrorView::InvalidArguments(msg_empty_old()))
            &&& old@.len() > 0 && k == 0 ==> resolve(c, ops) == Err::<Seq<SpanView>, ToolErrorView>(ToolErrorView::EditFailed(msg_no_match()))
            &&& old@.len() > 0 && k > 1 ==> resolve(c, ops) == Err::<Seq<SpanView>, ToolErrorView>(ToolErrorView::EditFailed(msg_multi_match()))
            &&& old@.len() > 0 && k == 1 ==> (first_occ(c, old@, 0) matches Some(p) && resolve(c, ops) == Ok::<Seq<SpanView>, ToolErrorView>(seq![SpanView {
                start: p,
                end: p + old@.len(),
                repl: new@,
                line_start: 1,
                line_end: 1,
                kind: SpanKind::ReplaceText,
            }]))
        }),
{
    let ops = seq![Op::ReplaceText { old, new }];
    let lines = visible(c);
    reveal(check_op_anchors);
    lemma_check_all_step(ops, lines);
    lemma_check_all_step(ops.drop_first(), lines);
    assert(check_all_anchors(ops, lines) == Ok::<Seq<Mismatch>, ToolErrorView>(Seq::<Mismatch>::empty() + Seq::<Mismatch>::empty()));
    assert(Seq::<Mismatch>::empty() + Seq::<Mismatch>::empty() =~= Seq::<Mismatch>::empty());
    let w = old@;
    lemma_first_occ_bounds(c, w, 0);
    if let Some(p) = first_occ(c, w, 0) {
        lemma_first_occ_bounds(c, w, p + w.len());
        if w.len() > 0 {
            assert(crate::tools::replace::occ_count(c, w, 0) == 1 + crate::tools::replace::occ_count(c, w, p + w.len()));
            if let Some(q) = first_occ(c, w, p + w.len()) {
                assert(crate::tools::replace::occ_count(c, w, p + w.len()) >= 1);
            }
        }
    }
    assert(spans_upto(c, ops, 0) == Ok::<Seq<SpanView>, ToolErrorView>(Seq::empty()));
    match op_span(c, lines, ops[0]) {
        Ok(v) => {
            assert(spans_upto(c, ops, 1) == Ok::<Seq<SpanView>, ToolErrorView>(seq![v]));
            assert(seq![v].drop_last() =~= Seq::<SpanView>::empty());
            assert(sort_spans(Seq::<SpanView>::empty()) == Seq::<SpanView>::empty());
            assert(sort_spans(seq![v]) == seq![v]);
            assert(!has_overlap(seq![v]));
        },
        Err(x) => {},
    }
}

proof fn lemma_spans_in_bounds(c: Seq<char>, ops: Seq<Op>, k: int)
    requires
        0 <= k <= ops.len(),
        forall|i: int| 0 <= i < ops.len() ==> anchors_ok(#[trigger] ops[i], visible(c).len()),
    ensures
        spans_upto(c, ops, k) matches Ok(s) ==> forall|j: int| 0 <= j < s.len() ==> span_in(#[trigger] s[j], c.len()),
    decreases k,
{
    if k > 0 {
        lemma_spans_in_bounds(c, ops, k - 1);
        lemma_op_span_in(c, ops[k - 1]);
    }
}

proof fn lemma_op_span_in(c: Seq<char>, op: Op)
    requires
        anchors_ok(op, visible(c).len()),
    ensures
        op_span(c, visible(c), op) matches Ok(v) ==> span_in(v, c.len()),
{
    let lines = visible(c);
    lemma_visible_offsets(c);
    lemma_first_occ_bounds(c, match op { Op::ReplaceText { old, new: _ } => old@, _ => Seq::empty() }, 0);
    match op {
        Op::Replace { pos, end, lines: _ } => {
            let el: int = match end { Some(e) => e.line as int, None => pos.line as int };
            lemma_line_offset_monotone(lines, pos.line - 1, el - 1);
            assert(lines[el - 1] == lines[el - 1]);
        },
        Op::Append { pos, lines: _ } => {
            if let Some(a) = pos {
                assert(lines[a.line - 1] == lines[a.line - 1]);
            }
        },
        Op::Prepend { pos, lines: _ } => {
            if let Some(a) = pos {
                assert(lines[a.line - 1] == lines[a.line - 1]);
            }
        },
        Op::ReplaceText { old: _, new: _ } => {},
    }
}

} // verus!
