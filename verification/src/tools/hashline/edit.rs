//! Hash-anchored edits: resolving anchored operations against the current
//! file content into character spans, checking them, and applying them.
use vstd::prelude::*;
use crate::text::{
    chars_eq, chars_of, decimal, extend_chars, extend_str, join, join_chars, push_decimal,
    slice_chars, string_of, views, visible, visible_chars,
};
use crate::tools::error::{ToolError, ToolErrorView};
use crate::tools::hashline::hash::{line_hash, line_hash_chars, rendered, render_hashline_chars, string_views};
use crate::tools::hashline::parse::{
    lines_result, lines_value, normalize_newlines, normalize_newlines_exec, parse_line_ref, parse_lines_value,
    parse_ref, ref_result, Anchor,
};
use crate::json::{get_str, json_get, spec_as_str, spec_get, Json};
use crate::text::{debug_str, push_debug};
use crate::tools::replace::{edit_args, edit_args_spec};

verus! {

/// The hash-anchored edit tool.
#[derive(Debug)]
pub struct HashlineEditTool;

/// The arguments of a hash-anchored edit: the path, the scope
/// (`"localized"` unless given) and the edits, of which there must be at
/// least one.
pub open spec fn hashline_args_spec(a: Json) -> Result<(Seq<char>, Seq<char>, Seq<Json>), ToolErrorView> {
    match edit_args_spec(a) {
        Err(x) => Err(x),
        Ok((p, v)) => {
            let scope = match spec_as_str(spec_get(a, "scope"@)) {
                Some(s) => s,
                None => "localized"@,
            };
            Ok((p, scope, v))
        },
    }
}

/// The arguments of a hash-anchored edit.
pub fn hashline_args<'a>(arguments: &'a Json) -> (r: Result<(String, String, &'a Vec<Json>), ToolError>)
    ensures
        match hashline_args_spec(*arguments) {
            Err(x) => r matches Err(e) && e@ == x,
            Ok((p, s, v)) => r matches Ok(y) && y.0@ == p && y.1@ == s && y.2@ == v,
        },
{
    let (p, v) = match edit_args(arguments) {
        Err(e) => return Err(e),
        Ok(x) => x,
    };
    let scope = match get_str(arguments, "scope") {
        Some(s) => string_of(&chars_of(s)),
        None => "localized".to_string(),
    };
    Ok((p, scope, v))
}

/// One requested edit.
#[derive(Debug)]
pub enum Op {
    /// Replace line `pos` (through `end`, when given) with `lines`.
    Replace { pos: Anchor, end: Option<Anchor>, lines: Vec<String> },
    /// Insert `lines` after `pos`, or at the end of the file.
    Append { pos: Option<Anchor>, lines: Vec<String> },
    /// Insert `lines` before `pos`, or at the start of the file.
    Prepend { pos: Option<Anchor>, lines: Vec<String> },
    /// Replace the one occurrence of `old` with `new`.
    ReplaceText { old: String, new: String },
}

// ---------------------------------------------------------------------------
// Anchor validation
// ---------------------------------------------------------------------------

/// A stale anchor: its line, the hash it carried, the line's current hash.
pub type Mismatch = (usize, Seq<char>, Seq<char>);

pub open spec fn msg_oob(line: usize, n: nat) -> Seq<char> {
    "[E_RANGE_OOB] Line "@ + decimal(line as nat) + " does not exist (file has "@ + decimal(n)
        + " lines)"@
}

/// Checks one anchor: an error when its line does not exist, a mismatch
/// when the line's hash differs.
pub open spec fn check_anchor_spec(a: Anchor, lines: Seq<Seq<char>>) -> Result<Seq<Mismatch>, ToolErrorView> {
    if a.line < 1 || a.line > lines.len() {
        Err(ToolErrorView::EditFailed(msg_oob(a.line, lines.len())))
    } else if line_hash(a.line, lines[a.line - 1]) == a.hash@ {
        Ok(Seq::empty())
    } else {
        Ok(seq![(a.line, a.hash@, line_hash(a.line, lines[a.line - 1]))])
    }
}

pub open spec fn msg_range_order(s: usize, e: usize) -> Seq<char> {
    "[E_BAD_OP] Range start line "@ + decimal(s as nat) + " must be <= end line "@ + decimal(e as nat)
}

/// The anchor checks of one operation, in order.
#[verifier::opaque]
pub open spec fn check_op_anchors(op: Op, lines: Seq<Seq<char>>) -> Result<Seq<Mismatch>, ToolErrorView> {
    match op {
        Op::Replace { pos, end, lines: _ } => match end {
            Some(e) => if pos.line > e.line {
                Err(ToolErrorView::InvalidArguments(msg_range_order(pos.line, e.line)))
            } else {
                match check_anchor_spec(pos, lines) {
                    Err(x) => Err(x),
                    Ok(m1) => match check_anchor_spec(e, lines) {
                        Err(x) => Err(x),
                        Ok(m2) => Ok(m1 + m2),
                    },
                }
            },
            None => check_anchor_spec(pos, lines),
        },
        Op::Append { pos, lines: _ } => match pos {
            Some(a) => check_anchor_spec(a, lines),
            None => Ok(Seq::empty()),
        },
        Op::Prepend { pos, lines: _ } => match pos {
            Some(a) => check_anchor_spec(a, lines),
            None => Ok(Seq::empty()),
        },
        Op::ReplaceText { old: _, new: _ } => Ok(Seq::empty()),
    }
}

/// Mismatches found before a remaining check result.
pub open spec fn after_mismatches(a: Seq<Mismatch>, r: Result<Seq<Mismatch>, ToolErrorView>) -> Result<Seq<Mismatch>, ToolErrorView> {
    match r {
        Err(x) => Err(x),
        Ok(b) => Ok(a + b),
    }
}

/// The anchor checks of all operations: the first error, or all mismatches.
#[verifier::opaque]
pub open spec fn check_all_anchors(ops: Seq<Op>, lines: Seq<Seq<char>>) -> Result<Seq<Mismatch>, ToolErrorView>
    decreases ops.len(),
{
    if ops.len() == 0 {
        Ok(Seq::empty())
    } else {
        match check_op_anchors(ops[0], lines) {
            Err(x) => Err(x),
            Ok(m) => after_mismatches(m, check_all_anchors(ops.drop_first(), lines)),
        }
    }
}

pub proof fn lemma_check_all_step(ops: Seq<Op>, lines: Seq<Seq<char>>)
    ensures
        ops.len() == 0 ==> check_all_anchors(ops, lines) == Ok::<Seq<Mismatch>, ToolErrorView>(Seq::empty()),
        ops.len() > 0 ==> check_all_anchors(ops, lines) == match check_op_anchors(ops[0], lines) {
            Err(x) => Err(x),
            Ok(m) => after_mismatches(m, check_all_anchors(ops.drop_first(), lines)),
        },
{
    reveal(check_all_anchors);
}

#[derive(Debug)]
pub struct MismatchRow {
    pub line: usize,
    pub expected: Vec<char>,
    pub actual: Vec<char>,
}

pub open spec fn mismatch_views(m: Seq<MismatchRow>) -> Seq<Mismatch> {
    m.map_values(|r: MismatchRow| (r.line, r.expected@, r.actual@))
}

fn oob_error(line: usize, n: usize) -> (e: ToolError)
    ensures
        e@ == ToolErrorView::EditFailed(msg_oob(line, n as nat)),
{
    let mut m: Vec<char> = Vec::new();
    extend_str(&mut m, "[E_RANGE_OOB] Line ");
    push_decimal(&mut m, line);
    extend_str(&mut m, " does not exist (file has ");
    push_decimal(&mut m, n);
    extend_str(&mut m, " lines)");
    assert(m@ =~= msg_oob(line, n as nat));
    ToolError::EditFailed(string_of(&m))
}

/// Validates one anchor against the current lines, recording a mismatch.
pub fn validate_anchor(a: &Anchor, lines: &Vec<Vec<char>>, mismatches: &mut Vec<MismatchRow>) -> (r: Result<bool, ToolError>)
    ensures
        match check_anchor_spec(*a, views(lines@)) {
            Err(x) => r matches Err(e) && e@ == x,
            Ok(ms) => r matches Ok(b) && mismatch_views(final(mismatches)@) == mismatch_views(old(mismatches)@) + ms && b == (ms.len() == 0),
        },
{
    if a.line < 1 || a.line > lines.len() {
        return Err(oob_error(a.line, lines.len()));
    }
    let actual = line_hash_chars(a.line, &lines[a.line - 1]);
    let expected = chars_of(a.hash.as_str());
    assert(views(lines@)[a.line - 1] == lines@[a.line - 1]@);
    if chars_eq(&actual, &expected) {
        Ok(true)
    } else {
        let ghost before = mismatches@;
        let row = MismatchRow { line: a.line, expected, actual };
        mismatches.push(row);
        assert(mismatch_views(mismatches@) =~= mismatch_views(before) + seq![(a.line, a.hash@, line_hash(a.line, views(lines@)[a.line - 1]))]);
        Ok(false)
    }
}

fn range_order_error(s: usize, e: usize) -> (r: ToolError)
    ensures
        r@ == ToolErrorView::InvalidArguments(msg_range_order(s, e)),
{
    let mut m: Vec<char> = Vec::new();
    extend_str(&mut m, "[E_BAD_OP] Range start line ");
    push_decimal(&mut m, s);
    extend_str(&mut m, " must be <= end line ");
    push_decimal(&mut m, e);
    assert(m@ =~= msg_range_order(s, e));
    ToolError::InvalidArguments(string_of(&m))
}

fn validate_op_anchors(op: &Op, lines: &Vec<Vec<char>>, mismatches: &mut Vec<MismatchRow>) -> (r: Result<(), ToolError>)
    ensures
        match check_op_anchors(*op, views(lines@)) {
            Err(x) => r matches Err(e) && e@ == x,
            Ok(ms) => r is Ok && mismatch_views(final(mismatches)@) == mismatch_views(old(mismatches)@) + ms,
        },
{
    reveal(check_op_anchors);
    let ghost m0 = mismatch_views(mismatches@);
    match op {
        Op::Replace { pos, end, lines: _ } => match end {
            Some(e) => {
                if pos.line > e.line {
                    return Err(range_order_error(pos.line, e.line));
                }
                match validate_anchor(pos, lines, mismatches) {
                    Err(x) => return Err(x),
                    Ok(_) => {},
                }
                match validate_anchor(e, lines, mismatches) {
                    Err(x) => return Err(x),
                    Ok(_) => {},
                }
                assert(mismatch_views(mismatches@) =~= m0 + check_op_anchors(*op, views(lines@))->Ok_0);
                Ok(())
            },
            None => {
                match validate_anchor(pos, lines, mismatches) {
                    Err(x) => Err(x),
                    Ok(_) => Ok(()),
                }
            },
        },
        Op::Append { pos, lines: _ } => match pos {
            Some(a) => match validate_anchor(a, lines, mismatches) {
                Err(x) => Err(x),
                Ok(_) => Ok(()),
            },
            None => {
                assert(mismatch_views(mismatches@) =~= m0 + Seq::<Mismatch>::empty());
                Ok(())
            },
        },
        Op::Prepend { pos, lines: _ } => match pos {
            Some(a) => match validate_anchor(a, lines, mismatches) {
                Err(x) => Err(x),
                Ok(_) => Ok(()),
            },
            None => {
                assert(mismatch_views(mismatches@) =~= m0 + Seq::<Mismatch>::empty());
                Ok(())
            },
        },
        Op::ReplaceText { old: _, new: _ } => {
            assert(mismatch_views(mismatches@) =~= m0 + Seq::<Mismatch>::empty());
            Ok(())
        },
    }
}

proof fn lemma_after_mismatches_assoc(a: Seq<Mismatch>, b: Seq<Mismatch>, r: Result<Seq<Mismatch>, ToolErrorView>)
    ensures
        after_mismatches(a, after_mismatches(b, r)) == after_mismatches(a + b, r),
{
    match r {
        Err(x) => {},
        Ok(c) => {
            assert(a + (b + c) =~= (a + b) + c);
        },
    }
}

/// Checks the anchors of every operation, in order.
pub fn validate_all_anchors(ops: &Vec<Op>, lines: &Vec<Vec<char>>) -> (r: Result<Vec<MismatchRow>, ToolError>)
    ensures
        match check_all_anchors(ops@, views(lines@)) {
            Err(x) => r matches Err(e) && e@ == x,
            Ok(ms) => r matches Ok(m) && mismatch_views(m@) == ms,
        },
{
    let mut mismatches: Vec<MismatchRow> = Vec::new();
    let mut i: usize = 0;
    assert(ops@.skip(0) == ops@);
    proof { lemma_check_all_step(ops@.skip(ops.len() as int), views(lines@)); }
    assert(mismatch_views(mismatches@) =~= Seq::<Mismatch>::empty());
    proof {
        match check_all_anchors(ops@, views(lines@)) {
            Err(x) => {},
            Ok(ms) => { assert(Seq::<Mismatch>::empty() + ms =~= ms); },
        }
    }
    while i < ops.len()
        invariant
            i <= ops.len(),
            check_all_anchors(ops@, views(lines@)) == after_mismatches(
                mismatch_views(mismatches@),
                check_all_anchors(ops@.skip(i as int), views(lines@)),
            ),
        decreases ops.len() - i,
    {
        let ghost before = mismatch_views(mismatches@);
        let ghost tail = ops@.skip(i as int);
        assert(tail[0] == ops@[i as int]);
        assert(tail.drop_first() == ops@.skip(i + 1));
        proof { lemma_check_all_step(tail, views(lines@)); }
        match validate_op_anchors(&ops[i], lines, &mut mismatches) {
            Err(x) => {
                return Err(x);
            },
            Ok(()) => {},
        }
        proof {
            let m = check_op_anchors(ops@[i as int], views(lines@))->Ok_0;
            lemma_after_mismatches_assoc(before, m, check_all_anchors(ops@.skip(i + 1), views(lines@)));
        }
        i += 1;
    }
    proof {
        assert(ops@.skip(i as int).len() == 0);
        lemma_check_all_step(ops@.skip(i as int), views(lines@));
        assert(mismatch_views(mismatches@) + Seq::<Mismatch>::empty() =~= mismatch_views(mismatches@));
    }
    Ok(mismatches)
}

// ---------------------------------------------------------------------------
// Stale-anchor report
// ---------------------------------------------------------------------------

/// First line of the context window shown around a stale anchor on `l`.
pub open spec fn window_lo(l: usize) -> int {
    if l >= 3 { l - 2 } else { 1 }
}

/// Whether line `n` lies within two lines of some stale anchor.
#[verifier::opaque]
pub open spec fn near_stale(m: Seq<Mismatch>, count: nat, n: int) -> bool {
    exists|k: int| 0 <= k < m.len() && #[trigger] window_lo(m[k].0) <= n && n <= m[k].0 + 2 && n <= count
}

/// Whether line `n` is itself a stale anchor.
#[verifier::opaque]
pub open spec fn is_stale_line(m: Seq<Mismatch>, n: int) -> bool {
    exists|k: int| 0 <= k < m.len() && #[trigger] m[k].0 == n
}

/// One row of the report: a marker and the current rendering of line `n`.
pub open spec fn stale_row(m: Seq<Mismatch>, lines: Seq<Seq<char>>, n: int) -> Seq<char> {
    seq!['\n'] + (if is_stale_line(m, n) { ">>>"@ } else { "   "@ }) + seq![' '] + rendered(
        n as usize,
        lines[n - 1],
    )
}

/// The rows for lines `1..=n` that lie near a stale anchor, in order.
pub open spec fn stale_rows(m: Seq<Mismatch>, lines: Seq<Seq<char>>, n: int) -> Seq<char>
    decreases n,
{
    if n <= 0 {
        Seq::empty()
    } else {
        stale_rows(m, lines, n - 1) + (if near_stale(m, lines.len(), n) { stale_row(m, lines, n) } else { Seq::empty() })
    }
}

pub open spec fn stale_header(count: nat) -> Seq<char> {
    "[E_STALE_ANCHOR] "@ + decimal(count)
        + " stale anchor(s). Retry with the >>> LINE#HASH lines below; keep both endpoints for range replaces.\n"@
}

/// The stale-anchor report: a header, then every line within two lines of a
/// stale anchor, rendered with its current hash and marked `>>>` where it is
/// one of the stale anchors.
pub open spec fn stale_text(m: Seq<Mismatch>, lines: Seq<Seq<char>>) -> Seq<char> {
    stale_header(m.len()) + stale_rows(m, lines, lines.len() as int)
}

fn row_flags(m: &Vec<MismatchRow>, count: usize, n: usize) -> (r: (bool, bool))
    ensures
        r.0 == near_stale(mismatch_views(m@), count as nat, n as int),
        r.1 == is_stale_line(mismatch_views(m@), n as int),
{
    reveal(near_stale);
    reveal(is_stale_line);
    let ghost mv = mismatch_views(m@);
    let mut near = false;
    let mut mark = false;
    let mut k: usize = 0;
    while k < m.len()
        invariant
            k <= m.len(),
            mv == mismatch_views(m@),
            near == exists|j: int| 0 <= j < k && #[trigger] window_lo(mv[j].0) <= n && n <= mv[j].0 + 2 && n <= count,
            mark == exists|j: int| 0 <= j < k && #[trigger] mv[j].0 == n,
        decreases m.len() - k,
    {
        let l = m[k].line;
        assert(mv[k as int].0 == l);
        let lo: usize = if l >= 3 { l - 2 } else { 1 };
        assert(window_lo(mv[k as int].0) == lo);
        if lo <= n && n as u128 <= l as u128 + 2 && n <= count {
            near = true;
        }
        if l == n {
            mark = true;
        }
        k += 1;
    }
    (near, mark)
}

/// Builds the stale-anchor report for the given mismatches.
pub fn stale_error(m: &Vec<MismatchRow>, lines: &Vec<Vec<char>>) -> (r: String)
    requires
        forall|k: int| 0 <= k < m.len() ==> 1 <= #[trigger] m@[k].line <= lines.len(),
    ensures
        r@ == stale_text(mismatch_views(m@), views(lines@)),
{
    let ghost mv = mismatch_views(m@);
    let ghost lv = views(lines@);
    let mut out: Vec<char> = Vec::new();
    extend_str(&mut out, "[E_STALE_ANCHOR] ");
    push_decimal(&mut out, m.len());
    extend_str(
        &mut out,
        " stale anchor(s). Retry with the >>> LINE#HASH lines below; keep both endpoints for range replaces.\n",
    );
    assert(out@ =~= stale_header(mv.len()) + stale_rows(mv, lv, 0));
    let mut idx: usize = 0;
    while idx < lines.len()
        invariant
            idx <= lines.len(),
            mv == mismatch_views(m@),
            lv == views(lines@),
            out@ == stale_header(mv.len()) + stale_rows(mv, lv, idx as int),
        decreases lines.len() - idx,
    {
        let n = idx + 1;
        let (near, mark) = row_flags(m, lines.len(), n);
        let ghost before = out@;
        if near {
            out.push('\n');
            if mark {
                extend_str(&mut out, ">>>");
            } else {
                extend_str(&mut out, "   ");
            }
            out.push(' ');
            let row = render_hashline_chars(n, &lines[n - 1]);
            extend_chars(&mut out, &row);
            assert(lv[n - 1] == lines@[n - 1]@);
            assert(out@ =~= before + stale_row(mv, lv, n as int));
        } else {
            assert(out@ =~= before + Seq::<char>::empty());
        }
        assert(out@ =~= stale_header(mv.len()) + stale_rows(mv, lv, n as int));
        idx += 1;
    }
    string_of(&out)
}

// ---------------------------------------------------------------------------
// Reading operations from the arguments
// ---------------------------------------------------------------------------

pub type AnchorView = (usize, Seq<char>, Option<Seq<char>>);

/// An operation as data.
pub enum OpView {
    Replace { pos: AnchorView, end: Option<AnchorView>, lines: Seq<Seq<char>> },
    Append { pos: Option<AnchorView>, lines: Seq<Seq<char>> },
    Prepend { pos: Option<AnchorView>, lines: Seq<Seq<char>> },
    ReplaceText { old: Seq<char>, new: Seq<char> },
}

pub open spec fn opt_anchor_view(a: Option<Anchor>) -> Option<AnchorView> {
    match a {
        Some(x) => Some(x@),
        None => None,
    }
}

pub open spec fn op_view(op: Op) -> OpView {
    match op {
        Op::Replace { pos, end, lines } => OpView::Replace { pos: pos@, end: opt_anchor_view(end), lines: string_views(lines@) },
        Op::Append { pos, lines } => OpView::Append { pos: opt_anchor_view(pos), lines: string_views(lines@) },
        Op::Prepend { pos, lines } => OpView::Prepend { pos: opt_anchor_view(pos), lines: string_views(lines@) },
        Op::ReplaceText { old, new } => OpView::ReplaceText { old: old@, new: new@ },
    }
}

pub open spec fn op_views(ops: Seq<Op>) -> Seq<OpView> {
    ops.map_values(|o: Op| op_view(o))
}

/// An optional reference: absent, or parsed.
pub open spec fn opt_ref(s: Option<Seq<char>>) -> Result<Option<AnchorView>, Seq<char>> {
    match s {
        None => Ok(None),
        Some(x) => match parse_ref(x) {
            Ok(a) => Ok(Some(a)),
            Err(m) => Err(m),
        },
    }
}

pub open spec fn edit_label(i: nat) -> Seq<char> {
    "edits["@ + crate::text::decimal(i) + "]"@
}

/// An insertion operation (`append` or `prepend`): an optional anchor, no
/// `end`, and a non-empty payload.
pub open spec fn parse_insert(e: Json, append: bool) -> Result<OpView, ToolErrorView> {
    match opt_ref(spec_as_str(spec_get(e, "pos"@))) {
        Err(m) => Err(ToolErrorView::InvalidArguments(m)),
        Ok(pos) => if spec_get(e, "end"@) is Some {
            Err(ToolErrorView::InvalidArguments(
                if append { "[E_BAD_OP] append does not support end"@ } else { "[E_BAD_OP] prepend does not support end"@ },
            ))
        } else {
            match lines_value(spec_get(e, "lines"@)) {
                Err(m) => Err(ToolErrorView::InvalidArguments(m)),
                Ok(l) => if l.len() == 0 {
                    Err(ToolErrorView::InvalidArguments(
                        if append { "[E_BAD_OP] Append with empty lines payload."@ } else { "[E_BAD_OP] Prepend with empty lines payload."@ },
                    ))
                } else if append {
                    Ok(OpView::Append { pos, lines: l })
                } else {
                    Ok(OpView::Prepend { pos, lines: l })
                },
            }
        },
    }
}

/// A `replace` operation: a required anchor, an optional end anchor, and the
/// payload.
pub open spec fn parse_replace(e: Json, i: nat) -> Result<OpView, ToolErrorView> {
    match spec_as_str(spec_get(e, "pos"@)) {
        None => Err(ToolErrorView::InvalidArguments("[E_BAD_OP] "@ + edit_label(i) + ": replace requires pos"@)),
        Some(p) => match parse_ref(p) {
            Err(m) => Err(ToolErrorView::InvalidArguments(m)),
            Ok(pos) => match opt_ref(spec_as_str(spec_get(e, "end"@))) {
                Err(m) => Err(ToolErrorView::InvalidArguments(m)),
                Ok(end) => match lines_value(spec_get(e, "lines"@)) {
                    Err(m) => Err(ToolErrorView::InvalidArguments(m)),
                    Ok(l) => Ok(OpView::Replace { pos, end, lines: l }),
                },
            },
        },
    }
}

/// A `replace_text` operation: both texts required, line endings normalized.
pub open spec fn parse_replace_text(e: Json) -> Result<OpView, ToolErrorView> {
    match spec_as_str(spec_get(e, "oldText"@)) {
        None => Err(ToolErrorView::InvalidArguments("[E_BAD_OP] replace_text requires oldText"@)),
        Some(o) => match spec_as_str(spec_get(e, "newText"@)) {
            None => Err(ToolErrorView::InvalidArguments("[E_BAD_OP] replace_text requires newText"@)),
            Some(n) => Ok(OpView::ReplaceText { old: normalize_newlines(o), new: normalize_newlines(n) }),
        },
    }
}

/// The operation that edit number `i` describes.
pub open spec fn parse_op_spec(e: Json, i: nat) -> Result<OpView, ToolErrorView> {
    match spec_as_str(spec_get(e, "op"@)) {
        None => Err(ToolErrorView::InvalidArguments(edit_label(i) + ": missing op"@)),
        Some(op) => if op == "replace"@ {
            parse_replace(e, i)
        } else if op == "append"@ {
            parse_insert(e, true)
        } else if op == "prepend"@ {
            parse_insert(e, false)
        } else if op == "replace_text"@ {
            parse_replace_text(e)
        } else {
            Err(ToolErrorView::InvalidArguments("[E_BAD_OP] Unknown edit op "@ + debug_str(op) + "."@))
        },
    }
}

/// The operations of the first `k` edits, or the first error among them.
pub open spec fn parse_ops_upto(edits: Seq<Json>, k: int) -> Result<Seq<OpView>, ToolErrorView>
    decreases k,
{
    if k <= 0 {
        Ok(Seq::empty())
    } else {
        match parse_ops_upto(edits, k - 1) {
            Err(x) => Err(x),
            Ok(s) => match parse_op_spec(edits[k - 1], (k - 1) as nat) {
                Err(x) => Err(x),
                Ok(o) => Ok(s.push(o)),
            },
        }
    }
}

proof fn lemma_parse_ops_err(edits: Seq<Json>, k: int, n: int)
    requires
        0 <= k <= n,
        parse_ops_upto(edits, k) is Err,
    ensures
        parse_ops_upto(edits, n) == parse_ops_upto(edits, k),
    decreases n - k,
{
    if k < n {
        lemma_parse_ops_err(edits, k, n - 1);
    }
}

fn invalid(m: String) -> (e: ToolError)
    ensures
        e@ == ToolErrorView::InvalidArguments(m@),
{
    ToolError::InvalidArguments(m)
}

fn labelled(prefix: &str, i: usize, suffix: &str) -> (r: String)
    ensures
        r@ == prefix@ + edit_label(i as nat) + suffix@,
{
    let mut m: Vec<char> = Vec::new();
    extend_str(&mut m, prefix);
    extend_str(&mut m, "edits[");
    push_decimal(&mut m, i);
    extend_str(&mut m, "]");
    extend_str(&mut m, suffix);
    proof {
        reveal_strlit("edits[");
        reveal_strlit("]");
    }
    assert(m@ =~= prefix@ + edit_label(i as nat) + suffix@);
    string_of(&m)
}

fn opt_ref_exec(s: Option<&str>) -> (r: Result<Option<Anchor>, String>)
    ensures
        match opt_ref(match s { Some(x) => Some(x@), None => None }) {
            Ok(a) => r matches Ok(b) && opt_anchor_view(b) == a,
            Err(m) => r matches Err(x) && x@ == m,
        },
{
    match s {
        None => Ok(None),
        Some(x) => match parse_line_ref(x) {
            Ok(a) => Ok(Some(a)),
            Err(m) => Err(m),
        },
    }
}

fn parse_insert_exec(e: &Json, append: bool) -> (r: Result<Op, ToolError>)
    ensures
        match parse_insert(*e, append) {
            Ok(o) => r matches Ok(x) && op_view(x) == o,
            Err(m) => r matches Err(x) && x@ == m,
        },
{
    let pos = match opt_ref_exec(get_str(e, "pos")) {
        Err(m) => return Err(invalid(m)),
        Ok(p) => p,
    };
    if json_get(e, "end").is_some() {
        if append {
            return Err(ToolError::InvalidArguments("[E_BAD_OP] append does not support end".to_string()));
        } else {
            return Err(ToolError::InvalidArguments("[E_BAD_OP] prepend does not support end".to_string()));
        }
    }
    let lines = match parse_lines_value(json_get(e, "lines")) {
        Err(m) => return Err(invalid(m)),
        Ok(l) => l,
    };
    assert(string_views(lines@).len() == lines@.len());
    if lines.len() == 0 {
        if append {
            return Err(ToolError::InvalidArguments("[E_BAD_OP] Append with empty lines payload.".to_string()));
        } else {
            return Err(ToolError::InvalidArguments("[E_BAD_OP] Prepend with empty lines payload.".to_string()));
        }
    }
    if append {
        Ok(Op::Append { pos, lines })
    } else {
        Ok(Op::Prepend { pos, lines })
    }
}

fn parse_replace_exec(e: &Json, i: usize) -> (r: Result<Op, ToolError>)
    ensures
        match parse_replace(*e, i as nat) {
            Ok(o) => r matches Ok(x) && op_view(x) == o,
            Err(m) => r matches Err(x) && x@ == m,
        },
{
    let p = match get_str(e, "pos") {
        None => return Err(invalid(labelled("[E_BAD_OP] ", i, ": replace requires pos"))),
        Some(p) => p,
    };
    let pos = match parse_line_ref(p) {
        Err(m) => return Err(invalid(m)),
        Ok(a) => a,
    };
    let end = match opt_ref_exec(get_str(e, "end")) {
        Err(m) => return Err(invalid(m)),
        Ok(a) => a,
    };
    let lines = match parse_lines_value(json_get(e, "lines")) {
        Err(m) => return Err(invalid(m)),
        Ok(l) => l,
    };
    Ok(Op::Replace { pos, end, lines })
}

fn normalized(s: &str) -> (r: String)
    ensures
        r@ == normalize_newlines(s@),
{
    let c = crate::text::chars_of(s);
    let n = normalize_newlines_exec(&c);
    string_of(&n)
}

fn parse_replace_text_exec(e: &Json) -> (r: Result<Op, ToolError>)
    ensures
        match parse_replace_text(*e) {
            Ok(o) => r matches Ok(x) && op_view(x) == o,
            Err(m) => r matches Err(x) && x@ == m,
        },
{
    let o = match get_str(e, "oldText") {
        None => return Err(ToolError::InvalidArguments("[E_BAD_OP] replace_text requires oldText".to_string())),
        Some(o) => o,
    };
    let n = match get_str(e, "newText") {
        None => return Err(ToolError::InvalidArguments("[E_BAD_OP] replace_text requires newText".to_string())),
        Some(n) => n,
    };
    Ok(Op::ReplaceText { old: normalized(o), new: normalized(n) })
}

fn parse_op(e: &Json, i: usize) -> (r: Result<Op, ToolError>)
    ensures
        match parse_op_spec(*e, i as nat) {
            Ok(o) => r matches Ok(x) && op_view(x) == o,
            Err(m) => r matches Err(x) && x@ == m,
        },
{
    let op = match get_str(e, "op") {
        None => {
            let m = labelled("", i, ": missing op");
            proof {
                reveal_strlit("");
            }
            assert(m@ =~= edit_label(i as nat) + ": missing op"@);
            return Err(invalid(m));
        },
        Some(op) => op,
    };
    if crate::json::str_eq(op, "replace") {
        parse_replace_exec(e, i)
    } else if crate::json::str_eq(op, "append") {
        parse_insert_exec(e, true)
    } else if crate::json::str_eq(op, "prepend") {
        parse_insert_exec(e, false)
    } else if crate::json::str_eq(op, "replace_text") {
        parse_replace_text_exec(e)
    } else {
        let mut m: Vec<char> = Vec::new();
        extend_str(&mut m, "[E_BAD_OP] Unknown edit op ");
        push_debug(&mut m, op);
        extend_str(&mut m, ".");
        assert(m@ =~= "[E_BAD_OP] Unknown edit op "@ + debug_str(op@) + "."@);
        Err(ToolError::InvalidArguments(string_of(&m)))
    }
}

/// Reads the edit operations from the `edits` array of the arguments, in
/// order; the first malformed edit is the error.
pub fn parse_ops(edits: &Vec<Json>) -> (r: Result<Vec<Op>, ToolError>)
    ensures
        match parse_ops_upto(edits@, edits.len() as int) {
            Ok(v) => r matches Ok(ops) && op_views(ops@) == v,
            Err(m) => r matches Err(x) && x@ == m,
        },
{
    let mut ops: Vec<Op> = Vec::new();
    let mut i: usize = 0;
    assert(op_views(ops@) =~= Seq::<OpView>::empty());
    while i < edits.len()
        invariant
            i <= edits.len(),
            parse_ops_upto(edits@, i as int) == Ok::<Seq<OpView>, ToolErrorView>(op_views(ops@)),
        decreases edits.len() - i,
    {
        match parse_op(&edits[i], i) {
            Err(x) => {
                proof {
                    lemma_parse_ops_err(edits@, i + 1, edits.len() as int);
                }
                return Err(x);
            },
            Ok(o) => {
                let ghost before = ops@;
                ops.push(o);
                assert(op_views(ops@) =~= op_views(before).push(op_view(o)));
            },
        }
        i += 1;
    }
    Ok(ops)
}

// ---------------------------------------------------------------------------
// Laws
// ---------------------------------------------------------------------------

/// An anchor that `read` shows for a line validates against the unchanged
/// file: parsing the rendered line gives an anchor whose check passes with
/// no mismatch.
pub proof fn law_read_anchor_validates(lines: Seq<Seq<char>>, n: usize, a: Anchor)
    requires
        1 <= n <= lines.len(),
        parse_ref(rendered(n, lines[n - 1])) == Ok::<AnchorView, Seq<char>>(a@),
    ensures
        check_anchor_spec(a, lines) == Ok::<Seq<Mismatch>, ToolErrorView>(Seq::empty()),
{
    crate::tools::hashline::parse::lemma_parse_rendered(n, lines[n - 1]);
}

/// An anchor whose line exists and whose hash is that line's hash.
pub open spec fn anchor_matches(a: Anchor, lines: Seq<Seq<char>>) -> bool {
    1 <= a.line <= lines.len() && a.hash@ == line_hash(a.line, lines[a.line - 1])
}

/// Every anchor of an operation matches.
pub open spec fn op_anchors_match(op: Op, lines: Seq<Seq<char>>) -> bool {
    match op {
        Op::Replace { pos, end, lines: _ } => anchor_matches(pos, lines) && match end {
            Some(e) => anchor_matches(e, lines),
            None => true,
        },
        Op::Append { pos, lines: _ } => match pos {
            Some(a) => anchor_matches(a, lines),
            None => true,
        },
        Op::Prepend { pos, lines: _ } => match pos {
            Some(a) => anchor_matches(a, lines),
            None => true,
        },
        Op::ReplaceText { old: _, new: _ } => true,
    }
}

proof fn lemma_anchor_check_clean(a: Anchor, lines: Seq<Seq<char>>)
    ensures
        (check_anchor_spec(a, lines) matches Ok(m) && m.len() == 0) ==> anchor_matches(a, lines),
{
}

proof fn lemma_op_check_clean(op: Op, lines: Seq<Seq<char>>)
    requires
        check_op_anchors(op, lines) matches Ok(m) && m.len() == 0,
    ensures
        op_anchors_match(op, lines),
{
    reveal(check_op_anchors);
    match op {
        Op::Replace { pos, end, lines: _ } => {
            lemma_anchor_check_clean(pos, lines);
            match end {
                Some(e) => {
                    lemma_anchor_check_clean(e, lines);
                    let m1 = check_anchor_spec(pos, lines)->Ok_0;
                    let m2 = check_anchor_spec(e, lines)->Ok_0;
                    assert((m1 + m2).len() == m1.len() + m2.len());
                },
                None => {},
            }
        },
        Op::Append { pos, lines: _ } => {
            if let Some(x) = pos {
                lemma_anchor_check_clean(x, lines);
            }
        },
        Op::Prepend { pos, lines: _ } => {
            if let Some(x) = pos {
                lemma_anchor_check_clean(x, lines);
            }
        },
        Op::ReplaceText { old: _, new: _ } => {},
    }
}

/// When the anchor checks of all operations find no mismatch, every anchor
/// of every operation names an existing line and carries its current hash.
pub proof fn law_clean_check_means_anchors_match(ops: Seq<Op>, lines: Seq<Seq<char>>)
    requires
        check_all_anchors(ops, lines) matches Ok(ms) && ms.len() == 0,
    ensures
        forall|i: int| 0 <= i < ops.len() ==> op_anchors_match(#[trigger] ops[i], lines),
    decreases ops.len(),
{
    lemma_check_all_step(ops, lines);
    if ops.len() > 0 {
        let m = check_op_anchors(ops[0], lines)->Ok_0;
        let rest = check_all_anchors(ops.drop_first(), lines)->Ok_0;
        assert(m.len() == 0 && rest.len() == 0);
        lemma_op_check_clean(ops[0], lines);
        law_clean_check_means_anchors_match(ops.drop_first(), lines);
        assert forall|i: int| 0 <= i < ops.len() implies op_anchors_match(#[trigger] ops[i], lines) by {
            if i > 0 {
                assert(ops[i] == ops.drop_first()[i - 1]);
            }
        }
    }
}

} // verus!
