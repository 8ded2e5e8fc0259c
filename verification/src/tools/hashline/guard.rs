//! Guards that refuse edits to protected or generated files and edits too
//! large for a localized scope.
use vstd::prelude::*;
use crate::text::{chars_of, extend_chars, join, join_chars, split_newlines, split_nl, views, visible, visible_chars};
use crate::tools::error::{ToolError, ToolErrorView};
use crate::tools::hashline::spans::{find_occurrence, first_occ, span_views, Span, SpanKind, SpanView};

verus! {

/// Whether `w` occurs somewhere in `h`.
pub open spec fn contains_text(h: Seq<char>, w: Seq<char>) -> bool {
    first_occ(h, w, 0) is Some
}

fn contains_chars(h: &Vec<char>, w: &str) -> (r: bool)
    ensures
        r == contains_text(h@, w@),
{
    let wc = chars_of(w);
    find_occurrence(h, &wc, 0).is_some()
}

pub open spec fn is_broad(scope: Seq<char>) -> bool {
    scope == "broad_refactor"@
}

/// Path fragments of version-control, build output and generated trees.
pub open spec fn protected_markers() -> Seq<Seq<char>> {
    seq!["/.git/"@, "/target/"@, "/build/"@, "/dist/"@, "/out/"@, "/bazel-out/"@, "/generated/"@, "/gen/"@]
}

/// Phrases that mark a file as generated.
pub open spec fn generated_markers() -> Seq<Seq<char>> {
    seq!["DO NOT EDIT"@, "Generated by"@, "@generated"@, "Code generated"@]
}

pub open spec fn contains_any(h: Seq<char>, ms: Seq<Seq<char>>) -> bool {
    exists|i: int| 0 <= i < ms.len() && contains_text(h, #[trigger] ms[i])
}

/// A line as `str::lines` gives it: without the `'\r'` of a `"\r\n"` ending.
pub open spec fn std_line(l: Seq<char>, ended: bool) -> Seq<char> {
    if ended && l.len() > 0 && l.last() == '\r' {
        l.drop_last()
    } else {
        l
    }
}

/// The lines of a text as `str::lines` yields them.
pub open spec fn std_lines(c: Seq<char>) -> Seq<Seq<char>> {
    Seq::new(
        visible(c).len(),
        |i: int| std_line(visible(c)[i], i + 1 < visible(c).len() || c.last() == '\n'),
    )
}

/// The first twenty lines of a text, joined with newlines.
pub open spec fn head_text(c: Seq<char>) -> Seq<char> {
    let l = std_lines(c);
    join(if l.len() > 20 { l.take(20) } else { l }, seq!['\n'])
}

pub open spec fn msg_protected(path: Seq<char>) -> Seq<char> {
    "[E_PROTECTED_PATH] Refusing to edit protected/generated path "@ + path
        + " without broad_refactor scope/user approval."@
}

pub open spec fn msg_generated() -> Seq<char> {
    "[E_GENERATED_FILE] File appears generated. Ask user before editing or use broad_refactor scope."@
}

/// Outside a broad refactor, refuses protected paths and generated files.
pub open spec fn generated_guard(path: Seq<char>, c: Seq<char>, scope: Seq<char>) -> Result<(), ToolErrorView> {
    if !is_broad(scope) && contains_any(path, protected_markers()) {
        Err(ToolErrorView::EditFailed(msg_protected(path)))
    } else if !is_broad(scope) && contains_any(head_text(c), generated_markers()) {
        Err(ToolErrorView::EditFailed(msg_generated()))
    } else {
        Ok(())
    }
}

/// The guard lets an edit through exactly when the scope is a broad
/// refactor, or the path holds no protected fragment and the first twenty
/// lines no generated marker; a refused path is answered with
/// `[E_PROTECTED_PATH]`, otherwise a refused file with `[E_GENERATED_FILE]`.
pub proof fn law_generated_guard(path: Seq<char>, c: Seq<char>, scope: Seq<char>)
    ensures
        generated_guard(path, c, scope) is Ok <==> (is_broad(scope) || (!contains_any(path, protected_markers())
            && !contains_any(head_text(c), generated_markers()))),
        generated_guard(path, c, scope) matches Err(e) ==> e is EditFailed && {
            let m = e->EditFailed_0;
            if contains_any(path, protected_markers()) {
                m.take(18) == "[E_PROTECTED_PATH]"@
            } else {
                m.take(18) == "[E_GENERATED_FILE]"@
            }
        },
{
    reveal_strlit("[E_PROTECTED_PATH] Refusing to edit protected/generated path ");
    reveal_strlit("[E_PROTECTED_PATH]");
    reveal_strlit("[E_GENERATED_FILE] File appears generated. Ask user before editing or use broad_refactor scope.");
    reveal_strlit("[E_GENERATED_FILE]");
    assert(msg_protected(path).take(18) =~= "[E_PROTECTED_PATH]"@);
    assert(msg_generated().take(18) =~= "[E_GENERATED_FILE]"@);
}

fn str_equal(a: &str, b: &str) -> (r: bool)
    ensures
        r == (a@ == b@),
{
    crate::json::str_eq(a, b)
}

fn contains_marker(h: &Vec<char>, markers: &Vec<&str>, Ghost(ms): Ghost<Seq<Seq<char>>>) -> (r: bool)
    requires
        markers.len() == ms.len(),
        forall|i: int| 0 <= i < ms.len() ==> (#[trigger] markers@[i])@ == ms[i],
    ensures
        r == contains_any(h@, ms),
{
    let mut i: usize = 0;
    while i < markers.len()
        invariant
            i <= markers.len(),
            markers.len() == ms.len(),
            forall|k: int| 0 <= k < ms.len() ==> (#[trigger] markers@[k])@ == ms[k],
            forall|k: int| 0 <= k < i ==> !contains_text(h@, #[trigger] ms[k]),
        decreases markers.len() - i,
    {
        if contains_chars(h, markers[i]) {
            assert(contains_text(h@, ms[i as int]));
            return true;
        }
        i += 1;
    }
    false
}

/// The lines of a text with the `'\r'` of each `"\r\n"` ending removed.
pub fn std_lines_exec(c: &Vec<char>) -> (r: Vec<Vec<char>>)
    ensures
        views(r@) == std_lines(c@),
{
    let vis = visible_chars(c);
    assert(views(vis@).len() == vis@.len());
    let mut r: Vec<Vec<char>> = Vec::new();
    let mut i: usize = 0;
    while i < vis.len()
        invariant
            i <= vis.len(),
            views(vis@) == visible(c@),
            c.len() > 0 || vis.len() == 0,
            views(r@) == std_lines(c@).take(i as int),
        decreases vis.len() - i,
    {
        let ended = i + 1 < vis.len() || c[c.len() - 1] == '\n';
        let l = &vis[i];
        let mut line: Vec<char> = Vec::new();
        extend_chars(&mut line, l);
        if ended && line.len() > 0 && line[line.len() - 1] == '\r' {
            line.pop();
        }
        assert(views(vis@)[i as int] == vis@[i as int]@);
        assert(line@ =~= std_lines(c@)[i as int]);
        let ghost before = r@;
        r.push(line);
        assert(views(r@) =~= std_lines(c@).take(i + 1)) by {
            assert(views(r@) =~= views(before).push(line@));
        }
        i += 1;
    }
    assert(std_lines(c@).take(vis.len() as int) =~= std_lines(c@));
    r
}

fn head_exec(c: &Vec<char>) -> (r: Vec<char>)
    ensures
        r@ == head_text(c@),
{
    let mut l = std_lines_exec(c);
    if l.len() > 20 {
        l.truncate(20);
        assert(views(l@) =~= std_lines(c@).take(20));
    }
    let sep: Vec<char> = vec!['\n'];
    assert(sep@ =~= seq!['\n']);
    join_chars(&l, &sep)
}

/// Refuses, outside a broad refactor, a path under a protected or
/// generated tree and a file whose first twenty lines mark it generated.
pub fn validate_generated_guard(path: &str, content: &Vec<char>, scope: &str) -> (r: Result<(), ToolError>)
    ensures
        match generated_guard(path@, content@, scope@) {
            Err(x) => r matches Err(e) && e@ == x,
            Ok(()) => r is Ok,
        },
{
    proof {
        reveal_strlit("broad_refactor");
        reveal_strlit("/.git/");
        reveal_strlit("/target/");
        reveal_strlit("/build/");
        reveal_strlit("/dist/");
        reveal_strlit("/out/");
        reveal_strlit("/bazel-out/");
        reveal_strlit("/generated/");
        reveal_strlit("/gen/");
        reveal_strlit("DO NOT EDIT");
        reveal_strlit("Generated by");
        reveal_strlit("@generated");
        reveal_strlit("Code generated");
    }
    let broad = str_equal(scope, "broad_refactor");
    let pc = chars_of(path);
    let protected: Vec<&str> = vec!["/.git/", "/target/", "/build/", "/dist/", "/out/", "/bazel-out/", "/generated/", "/gen/"];
    assert(protected@.len() == 8);
    if !broad && contains_marker(&pc, &protected, Ghost(protected_markers())) {
        let mut m: Vec<char> = Vec::new();
        crate::text::extend_str(&mut m, "[E_PROTECTED_PATH] Refusing to edit protected/generated path ");
        crate::text::extend_str(&mut m, path);
        crate::text::extend_str(&mut m, " without broad_refactor scope/user approval.");
        assert(m@ =~= msg_protected(path@));
        return Err(ToolError::EditFailed(crate::text::string_of(&m)));
    }
    let head = head_exec(content);
    let generated: Vec<&str> = vec!["DO NOT EDIT", "Generated by", "@generated", "Code generated"];
    if !broad && contains_marker(&head, &generated, Ghost(generated_markers())) {
        return Err(ToolError::EditFailed(
            "[E_GENERATED_FILE] File appears generated. Ask user before editing or use broad_refactor scope.".to_string(),
        ));
    }
    Ok(())
}

/// Lines that a span removes: its line range, for spans that replace.
pub open spec fn removed_lines(v: SpanView) -> nat {
    if v.kind == SpanKind::Insert {
        0
    } else if v.line_end >= v.line_start {
        (v.line_end - v.line_start + 1) as nat
    } else {
        1
    }
}

/// Lines that a span adds: the pieces of its replacement.
pub open spec fn added_lines(v: SpanView) -> nat {
    if v.repl.len() == 0 {
        0
    } else {
        split_nl(v.repl).len()
    }
}

pub open spec fn removed_total(t: Seq<SpanView>) -> nat
    decreases t.len(),
{
    if t.len() == 0 {
        0
    } else {
        removed_total(t.drop_last()) + removed_lines(t.last())
    }
}

pub open spec fn added_total(t: Seq<SpanView>) -> nat
    decreases t.len(),
{
    if t.len() == 0 {
        0
    } else {
        added_total(t.drop_last()) + added_lines(t.last())
    }
}

/// How many lines a localized edit may remove: thirty percent of the
/// file, and at least ten.
pub open spec fn removed_limit(line_count: nat) -> nat {
    let total: nat = if line_count == 0 { 1 } else { line_count };
    let l = total * 30 / 100;
    if l > 10 { l } else { 10 }
}

pub open spec fn msg_too_large() -> Seq<char> {
    "[E_EDIT_TOO_LARGE] Edit is too large for localized scope. Make a smaller edit or ask user for broad_refactor approval."@
}

/// Outside a broad refactor, refuses edits that remove more than the limit,
/// add more than 160 lines, or touch more than 250 lines in all.
pub open spec fn large_edit_guard(c: Seq<char>, t: Seq<SpanView>, scope: Seq<char>) -> Result<(), ToolErrorView> {
    let removed = removed_total(t);
    let added = added_total(t);
    if is_broad(scope) {
        Ok(())
    } else if removed > removed_limit(visible(c).len()) || added > 160 || removed + added > 250 {
        Err(ToolErrorView::EditFailed(msg_too_large()))
    } else {
        Ok(())
    }
}

fn sat_add(a: usize, b: usize) -> (r: usize)
    ensures
        r == (if a + b > usize::MAX { usize::MAX as int } else { a + b }),
{
    if a > usize::MAX - b {
        usize::MAX
    } else {
        a + b
    }
}

/// Refuses edits too large for the scope.
pub fn guard_large_edit(content: &Vec<char>, spans: &Vec<Span>, scope: &str) -> (r: Result<(), ToolError>)
    ensures
        match large_edit_guard(content@, span_views(spans@), scope@) {
            Err(x) => r matches Err(e) && e@ == x,
            Ok(()) => r is Ok,
        },
{
    proof {
        reveal_strlit("broad_refactor");
    }
    if str_equal(scope, "broad_refactor") {
        return Ok(());
    }
    let ghost t = span_views(spans@);
    let line_count = visible_chars(content).len();
    let total: usize = if line_count == 0 { 1 } else { line_count };
    let scaled: u128 = (total as u128) * 30 / 100;
    let limit: u128 = if scaled > 10 { scaled } else { 10 };
    let mut removed: usize = 0;
    let mut added: usize = 0;
    let mut i: usize = 0;
    while i < spans.len()
        invariant
            i <= spans.len(),
            t == span_views(spans@),
            removed == (if removed_total(t.take(i as int)) > usize::MAX { usize::MAX as nat } else { removed_total(t.take(i as int)) }),
            added == (if added_total(t.take(i as int)) > usize::MAX { usize::MAX as nat } else { added_total(t.take(i as int)) }),
        decreases spans.len() - i,
    {
        let s = &spans[i];
        assert(t.take(i + 1).drop_last() =~= t.take(i as int));
        assert(t.take(i + 1).last() == s@);
        if s.kind != SpanKind::Insert {
            let span_lines: usize = if s.line_end >= s.line_start { s.line_end - s.line_start } else { 0 };
            let one_more = sat_add(span_lines, 1);
            removed = sat_add(removed, one_more);
        } else {
            assert(removed_lines(s@) == 0);
        }
        if s.repl.len() > 0 {
            let parts = split_newlines(&s.repl);
            let pieces = parts.len();
            assert(views(parts@).len() == parts@.len());
            added = sat_add(added, pieces);
        }
        i += 1;
    }
    assert(t.take(spans.len() as int) =~= t);
    let both = sat_add(removed, added);
    if removed as u128 > limit || added > 160 || both > 250 {
        return Err(ToolError::EditFailed(
            "[E_EDIT_TOO_LARGE] Edit is too large for localized scope. Make a smaller edit or ask user for broad_refactor approval.".to_string(),
        ));
    }
    Ok(())
}

} // verus!
