//! A window of a file rendered as `LINE#HASH:content` rows.
use vstd::prelude::*;
use crate::text::{chars_of, decimal, extend_chars, extend_str, push_decimal, string_of, views, visible, visible_chars};
use crate::tools::hashline::hash::{file_digest, file_hash, format_region_chars, region_text};

verus! {

/// One window of a file as the reader sees it.
#[derive(Debug)]
pub struct Preview {
    pub text: String,
    pub total_lines: usize,
    pub returned: usize,
    pub truncated: bool,
    pub next_offset: Option<usize>,
    pub start: usize,
    pub end: usize,
    pub file_hash: String,
}

/// The default number of lines in a window.
pub const DEFAULT_READ_LIMIT: usize = 200;

/// First line of the window (offsets below 1 read from the start).
pub open spec fn window_start(offset: usize) -> nat {
    if offset < 1 { 1 } else { offset as nat }
}

/// Lines in the window at most.
pub open spec fn window_limit(limit: Option<usize>) -> nat {
    let l = match limit {
        Some(l) => l as nat,
        None => DEFAULT_READ_LIMIT as nat,
    };
    if l < 1 { 1 } else { l }
}

/// Last line of the window (inclusive).
pub open spec fn window_end(total: nat, start: nat, limit: Option<usize>) -> nat {
    if total == 0 {
        0
    } else if start > total {
        total
    } else if start - 1 + window_limit(limit) < total {
        (start - 1 + window_limit(limit)) as nat
    } else {
        total
    }
}

pub open spec fn msg_empty_file() -> Seq<char> {
    "File is empty. Use hashline_edit with prepend or append and omit pos to insert content."@
}

pub open spec fn msg_empty_offset(start: nat) -> Seq<char> {
    "Offset "@ + decimal(start) + " is beyond end of file (0 lines total). The file is empty. Use hashline_edit with prepend or append and omit pos to insert content."@
}

pub open spec fn msg_beyond(start: nat, total: nat) -> Seq<char> {
    "Offset "@ + decimal(start) + " is beyond end of file ("@ + decimal(total)
        + " lines total). Use offset=1 to read from the start, or offset="@ + decimal(total)
        + " to read the last line."@
}

pub open spec fn msg_continue(start: nat, end: nat, total: nat) -> Seq<char> {
    "\n\n[Showing lines "@ + decimal(start) + "-"@ + decimal(end) + " of "@ + decimal(total)
        + ". Use offset="@ + decimal(end + 1) + " to continue.]"@
}

/// A window that starts on a line of the file ends at the start plus the
/// limit less one, or at the last line where that comes first: it holds at
/// least one line and no more than the limit (at least 1, 200 by default),
/// and it is cut short of the file's end exactly when the limit runs out
/// first.
pub proof fn law_window_bounds(total: nat, offset: usize, limit: Option<usize>)
    requires
        window_start(offset) <= total,
    ensures
        ({
            let start = window_start(offset);
            let end = window_end(total, start, limit);
            let want = start - 1 + window_limit(limit);
            &&& start >= 1
            &&& end == (if want < total { want } else { total as int })
            &&& start <= end <= total
            &&& end - start + 1 <= window_limit(limit)
            &&& (end < total <==> want < total)
            &&& window_limit(limit) == (match limit { Some(l) => if l < 1 { 1 } else { l as nat }, None => 200 })
        }),
{
}

/// The text of the window of `lines` that starts at line `start`.
pub open spec fn window_rows(lines: Seq<Seq<char>>, start: nat, limit: Option<usize>) -> Seq<char> {
    let total = lines.len();
    let end = window_end(total, start, limit);
    if total == 0 {
        if start == 1 {
            msg_empty_file()
        } else {
            msg_empty_offset(start)
        }
    } else if start > total {
        msg_beyond(start, total)
    } else {
        let rows = region_text(lines.subrange(start - 1, end as int), start as usize);
        if end < total {
            rows + msg_continue(start, end, total)
        } else {
            rows
        }
    }
}

/// The text of the window.
pub open spec fn preview_text(text: Seq<char>, offset: usize, limit: Option<usize>) -> Seq<char> {
    window_rows(visible(text), window_start(offset), limit)
}

/// Copies lines `from..to`.
pub fn copy_lines(lines: &Vec<Vec<char>>, from: usize, to: usize) -> (r: Vec<Vec<char>>)
    requires
        from <= to <= lines.len(),
    ensures
        views(r@) == views(lines@).subrange(from as int, to as int),
{
    let mut selected: Vec<Vec<char>> = Vec::new();
    let mut i = from;
    while i < to
        invariant
            from <= i <= to,
            to <= lines.len(),
            views(selected@) == views(lines@).subrange(from as int, i as int),
        decreases to - i,
    {
        let row = crate::text::slice_chars(&lines[i], 0, lines[i].len());
        assert(lines@[i as int]@.subrange(0, lines@[i as int]@.len() as int) == lines@[i as int]@);
        let ghost before = selected@;
        selected.push(row);
        proof {
            crate::text::lemma_views_push(before, row);
        }
        assert(views(lines@)[i as int] == lines@[i as int]@);
        assert(views(selected@) =~= views(lines@).subrange(from as int, i + 1));
        i += 1;
    }
    selected
}

fn window_text(selected: &Vec<Vec<char>>, start: usize, end: usize, total: usize) -> (out: Vec<char>)
    requires
        1 <= start <= end <= total,
        total < usize::MAX,
        selected.len() == end - start + 1,
    ensures
        out@ == (if end < total {
            region_text(views(selected@), start) + msg_continue(start as nat, end as nat, total as nat)
        } else {
            region_text(views(selected@), start)
        }),
{
    let mut out = format_region_chars(selected, start);
    if end < total {
        let ghost rows = out@;
        extend_str(&mut out, "\n\n[Showing lines ");
        push_decimal(&mut out, start);
        extend_str(&mut out, "-");
        push_decimal(&mut out, end);
        extend_str(&mut out, " of ");
        push_decimal(&mut out, total);
        extend_str(&mut out, ". Use offset=");
        push_decimal(&mut out, end + 1);
        extend_str(&mut out, " to continue.]");
        assert(out@ =~= rows + msg_continue(start as nat, end as nat, total as nat));
    }
    out
}

fn empty_text(start: usize) -> (m: Vec<char>)
    ensures
        m@ == (if start == 1 { msg_empty_file() } else { msg_empty_offset(start as nat) }),
{
    let mut m: Vec<char> = Vec::new();
    if start == 1 {
        extend_str(&mut m, "File is empty. Use hashline_edit with prepend or append and omit pos to insert content.");
    } else {
        extend_str(&mut m, "Offset ");
        push_decimal(&mut m, start);
        extend_str(&mut m, " is beyond end of file (0 lines total). The file is empty. Use hashline_edit with prepend or append and omit pos to insert content.");
    }
    m
}

fn beyond_text(start: usize, total: usize) -> (m: Vec<char>)
    ensures
        m@ == msg_beyond(start as nat, total as nat),
{
    let mut m: Vec<char> = Vec::new();
    extend_str(&mut m, "Offset ");
    push_decimal(&mut m, start);
    extend_str(&mut m, " is beyond end of file (");
    push_decimal(&mut m, total);
    extend_str(&mut m, " lines total). Use offset=1 to read from the start, or offset=");
    push_decimal(&mut m, total);
    extend_str(&mut m, " to read the last line.");
    m
}

fn window_body(lines: &Vec<Vec<char>>, start: usize, limit: Option<usize>) -> (r: (Vec<char>, usize, usize))
    requires
        1 <= start,
        lines.len() < usize::MAX,
    ensures
        r.0@ == window_rows(views(lines@), start as nat, limit),
        r.2 == window_end(lines.len() as nat, start as nat, limit),
        r.1 == (if lines.len() == 0 || start > lines.len() { 0 } else { r.2 - start + 1 }),
{
    let total = lines.len();
    if total == 0 {
        let m = empty_text(start);
        return (m, 0, 0);
    }
    if start > total {
        let m = beyond_text(start, total);
        return (m, 0, total);
    }
    let lim0 = match limit {
        Some(l) => l,
        None => DEFAULT_READ_LIMIT,
    };
    let lim = if lim0 < 1 { 1 } else { lim0 };
    let end = if lim < total - (start - 1) { start - 1 + lim } else { total };
    let selected = copy_lines(lines, start - 1, end);
    let returned = selected.len();
    assert(views(selected@).len() == selected@.len());
    assert(start <= end);
    let out = window_text(&selected, start, end, total);
    (out, returned, end)
}

/// Formats the window of `text` that starts at line `offset` and holds at
/// most `limit` lines (200 when absent).
pub fn format_read_preview(text: &str, offset: usize, limit: Option<usize>) -> (r: Result<Preview, String>)
    requires
        text@.len() < usize::MAX,
    ensures
        r matches Ok(p) && {
            let total = visible(text@).len();
            let start = window_start(offset);
            let end = window_end(total, start, limit);
            &&& p.text@ == preview_text(text@, offset, limit)
            &&& p.total_lines == total
            &&& p.start == start
            &&& p.end == end
            &&& p.returned == (if total == 0 || start > total { 0 } else { end - start + 1 })
            &&& p.truncated == (total > 0 && start <= total && end < total)
            &&& p.next_offset == (if total > 0 && start <= total && end < total {
                Some((end + 1) as usize)
            } else {
                None
            })
            &&& p.file_hash@ == file_digest(text@)
        },
{
    let v = chars_of(text);
    let lines = visible_chars(&v);
    proof {
        crate::text::lemma_visible_len(v@);
    }
    let start: usize = if offset < 1 { 1 } else { offset };
    let fh = file_hash(text);
    let (m, returned, end) = window_body(&lines, start, limit);
    let total = lines.len();
    let truncated = total > 0 && start <= total && end < total;
    let next = if truncated { Some(end + 1) } else { None };
    Ok(Preview {
        text: string_of(&m),
        total_lines: total,
        returned,
        truncated,
        next_offset: next,
        start,
        end,
        file_hash: fh,
    })
}

} // verus!
