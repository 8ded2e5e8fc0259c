//! The grep and find tools: arguments, patterns, matching lines with their
//! context, and reports.
use vstd::prelude::*;
use crate::json::{get_bool, get_i64, get_str, spec_as_bool, spec_as_i64, spec_as_str, spec_get, Json};
use crate::text::{chars_of, decimal, extend_chars, extend_str, is_ws, push_decimal, slice_chars, string_of, views};
use crate::tools::error::{ToolError, ToolErrorView};

verus! {

/// The grep tool.
#[derive(Debug)]
pub struct GrepTool;

/// The find tool.
#[derive(Debug)]
pub struct FindTool;

// ---------------------------------------------------------------------------
// Truncating long lines
// ---------------------------------------------------------------------------

/// A line cut to `max_len` characters, with "..." after it where it was
/// longer.
pub open spec fn truncated(line: Seq<char>, max_len: nat) -> Seq<char> {
    if line.len() <= max_len {
        line
    } else {
        line.take(max_len as int) + "..."@
    }
}

/// Cuts a line to at most `max_len` characters, appending "..." where it
/// was cut.
pub fn truncate_line(line: &str, max_len: usize) -> (r: String)
    ensures
        r@ == truncated(line@, max_len as nat),
{
    let v = chars_of(line);
    if v.len() <= max_len {
        return string_of(&v);
    }
    let mut r = slice_chars(&v, 0, max_len);
    extend_str(&mut r, "...");
    assert(r@ =~= v@.take(max_len as int) + "..."@);
    string_of(&r)
}

// ---------------------------------------------------------------------------
// Outside patterns
// ---------------------------------------------------------------------------

/// The regex crate's message for a pattern that does not compile
/// (`Regex::new`), or `None` when it compiles.
pub uninterp spec fn regex_new_error(src: Seq<char>) -> Option<Seq<char>>;

/// Whether the regex compiled from `src` matches somewhere in `hay`
/// (`Regex::is_match`).
pub uninterp spec fn regex_is_match(src: Seq<char>, hay: Seq<char>) -> bool;

#[verifier::external_type_specification]
#[verifier::external_body]
pub struct ExRegex(regex::Regex);

/// A compiled regular expression and its source.
#[derive(Debug)]
pub struct Pattern {
    source: String,
    re: regex::Regex,
}

impl Pattern {
    pub closed spec fn src(&self) -> Seq<char> {
        self.source@
    }
}

/// Compiles a pattern with `Regex::new`: the regex crate's parser and
/// compiler decide; whether it compiles and its message are named by
/// `regex_new_error`.
#[verifier::external_body]
fn regex_new(source: String) -> (r: Result<Pattern, String>)
    ensures
        match regex_new_error(source@) {
            None => r matches Ok(p) && p.src() == source@,
            Some(m) => r matches Err(e) && e@ == m,
        },
{
    match regex::Regex::new(source.as_str()) {
        Ok(re) => Ok(Pattern { source, re }),
        Err(e) => Err(e.to_string()),
    }
}

/// Whether a compiled regex matches somewhere in a line
/// (`Regex::is_match`), named by `regex_is_match`.
#[verifier::external_body]
fn regex_matches(p: &Pattern, hay: &str) -> (r: bool)
    ensures
        r == regex_is_match(p.src(), hay@),
{
    p.re.is_match(hay)
}

/// The characters that `regex::escape` escapes.
pub open spec fn is_meta(c: char) -> bool {
    c == '\\' || c == '.' || c == '+' || c == '*' || c == '?' || c == '(' || c == ')' || c == '|' || c == '['
        || c == ']' || c == '{' || c == '}' || c == '^' || c == '$' || c == '#' || c == '&' || c == '-' || c == '~'
}

/// `regex::escape`: a backslash before each meta character.
pub open spec fn escape_spec(s: Seq<char>) -> Seq<char>
    decreases s.len(),
{
    if s.len() == 0 {
        Seq::empty()
    } else {
        escape_spec(s.drop_last()) + (if is_meta(s.last()) { seq!['\\', s.last()] } else { seq![s.last()] })
    }
}

/// Escapes the meta characters of a text, as `regex::escape` does.
pub fn escape_regex(s: &str) -> (r: Vec<char>)
    ensures
        r@ == escape_spec(s@),
{
    let v = chars_of(s);
    let mut out: Vec<char> = Vec::new();
    let mut i: usize = 0;
    while i < v.len()
        invariant
            i <= v.len(),
            out@ == escape_spec(v@.take(i as int)),
        decreases v.len() - i,
    {
        let c = v[i];
        assert(v@.take(i + 1).drop_last() =~= v@.take(i as int));
        assert(v@.take(i + 1).last() == c);
        if c == '\\' || c == '.' || c == '+' || c == '*' || c == '?' || c == '(' || c == ')' || c == '|' || c == '['
            || c == ']' || c == '{' || c == '}' || c == '^' || c == '$' || c == '#' || c == '&' || c == '-' || c == '~' {
            out.push('\\');
            out.push(c);
        } else {
            out.push(c);
        }
        assert(out@ =~= escape_spec(v@.take(i + 1)));
        i += 1;
    }
    assert(v@.take(v.len() as int) =~= v@);
    out
}

/// The characters that `regex::escape` puts a backslash before, as the
/// regex-syntax crate lists them (`is_meta_character`).
pub open spec fn regex_meta_chars() -> Seq<char> {
    seq!['\\', '.', '+', '*', '?', '(', ')', '|', '[', ']', '{', '}', '^', '$', '#', '&', '-', '~']
}

proof fn lemma_escape_concat(a: Seq<char>, b: Seq<char>)
    ensures
        escape_spec(a + b) == escape_spec(a) + escape_spec(b),
    decreases b.len(),
{
    if b.len() == 0 {
        assert(a + b =~= a);
    } else {
        lemma_escape_concat(a, b.drop_last());
        assert((a + b).drop_last() =~= a + b.drop_last());
        assert((a + b).last() == b.last());
    }
}

proof fn lemma_meta_listed(c: char)
    ensures
        is_meta(c) <==> regex_meta_chars().contains(c),
{
    let m = regex_meta_chars();
    if is_meta(c) {
        if c == '\\' {
            assert(m[0] == c);
        } else if c == '.' {
            assert(m[1] == c);
        } else if c == '+' {
            assert(m[2] == c);
        } else if c == '*' {
            assert(m[3] == c);
        } else if c == '?' {
            assert(m[4] == c);
        } else if c == '(' {
            assert(m[5] == c);
        } else if c == ')' {
            assert(m[6] == c);
        } else if c == '|' {
            assert(m[7] == c);
        } else if c == '[' {
            assert(m[8] == c);
        } else if c == ']' {
            assert(m[9] == c);
        } else if c == '{' {
            assert(m[10] == c);
        } else if c == '}' {
            assert(m[11] == c);
        } else if c == '^' {
            assert(m[12] == c);
        } else if c == '$' {
            assert(m[13] == c);
        } else if c == '#' {
            assert(m[14] == c);
        } else if c == '&' {
            assert(m[15] == c);
        } else if c == '-' {
            assert(m[16] == c);
        } else if c == '~' {
            assert(m[17] == c);
        }
    }
}

/// A literal grep pattern is searched for as text: its regex source puts a
/// backslash before every regex meta character (`+` included) and keeps
/// every other character as it is, piece by piece, so that the source
/// matches exactly the pattern's own characters.
pub proof fn law_literal_patterns_escaped(p: Seq<char>, q: Seq<char>, c: char)
    ensures
        escape_spec(p + q) == escape_spec(p) + escape_spec(q),
        regex_meta_chars().contains(c) ==> escape_spec(seq![c]) == seq!['\\', c],
        !regex_meta_chars().contains(c) ==> escape_spec(seq![c]) == seq![c],
        grep_source(p, true, false) == escape_spec(p),
        grep_source(p, true, true) == "(?i)"@ + escape_spec(p),
        grep_source(p, false, false) == p,
{
    lemma_escape_concat(p, q);
    lemma_meta_listed(c);
    assert(seq![c].drop_last() =~= Seq::<char>::empty());
    assert(escape_spec(Seq::<char>::empty()) == Seq::<char>::empty());
    assert(Seq::<char>::empty() + seq!['\\', c] =~= seq!['\\', c]);
    assert(Seq::<char>::empty() + seq![c] =~= seq![c]);
}

/// The regex source that grep searches with.
pub open spec fn grep_source(p: Seq<char>, literal: bool, ignore_case: bool) -> Seq<char> {
    let s = if literal { escape_spec(p) } else { p };
    if ignore_case { "(?i)"@ + s } else { s }
}

/// Compiles grep's pattern; an error becomes a regex error.
pub fn grep_pattern(p: &str, literal: bool, ignore_case: bool) -> (r: Result<Pattern, ToolError>)
    ensures
        match regex_new_error(grep_source(p@, literal, ignore_case)) {
            None => r matches Ok(x) && x.src() == grep_source(p@, literal, ignore_case),
            Some(m) => r matches Err(e) && e@ == ToolErrorView::Regex(m),
        },
{
    let s = if literal { escape_regex(p) } else { chars_of(p) };
    let mut full: Vec<char> = Vec::new();
    if ignore_case {
        extend_str(&mut full, "(?i)");
    }
    extend_chars(&mut full, &s);
    proof {
        if !ignore_case {
            assert(full@ =~= s@);
        }
    }
    match regex_new(string_of(&full)) {
        Ok(x) => Ok(x),
        Err(m) => Err(ToolError::Regex(m)),
    }
}

// ---------------------------------------------------------------------------
// Glob filters
// ---------------------------------------------------------------------------

pub open spec fn is_regex_special(c: char) -> bool {
    c == '\\' || c == '+' || c == '(' || c == ')' || c == '[' || c == ']' || c == '{' || c == '}' || c == '^'
        || c == '$' || c == '|'
}

/// The regex text for glob characters from position `i` on.
pub open spec fn glob_body(g: Seq<char>, i: int) -> Seq<char>
    decreases g.len() - i,
{
    if i < 0 || i >= g.len() {
        Seq::empty()
    } else if g[i] == '*' && i + 1 < g.len() && g[i + 1] == '*' {
        let next = if i + 2 < g.len() && g[i + 2] == '/' { i + 3 } else { i + 2 };
        ".*"@ + glob_body(g, next)
    } else if g[i] == '*' {
        "[^/]*"@ + glob_body(g, i + 1)
    } else if g[i] == '?' {
        seq!['.'] + glob_body(g, i + 1)
    } else if g[i] == '.' {
        seq!['\\', '.'] + glob_body(g, i + 1)
    } else if is_regex_special(g[i]) {
        seq!['\\', g[i]] + glob_body(g, i + 1)
    } else {
        seq![g[i]] + glob_body(g, i + 1)
    }
}

/// The anchored regex for a glob: `**` crosses directories, `*` stays in
/// one, `?` is one character; everything else is literal.
pub open spec fn glob_regex_spec(g: Seq<char>) -> Seq<char> {
    seq!['^'] + glob_body(g, 0) + seq!['$']
}

proof fn lemma_glob_body_step(g: Seq<char>, i: int)
    requires
        0 <= i < g.len(),
    ensures
        glob_body(g, i) == (if g[i] == '*' && i + 1 < g.len() && g[i + 1] == '*' {
            ".*"@ + glob_body(g, if i + 2 < g.len() && g[i + 2] == '/' { i + 3 } else { i + 2 })
        } else if g[i] == '*' {
            "[^/]*"@ + glob_body(g, i + 1)
        } else if g[i] == '?' {
            seq!['.'] + glob_body(g, i + 1)
        } else if g[i] == '.' {
            seq!['\\', '.'] + glob_body(g, i + 1)
        } else if is_regex_special(g[i]) {
            seq!['\\', g[i]] + glob_body(g, i + 1)
        } else {
            seq![g[i]] + glob_body(g, i + 1)
        }),
{
}

/// The regex text for a glob filter.
pub fn build_glob_regex(glob: &str) -> (r: String)
    ensures
        r@ == glob_regex_spec(glob@),
{
    let g = chars_of(glob);
    let mut out: Vec<char> = Vec::new();
    out.push('^');
    let mut i: usize = 0;
    while i < g.len()
        invariant
            i <= g.len(),
            out@ + glob_body(g@, i as int) + seq!['$'] == glob_regex_spec(g@),
        decreases g.len() - i,
    {
        proof {
            lemma_glob_body_step(g@, i as int);
        }
        let ghost before = out@;
        let c = g[i];
        if c == '*' && i + 1 < g.len() && g[i + 1] == '*' {
            extend_str(&mut out, ".*");
            i += 2;
            if i < g.len() && g[i] == '/' {
                i += 1;
            }
        } else if c == '*' {
            extend_str(&mut out, "[^/]*");
            i += 1;
        } else if c == '?' {
            out.push('.');
            i += 1;
        } else if c == '.' {
            out.push('\\');
            out.push('.');
            i += 1;
        } else if c == '\\' || c == '+' || c == '(' || c == ')' || c == '[' || c == ']' || c == '{' || c == '}'
            || c == '^' || c == '$' || c == '|' {
            out.push('\\');
            out.push(c);
            i += 1;
        } else {
            out.push(c);
            i += 1;
        }
        assert(out@ + glob_body(g@, i as int) + seq!['$'] =~= glob_regex_spec(g@));
    }
    out.push('$');
    assert(out@ =~= glob_regex_spec(g@));
    string_of(&out)
}

/// Compiles a glob filter for grep. The conversion yields a regex that the
/// regex crate compiles; should it not, the error is reported.
pub fn glob_filter(glob: &str) -> (r: Result<Pattern, ToolError>)
    ensures
        match regex_new_error(glob_regex_spec(glob@)) {
            None => r matches Ok(x) && x.src() == glob_regex_spec(glob@),
            Some(m) => r matches Err(e) && e@ == ToolErrorView::Regex(m),
        },
{
    match regex_new(build_glob_regex(glob)) {
        Ok(x) => Ok(x),
        Err(m) => Err(ToolError::Regex(m)),
    }
}

/// Whether a path passes a glob filter.
pub fn glob_filter_matches(filter: &Pattern, path: &str) -> (r: bool)
    ensures
        r == regex_is_match(filter.src(), path@),
{
    regex_matches(filter, path)
}

// ---------------------------------------------------------------------------
// Grep
// ---------------------------------------------------------------------------

/// The arguments of grep.
#[derive(Debug)]
pub struct GrepArgs {
    pub pattern: String,
    pub literal: bool,
    pub ignore_case: bool,
    pub context: usize,
    pub limit: usize,
    pub path: Option<String>,
    pub glob: Option<String>,
}

pub open spec fn opt_str(o: Option<String>) -> Option<Seq<char>> {
    match o {
        Some(s) => Some(s@),
        None => None,
    }
}

/// The arguments of grep: the pattern (required), whether it is literal
/// and ignores case, the lines of context (at least 0), the most matches
/// (at least 1, 100 by default), the path and the glob filter.
pub open spec fn grep_args_ok(r: GrepArgs, a: Json) -> bool {
    let ctx: i64 = match spec_as_i64(spec_get(a, "context"@)) { Some(c) => c, None => 0 };
    let lim: i64 = match spec_as_i64(spec_get(a, "limit"@)) { Some(l) => l, None => 100 };
    &&& spec_as_str(spec_get(a, "pattern"@)) == Some(r.pattern@)
    &&& r.literal == (match spec_as_bool(spec_get(a, "literal"@)) { Some(b) => b, None => false })
    &&& r.ignore_case == (match spec_as_bool(spec_get(a, "ignoreCase"@)) { Some(b) => b, None => false })
    &&& r.context == (if ctx < 0 { 0i64 } else { ctx }) as usize
    &&& r.limit == (if lim < 1 { 1i64 } else { lim }) as usize
    &&& opt_str(r.path) == spec_as_str(spec_get(a, "path"@))
    &&& opt_str(r.glob) == spec_as_str(spec_get(a, "glob"@))
}

fn owned(s: &str) -> (r: String)
    ensures
        r@ == s@,
{
    string_of(&chars_of(s))
}

fn owned_opt(s: Option<&str>) -> (r: Option<String>)
    ensures
        opt_str(r) == (match s { Some(x) => Some(x@), None => None }),
{
    match s {
        Some(x) => Some(owned(x)),
        None => None,
    }
}

/// Reads grep's arguments.
pub fn grep_args(arguments: &Json) -> (r: Result<GrepArgs, ToolError>)
    ensures
        match spec_as_str(spec_get(*arguments, "pattern"@)) {
            None => r matches Err(e) && e@ == ToolErrorView::InvalidArguments("Missing required 'pattern' argument"@),
            Some(_) => r matches Ok(g) && grep_args_ok(g, *arguments),
        },
{
    let pattern = match get_str(arguments, "pattern") {
        None => return Err(ToolError::InvalidArguments("Missing required 'pattern' argument".to_string())),
        Some(p) => owned(p),
    };
    let ctx: i64 = match get_i64(arguments, "context") {
        Some(c) => c,
        None => 0,
    };
    let lim: i64 = match get_i64(arguments, "limit") {
        Some(l) => l,
        None => 100,
    };
    let ctx2: i64 = if ctx < 0 { 0 } else { ctx };
    let lim2: i64 = if lim < 1 { 1 } else { lim };
    Ok(GrepArgs {
        pattern,
        literal: match get_bool(arguments, "literal") {
            Some(b) => b,
            None => false,
        },
        ignore_case: match get_bool(arguments, "ignoreCase") {
            Some(b) => b,
            None => false,
        },
        context: ctx2 as usize,
        limit: lim2 as usize,
        path: owned_opt(get_str(arguments, "path")),
        glob: owned_opt(get_str(arguments, "glob")),
    })
}

/// The indices of the first `max` lines that match, in order.
pub open spec fn matching_indices(src: Seq<char>, lines: Seq<Seq<char>>, max: nat) -> Seq<int>
    decreases lines.len(),
{
    if lines.len() == 0 {
        Seq::empty()
    } else {
        let prev = matching_indices(src, lines.drop_last(), max);
        if prev.len() < max && regex_is_match(src, lines.last()) {
            prev.push(lines.len() - 1)
        } else {
            prev
        }
    }
}

/// Line `l` cut to 500 characters.
pub open spec fn cut500(l: Seq<char>) -> Seq<char> {
    truncated(l, 500)
}

/// One row of a context block: a marker for the matching line, the line
/// number, and the line cut to 500 characters.
pub open spec fn block_row(lines: Seq<Seq<char>>, ci: int, hit: int) -> Seq<char> {
    (if ci == hit { seq!['>'] } else { seq![' '] }) + "  "@ + decimal((ci + 1) as nat) + ": "@ + cut500(lines[ci]) + seq!['\n']
}

/// The rows of lines `from..to`.
pub open spec fn block_rows(lines: Seq<Seq<char>>, hit: int, from: int, to: int) -> Seq<char>
    decreases to - from,
{
    if to <= from {
        Seq::empty()
    } else {
        block_rows(lines, hit, from, to - 1) + block_row(lines, to - 1, hit)
    }
}

/// The first line of the context of the match on line index `hit`.
pub open spec fn window_start(hit: int, context: nat) -> int {
    if hit >= context { hit - context } else { 0 }
}

/// The end of the context of the match on line index `hit`.
pub open spec fn window_end(hit: int, context: nat, n: nat) -> int {
    if hit + 1 + context <= n { hit + 1 + context } else { n as int }
}

/// The block of the match on line index `hit`: its line range, then its
/// rows.
pub open spec fn block_text(lines: Seq<Seq<char>>, hit: int, context: nat) -> Seq<char> {
    let st = window_start(hit, context);
    let en = window_end(hit, context, lines.len());
    "Lines "@ + decimal((st + 1) as nat) + seq!['-'] + decimal(en as nat) + ":\n"@ + block_rows(lines, hit, st, en)
}

fn render_block(lines: &Vec<String>, hit: usize, context: usize) -> (r: String)
    requires
        hit < lines.len(),
    ensures
        r@ == block_text(lines@.map_values(|s: String| s@), hit as int, context as nat),
{
    let ghost lv = lines@.map_values(|s: String| s@);
    let n = lines.len();
    let start: usize = if hit >= context { hit - context } else { 0 };
    let end: usize = if context <= n - hit - 1 { hit + 1 + context } else { n };
    let mut b: Vec<char> = Vec::new();
    extend_str(&mut b, "Lines ");
    push_decimal(&mut b, start + 1);
    b.push('-');
    push_decimal(&mut b, end);
    extend_str(&mut b, ":\n");
    let ghost head = b@;
    assert(head =~= "Lines "@ + decimal((start + 1) as nat) + seq!['-'] + decimal(end as nat) + ":\n"@);
    let mut ci = start;
    while ci < end
        invariant
            start <= ci <= end <= n,
            n == lines.len(),
            lv == lines@.map_values(|s: String| s@),
            b@ == head + block_rows(lv, hit as int, start as int, ci as int),
        decreases end - ci,
    {
        let ghost before = b@;
        if ci == hit {
            b.push('>');
        } else {
            b.push(' ');
        }
        extend_str(&mut b, "  ");
        push_decimal(&mut b, ci + 1);
        extend_str(&mut b, ": ");
        let cut = truncate_line(lines[ci].as_str(), 500);
        extend_str(&mut b, cut.as_str());
        b.push('\n');
        assert(lv[ci as int] == lines@[ci as int]@);
        assert(b@ =~= before + block_row(lv, ci as int, hit as int));
        ci += 1;
    }
    string_of(&b)
}

/// Finds the first `max` matching lines and renders each with its context.
pub fn match_blocks(lines: &Vec<String>, p: &Pattern, context: usize, max: usize) -> (r: Vec<String>)
    ensures
        r@.len() == matching_indices(p.src(), lines@.map_values(|s: String| s@), max as nat).len(),
        forall|h: int| 0 <= h < r@.len() ==> (#[trigger] r@[h])@ == block_text(
            lines@.map_values(|s: String| s@),
            matching_indices(p.src(), lines@.map_values(|s: String| s@), max as nat)[h],
            context as nat,
        ),
{
    let ghost lv = lines@.map_values(|s: String| s@);
    let mut hits: Vec<usize> = Vec::new();
    let mut i: usize = 0;
    assert(lv.take(0) =~= Seq::<Seq<char>>::empty());
    assert(hits@.map_values(|x: usize| x as int) =~= Seq::<int>::empty());
    while i < lines.len()
        invariant
            i <= lines.len(),
            lv == lines@.map_values(|s: String| s@),
            hits@.map_values(|x: usize| x as int) == matching_indices(p.src(), lv.take(i as int), max as nat),
            hits.len() <= max,
            forall|k: int| 0 <= k < hits.len() ==> hits@[k] < i,
        decreases lines.len() - i,
    {
        assert(lv.take(i + 1).drop_last() =~= lv.take(i as int));
        assert(lv.take(i + 1).last() == lines@[i as int]@);
        if hits.len() < max {
            if regex_matches(p, lines[i].as_str()) {
                let ghost before = hits@;
                hits.push(i);
                assert(hits@.map_values(|x: usize| x as int) =~= before.map_values(|x: usize| x as int).push(i as int));
            }
        }
        i += 1;
    }
    assert(lv.take(lines.len() as int) =~= lv);
    let ghost hv = hits@.map_values(|x: usize| x as int);
    let mut blocks: Vec<String> = Vec::new();
    let n = lines.len();
    let mut h: usize = 0;
    while h < hits.len()
        invariant
            h <= hits.len(),
            blocks.len() == h,
            n == lines.len(),
            lv == lines@.map_values(|s: String| s@),
            hv == hits@.map_values(|x: usize| x as int),
            forall|k: int| 0 <= k < hits.len() ==> hits@[k] < n,
            forall|k: int| 0 <= k < h ==> (#[trigger] blocks@[k])@ == block_text(lv, hv[k], context as nat),
        decreases hits.len() - h,
    {
        let b = render_block(lines, hits[h], context);
        blocks.push(b);
        h += 1;
    }
    blocks
}

/// One result of grep: the file, then the block.
pub open spec fn grep_entry(display: Seq<char>, block: Seq<char>) -> Seq<char> {
    display + ":\n"@ + block + seq!['\n']
}

/// The pieces one after the other.
pub open spec fn concat(parts: Seq<Seq<char>>) -> Seq<char>
    decreases parts.len(),
{
    if parts.len() == 0 {
        Seq::empty()
    } else {
        concat(parts.drop_last()) + parts.last()
    }
}

/// The report of grep: the results with their count, and the limit when it
/// was reached; or a note that nothing matched.
pub open spec fn grep_report_spec(pattern: Seq<char>, results: Seq<Seq<char>>, count: nat, max: nat) -> Seq<char> {
    if results.len() == 0 {
        "No matches found for pattern: "@ + pattern
    } else {
        "Found "@ + decimal(count) + " match(es) for pattern: "@ + pattern + "\n\n"@ + concat(results)
            + (if count >= max { "\n[Reached limit of "@ + decimal(max) + " matches]"@ } else { Seq::empty() })
    }
}

/// What grep has found so far, and how many matches it may still take.
#[derive(Debug)]
pub struct GrepCollector {
    pub results: Vec<String>,
    pub match_count: usize,
    pub max_matches: usize,
}

pub open spec fn string_views(v: Seq<String>) -> Seq<Seq<char>> {
    v.map_values(|s: String| s@)
}

impl GrepCollector {
    /// A collector that takes at most `max` matches.
    pub fn new(max: usize) -> (r: GrepCollector)
        ensures
            r.results@.len() == 0,
            r.match_count == 0,
            r.max_matches == max,
    {
        GrepCollector { results: Vec::new(), match_count: 0, max_matches: max }
    }

    /// Matches still to take.
    pub fn remaining(&self) -> (r: usize)
        requires
            self.match_count <= self.max_matches,
        ensures
            r == self.max_matches - self.match_count,
    {
        self.max_matches - self.match_count
    }

    /// Adds the blocks of one file, up to the limit; tells whether the
    /// limit is reached.
    pub fn add_file(&mut self, display: &str, blocks: &Vec<String>) -> (full: bool)
        requires
            old(self).match_count <= old(self).max_matches,
        ensures
            final(self).max_matches == old(self).max_matches,
            final(self).match_count <= final(self).max_matches,
            final(self).match_count == old(self).match_count + (if blocks.len() <= old(self).max_matches - old(self).match_count {
                blocks.len() as int
            } else {
                old(self).max_matches - old(self).match_count
            }),
            string_views(final(self).results@) == string_views(old(self).results@) + blocks@.take(
                final(self).match_count - old(self).match_count,
            ).map_values(|b: String| grep_entry(display@, b@)),
            full == (final(self).match_count >= final(self).max_matches),
    {
        let ghost start = string_views(self.results@);
        let mut k: usize = 0;
        assert(blocks@.take(0).map_values(|b: String| grep_entry(display@, b@)) =~= Seq::<Seq<char>>::empty());
        assert(start + Seq::<Seq<char>>::empty() =~= start);
        while k < blocks.len() && self.match_count < self.max_matches
            invariant
                k <= blocks.len(),
                self.max_matches == old(self).max_matches,
                self.match_count == old(self).match_count + k,
                self.match_count <= self.max_matches,
                start == string_views(old(self).results@),
                string_views(self.results@) == start + blocks@.take(k as int).map_values(|b: String| grep_entry(display@, b@)),
            decreases blocks.len() - k,
        {
            let mut t: Vec<char> = Vec::new();
            extend_str(&mut t, display);
            extend_str(&mut t, ":\n");
            extend_str(&mut t, blocks[k].as_str());
            t.push('\n');
            assert(t@ =~= grep_entry(display@, blocks@[k as int]@));
            let ghost before = string_views(self.results@);
            self.results.push(string_of(&t));
            assert(string_views(self.results@) =~= before.push(grep_entry(display@, blocks@[k as int]@)));
            assert(blocks@.take(k + 1).map_values(|b: String| grep_entry(display@, b@)) =~= blocks@.take(k as int).map_values(
                |b: String| grep_entry(display@, b@),
            ).push(grep_entry(display@, blocks@[k as int]@)));
            self.match_count = self.match_count + 1;
            k += 1;
        }
        self.match_count >= self.max_matches
    }

    /// The report: the matches with a count, the limit when reached, or a
    /// note that nothing matched.
    pub fn report(&self, pattern: &str) -> (r: String)
        ensures
            r@ == grep_report_spec(pattern@, string_views(self.results@), self.match_count as nat, self.max_matches as nat),
    {
        let ghost rv = string_views(self.results@);
        let mut t: Vec<char> = Vec::new();
        if self.results.len() == 0 {
            extend_str(&mut t, "No matches found for pattern: ");
            extend_str(&mut t, pattern);
            return string_of(&t);
        }
        extend_str(&mut t, "Found ");
        push_decimal(&mut t, self.match_count);
        extend_str(&mut t, " match(es) for pattern: ");
        extend_str(&mut t, pattern);
        extend_str(&mut t, "\n\n");
        let ghost head = t@;
        let mut i: usize = 0;
        assert(rv.take(0) =~= Seq::<Seq<char>>::empty());
        assert(head + concat(rv.take(0)) =~= head);
        while i < self.results.len()
            invariant
                i <= self.results.len(),
                rv == string_views(self.results@),
                t@ == head + concat(rv.take(i as int)),
            decreases self.results.len() - i,
        {
            extend_str(&mut t, self.results[i].as_str());
            assert(rv.take(i + 1).drop_last() =~= rv.take(i as int));
            assert(rv.take(i + 1).last() == self.results@[i as int]@);
            i += 1;
        }
        assert(rv.take(self.results.len() as int) =~= rv);
        let ghost body = t@;
        if self.match_count >= self.max_matches {
            extend_str(&mut t, "\n[Reached limit of ");
            push_decimal(&mut t, self.max_matches);
            extend_str(&mut t, " matches]");
        } else {
            assert(body + Seq::<char>::empty() =~= body);
        }
        string_of(&t)
    }
}

// ---------------------------------------------------------------------------
// Find
// ---------------------------------------------------------------------------

/// `str::split` on whitespace: the pieces between whitespace characters.
pub open spec fn split_ws(s: Seq<char>) -> Seq<Seq<char>>
    decreases s.len(),
{
    if s.len() == 0 {
        seq![Seq::<char>::empty()]
    } else if is_ws(s.last()) {
        split_ws(s.drop_last()).push(Seq::<char>::empty())
    } else {
        let p = split_ws(s.drop_last());
        p.update(p.len() - 1, p.last().push(s.last()))
    }
}

/// The non-empty pieces, in order.
pub open spec fn non_empty_pieces(p: Seq<Seq<char>>) -> Seq<Seq<char>>
    decreases p.len(),
{
    if p.len() == 0 {
        Seq::empty()
    } else if p.last().len() == 0 {
        non_empty_pieces(p.drop_last())
    } else {
        non_empty_pieces(p.drop_last()).push(p.last())
    }
}

/// `str::split_whitespace`: the words of a text.
pub open spec fn words(s: Seq<char>) -> Seq<Seq<char>> {
    non_empty_pieces(split_ws(s))
}

proof fn lemma_split_ws_len(s: Seq<char>)
    ensures
        split_ws(s).len() >= 1,
    decreases s.len(),
{
    if s.len() > 0 {
        lemma_split_ws_len(s.drop_last());
    }
}

fn split_words(s: &str) -> (r: Vec<Vec<char>>)
    ensures
        views(r@) == words(s@),
{
    let v = chars_of(s);
    let mut pieces: Vec<Vec<char>> = Vec::new();
    let mut cur: Vec<char> = Vec::new();
    let mut i: usize = 0;
    while i < v.len()
        invariant
            i <= v.len(),
            views(pieces@).push(cur@) == split_ws(v@.take(i as int)),
        decreases v.len() - i,
    {
        let c = v[i];
        let ghost before = views(pieces@).push(cur@);
        assert(v@.take(i + 1).drop_last() == v@.take(i as int));
        proof {
            lemma_split_ws_len(v@.take(i as int));
        }
        if crate::text::is_whitespace(c) {
            let done = cur;
            pieces.push(done);
            cur = Vec::new();
            assert(views(pieces@).push(cur@) =~= split_ws(v@.take(i + 1)));
        } else {
            cur.push(c);
            assert(views(pieces@).push(cur@) =~= split_ws(v@.take(i + 1)));
        }
        i += 1;
    }
    assert(v@.take(v.len() as int) == v@);
    let ghost before_push = views(pieces@);
    pieces.push(cur);
    let ghost all = views(pieces@);
    assert(all =~= before_push.push(cur@));
    assert(all == split_ws(s@));
    let mut out: Vec<Vec<char>> = Vec::new();
    let mut k: usize = 0;
    assert(views(out@) =~= non_empty_pieces(all.take(0)));
    while k < pieces.len()
        invariant
            k <= pieces.len(),
            all == views(pieces@),
            views(out@) == non_empty_pieces(all.take(k as int)),
        decreases pieces.len() - k,
    {
        assert(all.take(k + 1).drop_last() =~= all.take(k as int));
        assert(all.take(k + 1).last() == pieces@[k as int]@);
        if pieces[k].len() > 0 {
            let w = slice_chars(&pieces[k], 0, pieces[k].len());
            assert(w@ =~= pieces@[k as int]@);
            let ghost before = views(out@);
            out.push(w);
            assert(views(out@) =~= before.push(w@));
        }
        k += 1;
    }
    assert(all.take(pieces.len() as int) =~= all);
    out
}

/// The glob crate's message for a glob that does not parse (`Glob::new`),
/// or `None` when it parses.
pub uninterp spec fn glob_new_error(src: Seq<char>) -> Option<Seq<char>>;

/// The glob crate's message where a set of parsed globs cannot be compiled
/// into one matcher (`GlobSet::new`, for instance past its regex size
/// limit), or `None` when it compiles.
pub uninterp spec fn glob_set_error(srcs: Seq<Seq<char>>) -> Option<Seq<char>>;

/// Whether a compiled set of globs matches a path (`GlobSet::is_match`).
pub uninterp spec fn glob_set_is_match(srcs: Seq<Seq<char>>, path: Seq<char>) -> bool;

#[verifier::external_type_specification]
#[verifier::external_body]
pub struct ExGlob(globset::Glob);

#[verifier::external_type_specification]
#[verifier::external_body]
pub struct ExGlobSet(globset::GlobSet);

/// A parsed glob and its source.
#[derive(Debug)]
pub struct GlobPattern {
    source: String,
    glob: globset::Glob,
}

impl GlobPattern {
    pub closed spec fn src(&self) -> Seq<char> {
        self.source@
    }
}

/// Parses a glob with `Glob::new`: the globset crate decides; the result
/// is named by `glob_new_error`.
#[verifier::external_body]
fn glob_new(source: String) -> (r: Result<GlobPattern, String>)
    ensures
        match glob_new_error(source@) {
            None => r matches Ok(p) && p.src() == source@,
            Some(m) => r matches Err(e) && e@ == m,
        },
{
    match globset::Glob::new(source.as_str()) {
        Ok(glob) => Ok(GlobPattern { source, glob }),
        Err(e) => Err(e.to_string()),
    }
}

pub open spec fn glob_srcs(g: Seq<GlobPattern>) -> Seq<Seq<char>> {
    g.map_values(|x: GlobPattern| x.src())
}

/// A find pattern: the words of the pattern, compiled together into one
/// glob set.
#[derive(Debug)]
pub struct FindPattern {
    sources: Vec<String>,
    set: globset::GlobSet,
}

impl FindPattern {
    /// The words the set was compiled from.
    pub closed spec fn srcs(&self) -> Seq<Seq<char>> {
        string_views(self.sources@)
    }

    /// How many globs the set holds.
    pub fn len(&self) -> (n: usize)
        ensures
            n == self.srcs().len(),
    {
        self.sources.len()
    }
}

/// Compiles parsed globs into one set with `GlobSet::new`: the globset
/// crate decides; the result is named by `glob_set_error`. Building the
/// set's literal matchers inside that call can also panic, for sets too
/// large for its automaton; nothing here states that limit.
#[verifier::external_body]
fn glob_set_new(globs: Vec<GlobPattern>) -> (r: Result<FindPattern, String>)
    ensures
        match glob_set_error(glob_srcs(globs@)) {
            None => r matches Ok(f) && f.srcs() == glob_srcs(globs@),
            Some(m) => r matches Err(e) && e@ == m,
        },
{
    match globset::GlobSet::new(globs.iter().map(|g| &g.glob)) {
        Ok(set) => Ok(FindPattern { sources: globs.into_iter().map(|g| g.source).collect(), set }),
        Err(e) => Err(e.to_string()),
    }
}

/// Whether a compiled glob set matches a path (`GlobSet::is_match`), named
/// by `glob_set_is_match`.
#[verifier::external_body]
fn glob_set_matches(f: &FindPattern, path: &str) -> (r: bool)
    ensures
        r == glob_set_is_match(f.srcs(), path@),
{
    f.set.is_match(path)
}

/// The first word of a pattern that is not a glob, if any.
pub open spec fn first_bad_glob(ws: Seq<Seq<char>>) -> Option<Seq<char>>
    decreases ws.len(),
{
    if ws.len() == 0 {
        None
    } else {
        match glob_new_error(ws[0]) {
            Some(m) => Some(m),
            None => first_bad_glob(ws.drop_first()),
        }
    }
}

/// Compiles a find pattern: each word is a glob; the first that does not
/// parse is the error; then all of them are compiled into one set, which
/// may fail too.
pub fn build_glob_set(pattern: &str) -> (r: Result<FindPattern, ToolError>)
    ensures
        match first_bad_glob(words(pattern@)) {
            Some(m) => r matches Err(e) && e@ == ToolErrorView::InvalidArguments("Invalid glob pattern: "@ + m),
            None => match glob_set_error(words(pattern@)) {
                Some(m) => r matches Err(e) && e@ == ToolErrorView::InvalidArguments("Invalid glob pattern: "@ + m),
                None => r matches Ok(f) && f.srcs() == words(pattern@),
            },
        },
{
    let ws = split_words(pattern);
    let ghost wv = views(ws@);
    let mut globs: Vec<GlobPattern> = Vec::new();
    let mut i: usize = 0;
    assert(wv.skip(0) =~= wv);
    assert(glob_srcs(globs@) =~= wv.take(0));
    while i < ws.len()
        invariant
            i <= ws.len(),
            wv == views(ws@),
            wv == words(pattern@),
            first_bad_glob(wv) == first_bad_glob(wv.skip(i as int)),
            glob_srcs(globs@) == wv.take(i as int),
        decreases ws.len() - i,
    {
        assert(wv.skip(i as int)[0] == ws@[i as int]@);
        assert(wv.skip(i as int).drop_first() =~= wv.skip(i + 1));
        let src = string_of(&ws[i]);
        assert(src@ == wv[i as int]);
        match glob_new(src) {
            Err(m) => {
                assert(first_bad_glob(wv.skip(i as int)) == Some(m@));
                return Err(invalid_glob(m.as_str()));
            },
            Ok(g) => {
                let ghost before = globs@;
                globs.push(g);
                assert(glob_srcs(globs@) =~= glob_srcs(before).push(wv[i as int]));
                assert(wv.take(i + 1) =~= wv.take(i as int).push(wv[i as int]));
            },
        }
        i += 1;
    }
    assert(wv.take(ws.len() as int) =~= wv);
    assert(wv.skip(ws.len() as int) =~= Seq::<Seq<char>>::empty());
    match glob_set_new(globs) {
        Ok(f) => Ok(f),
        Err(m) => Err(invalid_glob(m.as_str())),
    }
}

fn invalid_glob(m: &str) -> (e: ToolError)
    ensures
        e@ == ToolErrorView::InvalidArguments("Invalid glob pattern: "@ + m@),
{
    let mut t: Vec<char> = Vec::new();
    extend_str(&mut t, "Invalid glob pattern: ");
    extend_str(&mut t, m);
    assert(t@ =~= "Invalid glob pattern: "@ + m@);
    ToolError::InvalidArguments(string_of(&t))
}

impl FindPattern {
    /// Whether the pattern's glob set matches a path.
    pub fn is_match(&self, path: &str) -> (r: bool)
        ensures
            r == glob_set_is_match(self.srcs(), path@),
    {
        glob_set_matches(self, path)
    }
}

/// The arguments of find: the pattern, the most results (at least 1, 1000
/// by default), and the path.
pub open spec fn find_args_spec(a: Json) -> Result<(Seq<char>, usize, Option<Seq<char>>), ToolErrorView> {
    match spec_as_str(spec_get(a, "pattern"@)) {
        None => Err(ToolErrorView::InvalidArguments("Missing required 'pattern' argument"@)),
        Some(p) => {
            let lim: i64 = match spec_as_i64(spec_get(a, "limit"@)) { Some(l) => l, None => 1000 };
            Ok((p, (if lim < 1 { 1i64 } else { lim }) as usize, spec_as_str(spec_get(a, "path"@))))
        },
    }
}

/// Reads find's arguments.
pub fn find_args(arguments: &Json) -> (r: Result<(String, usize, Option<String>), ToolError>)
    ensures
        match find_args_spec(*arguments) {
            Err(x) => r matches Err(e) && e@ == x,
            Ok((p, l, path)) => r matches Ok(v) && v.0@ == p && v.1 == l && opt_str(v.2) == path,
        },
{
    let p = match get_str(arguments, "pattern") {
        None => return Err(ToolError::InvalidArguments("Missing required 'pattern' argument".to_string())),
        Some(p) => owned(p),
    };
    let lim: i64 = match get_i64(arguments, "limit") {
        Some(l) => l,
        None => 1000,
    };
    let lim2: i64 = if lim < 1 { 1 } else { lim };
    Ok((p, lim2 as usize, owned_opt(get_str(arguments, "path"))))
}

/// The numbered list of found paths, from number `k + 1` on.
pub open spec fn numbered(paths: Seq<Seq<char>>, k: int) -> Seq<char>
    decreases k,
{
    if k <= 0 {
        Seq::empty()
    } else {
        numbered(paths, k - 1) + decimal(k as nat) + ". "@ + paths[k - 1] + seq!['\n']
    }
}

/// The report of find.
pub open spec fn find_report_spec(pattern: Seq<char>, paths: Seq<Seq<char>>, max: nat) -> Seq<char> {
    if paths.len() == 0 {
        "No files found matching pattern: "@ + pattern
    } else {
        "Found "@ + decimal(paths.len()) + " file(s) matching pattern: "@ + pattern + "\n\n"@ + numbered(paths, paths.len() as int)
            + (if paths.len() >= max { "\n[Reached limit of "@ + decimal(max) + " results]"@ } else { Seq::empty() })
    }
}

/// What find has found so far.
#[derive(Debug)]
pub struct FindCollector {
    pub results: Vec<String>,
    pub max_results: usize,
}

impl FindCollector {
    /// A collector that takes at most `max` paths.
    pub fn new(max: usize) -> (r: FindCollector)
        ensures
            r.results@.len() == 0,
            r.max_results == max,
    {
        FindCollector { results: Vec::new(), max_results: max }
    }

    /// Takes a matching path; tells whether the limit is reached.
    pub fn add(&mut self, path: String) -> (full: bool)
        ensures
            final(self).results@ == old(self).results@.push(path),
            final(self).max_results == old(self).max_results,
            full == (final(self).results@.len() >= final(self).max_results),
    {
        self.results.push(path);
        self.results.len() >= self.max_results
    }

    /// The report of find.
    pub fn report(&self, pattern: &str) -> (r: String)
        ensures
            r@ == find_report_spec(pattern@, self.results@.map_values(|s: String| s@), self.max_results as nat),
    {
        let ghost pv = self.results@.map_values(|s: String| s@);
        let mut t: Vec<char> = Vec::new();
        if self.results.len() == 0 {
            extend_str(&mut t, "No files found matching pattern: ");
            extend_str(&mut t, pattern);
            return string_of(&t);
        }
        extend_str(&mut t, "Found ");
        push_decimal(&mut t, self.results.len());
        extend_str(&mut t, " file(s) matching pattern: ");
        extend_str(&mut t, pattern);
        extend_str(&mut t, "\n\n");
        let ghost head = t@;
        let mut i: usize = 0;
        while i < self.results.len()
            invariant
                i <= self.results.len(),
                pv == self.results@.map_values(|s: String| s@),
                t@ == head + numbered(pv, i as int),
            decreases self.results.len() - i,
        {
            let ghost before = t@;
            push_decimal(&mut t, i + 1);
            extend_str(&mut t, ". ");
            extend_str(&mut t, self.results[i].as_str());
            t.push('\n');
            assert(t@ =~= before + decimal((i + 1) as nat) + ". "@ + pv[i as int] + seq!['\n']);
            i += 1;
        }
        let ghost body = t@;
        if self.results.len() >= self.max_results {
            extend_str(&mut t, "\n[Reached limit of ");
            push_decimal(&mut t, self.max_results);
            extend_str(&mut t, " results]");
        } else {
            assert(t@ =~= body + Seq::<char>::empty());
        }
        string_of(&t)
    }
}

} // verus!
