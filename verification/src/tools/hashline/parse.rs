//! Reading `LINE#HASH` anchors, and refusing replacement content that still
//! carries rendered `LINE#HASH:` or diff prefixes.
use vstd::prelude::*;
use vstd::utf8::encode_utf8;
use vstd::string::StringSliceAdditionalSpecFns;
use crate::text::{
    chars_of, debug_str, decimal, digit_run, digit_run_at, extend_str, find_char, find_char_from,
    is_digit, is_whitespace, is_ws, leading_ws, lemma_find_char, lemma_trim_end_take,
    lemma_trim_start_skip, parse_usize, parse_usize_exec, push_debug, push_decimal, slice_chars,
    string_of, trim, trim_end, trim_end_len, trim_start, trim_start_len, trimmed_len, ws_run_at,
};
use crate::json::Json;
use crate::tools::hashline::hash::{alphabet, alphabet_seq, hash_char_exec, is_hash_char};

verus! {

/// A reference to a line: its number, the hash the reader saw, and the
/// content that followed the hash, if any.
#[derive(Debug, Clone, PartialEq, Eq)]
pub struct Anchor {
    pub line: usize,
    pub hash: String,
    pub text_hint: Option<String>,
}

pub open spec fn opt_view(o: Option<String>) -> Option<Seq<char>> {
    match o {
        Some(s) => Some(s@),
        None => None,
    }
}

impl View for Anchor {
    type V = (usize, Seq<char>, Option<Seq<char>>);

    open spec fn view(&self) -> Self::V {
        (self.line, self.hash@, opt_view(self.text_hint))
    }
}

/// Characters that may precede a reference: whitespace and the display
/// markers `>`, `+`, `-`.
pub open spec fn is_ref_lead(c: char) -> bool {
    is_ws(c) || c == '>' || c == '+' || c == '-'
}

pub open spec fn ref_lead_len(s: Seq<char>) -> nat
    decreases s.len(),
{
    if s.len() > 0 && is_ref_lead(s[0]) {
        1 + ref_lead_len(s.drop_first())
    } else {
        0
    }
}

/// The reference with display markers and surrounding whitespace removed.
pub open spec fn ref_core(input: Seq<char>) -> Seq<char> {
    trim_end(input.skip(ref_lead_len(input) as int))
}

pub open spec fn all_digit_or_ws(s: Seq<char>) -> bool {
    forall|i: int| 0 <= i < s.len() ==> is_digit(#[trigger] s[i]) || is_ws(s[i])
}

pub open spec fn msg_missing_hash(q: Seq<char>) -> Seq<char> {
    "[E_BAD_REF] Invalid line reference "@ + q
        + ": missing hash, use \"LINE#HASH\" from read output (e.g. \"5#MQ\")."@
}

pub open spec fn msg_not_ref(q: Seq<char>) -> Seq<char> {
    "[E_BAD_REF] Invalid line reference "@ + q + ". Expected \"LINE#HASH\" (e.g. \"5#MQ\")."@
}

pub open spec fn msg_bad_line(q: Seq<char>) -> Seq<char> {
    "[E_BAD_REF] Invalid line reference "@ + q + ". Expected \"LINE#HASH\"."@
}

pub open spec fn msg_line_zero(n: usize, q: Seq<char>) -> Seq<char> {
    "[E_BAD_REF] Line number must be >= 1, got "@ + decimal(n as nat) + " in "@ + q + "."@
}

pub open spec fn msg_hash_len(q: Seq<char>) -> Seq<char> {
    "[E_BAD_REF] Invalid line reference "@ + q + ": hash must be exactly 2 characters from "@
        + alphabet_seq() + "."@
}

pub open spec fn msg_hash_chars(q: Seq<char>) -> Seq<char> {
    "[E_BAD_REF] Invalid line reference "@ + q
        + ": hash uses invalid characters, hashes use alphabet "@ + alphabet_seq() + " only."@
}

/// The hash and the text after `:` in what follows the `#`.
pub open spec fn split_hash(rest: Seq<char>) -> (Seq<char>, Option<Seq<char>>) {
    match find_char(rest, ':') {
        Some(i) => (trim(rest.take(i as int)), Some(rest.skip((i + 1) as int))),
        None => (trim(rest), None),
    }
}

/// What `parse_line_ref` gives for `input`.
pub open spec fn parse_ref(input: Seq<char>) -> Result<(usize, Seq<char>, Option<Seq<char>>), Seq<char>> {
    parse_core(ref_core(input), debug_str(input))
}

pub open spec fn parse_core(core: Seq<char>, q: Seq<char>) -> Result<(usize, Seq<char>, Option<Seq<char>>), Seq<char>> {
    match find_char(core, '#') {
        None => if all_digit_or_ws(core) && trim(core).len() > 0 {
            Err(msg_missing_hash(q))
        } else {
            Err(msg_not_ref(q))
        },
        Some(p) => parse_parts(trim(core.take(p as int)), trim_start(core.skip((p + 1) as int)), q),
    }
}

pub open spec fn parse_parts(line_str: Seq<char>, rest: Seq<char>, q: Seq<char>) -> Result<(usize, Seq<char>, Option<Seq<char>>), Seq<char>> {
    match parse_usize(line_str) {
        None => Err(msg_bad_line(q)),
        Some(n) => check_anchor(n, split_hash(rest).0, split_hash(rest).1, q),
    }
}

pub open spec fn all_hash(hash: Seq<char>) -> bool {
    forall|i: int| 0 <= i < hash.len() ==> is_hash_char(#[trigger] hash[i])
}

pub open spec fn check_anchor(n: usize, hash: Seq<char>, hint: Option<Seq<char>>, q: Seq<char>) -> Result<(usize, Seq<char>, Option<Seq<char>>), Seq<char>> {
    if n < 1 {
        Err(msg_line_zero(n, q))
    } else if encode_utf8(hash).len() != 2 {
        Err(msg_hash_len(q))
    } else if !all_hash(hash) {
        Err(msg_hash_chars(q))
    } else {
        Ok((n, hash, hint))
    }
}

pub open spec fn ref_result(r: Result<Anchor, String>) -> Result<(usize, Seq<char>, Option<Seq<char>>), Seq<char>> {
    match r {
        Ok(a) => Ok(a@),
        Err(e) => Err(e@),
    }
}

fn ref_lead_run(v: &Vec<char>) -> (n: usize)
    ensures
        n == ref_lead_len(v@),
        n <= v.len(),
{
    let mut k: usize = 0;
    assert(v@.skip(0) == v@);
    while k < v.len() && (is_whitespace(v[k]) || v[k] == '>' || v[k] == '+' || v[k] == '-')
        invariant
            k <= v.len(),
            k + ref_lead_len(v@.skip(k as int)) == ref_lead_len(v@),
        decreases v.len() - k,
    {
        assert(v@.skip(k as int).drop_first() == v@.skip(k + 1));
        assert(v@.skip(k as int)[0] == v@[k as int]);
        k += 1;
    }
    proof {
        if k < v.len() {
            assert(v@.skip(k as int)[0] == v@[k as int]);
        }
    }
    k
}

/// `trim` of `v[from..to]`, as a copy.
pub fn trimmed_slice(v: &Vec<char>, from: usize, to: usize) -> (r: Vec<char>)
    requires
        from <= to <= v.len(),
    ensures
        r@ == trim(v@.subrange(from as int, to as int)),
{
    let s = slice_chars(v, from, to);
    let a = trim_start_len(&s);
    let t = slice_chars(&s, a, s.len());
    proof {
        lemma_trim_start_skip(s@);
        assert(t@ == trim_start(s@));
    }
    let b = trim_end_len(&t);
    let r = slice_chars(&t, 0, b);
    proof {
        lemma_trim_end_take(t@);
    }
    r
}

fn all_digit_or_ws_exec(v: &Vec<char>) -> (b: bool)
    ensures
        b == all_digit_or_ws(v@),
{
    let mut i: usize = 0;
    while i < v.len()
        invariant
            i <= v.len(),
            forall|j: int| 0 <= j < i ==> is_digit(#[trigger] v@[j]) || is_ws(v@[j]),
        decreases v.len() - i,
    {
        if !(('0' <= v[i] && v[i] <= '9') || is_whitespace(v[i])) {
            return false;
        }
        i += 1;
    }
    true
}

fn all_hash_chars(v: &Vec<char>) -> (b: bool)
    ensures
        b == all_hash(v@),
{
    let mut i: usize = 0;
    while i < v.len()
        invariant
            i <= v.len(),
            forall|j: int| 0 <= j < i ==> is_hash_char(#[trigger] v@[j]),
        decreases v.len() - i,
    {
        if !hash_char_exec(v[i]) {
            return false;
        }
        i += 1;
    }
    true
}

fn err_with_input(prefix: &str, input: &str, suffix: &str) -> (e: String)
    ensures
        e@ == prefix@ + debug_str(input@) + suffix@,
{
    let mut m: Vec<char> = Vec::new();
    extend_str(&mut m, prefix);
    push_debug(&mut m, input);
    extend_str(&mut m, suffix);
    string_of(&m)
}

fn err_with_alphabet(input: &str, middle: &str, suffix: &str) -> (e: String)
    ensures
        e@ == "[E_BAD_REF] Invalid line reference "@ + debug_str(input@) + middle@ + alphabet_seq()
            + suffix@,
{
    let mut m: Vec<char> = Vec::new();
    extend_str(&mut m, "[E_BAD_REF] Invalid line reference ");
    push_debug(&mut m, input);
    extend_str(&mut m, middle);
    extend_str(&mut m, alphabet());
    extend_str(&mut m, suffix);
    string_of(&m)
}

fn check_anchor_exec(n: usize, hash_v: Vec<char>, hint: Option<String>, input: &str) -> (r: Result<Anchor, String>)
    ensures
        ref_result(r) == check_anchor(n, hash_v@, opt_view(hint), debug_str(input@)),
{
    if n < 1 {
        let mut m: Vec<char> = Vec::new();
        extend_str(&mut m, "[E_BAD_REF] Line number must be >= 1, got ");
        push_decimal(&mut m, n);
        extend_str(&mut m, " in ");
        push_debug(&mut m, input);
        extend_str(&mut m, ".");
        assert(m@ =~= msg_line_zero(n, debug_str(input@)));
        return Err(string_of(&m));
    }
    let hash_s = string_of(&hash_v);
    let hs = hash_s.as_str();
    assert(hs.spec_bytes() == encode_utf8(hash_v@));
    proof {
        crate::text::lemma_utf8_len_bounds(hash_v@);
    }
    if hash_v.len() > 2 || hs.len() != 2 {
        let e = err_with_alphabet(input, ": hash must be exactly 2 characters from ", ".");
        assert(e@ =~= msg_hash_len(debug_str(input@)));
        return Err(e);
    }
    if !all_hash_chars(&hash_v) {
        let e = err_with_alphabet(
            input,
            ": hash uses invalid characters, hashes use alphabet ",
            " only.",
        );
        assert(e@ =~= msg_hash_chars(debug_str(input@)));
        return Err(e);
    }
    Ok(Anchor { line: n, hash: hash_s, text_hint: hint })
}

fn parse_parts_exec(line_v: &Vec<char>, rest: &Vec<char>, input: &str) -> (r: Result<Anchor, String>)
    ensures
        ref_result(r) == parse_parts(line_v@, rest@, debug_str(input@)),
{
    let (hash_v, hint) = match find_char_from(rest, 0, ':') {
        Some(i) => {
            assert(rest@.skip(0) == rest@);
            let h = trimmed_slice(rest, 0, i);
            assert(rest@.subrange(0, i as int) == rest@.take(i as int));
            let tail = slice_chars(rest, i + 1, rest.len());
            assert(tail@ == rest@.skip(i + 1));
            (h, Some(string_of(&tail)))
        },
        None => {
            assert(rest@.skip(0) == rest@);
            let h = trimmed_slice(rest, 0, rest.len());
            assert(rest@.subrange(0, rest@.len() as int) == rest@);
            (h, None)
        },
    };
    assert(hash_v@ == split_hash(rest@).0);
    assert(opt_view(hint) == split_hash(rest@).1);
    match parse_usize_exec(line_v) {
        None => Err(err_with_input(
            "[E_BAD_REF] Invalid line reference ",
            input,
            ". Expected \"LINE#HASH\".",
        )),
        Some(n) => check_anchor_exec(n, hash_v, hint, input),
    }
}

fn parse_core_exec(core: &Vec<char>, input: &str) -> (r: Result<Anchor, String>)
    ensures
        ref_result(r) == parse_core(core@, debug_str(input@)),
{
    assert(core@.skip(0) == core@);
    match find_char_from(core, 0, '#') {
        None => {
            let t = trimmed_slice(core, 0, core.len());
            assert(core@.subrange(0, core@.len() as int) == core@);
            if all_digit_or_ws_exec(core) && t.len() > 0 {
                Err(err_with_input(
                    "[E_BAD_REF] Invalid line reference ",
                    input,
                    ": missing hash, use \"LINE#HASH\" from read output (e.g. \"5#MQ\").",
                ))
            } else {
                Err(err_with_input(
                    "[E_BAD_REF] Invalid line reference ",
                    input,
                    ". Expected \"LINE#HASH\" (e.g. \"5#MQ\").",
                ))
            }
        },
        Some(p) => {
            let line_v = trimmed_slice(core, 0, p);
            assert(core@.subrange(0, p as int) == core@.take(p as int));
            let after_hash = slice_chars(core, p + 1, core.len());
            let ws = trim_start_len(&after_hash);
            let rest = slice_chars(&after_hash, ws, after_hash.len());
            proof {
                lemma_trim_start_skip(after_hash@);
                assert(after_hash@ == core@.skip(p + 1));
                assert(rest@ == trim_start(core@.skip(p + 1)));
            }
            parse_parts_exec(&line_v, &rest, input)
        },
    }
}

/// Parses a `LINE#HASH` reference, optionally followed by `:content`.
pub fn parse_line_ref(input: &str) -> (r: Result<Anchor, String>)
    ensures
        ref_result(r) == parse_ref(input@),
{
    let v = chars_of(input);
    let lead = ref_lead_run(&v);
    let after = slice_chars(&v, lead, v.len());
    let end = trim_end_len(&after);
    let core = slice_chars(&after, 0, end);
    proof {
        lemma_trim_end_take(after@);
        assert(after@ == v@.skip(lead as int));
        assert(core@ == ref_core(input@));
    }
    parse_core_exec(&core, input)
}


// ---------------------------------------------------------------------------
// Reading back a rendered line
// ---------------------------------------------------------------------------

proof fn lemma_trim_end_concat(a: Seq<char>, b: Seq<char>)
    requires
        a.len() > 0,
        !is_ws(a.last()),
    ensures
        trim_end(a + b) == a + trim_end(b),
    decreases b.len(),
{
    if b.len() == 0 {
        assert(a + b == a);
        assert(trim_end(b) == b);
        assert(a + b == a + trim_end(b));
    } else {
        assert((a + b).drop_last() == a + b.drop_last());
        assert((a + b).last() == b.last());
        lemma_trim_end_concat(a, b.drop_last());
        if !is_ws(b.last()) {
            assert(trim_end(b) == b);
        }
    }
}

proof fn lemma_trim_fixed(s: Seq<char>)
    requires
        s.len() > 0 ==> !is_ws(s[0]) && !is_ws(s.last()),
    ensures
        trim(s) == s,
        trim_start(s) == s,
{
}

proof fn lemma_alpha_facts(c: char)
    requires
        is_hash_char(c),
    ensures
        !is_ws(c),
        c != ':',
        c != '#',
        (c as u32) < 0x80,
        !is_digit(c),
        !is_ref_lead(c),
{
    let a = alphabet_seq();
    let i = choose|i: int| 0 <= i < a.len() && a[i] == c;
    assert(0 <= i < 16);
}

proof fn lemma_ascii_utf8_len(s: Seq<char>)
    requires
        forall|i: int| 0 <= i < s.len() ==> ((#[trigger] s[i]) as u32) < 0x80,
    ensures
        encode_utf8(s).len() == s.len(),
    decreases s.len(),
{
    if s.len() > 0 {
        assert forall|i: int| 0 <= i < s.drop_first().len() implies ((#[trigger] s.drop_first()[i]) as u32) < 0x80 by {
            assert(s.drop_first()[i] == s[i + 1]);
        }
        lemma_ascii_utf8_len(s.drop_first());
        assert((s[0] as u32) < 0x80);
    }
}

/// Every message of the reference parser begins with the `[E_BAD_REF]`
/// code.
pub open spec fn bad_ref_code() -> Seq<char> {
    "[E_BAD_REF]"@
}

/// A parsed reference names a line from 1 on and a hash of exactly two
/// characters of the hash alphabet; every refusal carries the
/// `[E_BAD_REF]` code.
pub proof fn law_parsed_refs_are_well_formed(input: Seq<char>)
    ensures
        parse_ref(input) matches Ok((n, h, _)) ==> n >= 1 && h.len() == 2 && all_hash(h),
        parse_ref(input) matches Err(e) ==> e.len() >= 11 && e.take(11) == bad_ref_code(),
{
    let q = debug_str(input);
    reveal_strlit("[E_BAD_REF] Invalid line reference ");
    reveal_strlit("[E_BAD_REF] Line number must be >= 1, got ");
    reveal_strlit("[E_BAD_REF]");
    match parse_ref(input) {
        Ok((n, h, _)) => {
            assert forall|i: int| 0 <= i < h.len() implies ((#[trigger] h[i]) as u32) < 0x80 by {
                lemma_alpha_facts(h[i]);
            }
            lemma_ascii_utf8_len(h);
        },
        Err(e) => {
            let p1 = "[E_BAD_REF] Invalid line reference "@;
            let p2 = "[E_BAD_REF] Line number must be >= 1, got "@;
            assert(p1.take(11) =~= bad_ref_code());
            assert(p2.take(11) =~= bad_ref_code());
            assert(e.take(11) =~= bad_ref_code());
        },
    }
}

/// A rendered line reads back as an anchor: `parse_line_ref` of
/// `render_hashline(n, line)` gives line `n`, the line's hash, and the line
/// without its trailing whitespace as the text after the hash, for every
/// line number `n >= 1`.
pub proof fn lemma_parse_rendered(n: usize, line: Seq<char>)
    requires
        n >= 1,
    ensures
        parse_ref(crate::tools::hashline::hash::rendered(n, line)) == Ok::<_, Seq<char>>(
            (n, crate::tools::hashline::hash::line_hash(n, line), Some(trim_end(line))),
        ),
{
    let dec = decimal(n as nat);
    let h = crate::tools::hashline::hash::line_hash(n, line);
    crate::text::lemma_decimal_digits(n as nat);
    crate::tools::hashline::hash::lemma_line_hash_chars(n, line);
    lemma_alpha_facts(h[0]);
    lemma_alpha_facts(h[1]);
    let r = crate::tools::hashline::hash::rendered(n, line);
    let tail = seq!['#'] + h + seq![':'];
    assert(r == dec + tail + line);
    // no display markers in front of a digit
    assert(is_digit(r[0]));
    assert(ref_lead_len(r) == 0);
    assert(r.skip(0) == r);
    let head = dec + tail;
    assert(head.last() == ':');
    lemma_trim_end_concat(head, line);
    let core = head + trim_end(line);
    assert(ref_core(r) == core);
    // the first '#' follows the numeral
    let p = dec.len();
    assert(core[p as int] == '#');
    assert forall|j: int| 0 <= j < p implies core[j] != '#' by {
        assert(core[j] == dec[j]);
        assert(is_digit(dec[j]));
    }
    crate::text::lemma_find_char_at(core, '#', p);
    assert(core.take(p as int) == dec);
    lemma_trim_fixed(dec);
    crate::text::lemma_parse_decimal(n);
    let after = core.skip((p + 1) as int);
    assert(after == h + seq![':'] + trim_end(line));
    assert(!is_ws(after[0]));
    assert(trim_start(after) == after);
    assert(after[2] == ':');
    assert forall|j: int| 0 <= j < 2 implies after[j] != ':' by {
        assert(after[j] == h[j]);
    }
    crate::text::lemma_find_char_at(after, ':', 2);
    assert(after.take(2) == h);
    lemma_trim_fixed(h);
    assert(after.skip(3) == trim_end(line));
    assert(split_hash(after) == (h, Some(trim_end(line))));
    lemma_ascii_utf8_len(h);
    assert(all_hash(h));
}


// ---------------------------------------------------------------------------
// Display prefixes in replacement content
// ---------------------------------------------------------------------------

/// `LINE#HASH:` at the start of `s` (digits, optional spaces, `#`, optional
/// spaces, two hash characters, `:`).
pub open spec fn looks_hashline(s: Seq<char>) -> bool {
    let d = digit_run(s);
    let a = s.skip(d as int);
    let b = a.skip(leading_ws(a) as int);
    let c = b.skip(1);
    let e = c.skip(leading_ws(c) as int);
    &&& d > 0
    &&& b.len() > 0
    &&& b[0] == '#'
    &&& e.len() >= 3
    &&& is_hash_char(e[0])
    &&& is_hash_char(e[1])
    &&& e[2] == ':'
}

/// A diff deletion line: optional spaces, `-`, digits, four spaces.
pub open spec fn looks_minus(s: Seq<char>) -> bool {
    let t = trim_start(s);
    let r = t.skip(1);
    let d = digit_run(r);
    let x = r.skip(d as int);
    &&& t.len() > 0
    &&& t[0] == '-'
    &&& d > 0
    &&& x.len() >= 4
    &&& x[0] == ' ' && x[1] == ' ' && x[2] == ' ' && x[3] == ' '
}

/// The line with leading whitespace and a `>>>` or `>>` marker removed.
pub open spec fn strip_markers(line: Seq<char>) -> Seq<char> {
    let t = trim_start(line);
    if t.len() >= 3 && t[0] == '>' && t[1] == '>' && t[2] == '>' {
        trim_start(t.skip(3))
    } else if t.len() >= 2 && t[0] == '>' && t[1] == '>' {
        trim_start(t.skip(2))
    } else {
        trim_start(t)
    }
}

/// The line with a diff `+` or `-` sign and the whitespace after it
/// removed.
pub open spec fn strip_sign(t: Seq<char>) -> Seq<char> {
    if t.len() > 0 && (t[0] == '+' || t[0] == '-') {
        trim_start(t.skip(1))
    } else {
        t
    }
}

/// Whether a replacement line still carries a rendered or diff prefix.
pub open spec fn has_display_prefix(line: Seq<char>) -> bool {
    let t = strip_markers(line);
    looks_hashline(t) || looks_hashline(strip_sign(t)) || looks_minus(line)
}

pub open spec fn msg_display_prefix(q: Seq<char>) -> Seq<char> {
    "[E_INVALID_PATCH] \"lines\" must contain literal file content, not rendered \"LINE#HASH:\" or diff \"+/-\" prefixes. Offending line: "@ + q
}

/// What `reject_display_prefixes` gives: an error naming the first line
/// with a display prefix, if there is one.
pub open spec fn reject_prefixes(lines: Seq<Seq<char>>) -> Result<(), Seq<char>>
    decreases lines.len(),
{
    if lines.len() == 0 {
        Ok(())
    } else if has_display_prefix(lines[0]) {
        Err(msg_display_prefix(debug_str(lines[0])))
    } else {
        reject_prefixes(lines.drop_first())
    }
}

fn looks_hashline_at(v: &Vec<char>, from: usize) -> (b: bool)
    requires
        from <= v.len(),
    ensures
        b == looks_hashline(v@.skip(from as int)),
{
    let ghost s = v@.skip(from as int);
    let d = digit_run_at(v, from);
    let ia = from + d;
    assert(s.skip(d as int) == v@.skip(ia as int));
    let w1 = ws_run_at(v, ia);
    let ib = ia + w1;
    assert(v@.skip(ia as int).skip(w1 as int) == v@.skip(ib as int));
    if d == 0 || ib >= v.len() || v[ib] != '#' {
        proof {
            if ib < v.len() {
                assert(v@.skip(ib as int)[0] == v@[ib as int]);
            }
        }
        return false;
    }
    assert(v@.skip(ib as int)[0] == v@[ib as int]);
    let ic = ib + 1;
    assert(v@.skip(ib as int).skip(1) == v@.skip(ic as int));
    let w2 = ws_run_at(v, ic);
    let ie = ic + w2;
    assert(v@.skip(ic as int).skip(w2 as int) == v@.skip(ie as int));
    if v.len() - ie < 3 {
        return false;
    }
    assert(v@.skip(ie as int)[0] == v@[ie as int]);
    assert(v@.skip(ie as int)[1] == v@[ie + 1]);
    assert(v@.skip(ie as int)[2] == v@[ie + 2]);
    hash_char_exec(v[ie]) && hash_char_exec(v[ie + 1]) && v[ie + 2] == ':'
}

fn looks_minus_exec(v: &Vec<char>) -> (b: bool)
    ensures
        b == looks_minus(v@),
{
    let t0 = trim_start_len(v);
    proof {
        lemma_trim_start_skip(v@);
    }
    assert(trim_start(v@) == v@.skip(t0 as int));
    if t0 >= v.len() || v[t0] != '-' {
        proof {
            if t0 < v.len() {
                assert(v@.skip(t0 as int)[0] == v@[t0 as int]);
            }
        }
        return false;
    }
    assert(v@.skip(t0 as int)[0] == v@[t0 as int]);
    let ir = t0 + 1;
    assert(v@.skip(t0 as int).skip(1) == v@.skip(ir as int));
    let d = digit_run_at(v, ir);
    let ix = ir + d;
    assert(v@.skip(ir as int).skip(d as int) == v@.skip(ix as int));
    if d == 0 || v.len() - ix < 4 {
        return false;
    }
    assert(v@.skip(ix as int)[0] == v@[ix as int]);
    assert(v@.skip(ix as int)[1] == v@[ix + 1]);
    assert(v@.skip(ix as int)[2] == v@[ix + 2]);
    assert(v@.skip(ix as int)[3] == v@[ix + 3]);
    v[ix] == ' ' && v[ix + 1] == ' ' && v[ix + 2] == ' ' && v[ix + 3] == ' '
}

fn has_display_prefix_exec(v: &Vec<char>) -> (b: bool)
    ensures
        b == has_display_prefix(v@),
{
    let t0 = trim_start_len(v);
    proof {
        lemma_trim_start_skip(v@);
    }
    let ghost t = trim_start(v@);
    assert(t == v@.skip(t0 as int));
    let n = v.len();
    let mut start: usize;
    if n - t0 >= 3 && v[t0] == '>' && v[t0 + 1] == '>' && v[t0 + 2] == '>' {
        assert(t[0] == v@[t0 as int] && t[1] == v@[t0 + 1] && t[2] == v@[t0 + 2]);
        assert(t.skip(3) == v@.skip(t0 + 3));
        let w = ws_run_at(v, t0 + 3);
        proof {
            lemma_trim_start_skip(t.skip(3));
        }
        start = t0 + 3 + w;
        assert(strip_markers(v@) == v@.skip(start as int));
    } else if n - t0 >= 2 && v[t0] == '>' && v[t0 + 1] == '>' {
        assert(t[0] == v@[t0 as int] && t[1] == v@[t0 + 1]);
        assert(!(t.len() >= 3 && t[0] == '>' && t[1] == '>' && t[2] == '>')) by {
            if t.len() >= 3 {
                assert(t[2] == v@[t0 + 2]);
            }
        }
        assert(t.skip(2) == v@.skip(t0 + 2));
        let w = ws_run_at(v, t0 + 2);
        proof {
            lemma_trim_start_skip(t.skip(2));
        }
        start = t0 + 2 + w;
        assert(strip_markers(v@) == v@.skip(start as int));
    } else {
        proof {
            if t.len() >= 3 {
                assert(t[2] == v@[t0 + 2]);
            }
            if t.len() >= 2 {
                assert(t[0] == v@[t0 as int] && t[1] == v@[t0 + 1]);
            }
            crate::text::lemma_trim_start_skip(t);
            assert(leading_ws(t) == 0) by {
                if t.len() > 0 {
                    assert(t[0] == v@[t0 as int]);
                }
            }
            assert(t.skip(0) == t);
        }
        start = t0;
        assert(strip_markers(v@) == v@.skip(start as int));
    }
    let ghost sm = strip_markers(v@);
    let plus_start: usize;
    if start < n && (v[start] == '+' || v[start] == '-') {
        assert(sm[0] == v@[start as int]);
        assert(sm.skip(1) == v@.skip(start + 1));
        let w = ws_run_at(v, start + 1);
        proof {
            lemma_trim_start_skip(sm.skip(1));
        }
        plus_start = start + 1 + w;
    } else {
        proof {
            if start < n {
                assert(sm[0] == v@[start as int]);
            }
        }
        plus_start = start;
    }
    assert(strip_sign(sm) == v@.skip(plus_start as int));
    looks_hashline_at(v, start) || looks_hashline_at(v, plus_start) || looks_minus_exec(v)
}

/// Refuses replacement lines that still carry a rendered `LINE#HASH:` prefix
/// (also after `>>>`, `>>`, or a diff `+` or `-` sign) or a diff deletion
/// prefix.
pub fn reject_display_prefixes(lines: &[String]) -> (r: Result<(), String>)
    ensures
        match r {
            Ok(()) => reject_prefixes(crate::tools::hashline::hash::string_views(lines@)) == Ok::<(), Seq<char>>(()),
            Err(e) => reject_prefixes(crate::tools::hashline::hash::string_views(lines@)) == Err::<(), Seq<char>>(e@),
        },
{
    let ghost all = crate::tools::hashline::hash::string_views(lines@);
    let mut i: usize = 0;
    assert(all.skip(0) == all);
    while i < lines.len()
        invariant
            i <= lines.len(),
            all == crate::tools::hashline::hash::string_views(lines@),
            reject_prefixes(all.skip(i as int)) == reject_prefixes(all),
        decreases lines.len() - i,
    {
        let v = chars_of(lines[i].as_str());
        assert(all.skip(i as int)[0] == v@);
        if has_display_prefix_exec(&v) {
            let mut m: Vec<char> = Vec::new();
            extend_str(
                &mut m,
                "[E_INVALID_PATCH] \"lines\" must contain literal file content, not rendered \"LINE#HASH:\" or diff \"+/-\" prefixes. Offending line: ",
            );
            push_debug(&mut m, lines[i].as_str());
            assert(m@ =~= msg_display_prefix(debug_str(v@)));
            return Err(string_of(&m));
        }
        assert(all.skip(i as int).drop_first() == all.skip(i + 1));
        i += 1;
    }
    Ok(())
}

/// Rendered read output is never accepted as replacement content: for every
/// line number and content, the rendered line `LINE#HASH:content`, also
/// behind a diff sign `+ ` or `- ` as the compact diff shows it, has a
/// display prefix, so `reject_display_prefixes` refuses it.
pub proof fn law_rendered_lines_rejected(n: usize, line: Seq<char>)
    ensures
        has_display_prefix(crate::tools::hashline::hash::rendered(n, line)),
        reject_prefixes(seq![crate::tools::hashline::hash::rendered(n, line)]) is Err,
        has_display_prefix(seq!['+', ' '] + crate::tools::hashline::hash::rendered(n, line)),
        has_display_prefix(seq!['-', ' '] + crate::tools::hashline::hash::rendered(n, line)),
        reject_prefixes(seq![seq!['-', ' '] + crate::tools::hashline::hash::rendered(n, line)]) is Err,
{
    let dec = decimal(n as nat);
    let h = crate::tools::hashline::hash::line_hash(n, line);
    crate::text::lemma_decimal_digits(n as nat);
    crate::tools::hashline::hash::lemma_line_hash_chars(n, line);
    lemma_alpha_facts(h[0]);
    lemma_alpha_facts(h[1]);
    let r = crate::tools::hashline::hash::rendered(n, line);
    let x = seq!['#'] + h + seq![':'] + line;
    assert(r == dec + x);
    crate::text::lemma_digit_run_of(dec, x);
    assert(r.skip(dec.len() as int) == x);
    assert(leading_ws(x) == 0);
    assert(x.skip(0) == x);
    let c = x.skip(1);
    assert(c == h + seq![':'] + line);
    assert(leading_ws(c) == 0);
    assert(c.skip(0) == c);
    assert(looks_hashline(r));
    assert(!is_ws(r[0]));
    assert(trim_start(r) == r);
    assert(strip_markers(r) == r);
    lemma_signed_rendered('+', r);
    lemma_signed_rendered('-', r);
}

/// A rendered line behind a diff sign and a space: the markers step keeps
/// it, and the sign step gives the rendered line back.
proof fn lemma_signed_rendered(sign: char, r: Seq<char>)
    requires
        sign == '+' || sign == '-',
        r.len() > 0,
        !is_ws(r[0]),
        looks_hashline(r),
    ensures
        strip_sign(strip_markers(seq![sign, ' '] + r)) == r,
        has_display_prefix(seq![sign, ' '] + r),
{
    let x = seq![sign, ' '] + r;
    assert(!is_ws(x[0]));
    assert(trim_start(x) == x);
    assert(strip_markers(x) == x);
    let y = x.skip(1);
    assert(y == seq![' '] + r);
    assert(is_ws(y[0]));
    assert(y.drop_first() == r);
    assert(trim_start(r) == r);
    assert(trim_start(y) == r);
}


// ---------------------------------------------------------------------------
// The `lines` payload of an edit
// ---------------------------------------------------------------------------

/// `s.replace("\r\n", "\n").replace('\r', "\n")`.
pub open spec fn normalize_newlines(s: Seq<char>) -> Seq<char>
    decreases s.len(),
{
    if s.len() == 0 {
        s
    } else if s[0] == '\r' && s.len() > 1 && s[1] == '\n' {
        seq!['\n'] + normalize_newlines(s.skip(2))
    } else if s[0] == '\r' {
        seq!['\n'] + normalize_newlines(s.skip(1))
    } else {
        seq![s[0]] + normalize_newlines(s.skip(1))
    }
}

/// Normalizes line endings to `'\n'`.
pub fn normalize_newlines_exec(v: &Vec<char>) -> (r: Vec<char>)
    ensures
        r@ == normalize_newlines(v@),
{
    let mut r: Vec<char> = Vec::new();
    let mut i: usize = 0;
    assert(v@.skip(0) == v@);
    while i < v.len()
        invariant
            i <= v.len(),
            r@ + normalize_newlines(v@.skip(i as int)) == normalize_newlines(v@),
        decreases v.len() - i,
    {
        let ghost rest = v@.skip(i as int);
        assert(rest[0] == v@[i as int]);
        if v[i] == '\r' && i + 1 < v.len() && v[i + 1] == '\n' {
            assert(rest[1] == v@[i + 1]);
            assert(rest.skip(2) == v@.skip(i + 2));
            r.push('\n');
            assert(r@ + normalize_newlines(v@.skip(i + 2)) =~= normalize_newlines(v@));
            i += 2;
        } else if v[i] == '\r' {
            proof {
                if rest.len() > 1 {
                    assert(rest[1] == v@[i + 1]);
                }
            }
            assert(rest.skip(1) == v@.skip(i + 1));
            r.push('\n');
            assert(r@ + normalize_newlines(v@.skip(i + 1)) =~= normalize_newlines(v@));
            i += 1;
        } else {
            assert(rest.skip(1) == v@.skip(i + 1));
            r.push(v[i]);
            assert(r@ + normalize_newlines(v@.skip(i + 1)) =~= normalize_newlines(v@));
            i += 1;
        }
    }
    assert(normalize_newlines(v@.skip(i as int)) =~= Seq::<char>::empty());
    assert(r@ + Seq::<char>::empty() =~= r@);
    r
}

/// The lines of a string payload: line endings normalized, one final
/// newline dropped, then split on newlines.
pub open spec fn text_payload_lines(s: Seq<char>) -> Seq<Seq<char>> {
    let n = normalize_newlines(s);
    let m = if n.len() > 0 && n.last() == '\n' { n.drop_last() } else { n };
    crate::text::split_nl(m)
}

pub open spec fn json_str_view(j: Json) -> Seq<char> {
    match j {
        Json::Str(s) => s@,
        _ => Seq::empty(),
    }
}

pub open spec fn all_json_strings(a: Seq<Json>) -> bool {
    forall|i: int| 0 <= i < a.len() ==> (#[trigger] a[i]) is Str
}

pub open spec fn msg_array_not_strings() -> Seq<char> {
    "[E_INVALID_PATCH] lines array must contain only strings"@
}

pub open spec fn msg_lines_type() -> Seq<char> {
    "[E_INVALID_PATCH] lines must be a string, string array, or null"@
}

pub open spec fn checked_lines(l: Seq<Seq<char>>) -> Result<Seq<Seq<char>>, Seq<char>> {
    match reject_prefixes(l) {
        Ok(()) => Ok(l),
        Err(e) => Err(e),
    }
}

/// What `parse_lines_value` gives for the `lines` member of an edit.
pub open spec fn lines_value(value: Option<Json>) -> Result<Seq<Seq<char>>, Seq<char>> {
    match value {
        None => Ok(Seq::empty()),
        Some(Json::Null) => Ok(Seq::empty()),
        Some(Json::Str(s)) => checked_lines(text_payload_lines(s@)),
        Some(Json::Array(a)) => if all_json_strings(a@) {
            checked_lines(a@.map_values(|j: Json| json_str_view(j)))
        } else {
            Err(msg_array_not_strings())
        },
        _ => Err(msg_lines_type()),
    }
}

pub open spec fn lines_result(r: Result<Vec<String>, String>) -> Result<Seq<Seq<char>>, Seq<char>> {
    match r {
        Ok(v) => Ok(crate::tools::hashline::hash::string_views(v@)),
        Err(e) => Err(e@),
    }
}

fn checked_lines_exec(lines: Vec<String>) -> (r: Result<Vec<String>, String>)
    ensures
        lines_result(r) == checked_lines(crate::tools::hashline::hash::string_views(lines@)),
{
    match reject_display_prefixes(lines.as_slice()) {
        Ok(()) => Ok(lines),
        Err(e) => Err(e),
    }
}

fn literal_string(s: &str) -> (r: String)
    ensures
        r@ == s@,
{
    let v = chars_of(s);
    string_of(&v)
}

fn array_lines(a: &Vec<Json>) -> (r: Result<Vec<String>, String>)
    ensures
        lines_result(r) == lines_value(Some(Json::Array(*a))),
{
            let mut out: Vec<String> = Vec::new();
            let mut i: usize = 0;
            while i < a.len()
                invariant
                    i <= a.len(),
                    forall|j: int| 0 <= j < i ==> (#[trigger] a@[j]) is Str,
                    crate::tools::hashline::hash::string_views(out@) == a@.take(i as int).map_values(
                        |j: Json| json_str_view(j),
                    ),
                decreases a.len() - i,
            {
                match &a[i] {
                    Json::Str(s) => {
                        let x = literal_string(s.as_str());
                        let ghost before = out@;
                        out.push(x);
                        proof {
                            crate::tools::hashline::hash::lemma_string_views_push(before, x);
                        }
                        assert(crate::tools::hashline::hash::string_views(out@) =~= a@.take(i + 1).map_values(
                            |j: Json| json_str_view(j),
                        ));
                    },
                    _ => {
                        assert(!(a@[i as int] is Str));
                        assert(!all_json_strings(a@));
                        return Err(literal_string(
                            "[E_INVALID_PATCH] lines array must contain only strings",
                        ));
                    },
                }
                i += 1;
            }
            assert(a@.take(a.len() as int) == a@);
            checked_lines_exec(out)
        }

/// Reads the `lines` payload of an edit: absent or null is no lines, a
/// string is split into lines, an array must hold strings; lines that still
/// carry display prefixes are refused.
pub fn parse_lines_value(value: Option<&Json>) -> (r: Result<Vec<String>, String>)
    ensures
        lines_result(r) == lines_value(match value { Some(j) => Some(*j), None => None }),
{
    match value {
        None => {
            let v: Vec<String> = Vec::new();
            assert(crate::tools::hashline::hash::string_views(v@) =~= Seq::<Seq<char>>::empty());
            Ok(v)
        },
        Some(Json::Null) => {
            let v: Vec<String> = Vec::new();
            assert(crate::tools::hashline::hash::string_views(v@) =~= Seq::<Seq<char>>::empty());
            Ok(v)
        },
        Some(Json::Str(s)) => {
            let c = chars_of(s.as_str());
            let n = normalize_newlines_exec(&c);
            let m = if n.len() > 0 && n[n.len() - 1] == '\n' {
                slice_chars(&n, 0, n.len() - 1)
            } else {
                n
            };
            assert(m@ == (if normalize_newlines(s@).len() > 0 && normalize_newlines(s@).last() == '\n' {
                normalize_newlines(s@).drop_last()
            } else {
                normalize_newlines(s@)
            }));
            let pieces = crate::text::split_newlines(&m);
            let lines = crate::tools::hashline::hash::strings_of(&pieces);
            checked_lines_exec(lines)
        },
        Some(Json::Array(a)) => array_lines(a),
        Some(_) => Err(literal_string(
            "[E_INVALID_PATCH] lines must be a string, string array, or null",
        )),
    }
}

} // verus!
