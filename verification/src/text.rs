//! Character-level text model shared by the library: strings are viewed as
//! `Seq<char>`, lines are the pieces between `'\n'` characters.
use vstd::prelude::*;

verus! {

/// Appends one character to a string (std's `String::push`): the string's
/// characters afterwards are the old ones followed by `c`.
#[verifier::external_body]
pub(crate) fn push_char(s: &mut String, c: char)
    ensures
        final(s)@ == old(s)@.push(c),
{
    s.push(c);
}

/// The characters of a string slice, in order.
pub fn chars_of(s: &str) -> (v: Vec<char>)
    ensures
        v@ == s@,
{
    let mut v: Vec<char> = Vec::new();
    for c in it: s.chars()
        invariant
            v@ == it.seq().take(it.index()),
            it.seq() == s@,
    {
        v.push(c);
    }
    v
}

/// Builds a string from a sequence of characters.
pub fn string_of(v: &Vec<char>) -> (s: String)
    ensures
        s@ == v@,
{
    let mut s = String::new();
    let mut i: usize = 0;
    while i < v.len()
        invariant
            i <= v.len(),
            s@ == v@.take(i as int),
        decreases v.len() - i,
    {
        push_char(&mut s, v[i]);
        assert(v@.take(i + 1) == v@.take(i as int).push(v@[i as int]));
        i += 1;
    }
    assert(v@.take(v.len() as int) == v@);
    s
}

/// Appends the characters of `s` to `out`.
pub fn extend_chars(out: &mut Vec<char>, v: &Vec<char>)
    ensures
        final(out)@ == old(out)@ + v@,
{
    let ghost s = v@;
    let mut i: usize = 0;
    while i < v.len()
        invariant
            i <= v.len(),
            v@ == s,
            out@ == old(out)@ + s.take(i as int),
        decreases v.len() - i,
    {
        out.push(v[i]);
        assert(s.take(i + 1) == s.take(i as int).push(s[i as int]));
        i += 1;
    }
    assert(s.take(v.len() as int) == s);
}

/// Appends the characters of a string slice to `out`.
pub fn extend_str(out: &mut Vec<char>, s: &str)
    ensures
        final(out)@ == old(out)@ + s@,
{
    let v = chars_of(s);
    extend_chars(out, &v);
}

/// Unicode `White_Space`, the property that `char::is_whitespace` tests.
pub open spec fn is_ws(c: char) -> bool {
    let u = c as u32;
    ||| u == 0x20
    ||| (0x09 <= u && u <= 0x0d)
    ||| u == 0x85
    ||| u == 0xa0
    ||| u == 0x1680
    ||| (0x2000 <= u && u <= 0x200a)
    ||| u == 0x2028
    ||| u == 0x2029
    ||| u == 0x202f
    ||| u == 0x205f
    ||| u == 0x3000
}

/// Whether `c` is a whitespace character.
pub fn is_whitespace(c: char) -> (b: bool)
    ensures
        b == is_ws(c),
{
    let u = c as u32;
    u == 0x20 || (0x09 <= u && u <= 0x0d) || u == 0x85 || u == 0xa0 || u == 0x1680 || (0x2000
        <= u && u <= 0x200a) || u == 0x2028 || u == 0x2029 || u == 0x202f || u == 0x205f || u
        == 0x3000
}

/// ASCII decimal digit.
pub open spec fn is_digit(c: char) -> bool {
    '0' <= c && c <= '9'
}

/// `s` without its trailing whitespace.
pub open spec fn trim_end(s: Seq<char>) -> Seq<char>
    decreases s.len(),
{
    if s.len() > 0 && is_ws(s.last()) {
        trim_end(s.drop_last())
    } else {
        s
    }
}

/// `s` without its leading whitespace.
pub open spec fn trim_start(s: Seq<char>) -> Seq<char>
    decreases s.len(),
{
    if s.len() > 0 && is_ws(s[0]) {
        trim_start(s.drop_first())
    } else {
        s
    }
}

/// `s` without leading and trailing whitespace.
pub open spec fn trim(s: Seq<char>) -> Seq<char> {
    trim_end(trim_start(s))
}

/// Number of leading whitespace characters of `s`.
pub open spec fn leading_ws(s: Seq<char>) -> nat
    decreases s.len(),
{
    if s.len() > 0 && is_ws(s[0]) {
        1 + leading_ws(s.drop_first())
    } else {
        0
    }
}

/// Number of characters kept by `trim_end`.
pub open spec fn trimmed_len(s: Seq<char>) -> nat
    decreases s.len(),
{
    if s.len() > 0 && is_ws(s.last()) {
        trimmed_len(s.drop_last())
    } else {
        s.len()
    }
}

pub proof fn lemma_trim_end_take(s: Seq<char>)
    ensures
        trimmed_len(s) <= s.len(),
        trim_end(s) == s.take(trimmed_len(s) as int),
        forall|i: int| trimmed_len(s) <= i < s.len() ==> is_ws(#[trigger] s[i]),
        trimmed_len(s) > 0 ==> !is_ws(s[trimmed_len(s) - 1]),
    decreases s.len(),
{
    if s.len() > 0 && is_ws(s.last()) {
        lemma_trim_end_take(s.drop_last());
        assert(s.drop_last().take(trimmed_len(s) as int) == s.take(trimmed_len(s) as int));
        assert forall|i: int| trimmed_len(s) <= i < s.len() implies is_ws(#[trigger] s[i]) by {
            if i < s.len() - 1 {
                assert(s[i] == s.drop_last()[i]);
            }
        }
        if trimmed_len(s) > 0 {
            assert(s[trimmed_len(s) - 1] == s.drop_last()[trimmed_len(s) - 1]);
        }
    } else {
        assert(s.take(s.len() as int) == s);
    }
}

pub proof fn lemma_trim_start_skip(s: Seq<char>)
    ensures
        leading_ws(s) <= s.len(),
        trim_start(s) == s.skip(leading_ws(s) as int),
        forall|i: int| 0 <= i < leading_ws(s) ==> is_ws(#[trigger] s[i]),
        leading_ws(s) < s.len() ==> !is_ws(s[leading_ws(s) as int]),
    decreases s.len(),
{
    if s.len() > 0 && is_ws(s[0]) {
        lemma_trim_start_skip(s.drop_first());
        assert(s.drop_first().skip(leading_ws(s.drop_first()) as int) == s.skip(leading_ws(s) as int));
        assert forall|i: int| 0 <= i < leading_ws(s) implies is_ws(#[trigger] s[i]) by {
            if i > 0 {
                assert(s[i] == s.drop_first()[i - 1]);
            }
        }
    } else {
        assert(s.skip(0) == s);
    }
}

/// Trailing whitespace does not survive `trim_end`.
pub proof fn lemma_trim_end_append_ws(s: Seq<char>, w: Seq<char>)
    requires
        forall|i: int| 0 <= i < w.len() ==> is_ws(#[trigger] w[i]),
    ensures
        trim_end(s + w) == trim_end(s),
    decreases w.len(),
{
    if w.len() == 0 {
        assert(s + w == s);
    } else {
        assert((s + w).drop_last() == s + w.drop_last());
        assert(is_ws(w[w.len() - 1]));
        lemma_trim_end_append_ws(s, w.drop_last());
    }
}

/// Index of the trimmed end of `v` (exclusive).
pub fn trim_end_len(v: &Vec<char>) -> (n: usize)
    ensures
        n == trimmed_len(v@),
        n <= v.len(),
{
    proof {
        lemma_trim_end_take(v@);
    }
    let mut n = v.len();
    assert(v@.take(n as int) == v@);
    while n > 0 && is_whitespace(v[n - 1])
        invariant
            n <= v.len(),
            trimmed_len(v@.take(n as int)) == trimmed_len(v@),
        decreases n,
    {
        assert(v@.take(n as int).drop_last() == v@.take(n - 1));
        n -= 1;
    }
    proof {
        if n > 0 {
            assert(v@.take(n as int).last() == v@[n - 1]);
        }
    }
    n
}

/// Index of the first non-whitespace character of `v`.
pub fn trim_start_len(v: &Vec<char>) -> (n: usize)
    ensures
        n == leading_ws(v@),
        n <= v.len(),
{
    proof {
        lemma_trim_start_skip(v@);
    }
    let mut n: usize = 0;
    assert(v@.skip(0) == v@);
    while n < v.len() && is_whitespace(v[n])
        invariant
            n <= v.len(),
            n + leading_ws(v@.skip(n as int)) == leading_ws(v@),
        decreases v.len() - n,
    {
        assert(v@.skip(n as int).drop_first() == v@.skip(n + 1));
        n += 1;
    }
    n
}

/// Copies `v[from..to]`.
pub fn slice_chars(v: &Vec<char>, from: usize, to: usize) -> (r: Vec<char>)
    requires
        from <= to <= v.len(),
    ensures
        r@ == v@.subrange(from as int, to as int),
{
    let mut r: Vec<char> = Vec::new();
    let mut i = from;
    while i < to
        invariant
            from <= i <= to <= v.len(),
            r@ == v@.subrange(from as int, i as int),
        decreases to - i,
    {
        r.push(v[i]);
        assert(v@.subrange(from as int, i + 1) == v@.subrange(from as int, i as int).push(v@[i as int]));
        i += 1;
    }
    r
}

/// Whether two character vectors hold the same characters.
pub fn chars_eq(a: &Vec<char>, b: &Vec<char>) -> (r: bool)
    ensures
        r == (a@ == b@),
{
    if a.len() != b.len() {
        return false;
    }
    let mut i: usize = 0;
    while i < a.len()
        invariant
            a.len() == b.len(),
            i <= a.len(),
            forall|j: int| 0 <= j < i ==> a@[j] == b@[j],
        decreases a.len() - i,
    {
        if a[i] != b[i] {
            return false;
        }
        i += 1;
    }
    assert(a@ =~= b@);
    true
}

// ---------------------------------------------------------------------------
// Decimal and hexadecimal numerals
// ---------------------------------------------------------------------------

pub open spec fn digit_char(d: nat) -> char {
    (('0' as u32) + d) as char
}

/// The decimal numeral of `n`, as `usize::to_string` writes it.
pub open spec fn decimal(n: nat) -> Seq<char>
    decreases n,
{
    if n < 10 {
        seq![digit_char(n)]
    } else {
        decimal(n / 10).push(digit_char(n % 10))
    }
}

pub proof fn lemma_decimal_digits(n: nat)
    ensures
        decimal(n).len() >= 1,
        forall|i: int| 0 <= i < decimal(n).len() ==> is_digit(#[trigger] decimal(n)[i]),
        n >= 10 ==> decimal(n)[0] != '0',
    decreases n,
{
    if n >= 10 {
        lemma_decimal_digits(n / 10);
    }
}

/// Appends the decimal numeral of `n`.
pub fn push_decimal(out: &mut Vec<char>, n: usize)
    ensures
        final(out)@ == old(out)@ + decimal(n as nat),
    decreases n,
{
    if n >= 10 {
        push_decimal(out, n / 10);
    }
    let d = (n % 10) as u32;
    let c = char_from_digit(d);
    out.push(c);
    proof {
        if n < 10 {
            assert(decimal(n as nat) == seq![digit_char(n as nat)]);
        }
    }
}

/// Appends the decimal digits of a 64-bit number.
pub fn push_decimal_u64(out: &mut Vec<char>, n: u64)
    ensures
        final(out)@ == old(out)@ + decimal(n as nat),
    decreases n,
{
    if n >= 10 {
        push_decimal_u64(out, n / 10);
    }
    let d = (n % 10) as u32;
    let c = char_from_digit(d);
    out.push(c);
    proof {
        if n < 10 {
            assert(decimal(n as nat) == seq![digit_char(n as nat)]);
        }
    }
}

fn char_from_digit(d: u32) -> (c: char)
    requires
        d < 10,
    ensures
        c == digit_char(d as nat),
{
    if d == 0 { '0' }
    else if d == 1 { '1' }
    else if d == 2 { '2' }
    else if d == 3 { '3' }
    else if d == 4 { '4' }
    else if d == 5 { '5' }
    else if d == 6 { '6' }
    else if d == 7 { '7' }
    else if d == 8 { '8' }
    else { '9' }
}

pub proof fn lemma_digit_char_value(d: nat)
    requires
        d < 10,
    ensures
        (digit_char(d) as u32) == ('0' as u32) + d,
        is_digit(digit_char(d)),
{
    assert(('0' as u32) == 48);
}

/// Value of a non-empty run of decimal digits.
pub open spec fn digits_value(s: Seq<char>) -> nat
    decreases s.len(),
{
    if s.len() == 0 {
        0
    } else {
        digits_value(s.drop_last()) * 10 + ((s.last() as u32) - ('0' as u32)) as nat
    }
}

/// `usize::from_str`: an optional `+`, then one or more ASCII digits, whose
/// value fits in a `usize`.
pub open spec fn unsigned_digits(s: Seq<char>) -> Seq<char> {
    if s.len() > 0 && s[0] == '+' {
        s.drop_first()
    } else {
        s
    }
}

pub open spec fn parse_usize(s: Seq<char>) -> Option<usize> {
    let d = unsigned_digits(s);
    if d.len() > 0 && (forall|i: int| 0 <= i < d.len() ==> is_digit(#[trigger] d[i]))
        && digits_value(d) <= usize::MAX {
        Some(digits_value(d) as usize)
    } else {
        None
    }
}

pub proof fn lemma_digits_value_decimal(n: nat)
    ensures
        digits_value(decimal(n)) == n,
    decreases n,
{
    lemma_digit_char_value((n % 10) as nat);
    assert(n == (n / 10) * 10 + n % 10);
    if n >= 10 {
        lemma_decimal_digits(n / 10);
        lemma_digits_value_decimal(n / 10);
        assert(decimal(n).drop_last() == decimal(n / 10));
        assert(decimal(n).last() == digit_char(n % 10));
    } else {
        assert(decimal(n).drop_last() =~= Seq::<char>::empty());
        assert(decimal(n).last() == digit_char(n));
        assert(digits_value(Seq::<char>::empty()) == 0);
    }
}

/// `parse_usize` reads back a decimal numeral.
pub proof fn lemma_parse_decimal(n: usize)
    ensures
        parse_usize(decimal(n as nat)) == Some(n),
{
    lemma_decimal_digits(n as nat);
    lemma_digits_value_decimal(n as nat);
}

/// Parses a string the way `str::parse::<usize>` does.
pub fn parse_usize_exec(v: &Vec<char>) -> (r: Option<usize>)
    ensures
        r == parse_usize(v@),
{
    let start: usize = if v.len() > 0 && v[0] == '+' { 1 } else { 0 };
    let ghost d = unsigned_digits(v@);
    assert(d == v@.skip(start as int));
    if start >= v.len() {
        return None;
    }
    let mut acc: usize = 0;
    let mut i = start;
    while i < v.len()
        invariant
            start <= i <= v.len(),
            start < v.len(),
            d == v@.skip(start as int),
            d == unsigned_digits(v@),
            forall|j: int| start <= j < i ==> is_digit(#[trigger] v@[j]),
            acc == digits_value(v@.subrange(start as int, i as int)),
        decreases v.len() - i,
    {
        let c = v[i];
        if !('0' <= c && c <= '9') {
            assert(d[i - start] == v@[i as int]);
            assert(!is_digit(d[i - start]));
            assert(!(forall|j: int| 0 <= j < d.len() ==> is_digit(#[trigger] d[j])));
            return None;
        }
        let dv = (c as u32) - ('0' as u32);
        assert(v@.subrange(start as int, i + 1).drop_last() == v@.subrange(start as int, i as int));
        assert(v@.subrange(start as int, i + 1).last() == c);
        assert(digits_value(v@.subrange(start as int, i + 1)) == acc * 10 + dv);
        if acc > (usize::MAX - dv as usize) / 10 {
            proof {
                let m = usize::MAX as int;
                let a = acc as int;
                let e = dv as int;
                assert(a * 10 + e > m) by (nonlinear_arith)
                    requires a > (m - e) / 10, 0 <= e < 10, m > 10;
                if forall|j: int| 0 <= j < d.len() ==> is_digit(#[trigger] d[j]) {
                    lemma_digits_prefix_monotone(d, (i - start + 1) as nat);
                    assert(d.take(i - start + 1) =~= v@.subrange(start as int, i + 1));
                    assert(digits_value(d) > usize::MAX);
                    assert(parse_usize(v@) is None);
                } else {
                    assert(parse_usize(v@) is None);
                }
            }
            return None;
        }
        proof {
            let m = usize::MAX as int;
            let a = acc as int;
            let e = dv as int;
            assert(a * 10 + e <= m) by (nonlinear_arith)
                requires a <= (m - e) / 10, 0 <= e < 10, m > 10;
        }
        acc = acc * 10 + dv as usize;
        i += 1;
    }
    assert(v@.subrange(start as int, v.len() as int) =~= d);
    assert forall|j: int| 0 <= j < d.len() implies is_digit(#[trigger] d[j]) by {
        assert(d[j] == v@[j + start]);
    }
    Some(acc)
}

/// The value of a digit string is at least that of any of its prefixes.
pub proof fn lemma_digits_prefix_monotone(d: Seq<char>, k: nat)
    requires
        k <= d.len(),
        forall|i: int| 0 <= i < d.len() ==> is_digit(#[trigger] d[i]),
    ensures
        digits_value(d.take(k as int)) <= digits_value(d),
    decreases d.len(),
{
    if k < d.len() {
        assert(d.drop_last().take(k as int) == d.take(k as int));
        lemma_digits_prefix_monotone(d.drop_last(), k);
    } else {
        assert(d.take(k as int) == d);
    }
}

pub open spec fn hex_digit(d: nat) -> char {
    if d < 10 {
        digit_char(d)
    } else {
        (('a' as u32) + (d - 10)) as char
    }
}

/// `format!("{:08x}", x)`: eight lower-case hexadecimal digits.
pub open spec fn hex8(x: u32) -> Seq<char> {
    Seq::new(8, |i: int| hex_digit(((x >> ((28 - 4 * i) as u32)) & 0xf) as nat))
}

fn hex_char(d: u32) -> (c: char)
    requires
        d < 16,
    ensures
        c == hex_digit(d as nat),
{
    if d < 10 {
        char_from_digit(d)
    } else if d == 10 { 'a' }
    else if d == 11 { 'b' }
    else if d == 12 { 'c' }
    else if d == 13 { 'd' }
    else if d == 14 { 'e' }
    else { 'f' }
}

/// Appends the eight-digit lower-case hexadecimal numeral of `x`.
pub fn push_hex8(out: &mut Vec<char>, x: u32)
    ensures
        final(out)@ == old(out)@ + hex8(x),
{
    let ghost start = out@;
    let mut i: u32 = 0;
    while i < 8
        invariant
            i <= 8,
            out@ == start + hex8(x).take(i as int),
        decreases 8 - i,
    {
        let sh: u32 = 28 - 4 * i;
        let d = (x >> sh) & 0xf;
        assert(((x >> sh) & 0xf) < 16) by (bit_vector);
        assert(sh == (28 - 4 * (i as int)) as u32);
        out.push(hex_char(d));
        assert(hex8(x).take(i + 1) == hex8(x).take(i as int).push(hex8(x)[i as int]));
        i += 1;
    }
    assert(hex8(x).take(8) == hex8(x));
}

// ---------------------------------------------------------------------------
// Lines
// ---------------------------------------------------------------------------

/// `str::split('\n')`: the pieces between newlines (always at least one).
pub open spec fn split_nl(s: Seq<char>) -> Seq<Seq<char>>
    decreases s.len(),
{
    if s.len() == 0 {
        seq![Seq::<char>::empty()]
    } else if s.last() == '\n' {
        split_nl(s.drop_last()).push(Seq::<char>::empty())
    } else {
        let p = split_nl(s.drop_last());
        p.update(p.len() - 1, p.last().push(s.last()))
    }
}

/// Joins pieces with a separator (`[..].join(sep)`).
pub open spec fn join(parts: Seq<Seq<char>>, sep: Seq<char>) -> Seq<char>
    decreases parts.len(),
{
    if parts.len() == 0 {
        Seq::<char>::empty()
    } else if parts.len() == 1 {
        parts[0]
    } else {
        join(parts.drop_last(), sep) + sep + parts.last()
    }
}

pub proof fn lemma_split_nl_facts(s: Seq<char>)
    ensures
        split_nl(s).len() >= 1,
        forall|i: int| 0 <= i < split_nl(s).len() ==> !(#[trigger] split_nl(s)[i]).contains('\n'),
        join(split_nl(s), seq!['\n']) == s,
    decreases s.len(),
{
    if s.len() == 0 {
        assert(join(split_nl(s), seq!['\n']) == split_nl(s)[0]);
        assert(split_nl(s)[0] =~= s);
    } else {
        let p = split_nl(s.drop_last());
        lemma_split_nl_facts(s.drop_last());
        if s.last() == '\n' {
            let q = p.push(Seq::<char>::empty());
            assert(q.drop_last() == p);
            assert(join(q, seq!['\n']) == join(p, seq!['\n']) + seq!['\n'] + Seq::<char>::empty());
            assert(s =~= s.drop_last() + seq!['\n'] + Seq::<char>::empty());
            assert forall|i: int| 0 <= i < q.len() implies !(#[trigger] q[i]).contains('\n') by {
                if i < p.len() {
                    assert(q[i] == p[i]);
                }
            }
        } else {
            let q = p.update(p.len() - 1, p.last().push(s.last()));
            assert forall|i: int| 0 <= i < q.len() implies !(#[trigger] q[i]).contains('\n') by {
                if i < p.len() - 1 {
                    assert(q[i] == p[i]);
                } else {
                    assert(q[i] == p.last().push(s.last()));
                    if q[i].contains('\n') {
                        let k = choose|k: int| 0 <= k < q[i].len() && q[i][k] == '\n';
                        if k < p.last().len() {
                            assert(p.last()[k] == '\n');
                            assert(p[p.len() - 1].contains('\n'));
                        }
                    }
                }
            }
            if p.len() == 1 {
                assert(join(q, seq!['\n']) == q[0]);
                assert(join(p, seq!['\n']) == p[0]);
                assert(s =~= s.drop_last().push(s.last()));
            } else {
                assert(q.drop_last() == p.drop_last());
                assert(join(q, seq!['\n']) == join(p.drop_last(), seq!['\n']) + seq!['\n'] + q.last());
                assert(join(p, seq!['\n']) == join(p.drop_last(), seq!['\n']) + seq!['\n'] + p.last());
                assert(s =~= s.drop_last().push(s.last()));
                assert(join(q, seq!['\n']) =~= join(p, seq!['\n']).push(s.last()));
            }
        }
    }
}

/// The lines that a reader sees: `text.split('\n')` without the empty piece
/// after a final newline, and no lines at all for empty text.
pub open spec fn visible(s: Seq<char>) -> Seq<Seq<char>> {
    if s.len() == 0 {
        Seq::empty()
    } else if s.last() == '\n' {
        split_nl(s).drop_last()
    } else {
        split_nl(s)
    }
}

pub open spec fn views(v: Seq<Vec<char>>) -> Seq<Seq<char>> {
    v.map_values(|x: Vec<char>| x@)
}

pub proof fn lemma_views_push(s: Seq<Vec<char>>, x: Vec<char>)
    ensures
        views(s.push(x)) == views(s).push(x@),
{
    assert(views(s.push(x)) =~= views(s).push(x@));
}

/// Splits text on `'\n'` into pieces (`str::split('\n')`).
pub fn split_newlines(s: &Vec<char>) -> (r: Vec<Vec<char>>)
    ensures
        views(r@) == split_nl(s@),
{
    let mut r: Vec<Vec<char>> = Vec::new();
    let mut cur: Vec<char> = Vec::new();
    let mut i: usize = 0;
    while i < s.len()
        invariant
            i <= s.len(),
            views(r@).push(cur@) == split_nl(s@.take(i as int)),
        decreases s.len() - i,
    {
        let c = s[i];
        let ghost before = views(r@).push(cur@);
        assert(s@.take(i + 1).drop_last() == s@.take(i as int));
        if c == '\n' {
            let done = cur;
            r.push(done);
            cur = Vec::new();
            assert(views(r@) == before);
            assert(views(r@).push(cur@) =~= split_nl(s@.take(i + 1)));
        } else {
            cur.push(c);
            assert(views(r@).push(cur@) =~= split_nl(s@.take(i + 1)));
        }
        i += 1;
    }
    assert(s@.take(s.len() as int) == s@);
    r.push(cur);
    r
}

/// The visible lines of a text as character vectors.
pub fn visible_chars(s: &Vec<char>) -> (r: Vec<Vec<char>>)
    ensures
        views(r@) == visible(s@),
{
    if s.len() == 0 {
        let r: Vec<Vec<char>> = Vec::new();
        assert(views(r@) =~= visible(s@));
        return r;
    }
    let mut r = split_newlines(s);
    if s[s.len() - 1] == '\n' {
        proof {
            lemma_split_nl_facts(s@);
        }
        let ghost before = r@;
        r.pop();
        assert(views(r@) =~= views(before).drop_last());
    }
    r
}

/// Joins character vectors with a separator.
pub fn join_chars(parts: &Vec<Vec<char>>, sep: &Vec<char>) -> (r: Vec<char>)
    ensures
        r@ == join(views(parts@), sep@),
{
    let mut r: Vec<char> = Vec::new();
    let mut i: usize = 0;
    while i < parts.len()
        invariant
            i <= parts.len(),
            r@ == join(views(parts@).take(i as int), sep@),
        decreases parts.len() - i,
    {
        let ghost ps = views(parts@);
        assert(ps.take(i + 1).drop_last() == ps.take(i as int));
        if i > 0 {
            extend_chars(&mut r, sep);
        } else {
            assert(r@ =~= Seq::<char>::empty());
        }
        extend_chars(&mut r, &parts[i]);
        assert(ps.take(i + 1).last() == parts@[i as int]@);
        proof {
            if i == 0 {
                assert(r@ =~= parts@[0]@);
            }
        }
        i += 1;
    }
    assert(views(parts@).take(parts.len() as int) == views(parts@));
    r
}


// ---------------------------------------------------------------------------
// Scanning helpers
// ---------------------------------------------------------------------------

/// Number of leading ASCII digits.
pub open spec fn digit_run(s: Seq<char>) -> nat
    decreases s.len(),
{
    if s.len() > 0 && is_digit(s[0]) {
        1 + digit_run(s.drop_first())
    } else {
        0
    }
}

pub proof fn lemma_digit_run(s: Seq<char>)
    ensures
        digit_run(s) <= s.len(),
        forall|i: int| 0 <= i < digit_run(s) ==> is_digit(#[trigger] s[i]),
        digit_run(s) < s.len() ==> !is_digit(s[digit_run(s) as int]),
    decreases s.len(),
{
    if s.len() > 0 && is_digit(s[0]) {
        lemma_digit_run(s.drop_first());
        assert forall|i: int| 0 <= i < digit_run(s) implies is_digit(#[trigger] s[i]) by {
            if i > 0 {
                assert(s[i] == s.drop_first()[i - 1]);
            }
        }
        if digit_run(s) < s.len() {
            assert(s[digit_run(s) as int] == s.drop_first()[digit_run(s.drop_first()) as int]);
        }
    }
}

/// A run of digits followed by a non-digit is counted exactly.
pub proof fn lemma_digit_run_of(d: Seq<char>, x: Seq<char>)
    requires
        forall|i: int| 0 <= i < d.len() ==> is_digit(#[trigger] d[i]),
        x.len() > 0 ==> !is_digit(x[0]),
    ensures
        digit_run(d + x) == d.len(),
    decreases d.len(),
{
    if d.len() == 0 {
        assert(d + x == x);
    } else {
        assert((d + x).drop_first() == d.drop_first() + x);
        assert((d + x)[0] == d[0]);
        assert forall|i: int| 0 <= i < d.drop_first().len() implies is_digit(#[trigger] d.drop_first()[i]) by {
            assert(d.drop_first()[i] == d[i + 1]);
        }
        lemma_digit_run_of(d.drop_first(), x);
    }
}

/// Counts the ASCII digits starting at `from`.
pub fn digit_run_at(v: &Vec<char>, from: usize) -> (n: usize)
    requires
        from <= v.len(),
    ensures
        n == digit_run(v@.skip(from as int)),
        from + n <= v.len(),
{
    let mut k = from;
    proof {
        lemma_digit_run(v@.skip(from as int));
    }
    while k < v.len() && ('0' <= v[k] && v[k] <= '9')
        invariant
            from <= k <= v.len(),
            (k - from) + digit_run(v@.skip(k as int)) == digit_run(v@.skip(from as int)),
        decreases v.len() - k,
    {
        assert(v@.skip(k as int).drop_first() == v@.skip(k + 1));
        assert(v@.skip(k as int)[0] == v@[k as int]);
        k += 1;
    }
    proof {
        if k < v.len() {
            assert(v@.skip(k as int)[0] == v@[k as int]);
        }
    }
    k - from
}

/// Counts the whitespace characters starting at `from`.
pub fn ws_run_at(v: &Vec<char>, from: usize) -> (n: usize)
    requires
        from <= v.len(),
    ensures
        n == leading_ws(v@.skip(from as int)),
        from + n <= v.len(),
{
    let mut k = from;
    proof {
        lemma_trim_start_skip(v@.skip(from as int));
    }
    while k < v.len() && is_whitespace(v[k])
        invariant
            from <= k <= v.len(),
            (k - from) + leading_ws(v@.skip(k as int)) == leading_ws(v@.skip(from as int)),
        decreases v.len() - k,
    {
        assert(v@.skip(k as int).drop_first() == v@.skip(k + 1));
        assert(v@.skip(k as int)[0] == v@[k as int]);
        k += 1;
    }
    proof {
        if k < v.len() {
            assert(v@.skip(k as int)[0] == v@[k as int]);
        }
    }
    k - from
}

/// Position of the first `c` in `s`.
pub open spec fn find_char(s: Seq<char>, c: char) -> Option<nat>
    decreases s.len(),
{
    if s.len() == 0 {
        None
    } else if s[0] == c {
        Some(0)
    } else {
        match find_char(s.drop_first(), c) {
            Some(k) => Some(k + 1),
            None => None,
        }
    }
}

pub proof fn lemma_find_char(s: Seq<char>, c: char)
    ensures
        match find_char(s, c) {
            Some(k) => k < s.len() && s[k as int] == c && forall|j: int| 0 <= j < k ==> s[j] != c,
            None => forall|j: int| 0 <= j < s.len() ==> s[j] != c,
        },
    decreases s.len(),
{
    if s.len() > 0 && s[0] != c {
        lemma_find_char(s.drop_first(), c);
        match find_char(s.drop_first(), c) {
            Some(k) => {
                assert(s[(k + 1) as int] == s.drop_first()[k as int]);
                assert forall|j: int| 0 <= j < k + 1 implies s[j] != c by {
                    if j > 0 {
                        assert(s[j] == s.drop_first()[j - 1]);
                    }
                }
            },
            None => {
                assert forall|j: int| 0 <= j < s.len() implies s[j] != c by {
                    if j > 0 {
                        assert(s[j] == s.drop_first()[j - 1]);
                    }
                }
            },
        }
    }
}

/// `find_char` from the characters of its first position.
pub proof fn lemma_find_char_at(s: Seq<char>, c: char, k: nat)
    requires
        k < s.len(),
        s[k as int] == c,
        forall|j: int| 0 <= j < k ==> s[j] != c,
    ensures
        find_char(s, c) == Some(k),
    decreases k,
{
    if k > 0 {
        assert forall|j: int| 0 <= j < k - 1 implies s.drop_first()[j] != c by {
            assert(s.drop_first()[j] == s[j + 1]);
        }
        lemma_find_char_at(s.drop_first(), c, (k - 1) as nat);
    }
}

/// Finds the first `c` at or after `from`.
pub fn find_char_from(v: &Vec<char>, from: usize, c: char) -> (r: Option<usize>)
    requires
        from <= v.len(),
    ensures
        match r {
            Some(k) => from <= k < v.len() && find_char(v@.skip(from as int), c) == Some(
                (k - from) as nat,
            ),
            None => find_char(v@.skip(from as int), c) is None,
        },
{
    let mut k = from;
    while k < v.len()
        invariant
            from <= k <= v.len(),
            forall|j: int| from <= j < k ==> v@[j] != c,
        decreases v.len() - k,
    {
        if v[k] == c {
            proof {
                lemma_find_char_at(v@.skip(from as int), c, (k - from) as nat);
            }
            return Some(k);
        }
        k += 1;
    }
    proof {
        lemma_find_char(v@.skip(from as int), c);
        if find_char(v@.skip(from as int), c) is Some {
            let q = find_char(v@.skip(from as int), c)->0;
            assert(v@.skip(from as int)[q as int] == v@[from + q]);
        }
    }
    None
}

/// Debug rendering of a string (`format!("{:?}", s)`): quoted and escaped.
pub uninterp spec fn debug_str(s: Seq<char>) -> Seq<char>;

/// Calls std's `Debug` formatting of a `str`; the result is named `debug_str`.
#[verifier::external_body]
pub(crate) fn debug_quote(s: &str) -> (r: String)
    ensures
        r@ == debug_str(s@),
{
    format!("{:?}", s)
}

/// Appends the debug rendering of a string.
pub fn push_debug(out: &mut Vec<char>, s: &str)
    ensures
        final(out)@ == old(out)@ + debug_str(s@),
{
    let q = debug_quote(s);
    extend_str(out, q.as_str());
}


/// Every character takes one to four bytes in UTF-8.
pub proof fn lemma_utf8_len_bounds(s: Seq<char>)
    ensures
        s.len() <= vstd::utf8::encode_utf8(s).len() <= 4 * s.len(),
    decreases s.len(),
{
    if s.len() > 0 {
        lemma_utf8_len_bounds(s.drop_first());
    }
}


pub proof fn lemma_split_nl_len(s: Seq<char>)
    ensures
        split_nl(s).len() <= s.len() + 1,
        s.len() > 0 && s.last() != '\n' ==> split_nl(s).len() <= s.len(),
    decreases s.len(),
{
    if s.len() > 0 {
        lemma_split_nl_len(s.drop_last());
        if s.last() == '\n' {
            assert(split_nl(s).len() == split_nl(s.drop_last()).len() + 1);
        } else {
            lemma_split_nl_facts(s.drop_last());
            assert(split_nl(s).len() == split_nl(s.drop_last()).len());
        }
    }
}

/// A text has no more visible lines than characters.
pub proof fn lemma_visible_len(s: Seq<char>)
    ensures
        visible(s).len() <= s.len(),
{
    lemma_split_nl_len(s);
}

} // verus!
