//! The span of lines that an edit changed, and a short diff of it.
use vstd::prelude::*;
use crate::text::{chars_eq, chars_of, extend_chars, join, join_chars, string_of, views, visible, visible_chars};
use crate::tools::hashline::hash::{rendered, render_hashline_chars};

verus! {

/// Length of the longest common prefix of `a` and `b`, counting from `i`.
pub open spec fn common_prefix_from(a: Seq<Seq<char>>, b: Seq<Seq<char>>, i: nat) -> nat
    decreases a.len() - i,
{
    if i < a.len() && i < b.len() && a[i as int] == b[i as int] {
        common_prefix_from(a, b, i + 1)
    } else {
        i
    }
}

/// Length of the longest common prefix of two line sequences.
pub open spec fn common_prefix(a: Seq<Seq<char>>, b: Seq<Seq<char>>) -> nat {
    common_prefix_from(a, b, 0)
}

/// The ends of `a` and `b` once their common suffix is removed, never
/// going below `first`.
pub open spec fn suffix_ends(a: Seq<Seq<char>>, b: Seq<Seq<char>>, first: nat, ol: nat, nl: nat) -> (
    nat,
    nat,
)
    decreases ol,
{
    if ol > first && nl > first && ol <= a.len() && nl <= b.len() && a[ol - 1] == b[nl - 1] {
        suffix_ends(a, b, first, (ol - 1) as nat, (nl - 1) as nat)
    } else {
        (ol, nl)
    }
}

pub open spec fn max_nat(a: nat, b: nat) -> nat {
    if a >= b {
        a
    } else {
        b
    }
}

/// The changed span in the new text: from the first line that differs to
/// the last line before the common tail (1-based, inclusive), or `None`
/// when the texts are equal.
pub open spec fn changed_range(old: Seq<char>, new: Seq<char>) -> Option<(nat, nat)> {
    if old == new {
        None
    } else {
        let o = visible(old);
        let n = visible(new);
        let first = common_prefix(o, n);
        let ends = suffix_ends(o, n, first, o.len(), n.len());
        Some((first + 1, max_nat(ends.1, first + 1)))
    }
}

pub proof fn lemma_common_prefix_from(a: Seq<Seq<char>>, b: Seq<Seq<char>>, i: nat)
    requires
        i <= a.len(),
        i <= b.len(),
    ensures
        i <= common_prefix_from(a, b, i) <= a.len(),
        common_prefix_from(a, b, i) <= b.len(),
        forall|j: int| i <= j < common_prefix_from(a, b, i) ==> a[j] == b[j],
        common_prefix_from(a, b, i) < a.len() && common_prefix_from(a, b, i) < b.len() ==> a[common_prefix_from(a, b, i) as int] != b[common_prefix_from(a, b, i) as int],
    decreases a.len() - i,
{
    if i < a.len() && i < b.len() && a[i as int] == b[i as int] {
        lemma_common_prefix_from(a, b, i + 1);
    }
}

pub proof fn lemma_suffix_ends(a: Seq<Seq<char>>, b: Seq<Seq<char>>, first: nat, ol: nat, nl: nat)
    requires
        first <= ol <= a.len(),
        first <= nl <= b.len(),
    ensures
        first <= suffix_ends(a, b, first, ol, nl).0 <= ol,
        first <= suffix_ends(a, b, first, ol, nl).1 <= nl,
        ol - suffix_ends(a, b, first, ol, nl).0 == nl - suffix_ends(a, b, first, ol, nl).1,
    decreases ol,
{
    if ol > first && nl > first && a[ol - 1] == b[nl - 1] {
        lemma_suffix_ends(a, b, first, (ol - 1) as nat, (nl - 1) as nat);
    }
}

fn common_prefix_exec(a: &Vec<Vec<char>>, b: &Vec<Vec<char>>) -> (n: usize)
    ensures
        n == common_prefix(views(a@), views(b@)),
        n <= a.len(),
        n <= b.len(),
{
    let ghost av = views(a@);
    let ghost bv = views(b@);
    let min = if a.len() < b.len() { a.len() } else { b.len() };
    let mut first: usize = 0;
    while first < min && chars_eq(&a[first], &b[first])
        invariant
            first <= min,
            min <= a.len(),
            min <= b.len(),
            min == a.len() || min == b.len(),
            av == views(a@),
            bv == views(b@),
            common_prefix_from(av, bv, first as nat) == common_prefix(av, bv),
        decreases min - first,
    {
        assert(av[first as int] == a@[first as int]@);
        assert(bv[first as int] == b@[first as int]@);
        first += 1;
    }
    proof {
        if first < min {
            assert(av[first as int] == a@[first as int]@);
            assert(bv[first as int] == b@[first as int]@);
        }
    }
    first
}

fn suffix_ends_exec(a: &Vec<Vec<char>>, b: &Vec<Vec<char>>, first: usize) -> (r: (usize, usize))
    requires
        first <= a.len(),
        first <= b.len(),
    ensures
        r.0 == suffix_ends(views(a@), views(b@), first as nat, a.len() as nat, b.len() as nat).0,
        r.1 == suffix_ends(views(a@), views(b@), first as nat, a.len() as nat, b.len() as nat).1,
        r.0 <= a.len(),
        r.1 <= b.len(),
{
    let ghost av = views(a@);
    let ghost bv = views(b@);
    let mut ol = a.len();
    let mut nl = b.len();
    while ol > first && nl > first && chars_eq(&a[ol - 1], &b[nl - 1])
        invariant
            first <= ol <= a.len(),
            first <= nl <= b.len(),
            av == views(a@),
            bv == views(b@),
            suffix_ends(av, bv, first as nat, ol as nat, nl as nat) == suffix_ends(
                av,
                bv,
                first as nat,
                a.len() as nat,
                b.len() as nat,
            ),
        decreases ol,
    {
        assert(av[ol - 1] == a@[ol - 1]@);
        assert(bv[nl - 1] == b@[nl - 1]@);
        ol -= 1;
        nl -= 1;
    }
    proof {
        if ol > first && nl > first {
            assert(av[ol - 1] == a@[ol - 1]@);
            assert(bv[nl - 1] == b@[nl - 1]@);
        }
    }
    (ol, nl)
}

pub open spec fn range_view(r: Option<(usize, usize)>) -> Option<(nat, nat)> {
    match r {
        Some((s, e)) => Some((s as nat, e as nat)),
        None => None,
    }
}

fn changed_range_lines(o: &Vec<Vec<char>>, n: &Vec<Vec<char>>) -> (r: (usize, usize, usize))
    requires
        o.len() < usize::MAX,
        n.len() < usize::MAX,
    ensures
        ({
            let first = common_prefix(views(o@), views(n@));
            let ends = suffix_ends(views(o@), views(n@), first, o.len() as nat, n.len() as nat);
            &&& r.0 == first + 1
            &&& r.1 == max_nat(ends.1, first + 1)
            &&& r.2 == ends.0
            &&& r.2 <= o.len()
            &&& first + 1 <= usize::MAX
        }),
{
    let first = common_prefix_exec(o, n);
    let (ol, nl) = suffix_ends_exec(o, n, first);
    let start = first + 1;
    let end = if nl >= start { nl } else { start };
    (start, end, ol)
}

/// The span of lines that changed between two texts, as 1-based inclusive
/// line numbers in the new text; `None` when the texts are equal.
pub fn changed_line_range(old: &str, new: &str) -> (r: Option<(usize, usize)>)
    requires
        old@.len() < usize::MAX,
        new@.len() < usize::MAX,
    ensures
        range_view(r) == changed_range(old@, new@),
{
    let ov = chars_of(old);
    let nv = chars_of(new);
    if chars_eq(&ov, &nv) {
        return None;
    }
    let o = visible_chars(&ov);
    let n = visible_chars(&nv);
    proof {
        crate::text::lemma_visible_len(ov@);
        crate::text::lemma_visible_len(nv@);
    }
    let (start, end, _) = changed_range_lines(&o, &n);
    Some((start, end))
}

// ---------------------------------------------------------------------------
// Compact diff
// ---------------------------------------------------------------------------

pub open spec fn minus_line(i: nat, l: Seq<char>) -> Seq<char> {
    seq!['-', ' '] + rendered(i as usize, l)
}

pub open spec fn plus_line(i: nat, l: Seq<char>) -> Seq<char> {
    seq!['+', ' '] + rendered(i as usize, l)
}

/// Removed lines `start..=end_old` of the old text, rendered with `- `.
pub open spec fn minus_rows(o: Seq<Seq<char>>, start: nat, end_old: nat) -> Seq<Seq<char>> {
    let count = if end_old + 1 >= start { (end_old + 1 - start) as nat } else { 0 };
    Seq::new(count, |k: int| minus_line((start + k) as nat, o[start + k - 1]))
}

/// Added lines `start..=end_new` of the new text that exist, rendered with `+ `.
pub open spec fn plus_rows(n: Seq<Seq<char>>, start: nat, end_new: nat) -> Seq<Seq<char>> {
    let last = if end_new <= n.len() { end_new } else { n.len() };
    let count = if last + 1 >= start { (last + 1 - start) as nat } else { 0 };
    Seq::new(count, |k: int| plus_line((start + k) as nat, n[start + k - 1]))
}

/// At most `max(max_lines, 1)` rows, then `...` when the rows reach that limit.
pub open spec fn limit_rows(rows: Seq<Seq<char>>, max_lines: nat) -> Seq<Seq<char>> {
    let k = if max_lines == 0 { 1 } else { max_lines };
    if rows.len() >= k {
        rows.take(k as int).push(seq!['.', '.', '.'])
    } else {
        rows
    }
}

/// The compact diff of two texts.
pub open spec fn compact_diff_text(old: Seq<char>, new: Seq<char>, max_lines: nat) -> Seq<char> {
    match changed_range(old, new) {
        None => "(no changes)"@,
        Some((start, end_new)) => {
            let o = visible(old);
            let n = visible(new);
            let end_old = suffix_ends(o, n, (start - 1) as nat, o.len(), n.len()).0;
            join(
                limit_rows(minus_rows(o, start, end_old) + plus_rows(n, start, end_new), max_lines),
                seq!['\n'],
            )
        },
    }
}

fn prefixed_row(sign: char, i: usize, l: &Vec<char>) -> (r: Vec<char>)
    ensures
        r@ == seq![sign, ' '] + rendered(i, l@),
{
    let mut r: Vec<char> = Vec::new();
    r.push(sign);
    r.push(' ');
    let x = render_hashline_chars(i, l);
    extend_chars(&mut r, &x);
    assert(r@ =~= seq![sign, ' '] + rendered(i, l@));
    r
}

fn dots() -> (r: Vec<char>)
    ensures
        r@ == seq!['.', '.', '.'],
{
    let mut r: Vec<char> = Vec::new();
    r.push('.');
    r.push('.');
    r.push('.');
    assert(r@ =~= seq!['.', '.', '.']);
    r
}

fn minus_rows_exec(o: &Vec<Vec<char>>, start: usize, end_old: usize) -> (r: Vec<Vec<char>>)
    requires
        1 <= start,
        end_old <= o.len(),
        end_old < usize::MAX,
    ensures
        views(r@) == minus_rows(views(o@), start as nat, end_old as nat),
{
    let ghost ov_ = views(o@);
    let mut rows_v: Vec<Vec<char>> = Vec::new();
    let mut i = start;
    if start > end_old {
        assert(views(rows_v@) =~= minus_rows(ov_, start as nat, end_old as nat));
        return rows_v;
    }
    while i <= end_old
        invariant
            1 <= start <= i,
            i <= end_old + 1,
            end_old <= o.len(),
            end_old < usize::MAX,
            ov_ == views(o@),
            views(rows_v@) == minus_rows(ov_, start as nat, end_old as nat).take(i - start),
        decreases end_old + 1 - i,
    {
        let row = prefixed_row('-', i, &o[i - 1]);
        let ghost before = rows_v@;
        rows_v.push(row);
        proof {
            crate::text::lemma_views_push(before, row);
        }
        assert(views(rows_v@) =~= minus_rows(ov_, start as nat, end_old as nat).take(i + 1 - start));
        i += 1;
    }
    assert(minus_rows(ov_, start as nat, end_old as nat).take(i - start) =~= minus_rows(ov_, start as nat, end_old as nat));
    rows_v
}

fn plus_rows_exec(n: &Vec<Vec<char>>, start: usize, end_new: usize) -> (r: Vec<Vec<char>>)
    requires
        1 <= start,
        n.len() < usize::MAX,
    ensures
        views(r@) == plus_rows(views(n@), start as nat, end_new as nat),
{
    let ghost nv_ = views(n@);
    let mut rows_v: Vec<Vec<char>> = Vec::new();
    let last = if end_new <= n.len() { end_new } else { n.len() };
    if start > last {
        assert(views(rows_v@) =~= plus_rows(nv_, start as nat, end_new as nat));
        return rows_v;
    }
    let mut j = start;
    while j <= last
        invariant
            1 <= start <= j,
            j <= last + 1,
            last <= n.len(),
            n.len() < usize::MAX,
            last == (if end_new <= n.len() { end_new } else { n.len() }),
            nv_ == views(n@),
            views(rows_v@) == plus_rows(nv_, start as nat, end_new as nat).take(j - start),
        decreases last + 1 - j,
    {
        let row = prefixed_row('+', j, &n[j - 1]);
        let ghost before = rows_v@;
        rows_v.push(row);
        proof {
            crate::text::lemma_views_push(before, row);
        }
        assert(views(rows_v@) =~= plus_rows(nv_, start as nat, end_new as nat).take(j + 1 - start));
        j += 1;
    }
    assert(plus_rows(nv_, start as nat, end_new as nat).take(j - start) =~= plus_rows(nv_, start as nat, end_new as nat));
    rows_v
}

fn append_rows(a: &mut Vec<Vec<char>>, b: Vec<Vec<char>>)
    ensures
        views(final(a)@) == views(old(a)@) + views(b@),
{
    let ghost av = views(a@);
    let mut i: usize = 0;
    while i < b.len()
        invariant
            i <= b.len(),
            views(a@) == av + views(b@).take(i as int),
        decreases b.len() - i,
    {
        let x = crate::text::slice_chars(&b[i], 0, b[i].len());
        assert(b@[i as int]@.subrange(0, b@[i as int]@.len() as int) == b@[i as int]@);
        let ghost before = a@;
        a.push(x);
        proof {
            crate::text::lemma_views_push(before, x);
        }
        assert(views(a@) =~= av + views(b@).take(i + 1));
        i += 1;
    }
    assert(views(b@).take(b.len() as int) =~= views(b@));
}

fn limit_rows_exec(rows_v: Vec<Vec<char>>, max_lines: usize) -> (out: Vec<Vec<char>>)
    ensures
        views(out@) == limit_rows(views(rows_v@), max_lines as nat),
{
    let k: usize = if max_lines == 0 { 1 } else { max_lines };
    if rows_v.len() >= k {
        let mut out: Vec<Vec<char>> = Vec::new();
        let mut t: usize = 0;
        while t < k
            invariant
                t <= k,
                k <= rows_v.len(),
                views(out@) == views(rows_v@).take(t as int),
            decreases k - t,
        {
            let row = crate::text::slice_chars(&rows_v[t], 0, rows_v[t].len());
            assert(rows_v@[t as int]@.subrange(0, rows_v@[t as int]@.len() as int) == rows_v@[t as int]@);
            let ghost before = out@;
            out.push(row);
            proof {
                crate::text::lemma_views_push(before, row);
            }
            assert(views(out@) =~= views(rows_v@).take(t + 1));
            t += 1;
        }
        let d = dots();
        let ghost before = out@;
        out.push(d);
        proof {
            crate::text::lemma_views_push(before, d);
        }
        out
    } else {
        rows_v
    }
}

/// Lists removed and added lines of the changed span, each rendered with
/// its anchor, at most `max_lines` of them before `...`.
pub fn compact_diff(old: &str, new: &str, max_lines: usize) -> (s: String)
    requires
        old@.len() < usize::MAX,
        new@.len() < usize::MAX,
    ensures
        s@ == compact_diff_text(old@, new@, max_lines as nat),
{
    let ov = chars_of(old);
    let nv = chars_of(new);
    if chars_eq(&ov, &nv) {
        let r = chars_of("(no changes)");
        return string_of(&r);
    }
    let o = visible_chars(&ov);
    let n = visible_chars(&nv);
    proof {
        crate::text::lemma_visible_len(ov@);
        crate::text::lemma_visible_len(nv@);
    }
    let (start, end_new, end_old) = changed_range_lines(&o, &n);
    let ghost ov_ = views(o@);
    let ghost nv_ = views(n@);
    let ghost rows: Seq<Seq<char>> = minus_rows(ov_, start as nat, end_old as nat) + plus_rows(nv_, start as nat, end_new as nat);
    let ghost kmax: nat = if max_lines == 0 { 1 } else { max_lines as nat };
    proof {
        lemma_common_prefix_from(ov_, nv_, 0);
        lemma_suffix_ends(ov_, nv_, (start - 1) as nat, o.len() as nat, n.len() as nat);
    }
    let mut rows_v = minus_rows_exec(&o, start, end_old);
    let p = plus_rows_exec(&n, start, end_new);
    append_rows(&mut rows_v, p);
    assert(views(rows_v@) == rows);
    let out = limit_rows_exec(rows_v, max_lines);
    assert(views(out@) == limit_rows(rows, max_lines as nat));
    let mut sep: Vec<char> = Vec::new();
    sep.push('\n');
    let r = join_chars(&out, &sep);
    string_of(&r)
}

/// The changed range is absent exactly when the texts are equal; otherwise
/// it starts at the line after the longest common prefix of the visible
/// lines (the lines before it agree, the line at it differs where both
/// texts have one) and ends at or after its start, and no later than the
/// new text's last line or its start.
pub proof fn law_changed_range_bounds(old: Seq<char>, new: Seq<char>)
    ensures
        changed_range(old, new) is None <==> old == new,
        changed_range(old, new) matches Some((s, e)) ==> {
            let o = visible(old);
            let n = visible(new);
            let p = common_prefix(o, n);
            &&& s == p + 1
            &&& s <= e <= max_nat(n.len(), s)
            &&& p <= o.len() && p <= n.len()
            &&& (forall|j: int| 0 <= j < p ==> o[j] == n[j])
            &&& (p < o.len() && p < n.len() ==> o[p as int] != n[p as int])
        },
{
    if old != new {
        let o = visible(old);
        let n = visible(new);
        lemma_common_prefix_from(o, n, 0);
        let p = common_prefix(o, n);
        lemma_suffix_ends(o, n, p, o.len(), n.len());
    }
}

/// A text compared with itself has no changed lines and an empty diff.
pub proof fn law_same_text_no_change(t: Seq<char>, max_lines: nat)
    ensures
        changed_range(t, t) is None,
        compact_diff_text(t, t, max_lines) == "(no changes)"@,
{
}

} // verus!
