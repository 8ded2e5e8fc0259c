//! Line hashes: a two-character tag per line, taken from the low byte of an
//! xxHash32 digest of the line with trailing whitespace and carriage returns
//! removed, and the rendering `LINE#HASH:content` built on it.
use vstd::prelude::*;
use crate::text::{chars_of, decimal, extend_chars, hex8, join, push_decimal, push_hex8, split_nl, views, visible, visible_chars, is_ws, lemma_trim_end_append_ws, lemma_trim_end_take, slice_chars, string_of, trim_end, trim_end_len, trimmed_len};
use vstd::utf8::encode_utf8;

verus! {

pub const PRIME32_1: u32 = 0x9E3779B1;
pub const PRIME32_2: u32 = 0x85EBCA77;
pub const PRIME32_3: u32 = 0xC2B2AE3D;
pub const PRIME32_4: u32 = 0x27D4EB2F;
pub const PRIME32_5: u32 = 0x165667B1;

// ---------------------------------------------------------------------------
// xxHash32
// ---------------------------------------------------------------------------

pub open spec fn rotl(x: u32, r: u32) -> u32 {
    (x << r) | (x >> ((32 - r) as u32))
}

fn rotl_exec(x: u32, r: u32) -> (y: u32)
    requires
        0 < r < 32,
    ensures
        y == rotl(x, r),
{
    (x << r) | (x >> (32 - r))
}

pub open spec fn le_u32(b: Seq<u8>, i: int) -> u32 {
    (b[i] as u32) | ((b[i + 1] as u32) << 8u32) | ((b[i + 2] as u32) << 16u32) | ((b[i + 3] as u32)
        << 24u32)
}

fn read_le_u32(b: &[u8], i: usize) -> (w: u32)
    requires
        i + 4 <= b@.len(),
    ensures
        w == le_u32(b@, i as int),
{
    (b[i] as u32) | ((b[i + 1] as u32) << 8u32) | ((b[i + 2] as u32) << 16u32) | ((b[i + 3] as u32)
        << 24u32)
}

pub open spec fn xxh_round(acc: u32, input: u32) -> u32 {
    rotl(acc.wrapping_add(input.wrapping_mul(PRIME32_2)), 13).wrapping_mul(PRIME32_1)
}

fn round_exec(acc: u32, input: u32) -> (r: u32)
    ensures
        r == xxh_round(acc, input),
{
    rotl_exec(acc.wrapping_add(input.wrapping_mul(PRIME32_2)), 13).wrapping_mul(PRIME32_1)
}

/// The four lane accumulators after consuming every whole 16-byte stripe
/// from position `i`, with the position where stripes end.
pub open spec fn xxh_stripes(b: Seq<u8>, v1: u32, v2: u32, v3: u32, v4: u32, i: nat) -> (
    u32,
    u32,
    u32,
    u32,
    nat,
)
    decreases b.len() - i,
{
    if i + 16 <= b.len() {
        xxh_stripes(
            b,
            xxh_round(v1, le_u32(b, i as int)),
            xxh_round(v2, le_u32(b, (i + 4) as int)),
            xxh_round(v3, le_u32(b, (i + 8) as int)),
            xxh_round(v4, le_u32(b, (i + 12) as int)),
            i + 16,
        )
    } else {
        (v1, v2, v3, v4, i)
    }
}

/// Single bytes from position `i` to the end.
pub open spec fn xxh_tail_bytes(b: Seq<u8>, h: u32, i: nat) -> u32
    decreases b.len() - i,
{
    if i < b.len() {
        xxh_tail_bytes(
            b,
            rotl(h.wrapping_add((b[i as int] as u32).wrapping_mul(PRIME32_5)), 11).wrapping_mul(
                PRIME32_1,
            ),
            i + 1,
        )
    } else {
        h
    }
}

/// Whole 4-byte words from position `i`, then single bytes.
pub open spec fn xxh_tail(b: Seq<u8>, h: u32, i: nat) -> u32
    decreases b.len() - i,
{
    if i + 4 <= b.len() {
        xxh_tail(
            b,
            rotl(h.wrapping_add(le_u32(b, i as int).wrapping_mul(PRIME32_3)), 17).wrapping_mul(
                PRIME32_4,
            ),
            i + 4,
        )
    } else {
        xxh_tail_bytes(b, h, i)
    }
}

pub open spec fn xxh_avalanche(h: u32) -> u32 {
    let h1 = h ^ (h >> 15u32);
    let h2 = h1.wrapping_mul(PRIME32_2);
    let h3 = h2 ^ (h2 >> 13u32);
    let h4 = h3.wrapping_mul(PRIME32_3);
    h4 ^ (h4 >> 16u32)
}

/// The 32-bit xxHash digest of `b` with `seed`.
pub open spec fn xxh32(b: Seq<u8>, seed: u32) -> u32 {
    let len = b.len() as u32;
    if b.len() >= 16 {
        let st = xxh_stripes(
            b,
            seed.wrapping_add(PRIME32_1).wrapping_add(PRIME32_2),
            seed.wrapping_add(PRIME32_2),
            seed,
            seed.wrapping_sub(PRIME32_1),
            0,
        );
        let h = rotl(st.0, 1).wrapping_add(rotl(st.1, 7)).wrapping_add(rotl(st.2, 12)).wrapping_add(
            rotl(st.3, 18),
        );
        xxh_avalanche(xxh_tail(b, h.wrapping_add(len), st.4))
    } else {
        xxh_avalanche(xxh_tail(b, seed.wrapping_add(PRIME32_5).wrapping_add(len), 0))
    }
}

/// The accumulator after the stripe phase and the position where it ends.
fn xxh_head(bytes: &[u8], seed: u32) -> (r: (u32, usize))
    ensures
        r.1 <= bytes@.len(),
        ({
            let b = bytes@;
            let len = b.len() as u32;
            if b.len() >= 16 {
                let st = xxh_stripes(
                    b,
                    seed.wrapping_add(PRIME32_1).wrapping_add(PRIME32_2),
                    seed.wrapping_add(PRIME32_2),
                    seed,
                    seed.wrapping_sub(PRIME32_1),
                    0,
                );
                &&& r.0 == rotl(st.0, 1).wrapping_add(rotl(st.1, 7)).wrapping_add(rotl(st.2, 12)).wrapping_add(rotl(st.3, 18)).wrapping_add(len)
                &&& r.1 == st.4
            } else {
                &&& r.0 == seed.wrapping_add(PRIME32_5).wrapping_add(len)
                &&& r.1 == 0
            }
        }),
{
    let n = bytes.len();
    let len = n as u32;
    let ghost b = bytes@;
    if n >= 16 {
        let mut i: usize = 0;
        let mut v1 = seed.wrapping_add(PRIME32_1).wrapping_add(PRIME32_2);
        let mut v2 = seed.wrapping_add(PRIME32_2);
        let mut v3 = seed;
        let mut v4 = seed.wrapping_sub(PRIME32_1);
        let ghost target = xxh_stripes(b, v1, v2, v3, v4, 0);
        while i <= n - 16
            invariant
                n == b.len(),
                b == bytes@,
                n >= 16,
                i <= n,
                xxh_stripes(b, v1, v2, v3, v4, i as nat) == target,
            decreases n - i,
        {
            v1 = round_exec(v1, read_le_u32(bytes, i));
            v2 = round_exec(v2, read_le_u32(bytes, i + 4));
            v3 = round_exec(v3, read_le_u32(bytes, i + 8));
            v4 = round_exec(v4, read_le_u32(bytes, i + 12));
            i += 16;
        }
        let h = rotl_exec(v1, 1).wrapping_add(rotl_exec(v2, 7)).wrapping_add(rotl_exec(v3, 12)).wrapping_add(
            rotl_exec(v4, 18),
        );
        assert(target == (v1, v2, v3, v4, i as nat));
        (h.wrapping_add(len), i)
    } else {
        (seed.wrapping_add(PRIME32_5).wrapping_add(len), 0)
    }
}

/// Words, then bytes, from position `i`, and the final avalanche.
fn xxh_finish(bytes: &[u8], h: u32, i: usize) -> (r: u32)
    requires
        i <= bytes@.len(),
    ensures
        r == xxh_avalanche(xxh_tail(bytes@, h, i as nat)),
{
    let n = bytes.len();
    let ghost b = bytes@;
    let mut h32 = h;
    let mut i = i;
    let ghost h_start = h;
    let ghost i_start = i;
    while i < n && n - i >= 4
        invariant
            n == b.len(),
            b == bytes@,
            i <= n,
            xxh_tail(b, h32, i as nat) == xxh_tail(b, h_start, i_start as nat),
        decreases n - i,
    {
        h32 = h32.wrapping_add(read_le_u32(bytes, i).wrapping_mul(PRIME32_3));
        h32 = rotl_exec(h32, 17).wrapping_mul(PRIME32_4);
        i += 4;
    }
    assert(xxh_tail_bytes(b, h32, i as nat) == xxh_tail(b, h_start, i_start as nat));
    while i < n
        invariant
            n == b.len(),
            b == bytes@,
            i <= n,
            xxh_tail_bytes(b, h32, i as nat) == xxh_tail(b, h_start, i_start as nat),
        decreases n - i,
    {
        h32 = h32.wrapping_add((bytes[i] as u32).wrapping_mul(PRIME32_5));
        h32 = rotl_exec(h32, 11).wrapping_mul(PRIME32_1);
        i += 1;
    }
    let h1 = h32 ^ (h32 >> 15u32);
    let h2 = h1.wrapping_mul(PRIME32_2);
    let h3 = h2 ^ (h2 >> 13u32);
    let h4 = h3.wrapping_mul(PRIME32_3);
    h4 ^ (h4 >> 16u32)
}

/// Computes the 32-bit xxHash digest of `bytes`.
pub fn xxh32_exec(bytes: &[u8], seed: u32) -> (h: u32)
    ensures
        h == xxh32(bytes@, seed),
{
    let (h, i) = xxh_head(bytes, seed);
    xxh_finish(bytes, h, i)
}

// ---------------------------------------------------------------------------
// Line hashes
// ---------------------------------------------------------------------------

/// The hash alphabet, one character per nibble value.
pub open spec fn alpha(i: int) -> char {
    if i == 0 { 'Z' }
    else if i == 1 { 'P' }
    else if i == 2 { 'M' }
    else if i == 3 { 'Q' }
    else if i == 4 { 'V' }
    else if i == 5 { 'R' }
    else if i == 6 { 'W' }
    else if i == 7 { 'S' }
    else if i == 8 { 'N' }
    else if i == 9 { 'K' }
    else if i == 10 { 'T' }
    else if i == 11 { 'X' }
    else if i == 12 { 'J' }
    else if i == 13 { 'B' }
    else if i == 14 { 'Y' }
    else { 'H' }
}

/// The sixteen characters that hashes are made of, in nibble order.
pub open spec fn alphabet_seq() -> Seq<char> {
    seq!['Z', 'P', 'M', 'Q', 'V', 'R', 'W', 'S', 'N', 'K', 'T', 'X', 'J', 'B', 'Y', 'H']
}

pub open spec fn is_hash_char(c: char) -> bool {
    alphabet_seq().contains(c)
}

pub proof fn lemma_alpha_in_alphabet(i: int)
    requires
        0 <= i < 16,
    ensures
        is_hash_char(alpha(i)),
        alphabet_seq()[i] == alpha(i),
{
    assert(alphabet_seq()[i] == alpha(i));
}

/// The hash alphabet, `"ZPMQVRWSNKTXJBYH"`.
pub fn alphabet() -> (s: &'static str)
    ensures
        s@ == alphabet_seq(),
{
    let s = "ZPMQVRWSNKTXJBYH";
    proof {
        reveal_strlit("ZPMQVRWSNKTXJBYH");
    }
    s
}

fn alpha_exec(i: u32) -> (c: char)
    requires
        i < 16,
    ensures
        c == alpha(i as int),
{
    if i == 0 { 'Z' }
    else if i == 1 { 'P' }
    else if i == 2 { 'M' }
    else if i == 3 { 'Q' }
    else if i == 4 { 'V' }
    else if i == 5 { 'R' }
    else if i == 6 { 'W' }
    else if i == 7 { 'S' }
    else if i == 8 { 'N' }
    else if i == 9 { 'K' }
    else if i == 10 { 'T' }
    else if i == 11 { 'X' }
    else if i == 12 { 'J' }
    else if i == 13 { 'B' }
    else if i == 14 { 'Y' }
    else { 'H' }
}

/// Whether `c` is one of the hash characters.
pub fn hash_char_exec(c: char) -> (b: bool)
    ensures
        b == is_hash_char(c),
{
    let mut i: u32 = 0;
    while i < 16
        invariant
            i <= 16,
            forall|j: int| 0 <= j < i ==> alphabet_seq()[j] != c,
        decreases 16 - i,
    {
        proof {
            lemma_alpha_in_alphabet(i as int);
        }
        if alpha_exec(i) == c {
            return true;
        }
        i += 1;
    }
    false
}

/// Whether `c` is alphabetic or numeric (std's `char::is_alphanumeric`).
pub uninterp spec fn char_is_alphanumeric(c: char) -> bool;

/// Calls `char::is_alphanumeric`; the result is named `char_is_alphanumeric`.
#[verifier::external_body]
fn is_alphanumeric(c: char) -> (b: bool)
    ensures
        b == char_is_alphanumeric(c),
{
    c.is_alphanumeric()
}

/// `s` without its `'\r'` characters.
pub open spec fn remove_cr(s: Seq<char>) -> Seq<char>
    decreases s.len(),
{
    if s.len() == 0 {
        s
    } else if s.last() == '\r' {
        remove_cr(s.drop_last())
    } else {
        remove_cr(s.drop_last()).push(s.last())
    }
}

pub proof fn lemma_remove_cr_append(a: Seq<char>, b: Seq<char>)
    ensures
        remove_cr(a + b) == remove_cr(a) + remove_cr(b),
    decreases b.len(),
{
    if b.len() == 0 {
        assert(a + b == a);
        assert(remove_cr(b) == b);
        assert(remove_cr(a) + remove_cr(b) == remove_cr(a));
    } else {
        assert((a + b).drop_last() == a + b.drop_last());
        assert((a + b).last() == b.last());
        lemma_remove_cr_append(a, b.drop_last());
    }
}

/// The text a line hash is taken over: the line without carriage returns
/// and without trailing whitespace.
pub open spec fn hash_text(line: Seq<char>) -> Seq<char> {
    trim_end(remove_cr(line))
}

pub open spec fn has_alphanumeric(s: Seq<char>) -> bool {
    exists|i: int| 0 <= i < s.len() && char_is_alphanumeric(#[trigger] s[i])
}

/// The seed: 0 for lines with an alphanumeric character, otherwise the line
/// number (so that lines made only of symbols hash differently per line).
pub open spec fn hash_seed(line_number: usize, t: Seq<char>) -> u32 {
    if has_alphanumeric(t) {
        0
    } else {
        line_number as u32
    }
}

pub open spec fn hash_byte(line_number: usize, line: Seq<char>) -> u32 {
    let t = hash_text(line);
    xxh32(encode_utf8(t), hash_seed(line_number, t)) & 0xffu32
}

/// The two-character hash of a line.
pub open spec fn line_hash(line_number: usize, line: Seq<char>) -> Seq<char> {
    let low = hash_byte(line_number, line);
    seq![alpha((low >> 4u32) as int), alpha((low & 0x0fu32) as int)]
}

fn remove_cr_exec(v: &Vec<char>) -> (r: Vec<char>)
    ensures
        r@ == remove_cr(v@),
{
    let mut r: Vec<char> = Vec::new();
    let mut i: usize = 0;
    while i < v.len()
        invariant
            i <= v.len(),
            r@ == remove_cr(v@.take(i as int)),
        decreases v.len() - i,
    {
        assert(v@.take(i + 1).drop_last() == v@.take(i as int));
        if v[i] != '\r' {
            r.push(v[i]);
        }
        i += 1;
    }
    assert(v@.take(v.len() as int) == v@);
    r
}

fn any_alphanumeric(v: &Vec<char>) -> (b: bool)
    ensures
        b == has_alphanumeric(v@),
{
    let mut i: usize = 0;
    while i < v.len()
        invariant
            i <= v.len(),
            forall|j: int| 0 <= j < i ==> !char_is_alphanumeric(#[trigger] v@[j]),
        decreases v.len() - i,
    {
        if is_alphanumeric(v[i]) {
            return true;
        }
        i += 1;
    }
    false
}

/// The hash characters of a line, as a vector.
pub fn line_hash_chars(line_number: usize, line: &Vec<char>) -> (r: Vec<char>)
    ensures
        r@ == line_hash(line_number, line@),
{
    let normalized = remove_cr_exec(line);
    let n = trim_end_len(&normalized);
    let trimmed = slice_chars(&normalized, 0, n);
    proof {
        lemma_trim_end_take(normalized@);
        assert(trimmed@ == hash_text(line@));
    }
    let seed: u32 = if any_alphanumeric(&trimmed) { 0 } else { line_number as u32 };
    let s = string_of(&trimmed);
    let bytes = s.as_str().as_bytes();
    let h = xxh32_exec(bytes, seed);
    let low = h & 0xff;
    proof {
        lemma_low_byte_nibbles(h);
    }
    let mut r: Vec<char> = Vec::new();
    r.push(alpha_exec(low >> 4u32));
    r.push(alpha_exec(low & 0x0fu32));
    assert(r@ == line_hash(line_number, line@));
    r
}

proof fn lemma_low_byte_nibbles(h: u32)
    ensures
        (h & 0xffu32) >> 4u32 < 16,
        (h & 0xffu32) & 0x0fu32 < 16,
{
    assert((h & 0xffu32) >> 4u32 < 16 && (h & 0xffu32) & 0x0fu32 < 16) by (bit_vector);
}

/// The two-character hash of line `line_number` with content `line`.
pub fn compute_line_hash(line_number: usize, line: &str) -> (h: String)
    ensures
        h@ == line_hash(line_number, line@),
{
    let v = chars_of(line);
    let r = line_hash_chars(line_number, &v);
    string_of(&r)
}

pub proof fn lemma_line_hash_chars(line_number: usize, line: Seq<char>)
    ensures
        line_hash(line_number, line).len() == 2,
        is_hash_char(line_hash(line_number, line)[0]),
        is_hash_char(line_hash(line_number, line)[1]),
{
    let low = hash_byte(line_number, line);
    lemma_low_byte_nibbles(xxh32(encode_utf8(hash_text(line)), hash_seed(line_number, hash_text(line))));
    lemma_alpha_in_alphabet((low >> 4u32) as int);
    lemma_alpha_in_alphabet((low & 0x0fu32) as int);
}

/// Trailing whitespace and carriage returns do not change a line's hash:
/// for any characters `tail` that are each whitespace or `'\r'`, the hash of
/// `line + tail` is the hash of `line`.
pub proof fn law_hash_ignores_trailing_ws(line_number: usize, line: Seq<char>, tail: Seq<char>)
    requires
        forall|i: int| 0 <= i < tail.len() ==> is_ws(#[trigger] tail[i]) || tail[i] == '\r',
    ensures
        line_hash(line_number, line + tail) == line_hash(line_number, line),
{
    lemma_remove_cr_append(line, tail);
    lemma_remove_cr_all_ws(tail);
    lemma_trim_end_append_ws(remove_cr(line), remove_cr(tail));
    assert(hash_text(line + tail) == hash_text(line));
    assert(hash_byte(line_number, line + tail) == hash_byte(line_number, line));
}

proof fn lemma_remove_cr_has_none(s: Seq<char>)
    ensures
        forall|i: int| 0 <= i < remove_cr(s).len() ==> #[trigger] remove_cr(s)[i] != '\r',
    decreases s.len(),
{
    if s.len() > 0 {
        lemma_remove_cr_has_none(s.drop_last());
        let p = remove_cr(s.drop_last());
        if s.last() != '\r' {
            assert forall|i: int| 0 <= i < p.push(s.last()).len() implies #[trigger] p.push(s.last())[i] != '\r' by {
                if i < p.len() {
                    assert(p.push(s.last())[i] == p[i]);
                }
            }
        }
    }
}

proof fn lemma_remove_cr_keeps(s: Seq<char>)
    requires
        forall|i: int| 0 <= i < s.len() ==> #[trigger] s[i] != '\r',
    ensures
        remove_cr(s) == s,
    decreases s.len(),
{
    if s.len() > 0 {
        lemma_remove_cr_keeps(s.drop_last());
        assert(s.drop_last().push(s.last()) =~= s);
    }
}

/// The text a hash is taken over is a fixed point: it has no carriage
/// return and no trailing whitespace left.
proof fn lemma_hash_text_fixed(line: Seq<char>)
    ensures
        hash_text(hash_text(line)) == hash_text(line),
{
    let x = remove_cr(line);
    let t = trim_end(x);
    lemma_remove_cr_has_none(line);
    lemma_trim_end_take(x);
    assert forall|i: int| 0 <= i < t.len() implies #[trigger] t[i] != '\r' by {
        assert(t[i] == x[i]);
    }
    lemma_remove_cr_keeps(t);
    if t.len() > 0 {
        assert(t.last() == x[trimmed_len(x) - 1]);
    }
    assert(trim_end(t) == t);
}

/// What a line hash is: two characters of the hash alphabet; the same for
/// the line as for its text without carriage returns and trailing
/// whitespace; and, where that text holds an alphanumeric character, the
/// same for every line number.
pub proof fn law_line_hash_shape(line_number: usize, other_number: usize, line: Seq<char>)
    ensures
        line_hash(line_number, line).len() == 2,
        is_hash_char(line_hash(line_number, line)[0]),
        is_hash_char(line_hash(line_number, line)[1]),
        line_hash(line_number, hash_text(line)) == line_hash(line_number, line),
        has_alphanumeric(hash_text(line)) ==> line_hash(other_number, line) == line_hash(line_number, line),
{
    lemma_line_hash_chars(line_number, line);
    lemma_hash_text_fixed(line);
}

proof fn lemma_remove_cr_all_ws(tail: Seq<char>)
    requires
        forall|i: int| 0 <= i < tail.len() ==> is_ws(#[trigger] tail[i]) || tail[i] == '\r',
    ensures
        forall|i: int| 0 <= i < remove_cr(tail).len() ==> is_ws(#[trigger] remove_cr(tail)[i]),
    decreases tail.len(),
{
    if tail.len() > 0 {
        assert forall|i: int| 0 <= i < tail.drop_last().len() implies is_ws(#[trigger] tail.drop_last()[i]) || tail.drop_last()[i] == '\r' by {
            assert(tail.drop_last()[i] == tail[i]);
        }
        lemma_remove_cr_all_ws(tail.drop_last());
        assert(is_ws(tail[tail.len() - 1]) || tail[tail.len() - 1] == '\r');
        let p = remove_cr(tail.drop_last());
        if tail.last() != '\r' {
            assert forall|i: int| 0 <= i < remove_cr(tail).len() implies is_ws(#[trigger] remove_cr(tail)[i]) by {
                if i < p.len() {
                    assert(remove_cr(tail)[i] == p[i]);
                }
            }
        }
    }
}


// ---------------------------------------------------------------------------
// Rendering
// ---------------------------------------------------------------------------

/// `LINE#HASH:content`.
pub open spec fn rendered(line_number: usize, line: Seq<char>) -> Seq<char> {
    decimal(line_number as nat) + seq!['#'] + line_hash(line_number, line) + seq![':'] + line
}

pub fn render_hashline_chars(line_number: usize, line: &Vec<char>) -> (r: Vec<char>)
    ensures
        r@ == rendered(line_number, line@),
{
    let mut r: Vec<char> = Vec::new();
    push_decimal(&mut r, line_number);
    r.push('#');
    let h = line_hash_chars(line_number, line);
    extend_chars(&mut r, &h);
    r.push(':');
    extend_chars(&mut r, line);
    assert(r@ =~= rendered(line_number, line@));
    r
}

/// Renders one line as `LINE#HASH:content`.
pub fn render_hashline(line_number: usize, line: &str) -> (s: String)
    ensures
        s@ == rendered(line_number, line@),
{
    let v = chars_of(line);
    let r = render_hashline_chars(line_number, &v);
    string_of(&r)
}

/// The rendered lines of a region that starts at line `start`.
pub open spec fn rendered_region(lines: Seq<Seq<char>>, start: usize) -> Seq<Seq<char>> {
    Seq::new(lines.len(), |i: int| rendered((start + i) as usize, lines[i]))
}

/// The rendered lines of a region, joined with newlines.
pub open spec fn region_text(lines: Seq<Seq<char>>, start: usize) -> Seq<char> {
    join(rendered_region(lines, start), seq!['\n'])
}

pub open spec fn string_views(v: Seq<String>) -> Seq<Seq<char>> {
    v.map_values(|x: String| x@)
}

pub proof fn lemma_string_views_push(s: Seq<String>, x: String)
    ensures
        string_views(s.push(x)) == string_views(s).push(x@),
{
    assert(string_views(s.push(x)) =~= string_views(s).push(x@));
}

pub fn format_region_chars(lines: &Vec<Vec<char>>, start: usize) -> (r: Vec<char>)
    requires
        start + lines.len() <= usize::MAX + 1,
    ensures
        r@ == region_text(views(lines@), start),
{
    let mut parts: Vec<Vec<char>> = Vec::new();
    let mut i: usize = 0;
    while i < lines.len()
        invariant
            i <= lines.len(),
            start + lines.len() <= usize::MAX + 1,
            views(parts@) == rendered_region(views(lines@), start).take(i as int),
        decreases lines.len() - i,
    {
        let p = render_hashline_chars(start + i, &lines[i]);
        let ghost before = parts@;
        parts.push(p);
        proof {
            crate::text::lemma_views_push(before, p);
        }
        assert(views(parts@) =~= rendered_region(views(lines@), start).take(i + 1));
        i += 1;
    }
    assert(rendered_region(views(lines@), start).take(lines.len() as int) =~= rendered_region(views(lines@), start));
    let mut sep: Vec<char> = Vec::new();
    sep.push('\n');
    assert(sep@ =~= seq!['\n']);
    crate::text::join_chars(&parts, &sep)
}

pub fn vec_chars_of_strings(lines: &[String]) -> (r: Vec<Vec<char>>)
    ensures
        views(r@) == string_views(lines@),
{
    let mut r: Vec<Vec<char>> = Vec::new();
    let mut i: usize = 0;
    while i < lines.len()
        invariant
            i <= lines.len(),
            views(r@) == string_views(lines@).take(i as int),
        decreases lines.len() - i,
    {
        let c = chars_of(lines[i].as_str());
        let ghost before = r@;
        r.push(c);
        proof {
            crate::text::lemma_views_push(before, c);
        }
        assert(views(r@) =~= string_views(lines@).take(i + 1));
        i += 1;
    }
    assert(string_views(lines@).take(lines.len() as int) =~= string_views(lines@));
    r
}

pub fn strings_of(v: &Vec<Vec<char>>) -> (r: Vec<String>)
    ensures
        string_views(r@) == views(v@),
{
    let mut r: Vec<String> = Vec::new();
    let mut i: usize = 0;
    while i < v.len()
        invariant
            i <= v.len(),
            string_views(r@) == views(v@).take(i as int),
        decreases v.len() - i,
    {
        let x = string_of(&v[i]);
        let ghost before = r@;
        r.push(x);
        proof {
            lemma_string_views_push(before, x);
        }
        assert(string_views(r@) =~= views(v@).take(i + 1));
        i += 1;
    }
    assert(views(v@).take(v.len() as int) =~= views(v@));
    r
}

/// Renders consecutive lines starting at line `start_line`, one per row.
pub fn format_hashline_region(lines: &[String], start_line: usize) -> (s: String)
    requires
        start_line + lines@.len() <= usize::MAX + 1,
    ensures
        s@ == region_text(string_views(lines@), start_line),
{
    let v = vec_chars_of_strings(lines);
    let r = format_region_chars(&v, start_line);
    string_of(&r)
}

/// The lines of a text as a reader sees them.
pub fn visible_lines(text: &str) -> (lines: Vec<String>)
    ensures
        string_views(lines@) == visible(text@),
{
    let v = chars_of(text);
    let l = visible_chars(&v);
    strings_of(&l)
}

/// A non-empty text is its visible lines joined by newlines, with the final
/// newline, where it has one, after them.
pub proof fn law_visible_lines_round_trip(text: Seq<char>)
    requires
        text.len() > 0,
    ensures
        join(visible(text), seq!['\n']) + (if text.last() == '\n' { seq!['\n'] } else { Seq::<char>::empty() }) == text,
{
    if text.last() == '\n' {
        let d = text.drop_last();
        crate::text::lemma_split_nl_facts(d);
        assert(split_nl(text) == split_nl(d).push(Seq::<char>::empty()));
        assert(visible(text) == split_nl(d));
        assert(d + seq!['\n'] =~= text);
    } else {
        crate::text::lemma_split_nl_facts(text);
        assert(join(visible(text), seq!['\n']) + Seq::<char>::empty() =~= text);
    }
}

/// The digest that identifies a whole file's content.
pub open spec fn file_digest(text: Seq<char>) -> Seq<char> {
    hex8(xxh32(encode_utf8(text), 0))
}

/// Eight lower-case hexadecimal digits of the xxHash32 of the file text.
pub fn file_hash(text: &str) -> (s: String)
    ensures
        s@ == file_digest(text@),
{
    let h = xxh32_exec(text.as_bytes(), 0);
    let mut r: Vec<char> = Vec::new();
    push_hex8(&mut r, h);
    assert(r@ =~= hex8(h));
    string_of(&r)
}

} // verus!
