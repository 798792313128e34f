//! Finding one's way in JSON text.
//!
//! The functions here take well-formed text for granted: of other text they say something, but
//! nothing of meaning.
use vstd::prelude::*;

verus! {

/// The byte `"`.
pub const QUOTE: u8 = 0x22;

/// The byte `\`.
pub const BACKSLASH: u8 = 0x5C;

/// The byte `,`.
pub const COMMA: u8 = 0x2C;

/// The byte `:`.
pub const COLON: u8 = 0x3A;

/// The byte `{`.
pub const OBJECT_START: u8 = 0x7B;

/// The byte `}`.
pub const OBJECT_END: u8 = 0x7D;

/// The byte `[`.
pub const ARRAY_START: u8 = 0x5B;

/// The byte `]`.
pub const ARRAY_END: u8 = 0x5D;

/// The byte `u`, which begins the number of a character behind a backslash.
pub const UNICODE: u8 = 0x75;

/// Space, tabulator, line feed and carriage return.
pub open spec fn is_space(c: u8) -> bool {
    c == 0x20 || c == 0x09 || c == 0x0A || c == 0x0D
}

/// The first position from `i` on with no white space.
pub open spec fn after_space(h: Seq<u8>, i: int) -> int
    decreases h.len() - i,
{
    if i < h.len() && is_space(h[i]) {
        after_space(h, i + 1)
    } else {
        i
    }
}

/// The position behind the string that `i` is within.
pub open spec fn string_end(h: Seq<u8>, i: int) -> int
    decreases h.len() - i,
{
    if i >= h.len() {
        h.len() as int
    } else if h[i] == QUOTE {
        i + 1
    } else if h[i] == BACKSLASH {
        if i + 1 < h.len() {
            string_end(h, i + 2)
        } else {
            h.len() as int
        }
    } else {
        string_end(h, i + 1)
    }
}

/// The position behind the bracket that closes the last of the `depth` that are open at `i`.
/// `quoted` says whether `i` is within a string.
pub open spec fn brackets_end(h: Seq<u8>, i: int, depth: int, quoted: bool) -> int
    decreases h.len() - i,
{
    if i >= h.len() {
        h.len() as int
    } else if quoted {
        if h[i] == BACKSLASH {
            if i + 1 < h.len() {
                brackets_end(h, i + 2, depth, true)
            } else {
                h.len() as int
            }
        } else {
            brackets_end(h, i + 1, depth, h[i] != QUOTE)
        }
    } else if h[i] == OBJECT_END || h[i] == ARRAY_END {
        if depth <= 1 {
            i + 1
        } else {
            brackets_end(h, i + 1, depth - 1, false)
        }
    } else if h[i] == OBJECT_START || h[i] == ARRAY_START {
        brackets_end(h, i + 1, depth + 1, false)
    } else {
        brackets_end(h, i + 1, depth, h[i] == QUOTE)
    }
}

/// The byte ends a number or a word.
pub open spec fn is_delimiter(c: u8) -> bool {
    is_space(c) || c == COMMA || c == OBJECT_END || c == ARRAY_END
}

/// The position behind the number or the word that `i` is within.
pub open spec fn word_end(h: Seq<u8>, i: int) -> int
    decreases h.len() - i,
{
    if i >= h.len() {
        h.len() as int
    } else if is_delimiter(h[i]) {
        i
    } else {
        word_end(h, i + 1)
    }
}

/// The position behind the value that begins at `i`.
pub open spec fn value_end(h: Seq<u8>, i: int) -> int {
    if i >= h.len() {
        h.len() as int
    } else if h[i] == QUOTE {
        string_end(h, i + 1)
    } else if h[i] == OBJECT_START || h[i] == ARRAY_START {
        brackets_end(h, i + 1, 1, false)
    } else {
        word_end(h, i)
    }
}

/// The value of a hexadecimal digit.
pub open spec fn hex_value(c: u8) -> int {
    if 0x30 <= c <= 0x39 {
        c - 0x30
    } else if 0x41 <= c <= 0x46 {
        c - 0x41 + 10
    } else if 0x61 <= c <= 0x66 {
        c - 0x61 + 10
    } else {
        0
    }
}

/// The value of the four hexadecimal digits at `i`.
pub open spec fn hex4(h: Seq<u8>, i: int) -> int {
    0x1000 * hex_value(h[i]) + 0x100 * hex_value(h[i + 1]) + 0x10 * hex_value(h[i + 2]) + hex_value(
        h[i + 3],
    )
}

/// The byte that a backslash and the byte `c` stand for.
pub open spec fn unescaped_byte(c: u8) -> u8 {
    if c == 0x62 {
        0x08
    } else if c == 0x66 {
        0x0C
    } else if c == 0x6E {
        0x0A
    } else if c == 0x72 {
        0x0D
    } else if c == 0x74 {
        0x09
    } else {
        c
    }
}

/// The character with the number `c`, in UTF-8.
pub open spec fn utf8(c: int) -> Seq<u8> {
    if c < 0x80 {
        seq![c as u8]
    } else if c < 0x800 {
        seq![(0xC0 + c / 0x40) as u8, (0x80 + c % 0x40) as u8]
    } else if c < 0x1_0000 {
        seq![
            (0xE0 + c / 0x1000) as u8,
            (0x80 + c / 0x40 % 0x40) as u8,
            (0x80 + c % 0x40) as u8,
        ]
    } else {
        seq![
            (0xF0 + c / 0x4_0000) as u8,
            (0x80 + c / 0x1000 % 0x40) as u8,
            (0x80 + c / 0x40 % 0x40) as u8,
            (0x80 + c % 0x40) as u8,
        ]
    }
}

/// At `i` the numbers of two surrogates stand, which are one character together.
pub open spec fn is_surrogate_pair(h: Seq<u8>, i: int) -> bool {
    &&& i + 12 <= h.len()
    &&& 0xD800 <= hex4(h, i + 2) <= 0xDBFF
    &&& h[i + 6] == BACKSLASH
    &&& h[i + 7] == UNICODE
    &&& 0xDC00 <= hex4(h, i + 8) <= 0xDFFF
}

/// What the string that `i` is within holds from there on, in UTF-8.
pub open spec fn unescaped(h: Seq<u8>, i: int) -> Seq<u8>
    decreases h.len() - i,
{
    if i >= h.len() || h[i] == QUOTE {
        seq![]
    } else if h[i] != BACKSLASH {
        seq![h[i]] + unescaped(h, i + 1)
    } else if i + 1 >= h.len() {
        seq![]
    } else if h[i + 1] != UNICODE {
        seq![unescaped_byte(h[i + 1])] + unescaped(h, i + 2)
    } else if i + 6 > h.len() {
        seq![]
    } else if is_surrogate_pair(h, i) {
        utf8(0x1_0000 + 0x400 * (hex4(h, i + 2) - 0xD800) + (hex4(h, i + 8) - 0xDC00)) + unescaped(
            h,
            i + 12,
        )
    } else {
        utf8(hex4(h, i + 2)) + unescaped(h, i + 6)
    }
}

/// Nothing is passed over backwards, nor beyond the end.
pub proof fn lemma_after_space(h: Seq<u8>, i: int)
    ensures
        i <= after_space(h, i),
        i <= h.len() ==> after_space(h, i) <= h.len(),
    decreases h.len() - i,
{
    if i < h.len() && is_space(h[i]) {
        lemma_after_space(h, i + 1);
    }
}

/// A string ends behind its start, and not beyond the end.
pub proof fn lemma_string_end(h: Seq<u8>, i: int)
    ensures
        i <= h.len() ==> i <= string_end(h, i) <= h.len(),
    decreases h.len() - i,
{
    if i < h.len() && h[i] != QUOTE {
        if h[i] != BACKSLASH {
            lemma_string_end(h, i + 1);
        } else if i + 1 < h.len() {
            lemma_string_end(h, i + 2);
        }
    }
}

/// Brackets are closed behind their start, and not beyond the end.
pub proof fn lemma_brackets_end(h: Seq<u8>, i: int, depth: int, quoted: bool)
    ensures
        i <= h.len() ==> i <= brackets_end(h, i, depth, quoted) <= h.len(),
    decreases h.len() - i,
{
    if i < h.len() {
        if quoted {
            if h[i] != BACKSLASH {
                lemma_brackets_end(h, i + 1, depth, h[i] != QUOTE);
            } else if i + 1 < h.len() {
                lemma_brackets_end(h, i + 2, depth, true);
            }
        } else if h[i] == OBJECT_END || h[i] == ARRAY_END {
            if depth > 1 {
                lemma_brackets_end(h, i + 1, depth - 1, false);
            }
        } else if h[i] == OBJECT_START || h[i] == ARRAY_START {
            lemma_brackets_end(h, i + 1, depth + 1, false);
        } else {
            lemma_brackets_end(h, i + 1, depth, h[i] == QUOTE);
        }
    }
}

/// A word ends behind its start, and not beyond the end.
pub proof fn lemma_word_end(h: Seq<u8>, i: int)
    ensures
        i <= h.len() ==> i <= word_end(h, i) <= h.len(),
    decreases h.len() - i,
{
    if i < h.len() && !is_delimiter(h[i]) {
        lemma_word_end(h, i + 1);
    }
}

/// A value ends behind its start, and not beyond the end.
pub proof fn lemma_value_end(h: Seq<u8>, i: int)
    ensures
        i <= h.len() ==> i <= value_end(h, i) <= h.len(),
{
    lemma_string_end(h, i + 1);
    lemma_brackets_end(h, i + 1, 1, false);
    lemma_word_end(h, i);
}

/// The members of an object from position `i` within it on: the name of each, and where its
/// value begins.
pub open spec fn members(h: Seq<u8>, i: int) -> Seq<(Seq<u8>, int)>
    decreases h.len() - i,
{
    let name = after_space(h, i);
    let colon = after_space(h, string_end(h, name + 1));
    let value = after_space(h, colon + 1);
    let next = after_space(h, value_end(h, value));
    if name >= h.len() || h[name] != QUOTE || colon >= h.len() || h[colon] != COLON {
        seq![]
    } else {
        let first = seq![(unescaped(h, name + 1), value)];
        if next < h.len() && h[next] == COMMA {
            proof {
                lemma_after_space(h, i);
                lemma_string_end(h, name + 1);
                lemma_after_space(h, string_end(h, name + 1));
                lemma_after_space(h, colon + 1);
                lemma_value_end(h, value);
                lemma_after_space(h, value_end(h, value));
            }
            first + members(h, next + 1)
        } else {
            first
        }
    }
}

/// Where the items of an array begin, from position `i` within it on.
pub open spec fn items(h: Seq<u8>, i: int) -> Seq<int>
    decreases h.len() - i,
{
    let item = after_space(h, i);
    let next = after_space(h, value_end(h, item));
    if item >= h.len() || h[item] == ARRAY_END {
        seq![]
    } else if next < h.len() && h[next] == COMMA {
        proof {
            lemma_after_space(h, i);
            lemma_value_end(h, item);
            lemma_after_space(h, value_end(h, item));
        }
        seq![item] + items(h, next + 1)
    } else {
        seq![item]
    }
}

/// The number whose digits before `i` make `so_far`.
pub open spec fn number(h: Seq<u8>, i: int, so_far: int) -> int
    decreases h.len() - i,
{
    if i < h.len() && 0x30 <= h[i] <= 0x39 {
        number(h, i + 1, 10 * so_far + (h[i] - 0x30))
    } else {
        so_far
    }
}

/// Further digits make a number no smaller.
proof fn lemma_number_grows(h: Seq<u8>, i: int, so_far: int)
    requires
        0 <= so_far,
    ensures
        so_far <= number(h, i, so_far),
    decreases h.len() - i,
{
    if i < h.len() && 0x30 <= h[i] <= 0x39 {
        lemma_number_grows(h, i + 1, 10 * so_far + (h[i] - 0x30));
    }
}

/// The first position from `i` on with no white space.
pub fn skip_space(h: &[u8], i: usize) -> (r: usize)
    requires
        i <= h@.len(),
    ensures
        r == after_space(h@, i as int),
        i <= r <= h@.len(),
{
    let mut j: usize = i;
    while j < h.len() && (h[j] == 0x20 || h[j] == 0x09 || h[j] == 0x0A || h[j] == 0x0D)
        invariant
            i <= j <= h@.len(),
            after_space(h@, i as int) == after_space(h@, j as int),
        decreases h@.len() - j,
    {
        j = j + 1;
    }
    j
}

/// The position behind the string that `i` is within.
pub fn find_string_end(h: &[u8], i: usize) -> (r: usize)
    requires
        i <= h@.len(),
    ensures
        r == string_end(h@, i as int),
        i <= r <= h@.len(),
{
    let n: usize = h.len();
    let mut j: usize = i;
    while j < n
        invariant
            i <= j <= n,
            n == h@.len(),
            string_end(h@, i as int) == string_end(h@, j as int),
        decreases n - j,
    {
        if h[j] == QUOTE {
            return j + 1;
        }
        if h[j] == BACKSLASH {
            if j + 1 >= n {
                return n;
            }
            j = j + 2;
        } else {
            j = j + 1;
        }
    }
    n
}

/// The position behind the bracket that closes the one before `i`.
fn find_bracket_end(h: &[u8], i: usize) -> (r: usize)
    requires
        0 < i <= h@.len(),
    ensures
        r == brackets_end(h@, i as int, 1, false),
        i <= r <= h@.len(),
{
    let n: usize = h.len();
    let mut depth: usize = 1;
    let mut quoted: bool = false;
    let mut j: usize = i;
    while j < n
        invariant
            0 < i <= j <= n,
            n == h@.len(),
            1 <= depth <= j,
            brackets_end(h@, i as int, 1, false) == brackets_end(
                h@,
                j as int,
                depth as int,
                quoted,
            ),
        decreases n - j,
    {
        let c: u8 = h[j];
        if quoted {
            if c == BACKSLASH {
                if j + 1 >= n {
                    return n;
                }
                j = j + 2;
            } else {
                quoted = c != QUOTE;
                j = j + 1;
            }
        } else {
            if c == OBJECT_END || c == ARRAY_END {
                if depth <= 1 {
                    return j + 1;
                }
                depth = depth - 1;
            } else if c == OBJECT_START || c == ARRAY_START {
                depth = depth + 1;
            } else {
                quoted = c == QUOTE;
            }
            j = j + 1;
        }
    }
    n
}

/// The position behind the number or the word that `i` is within.
fn find_word_end(h: &[u8], i: usize) -> (r: usize)
    requires
        i <= h@.len(),
    ensures
        r == word_end(h@, i as int),
        i <= r <= h@.len(),
{
    let n: usize = h.len();
    let mut j: usize = i;
    while j < n
        invariant
            i <= j <= n,
            n == h@.len(),
            word_end(h@, i as int) == word_end(h@, j as int),
        decreases n - j,
    {
        let c: u8 = h[j];
        if c == 0x20 || c == 0x09 || c == 0x0A || c == 0x0D || c == COMMA || c == OBJECT_END || c
            == ARRAY_END {
            return j;
        }
        j = j + 1;
    }
    n
}

/// The position behind the value that begins at `i`.
pub fn find_value_end(h: &[u8], i: usize) -> (r: usize)
    requires
        i <= h@.len(),
    ensures
        r == value_end(h@, i as int),
        i <= r <= h@.len(),
{
    if i >= h.len() {
        h.len()
    } else if h[i] == QUOTE {
        find_string_end(h, i + 1)
    } else if h[i] == OBJECT_START || h[i] == ARRAY_START {
        find_bracket_end(h, i + 1)
    } else {
        find_word_end(h, i)
    }
}

/// The value of a hexadecimal digit.
fn hex_digit(c: u8) -> (r: u32)
    ensures
        r == hex_value(c),
        r <= 15,
{
    if 0x30 <= c && c <= 0x39 {
        (c - 0x30) as u32
    } else if 0x41 <= c && c <= 0x46 {
        (c - 0x41) as u32 + 10
    } else if 0x61 <= c && c <= 0x66 {
        (c - 0x61) as u32 + 10
    } else {
        0
    }
}

/// The value of the four hexadecimal digits at `i`.
fn hex_digits(h: &[u8], i: usize) -> (r: u32)
    requires
        i + 4 <= h@.len(),
    ensures
        r == hex4(h@, i as int),
        r <= 0xFFFF,
{
    let a: u32 = hex_digit(h[i]);
    let b: u32 = hex_digit(h[i + 1]);
    let c: u32 = hex_digit(h[i + 2]);
    let d: u32 = hex_digit(h[i + 3]);
    0x1000 * a + 0x100 * b + 0x10 * c + d
}

/// The byte that a backslash and the byte `c` stand for.
fn unescape_byte(c: u8) -> (r: u8)
    ensures
        r == unescaped_byte(c),
{
    if c == 0x62 {
        0x08
    } else if c == 0x66 {
        0x0C
    } else if c == 0x6E {
        0x0A
    } else if c == 0x72 {
        0x0D
    } else if c == 0x74 {
        0x09
    } else {
        c
    }
}

/// Adds the character with the number `c` to `out`, in UTF-8.
fn push_utf8(out: &mut Vec<u8>, c: u32)
    requires
        c < 0x20_0000,
    ensures
        final(out)@ == old(out)@ + utf8(c as int),
{
    let ghost before = out@;
    if c < 0x80 {
        out.push(c as u8);
    } else if c < 0x800 {
        out.push((0xC0 + c / 0x40) as u8);
        out.push((0x80 + c % 0x40) as u8);
    } else if c < 0x1_0000 {
        out.push((0xE0 + c / 0x1000) as u8);
        out.push((0x80 + c / 0x40 % 0x40) as u8);
        out.push((0x80 + c % 0x40) as u8);
    } else {
        out.push((0xF0 + c / 0x4_0000) as u8);
        out.push((0x80 + c / 0x1000 % 0x40) as u8);
        out.push((0x80 + c / 0x40 % 0x40) as u8);
        out.push((0x80 + c % 0x40) as u8);
    }
    assert(out@ =~= before + utf8(c as int));
}

/// What the string that `i` is within holds from there on, in UTF-8.
pub fn unescape(h: &[u8], i: usize) -> (r: Vec<u8>)
    requires
        i <= h@.len(),
    ensures
        r@ == unescaped(h@, i as int),
{
    let n: usize = h.len();
    let mut out: Vec<u8> = Vec::new();
    let mut j: usize = i;
    proof {
        assert(out@ + unescaped(h@, i as int) =~= unescaped(h@, i as int));
    }
    while j < n && h[j] != QUOTE
        invariant
            i <= j <= n,
            n == h@.len(),
            unescaped(h@, i as int) == out@ + unescaped(h@, j as int),
        decreases n - j,
    {
        let ghost before = out@;
        let ghost rest = unescaped(h@, j as int);
        if h[j] != BACKSLASH {
            out.push(h[j]);
            proof {
                assert(before + (seq![h@[j as int]] + unescaped(h@, j + 1)) =~= out@ + unescaped(
                    h@,
                    j + 1,
                ));
            }
            j = j + 1;
        } else if n - j < 2 {
            assert(before + rest =~= before);
            return out;
        } else if h[j + 1] != UNICODE {
            out.push(unescape_byte(h[j + 1]));
            proof {
                assert(before + (seq![unescaped_byte(h@[j + 1])] + unescaped(h@, j + 2)) =~= out@
                    + unescaped(h@, j + 2));
            }
            j = j + 2;
        } else if n - j < 6 {
            assert(before + rest =~= before);
            return out;
        } else {
            let first: u32 = hex_digits(h, j + 2);
            let mut second: u32 = 0;
            if n - j >= 12 && h[j + 6] == BACKSLASH && h[j + 7] == UNICODE {
                second = hex_digits(h, j + 8);
            }
            if 0xD800 <= first && first <= 0xDBFF && 0xDC00 <= second && second <= 0xDFFF {
                let c: u32 = 0x1_0000 + 0x400 * (first - 0xD800) + (second - 0xDC00);
                push_utf8(&mut out, c);
                proof {
                    assert(before + (utf8(c as int) + unescaped(h@, j + 12)) =~= out@ + unescaped(
                        h@,
                        j + 12,
                    ));
                }
                j = j + 12;
            } else {
                push_utf8(&mut out, first);
                proof {
                    assert(before + (utf8(first as int) + unescaped(h@, j + 6)) =~= out@
                        + unescaped(h@, j + 6));
                }
                j = j + 6;
            }
        }
    }
    proof {
        assert(out@ + unescaped(h@, j as int) =~= out@);
    }
    out
}

/// One member of an object: its name, and where its value begins.
pub struct Member {
    pub name: Vec<u8>,
    pub value: usize,
}

/// The names and places of members.
pub open spec fn listed(v: Seq<Member>) -> Seq<(Seq<u8>, int)> {
    Seq::new(v.len(), |k: int| (v[k].name@, v[k].value as int))
}

/// The members of an object from position `i` within it on.
pub fn list_members(h: &[u8], i: usize) -> (r: Vec<Member>)
    requires
        i <= h@.len(),
    ensures
        listed(r@) == members(h@, i as int),
        forall|k: int| 0 <= k < r@.len() ==> (#[trigger] r@[k]).value <= h@.len(),
{
    let n: usize = h.len();
    let mut out: Vec<Member> = Vec::new();
    let mut j: usize = i;
    assert(listed(out@) + members(h@, i as int) =~= members(h@, i as int));
    loop
        invariant
            i <= j <= n,
            n == h@.len(),
            members(h@, i as int) == listed(out@) + members(h@, j as int),
            forall|k: int| 0 <= k < out@.len() ==> (#[trigger] out@[k]).value <= h@.len(),
        decreases n - j,
    {
        let ghost before = listed(out@);
        let name_at: usize = skip_space(h, j);
        if name_at >= n || h[name_at] != QUOTE {
            assert(before + members(h@, j as int) =~= before);
            return out;
        }
        let string_stop: usize = find_string_end(h, name_at + 1);
        let colon: usize = skip_space(h, string_stop);
        if colon >= n || h[colon] != COLON {
            assert(before + members(h@, j as int) =~= before);
            return out;
        }
        let value: usize = skip_space(h, colon + 1);
        let name: Vec<u8> = unescape(h, name_at + 1);
        let ghost first = (name@, value as int);
        out.push(Member { name, value });
        assert(listed(out@) =~= before.push(first));
        let value_stop: usize = find_value_end(h, value);
        let next: usize = skip_space(h, value_stop);
        if next >= n || h[next] != COMMA {
            assert(before + members(h@, j as int) =~= listed(out@));
            return out;
        }
        proof {
            assert(before + (seq![first] + members(h@, next + 1)) =~= listed(out@) + members(
                h@,
                next + 1,
            ));
        }
        j = next + 1;
    }
}

/// Where items begin.
pub open spec fn places(v: Seq<usize>) -> Seq<int> {
    Seq::new(v.len(), |k: int| v[k] as int)
}

/// Where the items of an array begin, from position `i` within it on.
pub fn list_items(h: &[u8], i: usize) -> (r: Vec<usize>)
    requires
        i <= h@.len(),
    ensures
        places(r@) == items(h@, i as int),
        forall|k: int| 0 <= k < r@.len() ==> #[trigger] r@[k] < h@.len(),
{
    let n: usize = h.len();
    let mut out: Vec<usize> = Vec::new();
    let mut j: usize = i;
    assert(places(out@) + items(h@, i as int) =~= items(h@, i as int));
    loop
        invariant
            i <= j <= n,
            n == h@.len(),
            items(h@, i as int) == places(out@) + items(h@, j as int),
            forall|k: int| 0 <= k < out@.len() ==> #[trigger] out@[k] < h@.len(),
        decreases n - j,
    {
        let ghost before = places(out@);
        let item: usize = skip_space(h, j);
        if item >= n || h[item] == ARRAY_END {
            assert(before + items(h@, j as int) =~= before);
            return out;
        }
        out.push(item);
        assert(places(out@) =~= before.push(item as int));
        let stop: usize = find_value_end(h, item);
        let next: usize = skip_space(h, stop);
        if next >= n || h[next] != COMMA {
            assert(before + items(h@, j as int) =~= places(out@));
            return out;
        }
        proof {
            assert(before + (seq![item as int] + items(h@, next + 1)) =~= places(out@) + items(
                h@,
                next + 1,
            ));
        }
        j = next + 1;
    }
}

/// Whether the number at `i` is above `limit`.
pub fn exceeds(h: &[u8], i: usize, limit: usize) -> (r: bool)
    requires
        i <= h@.len(),
    ensures
        r == (number(h@, i as int, 0) > limit),
{
    let mut j: usize = i;
    let mut so_far: usize = 0;
    while j < h.len() && 0x30 <= h[j] && h[j] <= 0x39
        invariant
            i <= j <= h@.len(),
            so_far <= limit,
            number(h@, i as int, 0) == number(h@, j as int, so_far as int),
        decreases h@.len() - j,
    {
        let d: usize = (h[j] - 0x30) as usize;
        proof {
            lemma_number_grows(h@, j + 1, 10 * so_far + d);
        }
        if d > limit || so_far > (limit - d) / 10 {
            return true;
        }
        so_far = 10 * so_far + d;
        j = j + 1;
    }
    false
}

} // verus!
