//! What is written in the header of a file is read back.
use vstd::prelude::*;
use crate::file_header;
use crate::json;
use crate::text;
use crate::text_laws;

verus! {

/// The bytes `s` stand in `h` from `i` on.
pub open spec fn stands(h: Seq<u8>, i: int, s: Seq<u8>) -> bool {
    &&& 0 <= i
    &&& i + s.len() <= h.len()
    &&& forall|k: int| 0 <= k < s.len() ==> h[i + k] == #[trigger] s[k]
}

/// The bytes are those of one code point: a leading byte, which tells how many there are, and the
/// bytes that continue it.
pub open spec fn is_encoded(b: Seq<u8>) -> bool {
    &&& 1 <= b.len() <= 4
    &&& b.len() == 1 ==> b[0] < 0x80
    &&& b.len() == 2 ==> 0xC0 <= b[0] < 0xE0
    &&& b.len() == 3 ==> 0xE0 <= b[0] < 0xF0
    &&& b.len() == 4 ==> 0xF0 <= b[0] < 0xF8
    &&& forall|k: int| 1 <= k < b.len() ==> 0x80 <= #[trigger] b[k] < 0xC0
}

/// The code point that the bytes stand for: six bits in each byte that continues, and the rest in
/// the leading one.
pub open spec fn code_of(b: Seq<u8>) -> int {
    if b.len() == 1 {
        b[0] as int
    } else if b.len() == 2 {
        0x40 * (b[0] - 0xC0) + (b[1] - 0x80)
    } else if b.len() == 3 {
        0x1000 * (b[0] - 0xE0) + 0x40 * (b[1] - 0x80) + (b[2] - 0x80)
    } else {
        0x4_0000 * (b[0] - 0xF0) + 0x1000 * (b[1] - 0x80) + 0x40 * (b[2] - 0x80) + (b[3] - 0x80)
    }
}

/// A code point is written in as few bytes as can hold it, and reads back as itself.
pub proof fn code_points_read_back(c: int)
    requires
        0 <= c < 0x11_0000,
    ensures
        is_encoded(json::utf8(c)),
        code_of(json::utf8(c)) == c,
        json::utf8(c).len() == 1 <==> c < 0x80,
        json::utf8(c).len() == 2 <==> 0x80 <= c < 0x800,
        json::utf8(c).len() == 3 <==> 0x800 <= c < 0x1_0000,
{
}

/// A byte as it is written in a string: quotes, backslashes and controls behind a backslash.
pub open spec fn written_byte(c: u8) -> Seq<u8> {
    if c == 0x22 || c == 0x5C {
        seq![0x5Cu8, c]
    } else if c == 0x08 {
        seq![0x5Cu8, 0x62]
    } else if c == 0x09 {
        seq![0x5Cu8, 0x74]
    } else if c == 0x0A {
        seq![0x5Cu8, 0x6E]
    } else if c == 0x0C {
        seq![0x5Cu8, 0x66]
    } else if c == 0x0D {
        seq![0x5Cu8, 0x72]
    } else {
        seq![c]
    }
}

/// Text as it is written between quotes.
pub open spec fn written(t: Seq<u8>) -> Seq<u8>
    decreases t.len(),
{
    if t.len() == 0 {
        seq![]
    } else {
        written_byte(t[0]) + written(t.drop_first())
    }
}

/// A string that is written between quotes reads back as itself, and ends with its closing quote.
pub proof fn strings_read_back(h: Seq<u8>, i: int, t: Seq<u8>)
    requires
        stands(h, i, written(t)),
        i + written(t).len() < h.len(),
        h[i + written(t).len()] == 0x22,
    ensures
        json::unescaped(h, i) == t,
        json::string_end(h, i) == i + written(t).len() + 1,
    decreases t.len(),
{
    let s = written(t);
    if t.len() > 0 {
        let b = written_byte(t[0]);
        let rest = written(t.drop_first());
        assert(s == b + rest);
        assert forall|k: int| 0 <= k < rest.len() implies h[i + b.len() + k] == #[trigger] rest[k] by {
            assert(s[b.len() + k] == rest[k]);
        }
        strings_read_back(h, i + b.len(), t.drop_first());
        assert(h[i + 0] == s[0] == b[0]);
        if b.len() == 2 {
            assert(h[i + 1] == s[1] == b[1]);
        }
        assert(json::unescaped(h, i) =~= seq![t[0]] + t.drop_first());
        assert(t =~= seq![t[0]] + t.drop_first());
    } else {
        assert(t =~= seq![]);
    }
}

/// The byte is the hexadecimal digit `d`, small or capital.
pub open spec fn is_hex(c: u8, d: int) -> bool {
    if d < 10 {
        c == 0x30 + d
    } else {
        c == 0x61 + (d - 10) || c == 0x41 + (d - 10)
    }
}

/// The number is written behind a backslash in four hexadecimal digits.
pub open spec fn stands_escaped(h: Seq<u8>, i: int, c: int) -> bool {
    &&& 0 <= i
    &&& i + 6 <= h.len()
    &&& h[i] == 0x5C
    &&& h[i + 1] == 0x75
    &&& is_hex(h[i + 2], c / 0x1000)
    &&& is_hex(h[i + 3], c / 0x100 % 0x10)
    &&& is_hex(h[i + 4], c / 0x10 % 0x10)
    &&& is_hex(h[i + 5], c % 0x10)
}

/// Four hexadecimal digits read back.
proof fn lemma_hex(h: Seq<u8>, i: int, c: int)
    requires
        0 <= c < 0x1_0000,
        stands_escaped(h, i, c),
    ensures
        json::hex4(h, i + 2) == c,
{
    let p = c / 0x10;
    let q = p / 0x10;
    let r = q / 0x10;
    assert(q == c / 0x100);
    assert(r == c / 0x1000);
    assert(0 <= r < 0x10);
    assert(json::hex_value(h[i + 2]) == r);
    assert(json::hex_value(h[i + 3]) == q % 0x10);
    assert(json::hex_value(h[i + 4]) == p % 0x10);
    assert(json::hex_value(h[i + 5]) == c % 0x10);
}

/// A code point that is written as a number reads back as its bytes; beyond sixteen bits it is
/// written as two numbers, the upper ten bits before the lower ten.
pub proof fn escapes_read_back(h: Seq<u8>, i: int, c: int)
    requires
        0 <= c < 0x11_0000,
        !(0xD800 <= c < 0xE000),
        c < 0x1_0000 ==> stands_escaped(h, i, c),
        c >= 0x1_0000 ==> stands_escaped(h, i, 0xD800 + (c - 0x1_0000) / 0x400) && stands_escaped(
            h,
            i + 6,
            0xDC00 + (c - 0x1_0000) % 0x400,
        ),
    ensures
        json::unescaped(h, i) == json::utf8(c) + json::unescaped(
            h,
            i + if c < 0x1_0000 {
                6int
            } else {
                12int
            },
        ),
{
    if c < 0x1_0000 {
        lemma_hex(h, i, c);
    } else {
        let upper = 0xD800 + (c - 0x1_0000) / 0x400;
        let lower = 0xDC00 + (c - 0x1_0000) % 0x400;
        assert(0xD800 <= upper < 0xDC00 <= lower < 0xE000);
        lemma_hex(h, i, upper);
        lemma_hex(h, i + 6, lower);
        assert(json::is_surrogate_pair(h, i));
        assert(0x1_0000 + 0x400 * (upper - 0xD800) + (lower - 0xDC00) == c);
    }
}

/// The number stands in `h` from `i` on in decimal digits, and no further digit behind it.
pub open spec fn stands_number(h: Seq<u8>, i: int, n: nat) -> bool {
    let s = text::decimal_text(n);
    &&& 0 <= i
    &&& i + s.len() <= h.len()
    &&& forall|k: int| 0 <= k < s.len() ==> h[i + k] as int == (#[trigger] s[k]) as int
    &&& i + s.len() < h.len() ==> !(0x30 <= h[i + s.len()] <= 0x39)
}

/// Reading on from the middle of a number.
proof fn lemma_number(h: Seq<u8>, i: int, n: nat, j: int)
    requires
        stands_number(h, i, n),
        0 <= j <= text::decimal_text(n).len(),
    ensures
        json::number(h, i + j, text_laws::value_of(text::decimal_text(n).take(j))) == n,
    decreases text::decimal_text(n).len() - j,
{
    let s = text::decimal_text(n);
    text_laws::numbers_read_back(n);
    if j < s.len() {
        lemma_number(h, i, n, j + 1);
        assert(h[i + j] as int == s[j] as int);
        let longer = s.take(j + 1);
        assert(longer.drop_last() =~= s.take(j));
        assert(longer.last() == s[j]);
    } else {
        assert(s.take(j) =~= s);
    }
}

/// A number reads back as itself.
pub proof fn numbers_read_back(h: Seq<u8>, i: int, n: nat)
    requires
        stands_number(h, i, n),
    ensures
        json::number(h, i, 0) == n,
{
    lemma_number(h, i, n, 0);
    assert(text::decimal_text(n).take(0) =~= seq![]);
}

/// A word of digits ends where the digits do.
proof fn lemma_word(h: Seq<u8>, i: int, n: nat, j: int)
    requires
        stands_number(h, i, n),
        i + text::decimal_text(n).len() < h.len(),
        json::is_delimiter(h[i + text::decimal_text(n).len()]),
        0 <= j <= text::decimal_text(n).len(),
    ensures
        json::word_end(h, i + j) == i + text::decimal_text(n).len(),
    decreases text::decimal_text(n).len() - j,
{
    let s = text::decimal_text(n);
    text_laws::numbers_read_back(n);
    if j < s.len() {
        assert(h[i + j] as int == s[j] as int);
        lemma_word(h, i, n, j + 1);
    }
}

/// Brackets are not closed by digits.
proof fn lemma_brackets(h: Seq<u8>, i: int, n: nat, j: int)
    requires
        stands_number(h, i, n),
        0 <= j <= text::decimal_text(n).len(),
    ensures
        json::brackets_end(h, i + j, 1, false) == json::brackets_end(
            h,
            i + text::decimal_text(n).len(),
            1,
            false,
        ),
    decreases text::decimal_text(n).len() - j,
{
    let s = text::decimal_text(n);
    text_laws::numbers_read_back(n);
    if j < s.len() {
        assert(h[i + j] as int == s[j] as int);
        lemma_brackets(h, i, n, j + 1);
    }
}

/// Two numbers stand in brackets from `i` on, a comma between them.
pub open spec fn stands_pair(h: Seq<u8>, i: int, m: nat, n: nat) -> bool {
    let comma = i + 1 + text::decimal_text(m).len();
    let end = comma + 1 + text::decimal_text(n).len();
    &&& 0 <= i
    &&& end < h.len()
    &&& h[i] == 0x5B
    &&& stands_number(h, i + 1, m)
    &&& h[comma] == 0x2C
    &&& stands_number(h, comma + 1, n)
    &&& h[end] == 0x5D
}

/// Two offsets are too large exactly if one of them is; their list ends with its bracket.
pub proof fn pairs_read_back(h: Seq<u8>, i: int, m: nat, n: nat, limit: int)
    requires
        stands_pair(h, i, m, n),
    ensures
        file_header::is_huge_list(h, i, limit) <==> m > limit || n > limit,
        json::value_end(h, i) == i + 3 + text::decimal_text(m).len() + text::decimal_text(n).len(),
{
    let s = text::decimal_text(m);
    let t = text::decimal_text(n);
    let comma = i + 1 + s.len();
    let end = comma + 1 + t.len();
    text_laws::numbers_read_back(m);
    text_laws::numbers_read_back(n);
    numbers_read_back(h, i + 1, m);
    numbers_read_back(h, comma + 1, n);
    assert(h[i + 1 + 0] as int == s[0] as int);
    assert(h[comma + 1 + 0] as int == t[0] as int);
    lemma_word(h, i + 1, m, 0);
    lemma_word(h, comma + 1, n, 0);
    let found = json::items(h, i + 1);
    reveal_with_fuel(json::items, 3);
    reveal_with_fuel(json::after_space, 2);
    assert(json::value_end(h, i + 1) == comma);
    assert(json::value_end(h, comma + 1) == end);
    assert(json::items(h, comma + 1) =~= seq![comma + 1]);
    assert(found =~= seq![i + 1, comma + 1]);
    if m > limit {
        assert(json::number(h, found[0], 0) > limit);
    }
    if n > limit {
        assert(json::number(h, found[1], 0) > limit);
    }
    lemma_brackets(h, i + 1, m, 0);
    assert(json::brackets_end(h, comma, 1, false) == json::brackets_end(h, comma + 1, 1, false));
    lemma_brackets(h, comma + 1, n, 0);
}

/// The member of an object that holds two numbers is found under its name, and the members behind
/// its comma follow it.
pub proof fn members_read_back(h: Seq<u8>, i: int, name: Seq<u8>, m: nat, n: nat)
    requires
        0 <= i < h.len(),
        h[i] == 0x22,
        stands(h, i + 1, written(name)),
        i + written(name).len() + 2 < h.len(),
        h[i + 1 + written(name).len()] == 0x22,
        h[i + 2 + written(name).len()] == 0x3A,
        stands_pair(h, i + 3 + written(name).len(), m, n),
    ensures
        ({
            let value = i + 3 + written(name).len();
            let next = value + 3 + text::decimal_text(m).len() + text::decimal_text(n).len();
            let found = json::members(h, i);
            &&& found.len() > 0
            &&& found[0] == (name, value)
            &&& next < h.len() && h[next] == 0x2C ==> found.skip(1) == json::members(h, next + 1)
            &&& next < h.len() && h[next] == 0x7D ==> found.len() == 1
        }),
{
    let value = i + 3 + written(name).len();
    let next = value + 3 + text::decimal_text(m).len() + text::decimal_text(n).len();
    strings_read_back(h, i + 1, name);
    pairs_read_back(h, value, m, n, 0);
    let found = json::members(h, i);
    assert(json::after_space(h, i) == i);
    assert(json::after_space(h, value - 1) == value - 1);
    assert(json::after_space(h, value) == value);
    if next < h.len() && h[next] == 0x2C {
        assert(json::after_space(h, next) == next);
        assert(found =~= seq![(name, value)] + json::members(h, next + 1));
        assert(found.skip(1) =~= json::members(h, next + 1));
    }
    if next < h.len() && h[next] == 0x7D {
        assert(json::after_space(h, next) == next);
    }
}

/// The length of the header stands in eight bytes, the lowest first.
pub proof fn lengths_read_back(bytes: Seq<u8>, n: int)
    requires
        bytes.len() >= 8,
        0 <= n < 0x1_0000_0000_0000_0000,
        bytes[0] == n % 0x100,
        bytes[1] == n / 0x100 % 0x100,
        bytes[2] == n / 0x1_0000 % 0x100,
        bytes[3] == n / 0x100_0000 % 0x100,
        bytes[4] == n / 0x1_0000_0000 % 0x100,
        bytes[5] == n / 0x100_0000_0000 % 0x100,
        bytes[6] == n / 0x1_0000_0000_0000 % 0x100,
        bytes[7] == n / 0x100_0000_0000_0000 % 0x100,
    ensures
        file_header::header_len(bytes) == n,
{
    let b = n / 0x100;
    let c = b / 0x100;
    let d = c / 0x100;
    let e = d / 0x100;
    let f = e / 0x100;
    let g = f / 0x100;
    let k = g / 0x100;
    assert(c == n / 0x1_0000);
    assert(d == n / 0x100_0000);
    assert(e == n / 0x1_0000_0000);
    assert(f == n / 0x100_0000_0000);
    assert(g == n / 0x1_0000_0000_0000);
    assert(k == n / 0x100_0000_0000_0000);
    assert(0 <= k < 0x100);
    assert(bytes[0] == n % 0x100 && bytes[1] == b % 0x100 && bytes[2] == c % 0x100);
    assert(bytes[3] == d % 0x100 && bytes[4] == e % 0x100 && bytes[5] == f % 0x100);
    assert(bytes[6] == g % 0x100 && bytes[7] == k);
}

} // verus!
