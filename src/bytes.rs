use vstd::prelude::*;
use vstd::slice::slice_subrange;

use crate::model::{lossy_string, utf8_lossy};

verus! {

pub const TAB: u8 = 9;
pub const LINE_FEED: u8 = 10;
pub const CARRIAGE_RETURN: u8 = 13;
pub const SPACE: u8 = 32;
pub const OPEN_PAREN: u8 = 40;
pub const CLOSE_PAREN: u8 = 41;
pub const COMMA: u8 = 44;
pub const COLON: u8 = 58;
pub const SEMICOLON: u8 = 59;
pub const EQUALS: u8 = 61;
pub const UNDERSCORE: u8 = 95;
pub const OPEN_BRACE: u8 = 123;
pub const CLOSE_BRACE: u8 = 125;

/// The ASCII characters with the Unicode White_Space property: space, tab,
/// line feed, vertical tab, form feed and carriage return.
pub open spec fn is_blank(b: u8) -> bool {
    b == 32u8 || (9u8 <= b && b <= 13u8)
}

/// The two-byte UTF-8 forms of White_Space characters: U+0085 and U+00A0.
pub open spec fn is_two_byte_space(a: u8, b: u8) -> bool {
    a == 0xC2u8 && (b == 0x85u8 || b == 0xA0u8)
}

/// The three-byte UTF-8 forms of White_Space characters: U+1680,
/// U+2000 to U+200A, U+2028, U+2029, U+202F, U+205F and U+3000.
pub open spec fn is_three_byte_space(a: u8, b: u8, c: u8) -> bool {
    (a == 0xE1u8 && b == 0x9Au8 && c == 0x80u8)
        || (a == 0xE2u8 && b == 0x80u8 && ((0x80u8 <= c && c <= 0x8Au8) || c == 0xA8u8 || c == 0xA9u8 || c == 0xAFu8))
        || (a == 0xE2u8 && b == 0x81u8 && c == 0x9Fu8)
        || (a == 0xE3u8 && b == 0x80u8 && c == 0x80u8)
}

/// The length of the encoded whitespace character that starts at `i`, or 0.
pub open spec fn space_len_at(s: Seq<u8>, i: int) -> int {
    if 0 <= i < s.len() && is_blank(s[i]) {
        1
    } else if 0 <= i && i + 2 <= s.len() && is_two_byte_space(s[i], s[i + 1]) {
        2
    } else if 0 <= i && i + 3 <= s.len() && is_three_byte_space(s[i], s[i + 1], s[i + 2]) {
        3
    } else {
        0
    }
}

/// The length of the encoded whitespace character that ends at `j` and
/// starts no lower than `lo`, or 0.
pub open spec fn space_len_before(s: Seq<u8>, j: int, lo: int) -> int {
    if 0 <= lo <= j - 1 && j <= s.len() && is_blank(s[j - 1]) {
        1
    } else if 0 <= lo <= j - 2 && j <= s.len() && is_two_byte_space(s[j - 2], s[j - 1]) {
        2
    } else if 0 <= lo <= j - 3 && j <= s.len() && is_three_byte_space(s[j - 3], s[j - 2], s[j - 1]) {
        3
    } else {
        0
    }
}

/// Where `s[i..]` starts once leading whitespace characters are dropped.
pub open spec fn trim_start(s: Seq<u8>, i: int) -> int
    decreases s.len() - i,
{
    if i >= s.len() {
        s.len() as int
    } else if space_len_at(s, i) > 0 {
        trim_start(s, i + space_len_at(s, i))
    } else {
        i
    }
}

/// Where `s[lo..j]` ends once trailing whitespace characters are dropped.
pub open spec fn trim_end(s: Seq<u8>, j: int, lo: int) -> int
    decreases j - lo,
{
    if j <= lo {
        lo
    } else if space_len_before(s, j, lo) > 0 {
        trim_end(s, j - space_len_before(s, j, lo), lo)
    } else {
        j
    }
}

/// `s` without the whitespace characters, in their UTF-8 forms, at either end.
pub open spec fn trim(s: Seq<u8>) -> Seq<u8> {
    let lo = trim_start(s, 0);
    s.subrange(lo, trim_end(s, s.len() as int, lo))
}

/// The text of `s` once trimmed.
pub open spec fn text(s: Seq<u8>) -> Seq<char> {
    utf8_lossy(trim(s))
}

/// The first index at or after `i` that holds `b`, or the length.
pub open spec fn find_byte(s: Seq<u8>, i: int, b: u8) -> int
    decreases s.len() - i,
{
    if i >= s.len() {
        s.len() as int
    } else if s[i] == b {
        i
    } else {
        find_byte(s, i + 1, b)
    }
}

/// The first index at or after `i` that holds no space, or the length.
pub open spec fn skip_spaces(s: Seq<u8>, i: int) -> int
    decreases s.len() - i,
{
    if i >= s.len() {
        s.len() as int
    } else if s[i] == 32u8 {
        skip_spaces(s, i + 1)
    } else {
        i
    }
}

/// `kw` stands at `i`, with at least one byte of `s` after it.
pub open spec fn keyword_at(s: Seq<u8>, i: int, kw: Seq<u8>) -> bool {
    0 <= i && i + kw.len() < s.len() && s.subrange(i, i + kw.len()) == kw
}

pub proof fn lemma_find_byte_bounds(s: Seq<u8>, i: int, b: u8)
    requires
        0 <= i,
    ensures
        i <= find_byte(s, i, b) || i > s.len(),
        find_byte(s, i, b) <= s.len(),
        find_byte(s, i, b) < s.len() ==> s[find_byte(s, i, b)] == b,
    decreases s.len() - i,
{
    if i < s.len() && s[i] != b {
        lemma_find_byte_bounds(s, i + 1, b);
    }
}

pub proof fn lemma_skip_spaces_bounds(s: Seq<u8>, i: int)
    requires
        0 <= i,
    ensures
        i <= skip_spaces(s, i) || i > s.len(),
        skip_spaces(s, i) <= s.len(),
        skip_spaces(s, i) < s.len() ==> s[skip_spaces(s, i)] != 32u8,
    decreases s.len() - i,
{
    if i < s.len() && s[i] == 32u8 {
        lemma_skip_spaces_bounds(s, i + 1);
    }
}

/// The bytes of `s` without the whitespace characters at either end.
pub fn trimmed(s: &[u8]) -> (r: &[u8])
    ensures
        r@ == trim(s@),
{
    let mut lo: usize = 0;
    loop
        invariant
            lo <= s@.len(),
            trim_start(s@, lo as int) == trim_start(s@, 0),
        ensures
            lo <= s@.len(),
            lo == trim_start(s@, 0),
        decreases s@.len() - lo,
    {
        if lo >= s.len() {
            break;
        }
        let k = space_len_from(s, lo);
        if k == 0 {
            break;
        }
        lo = lo + k;
    }
    let mut hi: usize = s.len();
    loop
        invariant
            lo <= hi <= s@.len(),
            trim_end(s@, hi as int, lo as int) == trim_end(s@, s@.len() as int, lo as int),
        ensures
            lo <= hi <= s@.len(),
            hi == trim_end(s@, s@.len() as int, lo as int),
        decreases hi - lo,
    {
        if hi <= lo {
            break;
        }
        let k = space_len_until(s, hi, lo);
        if k == 0 {
            break;
        }
        hi = hi - k;
    }
    slice_subrange(s, lo, hi)
}

/// The length of the encoded whitespace character that starts at `i`, or 0.
pub fn space_len_from(s: &[u8], i: usize) -> (r: usize)
    requires
        i < s@.len(),
    ensures
        r as int == space_len_at(s@, i as int),
{
    let n = s.len();
    if is_blank_byte(s[i]) {
        1
    } else if n - i >= 2 && s[i] == 0xC2u8 && (s[i + 1] == 0x85u8 || s[i + 1] == 0xA0u8) {
        2
    } else if n - i >= 3 && is_three_byte_space_exec(s[i], s[i + 1], s[i + 2]) {
        3
    } else {
        0
    }
}

/// The length of the encoded whitespace character that ends at `j` and
/// starts no lower than `lo`, or 0.
pub fn space_len_until(s: &[u8], j: usize, lo: usize) -> (r: usize)
    requires
        lo < j <= s@.len(),
    ensures
        r as int == space_len_before(s@, j as int, lo as int),
{
    if is_blank_byte(s[j - 1]) {
        1
    } else if j - lo >= 2 && s[j - 2] == 0xC2u8 && (s[j - 1] == 0x85u8 || s[j - 1] == 0xA0u8) {
        2
    } else if j - lo >= 3 && is_three_byte_space_exec(s[j - 3], s[j - 2], s[j - 1]) {
        3
    } else {
        0
    }
}

fn is_three_byte_space_exec(a: u8, b: u8, c: u8) -> (r: bool)
    ensures
        r == is_three_byte_space(a, b, c),
{
    (a == 0xE1u8 && b == 0x9Au8 && c == 0x80u8)
        || (a == 0xE2u8 && b == 0x80u8 && ((0x80u8 <= c && c <= 0x8Au8) || c == 0xA8u8 || c == 0xA9u8 || c == 0xAFu8))
        || (a == 0xE2u8 && b == 0x81u8 && c == 0x9Fu8)
        || (a == 0xE3u8 && b == 0x80u8 && c == 0x80u8)
}

pub fn is_blank_byte(b: u8) -> (r: bool)
    ensures
        r == is_blank(b),
{
    b == 32u8 || (9u8 <= b && b <= 13u8)
}

/// The text of the bytes `s[from..to]`, trimmed.
pub fn text_of(s: &[u8], from: usize, to: usize) -> (r: String)
    requires
        from <= to <= s@.len(),
    ensures
        r@ == text(s@.subrange(from as int, to as int)),
{
    lossy_string(trimmed(slice_subrange(s, from, to)))
}

/// Where `b` first stands in `s` at or after `i`, or the length.
pub fn find_byte_from(s: &[u8], i: usize, b: u8) -> (r: usize)
    requires
        i <= s@.len(),
    ensures
        r as int == find_byte(s@, i as int, b),
{
    let mut k: usize = i;
    while k < s.len() && s[k] != b
        invariant
            i <= k <= s@.len(),
            find_byte(s@, k as int, b) == find_byte(s@, i as int, b),
        decreases s@.len() - k,
    {
        k = k + 1;
    }
    k
}

/// The first index at or after `i` that holds no space, or the length.
pub fn skip_spaces_from(s: &[u8], i: usize) -> (r: usize)
    requires
        i <= s@.len(),
    ensures
        r as int == skip_spaces(s@, i as int),
{
    let mut k: usize = i;
    while k < s.len() && s[k] == 32u8
        invariant
            i <= k <= s@.len(),
            skip_spaces(s@, k as int) == skip_spaces(s@, i as int),
        decreases s@.len() - k,
    {
        k = k + 1;
    }
    k
}

/// Whether `kw` stands at `i` in `s` with a byte after it.
pub fn matches_at(s: &[u8], i: usize, kw: &[u8]) -> (r: bool)
    requires
        i <= s@.len(),
    ensures
        r == keyword_at(s@, i as int, kw@),
{
    if kw.len() >= s.len() - i {
        return false;
    }
    let mut j: usize = 0;
    while j < kw.len()
        invariant
            j <= kw@.len(),
            i + kw@.len() < s@.len() <= usize::MAX,
            forall|k: int| 0 <= k < j ==> s@[i + k] == kw@[k],
        decreases kw@.len() - j,
    {
        if s[i + j] != kw[j] {
            assert(s@.subrange(i as int, i + kw@.len())[j as int] != kw@[j as int]);
            return false;
        }
        j = j + 1;
    }
    assert(s@.subrange(i as int, i + kw@.len()) =~= kw@);
    true
}

} // verus!
