//! Byte-level text utilities shared by the comment scanners.
//!
//! All text is handled as UTF-8 encoded bytes. Whitespace follows the Unicode
//! `White_Space` property (the definition used by `char::is_whitespace`,
//! `str::trim` and friends), recognised directly on the UTF-8 encoding.
use vstd::prelude::*;
use vstd::utf8::*;

verus! {

/// Texts handled by the scanners stay clear of the top of the address range, so that
/// offsets a few bytes past a position never overflow.
pub open spec fn max_text_len() -> int {
    usize::MAX - 16
}

/// `tok` occurs in `text` starting at byte `pos`.
pub open spec fn starts_at(text: Seq<u8>, pos: int, tok: Seq<u8>) -> bool {
    &&& 0 <= pos
    &&& pos + tok.len() <= text.len()
    &&& text.subrange(pos, pos + tok.len()) == tok
}

/// Returns whether `tok` occurs in `text` at byte `pos`.
pub fn starts_with_at(text: &[u8], pos: usize, tok: &[u8]) -> (r: bool)
    ensures
        r == starts_at(text@, pos as int, tok@),
{
    if pos > text.len() || tok.len() > text.len() - pos {
        return false;
    }
    let n = text.len();
    let mut k: usize = 0;
    while k < tok.len()
        invariant
            n == text@.len(),
            pos + tok@.len() <= n,
            k <= tok@.len(),
            forall|j: int| 0 <= j < k ==> text@[pos + j] == tok@[j],
        decreases tok@.len() - k,
    {
        if text[pos + k] != tok[k] {
            assert(text@.subrange(pos as int, pos + tok@.len())[k as int] != tok@[k as int]);
            return false;
        }
        k = k + 1;
    }
    assert(text@.subrange(pos as int, pos + tok@.len()) =~= tok@);
    true
}

/// The first byte offset at or after `i` where `tok` occurs in `text`, if any.
pub open spec fn find_from(text: Seq<u8>, tok: Seq<u8>, i: int) -> Option<int>
    decreases text.len() + 1 - i,
{
    if i < 0 || i + tok.len() > text.len() {
        None
    } else if starts_at(text, i, tok) {
        Some(i)
    } else {
        find_from(text, tok, i + 1)
    }
}

pub proof fn lemma_find_from(text: Seq<u8>, tok: Seq<u8>, i: int)
    ensures
        find_from(text, tok, i) matches Some(k) ==> i <= k && starts_at(text, k, tok),
    decreases text.len() + 1 - i,
{
    if i < 0 || i + tok.len() > text.len() {
    } else if starts_at(text, i, tok) {
    } else {
        lemma_find_from(text, tok, i + 1);
    }
}

/// Finds the first occurrence of `tok` in `text` at or after `from`.
pub fn find_bytes(text: &[u8], tok: &[u8], from: usize) -> (r: Option<usize>)
    ensures
        r matches Some(i) ==> find_from(text@, tok@, from as int) == Some(i as int),
        r is None ==> find_from(text@, tok@, from as int) is None,
{
    if tok.len() == 0 {
        if from <= text.len() {
            assert(starts_at(text@, from as int, tok@)) by {
                assert(text@.subrange(from as int, from as int) =~= tok@);
            }
            return Some(from);
        }
        return None;
    }
    let mut i = from;
    while i <= text.len() && tok.len() <= text.len() - i
        invariant
            from <= i,
            tok@.len() > 0,
            find_from(text@, tok@, from as int) == find_from(text@, tok@, i as int),
        decreases text@.len() + 1 - i,
    {
        if starts_with_at(text, i, tok) {
            return Some(i);
        }
        i = i + 1;
    }
    None
}

/// Byte length of the whitespace character encoded at offset `i`, or 0.
pub open spec fn ws_len_at(b: Seq<u8>, i: int) -> int {
    if 0 <= i < b.len() {
        let c = b[i];
        if c == 0x09 || c == 0x0a || c == 0x0b || c == 0x0c || c == 0x0d || c == 0x20 {
            1
        } else if c == 0xc2 && i + 1 < b.len() && (b[i + 1] == 0x85 || b[i + 1] == 0xa0) {
            2
        } else if c == 0xe1 && i + 2 < b.len() && b[i + 1] == 0x9a && b[i + 2] == 0x80 {
            3
        } else if c == 0xe2 && i + 2 < b.len() && ((b[i + 1] == 0x80 && ((0x80 <= b[i + 2]
            && b[i + 2] <= 0x8a) || b[i + 2] == 0xa8 || b[i + 2] == 0xa9 || b[i + 2] == 0xaf))
            || (b[i + 1] == 0x81 && b[i + 2] == 0x9f)) {
            3
        } else if c == 0xe3 && i + 2 < b.len() && b[i + 1] == 0x80 && b[i + 2] == 0x80 {
            3
        } else {
            0
        }
    } else {
        0
    }
}

/// Byte length of the whitespace character encoded at `b[i]`, 0 if none starts there.
pub fn ws_len(b: &[u8], i: usize) -> (r: usize)
    ensures
        r == ws_len_at(b@, i as int),
        r <= 3,
{
    if i >= b.len() {
        return 0;
    }
    let c = b[i];
    if c == 0x09 || c == 0x0a || c == 0x0b || c == 0x0c || c == 0x0d || c == 0x20 {
        1
    } else if c == 0xc2 && b.len() - i > 1 && (b[i + 1] == 0x85 || b[i + 1] == 0xa0) {
        2
    } else if c == 0xe1 && b.len() - i > 2 && b[i + 1] == 0x9a && b[i + 2] == 0x80 {
        3
    } else if c == 0xe2 && b.len() - i > 2 && ((b[i + 1] == 0x80 && ((0x80 <= b[i + 2] && b[i
        + 2] <= 0x8a) || b[i + 2] == 0xa8 || b[i + 2] == 0xa9 || b[i + 2] == 0xaf)) || (b[i
        + 1] == 0x81 && b[i + 2] == 0x9f)) {
        3
    } else if c == 0xe3 && b.len() - i > 2 && b[i + 1] == 0x80 && b[i + 2] == 0x80 {
        3
    } else {
        0
    }
}

/// Byte length of the whitespace character that ends just before offset `j`, or 0.
pub open spec fn ws_len_before(b: Seq<u8>, j: int) -> int {
    if j >= 1 && ws_len_at(b, j - 1) == 1 {
        1
    } else if j >= 2 && ws_len_at(b, j - 2) == 2 {
        2
    } else if j >= 3 && ws_len_at(b, j - 3) == 3 {
        3
    } else {
        0
    }
}

/// The offset of the first non-whitespace character at or after `i`.
pub open spec fn skip_ws(b: Seq<u8>, i: int) -> int
    decreases b.len() - i,
{
    if 0 <= i < b.len() && ws_len_at(b, i) > 0 {
        skip_ws(b, i + ws_len_at(b, i))
    } else {
        i
    }
}

/// The offset just after the last non-whitespace character before `j` (never below `lo`).
pub open spec fn skip_ws_back(b: Seq<u8>, lo: int, j: int) -> int
    decreases j - lo,
{
    if j > lo && ws_len_before(b, j) > 0 && j - ws_len_before(b, j) >= lo {
        skip_ws_back(b, lo, j - ws_len_before(b, j))
    } else {
        j
    }
}

/// `str::trim_start` on the encoded string `b`.
pub open spec fn trim_start(b: Seq<u8>) -> Seq<u8> {
    b.subrange(skip_ws(b, 0), b.len() as int)
}

/// `str::trim_end` on the encoded string `b`.
pub open spec fn trim_end(b: Seq<u8>) -> Seq<u8> {
    b.subrange(0, skip_ws_back(b, 0, b.len() as int))
}

/// `str::trim` on the encoded string `b`.
pub open spec fn trim(b: Seq<u8>) -> Seq<u8> {
    trim_end(trim_start(b))
}

pub proof fn lemma_skip_ws_bounds(b: Seq<u8>, i: int)
    requires
        0 <= i <= b.len(),
    ensures
        i <= skip_ws(b, i) <= b.len(),
    decreases b.len() - i,
{
    if 0 <= i < b.len() && ws_len_at(b, i) > 0 {
        lemma_skip_ws_bounds(b, i + ws_len_at(b, i));
    }
}

pub proof fn lemma_skip_ws_back_bounds(b: Seq<u8>, lo: int, j: int)
    requires
        0 <= lo <= j <= b.len(),
    ensures
        lo <= skip_ws_back(b, lo, j) <= j,
    decreases j - lo,
{
    if j > lo && ws_len_before(b, j) > 0 && j - ws_len_before(b, j) >= lo {
        lemma_skip_ws_back_bounds(b, lo, j - ws_len_before(b, j));
    }
}

/// Offset of the first non-whitespace character of `b` (`b.len()` if there is none).
pub fn leading_ws_len(b: &[u8]) -> (r: usize)
    ensures
        r == skip_ws(b@, 0),
        r <= b@.len(),
{
    let mut i: usize = 0;
    proof {
        lemma_skip_ws_bounds(b@, 0);
    }
    while i < b.len()
        invariant
            i <= b@.len(),
            skip_ws(b@, 0) == skip_ws(b@, i as int),
        decreases b@.len() - i,
    {
        let w = ws_len(b, i);
        if w == 0 {
            return i;
        }
        i = i + w;
    }
    i
}

/// Offset just after the last non-whitespace character of `b` (0 if there is none).
pub fn trimmed_end(b: &[u8]) -> (r: usize)
    ensures
        r == skip_ws_back(b@, 0, b@.len() as int),
        r <= b@.len(),
{
    let mut j: usize = b.len();
    proof {
        lemma_skip_ws_back_bounds(b@, 0, b@.len() as int);
    }
    while j > 0
        invariant
            j <= b@.len(),
            skip_ws_back(b@, 0, b@.len() as int) == skip_ws_back(b@, 0, j as int),
        decreases j,
    {
        let w = if j >= 1 && ws_len(b, j - 1) == 1 {
            1
        } else if j >= 2 && ws_len(b, j - 2) == 2 {
            2
        } else if j >= 3 && ws_len(b, j - 3) == 3 {
            3
        } else {
            0
        };
        assert(w == ws_len_before(b@, j as int));
        if w == 0 {
            return j;
        }
        j = j - w;
    }
    j
}

/// Returns the bounds `(start, end)` of `str::trim` applied to `b`.
pub fn trim_bounds(b: &[u8]) -> (r: (usize, usize))
    ensures
        r.0 <= r.1 <= b@.len(),
        b@.subrange(r.0 as int, r.1 as int) == trim(b@),
{
    let s = leading_ws_len(b);
    let rest = &b[s..b.len()];
    let e = trimmed_end(rest);
    assert(rest@ == trim_start(b@));
    assert(b@.subrange(s as int, s + e) =~= rest@.subrange(0, e as int));
    (s, s + e)
}

/// `text[i] == c` (with `i` in bounds), i.e. `text.get(i) == Some(&c)`.
pub open spec fn byte_at(text: Seq<u8>, i: int, c: u8) -> bool {
    0 <= i < text.len() && text[i] == c
}

/// Returns `text.get(i) == Some(&c)`.
pub fn is_byte_at(text: &[u8], i: usize, c: u8) -> (r: bool)
    ensures
        r == byte_at(text@, i as int, c),
{
    i < text.len() && text[i] == c
}

/// The first position at or after `i` holding byte `c`, or the end of the text.
pub open spec fn find_byte(text: Seq<u8>, c: u8, i: int) -> int
    decreases text.len() - i,
{
    if 0 <= i < text.len() && text[i] != c {
        find_byte(text, c, i + 1)
    } else {
        i
    }
}

pub proof fn lemma_find_byte(text: Seq<u8>, c: u8, i: int)
    requires
        0 <= i <= text.len(),
    ensures
        i <= find_byte(text, c, i) <= text.len(),
        find_byte(text, c, i) < text.len() ==> text[find_byte(text, c, i)] == c,
        forall|k: int| i <= k < find_byte(text, c, i) ==> text[k] != c,
    decreases text.len() - i,
{
    if 0 <= i < text.len() && text[i] != c {
        lemma_find_byte(text, c, i + 1);
    }
}

/// Returns the first position at or after `i` holding `c`, or `text.len()`.
pub fn find_byte_from(text: &[u8], c: u8, i: usize) -> (r: usize)
    requires
        i <= text@.len(),
    ensures
        r == find_byte(text@, c, i as int),
        i <= r <= text@.len(),
{
    proof {
        lemma_find_byte(text@, c, i as int);
    }
    let mut e = i;
    while e < text.len() && text[e] != c
        invariant
            i <= e <= text@.len(),
            find_byte(text@, c, i as int) == find_byte(text@, c, e as int),
        decreases text@.len() - e,
    {
        e = e + 1;
    }
    e
}

/// Appends `src` to the end of `dst`.
pub fn push_bytes(dst: &mut Vec<u8>, src: &[u8])
    ensures
        final(dst)@ == old(dst)@ + src@,
{
    let mut k: usize = 0;
    while k < src.len()
        invariant
            k <= src@.len(),
            dst@ == old(dst)@ + src@.subrange(0, k as int),
        decreases src@.len() - k,
    {
        dst.push(src[k]);
        k = k + 1;
        assert(src@.subrange(0, k as int) =~= src@.subrange(0, k - 1) + seq![src@[k - 1]]);
    }
    assert(src@.subrange(0, src@.len() as int) =~= src@);
}

/// Returns whether `bytes` is valid UTF-8 (`std::str::from_utf8` succeeds on it).
#[verifier::external_body]
pub(crate) fn is_valid_utf8(bytes: &[u8]) -> (r: bool)
    ensures
        r == valid_utf8(bytes@),
{
    std::str::from_utf8(bytes).is_ok()
}

/// The string whose UTF-8 encoding is `bytes` (empty when `bytes` is not valid UTF-8).
pub open spec fn string_of(bytes: Seq<u8>) -> Seq<char> {
    if valid_utf8(bytes) {
        decode_utf8(bytes)
    } else {
        Seq::empty()
    }
}

/// Calls `String::from_utf8`: the string whose UTF-8 encoding is `bytes`, where the
/// bytes are valid UTF-8.
#[verifier::external_body]
fn utf8_to_string(bytes: Vec<u8>) -> (r: Option<String>)
    ensures
        match r {
            Some(s) => valid_utf8(bytes@) && s@ == decode_utf8(bytes@),
            None => !valid_utf8(bytes@),
        },
{
    String::from_utf8(bytes).ok()
}

/// The string whose UTF-8 encoding is `bytes`; an empty string when the bytes are not
/// valid UTF-8 (see [`string_of`]).
pub(crate) fn string_from_utf8(bytes: Vec<u8>) -> (r: String)
    ensures
        r@ == string_of(bytes@),
{
    match utf8_to_string(bytes) {
        Some(s) => s,
        None => String::new(),
    }
}

/// Whether `char::is_alphanumeric` holds of `c` (Unicode `Alphabetic` or `Numeric`).
pub uninterp spec fn unicode_alphanumeric(c: char) -> bool;

/// Calls `char::is_alphanumeric` (`is_alphabetic() || is_numeric()`). On ASCII it holds
/// exactly of the letters and digits: they are the only ASCII characters with the
/// Unicode `Alphabetic` property or a numeric general category.
#[verifier::external_body]
pub(crate) fn char_is_alphanumeric(c: char) -> (r: bool)
    ensures
        r == unicode_alphanumeric(c),
        c <= '\x7f' ==> r == ('a' <= c <= 'z' || 'A' <= c <= 'Z' || '0' <= c <= '9'),
{
    c.is_alphanumeric()
}

/// The characters of `s`, collected from `str::chars`.
#[verifier::external_body]
pub(crate) fn chars_of(s: &str) -> (r: Vec<char>)
    ensures
        r@ == s@,
{
    s.chars().collect()
}

/// The string of the characters `cs`, collected into a `String`.
#[verifier::external_body]
pub(crate) fn string_of_chars(cs: &[char]) -> (r: String)
    ensures
        r@ == cs@,
{
    cs.iter().collect()
}

/// `s` as `format!("{:?}", s)` shows it: quoted, with quotes, backslashes and control
/// characters escaped.
pub uninterp spec fn debug_quoted(s: Seq<char>) -> Seq<char>;

/// Formats `s` with `Debug` (`format!("{:?}", s)`).
#[verifier::external_body]
pub(crate) fn quote_debug(s: &str) -> (r: String)
    ensures
        r@ == debug_quoted(s@),
{
    format!("{:?}", s)
}

/// Returns whether `a` and `b` are the same string.
pub fn str_eq(a: &str, b: &str) -> (r: bool)
    ensures
        r == (a@ == b@),
{
    let x = a.as_bytes();
    let y = b.as_bytes();
    proof {
        encode_utf8_decode_utf8(a@);
        encode_utf8_decode_utf8(b@);
    }
    if x.len() != y.len() {
        return false;
    }
    let r = starts_with_at(x, 0, y);
    assert(x@.subrange(0, y@.len() as int) =~= x@);
    r
}

} // verus!
