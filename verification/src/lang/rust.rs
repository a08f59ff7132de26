//! Rust comment syntax.
use vstd::prelude::*;
use vstd::string::StringSliceAdditionalSpecFns;
use crate::text::{byte_at, find_byte, find_byte_from, is_byte_at, lemma_find_byte, max_text_len};
use super::{Comment, CustomRule, SyntaxRule, rules_wf};

verus! {

/// The rule sequence of Rust.
pub open spec fn syntax_rule_seq() -> Seq<SyntaxRule> {
    seq![
        SyntaxRule::LineComment("//!"),
        SyntaxRule::LineComment("///"),
        SyntaxRule::LineComment("//"),
        SyntaxRule::BlockComment("/*", "*/"),
        SyntaxRule::Custom(CustomRule::RustRawString),
        SyntaxRule::Custom(CustomRule::RustCharLiteral),
        SyntaxRule::SkipDelimitedWithEscape("\"", "\"", 92u8),
    ]
}

/// The syntax rules of Rust.
pub fn syntax_rules() -> (r: Vec<SyntaxRule>)
    ensures
        rules_wf(r@),
        r@ == syntax_rule_seq(),
{
    proof {
        reveal_strlit("//!");
        reveal_strlit("///");
        reveal_strlit("//");
        reveal_strlit("/*");
        reveal_strlit("\"");
    }
    let r = vec![
        SyntaxRule::LineComment("//!"),
        SyntaxRule::LineComment("///"),
        SyntaxRule::LineComment("//"),
        SyntaxRule::BlockComment("/*", "*/"),
        SyntaxRule::Custom(CustomRule::RustRawString),
        SyntaxRule::Custom(CustomRule::RustCharLiteral),
        SyntaxRule::SkipDelimitedWithEscape("\"", "\"", 92u8),
    ];
    r
}

/// Number of consecutive `#` bytes starting at `i`.
pub open spec fn count_hashes(text: Seq<u8>, i: int) -> int
    decreases text.len() - i,
{
    if 0 <= i < text.len() && text[i] == 35u8 {
        1 + count_hashes(text, i + 1)
    } else {
        0
    }
}

/// End position and newline count of a raw string body starting at `p`, closed by `"`
/// followed by `h` hashes.
pub open spec fn raw_close(text: Seq<u8>, h: int, p: int, lines: int) -> (int, int)
    decreases text.len() - p,
{
    if 0 <= p < text.len() {
        if text[p] == 34u8 && p + 1 + h <= text.len() && (forall|k: int|
            p + 1 <= k < p + 1 + h ==> text[k] == 35u8) {
            (p + 1 + h, lines)
        } else {
            raw_close(text, h, p + 1, lines + super::nl(text[p]))
        }
    } else {
        (p, lines)
    }
}

/// What [`skip_raw_string`] skips at `pos`: `(bytes, newlines)`.
pub open spec fn raw_string_spec(text: Seq<u8>, pos: int) -> Option<(int, int)> {
    if !byte_at(text, pos, 114u8) {
        None
    } else {
        let h = count_hashes(text, pos + 1);
        if !byte_at(text, pos + 1 + h, 34u8) {
            None
        } else {
            let (e, l) = raw_close(text, h, pos + 2 + h, 0);
            Some((e - pos, l))
        }
    }
}

proof fn lemma_count_hashes(text: Seq<u8>, i: int)
    requires
        0 <= i <= text.len(),
    ensures
        0 <= count_hashes(text, i) <= text.len() - i,
        forall|k: int| i <= k < i + count_hashes(text, i) ==> text[k] == 35u8,
        i + count_hashes(text, i) < text.len() ==> text[i + count_hashes(text, i)] != 35u8,
    decreases text.len() - i,
{
    if 0 <= i < text.len() && text[i] == 35u8 {
        lemma_count_hashes(text, i + 1);
    }
}

proof fn lemma_raw_close(text: Seq<u8>, h: int, p: int, lines: int)
    requires
        0 <= p <= text.len(),
        0 <= h,
        0 <= lines,
    ensures
        p <= raw_close(text, h, p, lines).0 <= text.len(),
        lines <= raw_close(text, h, p, lines).1,
        raw_close(text, h, p, lines).1 - lines <= raw_close(text, h, p, lines).0 - p,
    decreases text.len() - p,
{
    if 0 <= p < text.len() {
        if text[p] == 34u8 && p + 1 + h <= text.len() && (forall|k: int|
            p + 1 <= k < p + 1 + h ==> text[k] == 35u8) {
        } else {
            lemma_raw_close(text, h, p + 1, lines + super::nl(text[p]));
        }
    }
}

pub proof fn lemma_raw_string_bounds(text: Seq<u8>, pos: int)
    requires
        0 <= pos < text.len(),
    ensures
        raw_string_spec(text, pos) matches Some((c, l)) ==> 0 < c && pos + c <= text.len() && 0
            <= l <= c,
{
    if byte_at(text, pos, 114u8) {
        lemma_count_hashes(text, pos + 1);
        let h = count_hashes(text, pos + 1);
        if byte_at(text, pos + 1 + h, 34u8) {
            lemma_raw_close(text, h, pos + 2 + h, 0);
        }
    }
}

/// Skips Rust raw strings (`r"..."`, `r#"..."#`, `r##"..."##`, ...) with any
/// number of `#` delimiters, including `b`/`br`-prefixed byte string variants.
pub fn skip_raw_string<'a>(current_byte: u8, text: &'a [u8], position: usize) -> (r: Option<
    (usize, usize, Option<Comment<'a>>),
>)
    requires
        position < text@.len(),
        current_byte == text@[position as int],
        text@.len() <= max_text_len(),
    ensures
        r matches Some((c, l, cm)) ==> raw_string_spec(text@, position as int) == Some(
            (c as int, l as int),
        ) && cm is None,
        r is None ==> raw_string_spec(text@, position as int) is None,
{
    if current_byte != 114u8 {
        return None;
    }
    proof {
        lemma_count_hashes(text@, position + 1);
    }
    let mut hashes: usize = 0;
    while position + 1 + hashes < text.len() && text[position + 1 + hashes] == 35u8
        invariant
            position < text@.len(),
            text@.len() <= max_text_len(),
            position + 1 + hashes <= text@.len(),
            count_hashes(text@, position + 1) == hashes + count_hashes(
                text@,
                position + 1 + hashes,
            ),
        decreases text@.len() - hashes,
    {
        hashes = hashes + 1;
    }
    if !is_byte_at(text, position + 1 + hashes, 34u8) {
        return None;
    }
    let len = text.len();
    let mut pos = position + 2 + hashes;
    let mut lines: usize = 0;
    proof {
        lemma_raw_close(text@, hashes as int, pos as int, 0);
    }
    while pos < len
        invariant
            len == text@.len(),
            text@.len() <= max_text_len(),
            position + 2 + hashes <= pos <= len,
            raw_string_spec(text@, position as int) == Some(
                (
                    raw_close(text@, hashes as int, position + 2 + hashes, 0).0 - position,
                    raw_close(text@, hashes as int, position + 2 + hashes, 0).1,
                ),
            ),
            lines <= pos - (position + 2 + hashes),
            raw_close(text@, hashes as int, position + 2 + hashes, 0) == raw_close(
                text@,
                hashes as int,
                pos as int,
                lines as int,
            ),
        decreases len - pos,
    {
        if text[pos] == 34u8 && hashes <= len - pos - 1 {
            let mut k: usize = 0;
            let mut all = true;
            while k < hashes
                invariant
                    pos + 1 + hashes <= len,
                    len == text@.len(),
                    k <= hashes,
                    all == (forall|m: int| pos + 1 <= m < pos + 1 + k ==> text@[m] == 35u8),
                decreases hashes - k,
            {
                if text[pos + 1 + k] != 35u8 {
                    all = false;
                }
                k = k + 1;
            }
            if all {
                return Some((pos + 1 + hashes - position, lines, None));
            }
        }
        if text[pos] == 10u8 {
            lines = lines + 1;
        }
        pos = pos + 1;
    }
    Some((pos - position, lines, None))
}

/// What [`skip_char_literal`] skips at `pos`: `(bytes, newlines)`.
pub open spec fn char_literal_spec(text: Seq<u8>, pos: int) -> Option<(int, int)> {
    if !byte_at(text, pos, 39u8) {
        None
    } else if byte_at(text, pos + 1, 92u8) {
        if byte_at(text, pos + 2, 117u8) && byte_at(text, pos + 3, 123u8) {
            let end = find_byte(text, 125u8, pos + 4);
            if byte_at(text, end + 1, 39u8) {
                Some((end + 2 - pos, 0))
            } else {
                None
            }
        } else if byte_at(text, pos + 2, 120u8) && byte_at(text, pos + 5, 39u8) {
            Some((6, 0))
        } else if byte_at(text, pos + 3, 39u8) {
            Some((4, 0))
        } else {
            None
        }
    } else if !byte_at(text, pos + 1, 39u8) && byte_at(text, pos + 2, 39u8) {
        Some((3, 0))
    } else {
        None
    }
}

pub proof fn lemma_char_literal_bounds(text: Seq<u8>, pos: int)
    requires
        0 <= pos < text.len(),
    ensures
        char_literal_spec(text, pos) matches Some((c, l)) ==> 0 < c && pos + c <= text.len() && 0
            <= l <= c,
{
    if byte_at(text, pos, 39u8) && byte_at(text, pos + 1, 92u8) && byte_at(text, pos + 2, 117u8)
        && byte_at(text, pos + 3, 123u8) {
        lemma_find_byte(text, 125u8, pos + 4);
    }
}

/// Skips Rust character literals, e.g. `'a'`, `'"'`, `'\''`, `'\n'`,
/// `'\x41'`, `'\u{1F600}'` (and `b'...'` byte literals, since the `b` prefix
/// is just an ordinary byte that this rule doesn't need to see).
///
/// Without this, a lone `'"'` or `'\''` would be mistaken for a string
/// delimiter, desyncing the rest of the parse.
pub fn skip_char_literal<'a>(current_byte: u8, text: &'a [u8], position: usize) -> (r: Option<
    (usize, usize, Option<Comment<'a>>),
>)
    requires
        position < text@.len(),
        current_byte == text@[position as int],
        text@.len() <= max_text_len(),
    ensures
        r matches Some((c, l, cm)) ==> char_literal_spec(text@, position as int) == Some(
            (c as int, l as int),
        ) && cm is None,
        r is None ==> char_literal_spec(text@, position as int) is None,
{
    if current_byte != 39u8 {
        return None;
    }
    if is_byte_at(text, position + 1, 92u8) {
        // Unicode escape: '\u{XXXX}'
        if is_byte_at(text, position + 2, 117u8) && is_byte_at(text, position + 3, 123u8) {
            let end = find_byte_from(text, 125u8, position + 4);
            return if is_byte_at(text, end + 1, 39u8) {
                Some((end + 2 - position, 0, None))
            } else {
                None
            };
        }
        // Hex byte escape: '\xNN'
        if is_byte_at(text, position + 2, 120u8) && is_byte_at(text, position + 5, 39u8) {
            return Some((6, 0, None));
        }
        // Single-character escape: '\n', '\t', '\\', '\'', '\0', ...
        if is_byte_at(text, position + 3, 39u8) {
            return Some((4, 0, None));
        }
        return None;
    }
    // Unescaped single byte, e.g. 'a', '"'. The next byte must not be `'` so that
    // lifetimes like 'a in `&'a [u8]` aren't mistaken for a literal.
    if !is_byte_at(text, position + 1, 39u8) && is_byte_at(text, position + 2, 39u8) {
        Some((3, 0, None))
    } else {
        None
    }
}

} // verus!
