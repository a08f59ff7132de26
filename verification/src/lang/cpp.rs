//! C++ comment syntax.
use vstd::prelude::*;
use vstd::string::StringSliceAdditionalSpecFns;
use crate::text::{byte_at, max_text_len, push_bytes, starts_at, starts_with_at};
use super::{Comment, CustomRule, SyntaxRule, rules_wf, nl};

verus! {

/// The rule sequence of C++.
pub open spec fn syntax_rule_seq() -> Seq<SyntaxRule> {
    seq![
        SyntaxRule::LineComment("//"),
        SyntaxRule::BlockComment("/*", "*/"),
        SyntaxRule::Custom(CustomRule::CppRawString),
        SyntaxRule::SkipDelimitedWithEscape("\"", "\"", 92u8),
        SyntaxRule::SkipDelimitedWithEscape("'", "'", 92u8),
    ]
}

/// The syntax rules of C++.
pub fn syntax_rules() -> (r: Vec<SyntaxRule>)
    ensures
        rules_wf(r@),
        r@ == syntax_rule_seq(),
{
    proof {
        reveal_strlit("//");
        reveal_strlit("/*");
        reveal_strlit("\"");
        reveal_strlit("'");
    }
    vec![
        SyntaxRule::LineComment("//"),
        SyntaxRule::BlockComment("/*", "*/"),
        SyntaxRule::Custom(CustomRule::CppRawString),  // must come before regular strings
        SyntaxRule::SkipDelimitedWithEscape("\"", "\"", 92u8),
        SyntaxRule::SkipDelimitedWithEscape("'", "'", 92u8),
    ]
}

/// A byte that may not appear in a raw string delimiter: `)`, `\`, `"` or ASCII
/// whitespace (`u8::is_ascii_whitespace`).
pub open spec fn is_bad_delimiter_byte(c: u8) -> bool {
    c == 41u8 || c == 92u8 || c == 34u8 || c == 32u8 || c == 9u8 || c == 10u8 || c == 12u8 || c
        == 13u8
}

/// Position of the `(` that ends a raw string delimiter starting at `i`; `None` when a
/// forbidden byte comes first. The end of the text is returned when there is no `(`.
pub open spec fn delimiter_end(text: Seq<u8>, i: int) -> Option<int>
    decreases text.len() - i,
{
    if i < 0 || i >= text.len() {
        Some(i)
    } else if text[i] == 40u8 {
        Some(i)
    } else if is_bad_delimiter_byte(text[i]) {
        None
    } else {
        delimiter_end(text, i + 1)
    }
}

/// Newlines in `text[i..]`, added to `n`.
pub open spec fn count_rest(text: Seq<u8>, i: int, n: int) -> int
    decreases text.len() - i,
{
    if 0 <= i < text.len() {
        count_rest(text, i + 1, n + nl(text[i]))
    } else {
        n
    }
}

/// End position and newline count of a raw string body from `i`, closed by `closing`.
pub open spec fn close_scan(text: Seq<u8>, closing: Seq<u8>, i: int, n: int) -> (int, int)
    decreases text.len() - i,
{
    if 0 <= i && closing.len() > 0 && i + closing.len() <= text.len() {
        if starts_at(text, i, closing) {
            (i + closing.len(), n)
        } else {
            close_scan(text, closing, i + 1, n + nl(text[i]))
        }
    } else {
        (text.len() as int, count_rest(text, i, n))
    }
}

/// The closing sequence `)delimiter"` of a raw string with delimiter `text[a..b]`.
pub open spec fn closing_of(text: Seq<u8>, a: int, b: int) -> Seq<u8> {
    seq![41u8] + text.subrange(a, b) + seq![34u8]
}

/// What [`skip_raw_string_literal`] skips at `pos`.
pub open spec fn raw_string_spec(text: Seq<u8>, pos: int) -> Option<(int, int)> {
    if !byte_at(text, pos, 82u8) || !byte_at(text, pos + 1, 34u8) {
        None
    } else {
        match delimiter_end(text, pos + 2) {
            None => None,
            Some(paren) => {
                if paren >= text.len() {
                    None
                } else {
                    let (e, n) = close_scan(text, closing_of(text, pos + 2, paren), paren + 1, 0);
                    Some((e - pos, n))
                }
            },
        }
    }
}

proof fn lemma_delimiter_end(text: Seq<u8>, i: int)
    requires
        0 <= i <= text.len(),
    ensures
        delimiter_end(text, i) matches Some(p) ==> i <= p <= text.len(),
    decreases text.len() - i,
{
    if 0 <= i < text.len() && text[i] != 40u8 && !is_bad_delimiter_byte(text[i]) {
        lemma_delimiter_end(text, i + 1);
    }
}

proof fn lemma_count_rest(text: Seq<u8>, i: int, n: int)
    requires
        0 <= i <= text.len(),
    ensures
        n <= count_rest(text, i, n) <= n + text.len() - i,
    decreases text.len() - i,
{
    if 0 <= i < text.len() {
        lemma_count_rest(text, i + 1, n + nl(text[i]));
    }
}

proof fn lemma_close_scan(text: Seq<u8>, closing: Seq<u8>, i: int, n: int)
    requires
        0 <= i <= text.len(),
        closing.len() > 0,
    ensures
        i <= close_scan(text, closing, i, n).0 <= text.len(),
        n <= close_scan(text, closing, i, n).1,
        close_scan(text, closing, i, n).1 - n <= close_scan(text, closing, i, n).0 - i,
    decreases text.len() - i,
{
    if 0 <= i && closing.len() > 0 && i + closing.len() <= text.len() {
        if !starts_at(text, i, closing) {
            lemma_close_scan(text, closing, i + 1, n + nl(text[i]));
        }
    } else {
        lemma_count_rest(text, i, n);
    }
}

pub proof fn lemma_raw_string_bounds(text: Seq<u8>, pos: int)
    requires
        0 <= pos < text.len(),
    ensures
        raw_string_spec(text, pos) matches Some((c, l)) ==> 0 < c && pos + c <= text.len() && 0
            <= l <= c,
{
    if byte_at(text, pos, 82u8) && byte_at(text, pos + 1, 34u8) {
        lemma_delimiter_end(text, pos + 2);
        if let Some(paren) = delimiter_end(text, pos + 2) {
            if paren < text.len() {
                lemma_close_scan(text, closing_of(text, pos + 2, paren), paren + 1, 0);
            }
        }
    }
}

/// Skip C++ raw string literals: R"delimiter(content)delimiter"
/// The delimiter can be 0-16 characters (any length is allowed here).
/// Returns (bytes_consumed, newlines_counted, None) to skip the literal.
pub fn skip_raw_string_literal<'a>(byte: u8, text: &'a [u8], pos: usize) -> (r: Option<
    (usize, usize, Option<Comment<'a>>),
>)
    requires
        pos < text@.len(),
        byte == text@[pos as int],
        text@.len() <= max_text_len(),
    ensures
        r matches Some((c, l, cm)) ==> raw_string_spec(text@, pos as int) == Some(
            (c as int, l as int),
        ) && cm is None,
        r is None ==> raw_string_spec(text@, pos as int) is None,
{
    // Must start with R"
    if byte != 82u8 || pos + 1 >= text.len() || text[pos + 1] != 34u8 {
        return None;
    }
    // Find opening paren - delimiter is between R" and (
    let after_quote = pos + 2;
    let mut paren_pos = after_quote;
    proof {
        lemma_delimiter_end(text@, after_quote as int);
    }
    while paren_pos < text.len() && text[paren_pos] != 40u8
        invariant
            after_quote <= paren_pos <= text@.len(),
            after_quote == pos + 2,
            byte_at(text@, pos as int, 82u8),
            byte_at(text@, pos + 1, 34u8),
            delimiter_end(text@, after_quote as int) == delimiter_end(text@, paren_pos as int),
        decreases text@.len() - paren_pos,
    {
        let c = text[paren_pos];
        if c == 41u8 || c == 92u8 || c == 34u8 || c == 32u8 || c == 9u8 || c == 10u8 || c == 12u8
            || c == 13u8 {
            return None;
        }
        paren_pos = paren_pos + 1;
    }
    if paren_pos >= text.len() {
        return None;
    }
    let content_start = paren_pos + 1;
    // Build closing sequence: )delimiter"
    let mut closing: Vec<u8> = Vec::new();
    closing.push(41u8);
    push_bytes(&mut closing, &text[after_quote..paren_pos]);
    closing.push(34u8);
    assert(closing@ =~= closing_of(text@, after_quote as int, paren_pos as int));
    // Find the closing sequence
    let mut i = content_start;
    let mut newlines: usize = 0;
    proof {
        lemma_close_scan(text@, closing@, content_start as int, 0);
    }
    while closing.len() <= text.len() - i
        invariant
            pos < content_start <= i <= text@.len(),
            content_start == paren_pos + 1,
            newlines <= i - content_start,
            closing@.len() > 0,
            closing@ == closing_of(text@, after_quote as int, paren_pos as int),
            raw_string_spec(text@, pos as int) == Some(
                (
                    close_scan(text@, closing@, content_start as int, 0).0 - pos,
                    close_scan(text@, closing@, content_start as int, 0).1,
                ),
            ),
            close_scan(text@, closing@, content_start as int, 0) == close_scan(
                text@,
                closing@,
                i as int,
                newlines as int,
            ),
        decreases text@.len() - i,
    {
        if starts_with_at(text, i, closing.as_slice()) {
            let total_consumed = (i + closing.len()) - pos;
            return Some((total_consumed, newlines, None));
        }
        if text[i] == 10u8 {
            newlines = newlines + 1;
        }
        i = i + 1;
    }
    // Unterminated raw string - consume to end
    while i < text.len()
        invariant
            pos < content_start <= i <= text@.len(),
            newlines <= i - content_start,
            raw_string_spec(text@, pos as int) == Some(
                (
                    close_scan(text@, closing@, content_start as int, 0).0 - pos,
                    close_scan(text@, closing@, content_start as int, 0).1,
                ),
            ),
            close_scan(text@, closing@, content_start as int, 0) == (
                text@.len() as int,
                count_rest(text@, i as int, newlines as int),
            ),
        decreases text@.len() - i,
    {
        if text[i] == 10u8 {
            newlines = newlines + 1;
        }
        i = i + 1;
    }
    Some((text.len() - pos, newlines, None))
}

} // verus!
