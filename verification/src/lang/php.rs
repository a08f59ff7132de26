//! PHP comment syntax.
use vstd::prelude::*;
use vstd::string::StringSliceAdditionalSpecFns;
use crate::text::{byte_at, find_byte_from, is_byte_at, max_text_len};
use super::{Comment, CustomRule, SyntaxRule, rules_wf, line_end, lemma_line_end};
use super::sh::{body_start, heredoc_delimiter, lemma_heredoc_delimiter, lemma_skips, line_end_is_find_byte, ranges_equal, scan_blanks, scan_heredoc_delimiter, skip_blanks};

verus! {

/// The rule sequence of PHP.
pub open spec fn syntax_rule_seq() -> Seq<SyntaxRule> {
    seq![
        SyntaxRule::LineComment("//"),
        SyntaxRule::LineComment("#"),
        SyntaxRule::BlockComment("/*", "*/"),
        SyntaxRule::SkipDelimitedWithEscape("\"", "\"", 92u8),
        SyntaxRule::SkipDelimitedWithEscape("'", "'", 92u8),
        SyntaxRule::Custom(CustomRule::PhpHeredoc),
    ]
}

/// The syntax rules of PHP.
pub fn syntax_rules() -> (r: Vec<SyntaxRule>)
    ensures
        rules_wf(r@),
        r@ == syntax_rule_seq(),
{
    proof {
        reveal_strlit("//");
        reveal_strlit("#");
        reveal_strlit("/*");
        reveal_strlit("\"");
        reveal_strlit("'");
    }
    vec![
        SyntaxRule::LineComment("//"),
        SyntaxRule::LineComment("#"),
        SyntaxRule::BlockComment("/*", "*/"),
        SyntaxRule::SkipDelimitedWithEscape("\"", "\"", 92u8),
        SyntaxRule::SkipDelimitedWithEscape("'", "'", 92u8),
        SyntaxRule::Custom(CustomRule::PhpHeredoc),
    ]
}

/// `text[ls..le]` closes a heredoc with delimiter `delim`: it starts with the delimiter,
/// followed only by `;`, spaces and tabs.
pub open spec fn is_closing_line(text: Seq<u8>, ls: int, le: int, delim: Seq<u8>) -> bool {
    &&& le - ls >= delim.len()
    &&& text.subrange(ls, ls + delim.len()) == delim
    &&& forall|k: int|
        ls + delim.len() <= k < le ==> (#[trigger] text[k] == 59u8 || text[k] == 32u8 || text[k]
            == 9u8)
}

/// End position and line count of a heredoc body scanned from `cursor`.
pub open spec fn heredoc_body_php(text: Seq<u8>, delim: Seq<u8>, cursor: int, lines: int) -> (
    int,
    int,
)
    decreases text.len() - cursor,
{
    if 0 <= cursor < text.len() {
        let ls = skip_blanks(text, cursor);
        let le = line_end(text, ls);
        proof {
            lemma_skips(text, cursor);
            lemma_line_end(text, ls);
        }
        if is_closing_line(text, ls, le, delim) {
            if le < text.len() {
                (le + 1, lines + 1)
            } else {
                (le, lines)
            }
        } else if le < text.len() {
            heredoc_body_php(text, delim, le + 1, lines + 1)
        } else {
            (le, lines)
        }
    } else {
        (cursor, lines)
    }
}

proof fn lemma_body(text: Seq<u8>, delim: Seq<u8>, cursor: int, lines: int)
    requires
        0 <= cursor <= text.len(),
    ensures
        cursor <= heredoc_body_php(text, delim, cursor, lines).0 <= text.len(),
        lines <= heredoc_body_php(text, delim, cursor, lines).1,
        heredoc_body_php(text, delim, cursor, lines).1 - lines <= heredoc_body_php(
            text,
            delim,
            cursor,
            lines,
        ).0 - cursor,
    decreases text.len() - cursor,
{
    if 0 <= cursor < text.len() {
        let ls = skip_blanks(text, cursor);
        lemma_skips(text, cursor);
        lemma_line_end(text, ls);
        let le = line_end(text, ls);
        if is_closing_line(text, ls, le, delim) {
        } else if le < text.len() {
            lemma_body(text, delim, le + 1, lines + 1);
        }
    }
}

/// What [`skip_heredoc`] skips at `pos`.
pub open spec fn heredoc_spec(text: Seq<u8>, pos: int) -> Option<(int, int)> {
    if !byte_at(text, pos, 60u8) || !byte_at(text, pos + 1, 60u8) || !byte_at(text, pos + 2, 60u8) {
        None
    } else {
        let (ds, de, c2) = heredoc_delimiter(text, skip_blanks(text, pos + 3));
        if ds == de {
            None
        } else {
            let (e, l) = heredoc_body_php(text, text.subrange(ds, de), body_start(text, c2), 1);
            Some((e - pos, l))
        }
    }
}

pub proof fn lemma_heredoc_bounds(text: Seq<u8>, pos: int)
    requires
        0 <= pos < text.len(),
    ensures
        heredoc_spec(text, pos) matches Some((c, l)) ==> 0 < c && pos + c <= text.len() && 0 <= l
            <= c,
{
    if heredoc_spec(text, pos) is Some {
        lemma_skips(text, pos + 3);
        let (ds, de, c2) = heredoc_delimiter(text, skip_blanks(text, pos + 3));
        lemma_heredoc_delimiter(text, skip_blanks(text, pos + 3));
        lemma_line_end(text, c2);
        lemma_body(text, text.subrange(ds, de), body_start(text, c2), 1);
    }
}

fn closing_line(text: &[u8], ls: usize, le: usize, da: usize, db: usize) -> (r: bool)
    requires
        ls <= le <= text@.len(),
        da <= db <= text@.len(),
    ensures
        r == is_closing_line(text@, ls as int, le as int, text@.subrange(da as int, db as int)),
{
    let dl = db - da;
    assert(text@.subrange(da as int, db as int).len() == dl);
    if le - ls < dl {
        return false;
    }
    if !ranges_equal(text, ls, ls + dl, da, db) {
        return false;
    }
    let mut k = ls + dl;
    while k < le
        invariant
            ls + dl <= k <= le <= text@.len(),
            da <= db <= text@.len(),
            dl == db - da,
            text@.subrange(da as int, db as int).len() == dl,
            text@.subrange(ls as int, ls + dl) == text@.subrange(da as int, db as int),
            forall|m: int|
                ls + dl <= m < k ==> (#[trigger] text@[m] == 59u8 || text@[m] == 32u8 || text@[m]
                    == 9u8),
        decreases le - k,
    {
        if !(text[k] == 59u8 || text[k] == 32u8 || text[k] == 9u8) {
            assert(!(text@[k as int] == 59u8 || text@[k as int] == 32u8 || text@[k as int] == 9u8));
            return false;
        }
        k = k + 1;
    }
    true
}

/// Skip PHP heredoc and nowdoc: `<<<LABEL` / `<<<'LABEL'` ... `LABEL` (on its own line).
pub fn skip_heredoc<'a>(byte: u8, text: &'a [u8], pos: usize) -> (r: Option<
    (usize, usize, Option<Comment<'a>>),
>)
    requires
        pos < text@.len(),
        byte == text@[pos as int],
        text@.len() <= max_text_len(),
    ensures
        r matches Some((c, l, cm)) ==> heredoc_spec(text@, pos as int) == Some(
            (c as int, l as int),
        ) && cm is None,
        r is None ==> heredoc_spec(text@, pos as int) is None,
{
    if byte != 60u8 {
        return None;
    }
    // Must start with '<<<'
    if !is_byte_at(text, pos + 1, 60u8) || !is_byte_at(text, pos + 2, 60u8) {
        return None;
    }
    // Optional whitespace after <<< (PHP 7.3+), then the delimiter, possibly quoted
    let c1 = scan_blanks(text, pos + 3);
    let (ds, de, c2) = scan_heredoc_delimiter(text, c1);
    if ds == de {
        return None;
    }
    let e = find_byte_from(text, 10u8, c2);
    proof {
        line_end_is_find_byte(text@, c2 as int);
    }
    let mut cursor = if e < text.len() {
        e + 1
    } else {
        e
    };
    let ghost cursor0 = cursor as int;
    let ghost delim = text@.subrange(ds as int, de as int);
    let mut lines: usize = 1;
    proof {
        lemma_body(text@, delim, cursor0, 1);
    }
    // Scan line-by-line for the closing delimiter (which may be indented)
    while cursor < text.len()
        invariant
            pos + 3 <= cursor0 <= cursor <= text@.len(),
            1 <= lines <= cursor - cursor0 + 1,
            heredoc_spec(text@, pos as int) == Some(
                (
                    heredoc_body_php(text@, delim, cursor0, 1).0 - pos,
                    heredoc_body_php(text@, delim, cursor0, 1).1,
                ),
            ),
            text@.len() <= max_text_len(),
            ds <= de <= text@.len(),
            delim == text@.subrange(ds as int, de as int),
            heredoc_body_php(text@, delim, cursor0, 1) == heredoc_body_php(
                text@,
                delim,
                cursor as int,
                lines as int,
            ),
        decreases text@.len() - cursor,
    {
        let ls = scan_blanks(text, cursor);
        let le = find_byte_from(text, 10u8, ls);
        proof {
            line_end_is_find_byte(text@, ls as int);
        }
        if closing_line(text, ls, le, ds, de) {
            cursor = le;
            if cursor < text.len() {
                cursor = cursor + 1;
                lines = lines + 1;
            }
            proof {
                lemma_heredoc_bounds(text@, pos as int);
            }
            return Some((cursor - pos, lines, None));
        }
        cursor = le;
        if cursor < text.len() {
            cursor = cursor + 1;
            lines = lines + 1;
        }
    }
    proof {
        lemma_heredoc_bounds(text@, pos as int);
    }
    Some((cursor - pos, lines, None))
}

} // verus!
