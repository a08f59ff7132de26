//! Shell comment syntax, and the here-document scanning shared with Ruby and PHP.
use vstd::prelude::*;
use vstd::string::StringSliceAdditionalSpecFns;
use crate::text::{byte_at, find_byte, find_byte_from, is_byte_at, lemma_find_byte, max_text_len};
use super::{Comment, CustomRule, SyntaxRule, line_end, lemma_line_end, rules_wf};

verus! {

/// The rule sequence of POSIX shells (also used for bash, zsh and ksh).
pub open spec fn syntax_rule_seq() -> Seq<SyntaxRule> {
    seq![
        SyntaxRule::LineComment("#"),
        SyntaxRule::SkipDelimitedWithEscape("\"", "\"", 92u8),
        SyntaxRule::Custom(CustomRule::ShEscapedSingleQuote),
        SyntaxRule::SkipDelimited("'", "'"),
        SyntaxRule::Custom(CustomRule::ShHeredoc),
    ]
}

/// The syntax rules of POSIX shells (also used for bash, zsh and ksh).
pub fn syntax_rules() -> (r: Vec<SyntaxRule>)
    ensures
        rules_wf(r@),
        r@ == syntax_rule_seq(),
{
    proof {
        reveal_strlit("#");
        reveal_strlit("\"");
        reveal_strlit("'");
    }
    vec![
        SyntaxRule::LineComment("#"),
        SyntaxRule::SkipDelimitedWithEscape("\"", "\"", 92u8),
        SyntaxRule::Custom(CustomRule::ShEscapedSingleQuote),  // must come before SkipDelimited for '
        SyntaxRule::SkipDelimited("'", "'"),
        SyntaxRule::Custom(CustomRule::ShHeredoc),
    ]
}

/// What [`skip_escaped_single_quote`] skips at `pos`.
pub open spec fn escaped_single_quote_spec(text: Seq<u8>, pos: int) -> Option<(int, int)> {
    if byte_at(text, pos, 92u8) && byte_at(text, pos + 1, 39u8) {
        Some((2, 0))
    } else {
        None
    }
}

/// Skip `\'` outside of strings - this is a literal single quote, not a string start.
pub fn skip_escaped_single_quote<'a>(byte: u8, text: &'a [u8], pos: usize) -> (r: Option<
    (usize, usize, Option<Comment<'a>>),
>)
    requires
        pos < text@.len(),
        byte == text@[pos as int],
        text@.len() <= max_text_len(),
    ensures
        r matches Some((c, l, cm)) ==> escaped_single_quote_spec(text@, pos as int) == Some(
            (c as int, l as int),
        ) && cm is None,
        r is None ==> escaped_single_quote_spec(text@, pos as int) is None,
{
    if byte != 92u8 {
        return None;
    }
    if pos + 1 < text.len() && text[pos + 1] == 39u8 {
        Some((2, 0, None))  // skip 2 bytes, 0 newlines, no comment
    } else {
        None
    }
}

/// Space or tab.
pub open spec fn is_blank(b: u8) -> bool {
    b == 32u8 || b == 9u8
}

/// Space, tab, newline or carriage return.
pub open spec fn is_word_end(b: u8) -> bool {
    b == 32u8 || b == 9u8 || b == 10u8 || b == 13u8
}

/// First position at or after `i` that is not a space or tab.
pub open spec fn skip_blanks(text: Seq<u8>, i: int) -> int
    decreases text.len() - i,
{
    if 0 <= i < text.len() && is_blank(text[i]) {
        skip_blanks(text, i + 1)
    } else {
        i
    }
}

/// First position at or after `i` that is not a tab.
pub open spec fn skip_tabs(text: Seq<u8>, i: int) -> int
    decreases text.len() - i,
{
    if 0 <= i < text.len() && text[i] == 9u8 {
        skip_tabs(text, i + 1)
    } else {
        i
    }
}

/// First position at or after `i` holding a space, tab, newline or carriage return.
pub open spec fn word_end(text: Seq<u8>, i: int) -> int
    decreases text.len() - i,
{
    if 0 <= i < text.len() && !is_word_end(text[i]) {
        word_end(text, i + 1)
    } else {
        i
    }
}

pub proof fn lemma_skips(text: Seq<u8>, i: int)
    requires
        0 <= i <= text.len(),
    ensures
        i <= skip_blanks(text, i) <= text.len(),
        i <= skip_tabs(text, i) <= text.len(),
        i <= word_end(text, i) <= text.len(),
    decreases text.len() - i,
{
    if 0 <= i < text.len() {
        lemma_skips(text, i + 1);
    }
}

pub fn scan_blanks(text: &[u8], i: usize) -> (r: usize)
    requires
        i <= text@.len(),
    ensures
        r == skip_blanks(text@, i as int),
        i <= r <= text@.len(),
{
    let mut c = i;
    while c < text.len() && (text[c] == 32u8 || text[c] == 9u8)
        invariant
            i <= c <= text@.len(),
            skip_blanks(text@, i as int) == skip_blanks(text@, c as int),
        decreases text@.len() - c,
    {
        c = c + 1;
    }
    c
}

pub fn scan_tabs(text: &[u8], i: usize) -> (r: usize)
    requires
        i <= text@.len(),
    ensures
        r == skip_tabs(text@, i as int),
        i <= r <= text@.len(),
{
    let mut c = i;
    while c < text.len() && text[c] == 9u8
        invariant
            i <= c <= text@.len(),
            skip_tabs(text@, i as int) == skip_tabs(text@, c as int),
        decreases text@.len() - c,
    {
        c = c + 1;
    }
    c
}

pub fn scan_word(text: &[u8], i: usize) -> (r: usize)
    requires
        i <= text@.len(),
    ensures
        r == word_end(text@, i as int),
        i <= r <= text@.len(),
{
    let mut c = i;
    while c < text.len() && !(text[c] == 32u8 || text[c] == 9u8 || text[c] == 10u8 || text[c]
        == 13u8)
        invariant
            i <= c <= text@.len(),
            word_end(text@, i as int) == word_end(text@, c as int),
        decreases text@.len() - c,
    {
        c = c + 1;
    }
    c
}

/// The delimiter of a here-document declared at `cursor` (after `<<` and its flag and
/// blanks): `(start, end, position after it)`. A quoted delimiter is the text between
/// the quotes.
pub open spec fn heredoc_delimiter(text: Seq<u8>, cursor: int) -> (int, int, int) {
    if 0 <= cursor < text.len() && (text[cursor] == 39u8 || text[cursor] == 34u8) {
        let q = text[cursor];
        let start = cursor + 1;
        let e = find_byte(text, q, start);
        (start, e, if e < text.len() {
            e + 1
        } else {
            e
        })
    } else {
        (cursor, word_end(text, cursor), word_end(text, cursor))
    }
}

pub proof fn lemma_heredoc_delimiter(text: Seq<u8>, cursor: int)
    requires
        0 <= cursor <= text.len(),
    ensures
        cursor <= heredoc_delimiter(text, cursor).0 <= heredoc_delimiter(text, cursor).1
            <= heredoc_delimiter(text, cursor).2 <= text.len(),
{
    if 0 <= cursor < text.len() && (text[cursor] == 39u8 || text[cursor] == 34u8) {
        lemma_find_byte(text, text[cursor], cursor + 1);
    } else {
        lemma_skips(text, cursor);
    }
}

pub fn scan_heredoc_delimiter(text: &[u8], cursor: usize) -> (r: (usize, usize, usize))
    requires
        cursor <= text@.len(),
    ensures
        (r.0 as int, r.1 as int, r.2 as int) == heredoc_delimiter(text@, cursor as int),
        cursor <= r.0 <= r.1 <= r.2 <= text@.len(),
{
    proof {
        lemma_heredoc_delimiter(text@, cursor as int);
    }
    if cursor < text.len() && (text[cursor] == 39u8 || text[cursor] == 34u8) {
        let q = text[cursor];
        let start = cursor + 1;
        let e = find_byte_from(text, q, start);
        if e < text.len() {
            (start, e, e + 1)
        } else {
            (start, e, e)
        }
    } else {
        let e = scan_word(text, cursor);
        (cursor, e, e)
    }
}

/// Where the body of a here-document starts: after the rest of the opening line.
pub open spec fn body_start(text: Seq<u8>, cursor: int) -> int {
    let e = line_end(text, cursor);
    if e < text.len() {
        e + 1
    } else {
        e
    }
}

/// Start of a body line as seen when looking for the closing delimiter: with
/// `indent` 1 leading tabs are skipped, with `indent` 2 leading blanks.
pub open spec fn indented_start(text: Seq<u8>, indent: int, cursor: int) -> int {
    if indent == 1 {
        skip_tabs(text, cursor)
    } else if indent == 2 {
        skip_blanks(text, cursor)
    } else {
        cursor
    }
}

/// End position and line count of a here-document body whose lines are scanned from
/// `cursor` until a line equal to `delim`.
pub open spec fn heredoc_body(
    text: Seq<u8>,
    delim: Seq<u8>,
    indent: int,
    cursor: int,
    lines: int,
) -> (int, int)
    decreases text.len() - cursor,
{
    if 0 <= cursor < text.len() {
        let ls = indented_start(text, indent, cursor);
        let le = line_end(text, ls);
        proof {
            lemma_indented_start(text, indent, cursor);
            lemma_line_end(text, ls);
        }
        if text.subrange(ls, le) == delim {
            if le < text.len() {
                (le + 1, lines + 1)
            } else {
                (le, lines)
            }
        } else if le < text.len() {
            heredoc_body(text, delim, indent, le + 1, lines + 1)
        } else {
            (le, lines)
        }
    } else {
        (cursor, lines)
    }
}

pub proof fn lemma_indented_start(text: Seq<u8>, indent: int, cursor: int)
    requires
        0 <= cursor <= text.len(),
    ensures
        cursor <= indented_start(text, indent, cursor) <= text.len(),
{
    lemma_skips(text, cursor);
}

pub proof fn lemma_heredoc_body(text: Seq<u8>, delim: Seq<u8>, indent: int, cursor: int, lines: int)
    requires
        0 <= cursor <= text.len(),
    ensures
        cursor <= heredoc_body(text, delim, indent, cursor, lines).0 <= text.len(),
        lines <= heredoc_body(text, delim, indent, cursor, lines).1,
        heredoc_body(text, delim, indent, cursor, lines).1 - lines <= heredoc_body(
            text,
            delim,
            indent,
            cursor,
            lines,
        ).0 - cursor,
    decreases text.len() - cursor,
{
    if 0 <= cursor < text.len() {
        let ls = indented_start(text, indent, cursor);
        lemma_indented_start(text, indent, cursor);
        lemma_line_end(text, ls);
        let le = line_end(text, ls);
        if text.subrange(ls, le) == delim {
        } else if le < text.len() {
            lemma_heredoc_body(text, delim, indent, le + 1, lines + 1);
        }
    }
}

/// Returns `text[a..b] == text[c..d]`.
pub fn ranges_equal(text: &[u8], a: usize, b: usize, c: usize, d: usize) -> (r: bool)
    requires
        a <= b <= text@.len(),
        c <= d <= text@.len(),
    ensures
        r == (text@.subrange(a as int, b as int) == text@.subrange(c as int, d as int)),
{
    if b - a != d - c {
        assert(text@.subrange(a as int, b as int).len() != text@.subrange(c as int, d as int).len());
        return false;
    }
    let mut k: usize = 0;
    while k < b - a
        invariant
            a <= b <= text@.len(),
            c <= d <= text@.len(),
            b - a == d - c,
            k <= b - a,
            forall|m: int|
                0 <= m < k ==> text@.subrange(a as int, b as int)[m] == text@.subrange(
                    c as int,
                    d as int,
                )[m],
        decreases b - a - k,
    {
        if text[a + k] != text[c + k] {
            assert(text@.subrange(a as int, b as int)[k as int] != text@.subrange(
                c as int,
                d as int,
            )[k as int]);
            return false;
        }
        k = k + 1;
    }
    assert(text@.subrange(a as int, b as int) =~= text@.subrange(c as int, d as int));
    true
}

/// Scans a here-document body (see [`heredoc_body`]) whose delimiter is
/// `text[da..db]`.
pub fn scan_heredoc_body(text: &[u8], da: usize, db: usize, indent: u8, cursor0: usize) -> (r: (
    usize,
    usize,
))
    requires
        da <= db <= text@.len(),
        cursor0 <= text@.len(),
        text@.len() <= max_text_len(),
    ensures
        (r.0 as int, r.1 as int) == heredoc_body(
            text@,
            text@.subrange(da as int, db as int),
            indent as int,
            cursor0 as int,
            1,
        ),
{
    let ghost delim = text@.subrange(da as int, db as int);
    let mut cursor = cursor0;
    let mut lines: usize = 1;
    proof {
        lemma_heredoc_body(text@, delim, indent as int, cursor0 as int, 1);
    }
    while cursor < text.len()
        invariant
            cursor0 <= cursor <= text@.len(),
            1 <= lines <= cursor - cursor0 + 1,
            text@.len() <= max_text_len(),
            da <= db <= text@.len(),
            delim == text@.subrange(da as int, db as int),
            heredoc_body(text@, delim, indent as int, cursor0 as int, 1) == heredoc_body(
                text@,
                delim,
                indent as int,
                cursor as int,
                lines as int,
            ),
        decreases text@.len() - cursor,
    {
        let ls = if indent == 1 {
            scan_tabs(text, cursor)
        } else if indent == 2 {
            scan_blanks(text, cursor)
        } else {
            cursor
        };
        let le = find_byte_from(text, 10u8, ls);
        proof {
            lemma_find_byte(text@, 10u8, ls as int);
            lemma_line_end(text@, ls as int);
            line_end_is_find_byte(text@, ls as int);
        }
        if ranges_equal(text, ls, le, da, db) {
            if le < text.len() {
                return (le + 1, lines + 1);
            } else {
                return (le, lines);
            }
        }
        cursor = le;
        if cursor < text.len() {
            cursor = cursor + 1;
            lines = lines + 1;
        }
    }
    (cursor, lines)
}

pub proof fn line_end_is_find_byte(text: Seq<u8>, i: int)
    requires
        0 <= i <= text.len(),
    ensures
        line_end(text, i) == find_byte(text, 10u8, i),
    decreases text.len() - i,
{
    if 0 <= i < text.len() && text[i] != 10u8 {
        line_end_is_find_byte(text, i + 1);
    }
}

/// What [`skip_heredoc`] skips at `pos`.
pub open spec fn heredoc_spec(text: Seq<u8>, pos: int) -> Option<(int, int)> {
    if !byte_at(text, pos, 60u8) || !byte_at(text, pos + 1, 60u8) || byte_at(text, pos + 2, 60u8)
        || (pos > 0 && byte_at(text, pos - 1, 60u8)) {
        None
    } else {
        let indented = byte_at(text, pos + 2, 45u8);
        let c1 = if indented {
            pos + 3
        } else {
            pos + 2
        };
        let (ds, de, c2) = heredoc_delimiter(text, skip_blanks(text, c1));
        if ds == de {
            None
        } else {
            let (e, l) = heredoc_body(
                text,
                text.subrange(ds, de),
                if indented {
                    1
                } else {
                    0
                },
                body_start(text, c2),
                1,
            );
            Some((e - pos, l))
        }
    }
}

pub proof fn lemma_heredoc_bounds(text: Seq<u8>, pos: int)
    requires
        0 <= pos < text.len(),
    ensures
        heredoc_spec(text, pos) matches Some((c, l)) ==> 0 < c && pos + c <= text.len() && 0 <= l
            <= c,
{
    if heredoc_spec(text, pos) is Some {
        let indented = byte_at(text, pos + 2, 45u8);
        let c1 = if indented {
            pos + 3
        } else {
            pos + 2
        };
        lemma_skips(text, c1);
        let (ds, de, c2) = heredoc_delimiter(text, skip_blanks(text, c1));
        lemma_heredoc_delimiter(text, skip_blanks(text, c1));
        lemma_line_end(text, c2);
        let bs = body_start(text, c2);
        lemma_heredoc_body(text, text.subrange(ds, de), if indented {
            1
        } else {
            0
        }, bs, 1);
    }
}

/// Skip here-docs: `<<EOF` ... `EOF`
/// Handles: <<EOF, <<'EOF', <<"EOF", <<-EOF (indented closing)
pub fn skip_heredoc<'a>(byte: u8, text: &'a [u8], pos: usize) -> (r: Option<
    (usize, usize, Option<Comment<'a>>),
>)
    requires
        pos < text@.len(),
        byte == text@[pos as int],
        text@.len() <= max_text_len(),
    ensures
        r matches Some((c, l, cm)) ==> heredoc_spec(text@, pos as int) == Some(
            (c as int, l as int),
        ) && cm is None,
        r is None ==> heredoc_spec(text@, pos as int) is None,
{
    if byte != 60u8 {
        return None;
    }
    // Check for '<<' but not '<<<' (here-string), and that we're at the first '<'
    if !is_byte_at(text, pos + 1, 60u8) {
        return None;
    }
    if is_byte_at(text, pos + 2, 60u8) {
        return None;
    }
    if pos > 0 && text[pos - 1] == 60u8 {
        return None;
    }
    // Optional '-' for <<-EOF (allows indented closing delimiter)
    let indented = is_byte_at(text, pos + 2, 45u8);
    let c1 = if indented {
        pos + 3
    } else {
        pos + 2
    };
    let c1b = scan_blanks(text, c1);
    let (ds, de, c2) = scan_heredoc_delimiter(text, c1b);
    if ds == de {
        return None;
    }
    // Skip the rest of the opening line
    let e = find_byte_from(text, 10u8, c2);
    proof {
        line_end_is_find_byte(text@, c2 as int);
    }
    let bs = if e < text.len() {
        e + 1
    } else {
        e
    };
    let (end, lines) = scan_heredoc_body(text, ds, de, if indented {
        1
    } else {
        0
    }, bs);
    proof {
        lemma_heredoc_bounds(text@, pos as int);
    }
    Some((end - pos, lines, None))
}

} // verus!
