//! Ruby comment syntax.
use vstd::prelude::*;
use vstd::string::StringSliceAdditionalSpecFns;
use crate::text::{byte_at, find_byte_from, is_byte_at, max_text_len};
use super::{Comment, CustomRule, SyntaxRule, rules_wf, lemma_line_end};
use super::sh::{body_start, heredoc_body, heredoc_delimiter, lemma_heredoc_body, lemma_heredoc_delimiter, lemma_skips, line_end_is_find_byte, scan_blanks, scan_heredoc_body, scan_heredoc_delimiter, skip_blanks};

verus! {

/// The rule sequence of Ruby.
pub open spec fn syntax_rule_seq() -> Seq<SyntaxRule> {
    seq![
        SyntaxRule::LineComment("#"),
        SyntaxRule::SkipDelimitedWithEscape("\"", "\"", 92u8),
        SyntaxRule::SkipDelimitedWithEscape("'", "'", 92u8),
        SyntaxRule::SkipDelimitedWithEscape("`", "`", 92u8),
        SyntaxRule::Custom(CustomRule::RubyHeredoc),
    ]
}

/// The syntax rules of Ruby.
pub fn syntax_rules() -> (r: Vec<SyntaxRule>)
    ensures
        rules_wf(r@),
        r@ == syntax_rule_seq(),
{
    proof {
        reveal_strlit("#");
        reveal_strlit("\"");
        reveal_strlit("'");
        reveal_strlit("`");
    }
    vec![
        SyntaxRule::LineComment("#"),
        SyntaxRule::SkipDelimitedWithEscape("\"", "\"", 92u8),
        SyntaxRule::SkipDelimitedWithEscape("'", "'", 92u8),
        SyntaxRule::SkipDelimitedWithEscape("`", "`", 92u8),
        SyntaxRule::Custom(CustomRule::RubyHeredoc),
    ]
}

/// How the closing line of a heredoc declared at `pos` may be indented:
/// 2 for `<<~` (blanks), 1 for `<<-` (tabs), 0 otherwise.
pub open spec fn indent_mode(text: Seq<u8>, pos: int) -> int {
    if byte_at(text, pos + 2, 126u8) {
        2
    } else if byte_at(text, pos + 2, 45u8) {
        1
    } else {
        0
    }
}

/// What [`skip_ruby_heredoc`] skips at `pos`.
pub open spec fn heredoc_spec(text: Seq<u8>, pos: int) -> Option<(int, int)> {
    if !byte_at(text, pos, 60u8) || !byte_at(text, pos + 1, 60u8) || byte_at(text, pos + 2, 60u8)
        || (pos > 0 && byte_at(text, pos - 1, 60u8)) {
        None
    } else {
        let c1 = if indent_mode(text, pos) > 0 {
            pos + 3
        } else {
            pos + 2
        };
        let (ds, de, c2) = heredoc_delimiter(text, skip_blanks(text, c1));
        if ds == de {
            None
        } else {
            let (e, l) = heredoc_body(
                text,
                text.subrange(ds, de),
                indent_mode(text, pos),
                body_start(text, c2),
                1,
            );
            Some((e - pos, l))
        }
    }
}

pub proof fn lemma_heredoc_bounds(text: Seq<u8>, pos: int)
    requires
        0 <= pos < text.len(),
    ensures
        heredoc_spec(text, pos) matches Some((c, l)) ==> 0 < c && pos + c <= text.len() && 0 <= l
            <= c,
{
    if heredoc_spec(text, pos) is Some {
        let c1 = if indent_mode(text, pos) > 0 {
            pos + 3
        } else {
            pos + 2
        };
        lemma_skips(text, c1);
        let (ds, de, c2) = heredoc_delimiter(text, skip_blanks(text, c1));
        lemma_heredoc_delimiter(text, skip_blanks(text, c1));
        lemma_line_end(text, c2);
        lemma_heredoc_body(text, text.subrange(ds, de), indent_mode(text, pos), body_start(text, c2), 1);
    }
}

/// Skip Ruby heredocs: `<<EOF`, `<<-EOF` (indented closing with tabs), `<<~EOF`
/// (indented closing with blanks), with optionally quoted delimiters.
pub fn skip_ruby_heredoc<'a>(byte: u8, text: &'a [u8], pos: usize) -> (r: Option<
    (usize, usize, Option<Comment<'a>>),
>)
    requires
        pos < text@.len(),
        byte == text@[pos as int],
        text@.len() <= max_text_len(),
    ensures
        r matches Some((c, l, cm)) ==> heredoc_spec(text@, pos as int) == Some(
            (c as int, l as int),
        ) && cm is None,
        r is None ==> heredoc_spec(text@, pos as int) is None,
{
    if byte != 60u8 {
        return None;
    }
    if !is_byte_at(text, pos + 1, 60u8) {
        return None;
    }
    if is_byte_at(text, pos + 2, 60u8) {
        return None;
    }
    if pos > 0 && text[pos - 1] == 60u8 {
        return None;
    }
    let squiggly = is_byte_at(text, pos + 2, 126u8);
    let indent: u8 = if squiggly {
        2
    } else if is_byte_at(text, pos + 2, 45u8) {
        1
    } else {
        0
    };
    let c1 = if indent > 0 {
        pos + 3
    } else {
        pos + 2
    };
    let c1b = scan_blanks(text, c1);
    let (ds, de, c2) = scan_heredoc_delimiter(text, c1b);
    if ds == de {
        return None;
    }
    let e = find_byte_from(text, 10u8, c2);
    proof {
        line_end_is_find_byte(text@, c2 as int);
    }
    let bs = if e < text.len() {
        e + 1
    } else {
        e
    };
    let (end, lines) = scan_heredoc_body(text, ds, de, indent, bs);
    proof {
        lemma_heredoc_bounds(text@, pos as int);
    }
    Some((end - pos, lines, None))
}

} // verus!
