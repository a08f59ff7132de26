//! C# comment syntax.
use vstd::prelude::*;
use vstd::string::StringSliceAdditionalSpecFns;
use crate::text::{byte_at, max_text_len};
use super::{Comment, CustomRule, SyntaxRule, rules_wf, nl};

verus! {

/// The rule sequence of C#.
pub open spec fn syntax_rule_seq() -> Seq<SyntaxRule> {
    seq![
        SyntaxRule::LineComment("//"),
        SyntaxRule::BlockComment("/*", "*/"),
        SyntaxRule::Custom(CustomRule::CsharpVerbatimString),
        SyntaxRule::Custom(CustomRule::CsharpRawString),
        SyntaxRule::SkipDelimitedWithEscape("\"", "\"", 92u8),
        SyntaxRule::SkipDelimitedWithEscape("'", "'", 92u8),
    ]
}

/// The syntax rules of C#.
pub fn syntax_rules() -> (r: Vec<SyntaxRule>)
    ensures
        rules_wf(r@),
        r@ == syntax_rule_seq(),
{
    proof {
        reveal_strlit("//");
        reveal_strlit("/*");
        reveal_strlit("\"");
        reveal_strlit("'");
    }
    vec![
        SyntaxRule::LineComment("//"),
        SyntaxRule::BlockComment("/*", "*/"),
        SyntaxRule::Custom(CustomRule::CsharpVerbatimString),  // @"..." and @$"..."
        SyntaxRule::Custom(CustomRule::CsharpRawString),  // """...""" and longer quote counts
        SyntaxRule::SkipDelimitedWithEscape("\"", "\"", 92u8),
        SyntaxRule::SkipDelimitedWithEscape("'", "'", 92u8),
    ]
}

/// First position at or after `i` that does not hold byte `c`.
pub open spec fn skip_byte(text: Seq<u8>, c: u8, i: int) -> int
    decreases text.len() - i,
{
    if 0 <= i < text.len() && text[i] == c {
        skip_byte(text, c, i + 1)
    } else {
        i
    }
}

proof fn lemma_skip_byte(text: Seq<u8>, c: u8, i: int)
    requires
        0 <= i <= text.len(),
    ensures
        i <= skip_byte(text, c, i) <= text.len(),
        forall|k: int| i <= k < skip_byte(text, c, i) ==> text[k] == c,
        skip_byte(text, c, i) < text.len() ==> text[skip_byte(text, c, i)] != c,
    decreases text.len() - i,
{
    if 0 <= i < text.len() && text[i] == c {
        lemma_skip_byte(text, c, i + 1);
    }
}

fn scan_byte(text: &[u8], c: u8, i: usize) -> (r: usize)
    requires
        i <= text@.len(),
    ensures
        r == skip_byte(text@, c, i as int),
        i <= r <= text@.len(),
{
    proof {
        lemma_skip_byte(text@, c, i as int);
    }
    let mut k = i;
    while k < text.len() && text[k] == c
        invariant
            i <= k <= text@.len(),
            skip_byte(text@, c, i as int) == skip_byte(text@, c, k as int),
        decreases text@.len() - k,
    {
        k = k + 1;
    }
    k
}

/// End position and newline count of a verbatim string body from `cur`.
pub open spec fn verbatim_scan(text: Seq<u8>, cur: int, n: int) -> (int, int)
    decreases text.len() - cur,
{
    if 0 <= cur < text.len() {
        if text[cur] == 10u8 {
            verbatim_scan(text, cur + 1, n + 1)
        } else if text[cur] == 34u8 {
            if cur + 1 < text.len() && text[cur + 1] == 34u8 {
                verbatim_scan(text, cur + 2, n)
            } else {
                (cur + 1, n)
            }
        } else {
            verbatim_scan(text, cur + 1, n)
        }
    } else {
        (cur, n)
    }
}

/// What [`skip_verbatim_string_literal`] skips at `pos`.
pub open spec fn verbatim_string_spec(text: Seq<u8>, pos: int) -> Option<(int, int)> {
    if !byte_at(text, pos, 64u8) {
        None
    } else {
        let cursor = skip_byte(text, 36u8, pos + 1);
        if !byte_at(text, cursor, 34u8) {
            None
        } else {
            let (e, n) = verbatim_scan(text, cursor + 1, 0);
            Some((e - pos, n))
        }
    }
}

proof fn lemma_verbatim_scan(text: Seq<u8>, cur: int, n: int)
    requires
        0 <= cur <= text.len(),
    ensures
        cur <= verbatim_scan(text, cur, n).0 <= text.len(),
        n <= verbatim_scan(text, cur, n).1,
        verbatim_scan(text, cur, n).1 - n <= verbatim_scan(text, cur, n).0 - cur,
    decreases text.len() - cur,
{
    if 0 <= cur < text.len() {
        if text[cur] == 10u8 {
            lemma_verbatim_scan(text, cur + 1, n + 1);
        } else if text[cur] == 34u8 {
            if cur + 1 < text.len() && text[cur + 1] == 34u8 {
                lemma_verbatim_scan(text, cur + 2, n);
            }
        } else {
            lemma_verbatim_scan(text, cur + 1, n);
        }
    }
}

pub proof fn lemma_verbatim_string_bounds(text: Seq<u8>, pos: int)
    requires
        0 <= pos < text.len(),
    ensures
        verbatim_string_spec(text, pos) matches Some((c, l)) ==> 0 < c && pos + c <= text.len() && 0
            <= l <= c,
{
    if byte_at(text, pos, 64u8) {
        lemma_skip_byte(text, 36u8, pos + 1);
        let cursor = skip_byte(text, 36u8, pos + 1);
        if byte_at(text, cursor, 34u8) {
            lemma_verbatim_scan(text, cursor + 1, 0);
        }
    }
}

/// Skip C# verbatim string literals such as `@"..."` and interpolated verbatim
/// strings such as `@$"..."`, where doubled quotes `""` escape a quote.
pub fn skip_verbatim_string_literal<'a>(byte: u8, text: &'a [u8], pos: usize) -> (r: Option<
    (usize, usize, Option<Comment<'a>>),
>)
    requires
        pos < text@.len(),
        byte == text@[pos as int],
        text@.len() <= max_text_len(),
    ensures
        r matches Some((c, l, cm)) ==> verbatim_string_spec(text@, pos as int) == Some(
            (c as int, l as int),
        ) && cm is None,
        r is None ==> verbatim_string_spec(text@, pos as int) is None,
{
    if byte != 64u8 {
        return None;
    }
    let mut cursor = scan_byte(text, 36u8, pos + 1);
    if cursor >= text.len() || text[cursor] != 34u8 {
        return None;
    }
    cursor = cursor + 1;
    let ghost c0 = cursor as int;
    let mut newlines: usize = 0;
    proof {
        lemma_verbatim_scan(text@, c0, 0);
    }
    while cursor < text.len()
        invariant
            pos < c0 <= cursor <= text@.len(),
            newlines <= cursor - c0,
            text@.len() <= max_text_len(),
            verbatim_string_spec(text@, pos as int) == Some(
                (verbatim_scan(text@, c0, 0).0 - pos, verbatim_scan(text@, c0, 0).1),
            ),
            verbatim_scan(text@, c0, 0) == verbatim_scan(text@, cursor as int, newlines as int),
        decreases text@.len() - cursor,
    {
        if text[cursor] == 10u8 {
            newlines = newlines + 1;
            cursor = cursor + 1;
            continue ;
        }
        if text[cursor] == 34u8 {
            if cursor + 1 < text.len() && text[cursor + 1] == 34u8 {
                cursor = cursor + 2;
                continue ;
            }
            proof {
                lemma_verbatim_string_bounds(text@, pos as int);
            }
            return Some((cursor + 1 - pos, newlines, None));
        }
        cursor = cursor + 1;
    }
    proof {
        lemma_verbatim_string_bounds(text@, pos as int);
    }
    Some((text.len() - pos, newlines, None))
}

/// `text[a..b]` consists of `"` bytes only.
pub open spec fn all_quotes(text: Seq<u8>, a: int, b: int) -> bool {
    forall|k: int| a <= k < b ==> text[k] == 34u8
}

/// End position and newline count of a raw string body from `cur`, closed by `qc` quotes.
pub open spec fn raw_scan(text: Seq<u8>, qc: int, cur: int, n: int) -> (int, int)
    decreases text.len() - cur,
{
    if 0 <= cur < text.len() {
        let n1 = n + nl(text[cur]);
        if cur + qc <= text.len() && all_quotes(text, cur, cur + qc) {
            (cur + qc, n1)
        } else {
            raw_scan(text, qc, cur + 1, n1)
        }
    } else {
        (cur, n)
    }
}

/// What [`skip_raw_string_literal`] skips at `pos`.
pub open spec fn raw_string_spec(text: Seq<u8>, pos: int) -> Option<(int, int)> {
    if !byte_at(text, pos, 34u8) {
        None
    } else {
        let qc = skip_byte(text, 34u8, pos) - pos;
        if qc < 3 {
            None
        } else {
            let (e, n) = raw_scan(text, qc, pos + qc, 0);
            Some((e - pos, n))
        }
    }
}

proof fn lemma_raw_scan(text: Seq<u8>, qc: int, cur: int, n: int)
    requires
        0 <= cur <= text.len(),
        0 <= qc,
    ensures
        cur <= raw_scan(text, qc, cur, n).0 <= text.len(),
        n <= raw_scan(text, qc, cur, n).1,
        raw_scan(text, qc, cur, n).1 - n <= raw_scan(text, qc, cur, n).0 - cur + 1,
    decreases text.len() - cur,
{
    if 0 <= cur < text.len() {
        let n1 = n + nl(text[cur]);
        if cur + qc <= text.len() && all_quotes(text, cur, cur + qc) {
        } else {
            lemma_raw_scan(text, qc, cur + 1, n1);
        }
    }
}

pub proof fn lemma_raw_string_bounds(text: Seq<u8>, pos: int)
    requires
        0 <= pos < text.len(),
    ensures
        raw_string_spec(text, pos) matches Some((c, l)) ==> 0 < c && pos + c <= text.len() && 0
            <= l <= c,
{
    if byte_at(text, pos, 34u8) {
        lemma_skip_byte(text, 34u8, pos);
        let qc = skip_byte(text, 34u8, pos) - pos;
        if qc >= 3 {
            lemma_raw_scan(text, qc, pos + qc, 0);
        }
    }
}

/// Skip C# raw string literals that start with three or more quotes, e.g.
/// `"""..."""` or `""""...""""`.
pub fn skip_raw_string_literal<'a>(byte: u8, text: &'a [u8], pos: usize) -> (r: Option<
    (usize, usize, Option<Comment<'a>>),
>)
    requires
        pos < text@.len(),
        byte == text@[pos as int],
        text@.len() <= max_text_len(),
    ensures
        r matches Some((c, l, cm)) ==> raw_string_spec(text@, pos as int) == Some(
            (c as int, l as int),
        ) && cm is None,
        r is None ==> raw_string_spec(text@, pos as int) is None,
{
    if byte != 34u8 {
        return None;
    }
    let quote_count = scan_byte(text, 34u8, pos) - pos;
    if quote_count < 3 {
        return None;
    }
    let mut cursor = pos + quote_count;
    let mut newlines: usize = 0;
    proof {
        lemma_raw_scan(text@, quote_count as int, cursor as int, 0);
    }
    while cursor < text.len()
        invariant
            pos + quote_count <= cursor <= text@.len(),
            newlines <= cursor - (pos + quote_count),
            text@.len() <= max_text_len(),
            raw_string_spec(text@, pos as int) == Some(
                (
                    raw_scan(text@, quote_count as int, pos + quote_count, 0).0 - pos,
                    raw_scan(text@, quote_count as int, pos + quote_count, 0).1,
                ),
            ),
            raw_scan(text@, quote_count as int, pos + quote_count, 0) == raw_scan(
                text@,
                quote_count as int,
                cursor as int,
                newlines as int,
            ),
        decreases text@.len() - cursor,
    {
        if text[cursor] == 10u8 {
            newlines = newlines + 1;
        }
        if quote_count <= text.len() - cursor {
            let mut k: usize = 0;
            let mut all = true;
            while k < quote_count
                invariant
                    cursor + quote_count <= text@.len(),
                    text@.len() <= max_text_len(),
                    k <= quote_count,
                    all == all_quotes(text@, cursor as int, cursor + k),
                decreases quote_count - k,
            {
                if text[cursor + k] != 34u8 {
                    all = false;
                }
                k = k + 1;
            }
            if all {
                proof {
                    lemma_raw_string_bounds(text@, pos as int);
                }
                return Some((cursor + quote_count - pos, newlines, None));
            }
        }
        cursor = cursor + 1;
    }
    proof {
        lemma_raw_string_bounds(text@, pos as int);
    }
    Some((text.len() - pos, newlines, None))
}

} // verus!
