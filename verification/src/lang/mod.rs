//! Comment scanning and TODO extraction for source files.
//!
//! A language is described by a list of [`SyntaxRule`]s, tried in order at every
//! byte of the input. Comment rules produce [`Comment`]s, the other rules skip over
//! string literals and similar constructs so that comment markers inside them are
//! ignored. [`Parser`] then groups the comments into TODOs.
use vstd::prelude::*;
use crate::text::{starts_at};
use vstd::string::StringSliceAdditionalSpecFns;

pub mod scan;
pub mod c;
pub mod cpp;
pub mod csharp;
pub mod css;
pub mod dockerfile;
pub mod go;
pub mod html;
pub mod files;
pub mod kotlin;
pub mod laws;
pub mod makefile;
pub mod markdown;
pub mod php;
pub mod protobuf;
pub mod python;
pub mod ruby;
pub mod rust;
pub mod sh;
pub mod sql;
pub mod tdz;
pub mod terraform;
pub mod todos;
pub mod typescript;
pub mod yaml;

pub use todos::{Parser, RawParser};

verus! {

/// A language-specific scanning rule that cannot be expressed with delimiters alone.
#[derive(Clone, Copy, Debug, PartialEq, Eq)]
pub enum CustomRule {
    /// Rust raw strings `r"..."`, `r#"..."#`, ...
    RustRawString,
    /// Rust character literals such as `'a'`, `'\''`, `'\u{1F600}'`.
    RustCharLiteral,
    /// C++ raw strings `R"delim(...)delim"`.
    CppRawString,
    /// C# verbatim strings `@"..."` and `@$"..."`.
    CsharpVerbatimString,
    /// C# raw strings `"""..."""`.
    CsharpRawString,
    /// PHP heredoc and nowdoc.
    PhpHeredoc,
    /// Ruby heredoc.
    RubyHeredoc,
    /// A shell `\'` outside of a string.
    ShEscapedSingleQuote,
    /// Shell here-documents.
    ShHeredoc,
}

/// A rule of a language's comment syntax.
#[derive(Debug, PartialEq, Eq)]
pub enum SyntaxRule {
    /// A comment running from the token to the end of the line.
    LineComment(&'static str),
    /// A (nestable) comment between a start and an end token.
    BlockComment(&'static str, &'static str),
    /// A region (such as a string) between two delimiters that is skipped.
    SkipDelimited(&'static str, &'static str),
    /// Like `SkipDelimited`, where the given byte escapes the byte after it.
    SkipDelimitedWithEscape(&'static str, &'static str, u8),
    /// A rule implemented by a dedicated scanner.
    Custom(CustomRule),
}

/// A comment found in a text, with the line(s) it occupies (1-based).
pub enum Comment<'a> {
    /// Content of a line comment, its line number, and the text before the comment on
    /// that line.
    Line(&'a [u8], usize, &'a [u8]),
    /// Content of a block comment, its start line and its end line.
    Block(&'a [u8], usize, usize),
}

/// The mathematical content of a [`Comment`].
pub enum SpecComment {
    Line(Seq<u8>, int, Seq<u8>),
    Block(Seq<u8>, int, int),
}

impl<'a> View for Comment<'a> {
    type V = SpecComment;

    open spec fn view(&self) -> SpecComment {
        match self {
            Comment::Line(t, l, c) => SpecComment::Line(t@, *l as int, c@),
            Comment::Block(t, s, e) => SpecComment::Block(t@, *s as int, *e as int),
        }
    }
}

/// Why the TODOs of a text cannot be extracted.
#[derive(Clone, Copy, Debug, PartialEq, Eq, Structural)]
pub enum ParseError {
    /// A block comment ends before there is room for its closing token.
    TruncatedBlockComment,
    /// Removing the indentation of a continuation line would split a character.
    SplitCharacter,
}

/// A TODO as `(start line, end line, text)`.
pub type RawTodo = (usize, usize, String);

/// The mathematical content of a [`RawTodo`], with the text as UTF-8 bytes.
pub type SpecTodo = (int, int, Seq<u8>);

/// What one scanning step at a position produces.
pub enum Outcome {
    /// A comment, and the position and line number after it.
    Emit(SpecComment, int, int),
    /// Nothing; scanning goes on at the given position and line number.
    Continue(int, int),
    /// The scanner would panic (a truncated block comment at the end of the text).
    Panic,
}

/// The result of looking for the next comment.
pub enum Scan {
    /// There is no further comment.
    End,
    /// A comment, and the position and line number after it.
    Found(SpecComment, int, int),
    /// The scanner would panic or fail to make progress.
    Panic,
}

pub open spec fn nl(b: u8) -> int {
    if b == 10u8 {
        1
    } else {
        0
    }
}

/// The bytes of a static token.
pub open spec fn tok(s: &'static str) -> Seq<u8> {
    s.spec_bytes()
}

/// The rule's opening token is not empty (the scanner indexes its first byte).
pub open spec fn rule_wf(r: SyntaxRule) -> bool {
    match r {
        SyntaxRule::LineComment(t) => tok(t).len() > 0,
        SyntaxRule::BlockComment(s, _) => tok(s).len() > 0,
        SyntaxRule::SkipDelimited(s, _) => tok(s).len() > 0,
        SyntaxRule::SkipDelimitedWithEscape(s, _, _) => tok(s).len() > 0,
        SyntaxRule::Custom(_) => true,
    }
}

pub open spec fn rules_wf(rules: Seq<SyntaxRule>) -> bool {
    forall|j: int| 0 <= j < rules.len() ==> #[trigger] rule_wf(rules[j])
}

/// The content `text[a..b]`, or nothing when it is not valid UTF-8.
pub open spec fn content_of(text: Seq<u8>, a: int, b: int) -> Seq<u8> {
    if vstd::utf8::valid_utf8(text.subrange(a, b)) {
        text.subrange(a, b)
    } else {
        Seq::empty()
    }
}

/// The first position at or after `i` holding a newline, or the end of the text.
pub open spec fn line_end(text: Seq<u8>, i: int) -> int
    decreases text.len() - i,
{
    if 0 <= i < text.len() && text[i] != 10u8 {
        line_end(text, i + 1)
    } else {
        i
    }
}

/// The start of the line holding position `i`: just after the last newline before `i`.
pub open spec fn line_start(text: Seq<u8>, i: int) -> int
    decreases i,
{
    if i <= 0 {
        0
    } else if text[i - 1] == 10u8 {
        i
    } else {
        line_start(text, i - 1)
    }
}

pub proof fn lemma_line_start(text: Seq<u8>, i: int)
    requires
        0 <= i <= text.len(),
    ensures
        0 <= line_start(text, i) <= i,
    decreases i,
{
    if i > 0 && text[i - 1] != 10u8 {
        lemma_line_start(text, i - 1);
    }
}

/// End position and line number of a block comment whose content starts at `p`,
/// at nesting depth `depth`.
pub open spec fn block_scan(
    text: Seq<u8>,
    st: Seq<u8>,
    et: Seq<u8>,
    p: int,
    depth: int,
    line: int,
) -> (int, int)
    decreases text.len() - p, depth,
{
    if st.len() == 0 || p < 0 || p >= text.len() || depth <= 0 {
        (p, line)
    } else if starts_at(text, p, st) {
        block_scan(text, st, et, p + st.len(), depth + 1, line)
    } else if starts_at(text, p, et) {
        block_scan(text, st, et, p + et.len(), depth - 1, line)
    } else {
        block_scan(text, st, et, p + 1, depth, line + nl(text[p]))
    }
}

/// Position and line number where `et` next occurs at or after `p` (or the end).
pub open spec fn skip_until(text: Seq<u8>, et: Seq<u8>, p: int, line: int) -> (int, int)
    decreases text.len() - p,
{
    if 0 <= p < text.len() && !starts_at(text, p, et) {
        skip_until(text, et, p + 1, line + nl(text[p]))
    } else {
        (p, line)
    }
}

/// Like [`skip_until`], where byte `esc` escapes the byte after it.
pub open spec fn skip_escaped(text: Seq<u8>, et: Seq<u8>, esc: u8, p: int, line: int) -> (
    int,
    int,
)
    decreases text.len() - p,
{
    if p < 0 || p >= text.len() {
        (p, line)
    } else if text[p] == esc {
        if p + 1 < text.len() {
            skip_escaped(text, et, esc, p + 2, line + nl(text[p + 1]))
        } else {
            (p + 1, line)
        }
    } else if starts_at(text, p, et) {
        (p, line)
    } else {
        skip_escaped(text, et, esc, p + 1, line + nl(text[p]))
    }
}

/// What a custom rule does at `pos`: the bytes it skips and the newlines among them.
pub open spec fn custom_spec(k: CustomRule, text: Seq<u8>, pos: int) -> Option<(int, int)> {
    match k {
        CustomRule::RustRawString => rust::raw_string_spec(text, pos),
        CustomRule::RustCharLiteral => rust::char_literal_spec(text, pos),
        CustomRule::CppRawString => cpp::raw_string_spec(text, pos),
        CustomRule::CsharpVerbatimString => csharp::verbatim_string_spec(text, pos),
        CustomRule::CsharpRawString => csharp::raw_string_spec(text, pos),
        CustomRule::PhpHeredoc => php::heredoc_spec(text, pos),
        CustomRule::RubyHeredoc => ruby::heredoc_spec(text, pos),
        CustomRule::ShEscapedSingleQuote => sh::escaped_single_quote_spec(text, pos),
        CustomRule::ShHeredoc => sh::heredoc_spec(text, pos),
    }
}

/// What rule `r` does at `pos` (on line `line`), `None` when it does not apply there.
pub open spec fn rule_outcome(r: SyntaxRule, text: Seq<u8>, pos: int, line: int) -> Option<
    Outcome,
> {
    match r {
        SyntaxRule::LineComment(t) => {
            if starts_at(text, pos, tok(t)) {
                let p = pos + tok(t).len();
                let e = line_end(text, p);
                let c = SpecComment::Line(
                    content_of(text, p, e),
                    line,
                    content_of(text, line_start(text, pos), pos),
                );
                if e < text.len() {
                    Some(Outcome::Emit(c, e + 1, line + 1))
                } else {
                    Some(Outcome::Emit(c, e, line))
                }
            } else {
                None
            }
        },
        SyntaxRule::BlockComment(s, t) => {
            if starts_at(text, pos, tok(s)) {
                let p = pos + tok(s).len();
                let (e, l) = block_scan(text, tok(s), tok(t), p, 1, line);
                let ce = e - tok(t).len();
                if ce < p {
                    Some(Outcome::Panic)
                } else {
                    Some(Outcome::Emit(SpecComment::Block(content_of(text, p, ce), line, l), e, l))
                }
            } else {
                None
            }
        },
        SyntaxRule::SkipDelimited(s, t) => {
            if starts_at(text, pos, tok(s)) {
                let (p, l) = skip_until(text, tok(t), pos + tok(s).len(), line);
                if p < text.len() {
                    Some(Outcome::Continue(p + tok(t).len(), l))
                } else {
                    Some(Outcome::Continue(p, l))
                }
            } else {
                None
            }
        },
        SyntaxRule::SkipDelimitedWithEscape(s, t, esc) => {
            if starts_at(text, pos, tok(s)) {
                let (p, l) = skip_escaped(text, tok(t), esc, pos + tok(s).len(), line);
                if p < text.len() {
                    Some(Outcome::Continue(p + tok(t).len(), l))
                } else {
                    Some(Outcome::Continue(p, l))
                }
            } else {
                None
            }
        },
        SyntaxRule::Custom(k) => {
            match custom_spec(k, text, pos) {
                Some((c, l)) => Some(Outcome::Continue(pos + c, line + l)),
                None => None,
            }
        },
    }
}

/// The outcome of the first rule (from index `j` on) that applies at `pos`; without one
/// the scanner moves on by one byte.
pub open spec fn first_outcome(
    rules: Seq<SyntaxRule>,
    text: Seq<u8>,
    pos: int,
    line: int,
    j: int,
) -> Outcome
    decreases rules.len() - j,
{
    if j < 0 || j >= rules.len() {
        Outcome::Continue(pos + 1, line + nl(text[pos]))
    } else {
        match rule_outcome(rules[j], text, pos, line) {
            Some(o) => o,
            None => first_outcome(rules, text, pos, line, j + 1),
        }
    }
}

/// The next comment at or after `pos`, scanning from line `line`.
pub open spec fn next_comment(rules: Seq<SyntaxRule>, text: Seq<u8>, pos: int, line: int) -> Scan
    decreases text.len() - pos,
{
    if pos < 0 || pos >= text.len() {
        Scan::End
    } else {
        match first_outcome(rules, text, pos, line, 0) {
            Outcome::Emit(c, p, l) => Scan::Found(c, p, l),
            Outcome::Panic => Scan::Panic,
            Outcome::Continue(p, l) => {
                if pos < p <= text.len() {
                    next_comment(rules, text, p, l)
                } else {
                    Scan::Panic
                }
            },
        }
    }
}

/// All comments from `pos` on, `None` when the scanner would panic.
pub open spec fn comments_from(rules: Seq<SyntaxRule>, text: Seq<u8>, pos: int, line: int) -> Option<
    Seq<SpecComment>,
>
    decreases text.len() - pos,
{
    match next_comment(rules, text, pos, line) {
        Scan::End => Some(Seq::empty()),
        Scan::Panic => None,
        Scan::Found(c, p, l) => {
            if pos < p <= text.len() {
                match comments_from(rules, text, p, l) {
                    Some(rest) => Some(seq![c] + rest),
                    None => None,
                }
            } else {
                None
            }
        },
    }
}

/// All comments of `text`.
pub open spec fn comments_of(rules: Seq<SyntaxRule>, text: Seq<u8>) -> Option<Seq<SpecComment>> {
    comments_from(rules, text, 0, 1)
}


pub open spec fn outcome_bounded(o: Outcome, text: Seq<u8>, pos: int, line: int) -> bool {
    match o {
        Outcome::Emit(_, p, l) => pos < p <= text.len() && line <= l && l - line <= p - pos,
        Outcome::Continue(p, l) => pos < p <= text.len() && line <= l && l - line <= p - pos,
        Outcome::Panic => true,
    }
}

pub proof fn lemma_line_end(text: Seq<u8>, i: int)
    requires
        0 <= i <= text.len(),
    ensures
        i <= line_end(text, i) <= text.len(),
        line_end(text, i) < text.len() ==> text[line_end(text, i)] == 10u8,
    decreases text.len() - i,
{
    if 0 <= i < text.len() && text[i] != 10u8 {
        lemma_line_end(text, i + 1);
    }
}

pub proof fn lemma_block_scan(
    text: Seq<u8>,
    st: Seq<u8>,
    et: Seq<u8>,
    p: int,
    depth: int,
    line: int,
)
    requires
        0 <= p <= text.len(),
    ensures
        p <= block_scan(text, st, et, p, depth, line).0 <= text.len(),
        line <= block_scan(text, st, et, p, depth, line).1,
        block_scan(text, st, et, p, depth, line).1 - line <= block_scan(
            text,
            st,
            et,
            p,
            depth,
            line,
        ).0 - p,
    decreases text.len() - p, depth,
{
    if st.len() == 0 || p < 0 || p >= text.len() || depth <= 0 {
    } else if starts_at(text, p, st) {
        lemma_block_scan(text, st, et, p + st.len(), depth + 1, line);
    } else if starts_at(text, p, et) {
        lemma_block_scan(text, st, et, p + et.len(), depth - 1, line);
    } else {
        lemma_block_scan(text, st, et, p + 1, depth, line + nl(text[p]));
    }
}

pub proof fn lemma_skip_until(text: Seq<u8>, et: Seq<u8>, p: int, line: int)
    requires
        0 <= p <= text.len(),
    ensures
        p <= skip_until(text, et, p, line).0 <= text.len(),
        line <= skip_until(text, et, p, line).1,
        skip_until(text, et, p, line).1 - line <= skip_until(text, et, p, line).0 - p,
        skip_until(text, et, p, line).0 < text.len() ==> starts_at(
            text,
            skip_until(text, et, p, line).0,
            et,
        ),
    decreases text.len() - p,
{
    if 0 <= p < text.len() && !starts_at(text, p, et) {
        lemma_skip_until(text, et, p + 1, line + nl(text[p]));
    }
}

pub proof fn lemma_skip_escaped(text: Seq<u8>, et: Seq<u8>, esc: u8, p: int, line: int)
    requires
        0 <= p <= text.len(),
    ensures
        p <= skip_escaped(text, et, esc, p, line).0 <= text.len(),
        line <= skip_escaped(text, et, esc, p, line).1,
        skip_escaped(text, et, esc, p, line).1 - line <= skip_escaped(text, et, esc, p, line).0
            - p,
        skip_escaped(text, et, esc, p, line).0 < text.len() ==> starts_at(
            text,
            skip_escaped(text, et, esc, p, line).0,
            et,
        ),
    decreases text.len() - p,
{
    if p < 0 || p >= text.len() {
    } else if text[p] == esc {
        if p + 1 < text.len() {
            lemma_skip_escaped(text, et, esc, p + 2, line + nl(text[p + 1]));
        }
    } else if starts_at(text, p, et) {
    } else {
        lemma_skip_escaped(text, et, esc, p + 1, line + nl(text[p]));
    }
}

pub proof fn lemma_custom_bounds(k: CustomRule, text: Seq<u8>, pos: int)
    requires
        0 <= pos < text.len(),
    ensures
        custom_spec(k, text, pos) matches Some((c, l)) ==> 0 < c && pos + c <= text.len() && 0
            <= l <= c,
{
    match k {
        CustomRule::RustRawString => rust::lemma_raw_string_bounds(text, pos),
        CustomRule::RustCharLiteral => rust::lemma_char_literal_bounds(text, pos),
        CustomRule::CppRawString => cpp::lemma_raw_string_bounds(text, pos),
        CustomRule::CsharpVerbatimString => csharp::lemma_verbatim_string_bounds(text, pos),
        CustomRule::CsharpRawString => csharp::lemma_raw_string_bounds(text, pos),
        CustomRule::PhpHeredoc => php::lemma_heredoc_bounds(text, pos),
        CustomRule::RubyHeredoc => ruby::lemma_heredoc_bounds(text, pos),
        CustomRule::ShEscapedSingleQuote => {},
        CustomRule::ShHeredoc => sh::lemma_heredoc_bounds(text, pos),
    }
}

pub proof fn lemma_rule_outcome_bounded(r: SyntaxRule, text: Seq<u8>, pos: int, line: int)
    requires
        rule_wf(r),
        0 <= pos < text.len(),
    ensures
        rule_outcome(r, text, pos, line) matches Some(o) ==> outcome_bounded(o, text, pos, line),
{
    match r {
        SyntaxRule::LineComment(t) => {
            if starts_at(text, pos, tok(t)) {
                lemma_line_end(text, pos + tok(t).len());
            }
        },
        SyntaxRule::BlockComment(s, t) => {
            if starts_at(text, pos, tok(s)) {
                lemma_block_scan(text, tok(s), tok(t), pos + tok(s).len(), 1, line);
            }
        },
        SyntaxRule::SkipDelimited(s, t) => {
            if starts_at(text, pos, tok(s)) {
                lemma_skip_until(text, tok(t), pos + tok(s).len(), line);
            }
        },
        SyntaxRule::SkipDelimitedWithEscape(s, t, esc) => {
            if starts_at(text, pos, tok(s)) {
                lemma_skip_escaped(text, tok(t), esc, pos + tok(s).len(), line);
            }
        },
        SyntaxRule::Custom(k) => {
            lemma_custom_bounds(k, text, pos);
        },
    }
}

pub proof fn lemma_first_outcome_bounded(
    rules: Seq<SyntaxRule>,
    text: Seq<u8>,
    pos: int,
    line: int,
    j: int,
)
    requires
        rules_wf(rules),
        0 <= pos < text.len(),
        0 <= j,
    ensures
        outcome_bounded(first_outcome(rules, text, pos, line, j), text, pos, line),
    decreases rules.len() - j,
{
    if j < rules.len() {
        lemma_rule_outcome_bounded(rules[j], text, pos, line);
        lemma_first_outcome_bounded(rules, text, pos, line, j + 1);
    }
}

} // verus!
