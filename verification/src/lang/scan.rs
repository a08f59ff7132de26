//! The comment scanner: executes the syntax rules over a text.
use vstd::prelude::*;
use vstd::string::StringSliceAdditionalSpecFns;
use crate::text::{is_valid_utf8, max_text_len, starts_with_at};
use super::{ParseError, lemma_line_end, lemma_line_start, line_start, next_comment, Scan, Comment, CustomRule, Outcome, SyntaxRule, block_scan, content_of, custom_spec, first_outcome, lemma_block_scan, lemma_first_outcome_bounded, lemma_rule_outcome_bounded, lemma_skip_escaped, lemma_skip_until, line_end, outcome_bounded, rule_outcome, rule_wf, rules_wf, skip_escaped, skip_until, cpp, csharp, php, ruby, rust, sh};

verus! {

/// What one scanning step produced (see [`Outcome`]).
pub enum Step<'a> {
    Emit(Comment<'a>, usize, usize),
    Continue(usize, usize),
    Panic,
}

impl<'a> View for Step<'a> {
    type V = Outcome;

    open spec fn view(&self) -> Outcome {
        match self {
            Step::Emit(c, p, l) => Outcome::Emit(c@, *p as int, *l as int),
            Step::Continue(p, l) => Outcome::Continue(*p as int, *l as int),
            Step::Panic => Outcome::Panic,
        }
    }
}

/// `text[a..b]` when it is valid UTF-8, otherwise an empty slice.
pub(crate) fn content<'a>(text: &'a [u8], a: usize, b: usize) -> (r: &'a [u8])
    requires
        a <= b <= text@.len(),
    ensures
        r@ == content_of(text@, a as int, b as int),
{
    let s = &text[a..b];
    if is_valid_utf8(s) {
        s
    } else {
        let e = &text[0..0];
        assert(e@ =~= Seq::<u8>::empty());
        e
    }
}

pub(crate) fn scan_line_end(text: &[u8], p: usize) -> (e: usize)
    requires
        p <= text@.len(),
    ensures
        e == line_end(text@, p as int),
        p <= e <= text@.len(),
{
    proof {
        lemma_line_end(text@, p as int);
    }
    let mut e = p;
    while e < text.len() && text[e] != 10u8
        invariant
            p <= e <= text@.len(),
            line_end(text@, p as int) == line_end(text@, e as int),
        decreases text@.len() - e,
    {
        e = e + 1;
    }
    e
}

/// The start of the line holding position `p`.
fn scan_line_start(text: &[u8], p: usize) -> (s: usize)
    requires
        p <= text@.len(),
    ensures
        s == line_start(text@, p as int),
        s <= p,
{
    proof {
        lemma_line_start(text@, p as int);
    }
    let mut s = p;
    while s > 0 && text[s - 1] != 10u8
        invariant
            s <= p <= text@.len(),
            line_start(text@, p as int) == line_start(text@, s as int),
        decreases s,
    {
        s = s - 1;
    }
    s
}

fn scan_block(text: &[u8], st: &[u8], et: &[u8], p0: usize, line0: usize) -> (r: (usize, usize))
    requires
        st@.len() > 0,
        p0 <= text@.len(),
        line0 <= p0 + 1,
        text@.len() <= max_text_len(),
    ensures
        (r.0 as int, r.1 as int) == block_scan(text@, st@, et@, p0 as int, 1, line0 as int),
{
    let mut p = p0;
    let mut depth: usize = 1;
    let mut line = line0;
    proof {
        lemma_block_scan(text@, st@, et@, p0 as int, 1, line0 as int);
    }
    while p < text.len() && depth > 0
        invariant
            p0 <= p <= text@.len(),
            depth <= p - p0 + 1,
            line0 <= line,
            line - line0 <= p - p0,
            line0 <= p0 + 1,
            text@.len() <= max_text_len(),
            st@.len() > 0,
            block_scan(text@, st@, et@, p0 as int, 1, line0 as int) == block_scan(
                text@,
                st@,
                et@,
                p as int,
                depth as int,
                line as int,
            ),
        decreases text@.len() - p, depth,
    {
        if starts_with_at(text, p, st) {
            depth = depth + 1;
            p = p + st.len();
        } else if starts_with_at(text, p, et) {
            depth = depth - 1;
            p = p + et.len();
        } else {
            if text[p] == 10u8 {
                line = line + 1;
            }
            p = p + 1;
        }
    }
    (p, line)
}

fn scan_skip_until(text: &[u8], et: &[u8], p0: usize, line0: usize) -> (r: (usize, usize))
    requires
        p0 <= text@.len(),
        line0 <= p0 + 1,
        text@.len() <= max_text_len(),
    ensures
        (r.0 as int, r.1 as int) == skip_until(text@, et@, p0 as int, line0 as int),
{
    let mut p = p0;
    let mut line = line0;
    while p < text.len() && !starts_with_at(text, p, et)
        invariant
            p0 <= p <= text@.len(),
            line0 <= line,
            line - line0 <= p - p0,
            line0 <= p0 + 1,
            text@.len() <= max_text_len(),
            skip_until(text@, et@, p0 as int, line0 as int) == skip_until(
                text@,
                et@,
                p as int,
                line as int,
            ),
        decreases text@.len() - p,
    {
        if text[p] == 10u8 {
            line = line + 1;
        }
        p = p + 1;
    }
    (p, line)
}

fn scan_skip_escaped(text: &[u8], et: &[u8], esc: u8, p0: usize, line0: usize) -> (r: (
    usize,
    usize,
))
    requires
        p0 <= text@.len(),
        line0 <= p0 + 1,
        text@.len() <= max_text_len(),
    ensures
        (r.0 as int, r.1 as int) == skip_escaped(text@, et@, esc, p0 as int, line0 as int),
{
    let mut p = p0;
    let mut line = line0;
    while p < text.len()
        invariant
            p0 <= p <= text@.len(),
            line0 <= line,
            line - line0 <= p - p0,
            line0 <= p0 + 1,
            text@.len() <= max_text_len(),
            skip_escaped(text@, et@, esc, p0 as int, line0 as int) == skip_escaped(
                text@,
                et@,
                esc,
                p as int,
                line as int,
            ),
        decreases text@.len() - p,
    {
        if text[p] == esc {
            p = p + 1;
            if p < text.len() {
                if text[p] == 10u8 {
                    line = line + 1;
                }
                p = p + 1;
            }
            continue ;
        }
        if starts_with_at(text, p, et) {
            return (p, line);
        }
        if text[p] == 10u8 {
            line = line + 1;
        }
        p = p + 1;
    }
    (p, line)
}

/// Runs a custom rule at `pos`.
fn apply_custom(k: CustomRule, text: &[u8], pos: usize) -> (r: Option<(usize, usize)>)
    requires
        pos < text@.len(),
        text@.len() <= max_text_len(),
    ensures
        r matches Some((c, l)) ==> custom_spec(k, text@, pos as int) == Some((c as int, l as int)),
        r is None ==> custom_spec(k, text@, pos as int) is None,
{
    let b = text[pos];
    let res = match k {
        CustomRule::RustRawString => rust::skip_raw_string(b, text, pos),
        CustomRule::RustCharLiteral => rust::skip_char_literal(b, text, pos),
        CustomRule::CppRawString => cpp::skip_raw_string_literal(b, text, pos),
        CustomRule::CsharpVerbatimString => csharp::skip_verbatim_string_literal(b, text, pos),
        CustomRule::CsharpRawString => csharp::skip_raw_string_literal(b, text, pos),
        CustomRule::PhpHeredoc => php::skip_heredoc(b, text, pos),
        CustomRule::RubyHeredoc => ruby::skip_ruby_heredoc(b, text, pos),
        CustomRule::ShEscapedSingleQuote => sh::skip_escaped_single_quote(b, text, pos),
        CustomRule::ShHeredoc => sh::skip_heredoc(b, text, pos),
    };
    match res {
        Some((c, l, _)) => Some((c, l)),
        None => None,
    }
}

/// Applies one rule at `pos`; `None` when the rule does not apply there.
fn apply_rule<'a>(r: &SyntaxRule, text: &'a [u8], pos: usize, line: usize) -> (res: Option<
    Step<'a>,
>)
    requires
        rule_wf(*r),
        pos < text@.len(),
        line <= pos + 1,
        text@.len() <= max_text_len(),
    ensures
        res matches Some(s) ==> rule_outcome(*r, text@, pos as int, line as int) == Some(s@),
        res is None ==> rule_outcome(*r, text@, pos as int, line as int) is None,
{
    proof {
        lemma_rule_outcome_bounded(*r, text@, pos as int, line as int);
    }
    match r {
        SyntaxRule::LineComment(t) => {
            let tb = t.as_bytes();
            if starts_with_at(text, pos, tb) {
                let p = pos + tb.len();
                let e = scan_line_end(text, p);
                let ls = scan_line_start(text, pos);
                let c = Comment::Line(content(text, p, e), line, content(text, ls, pos));
                if e < text.len() {
                    Some(Step::Emit(c, e + 1, line + 1))
                } else {
                    Some(Step::Emit(c, e, line))
                }
            } else {
                None
            }
        },
        SyntaxRule::BlockComment(s, t) => {
            let sb = s.as_bytes();
            let tb = t.as_bytes();
            if starts_with_at(text, pos, sb) {
                let p = pos + sb.len();
                let (e, l) = scan_block(text, sb, tb, p, line);
                if e < tb.len() || e - tb.len() < p {
                    return Some(Step::Panic);
                }
                let ce = e - tb.len();
                Some(Step::Emit(Comment::Block(content(text, p, ce), line, l), e, l))
            } else {
                None
            }
        },
        SyntaxRule::SkipDelimited(s, t) => {
            let sb = s.as_bytes();
            let tb = t.as_bytes();
            if starts_with_at(text, pos, sb) {
                let (p, l) = scan_skip_until(text, tb, pos + sb.len(), line);
                proof {
                    lemma_skip_until(text@, tb@, pos + sb@.len(), line as int);
                }
                if p < text.len() {
                    Some(Step::Continue(p + tb.len(), l))
                } else {
                    Some(Step::Continue(p, l))
                }
            } else {
                None
            }
        },
        SyntaxRule::SkipDelimitedWithEscape(s, t, esc) => {
            let sb = s.as_bytes();
            let tb = t.as_bytes();
            if starts_with_at(text, pos, sb) {
                let (p, l) = scan_skip_escaped(text, tb, *esc, pos + sb.len(), line);
                proof {
                    lemma_skip_escaped(text@, tb@, *esc, pos + sb@.len(), line as int);
                }
                if p < text.len() {
                    Some(Step::Continue(p + tb.len(), l))
                } else {
                    Some(Step::Continue(p, l))
                }
            } else {
                None
            }
        },
        SyntaxRule::Custom(k) => {
            match apply_custom(*k, text, pos) {
                Some((c, l)) => Some(Step::Continue(pos + c, line + l)),
                None => None,
            }
        },
    }
}

/// One scanning step at `pos`: the first applicable rule, or a one-byte advance.
pub fn step<'a>(rules: &[SyntaxRule], text: &'a [u8], pos: usize, line: usize) -> (res: Step<'a>)
    requires
        rules_wf(rules@),
        pos < text@.len(),
        line <= pos + 1,
        text@.len() <= max_text_len(),
    ensures
        res@ == first_outcome(rules@, text@, pos as int, line as int, 0),
        outcome_bounded(res@, text@, pos as int, line as int),
{
    proof {
        lemma_first_outcome_bounded(rules@, text@, pos as int, line as int, 0);
    }
    let mut j: usize = 0;
    while j < rules.len()
        invariant
            j <= rules@.len(),
            rules_wf(rules@),
            pos < text@.len(),
            line <= pos + 1,
            text@.len() <= max_text_len(),
            first_outcome(rules@, text@, pos as int, line as int, 0) == first_outcome(
                rules@,
                text@,
                pos as int,
                line as int,
                j as int,
            ),
            outcome_bounded(
                first_outcome(rules@, text@, pos as int, line as int, 0),
                text@,
                pos as int,
                line as int,
            ),
        decreases rules@.len() - j,
    {
        assert(rule_wf(rules@[j as int]));
        if let Some(s) = apply_rule(&rules[j], text, pos, line) {
            return s;
        }
        j = j + 1;
    }
    if text[pos] == 10u8 {
        Step::Continue(pos + 1, line + 1)
    } else {
        Step::Continue(pos + 1, line)
    }
}


pub proof fn lemma_next_comment_bounds(rules: Seq<SyntaxRule>, text: Seq<u8>, pos: int, line: int)
    requires
        rules_wf(rules),
        0 <= pos <= text.len(),
    ensures
        next_comment(rules, text, pos, line) matches Scan::Found(_, p, l) ==> pos < p <= text.len()
            && line <= l && l - line <= p - pos,
    decreases text.len() - pos,
{
    if 0 <= pos < text.len() {
        lemma_first_outcome_bounded(rules, text, pos as int, line, 0);
        match first_outcome(rules, text, pos, line, 0) {
            Outcome::Continue(p, l) => {
                if pos < p <= text.len() {
                    lemma_next_comment_bounds(rules, text, p, l);
                }
            },
            _ => {},
        }
    }
}

/// Iterates over the comments of a text.
pub struct CommentParser<'a> {
    syntax_rules: &'a [SyntaxRule],
    text: &'a [u8],
    len: usize,
    position: usize,
    line_number: usize,
}

impl<'a> CommentParser<'a> {
    /// The rules in use.
    pub closed spec fn rules(&self) -> Seq<SyntaxRule> {
        self.syntax_rules@
    }

    /// The text being scanned.
    pub closed spec fn text(&self) -> Seq<u8> {
        self.text@
    }

    /// The byte position where scanning resumes.
    pub closed spec fn position(&self) -> int {
        self.position as int
    }

    /// The line number at that position.
    pub closed spec fn line(&self) -> int {
        self.line_number as int
    }

    pub closed spec fn wf(&self) -> bool {
        &&& rules_wf(self.syntax_rules@)
        &&& self.len == self.text@.len()
        &&& self.text@.len() <= max_text_len()
        &&& self.position <= self.len
        &&& 1 <= self.line_number <= self.position + 1
    }

    /// A scanner at the start (line 1) of `text`.
    pub fn new(syntax_rules: &'a [SyntaxRule], text: &'a [u8]) -> (r: Self)
        requires
            rules_wf(syntax_rules@),
            text@.len() <= max_text_len(),
        ensures
            r.wf(),
            r.rules() == syntax_rules@,
            r.text() == text@,
            r.position() == 0,
            r.line() == 1,
            r.text().len() <= max_text_len(),
    {
        Self { syntax_rules, text, len: text.len(), position: 0, line_number: 1 }
    }

    /// The next comment, `Ok(None)` at the end of the text, and an error where a block
    /// comment ends too early for its closing token.
    pub fn next_comment(&mut self) -> (r: Result<Option<Comment<'a>>, ParseError>)
        requires
            old(self).wf(),
        ensures
            final(self).wf(),
            final(self).rules() == old(self).rules(),
            final(self).text() == old(self).text(),
            0 <= final(self).position() <= final(self).text().len(),
            match next_comment(
                old(self).rules(),
                old(self).text(),
                old(self).position(),
                old(self).line(),
            ) {
                Scan::End => r matches Ok(None) && final(self).position() == final(self).text().len(),
                Scan::Found(c, p, l) => r matches Ok(Some(rc)) && rc@ == c && final(self).position()
                    == p && final(self).line() == l,
                Scan::Panic => r matches Err(ParseError::TruncatedBlockComment),
            },
    {
        proof {
            lemma_next_comment_bounds(self.syntax_rules@, self.text@, self.position as int, self.line_number as int);
        }
        let ghost start = next_comment(old(self).rules(), old(self).text(), old(self).position(), old(self).line());
        if self.position >= self.len {
            return Ok(None);
        }
        while self.position < self.len
            invariant
                self.wf(),
                self.rules() == old(self).rules(),
                self.text() == old(self).text(),
                start == next_comment(old(self).rules(), old(self).text(), old(self).position(), old(self).line()),
                start == next_comment(self.rules(), self.text(), self.position(), self.line()),
                start matches Scan::Found(_, p, l) ==> self.position < p <= self.len && self.line_number <= l,
            decreases self.len - self.position,
        {
            match step(self.syntax_rules, self.text, self.position, self.line_number) {
                Step::Emit(c, p, l) => {
                    assert(next_comment(self.rules(), self.text(), self.position(), self.line())
                        == Scan::Found(c@, p as int, l as int));
                    self.position = p;
                    self.line_number = l;
                    return Ok(Some(c));
                },
                Step::Continue(p, l) => {
                    proof {
                        lemma_next_comment_bounds(self.syntax_rules@, self.text@, p as int, l as int);
                    }
                    self.position = p;
                    self.line_number = l;
                },
                Step::Panic => {
                    assert(next_comment(self.rules(), self.text(), self.position(), self.line())
                        == Scan::Panic);
                    return Err(ParseError::TruncatedBlockComment);
                },
            }
        }
        Ok(None)
    }
}

} // verus!
