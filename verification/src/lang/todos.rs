//! Grouping comments into TODOs.
use vstd::prelude::*;
use vstd::string::StringSliceAdditionalSpecFns;
use vstd::slice::slice_to_vec;
use crate::text::{starts_at, 
    char_is_alphanumeric, find_bytes, find_from, leading_ws_len, lemma_find_from, max_text_len,
    push_bytes, skip_ws, starts_with_at, string_from_utf8, string_of, trim, trim_bounds,
    trim_end, trim_start, trimmed_end, unicode_alphanumeric, ws_len, ws_len_at};
use super::{Comment, ParseError, SpecComment, SpecTodo, RawTodo, SyntaxRule, comments_from,
    comments_of, lemma_line_end, line_end, next_comment, rules_wf};
use super::scan::{CommentParser, lemma_next_comment_bounds, scan_line_end};

verus! {

/// The code point encoded at the start of `b` (`u32::MAX` when the bytes there are not
/// a UTF-8 lead byte with enough bytes after it).
pub open spec fn first_code(b: Seq<u8>) -> int {
    let b0 = b[0];
    if b0 < 0x80 {
        b0 as int
    } else if 0xc0 <= b0 < 0xe0 && b.len() >= 2 {
        ((b0 & 0x1f) as u32) * 64 + ((b[1] & 0x3f) as u32)
    } else if 0xe0 <= b0 < 0xf0 && b.len() >= 3 {
        ((b0 & 0x0f) as u32) * 4096 + ((b[1] & 0x3f) as u32) * 64 + ((b[2] & 0x3f) as u32)
    } else if 0xf0 <= b0 && b.len() >= 4 {
        ((b0 & 0x07) as u32) * 262144 + ((b[1] & 0x3f) as u32) * 4096 + ((b[2] & 0x3f) as u32)
            * 64 + ((b[3] & 0x3f) as u32)
    } else {
        0xffff_ffff
    }
}

/// The first character of the UTF-8 text `b`.
pub open spec fn first_char(b: Seq<u8>) -> Option<char> {
    let u = first_code(b);
    if u <= 0x10ffff && !(0xd800 <= u <= 0xdfff) {
        Some(u as char)
    } else {
        None
    }
}

/// Calls `char::from_u32`: the character with code point `u`, if there is one.
#[verifier::external_body]
fn char_from_u32(u: u32) -> (r: Option<char>)
    ensures
        r == (if u <= 0x10ffff && !(0xd800 <= u <= 0xdfff) {
            Some(u as char)
        } else {
            None
        }),
{
    char::from_u32(u)
}

fn decode_first(b: &[u8]) -> (r: Option<char>)
    requires
        b@.len() > 0,
    ensures
        r == first_char(b@),
{
    let b0 = b[0];
    let u: u32 = if b0 < 0x80 {
        b0 as u32
    } else if 0xc0 <= b0 && b0 < 0xe0 && b.len() >= 2 {
        ((b0 & 0x1f) as u32) * 64 + ((b[1] & 0x3f) as u32)
    } else if 0xe0 <= b0 && b0 < 0xf0 && b.len() >= 3 {
        ((b0 & 0x0f) as u32) * 4096 + ((b[1] & 0x3f) as u32) * 64 + ((b[2] & 0x3f) as u32)
    } else if 0xf0 <= b0 && b.len() >= 4 {
        ((b0 & 0x07) as u32) * 262144 + ((b[1] & 0x3f) as u32) * 4096 + ((b[2] & 0x3f) as u32)
            * 64 + ((b[3] & 0x3f) as u32)
    } else {
        0xffff_ffffu32
    };
    char_from_u32(u)
}

/// What follows a TODO token does not continue a word: nothing, whitespace, or a
/// character that is not alphanumeric.
pub open spec fn ends_word(after: Seq<u8>) -> bool {
    ||| after.len() == 0
    ||| ws_len_at(after, 0) > 0
    ||| !(first_char(after) matches Some(c) && unicode_alphanumeric(c))
}

/// The comment text `t`, with leading whitespace removed, starts with the TODO token as
/// a whole word.
pub open spec fn is_todo_start(token: Seq<u8>, t: Seq<u8>) -> bool {
    let ts = trim_start(t);
    &&& token.len() <= ts.len()
    &&& ts.subrange(0, token.len() as int) == token
    &&& ends_word(ts.subrange(token.len() as int, ts.len() as int))
}

/// The text after the first occurrence of the token (`splitn(2, token).nth(1)`).
pub open spec fn after_token(token: Seq<u8>, t: Seq<u8>) -> Seq<u8> {
    match find_from(t, token, 0) {
        Some(i) => t.subrange(i + token.len(), t.len() as int),
        None => Seq::empty(),
    }
}

/// `a` without a `:` at its start (as in `TODO: text`).
pub open spec fn strip_colon(a: Seq<u8>) -> Seq<u8> {
    if a.len() > 0 && a[0] == 58u8 {
        a.subrange(1, a.len() as int)
    } else {
        a
    }
}

/// The text of comment `t` after the TODO token; with `inline_aware`, a `:` right after
/// the token is dropped.
pub open spec fn todo_after(token: Seq<u8>, t: Seq<u8>, inline_aware: bool) -> Seq<u8> {
    if inline_aware {
        strip_colon(after_token(token, t))
    } else {
        after_token(token, t)
    }
}

/// A line comment is inline when code precedes it on its line.
pub open spec fn is_inline(code: Seq<u8>) -> bool {
    skip_ws(code, 0) < code.len()
}

/// The text of an inline TODO: its own text, a blank line, and the code before it
/// between backticks.
pub open spec fn with_code(txt: Seq<u8>, code: Seq<u8>) -> Seq<u8> {
    txt + seq![10u8, 10u8, 96u8] + trim(code) + seq![96u8]
}

/// `p` falls on a character boundary within the leading whitespace of `b`, scanning
/// whole whitespace characters from offset `i`.
pub open spec fn ws_boundary(b: Seq<u8>, i: int, p: int) -> bool
    decreases p - i,
{
    if i == p {
        true
    } else if i < p && ws_len_at(b, i) > 0 && i + ws_len_at(b, i) <= p {
        ws_boundary(b, i + ws_len_at(b, i), p)
    } else {
        false
    }
}

/// Appends a continuation line `l` of a TODO to the text `acc`. The indentation of the
/// first non-blank continuation line (`prefix`) is removed from the following ones;
/// a line indented less is trimmed instead. `None` where removing the prefix would cut a
/// character in two.
pub open spec fn cont_line(l: Seq<u8>, acc: Seq<u8>, prefix: Option<int>) -> Option<
    (Seq<u8>, Option<int>),
> {
    let acc1 = acc.push(10u8);
    let cs = skip_ws(l, 0);
    if cs == l.len() {
        Some((acc1, prefix))
    } else {
        let p = match prefix {
            Some(p) => p,
            None => cs,
        };
        if cs >= p {
            if ws_boundary(l, 0, p) {
                Some((acc1 + trim_end(l.subrange(p, l.len() as int)), Some(p)))
            } else {
                None
            }
        } else {
            Some((acc1 + trim(l), Some(p)))
        }
    }
}

/// Continuation of a line-comment TODO through the comments from index `j`: line
/// comments on the following lines that do not start a TODO themselves (nor, with
/// `inline_aware`, follow code). Returns the index after the TODO's last comment, its
/// last line and its text.
pub open spec fn line_cont(
    token: Seq<u8>,
    cs: Seq<SpecComment>,
    j: int,
    last: int,
    acc: Seq<u8>,
    prefix: Option<int>,
    inline_aware: bool,
) -> Option<(int, int, Seq<u8>)>
    decreases cs.len() - j,
{
    if 0 <= j < cs.len() {
        match cs[j] {
            SpecComment::Line(t, ln, code) => {
                if !is_todo_start(token, t) && ln == last + 1 && !(inline_aware && is_inline(
                    code,
                )) {
                    match cont_line(t, acc, prefix) {
                        None => None,
                        Some((a, p)) => line_cont(token, cs, j + 1, ln, a, p, inline_aware),
                    }
                } else {
                    Some((j, last, acc))
                }
            },
            SpecComment::Block(_, _, _) => Some((j, last, acc)),
        }
    } else {
        Some((j, last, acc))
    }
}

/// The line of `t` starting at `i` (as `str::lines` yields it: without its `\n`, and
/// without a `\r` before that `\n`), and the position of the next line.
pub open spec fn line_at(t: Seq<u8>, i: int) -> (Seq<u8>, int) {
    let e = line_end(t, i);
    let l = t.subrange(i, e);
    if e < t.len() && l.len() > 0 && l.last() == 13u8 {
        (l.drop_last(), e + 1)
    } else {
        (l, e + 1)
    }
}

/// Folds the lines of `t` from position `i` into `acc` with [`cont_line`].
pub open spec fn block_fold(t: Seq<u8>, i: int, acc: Seq<u8>, prefix: Option<int>) -> Option<
    Seq<u8>,
>
    decreases t.len() + 1 - i,
{
    if 0 <= i < t.len() {
        let (l, next) = line_at(t, i);
        proof {
            lemma_line_end(t, i);
        }
        match cont_line(l, acc, prefix) {
            None => None,
            Some((a, p)) => block_fold(t, next, a, p),
        }
    } else {
        Some(acc)
    }
}

/// `s` without its trailing newlines.
pub open spec fn strip_trailing_nl(s: Seq<u8>) -> Seq<u8>
    decreases s.len(),
{
    if s.len() > 0 && s.last() == 10u8 {
        strip_trailing_nl(s.drop_last())
    } else {
        s
    }
}

/// The text of a TODO in block comment `t`: the first line trimmed, the following lines
/// as with [`cont_line`], without trailing newlines.
pub open spec fn block_text(token: Seq<u8>, t: Seq<u8>, inline_aware: bool) -> Option<Seq<u8>> {
    let a = todo_after(token, t, inline_aware);
    if a.len() == 0 {
        Some(Seq::empty())
    } else {
        let (first, next) = line_at(a, 0);
        match block_fold(a, next, trim(first), None) {
            None => None,
            Some(x) => Some(strip_trailing_nl(x)),
        }
    }
}

pub open spec fn prepend(x: SpecTodo, rest: Option<Seq<SpecTodo>>) -> Option<Seq<SpecTodo>> {
    match rest {
        Some(r) => Some(seq![x] + r),
        None => None,
    }
}

/// The TODOs of the comments from index `i` on; `None` where extraction would panic.
/// With `inline_aware`, a TODO in a line comment that follows code on its line stands
/// alone and quotes that code.
pub open spec fn todos_from(token: Seq<u8>, cs: Seq<SpecComment>, i: int, inline_aware: bool) -> Option<
    Seq<SpecTodo>,
>
    decreases cs.len() - i,
{
    if i < 0 || i >= cs.len() {
        Some(Seq::empty())
    } else {
        match cs[i] {
            SpecComment::Line(t, ln, code) => {
                if !is_todo_start(token, t) {
                    todos_from(token, cs, i + 1, inline_aware)
                } else if inline_aware && is_inline(code) {
                    prepend(
                        (ln, ln, with_code(trim(todo_after(token, t, inline_aware)), code)),
                        todos_from(token, cs, i + 1, inline_aware),
                    )
                } else {
                    match line_cont(
                        token,
                        cs,
                        i + 1,
                        ln,
                        trim(todo_after(token, t, inline_aware)),
                        None,
                        inline_aware,
                    ) {
                        None => None,
                        Some((k, end, txt)) => {
                            if i < k <= cs.len() {
                                prepend((ln, end, txt), todos_from(token, cs, k, inline_aware))
                            } else {
                                None
                            }
                        },
                    }
                }
            },
            SpecComment::Block(t, s, e) => {
                if !is_todo_start(token, t) {
                    todos_from(token, cs, i + 1, inline_aware)
                } else {
                    match block_text(token, t, inline_aware) {
                        None => None,
                        Some(txt) => prepend((s, e, txt), todos_from(token, cs, i + 1, inline_aware)),
                    }
                }
            },
        }
    }
}

/// The TODOs that the rules find in `text` with TODO token `token`; `None` where the
/// extraction would panic.
pub open spec fn todos_of(rules: Seq<SyntaxRule>, token: Seq<u8>, text: Seq<u8>, inline_aware: bool) -> Option<
    Seq<SpecTodo>,
> {
    match comments_of(rules, text) {
        None => None,
        Some(cs) => todos_from(token, cs, 0, inline_aware),
    }
}

/// A TODO as returned, with its text as characters.
pub open spec fn raw_view(t: RawTodo) -> (int, int, Seq<char>) {
    (t.0 as int, t.1 as int, t.2@)
}

/// A TODO as specified, with its text decoded.
pub open spec fn spec_view(t: SpecTodo) -> (int, int, Seq<char>) {
    (t.0, t.1, string_of(t.2))
}

/// An optional offset as an integer.
pub open spec fn int_opt(o: Option<usize>) -> Option<int> {
    match o {
        Some(v) => Some(v as int),
        None => None,
    }
}

/// The contents of a sequence of comments.
pub open spec fn comment_views<'a>(cs: Seq<Comment<'a>>) -> Seq<SpecComment> {
    cs.map_values(|c: Comment<'a>| c@)
}

/// Returned TODOs, with their texts as characters.
pub open spec fn todo_views(ts: Seq<RawTodo>) -> Seq<(int, int, Seq<char>)> {
    ts.map_values(|t: RawTodo| raw_view(t))
}

/// Specified TODOs, with their texts decoded.
pub open spec fn spec_views(ts: Seq<SpecTodo>) -> Seq<(int, int, Seq<char>)> {
    ts.map_values(|t: SpecTodo| spec_view(t))
}

pub(crate) proof fn lemma_views_push(out: Seq<RawTodo>, done: Seq<SpecTodo>, a: RawTodo, x: SpecTodo)
    requires
        todo_views(out) == spec_views(done),
        raw_view(a) == spec_view(x),
    ensures
        todo_views(out.push(a)) == spec_views(done.push(x)),
{
    assert(todo_views(out).len() == out.len());
    assert(spec_views(done).len() == done.len());
    assert forall|k: int| 0 <= k < out.len() + 1 implies #[trigger] todo_views(out.push(a))[k]
        == spec_views(done.push(x))[k] by {
        assert(todo_views(out.push(a))[k] == raw_view(out.push(a)[k]));
        assert(spec_views(done.push(x))[k] == spec_view(done.push(x)[k]));
        if k < out.len() {
            assert(out.push(a)[k] == out[k]);
            assert(done.push(x)[k] == done[k]);
            assert(todo_views(out)[k] == raw_view(out[k]));
            assert(spec_views(done)[k] == spec_view(done[k]));
            assert(todo_views(out)[k] == spec_views(done)[k]);
        }
    }
    assert(todo_views(out.push(a)) =~= spec_views(done.push(x)));
}

/// Returns whether `after`, the text after a TODO token, ends the token's word.
fn word_ends(after: &[u8]) -> (r: bool)
    ensures
        r == ends_word(after@),
{
    if after.len() == 0 || ws_len(after, 0) > 0 {
        return true;
    }
    match decode_first(after) {
        Some(c) => !char_is_alphanumeric(c),
        None => true,
    }
}

/// Returns whether offset `p` of `b` lies on a character boundary within its leading
/// whitespace.
fn ws_boundary_at(b: &[u8], p: usize) -> (r: bool)
    ensures
        r == ws_boundary(b@, 0, p as int),
{
    let mut i: usize = 0;
    while i < p
        invariant
            i <= p,
            ws_boundary(b@, 0, p as int) == ws_boundary(b@, i as int, p as int),
        decreases p - i,
    {
        let w = ws_len(b, i);
        if w == 0 || w > p - i {
            return false;
        }
        i = i + w;
    }
    true
}

/// `str::trim` of `a`, as a new vector.
fn trimmed_vec(a: &[u8]) -> (r: Vec<u8>)
    ensures
        r@ == trim(a@),
{
    let (s, e) = trim_bounds(a);
    slice_to_vec(&a[s..e])
}

/// Appends the continuation line `l` to `acc` (see [`cont_line`]); returns the new
/// indentation prefix, `None` where removing the prefix would split a character.
fn push_cont_line(l: &[u8], acc: &mut Vec<u8>, prefix: Option<usize>) -> (r: Option<Option<usize>>)
    ensures
        match cont_line(l@, old(acc)@, int_opt(prefix)) {
            None => r is None,
            Some((a, p)) => r matches Some(np) && final(acc)@ == a && int_opt(np) == p,
        },
{
    acc.push(10u8);
    let cs = leading_ws_len(l);
    if cs == l.len() {
        return Some(prefix);
    }
    let p = match prefix {
        Some(p) => p,
        None => cs,
    };
    if cs >= p {
        if !ws_boundary_at(l, p) {
            return None;
        }
        let rest = &l[p..l.len()];
        let e = trimmed_end(rest);
        push_bytes(acc, &rest[0..e]);
        assert(rest@.subrange(0, e as int) == trim_end(l@.subrange(p as int, l@.len() as int)));
    } else {
        let (s, e) = trim_bounds(l);
        push_bytes(acc, &l[s..e]);
    }
    Some(Some(p))
}

/// Bounds of the line of `a` starting at `i`, as [`line_at`] gives it: the end of its
/// content, and the position of its newline (or the end of `a`).
pub(crate) fn line_bounds(a: &[u8], i: usize) -> (r: (usize, usize))
    requires
        i < a@.len(),
    ensures
        i <= r.0 <= r.1 <= a@.len(),
        r.1 == line_end(a@, i as int),
        a@.subrange(i as int, r.0 as int) == line_at(a@, i as int).0,
        line_at(a@, i as int).1 == r.1 + 1,
{
    let e = scan_line_end(a, i);
    if e < a.len() && e > i && a[e - 1] == 13u8 {
        assert(a@.subrange(i as int, e - 1) =~= a@.subrange(i as int, e as int).drop_last());
        (e - 1, e)
    } else {
        (e, e)
    }
}

/// Removes the trailing newlines of `v`.
fn strip_newlines(v: &mut Vec<u8>)
    ensures
        final(v)@ == strip_trailing_nl(old(v)@),
{
    while v.len() > 0 && v[v.len() - 1] == 10u8
        invariant
            strip_trailing_nl(old(v)@) == strip_trailing_nl(v@),
        decreases v@.len(),
    {
        v.pop();
    }
}

/// A parser that extracts TODOs from the text of a file.
pub trait RawParser {
    /// The TODOs of `text`; `None` where the text cannot be parsed.
    spec fn todos_in(&self, text: Seq<u8>) -> Option<Seq<SpecTodo>>;

    /// The TODOs of `text` as `(start line, end line, text)`.
    fn parse(&self, text: &[u8]) -> (r: Vec<RawTodo>)
        requires
            text@.len() <= max_text_len(),
            self.todos_in(text@) is Some,
        ensures
            todo_views(r@) == spec_views(self.todos_in(text@).unwrap()),
    ;

    /// [`RawParser::parse`] on the UTF-8 encoding of `text`.
    fn parse_str(&self, text: &str) -> (r: Vec<RawTodo>)
        requires
            text.spec_bytes().len() <= max_text_len(),
            self.todos_in(text.spec_bytes()) is Some,
        ensures
            todo_views(r@) == spec_views(self.todos_in(text.spec_bytes()).unwrap()),
    {
        self.parse(text.as_bytes())
    }
}

/// Parses TODO comments with a TODO token and the syntax rules of a language.
pub struct Parser {
    todo_token: Vec<u8>,
    syntax_rules: Vec<SyntaxRule>,
}

impl Parser {
    #[verifier::type_invariant]
    spec fn inv(self) -> bool {
        rules_wf(self.syntax_rules@)
    }

    /// The TODO token, as UTF-8 bytes.
    pub closed spec fn token(&self) -> Seq<u8> {
        self.todo_token@
    }

    /// The syntax rules.
    pub closed spec fn rules(&self) -> Seq<SyntaxRule> {
        self.syntax_rules@
    }

    /// A parser for TODOs introduced by `todo_token` in text with the given syntax.
    pub fn new(todo_token: &str, syntax_rules: Vec<SyntaxRule>) -> (r: Self)
        requires
            rules_wf(syntax_rules@),
        ensures
            r.token() == todo_token.spec_bytes(),
            r.rules() == syntax_rules@,
    {
        Self { todo_token: slice_to_vec(todo_token.as_bytes()), syntax_rules }
    }

    /// The TODOs of `text` (as [`RawParser::parse`] finds them), or why they cannot be
    /// extracted: a block comment too short for its closing token, or a continuation
    /// line whose indentation cannot be removed without splitting a character.
    pub fn try_parse(&self, text: &[u8]) -> (r: Result<Vec<RawTodo>, ParseError>)
        requires
            text@.len() <= max_text_len(),
        ensures
            match comments_of(self.rules(), text@) {
                None => r matches Err(ParseError::TruncatedBlockComment),
                Some(cs) => match todos_from(self.token(), cs, 0, true) {
                    None => r matches Err(ParseError::SplitCharacter),
                    Some(ts) => r matches Ok(v) && todo_views(v@) == spec_views(ts),
                },
            },
    {
        self.extract(text, true)
    }

    /// The TODOs of `text` as `(start line, end line, text)`. A line comment after code
    /// is treated like any other line comment (compare [`RawParser::parse`]).
    pub fn parse_todos(&self, text: &str) -> (r: Vec<RawTodo>)
        requires
            text.spec_bytes().len() <= max_text_len(),
            todos_of(self.rules(), self.token(), text.spec_bytes(), false) is Some,
        ensures
            todo_views(r@) == spec_views(
                todos_of(self.rules(), self.token(), text.spec_bytes(), false).unwrap(),
            ),
    {
        match self.extract(text.as_bytes(), false) {
            Ok(v) => v,
            Err(_) => Vec::new(),
        }
    }

    fn extract(&self, text: &[u8], inline_aware: bool) -> (r: Result<Vec<RawTodo>, ParseError>)
        requires
            text@.len() <= max_text_len(),
        ensures
            match comments_of(self.rules(), text@) {
                None => r matches Err(ParseError::TruncatedBlockComment),
                Some(cs) => match todos_from(self.token(), cs, 0, inline_aware) {
                    None => r matches Err(ParseError::SplitCharacter),
                    Some(ts) => r matches Ok(v) && todo_views(v@) == spec_views(ts),
                },
            },
    {
        proof {
            use_type_invariant(self);
        }
        match collect_comments(self.syntax_rules.as_slice(), text) {
            Err(e) => Err(e),
            Ok(cs) => self.todos_of_comments(&cs, inline_aware),
        }
    }

    /// Returns whether comment text `text` starts a TODO.
    fn is_todo_start(&self, text: &[u8]) -> (r: bool)
        ensures
            r == is_todo_start(self.token(), text@),
    {
        let s = leading_ws_len(text);
        let ts = &text[s..text.len()];
        let tok = self.todo_token.as_slice();
        if !starts_with_at(ts, 0, tok) {
            return false;
        }
        assert(ts@.subrange(0, tok@.len() as int) == tok@);
        word_ends(&ts[tok.len()..ts.len()])
    }

    /// The text after the first occurrence of the TODO token in `t` (see [`todo_after`]).
    fn todo_rest<'b>(&self, t: &'b [u8], inline_aware: bool) -> (r: &'b [u8])
        ensures
            r@ == todo_after(self.token(), t@, inline_aware),
    {
        let tok = self.todo_token.as_slice();
        proof {
            lemma_find_from(t@, tok@, 0);
        }
        let a = match find_bytes(t, tok, 0) {
            Some(i) => {
                assert(starts_at(t@, i as int, tok@));
                let n = t.len();
                assert(i + tok@.len() <= n);
                let k = i + tok.len();
                &t[k..n]
            },
            None => {
                let e = &t[0..0];
                assert(e@ =~= Seq::<u8>::empty());
                e
            },
        };
        if inline_aware && a.len() > 0 && a[0] == 58u8 {
            &a[1..a.len()]
        } else {
            a
        }
    }

    /// Continues a TODO begun by a line comment on line `first`, with the comments from
    /// index `start` on (see [`line_cont`]).
    fn continue_line_todo(
        &self,
        cs: &Vec<Comment>,
        start: usize,
        first: usize,
        first_text: &[u8],
        inline_aware: bool,
    ) -> (r: Option<(usize, usize, Vec<u8>)>)
        requires
            start <= cs@.len(),
        ensures
            match line_cont(self.token(), comment_views(cs@), start as int, first as int, first_text@, None, inline_aware) {
                None => r is None,
                Some((k, end, txt)) => r matches Some((rk, re, rt)) && rk == k && re == end && rt@
                    == txt && start <= rk <= cs@.len(),
            },
    {
        let ghost vc = comment_views(cs@);
        let ghost whole = line_cont(self.token(), vc, start as int, first as int, first_text@, None, inline_aware);
        let mut acc = slice_to_vec(first_text);
        let mut j = start;
        let mut last = first;
        let mut prefix: Option<usize> = None;
        while j < cs.len()
            invariant
                start <= j <= cs@.len(),
                vc == comment_views(cs@),
                whole == line_cont(self.token(), vc, start as int, first as int, first_text@, None, inline_aware),
                whole == line_cont(
                    self.token(),
                    vc,
                    j as int,
                    last as int,
                    acc@,
                    int_opt(prefix),
                    inline_aware,
                ),
            decreases cs@.len() - j,
        {
            assert(vc[j as int] == cs@[j as int]@);
            match &cs[j] {
                Comment::Line(t, ln, code) => {
                    assert(vc[j as int] == SpecComment::Line(t@, *ln as int, code@));
                    if !self.is_todo_start(t) && last < *ln && *ln - last == 1 && !(inline_aware
                        && leading_ws_len(code) < code.len()) {
                        assert(whole == match cont_line(t@, acc@, int_opt(prefix)) {
                            None => None,
                            Some((a, p)) => line_cont(
                                self.token(),
                                vc,
                                j + 1,
                                *ln as int,
                                a,
                                p,
                                inline_aware,
                            ),
                        });
                        match push_cont_line(t, &mut acc, prefix) {
                            None => {
                                return None;
                            },
                            Some(np) => {
                                prefix = np;
                                last = *ln;
                                j = j + 1;
                            },
                        }
                    } else {
                        return Some((j, last, acc));
                    }
                },
                Comment::Block(_, _, _) => {
                    return Some((j, last, acc));
                },
            }
        }
        Some((j, last, acc))
    }

    /// The text of a TODO in the block comment `t` (see [`block_text`]).
    fn block_todo_text(&self, t: &[u8], inline_aware: bool) -> (r: Option<Vec<u8>>)
        ensures
            match block_text(self.token(), t@, inline_aware) {
                None => r is None,
                Some(x) => r matches Some(v) && v@ == x,
            },
    {
        let a = self.todo_rest(t, inline_aware);
        if a.len() == 0 {
            return Some(Vec::new());
        }
        let (f, e) = line_bounds(a, 0);
        let mut acc = trimmed_vec(&a[0..f]);
        if e >= a.len() {
            strip_newlines(&mut acc);
            return Some(acc);
        }
        let ghost whole = block_fold(a@, e + 1, trim(a@.subrange(0, f as int)), None);
        assert(block_text(self.token(), t@, inline_aware) == match whole {
            None => None,
            Some(x) => Some(strip_trailing_nl(x)),
        });
        let mut i = e + 1;
        let mut prefix: Option<usize> = None;
        while i < a.len()
            invariant
                0 < i <= a@.len(),
                block_text(self.token(), t@, inline_aware) == match whole {
                    None => None,
                    Some(x) => Some(strip_trailing_nl(x)),
                },
                whole == block_fold(a@, i as int, acc@, int_opt(prefix)),
            decreases a@.len() - i,
        {
            let (le, ne) = line_bounds(a, i);
            proof {
                lemma_line_end(a@, i as int);
            }
            match push_cont_line(&a[i..le], &mut acc, prefix) {
                None => {
                    return None;
                },
                Some(np) => {
                    prefix = np;
                },
            }
            if ne >= a.len() {
                assert(whole == block_fold(a@, ne + 1, acc@, int_opt(prefix)));
                strip_newlines(&mut acc);
                return Some(acc);
            }
            i = ne + 1;
        }
        strip_newlines(&mut acc);
        Some(acc)
    }

    /// The text of an inline TODO in line comment `t` after `code` (see [`with_code`]).
    fn inline_todo_text(&self, t: &[u8], code: &[u8]) -> (r: Vec<u8>)
        ensures
            r@ == with_code(trim(todo_after(self.token(), t@, true)), code@),
    {
        let rest = self.todo_rest(t, true);
        let (a, b) = trim_bounds(rest);
        let (ca, cb) = trim_bounds(code);
        let mut txt = slice_to_vec(&rest[a..b]);
        txt.push(10u8);
        txt.push(10u8);
        txt.push(96u8);
        push_bytes(&mut txt, &code[ca..cb]);
        txt.push(96u8);
        assert(txt@ =~= with_code(trim(todo_after(self.token(), t@, true)), code@));
        txt
    }

    /// The TODO that starts at comment `i`, if any, and the index of the comment after it.
    fn todo_step(&self, cs: &Vec<Comment>, i: usize, inline_aware: bool) -> (r: Result<
        (Option<RawTodo>, usize, Ghost<SpecTodo>),
        ParseError,
    >)
        requires
            i < cs@.len(),
        ensures
            match r {
                Err(e) => e == ParseError::SplitCharacter && todos_from(
                    self.token(),
                    comment_views(cs@),
                    i as int,
                    inline_aware,
                ) is None,
                Ok((None, k, _)) => i < k <= cs@.len() && todos_from(
                    self.token(),
                    comment_views(cs@),
                    i as int,
                    inline_aware,
                ) == todos_from(self.token(), comment_views(cs@), k as int, inline_aware),
                Ok((Some(t), k, x)) => i < k <= cs@.len() && raw_view(t) == spec_view(x@)
                    && todos_from(self.token(), comment_views(cs@), i as int, inline_aware)
                    == prepend(x@, todos_from(self.token(), comment_views(cs@), k as int, inline_aware)),
            },
    {
        let ghost vc = comment_views(cs@);
        let n = cs.len();
        assert(i + 1 <= n);
        assert(vc[i as int] == cs@[i as int]@);
        match &cs[i] {
            Comment::Line(t, ln, code) => {
                if !self.is_todo_start(t) {
                    Ok((None, i + 1, Ghost((0, 0, Seq::empty()))))
                } else if inline_aware && leading_ws_len(code) < code.len() {
                    let txt = self.inline_todo_text(t, code);
                    let ghost x: SpecTodo = (*ln as int, *ln as int, txt@);
                    Ok((Some((*ln, *ln, string_from_utf8(txt))), i + 1, Ghost(x)))
                } else {
                    let rest = self.todo_rest(t, inline_aware);
                    let (a, b) = trim_bounds(rest);
                    match self.continue_line_todo(cs, i + 1, *ln, &rest[a..b], inline_aware) {
                        None => Err(ParseError::SplitCharacter),
                        Some((k, end, txt)) => {
                            let ghost x: SpecTodo = (*ln as int, end as int, txt@);
                            Ok((Some((*ln, end, string_from_utf8(txt))), k, Ghost(x)))
                        },
                    }
                }
            },
            Comment::Block(t, s, e) => {
                if !self.is_todo_start(t) {
                    Ok((None, i + 1, Ghost((0, 0, Seq::empty()))))
                } else {
                    match self.block_todo_text(t, inline_aware) {
                        None => Err(ParseError::SplitCharacter),
                        Some(txt) => {
                            let ghost x: SpecTodo = (*s as int, *e as int, txt@);
                            Ok((Some((*s, *e, string_from_utf8(txt))), i + 1, Ghost(x)))
                        },
                    }
                }
            },
        }
    }

    /// The TODOs of a sequence of comments (see [`todos_from`]).
    fn todos_of_comments(&self, cs: &Vec<Comment>, inline_aware: bool) -> (r: Result<
        Vec<RawTodo>,
        ParseError,
    >)
        ensures
            match todos_from(self.token(), comment_views(cs@), 0, inline_aware) {
                None => r matches Err(ParseError::SplitCharacter),
                Some(ts) => r matches Ok(v) && todo_views(v@) == spec_views(ts),
            },
    {
        let ghost vc = comment_views(cs@);
        let ghost tok = self.token();
        let mut out: Vec<RawTodo> = Vec::new();
        let ghost mut done: Seq<SpecTodo> = Seq::empty();
        let mut i: usize = 0;
        while i < cs.len()
            invariant
                i <= cs@.len(),
                vc == comment_views(cs@),
                tok == self.token(),
                todo_views(out@) == spec_views(done),
                match todos_from(tok, vc, i as int, inline_aware) {
                    None => todos_from(tok, vc, 0, inline_aware) is None,
                    Some(rest) => todos_from(tok, vc, 0, inline_aware) == Some(done + rest),
                },
            decreases cs@.len() - i,
        {
            match self.todo_step(cs, i, inline_aware) {
                Err(e) => {
                    return Err(e);
                },
                Ok((None, k, _)) => {
                    i = k;
                },
                Ok((Some(item), k, gx)) => {
                    let ghost x = gx@;
                    proof {
                        lemma_views_push(out@, done, item, x);
                        if let Some(r) = todos_from(tok, vc, k as int, inline_aware) {
                            assert(done + (seq![x] + r) =~= done.push(x) + r);
                        }
                        done = done.push(x);
                    }
                    out.push(item);
                    i = k;
                },
            }
        }
        assert(done + Seq::<SpecTodo>::empty() =~= done);
        Ok(out)
    }
}

/// All the comments of `text`, in order.
fn collect_comments<'a>(rules: &'a [SyntaxRule], text: &'a [u8]) -> (r: Result<
    Vec<Comment<'a>>,
    ParseError,
>)
    requires
        rules_wf(rules@),
        text@.len() <= max_text_len(),
    ensures
        match comments_of(rules@, text@) {
            None => r matches Err(ParseError::TruncatedBlockComment),
            Some(cs) => r matches Ok(v) && comment_views(v@) == cs,
        },
{
    let mut cp = CommentParser::new(rules, text);
    let mut out: Vec<Comment<'a>> = Vec::new();
    loop
        invariant
            cp.wf(),
            rules_wf(rules@),
            0 <= cp.position() <= text@.len(),
            cp.rules() == rules@,
            cp.text() == text@,
            match comments_from(rules@, text@, cp.position(), cp.line()) {
                None => comments_of(rules@, text@) is None,
                Some(rest) => comments_of(rules@, text@) == Some(comment_views(out@) + rest),
            },
        decreases text@.len() - cp.position(),
    {
        proof {
            lemma_next_comment_bounds(rules@, text@, cp.position(), cp.line());
        }
        let ghost pos = cp.position();
        let ghost line = cp.line();
        match cp.next_comment() {
            Err(e) => {
                return Err(e);
            },
            Ok(None) => {
                assert(comment_views(out@) + Seq::<SpecComment>::empty() =~= comment_views(out@));
                return Ok(out);
            },
            Ok(Some(c)) => {
                let ghost rest = comments_from(rules@, text@, cp.position(), cp.line());
                proof {
                    if let Some(r) = rest {
                        assert(comment_views(out@) + (seq![c@] + r) =~= comment_views(out@.push(c))
                            + r);
                    }
                }
                out.push(c);
            },
        }
    }
}

impl RawParser for Parser {
    open spec fn todos_in(&self, text: Seq<u8>) -> Option<Seq<SpecTodo>> {
        todos_of(self.rules(), self.token(), text, true)
    }

    fn parse(&self, text: &[u8]) -> (r: Vec<RawTodo>) {
        match self.extract(text, true) {
            Ok(v) => v,
            Err(_) => Vec::new(),
        }
    }
}

} // verus!

