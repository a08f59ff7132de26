//! What holds of every text the parsers read.
use vstd::prelude::*;
use super::{
    Outcome, Scan, SpecComment, SpecTodo, SyntaxRule, block_scan, comments_from, comments_of,
    first_outcome, lemma_block_scan, lemma_first_outcome_bounded, line_end, next_comment,
    rule_outcome, rules_wf, tok,
};
use super::todos::{line_cont, todos_from, todos_of, is_inline};
use crate::text::starts_at;
use super::tdz;

verus! {

/// The line a comment starts on.
pub open spec fn start_line(c: SpecComment) -> int {
    match c {
        SpecComment::Line(_, l, _) => l,
        SpecComment::Block(_, s, _) => s,
    }
}

/// The line a comment ends on.
pub open spec fn end_line(c: SpecComment) -> int {
    match c {
        SpecComment::Line(_, l, _) => l,
        SpecComment::Block(_, _, e) => e,
    }
}

/// Comments from line `line` on, each ending no earlier than it starts, each starting no
/// earlier than the ones before it end.
pub open spec fn comments_ordered(cs: Seq<SpecComment>, line: int) -> bool {
    &&& forall|k: int| 0 <= k < cs.len() ==> line <= start_line(#[trigger] cs[k]) <= end_line(
        cs[k],
    )
    &&& forall|k: int, m: int| 0 <= k < m < cs.len() ==> end_line(#[trigger] cs[k]) <= start_line(
        #[trigger] cs[m],
    )
}

/// TODOs from line `line` on, each ending no earlier than it starts, each starting no
/// earlier than the ones before it end.
pub open spec fn todos_ordered(ts: Seq<SpecTodo>, line: int) -> bool {
    &&& forall|k: int| 0 <= k < ts.len() ==> line <= (#[trigger] ts[k]).0 <= ts[k].1
    &&& forall|k: int, m: int| 0 <= k < m < ts.len() ==> (#[trigger] ts[k]).1 <= (#[trigger] ts[m]).0
}

proof fn lemma_rule_emit_lines(r: SyntaxRule, text: Seq<u8>, pos: int, line: int)
    requires
        0 <= pos < text.len(),
    ensures
        rule_outcome(r, text, pos, line) matches Some(Outcome::Emit(c, p, l)) ==> line
            == start_line(c) && start_line(c) <= end_line(c) <= l,
{
    match r {
        SyntaxRule::BlockComment(s, t) => {
            if starts_at(text, pos, tok(s)) && pos + tok(s).len() <= text.len() {
                lemma_block_scan(text, tok(s), tok(t), pos + tok(s).len(), 1, line);
            }
        },
        _ => {},
    }
}

proof fn lemma_first_emit_lines(rules: Seq<SyntaxRule>, text: Seq<u8>, pos: int, line: int, j: int)
    requires
        0 <= pos < text.len(),
        0 <= j,
    ensures
        first_outcome(rules, text, pos, line, j) matches Outcome::Emit(c, p, l) ==> line
            == start_line(c) && start_line(c) <= end_line(c) <= l,
    decreases rules.len() - j,
{
    if j < rules.len() {
        lemma_rule_emit_lines(rules[j], text, pos, line);
        lemma_first_emit_lines(rules, text, pos, line, j + 1);
    }
}

proof fn lemma_next_comment_lines(rules: Seq<SyntaxRule>, text: Seq<u8>, pos: int, line: int)
    requires
        rules_wf(rules),
        0 <= pos <= text.len(),
    ensures
        next_comment(rules, text, pos, line) matches Scan::Found(c, p, l) ==> line <= start_line(c)
            <= end_line(c) <= l,
    decreases text.len() - pos,
{
    if 0 <= pos < text.len() {
        lemma_first_emit_lines(rules, text, pos, line, 0);
        lemma_first_outcome_bounded(rules, text, pos, line, 0);
        match first_outcome(rules, text, pos, line, 0) {
            Outcome::Continue(p, l) => {
                if pos < p <= text.len() {
                    lemma_next_comment_lines(rules, text, p, l);
                }
            },
            _ => {},
        }
    }
}

proof fn lemma_comments_ordered(rules: Seq<SyntaxRule>, text: Seq<u8>, pos: int, line: int)
    requires
        rules_wf(rules),
        0 <= pos <= text.len(),
    ensures
        comments_from(rules, text, pos, line) matches Some(cs) ==> comments_ordered(cs, line),
    decreases text.len() - pos,
{
    lemma_next_comment_lines(rules, text, pos, line);
    match next_comment(rules, text, pos, line) {
        Scan::Found(c, p, l) => {
            if pos < p <= text.len() {
                lemma_comments_ordered(rules, text, p, l);
                if let Some(rest) = comments_from(rules, text, p, l) {
                    let cs = seq![c] + rest;
                    assert forall|k: int| 0 <= k < cs.len() implies line <= start_line(
                        #[trigger] cs[k],
                    ) <= end_line(cs[k]) by {
                        if k > 0 {
                            assert(cs[k] == rest[k - 1]);
                        }
                    }
                    assert forall|k: int, m: int| 0 <= k < m < cs.len() implies end_line(
                        #[trigger] cs[k],
                    ) <= start_line(#[trigger] cs[m]) by {
                        assert(cs[m] == rest[m - 1]);
                        if k > 0 {
                            assert(cs[k] == rest[k - 1]);
                        }
                    }
                }
            }
        },
        _ => {},
    }
}

/// A line-comment TODO continued from comment `j` on ends on the last line of the last
/// comment it takes in, and the comments after it start no earlier.
proof fn lemma_line_cont_lines(
    token: Seq<u8>,
    cs: Seq<SpecComment>,
    j: int,
    last: int,
    acc: Seq<u8>,
    prefix: Option<int>,
    inline_aware: bool,
    line: int,
)
    requires
        comments_ordered(cs, line),
        1 <= j <= cs.len(),
        last == end_line(cs[j - 1]),
    ensures
        line_cont(token, cs, j, last, acc, prefix, inline_aware) matches Some((k, end, _)) ==> j
            <= k <= cs.len() && end == end_line(cs[k - 1]),
    decreases cs.len() - j,
{
    if j < cs.len() {
        match cs[j] {
            SpecComment::Line(t, ln, code) => {
                if !super::todos::is_todo_start(token, t) && ln == last + 1 && !(inline_aware
                    && is_inline(code)) {
                    match super::todos::cont_line(t, acc, prefix) {
                        None => {},
                        Some((a, p)) => {
                            lemma_line_cont_lines(token, cs, j + 1, ln, a, p, inline_aware, line);
                        },
                    }
                }
            },
            _ => {},
        }
    }
}

proof fn lemma_prepend_ordered(x: SpecTodo, rest: Seq<SpecTodo>, low: int, next_low: int)
    requires
        low <= x.0 <= x.1,
        x.1 <= next_low,
        todos_ordered(rest, next_low),
    ensures
        todos_ordered(seq![x] + rest, low),
{
    let ts = seq![x] + rest;
    assert forall|k: int| 0 <= k < ts.len() implies low <= (#[trigger] ts[k]).0 <= ts[k].1 by {
        if k > 0 {
            assert(ts[k] == rest[k - 1]);
        }
    }
    assert forall|k: int, m: int| 0 <= k < m < ts.len() implies (#[trigger] ts[k]).1 <= (
    #[trigger] ts[m]).0 by {
        assert(ts[m] == rest[m - 1]);
        if k > 0 {
            assert(ts[k] == rest[k - 1]);
        }
    }
}

/// The lowest line of the TODOs of the comments from index `i` on.
pub open spec fn low_line(cs: Seq<SpecComment>, i: int, line: int) -> int {
    if 0 <= i < cs.len() {
        start_line(cs[i])
    } else {
        line
    }
}

proof fn lemma_todos_ordered(token: Seq<u8>, cs: Seq<SpecComment>, i: int, inline_aware: bool, line: int)
    requires
        comments_ordered(cs, line),
        0 <= i <= cs.len(),
    ensures
        todos_from(token, cs, i, inline_aware) matches Some(ts) ==> todos_ordered(
            ts,
            low_line(cs, i, line),
        ),
    decreases cs.len() - i,
{
    if i < cs.len() {
        assert(line <= start_line(cs[i]) <= end_line(cs[i]));
        if i + 1 < cs.len() {
            assert(end_line(cs[i]) <= start_line(cs[i + 1]));
            assert(line <= start_line(cs[i + 1]));
        }
        match cs[i] {
            SpecComment::Line(t, ln, code) => {
                if !super::todos::is_todo_start(token, t) {
                    lemma_todos_ordered(token, cs, i + 1, inline_aware, line);
                } else if inline_aware && is_inline(code) {
                    lemma_todos_ordered(token, cs, i + 1, inline_aware, line);
                    lemma_prepend_todo(token, cs, i, i + 1, inline_aware, line);
                } else {
                    let first = crate::text::trim(super::todos::todo_after(token, t, inline_aware));
                    lemma_line_cont_lines(token, cs, i + 1, ln, first, None, inline_aware, line);
                    match line_cont(token, cs, i + 1, ln, first, None, inline_aware) {
                        None => {},
                        Some((k, end, txt)) => {
                            if i < k <= cs.len() {
                                lemma_todos_ordered(token, cs, k, inline_aware, line);
                                lemma_prepend_todo(token, cs, i, k, inline_aware, line);
                            }
                        },
                    }
                }
            },
            SpecComment::Block(t, s, e) => {
                lemma_todos_ordered(token, cs, i + 1, inline_aware, line);
                if super::todos::is_todo_start(token, t) {
                    lemma_prepend_todo(token, cs, i, i + 1, inline_aware, line);
                }
            },
        }
    }
}

/// A TODO from the lines of comments `i` to `k - 1` put before the TODOs of the comments
/// from `k` on keeps them ordered.
proof fn lemma_prepend_todo(
    token: Seq<u8>,
    cs: Seq<SpecComment>,
    i: int,
    k: int,
    inline_aware: bool,
    line: int,
)
    requires
        comments_ordered(cs, line),
        0 <= i < k <= cs.len(),
        todos_from(token, cs, k, inline_aware) matches Some(rest) ==> todos_ordered(
            rest,
            low_line(cs, k, line),
        ),
    ensures
        forall|x: SpecTodo| #![trigger x.0, x.1]
            x.0 == start_line(cs[i]) && x.1 == end_line(cs[k - 1]) ==> (todos_from(
                token,
                cs,
                k,
                inline_aware,
            ) matches Some(rest) ==> todos_ordered(seq![x] + rest, low_line(cs, i, line))),
{
    assert(start_line(cs[i]) <= end_line(cs[i]));
    assert(start_line(cs[k - 1]) <= end_line(cs[k - 1]));
    if k - 1 > i {
        assert(end_line(cs[i]) <= start_line(cs[k - 1]));
    }
    if k < cs.len() {
        assert(end_line(cs[k - 1]) <= start_line(cs[k]));
    }
    assert forall|x: SpecTodo| #![trigger x.0, x.1]
        x.0 == start_line(cs[i]) && x.1 == end_line(cs[k - 1]) implies (todos_from(
        token,
        cs,
        k,
        inline_aware,
    ) matches Some(rest) ==> todos_ordered(seq![x] + rest, low_line(cs, i, line))) by {
        if let Some(rest) = todos_from(token, cs, k, inline_aware) {
            if k < cs.len() {
                lemma_prepend_ordered(x, rest, low_line(cs, i, line), low_line(cs, k, line));
            } else {
                assert(rest.len() == 0);
                lemma_prepend_ordered(x, rest, low_line(cs, i, line), x.1);
            }
        }
    }
}

/// The TODOs of a text come in order: each starts on a line (counting from 1) no later
/// than it ends, and no earlier than the TODOs before it end.
pub proof fn law_todos_ordered(
    rules: Seq<SyntaxRule>,
    token: Seq<u8>,
    text: Seq<u8>,
    inline_aware: bool,
)
    requires
        rules_wf(rules),
        todos_of(rules, token, text, inline_aware) is Some,
    ensures
        todos_ordered(todos_of(rules, token, text, inline_aware).unwrap(), 1),
{
    lemma_comments_ordered(rules, text, 0, 1);
    let cs = comments_of(rules, text).unwrap();
    lemma_todos_ordered(token, cs, 0, inline_aware, 1);
    let ts = todos_of(rules, token, text, inline_aware).unwrap();
    if cs.len() > 0 {
        assert(1 <= start_line(cs[0]));
        assert forall|k: int| 0 <= k < ts.len() implies 1 <= (#[trigger] ts[k]).0 <= ts[k].1 by {
            assert(low_line(cs, 0, 1) <= ts[k].0);
        }
    }
}

/// The text of a comment.
pub open spec fn comment_text(c: SpecComment) -> Seq<u8> {
    match c {
        SpecComment::Line(t, _, _) => t,
        SpecComment::Block(t, _, _) => t,
    }
}

/// `t` is empty or occurs in `text`.
pub open spec fn in_text(t: Seq<u8>, text: Seq<u8>) -> bool {
    ||| t.len() == 0
    ||| exists|a: int| 0 <= a && a + t.len() <= text.len() && #[trigger] text.subrange(a, a + t.len()) == t
}

proof fn lemma_content_in_text(text: Seq<u8>, a: int, b: int)
    requires
        0 <= a <= b <= text.len(),
    ensures
        in_text(super::content_of(text, a, b), text),
{
    let c = super::content_of(text, a, b);
    if c.len() > 0 {
        assert(text.subrange(a, a + c.len()) == c);
    }
}

proof fn lemma_rule_emit_in_text(r: SyntaxRule, text: Seq<u8>, pos: int, line: int)
    requires
        0 <= pos < text.len(),
    ensures
        rule_outcome(r, text, pos, line) matches Some(Outcome::Emit(c, p, l)) ==> in_text(
            comment_text(c),
            text,
        ),
{
    match r {
        SyntaxRule::LineComment(t) => {
            if starts_at(text, pos, tok(t)) {
                let p = pos + tok(t).len();
                super::lemma_line_end(text, p);
                lemma_content_in_text(text, p, line_end(text, p));
            }
        },
        SyntaxRule::BlockComment(s, t) => {
            if starts_at(text, pos, tok(s)) {
                let p = pos + tok(s).len();
                lemma_block_scan(text, tok(s), tok(t), p, 1, line);
                let (e, l) = block_scan(text, tok(s), tok(t), p, 1, line);
                let ce = e - tok(t).len();
                if ce >= p {
                    lemma_content_in_text(text, p, ce);
                }
            }
        },
        _ => {},
    }
}

proof fn lemma_first_emit_in_text(rules: Seq<SyntaxRule>, text: Seq<u8>, pos: int, line: int, j: int)
    requires
        0 <= pos < text.len(),
        0 <= j,
    ensures
        first_outcome(rules, text, pos, line, j) matches Outcome::Emit(c, p, l) ==> in_text(
            comment_text(c),
            text,
        ),
    decreases rules.len() - j,
{
    if j < rules.len() {
        lemma_rule_emit_in_text(rules[j], text, pos, line);
        lemma_first_emit_in_text(rules, text, pos, line, j + 1);
    }
}

proof fn lemma_comments_in_text(rules: Seq<SyntaxRule>, text: Seq<u8>, pos: int, line: int)
    requires
        rules_wf(rules),
        0 <= pos <= text.len(),
    ensures
        comments_from(rules, text, pos, line) matches Some(cs) ==> forall|k: int|
            0 <= k < cs.len() ==> in_text(comment_text(#[trigger] cs[k]), text),
    decreases text.len() - pos,
{
    lemma_next_comment_in_text(rules, text, pos, line);
    match next_comment(rules, text, pos, line) {
        Scan::Found(c, p, l) => {
            if pos < p <= text.len() {
                lemma_comments_in_text(rules, text, p, l);
                if let Some(rest) = comments_from(rules, text, p, l) {
                    let cs = seq![c] + rest;
                    assert forall|k: int| 0 <= k < cs.len() implies in_text(
                        comment_text(#[trigger] cs[k]),
                        text,
                    ) by {
                        if k > 0 {
                            assert(cs[k] == rest[k - 1]);
                        }
                    }
                }
            }
        },
        _ => {},
    }
}

proof fn lemma_next_comment_in_text(rules: Seq<SyntaxRule>, text: Seq<u8>, pos: int, line: int)
    requires
        rules_wf(rules),
        0 <= pos <= text.len(),
    ensures
        next_comment(rules, text, pos, line) matches Scan::Found(c, p, l) ==> in_text(
            comment_text(c),
            text,
        ),
    decreases text.len() - pos,
{
    if 0 <= pos < text.len() {
        lemma_first_emit_in_text(rules, text, pos, line, 0);
        lemma_first_outcome_bounded(rules, text, pos, line, 0);
        match first_outcome(rules, text, pos, line, 0) {
            Outcome::Continue(p, l) => {
                if pos < p <= text.len() {
                    lemma_next_comment_in_text(rules, text, p, l);
                }
            },
            _ => {},
        }
    }
}

proof fn lemma_find_from_finds(text: Seq<u8>, tok: Seq<u8>, from: int, i: int)
    requires
        0 <= from <= i,
        starts_at(text, i, tok),
    ensures
        crate::text::find_from(text, tok, from) is Some,
    decreases i - from,
{
    if from < i && !starts_at(text, from, tok) {
        lemma_find_from_finds(text, tok, from + 1, i);
    }
}

/// A comment in `text` starts no TODO when `token` does not occur in `text`.
proof fn lemma_no_token_no_start(token: Seq<u8>, t: Seq<u8>, text: Seq<u8>)
    requires
        token.len() > 0,
        crate::text::find_from(text, token, 0) is None,
        in_text(t, text),
    ensures
        !super::todos::is_todo_start(token, t),
{
    if super::todos::is_todo_start(token, t) {
        let s = crate::text::skip_ws(t, 0);
        crate::text::lemma_skip_ws_bounds(t, 0);
        let ts = crate::text::trim_start(t);
        assert(t.subrange(s, s + token.len()) =~= ts.subrange(0, token.len() as int));
        let a = choose|a: int| 0 <= a && a + t.len() <= text.len() && #[trigger] text.subrange(
            a,
            a + t.len(),
        ) == t;
        assert(text.subrange(a + s, a + s + token.len()) =~= t.subrange(s, s + token.len()));
        lemma_find_from_finds(text, token, 0, a + s);
    }
}

proof fn lemma_todos_without_token(
    token: Seq<u8>,
    cs: Seq<SpecComment>,
    i: int,
    inline_aware: bool,
    text: Seq<u8>,
)
    requires
        token.len() > 0,
        crate::text::find_from(text, token, 0) is None,
        forall|k: int| 0 <= k < cs.len() ==> in_text(comment_text(#[trigger] cs[k]), text),
        0 <= i <= cs.len(),
    ensures
        todos_from(token, cs, i, inline_aware) == Some(Seq::<SpecTodo>::empty()),
    decreases cs.len() - i,
{
    if i < cs.len() {
        lemma_no_token_no_start(token, comment_text(cs[i]), text);
        lemma_todos_without_token(token, cs, i + 1, inline_aware, text);
    }
}

/// A text in which the (non-empty) TODO token does not occur holds no TODO.
pub proof fn law_no_token_no_todos(
    rules: Seq<SyntaxRule>,
    token: Seq<u8>,
    text: Seq<u8>,
    inline_aware: bool,
)
    requires
        rules_wf(rules),
        token.len() > 0,
        crate::text::find_from(text, token, 0) is None,
    ensures
        comments_of(rules, text) is Some ==> todos_of(rules, token, text, inline_aware) == Some(
            Seq::<SpecTodo>::empty(),
        ),
{
    lemma_comments_in_text(rules, text, 0, 1);
    if let Some(cs) = comments_of(rules, text) {
        lemma_todos_without_token(token, cs, 0, inline_aware, text);
    }
}

/// The number of lines from position `pos` on that are `.tdz` TODO headings `m`.
pub open spec fn heading_count(text: Seq<u8>, m: Seq<u8>, pos: int) -> nat
    decreases text.len() - pos,
{
    if pos < 0 || pos >= text.len() {
        0
    } else {
        let e = line_end(text, pos);
        let here: nat = if tdz::marker_at(text, pos, m) {
            1
        } else {
            0
        };
        proof {
            super::lemma_line_end(text, pos);
        }
        if e < text.len() {
            here + heading_count(text, m, e + 1)
        } else {
            here
        }
    }
}

/// Positions from `a` up to `b` hold no newline.
pub open spec fn no_newline(text: Seq<u8>, a: int, b: int) -> bool {
    forall|k: int| a <= k < b ==> text[k] != 10u8
}

proof fn lemma_line_end_skip(text: Seq<u8>, a: int, b: int)
    requires
        0 <= a <= b <= text.len(),
        no_newline(text, a, b),
    ensures
        line_end(text, a) == line_end(text, b),
    decreases b - a,
{
    if a < b {
        lemma_line_end_skip(text, a + 1, b);
    }
}

/// Scanning a description from line start `q` ends at a heading or at the end of the
/// text, passing over no heading.
proof fn lemma_desc_end_headings(
    text: Seq<u8>,
    m: Seq<u8>,
    q: int,
    line: int,
    le: int,
    ll: int,
)
    requires
        0 <= q <= text.len(),
    ensures
        heading_count(text, m, q) == heading_count(text, m, tdz::desc_end(text, m, q, line, le, ll).2),
    decreases text.len() - q,
{
    if q < text.len() && !tdz::marker_at(text, q, m) {
        let e = line_end(text, q);
        super::lemma_line_end(text, q);
        let (le2, ll2) = if tdz::blank(text, q, e) {
            (le, ll)
        } else {
            (e, line)
        };
        if e < text.len() {
            lemma_desc_end_headings(text, m, e + 1, line + 1, le2, ll2);
        }
    }
}

proof fn lemma_tdz_count(text: Seq<u8>, m: Seq<u8>, pos: int, line: int)
    requires
        0 <= pos <= text.len(),
        m.len() > 0,
        no_newline(m, 0, m.len() as int),
    ensures
        tdz::tdz_todos_from(text, m, pos, line).len() == heading_count(text, m, pos),
    decreases text.len() - pos,
{
    if pos < text.len() {
        super::lemma_line_end(text, pos);
        if tdz::marker_at(text, pos, m) {
            let cs = pos + m.len();
            assert forall|k: int| pos <= k < cs implies text[k] != 10u8 by {
                assert(text.subrange(pos, cs)[k - pos] == m[k - pos]);
            }
            lemma_line_end_skip(text, pos, cs);
            tdz::lemma_todo_end(text, m, cs, line);
            let e = line_end(text, cs);
            let (ce, el, np, nl) = tdz::todo_end(text, m, cs, line);
            if e < text.len() {
                lemma_desc_end_headings(text, m, e + 1, line + 1, e, line);
            }
            lemma_tdz_count(text, m, np, nl);
        } else {
            let e = line_end(text, pos);
            if e < text.len() {
                lemma_tdz_count(text, m, e + 1, line + 1);
            }
        }
    }
}

/// Every `.tdz` heading `# TOKEN ` (at the start of a line, the token holding no
/// newline) starts one TODO: a `.tdz` text holds as many TODOs as heading lines.
pub proof fn law_tdz_one_todo_per_heading(text: Seq<u8>, token: Seq<u8>)
    requires
        no_newline(token, 0, token.len() as int),
    ensures
        tdz::tdz_todos_from(text, tdz::marker_of(token), 0, 1).len() == heading_count(
            text,
            tdz::marker_of(token),
            0,
        ),
{
    let m = tdz::marker_of(token);
    assert forall|k: int| 0 <= k < m.len() implies m[k] != 10u8 by {
        if 2 <= k < 2 + token.len() {
            assert(m[k] == token[k - 2]);
        }
    }
    lemma_tdz_count(text, m, 0, 1);
}

} // verus!

verus! {

/// The number of newlines in `text` before position `p`.
pub open spec fn newlines_before(text: Seq<u8>, p: int) -> int
    decreases p,
{
    if p <= 0 {
        0
    } else {
        newlines_before(text, p - 1) + super::nl(text[p - 1])
    }
}

/// `t` holds no newline.
pub open spec fn single_line(t: Seq<u8>) -> bool {
    forall|i: int| 0 <= i < t.len() ==> t[i] != 10u8
}

/// The rule is one of the comment and skip rules, none of its tokens spans lines, and its
/// escape byte is no newline.
pub open spec fn counts_lines(r: SyntaxRule) -> bool {
    match r {
        SyntaxRule::LineComment(t) => single_line(tok(t)),
        SyntaxRule::BlockComment(s, t) => single_line(tok(s)) && single_line(tok(t)),
        SyntaxRule::SkipDelimited(s, t) => single_line(tok(s)) && single_line(tok(t)),
        SyntaxRule::SkipDelimitedWithEscape(s, t, esc) => single_line(tok(s)) && single_line(
            tok(t),
        ) && esc != 10u8,
        SyntaxRule::Custom(_) => false,
    }
}

/// The opening token of comment rule `r` stands at `q`.
pub open spec fn opens_comment(r: SyntaxRule, text: Seq<u8>, q: int) -> bool {
    match r {
        SyntaxRule::LineComment(t) => starts_at(text, q, tok(t)),
        SyntaxRule::BlockComment(s, _) => starts_at(text, q, tok(s)),
        _ => false,
    }
}

proof fn lemma_token_lines(text: Seq<u8>, q: int, t: Seq<u8>, k: int)
    requires
        starts_at(text, q, t),
        single_line(t),
        0 <= k <= t.len(),
    ensures
        newlines_before(text, q + k) == newlines_before(text, q),
    decreases k,
{
    if k > 0 {
        lemma_token_lines(text, q, t, k - 1);
        assert(text[q + k - 1] == text.subrange(q, q + t.len())[k - 1]);
    }
}

proof fn lemma_line_end_lines(text: Seq<u8>, p: int)
    requires
        0 <= p <= text.len(),
    ensures
        newlines_before(text, line_end(text, p)) == newlines_before(text, p),
    decreases text.len() - p,
{
    if 0 <= p < text.len() && text[p] != 10u8 {
        lemma_line_end_lines(text, p + 1);
    }
}

proof fn lemma_block_scan_lines(
    text: Seq<u8>,
    st: Seq<u8>,
    et: Seq<u8>,
    p: int,
    depth: int,
    line: int,
)
    requires
        0 <= p <= text.len(),
        single_line(st),
        single_line(et),
        line == 1 + newlines_before(text, p),
    ensures
        block_scan(text, st, et, p, depth, line).1 == 1 + newlines_before(
            text,
            block_scan(text, st, et, p, depth, line).0,
        ),
    decreases text.len() - p, depth,
{
    if st.len() == 0 || p < 0 || p >= text.len() || depth <= 0 {
    } else if starts_at(text, p, st) {
        lemma_token_lines(text, p, st, st.len() as int);
        lemma_block_scan_lines(text, st, et, p + st.len(), depth + 1, line);
    } else if starts_at(text, p, et) {
        lemma_token_lines(text, p, et, et.len() as int);
        lemma_block_scan_lines(text, st, et, p + et.len(), depth - 1, line);
    } else {
        lemma_block_scan_lines(text, st, et, p + 1, depth, line + super::nl(text[p]));
    }
}

proof fn lemma_skip_until_lines(text: Seq<u8>, et: Seq<u8>, p: int, line: int)
    requires
        0 <= p <= text.len(),
        line == 1 + newlines_before(text, p),
    ensures
        super::skip_until(text, et, p, line).1 == 1 + newlines_before(
            text,
            super::skip_until(text, et, p, line).0,
        ),
    decreases text.len() - p,
{
    if 0 <= p < text.len() && !starts_at(text, p, et) {
        lemma_skip_until_lines(text, et, p + 1, line + super::nl(text[p]));
    }
}

proof fn lemma_skip_escaped_lines(text: Seq<u8>, et: Seq<u8>, esc: u8, p: int, line: int)
    requires
        0 <= p <= text.len(),
        esc != 10u8,
        line == 1 + newlines_before(text, p),
    ensures
        super::skip_escaped(text, et, esc, p, line).1 == 1 + newlines_before(
            text,
            super::skip_escaped(text, et, esc, p, line).0,
        ),
    decreases text.len() - p,
{
    if p < 0 || p >= text.len() {
    } else if text[p] == esc {
        if p + 1 < text.len() {
            assert(newlines_before(text, p + 1) == newlines_before(text, p));
            lemma_skip_escaped_lines(text, et, esc, p + 2, line + super::nl(text[p + 1]));
        } else {
            assert(newlines_before(text, p + 1) == newlines_before(text, p));
        }
    } else if starts_at(text, p, et) {
    } else {
        lemma_skip_escaped_lines(text, et, esc, p + 1, line + super::nl(text[p]));
    }
}

/// What one rule's step keeps of the line count: the line after it is one more than the
/// newlines before the position after it; a comment it reports starts on the line of
/// its opening token, and a block comment ends on the line after its closing token.
proof fn lemma_rule_lines(r: SyntaxRule, text: Seq<u8>, pos: int, line: int)
    requires
        counts_lines(r),
        0 <= pos < text.len(),
        line == 1 + newlines_before(text, pos),
    ensures
        rule_outcome(r, text, pos, line) matches Some(Outcome::Emit(c, p, l)) ==> l == 1
            + newlines_before(text, p) && start_line(c) == line && opens_comment(r, text, pos)
            && (c is Block ==> end_line(c) == l),
        rule_outcome(r, text, pos, line) matches Some(Outcome::Continue(p, l)) ==> l == 1
            + newlines_before(text, p),
{
    match r {
        SyntaxRule::LineComment(t) => {
            if starts_at(text, pos, tok(t)) {
                let p0 = pos + tok(t).len();
                lemma_token_lines(text, pos, tok(t), tok(t).len() as int);
                lemma_line_end_lines(text, p0);
                super::lemma_line_end(text, p0);
            }
        },
        SyntaxRule::BlockComment(s, t) => {
            if starts_at(text, pos, tok(s)) {
                lemma_token_lines(text, pos, tok(s), tok(s).len() as int);
                lemma_block_scan_lines(text, tok(s), tok(t), pos + tok(s).len(), 1, line);
            }
        },
        SyntaxRule::SkipDelimited(s, t) => {
            if starts_at(text, pos, tok(s)) {
                let p0 = pos + tok(s).len();
                lemma_token_lines(text, pos, tok(s), tok(s).len() as int);
                lemma_skip_until_lines(text, tok(t), p0, line);
                super::lemma_skip_until(text, tok(t), p0, line);
                let (p, l) = super::skip_until(text, tok(t), p0, line);
                if p < text.len() {
                    lemma_token_lines(text, p, tok(t), tok(t).len() as int);
                }
            }
        },
        SyntaxRule::SkipDelimitedWithEscape(s, t, esc) => {
            if starts_at(text, pos, tok(s)) {
                let p0 = pos + tok(s).len();
                lemma_token_lines(text, pos, tok(s), tok(s).len() as int);
                lemma_skip_escaped_lines(text, tok(t), esc, p0, line);
                super::lemma_skip_escaped(text, tok(t), esc, p0, line);
                let (p, l) = super::skip_escaped(text, tok(t), esc, p0, line);
                if p < text.len() {
                    lemma_token_lines(text, p, tok(t), tok(t).len() as int);
                }
            }
        },
        SyntaxRule::Custom(_) => {},
    }
}

proof fn lemma_first_outcome_lines(rules: Seq<SyntaxRule>, text: Seq<u8>, pos: int, line: int, j: int)
    requires
        forall|i: int| 0 <= i < rules.len() ==> #[trigger] counts_lines(rules[i]),
        0 <= pos < text.len(),
        0 <= j,
        line == 1 + newlines_before(text, pos),
    ensures
        first_outcome(rules, text, pos, line, j) matches Outcome::Emit(c, p, l) ==> l == 1
            + newlines_before(text, p) && start_line(c) == line && (exists|i: int|
            0 <= i < rules.len() && #[trigger] opens_comment(rules[i], text, pos)) && (c is Block
            ==> end_line(c) == l),
        first_outcome(rules, text, pos, line, j) matches Outcome::Continue(p, l) ==> l == 1
            + newlines_before(text, p),
    decreases rules.len() - j,
{
    if j < rules.len() {
        lemma_rule_lines(rules[j], text, pos, line);
        lemma_first_outcome_lines(rules, text, pos, line, j + 1);
    } else {
        assert(newlines_before(text, pos + 1) == newlines_before(text, pos) + super::nl(text[pos]));
    }
}

/// Where the scan stands on the line after the newlines before it, the next comment
/// starts on the line after the newlines before its opening token (at some `q`), a block
/// comment ends on the line after the newlines before its end (`p`), and the scan goes
/// on from `p` on the line after the newlines before `p`. This holds for comment and
/// skip rules whose tokens stay on one line.
pub proof fn law_comment_lines_count_newlines(rules: Seq<SyntaxRule>, text: Seq<u8>, pos: int, line: int)
    requires
        rules_wf(rules),
        forall|i: int| 0 <= i < rules.len() ==> #[trigger] counts_lines(rules[i]),
        0 <= pos <= text.len(),
        line == 1 + newlines_before(text, pos),
    ensures
        next_comment(rules, text, pos, line) matches Scan::Found(c, p, l) ==> {
            &&& l == 1 + newlines_before(text, p)
            &&& c is Block ==> end_line(c) == 1 + newlines_before(text, p)
            &&& exists|q: int|
                pos <= q < p && start_line(c) == 1 + newlines_before(text, q) && exists|i: int|
                    0 <= i < rules.len() && #[trigger] opens_comment(rules[i], text, q)
        },
    decreases text.len() - pos,
{
    if 0 <= pos < text.len() {
        lemma_first_outcome_lines(rules, text, pos, line, 0);
        lemma_first_outcome_bounded(rules, text, pos, line, 0);
        match first_outcome(rules, text, pos, line, 0) {
            Outcome::Emit(c, p, l) => {
                let i = choose|i: int| 0 <= i < rules.len() && #[trigger] opens_comment(rules[i], text, pos);
                assert(pos <= pos < p && start_line(c) == 1 + newlines_before(text, pos)
                    && opens_comment(rules[i], text, pos));
            },
            Outcome::Continue(p, l) => {
                if pos < p <= text.len() {
                    law_comment_lines_count_newlines(rules, text, p, l);
                }
            },
            _ => {},
        }
    }
}

/// Every comment of a text starts on the line after the newlines before an opening
/// token at some `q`, and a block comment ends on the line after the newlines before
/// some later position `e`, the end of the comment: its start line plus the newlines in
/// between.
pub proof fn law_comments_of_count_newlines(rules: Seq<SyntaxRule>, text: Seq<u8>)
    requires
        rules_wf(rules),
        forall|i: int| 0 <= i < rules.len() ==> #[trigger] counts_lines(rules[i]),
    ensures
        comments_of(rules, text) matches Some(cs) ==> forall|k: int| 0 <= k < cs.len() ==> #[trigger] comment_placed(rules, text, cs[k]),
{
    lemma_comments_from_lines(rules, text, 0, 1);
}

/// Comment `c` opens at some `q` and ends at some `e` (see [`comment_at`]).
pub open spec fn comment_placed(rules: Seq<SyntaxRule>, text: Seq<u8>, c: SpecComment) -> bool {
    exists|q: int, e: int| #[trigger] comment_at(rules, text, c, q, e)
}

/// Comment `c` opens at `q` (with a token of one of the rules) and ends at `e`.
pub open spec fn comment_at(rules: Seq<SyntaxRule>, text: Seq<u8>, c: SpecComment, q: int, e: int) -> bool {
    &&& 0 <= q < e <= text.len()
    &&& start_line(c) == 1 + newlines_before(text, q)
    &&& c is Block ==> end_line(c) == 1 + newlines_before(text, e)
    &&& exists|i: int| 0 <= i < rules.len() && #[trigger] opens_comment(rules[i], text, q)
}

proof fn lemma_comments_from_lines(rules: Seq<SyntaxRule>, text: Seq<u8>, pos: int, line: int)
    requires
        rules_wf(rules),
        forall|i: int| 0 <= i < rules.len() ==> #[trigger] counts_lines(rules[i]),
        0 <= pos <= text.len(),
        line == 1 + newlines_before(text, pos),
    ensures
        comments_from(rules, text, pos, line) matches Some(cs) ==> forall|k: int| 0 <= k < cs.len() ==> #[trigger] comment_placed(rules, text, cs[k]),
    decreases text.len() - pos,
{
    law_comment_lines_count_newlines(rules, text, pos, line);
    match next_comment(rules, text, pos, line) {
        Scan::Found(c, p, l) => {
            if pos < p <= text.len() {
                lemma_comments_from_lines(rules, text, p, l);
                if let Some(rest) = comments_from(rules, text, p, l) {
                    let cs = seq![c] + rest;
                    let q = choose|q: int|
                        pos <= q < p && start_line(c) == 1 + newlines_before(text, q) && exists|i: int|
                            0 <= i < rules.len() && #[trigger] opens_comment(rules[i], text, q);
                    assert(comment_at(rules, text, c, q, p));
                    assert forall|k: int| 0 <= k < cs.len() implies #[trigger] comment_placed(rules, text, cs[k]) by {
                        if k == 0 {
                            assert(cs[0] == c);
                            assert(comment_at(rules, text, cs[k], q, p));
                        } else {
                            assert(cs[k] == rest[k - 1]);
                        }
                    }
                }
            }
        },
        _ => {},
    }
}

} // verus!
