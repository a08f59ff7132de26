//! The `.tdz` file format: a TODO per `# TODO ` heading, its description running
//! until the next such heading.
use vstd::prelude::*;
use vstd::slice::slice_to_vec;
use vstd::string::StringSliceAdditionalSpecFns;
use crate::text::{
    max_text_len, push_bytes, starts_at, starts_with_at, string_from_utf8, trim, trim_bounds,
    trim_end, trimmed_end};
use super::{RawTodo, SpecTodo, content_of, lemma_line_end, line_end, nl};
use super::scan::scan_line_end;
use super::todos::{RawParser, line_at, line_bounds, spec_views, todo_views, lemma_views_push};

verus! {

/// The heading that starts a TODO: `# `, the token, and a space.
pub open spec fn marker_of(token: Seq<u8>) -> Seq<u8> {
    seq![35u8, 32u8] + token + seq![32u8]
}

/// A TODO heading starts at `p`, and the byte before it is not `#` (so `## TODO` is
/// no TODO).
pub open spec fn marker_at(text: Seq<u8>, p: int, m: Seq<u8>) -> bool {
    &&& !(p > 0 && text[p - 1] == 35u8)
    &&& starts_at(text, p, m)
}

/// The bytes from `a` up to `b` are all spaces or tabs.
pub open spec fn blank(text: Seq<u8>, a: int, b: int) -> bool {
    forall|k: int| a <= k < b ==> (text[k] == 32u8 || text[k] == 9u8)
}

/// Scans the description lines from `pos` (on line `line`) up to the next TODO heading
/// or the end; `(last_end, last_line)` is the end of the last line with content so far.
/// Returns that end and line, and the position and line number where scanning resumes.
pub open spec fn desc_end(
    text: Seq<u8>,
    m: Seq<u8>,
    pos: int,
    line: int,
    last_end: int,
    last_line: int,
) -> (int, int, int, int)
    decreases text.len() - pos,
{
    if pos < 0 || pos >= text.len() || marker_at(text, pos, m) {
        (last_end, last_line, pos, line)
    } else {
        let e = line_end(text, pos);
        let (le, ll) = if blank(text, pos, e) {
            (last_end, last_line)
        } else {
            (e, line)
        };
        if e < text.len() {
            proof {
                lemma_line_end(text, pos);
            }
            desc_end(text, m, e + 1, line + 1, le, ll)
        } else {
            (le, ll, e, line)
        }
    }
}

/// Where the TODO whose title starts at `start` (on line `start_line`) ends: the end of
/// its content, its last line, and where scanning resumes.
pub open spec fn todo_end(text: Seq<u8>, m: Seq<u8>, start: int, start_line: int) -> (
    int,
    int,
    int,
    int,
) {
    let e = line_end(text, start);
    if e < text.len() {
        desc_end(text, m, e + 1, start_line + 1, e, start_line)
    } else {
        (e, start_line, e, start_line)
    }
}

/// The lines of `t` from position `i` on, each with trailing whitespace removed and
/// preceded by a newline.
pub open spec fn joined_tail(t: Seq<u8>, i: int) -> Seq<u8>
    decreases t.len() + 1 - i,
{
    if 0 <= i < t.len() {
        proof {
            lemma_line_end(t, i);
        }
        seq![10u8] + trim_end(line_at(t, i).0) + joined_tail(t, line_at(t, i).1)
    } else {
        Seq::empty()
    }
}

/// The lines of `t`, each with trailing whitespace removed, joined with newlines.
pub open spec fn joined(t: Seq<u8>) -> Seq<u8> {
    if t.len() == 0 {
        Seq::empty()
    } else {
        trim_end(line_at(t, 0).0) + joined_tail(t, line_at(t, 0).1)
    }
}

/// The TODOs of a `.tdz` text from position `pos` (on line `line`).
pub open spec fn tdz_todos_from(text: Seq<u8>, m: Seq<u8>, pos: int, line: int) -> Seq<SpecTodo>
    decreases text.len() - pos,
{
    if pos < 0 || pos >= text.len() {
        Seq::empty()
    } else if marker_at(text, pos, m) && m.len() > 0 {
        let cs = pos + m.len();
        let (ce, el, np, nl) = todo_end(text, m, cs, line);
        let content = trim(joined(content_of(text, cs, ce)));
        proof {
            lemma_todo_end(text, m, cs, line);
        }
        seq![(line, el, content)] + tdz_todos_from(text, m, np, nl)
    } else {
        let e = line_end(text, pos);
        proof {
            lemma_line_end(text, pos);
        }
        if e < text.len() {
            tdz_todos_from(text, m, e + 1, line + 1)
        } else {
            Seq::empty()
        }
    }
}

pub proof fn lemma_desc_end(
    text: Seq<u8>,
    m: Seq<u8>,
    pos: int,
    line: int,
    last_end: int,
    last_line: int,
)
    requires
        0 <= pos <= text.len(),
        last_end <= pos,
        last_line <= line,
    ensures
        ({
            let (le, ll, np, nl) = desc_end(text, m, pos, line, last_end, last_line);
            &&& last_end <= le <= np <= text.len()
            &&& pos <= np
            &&& last_line <= ll <= nl
            &&& line <= nl
            &&& nl - line <= np - pos
        }),
    decreases text.len() - pos,
{
    if pos < 0 || pos >= text.len() || marker_at(text, pos, m) {
    } else {
        let e = line_end(text, pos);
        lemma_line_end(text, pos);
        let (le, ll) = if blank(text, pos, e) {
            (last_end, last_line)
        } else {
            (e, line)
        };
        if e < text.len() {
            lemma_desc_end(text, m, e + 1, line + 1, le, ll);
        }
    }
}

pub proof fn lemma_todo_end(text: Seq<u8>, m: Seq<u8>, start: int, start_line: int)
    requires
        0 <= start <= text.len(),
    ensures
        ({
            let (ce, el, np, nl) = todo_end(text, m, start, start_line);
            &&& start <= ce <= np <= text.len()
            &&& start_line <= el <= nl
            &&& nl - start_line <= np - start
        }),
{
    lemma_line_end(text, start);
    let e = line_end(text, start);
    if e < text.len() {
        lemma_desc_end(text, m, e + 1, start_line + 1, e, start_line);
    }
}

/// Parses `.tdz` files.
pub struct Parser {
    todo_token: Vec<u8>,
}

/// Returns whether a TODO heading `m` starts at `p` (see [`marker_at`]).
fn is_todo_marker_at(bytes: &[u8], position: usize, todo_marker: &[u8]) -> (r: bool)
    requires
        position <= bytes@.len(),
    ensures
        r == marker_at(bytes@, position as int, todo_marker@),
{
    if position > 0 && bytes[position - 1] == 35u8 {
        return false;
    }
    starts_with_at(bytes, position, todo_marker)
}

/// Returns whether the bytes from `a` up to `b` are all spaces or tabs.
fn is_blank(bytes: &[u8], a: usize, b: usize) -> (r: bool)
    requires
        a <= b <= bytes@.len(),
    ensures
        r == blank(bytes@, a as int, b as int),
{
    let mut k = a;
    while k < b
        invariant
            a <= k <= b <= bytes@.len(),
            blank(bytes@, a as int, k as int),
        decreases b - k,
    {
        if bytes[k] != 32u8 && bytes[k] != 9u8 {
            return false;
        }
        k = k + 1;
    }
    true
}

/// Finds where the TODO whose title starts at `start` ends: returns the end of its
/// content, its last line, and the position and line number after it (see
/// [`todo_end`]).
fn find_todo_end(bytes: &[u8], start: usize, start_line: usize, todo_marker: &[u8]) -> (r: (
    usize,
    usize,
    usize,
    usize,
))
    requires
        start <= bytes@.len(),
        bytes@.len() <= max_text_len(),
        start_line <= start + 1,
    ensures
        (r.0 as int, r.1 as int, r.2 as int, r.3 as int) == todo_end(
            bytes@,
            todo_marker@,
            start as int,
            start_line as int,
        ),
{
    proof {
        lemma_todo_end(bytes@, todo_marker@, start as int, start_line as int);
    }
    let len = bytes.len();
    let e = scan_line_end(bytes, start);
    if e >= len {
        return (e, start_line, e, start_line);
    }
    let ghost whole = todo_end(bytes@, todo_marker@, start as int, start_line as int);
    let mut last_content_end = e;
    let mut last_content_line = start_line;
    let mut position = e + 1;
    let mut line_number = start_line + 1;
    while position < len
        invariant
            len == bytes@.len(),
            len <= max_text_len(),
            start < position <= len,
            line_number - start_line <= position - start,
            start_line < line_number,
            start_line <= start + 1,
            last_content_end <= position,
            last_content_line <= line_number,
            whole == todo_end(bytes@, todo_marker@, start as int, start_line as int),
            whole == desc_end(
                bytes@,
                todo_marker@,
                position as int,
                line_number as int,
                last_content_end as int,
                last_content_line as int,
            ),
        decreases len - position,
    {
        if is_todo_marker_at(bytes, position, todo_marker) {
            return (last_content_end, last_content_line, position, line_number);
        }
        let line_start = position;
        let le = scan_line_end(bytes, position);
        if !is_blank(bytes, line_start, le) {
            last_content_end = le;
            last_content_line = line_number;
        }
        if le < len {
            position = le + 1;
            line_number = line_number + 1;
        } else {
            return (last_content_end, last_content_line, le, line_number);
        }
    }
    (last_content_end, last_content_line, position, line_number)
}

/// The lines of `t`, each with trailing whitespace removed, joined with newlines.
fn join_trimmed_lines(t: &[u8]) -> (r: Vec<u8>)
    ensures
        r@ == joined(t@),
{
    let mut out: Vec<u8> = Vec::new();
    if t.len() == 0 {
        return out;
    }
    let (f, e) = line_bounds(t, 0);
    let first = &t[0..f];
    let te = trimmed_end(first);
    push_bytes(&mut out, &first[0..te]);
    if e >= t.len() {
        assert(joined_tail(t@, e + 1) =~= Seq::<u8>::empty());
        assert(out@ + Seq::<u8>::empty() =~= out@);
        return out;
    }
    let mut i = e + 1;
    assert(joined(t@) == out@ + joined_tail(t@, i as int));
    while i < t.len()
        invariant
            0 < i <= t@.len(),
            joined(t@) == out@ + joined_tail(t@, i as int),
        decreases t@.len() - i,
    {
        let (le, ne) = line_bounds(t, i);
        let line = &t[i..le];
        let lte = trimmed_end(line);
        let ghost before = out@;
        out.push(10u8);
        push_bytes(&mut out, &line[0..lte]);
        proof {
            lemma_line_end(t@, i as int);
            assert(before + joined_tail(t@, i as int) =~= out@ + joined_tail(t@, ne + 1));
        }
        if ne >= t.len() {
            assert(joined_tail(t@, ne + 1) =~= Seq::<u8>::empty());
            assert(out@ + Seq::<u8>::empty() =~= out@);
            return out;
        }
        i = ne + 1;
    }
    assert(out@ + Seq::<u8>::empty() =~= out@);
    out
}

impl Parser {
    /// The TODO token, as UTF-8 bytes.
    pub closed spec fn token(&self) -> Seq<u8> {
        self.todo_token@
    }

    /// A parser for `.tdz` files with the given TODO token.
    pub fn new(todo_token: &str) -> (r: Self)
        ensures
            r.token() == todo_token.spec_bytes(),
    {
        Self { todo_token: slice_to_vec(todo_token.as_bytes()) }
    }

    /// The heading `# TOKEN `.
    fn marker(&self) -> (r: Vec<u8>)
        ensures
            r@ == marker_of(self.token()),
    {
        let mut m: Vec<u8> = Vec::new();
        m.push(35u8);
        m.push(32u8);
        push_bytes(&mut m, self.todo_token.as_slice());
        m.push(32u8);
        assert(m@ =~= marker_of(self.token()));
        m
    }
}

impl RawParser for Parser {
    open spec fn todos_in(&self, text: Seq<u8>) -> Option<Seq<SpecTodo>> {
        Some(tdz_todos_from(text, marker_of(self.token()), 0, 1))
    }

    fn parse(&self, text: &[u8]) -> (r: Vec<RawTodo>) {
        let m = self.marker();
        let marker = m.as_slice();
        let len = text.len();
        let ghost whole = tdz_todos_from(text@, marker@, 0, 1);
        let mut todos: Vec<RawTodo> = Vec::new();
        let ghost mut done: Seq<SpecTodo> = Seq::empty();
        let mut position: usize = 0;
        let mut line_number: usize = 1;
        while position < len
            invariant
                len == text@.len(),
                len <= max_text_len(),
                marker@ == marker_of(self.token()),
                marker@.len() > 0,
                1 <= line_number <= position + 1,
                position <= len,
                whole == tdz_todos_from(text@, marker@, 0, 1),
                whole == done + tdz_todos_from(text@, marker@, position as int, line_number as int),
                todo_views(todos@) == spec_views(done),
            decreases len - position,
        {
            if is_todo_marker_at(text, position, marker) {
                let start_line = line_number;
                let content_start = position + marker.len();
                let (content_end, end_line, next_position, next_line) = find_todo_end(
                    text,
                    content_start,
                    line_number,
                    marker,
                );
                proof {
                    lemma_todo_end(text@, marker@, content_start as int, line_number as int);
                }
                let raw = super::scan::content(text, content_start, content_end);
                let joined_lines = join_trimmed_lines(raw);
                let (a, b) = trim_bounds(joined_lines.as_slice());
                let content = slice_to_vec(&joined_lines.as_slice()[a..b]);
                let ghost x: SpecTodo = (start_line as int, end_line as int, content@);
                let item = (start_line, end_line, string_from_utf8(content));
                proof {
                    lemma_views_push(todos@, done, item, x);
                    let rest = tdz_todos_from(
                        text@,
                        marker@,
                        next_position as int,
                        next_line as int,
                    );
                    assert(done + (seq![x] + rest) =~= done.push(x) + rest);
                    assert(whole == done.push(x) + tdz_todos_from(
                        text@,
                        marker@,
                        next_position as int,
                        next_line as int,
                    ));
                    done = done.push(x);
                }
                todos.push(item);
                position = next_position;
                line_number = next_line;
            } else {
                let e = scan_line_end(text, position);
                if e < len {
                    position = e + 1;
                    line_number = line_number + 1;
                } else {
                    assert(whole == done + Seq::<SpecTodo>::empty());
                    assert(done + Seq::<SpecTodo>::empty() =~= done);
                    return todos;
                }
            }
        }
        assert(done + Seq::<SpecTodo>::empty() =~= done);
        todos
    }
}

} // verus!
