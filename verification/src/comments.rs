//! Comments in C-like text: `//` to the end of the line, and `/*` to the first `*/`.
use vstd::prelude::*;
use vstd::string::StringSliceAdditionalSpecFns;
use crate::display::char_width;
use crate::text::{
    byte_at, find_byte, find_byte_from, find_bytes, find_from, lemma_find_byte, lemma_find_from,
    push_bytes, string_from_utf8, string_of, trim, trim_bounds};

verus! {

/// Why a comment could not be read.
#[derive(Clone, Copy, Debug, PartialEq, Eq, Structural)]
pub enum CommentErrorKind {
    /// The text does not open the comment.
    Tag,
    /// A block comment is never closed.
    TakeUntil,
}

/// A failed read: what was left of the text where it failed, and why.
#[derive(Debug, PartialEq)]
pub struct CommentError {
    pub input: String,
    pub kind: CommentErrorKind,
}

/// The `*/` that closes a block comment.
pub open spec fn block_close() -> Seq<u8> {
    seq![42u8, 47u8]
}

/// The line comment that opens at byte `i` of `b`, if one does: its text, trimmed, and
/// where what follows it starts (past the line break, if there is one).
pub open spec fn line_comment_at(b: Seq<u8>, i: int) -> Option<(Seq<u8>, int)> {
    if byte_at(b, i, 47u8) && byte_at(b, i + 1, 47u8) {
        let e = find_byte(b, 10u8, i + 2);
        Some((trim(b.subrange(i + 2, e)), if e < b.len() { e + 1 } else { e }))
    } else {
        None
    }
}

/// `b` opens a block comment at byte `i`.
pub open spec fn opens_block(b: Seq<u8>, i: int) -> bool {
    byte_at(b, i, 47u8) && byte_at(b, i + 1, 42u8)
}

/// The block comment that opens at byte `i` of `b` and is closed, if there is one: its
/// text, trimmed, and where what follows it starts.
pub open spec fn block_comment_at(b: Seq<u8>, i: int) -> Option<(Seq<u8>, int)> {
    if opens_block(b, i) {
        match find_from(b, block_close(), i + 2) {
            Some(k) => Some((trim(b.subrange(i + 2, k)), k + 2)),
            None => None,
        }
    } else {
        None
    }
}

/// One step of a scan at byte `i`: a comment, or else the one character there; with
/// where the next step starts.
pub open spec fn piece_at(b: Seq<u8>, i: int) -> (Seq<u8>, int) {
    match line_comment_at(b, i) {
        Some(c) => c,
        None => match block_comment_at(b, i) {
            Some(c) => c,
            None => {
                let e = if i + char_width(b[i]) <= b.len() {
                    i + char_width(b[i])
                } else {
                    b.len() as int
                };
                (b.subrange(i, e), e)
            },
        },
    }
}

/// The pieces of `b` from byte `i` on (see [`piece_at`]) that are longer than one
/// byte, in order: the comments, and the characters of more than one byte.
pub open spec fn comments_from(b: Seq<u8>, i: int) -> Seq<Seq<u8>>
    decreases b.len() - i,
{
    if 0 <= i < b.len() && i < piece_at(b, i).1 <= b.len() {
        let p = piece_at(b, i).0;
        (if p.len() > 1 {
            seq![p]
        } else {
            Seq::empty()
        }) + comments_from(b, piece_at(b, i).1)
    } else {
        Seq::empty()
    }
}

proof fn lemma_piece_advances(b: Seq<u8>, i: int)
    requires
        0 <= i < b.len(),
    ensures
        i < piece_at(b, i).1 <= b.len(),
{
    if byte_at(b, i, 47u8) && byte_at(b, i + 1, 47u8) {
        lemma_find_byte(b, 10u8, i + 2);
    } else if opens_block(b, i) {
        lemma_find_from(b, block_close(), i + 2);
    }
}

/// The string of the bytes `b[s..e]`.
fn string_of_range(b: &[u8], s: usize, e: usize) -> (r: String)
    requires
        s <= e <= b@.len(),
    ensures
        r@ == string_of(b@.subrange(s as int, e as int)),
{
    let mut v: Vec<u8> = Vec::new();
    push_bytes(&mut v, &b[s..e]);
    assert(v@ =~= b@.subrange(s as int, e as int));
    string_from_utf8(v)
}

/// Bounds `(s, e, next)` of the line comment at `i`: its trimmed text is `b[s..e]`.
fn line_comment_bounds(b: &[u8], i: usize) -> (r: Option<(usize, usize, usize)>)
    requires
        i <= b@.len(),
    ensures
        match line_comment_at(b@, i as int) {
            Some(c) => r matches Some(t) && t.0 <= t.1 <= b@.len() && b@.subrange(t.0 as int, t.1 as int)
                == c.0 && t.2 == c.1 && t.2 <= b@.len(),
            None => r is None,
        },
{
    if !(i < b.len() && b[i] == 47u8 && b.len() - i > 1 && b[i + 1] == 47u8) {
        return None;
    }
    let e = find_byte_from(b, 10u8, i + 2);
    let (s, t) = trim_bounds(&b[i + 2..e]);
    proof {
        assert(b@.subrange(i + 2 + s, i + 2 + t) =~= b@.subrange(i + 2, e as int).subrange(
            s as int,
            t as int,
        ));
    }
    let next = if e < b.len() {
        e + 1
    } else {
        e
    };
    Some((i + 2 + s, i + 2 + t, next))
}

/// Bounds `(s, e, next)` of the closed block comment at `i`: its trimmed text is
/// `b[s..e]`. `Err(true)` where a block comment opens at `i` but is never closed,
/// `Err(false)` where none opens there.
fn block_comment_bounds(b: &[u8], i: usize) -> (r: Result<(usize, usize, usize), bool>)
    requires
        i <= b@.len(),
    ensures
        match block_comment_at(b@, i as int) {
            Some(c) => r matches Ok(t) && t.0 <= t.1 <= b@.len() && b@.subrange(t.0 as int, t.1 as int)
                == c.0 && t.2 == c.1 && t.2 <= b@.len(),
            None => r == Err::<(usize, usize, usize), bool>(opens_block(b@, i as int)),
        },
{
    if !(i < b.len() && b[i] == 47u8 && b.len() - i > 1 && b[i + 1] == 42u8) {
        return Err(false);
    }
    let close: Vec<u8> = vec![42u8, 47u8];
    assert(close@ =~= block_close());
    match find_bytes(b, close.as_slice(), i + 2) {
        Some(k) => {
            proof {
                lemma_find_from(b@, block_close(), i + 2);
            }
            let (s, t) = trim_bounds(&b[i + 2..k]);
            proof {
                assert(b@.subrange(i + 2 + s, i + 2 + t) =~= b@.subrange(i + 2, k as int).subrange(
                    s as int,
                    t as int,
                ));
            }
            Ok((i + 2 + s, i + 2 + t, k + 2))
        },
        None => Err(true),
    }
}

/// Reads a line comment at the start of `i`: `//`, then up to the end of the line. Gives
/// what follows the line break and the comment's text, trimmed; fails with
/// [`CommentErrorKind::Tag`] where `i` does not start with `//`.
pub fn comment_singleline(i: &str) -> (r: Result<(String, String), CommentError>)
    ensures
        match line_comment_at(i.spec_bytes(), 0) {
            Some(c) => r matches Ok(p) && p.0@ == string_of(
                i.spec_bytes().subrange(c.1, i.spec_bytes().len() as int),
            ) && p.1@ == string_of(c.0),
            None => r matches Err(e) && e.input@ == i@ && e.kind == CommentErrorKind::Tag,
        },
{
    let b = i.as_bytes();
    match line_comment_bounds(b, 0) {
        Some((s, e, next)) => Ok((string_of_range(b, next, b.len()), string_of_range(b, s, e))),
        None => Err(CommentError { input: i.to_owned(), kind: CommentErrorKind::Tag }),
    }
}

/// Reads a block comment at the start of `i`: `/*`, then up to the first `*/`. Gives
/// what follows the `*/` and the comment's text, trimmed; fails with
/// [`CommentErrorKind::Tag`] where `i` does not start with `/*`, and with
/// [`CommentErrorKind::TakeUntil`] (on what follows the `/*`) where no `*/` closes it.
pub fn comment_multiline(i: &str) -> (r: Result<(String, String), CommentError>)
    ensures
        match block_comment_at(i.spec_bytes(), 0) {
            Some(c) => r matches Ok(p) && p.0@ == string_of(
                i.spec_bytes().subrange(c.1, i.spec_bytes().len() as int),
            ) && p.1@ == string_of(c.0),
            None => r matches Err(e) && if opens_block(i.spec_bytes(), 0) {
                e.input@ == string_of(i.spec_bytes().subrange(2, i.spec_bytes().len() as int))
                    && e.kind == CommentErrorKind::TakeUntil
            } else {
                e.input@ == i@ && e.kind == CommentErrorKind::Tag
            },
        },
{
    let b = i.as_bytes();
    match block_comment_bounds(b, 0) {
        Ok((s, e, next)) => Ok((string_of_range(b, next, b.len()), string_of_range(b, s, e))),
        Err(true) => Err(
            CommentError { input: string_of_range(b, 2, b.len()), kind: CommentErrorKind::TakeUntil },
        ),
        Err(false) => Err(CommentError { input: i.to_owned(), kind: CommentErrorKind::Tag }),
    }
}

/// Scans all of `i`, comment by comment and else character by character, and collects
/// the comments' texts (trimmed) together with every piece longer than one byte (see
/// [`comments_from`]). Gives what is left of the text, which is nothing, and the list.
pub fn parse_comments(i: &str) -> (r: (String, Vec<String>))
    ensures
        r.0@.len() == 0,
        r.1@.len() == comments_from(i.spec_bytes(), 0).len(),
        forall|k: int|
            0 <= k < r.1@.len() ==> (#[trigger] r.1@[k])@ == string_of(
                comments_from(i.spec_bytes(), 0)[k],
            ),
{
    let b = i.as_bytes();
    let ghost all = comments_from(b@, 0);
    let mut out: Vec<String> = Vec::new();
    let mut pos: usize = 0;
    while pos < b.len()
        invariant
            pos <= b@.len(),
            b@ == i.spec_bytes(),
            all == comments_from(b@, 0),
            out@.len() + comments_from(b@, pos as int).len() == all.len(),
            forall|k: int| 0 <= k < out@.len() ==> (#[trigger] out@[k])@ == string_of(all[k]),
            forall|k: int|
                0 <= k < comments_from(b@, pos as int).len() ==> #[trigger] comments_from(
                    b@,
                    pos as int,
                )[k] == all[out@.len() + k],
        decreases b@.len() - pos,
    {
        proof {
            lemma_piece_advances(b@, pos as int);
        }
        let ghost piece = piece_at(b@, pos as int);
        let (s, e, next) = match line_comment_bounds(b, pos) {
            Some(t) => t,
            None => match block_comment_bounds(b, pos) {
                Ok(t) => t,
                Err(_) => {
                    let w = if b[pos] >= 0xf0 {
                        4
                    } else if b[pos] >= 0xe0 {
                        3
                    } else if b[pos] >= 0xc0 {
                        2
                    } else {
                        1
                    };
                    let end = if w <= b.len() - pos {
                        pos + w
                    } else {
                        b.len()
                    };
                    (pos, end, end)
                },
            },
        };
        assert(b@.subrange(s as int, e as int) == piece.0 && next == piece.1);
        let ghost rest = comments_from(b@, next as int);
        assert(comments_from(b@, pos as int) == (if piece.0.len() > 1 {
            seq![piece.0]
        } else {
            Seq::empty()
        }) + rest);
        if e - s > 1 {
            let c = string_of_range(b, s, e);
            out.push(c);
            assert forall|k: int| 0 <= k < rest.len() implies #[trigger] rest[k] == all[out@.len() + k] by {
                assert(rest[k] == comments_from(b@, pos as int)[k + 1]);
            }
            assert(all[out@.len() - 1] == comments_from(b@, pos as int)[0]);
        } else {
            assert forall|k: int| 0 <= k < rest.len() implies #[trigger] rest[k] == all[out@.len() + k] by {
                assert(rest[k] == comments_from(b@, pos as int)[k]);
            }
        }
        pos = next;
    }
    (String::new(), out)
}

} // verus!
