//! Sorting TODOs by a pipeline of keys, such as `priority:asc > creation_date:desc`:
//! the first key orders, and each next key orders what the keys before it leave tied.
use vstd::prelude::*;
use crate::filter::{bytes_lt, file_of, lemma_bytes_lt_asymmetric, lemma_bytes_lt_total,
    lemma_bytes_lt_transitive, opt_date_lt, opt_str_lt, str_before, utf8};
use crate::syntax::{char_views, first_colon, split_words, words};
use crate::text::{chars_of, str_eq, string_of_chars};
use crate::todo::{Date, Todo, TodoIdentifier, date_before};
use vstd::string::StringExecFns;

verus! {

/// A property of a TODO that sorts.
#[derive(Clone, Copy, Debug, PartialEq, Eq, Structural)]
pub enum SortField {
    Id,
    Priority,
    Title,
    File,
    CreationDate,
    CompletionDate,
}

/// One key of a pipeline: a property, ascending or descending.
#[derive(Clone, Copy, Debug, PartialEq, Eq, Structural)]
pub struct SortKey {
    pub field: SortField,
    pub descending: bool,
}

/// The number of a TODO's identifier, if it has one.
pub open spec fn id_number(t: Todo) -> Option<u32> {
    match t.id {
        Some(TodoIdentifier::Primary(n)) => Some(n),
        Some(TodoIdentifier::Reference(n)) => Some(n),
        None => None,
    }
}

/// A TODO's priority letter, `Z` (the lowest) where it has none.
pub open spec fn priority_letter(t: Todo) -> char {
    match t.priority {
        Some(c) => c,
        None => 'Z',
    }
}

/// `a` comes before `b` by `field`, ascending: identifiers by number, priorities from
/// `A`, titles and files byte-wise, dates by the calendar; a TODO without an identifier,
/// a file or a date comes before one with it.
pub open spec fn field_lt(field: SortField, a: Todo, b: Todo) -> bool {
    match field {
        SortField::Id => match (id_number(a), id_number(b)) {
            (None, Some(_)) => true,
            (Some(x), Some(y)) => x < y,
            _ => false,
        },
        SortField::Priority => (priority_letter(a) as u32) < (priority_letter(b) as u32),
        SortField::Title => bytes_lt(utf8(a.title@), utf8(b.title@)),
        SortField::File => opt_str_lt(file_of(a), file_of(b)),
        SortField::CreationDate => opt_date_lt(a.creation_date, b.creation_date),
        SortField::CompletionDate => opt_date_lt(a.completion_date, b.completion_date),
    }
}

/// `a` comes before `b` by the key.
pub open spec fn key_lt(k: SortKey, a: Todo, b: Todo) -> bool {
    if k.descending {
        field_lt(k.field, b, a)
    } else {
        field_lt(k.field, a, b)
    }
}

/// `a` comes before `b` by the pipeline `keys`: by the first key that does not tie them.
pub open spec fn pipeline_lt(keys: Seq<SortKey>, a: Todo, b: Todo) -> bool
    decreases keys.len(),
{
    if keys.len() == 0 {
        false
    } else if key_lt(keys[0], a, b) {
        true
    } else if key_lt(keys[0], b, a) {
        false
    } else {
        pipeline_lt(keys.drop_first(), a, b)
    }
}

pub proof fn lemma_field_lt_asymmetric(field: SortField, a: Todo, b: Todo)
    requires
        field_lt(field, a, b),
    ensures
        !field_lt(field, b, a),
{
    match field {
        SortField::Title => lemma_bytes_lt_asymmetric(utf8(a.title@), utf8(b.title@)),
        SortField::File => {
            if let (Some(x), Some(y)) = (file_of(a), file_of(b)) {
                lemma_bytes_lt_asymmetric(utf8(x), utf8(y));
            }
        },
        _ => {},
    }
}

/// No two TODOs each come before the other.
pub proof fn law_pipeline_asymmetric(keys: Seq<SortKey>, a: Todo, b: Todo)
    requires
        pipeline_lt(keys, a, b),
    ensures
        !pipeline_lt(keys, b, a),
    decreases keys.len(),
{
    if key_lt(keys[0], a, b) {
        if keys[0].descending {
            lemma_field_lt_asymmetric(keys[0].field, b, a);
        } else {
            lemma_field_lt_asymmetric(keys[0].field, a, b);
        }
    } else {
        law_pipeline_asymmetric(keys.drop_first(), a, b);
    }
}

fn opt_date_before(a: Option<Date>, b: Option<Date>) -> (r: bool)
    ensures
        r == opt_date_lt(a, b),
{
    match (a, b) {
        (None, Some(_)) => true,
        (Some(x), Some(y)) => date_before(&x, &y),
        _ => false,
    }
}

/// Returns whether `a` comes before `b` by `field` (see [`field_lt`]).
pub fn field_before(field: SortField, a: &Todo, b: &Todo) -> (r: bool)
    ensures
        r == field_lt(field, *a, *b),
{
    match field {
        SortField::Id => {
            let x = match a.id {
                Some(TodoIdentifier::Primary(n)) => Some(n),
                Some(TodoIdentifier::Reference(n)) => Some(n),
                None => None,
            };
            let y = match b.id {
                Some(TodoIdentifier::Primary(n)) => Some(n),
                Some(TodoIdentifier::Reference(n)) => Some(n),
                None => None,
            };
            match (x, y) {
                (None, Some(_)) => true,
                (Some(x), Some(y)) => x < y,
                _ => false,
            }
        },
        SortField::Priority => {
            let x = match a.priority {
                Some(c) => c,
                None => 'Z',
            };
            let y = match b.priority {
                Some(c) => c,
                None => 'Z',
            };
            (x as u32) < (y as u32)
        },
        SortField::Title => str_before(a.title.as_str(), b.title.as_str()),
        SortField::File => match (&a.file, &b.file) {
            (None, Some(_)) => true,
            (Some(x), Some(y)) => str_before(x.as_str(), y.as_str()),
            _ => false,
        },
        SortField::CreationDate => opt_date_before(a.creation_date, b.creation_date),
        SortField::CompletionDate => opt_date_before(a.completion_date, b.completion_date),
    }
}

/// Returns whether `a` comes before `b` by the pipeline `keys` (see [`pipeline_lt`]).
pub fn pipeline_before(keys: &[SortKey], a: &Todo, b: &Todo) -> (r: bool)
    ensures
        r == pipeline_lt(keys@, *a, *b),
{
    let mut i: usize = 0;
    assert(keys@.skip(0) =~= keys@);
    while i < keys.len()
        invariant
            i <= keys@.len(),
            pipeline_lt(keys@, *a, *b) == pipeline_lt(keys@.skip(i as int), *a, *b),
        decreases keys@.len() - i,
    {
        let k = keys[i];
        let ghost rest = keys@.skip(i as int);
        assert(rest[0] == k);
        assert(rest.drop_first() =~= keys@.skip(i + 1));
        let ab = if k.descending {
            field_before(k.field, b, a)
        } else {
            field_before(k.field, a, b)
        };
        if ab {
            return true;
        }
        let ba = if k.descending {
            field_before(k.field, a, b)
        } else {
            field_before(k.field, b, a)
        };
        if ba {
            return false;
        }
        i = i + 1;
    }
    false
}


/// `r` lists each of the positions `0..n` once.
pub open spec fn is_order_of(r: Seq<usize>, n: int) -> bool {
    &&& r.len() == n
    &&& forall|i: int| 0 <= i < n ==> #[trigger] r[i] < n
    &&& forall|i: int, j: int| 0 <= i < j < n ==> r[i] != r[j]
}

/// The TODOs at positions `r[i]` and `r[i + 1]` of `ts` stand in order: the second does
/// not come before the first, and where neither comes before the other they keep the
/// order they have in `ts`.
pub open spec fn pair_ordered(keys: Seq<SortKey>, ts: Seq<Todo>, r: Seq<usize>, i: int) -> bool {
    let a = ts[r[i] as int];
    let b = ts[r[i + 1] as int];
    &&& !pipeline_lt(keys, b, a)
    &&& !pipeline_lt(keys, a, b) ==> r[i] < r[i + 1]
}

/// Listing `ts` in the order `r` sorts it by `keys`, ties kept in their order.
pub open spec fn sorted_by(keys: Seq<SortKey>, ts: Seq<Todo>, r: Seq<usize>) -> bool {
    forall|i: int| 0 <= i < r.len() - 1 ==> #[trigger] pair_ordered(keys, ts, r, i)
}

proof fn lemma_insert_sorted(keys: Seq<SortKey>, ts: Seq<Todo>, old: Seq<usize>, x: usize, k: int)
    requires
        x < ts.len(),
        is_order_of(old, x as int),
        sorted_by(keys, ts, old),
        0 <= k <= x,
        k < x ==> pipeline_lt(keys, ts[x as int], ts[old[k] as int]),
        k > 0 ==> !pipeline_lt(keys, ts[x as int], ts[old[k - 1] as int]),
    ensures
        is_order_of(old.take(k).push(x) + old.skip(k), x + 1),
        sorted_by(keys, ts, old.take(k).push(x) + old.skip(k)),
{
    let r = old.take(k).push(x) + old.skip(k);
    let m = x as int;
    assert(r.len() == m + 1);
    assert forall|j: int| 0 <= j < m + 1 implies (j < k ==> r[j] == old[j]) && (j == k ==> r[j]
        == x) && (j > k ==> r[j] == old[j - 1]) by {
        if j < k {
            assert(r[j] == old.take(k)[j]);
        } else if j > k {
            assert(r[j] == old.skip(k)[j - k - 1]);
        }
    }
    assert forall|j: int| 0 <= j < m + 1 implies #[trigger] r[j] < m + 1 by {
        if j < k {
            assert(old[j] < m);
        } else if j > k {
            assert(old[j - 1] < m);
        }
    }
    assert forall|a: int, b: int| 0 <= a < b < m + 1 implies r[a] != r[b] by {
        if b < k {
            assert(r[a] == old[a] && r[b] == old[b]);
        } else if b == k {
            assert(old[a] < m);
        } else if a < k {
            assert(r[a] == old[a] && r[b] == old[b - 1]);
        } else if a == k {
            assert(old[b - 1] < m);
        } else {
            assert(r[a] == old[a - 1] && r[b] == old[b - 1]);
        }
    }
    assert forall|j: int| 0 <= j < r.len() - 1 implies #[trigger] pair_ordered(keys, ts, r, j) by {
        if j + 1 < k {
            assert(pair_ordered(keys, ts, old, j));
        } else if j + 1 == k {
            assert(r[j] == old[k - 1]);
            assert(old[k - 1] < m);
        } else if j == k {
            assert(r[j + 1] == old[k]);
            law_pipeline_asymmetric(keys, ts[m], ts[old[k] as int]);
        } else {
            assert(pair_ordered(keys, ts, old, j - 1));
            assert(r[j] == old[j - 1] && r[j + 1] == old[j]);
        }
    }
}

/// The order in which `todos` sort by `keys`: a listing of their positions in which no
/// TODO comes before the one listed ahead of it, and TODOs that tie keep their order.
pub fn sorted_order(todos: &[Todo], keys: &[SortKey]) -> (r: Vec<usize>)
    ensures
        is_order_of(r@, todos@.len() as int),
        sorted_by(keys@, todos@, r@),
{
    let mut r: Vec<usize> = Vec::new();
    let mut x: usize = 0;
    while x < todos.len()
        invariant
            x <= todos@.len(),
            is_order_of(r@, x as int),
            sorted_by(keys@, todos@, r@),
        decreases todos@.len() - x,
    {
        let ghost old = r@;
        r.push(x);
        let mut k: usize = x;
        assert(old.take(k as int).push(x) + old.skip(k as int) =~= r@);
        while k > 0 && pipeline_before(keys, &todos[x], &todos[r[k - 1]])
            invariant
                x < todos@.len(),
                k <= x,
                is_order_of(old, x as int),
                r@ == old.take(k as int).push(x) + old.skip(k as int),
                k < x ==> pipeline_lt(keys@, todos@[x as int], todos@[old[k as int] as int]),
            decreases k,
        {
            proof {
                assert(r@[k - 1] == old[k - 1]);
                assert(old[k - 1] < x);
            }
            let prev = r[k - 1];
            r.set(k - 1, x);
            r.set(k, prev);
            k = k - 1;
            assert(r@ =~= old.take(k as int).push(x) + old.skip(k as int));
        }
        proof {
            if k > 0 {
                assert(r@[k - 1] == old[k - 1]);
            }
            lemma_insert_sorted(keys@, todos@, old, x, k as int);
        }
        x = x + 1;
    }
    r
}


/// The pieces of `s` between `>` signs, empty pieces included.
pub open spec fn stage_pieces(s: Seq<char>) -> Seq<Seq<char>>
    decreases s.len(),
{
    if s.len() == 0 {
        seq![Seq::empty()]
    } else {
        let prev = stage_pieces(s.drop_last());
        if s.last() == '>' {
            prev.push(Seq::empty())
        } else {
            prev.update(prev.len() - 1, prev.last().push(s.last()))
        }
    }
}

proof fn lemma_stage_pieces_len(s: Seq<char>)
    ensures
        stage_pieces(s).len() >= 1,
    decreases s.len(),
{
    if s.len() > 0 {
        lemma_stage_pieces_len(s.drop_last());
    }
}

/// The property a sort key names.
pub open spec fn field_named(name: Seq<char>) -> Option<SortField> {
    if name == "id"@ {
        Some(SortField::Id)
    } else if name == "priority"@ {
        Some(SortField::Priority)
    } else if name == "title"@ {
        Some(SortField::Title)
    } else if name == "file"@ {
        Some(SortField::File)
    } else if name == "creation_date"@ {
        Some(SortField::CreationDate)
    } else if name == "completion_date"@ {
        Some(SortField::CompletionDate)
    } else {
        None
    }
}

/// The key that a word `property:direction` writes, the direction `asc` or `desc`.
pub open spec fn key_word(w: Seq<char>) -> Option<SortKey> {
    if exists|k: int| first_colon(w, k) {
        let k = choose|k: int| first_colon(w, k);
        let dir = w.skip(k + 1);
        match field_named(w.take(k)) {
            Some(f) => if dir == "asc"@ {
                Some(SortKey { field: f, descending: false })
            } else if dir == "desc"@ {
                Some(SortKey { field: f, descending: true })
            } else {
                None
            },
            None => None,
        }
    } else {
        None
    }
}

/// The key that one stage of a pipeline writes: a single key word, with spaces around
/// it or not.
pub open spec fn stage_key(piece: Seq<char>) -> Option<SortKey> {
    let ws = words(piece);
    if ws.len() == 1 {
        key_word(ws[0])
    } else {
        None
    }
}

/// The keys of the stages `ps`, or the first stage that writes no key.
pub open spec fn keys_of(ps: Seq<Seq<char>>) -> Result<Seq<SortKey>, Seq<char>>
    decreases ps.len(),
{
    if ps.len() == 0 {
        Ok(Seq::empty())
    } else {
        match keys_of(ps.drop_last()) {
            Err(e) => Err(e),
            Ok(ks) => match stage_key(ps.last()) {
                Some(k) => Ok(ks.push(k)),
                None => Err(ps.last()),
            },
        }
    }
}

/// The pipeline that `s` writes: keys `property:direction` separated by `>`, such as
/// `priority:asc > creation_date:desc`.
pub open spec fn pipeline_of(s: Seq<char>) -> Result<Seq<SortKey>, Seq<char>> {
    keys_of(stage_pieces(s))
}

fn field_from_name(name: &[char]) -> (r: Option<SortField>)
    ensures
        r == field_named(name@),
{
    let s = string_of_chars(name);
    if str_eq(s.as_str(), "id") {
        Some(SortField::Id)
    } else if str_eq(s.as_str(), "priority") {
        Some(SortField::Priority)
    } else if str_eq(s.as_str(), "title") {
        Some(SortField::Title)
    } else if str_eq(s.as_str(), "file") {
        Some(SortField::File)
    } else if str_eq(s.as_str(), "creation_date") {
        Some(SortField::CreationDate)
    } else if str_eq(s.as_str(), "completion_date") {
        Some(SortField::CompletionDate)
    } else {
        None
    }
}

fn key_from_word(w: &[char]) -> (r: Option<SortKey>)
    ensures
        r == key_word(w@),
{
    let mut k: usize = 0;
    while k < w.len()
        invariant
            k <= w@.len(),
            forall|j: int| 0 <= j < k ==> w@[j] != ':',
        decreases w@.len() - k,
    {
        if w[k] == ':' {
            assert(first_colon(w@, k as int));
            assert forall|j: int| first_colon(w@, j) implies j == k by {
                if j < k {
                    assert(w@[j] != ':');
                } else if j > k {
                    assert(w@[k as int] == ':');
                }
            }
            let name = vstd::slice::slice_subrange(w, 0, k);
            let dir = string_of_chars(vstd::slice::slice_subrange(w, k + 1, w.len()));
            assert(name@ =~= w@.take(k as int));
            assert(dir@ =~= w@.skip(k + 1));
            return match field_from_name(name) {
                Some(f) => if str_eq(dir.as_str(), "asc") {
                    Some(SortKey { field: f, descending: false })
                } else if str_eq(dir.as_str(), "desc") {
                    Some(SortKey { field: f, descending: true })
                } else {
                    None
                },
                None => None,
            };
        }
        k = k + 1;
    }
    assert forall|j: int| !first_colon(w@, j) by {
        if 0 <= j < w@.len() {
            assert(w@[j] != ':');
        }
    }
    None
}

fn key_from_stage(piece: &[char]) -> (r: Option<SortKey>)
    ensures
        r == stage_key(piece@),
{
    let ws = split_words(piece);
    assert(char_views(ws@).len() == ws@.len());
    if ws.len() == 1 {
        assert(char_views(ws@)[0] == ws@[0]@);
        key_from_word(ws[0].as_slice())
    } else {
        None
    }
}

/// Reads a sort pipeline (see [`pipeline_of`]). A stage that writes no key is refused
/// with the message `invalid sort key '<stage>'`.
pub fn parse_sort(s: &str) -> (r: Result<Vec<SortKey>, String>)
    ensures
        match pipeline_of(s@) {
            Ok(ks) => r matches Ok(v) && v@ == ks,
            Err(p) => r matches Err(m) && m@ == "invalid sort key '"@ + p + "'"@,
        },
{
    let cs = chars_of(s);
    let mut pieces: Vec<Vec<char>> = Vec::new();
    let mut cur: Vec<char> = Vec::new();
    let mut i: usize = 0;
    assert(cs@.take(0) =~= Seq::<char>::empty());
    while i < cs.len()
        invariant
            i <= cs@.len(),
            cs@ == s@,
            char_views(pieces@).push(cur@) == stage_pieces(cs@.take(i as int)),
        decreases cs@.len() - i,
    {
        assert(cs@.take(i + 1).drop_last() =~= cs@.take(i as int));
        assert(cs@.take(i + 1).last() == cs@[i as int]);
        proof {
            lemma_stage_pieces_len(cs@.take(i as int));
        }
        let ghost before = char_views(pieces@);
        if cs[i] == '>' {
            let done = cur;
            pieces.push(done);
            cur = Vec::new();
            assert(char_views(pieces@) =~= before.push(done@));
            assert(char_views(pieces@).push(cur@) =~= before.push(done@).push(Seq::empty()));
        } else {
            let ghost c0 = cur@;
            cur.push(cs[i]);
            assert(before.push(cur@) =~= before.push(c0).update(before.len() as int, c0.push(cs@[i as int])));
        }
        i = i + 1;
    }
    assert(cs@.take(i as int) =~= s@);
    let last = cur;
    pieces.push(last);
    let ghost ps = char_views(pieces@);
    assert(ps =~= stage_pieces(s@)) by {
        assert(char_views(pieces@) =~= char_views(pieces@.drop_last()).push(last@));
    }
    let mut keys: Vec<SortKey> = Vec::new();
    let mut j: usize = 0;
    assert(ps.take(0) =~= Seq::<Seq<char>>::empty());
    while j < pieces.len()
        invariant
            j <= pieces@.len(),
            ps == char_views(pieces@),
            ps == stage_pieces(s@),
            keys_of(ps.take(j as int)) == Ok::<Seq<SortKey>, Seq<char>>(keys@),
        decreases pieces@.len() - j,
    {
        assert(ps.take(j + 1).drop_last() =~= ps.take(j as int));
        assert(ps.take(j + 1).last() == pieces@[j as int]@);
        match key_from_stage(pieces[j].as_slice()) {
            Some(k) => {
                keys.push(k);
            },
            None => {
                let mut m = <String as StringExecFns>::from_str("invalid sort key '");
                let p = string_of_chars(pieces[j].as_slice());
                m.append(p.as_str());
                m.append("'");
                assert(keys_of(ps.take(j + 1)) == Err::<Seq<SortKey>, Seq<char>>(pieces@[j as int]@));
                proof {
                    lemma_keys_of_err(ps, j as int + 1, pieces@[j as int]@);
                }
                return Err(m);
            },
        }
        j = j + 1;
    }
    assert(ps.take(pieces@.len() as int) =~= ps);
    Ok(keys)
}

proof fn lemma_keys_of_err(ps: Seq<Seq<char>>, n: int, e: Seq<char>)
    requires
        0 <= n <= ps.len(),
        keys_of(ps.take(n)) == Err::<Seq<SortKey>, Seq<char>>(e),
    ensures
        keys_of(ps) == Err::<Seq<SortKey>, Seq<char>>(e),
    decreases ps.len() - n,
{
    if n < ps.len() {
        assert(ps.take(n + 1).drop_last() =~= ps.take(n));
        lemma_keys_of_err(ps, n + 1, e);
    } else {
        assert(ps.take(n) =~= ps);
    }
}



proof fn lemma_bytes_weak(a: Seq<u8>, b: Seq<u8>, c: Seq<u8>)
    requires
        bytes_lt(c, a),
    ensures
        bytes_lt(c, b) || bytes_lt(b, a),
{
    lemma_bytes_lt_total(a, b);
    if bytes_lt(a, b) {
        lemma_bytes_lt_transitive(c, a, b);
    }
}

proof fn lemma_field_weak(f: SortField, a: Todo, b: Todo, c: Todo)
    requires
        field_lt(f, c, a),
    ensures
        field_lt(f, c, b) || field_lt(f, b, a),
{
    match f {
        SortField::Title => lemma_bytes_weak(utf8(a.title@), utf8(b.title@), utf8(c.title@)),
        SortField::File => {
            if let (Some(x), Some(y), Some(z)) = (file_of(a), file_of(b), file_of(c)) {
                lemma_bytes_weak(utf8(x), utf8(y), utf8(z));
            }
        },
        _ => {},
    }
}

proof fn lemma_key_weak(k: SortKey, a: Todo, b: Todo, c: Todo)
    requires
        key_lt(k, c, a),
    ensures
        key_lt(k, c, b) || key_lt(k, b, a),
{
    if k.descending {
        lemma_field_weak(k.field, c, b, a);
    } else {
        lemma_field_weak(k.field, a, b, c);
    }
}

/// Where `c` comes before `a`, any `b` comes after `c` or before `a`: what comes no
/// earlier than the next comes no earlier than the one after it.
pub proof fn lemma_pipeline_weak(keys: Seq<SortKey>, a: Todo, b: Todo, c: Todo)
    requires
        pipeline_lt(keys, c, a),
    ensures
        pipeline_lt(keys, c, b) || pipeline_lt(keys, b, a),
    decreases keys.len(),
{
    let k = keys[0];
    if key_lt(k, c, a) {
        lemma_key_weak(k, a, b, c);
    } else if !key_lt(k, c, b) && !key_lt(k, b, a) {
        if key_lt(k, b, c) {
            lemma_key_weak(k, c, a, b);
        }
        if key_lt(k, a, b) {
            lemma_key_weak(k, b, c, a);
        }
        lemma_pipeline_weak(keys.drop_first(), a, b, c);
    }
}

/// A sorted listing is in order throughout: no TODO comes before any TODO listed ahead
/// of it.
pub proof fn law_sorted_throughout(keys: Seq<SortKey>, ts: Seq<Todo>, r: Seq<usize>, i: int, j: int)
    requires
        is_order_of(r, ts.len() as int),
        sorted_by(keys, ts, r),
        0 <= i < j < r.len(),
    ensures
        !pipeline_lt(keys, ts[r[j] as int], ts[r[i] as int]),
    decreases j - i,
{
    assert(pair_ordered(keys, ts, r, j - 1));
    if i < j - 1 {
        law_sorted_throughout(keys, ts, r, i, j - 1);
        if pipeline_lt(keys, ts[r[j] as int], ts[r[i] as int]) {
            lemma_pipeline_weak(keys, ts[r[i] as int], ts[r[j - 1] as int], ts[r[j] as int]);
        }
    }
}

/// `r` is `ts` listed in the order `order`, which sorts `ts` by `keys` (see
/// [`sorted_by`]).
pub open spec fn sorts_into(keys: Seq<SortKey>, ts: Seq<Todo>, order: Seq<usize>, r: Seq<Todo>) -> bool {
    &&& is_order_of(order, ts.len() as int)
    &&& sorted_by(keys, ts, order)
    &&& r.len() == order.len()
    &&& forall|k: int| 0 <= k < r.len() ==> r[k] == ts[#[trigger] order[k] as int]
}

/// The TODOs sorted by `keys`, ties kept in their order (see [`sorted_order`]).
pub fn sort_todos(todos: Vec<Todo>, keys: &[SortKey]) -> (r: Vec<Todo>)
    ensures
        exists|order: Seq<usize>| #[trigger] sorts_into(keys@, todos@, order, r@),
{
    let ghost all = todos@;
    let n = todos.len();
    let mut src = todos;
    let mut r: Vec<Todo> = Vec::new();
    let ghost mut order: Seq<usize> = Seq::empty();
    let mut x: usize = 0;
    assert(all.skip(0) =~= all);
    while src.len() > 0
        invariant
            x <= all.len(),
            n == all.len(),
            src@ == all.skip(x as int),
            is_order_of(order, x as int),
            sorted_by(keys@, all, order),
            r@.len() == x,
            forall|k: int| 0 <= k < x ==> r@[k] == all[#[trigger] order[k] as int],
        decreases src@.len(),
    {
        let t = src.remove(0);
        assert(src@ =~= all.skip(x + 1));
        assert(t == all[x as int]);
        let mut k: usize = x;
        while k > 0 && pipeline_before(keys, &t, &r[k - 1])
            invariant
                k <= x,
                x < all.len(),
                t == all[x as int],
                r@.len() == x,
                is_order_of(order, x as int),
                forall|j: int| 0 <= j < x ==> r@[j] == all[#[trigger] order[j] as int],
                k < x ==> pipeline_lt(keys@, all[x as int], all[order[k as int] as int]),
            decreases k,
        {
            assert(r@[k - 1] == all[order[k - 1] as int]);
            k = k - 1;
        }
        proof {
            if k > 0 {
                assert(r@[k - 1] == all[order[k - 1] as int]);
            }
            lemma_insert_sorted(keys@, all, order, x, k as int);
        }
        let ghost old_r = r@;
        let ghost new_order = order.take(k as int).push(x) + order.skip(k as int);
        r.insert(k, t);
        proof {
            assert forall|j: int| 0 <= j < x + 1 implies r@[j] == all[#[trigger] new_order[j] as int] by {
                if j < k {
                    assert(new_order[j] == order[j]);
                    assert(r@[j] == old_r[j]);
                } else if j == k {
                    assert(new_order[j] == x);
                } else {
                    assert(new_order[j] == order[j - 1]);
                    assert(r@[j] == old_r[j - 1]);
                }
            }
            order = new_order;
        }
        x = x + 1;
    }
    assert(sorts_into(keys@, all, order, r@));
    r
}



} // verus!

verus! {

/// `x` comes before `y` as dates a TODO may have: an absent date before every date,
/// dates by year, then month, then day.
pub open spec fn date_before_or_absent(x: Option<Date>, y: Option<Date>) -> bool {
    match (x, y) {
        (None, Some(_)) => true,
        (Some(p), Some(q)) => p.year < q.year || (p.year == q.year && p.month < q.month) || (
        p.year == q.year && p.month == q.month && p.day < q.day),
        _ => false,
    }
}

/// Under a single date key, one TODO comes before another exactly when its date of
/// that kind comes before the other's (ascending) or after it (descending): the
/// completion date under `completion_date`, the creation date under `creation_date`,
/// and no other field.
pub proof fn law_date_keys_order_by_their_date(a: Todo, b: Todo, descending: bool)
    ensures
        pipeline_lt(seq![SortKey { field: SortField::CompletionDate, descending }], a, b) == if descending {
            date_before_or_absent(b.completion_date, a.completion_date)
        } else {
            date_before_or_absent(a.completion_date, b.completion_date)
        },
        pipeline_lt(seq![SortKey { field: SortField::CreationDate, descending }], a, b) == if descending {
            date_before_or_absent(b.creation_date, a.creation_date)
        } else {
            date_before_or_absent(a.creation_date, b.creation_date)
        },
{
    let k1 = seq![SortKey { field: SortField::CompletionDate, descending }];
    let k2 = seq![SortKey { field: SortField::CreationDate, descending }];
    assert(k1.drop_first() =~= Seq::<SortKey>::empty());
    assert(pipeline_lt(k1.drop_first(), a, b) == false);
    assert(k1.len() == 1);
    assert(k2.drop_first() =~= Seq::<SortKey>::empty());
    assert(pipeline_lt(k2.drop_first(), a, b) == false);
    assert(k2.len() == 1);
}

/// Under a single `priority` key, one TODO comes before another exactly when its
/// priority letter (`Z` where it has none) comes earlier in the alphabet (ascending) or
/// later (descending).
pub proof fn law_priority_key_orders_by_letter(a: Todo, b: Todo, descending: bool)
    ensures
        pipeline_lt(seq![SortKey { field: SortField::Priority, descending }], a, b) == if descending {
            (priority_letter(b) as u32) < (priority_letter(a) as u32)
        } else {
            (priority_letter(a) as u32) < (priority_letter(b) as u32)
        },
{
    let k = seq![SortKey { field: SortField::Priority, descending }];
    assert(k.drop_first() =~= Seq::<SortKey>::empty());
    assert(pipeline_lt(k.drop_first(), a, b) == false);
    assert(k.len() == 1);
}

/// Sorted by `completion_date:asc`, the TODOs come by completion date: no TODO
/// completed earlier (or not completed) is listed after one completed later, whatever
/// their creation dates.
pub proof fn law_sorted_by_completion_date(ts: Seq<Todo>, r: Seq<usize>, i: int, j: int)
    requires
        is_order_of(r, ts.len() as int),
        sorted_by(seq![SortKey { field: SortField::CompletionDate, descending: false }], ts, r),
        0 <= i < j < r.len(),
    ensures
        !date_before_or_absent(ts[r[j] as int].completion_date, ts[r[i] as int].completion_date),
{
    let keys = seq![SortKey { field: SortField::CompletionDate, descending: false }];
    law_sorted_throughout(keys, ts, r, i, j);
    law_date_keys_order_by_their_date(ts[r[j] as int], ts[r[i] as int], false);
}

/// Under a single ascending `title`, `file` or `id` key, one TODO comes before another
/// exactly when its title comes first byte-wise, its file comes first byte-wise (a TODO
/// without a file first), or its identifier's number is smaller (a TODO without one
/// first).
pub proof fn law_other_keys_order_by_their_field(a: Todo, b: Todo)
    ensures
        pipeline_lt(seq![SortKey { field: SortField::Title, descending: false }], a, b)
            == bytes_lt(utf8(a.title@), utf8(b.title@)),
        pipeline_lt(seq![SortKey { field: SortField::File, descending: false }], a, b) == match (
            a.file,
            b.file,
        ) {
            (None, Some(_)) => true,
            (Some(x), Some(y)) => bytes_lt(utf8(x@), utf8(y@)),
            _ => false,
        },
        pipeline_lt(seq![SortKey { field: SortField::Id, descending: false }], a, b) == match (
            a.id,
            b.id,
        ) {
            (None, Some(_)) => true,
            (Some(TodoIdentifier::Primary(x)), Some(TodoIdentifier::Primary(y))) => x < y,
            (Some(TodoIdentifier::Primary(x)), Some(TodoIdentifier::Reference(y))) => x < y,
            (Some(TodoIdentifier::Reference(x)), Some(TodoIdentifier::Primary(y))) => x < y,
            (Some(TodoIdentifier::Reference(x)), Some(TodoIdentifier::Reference(y))) => x < y,
            _ => false,
        },
{
    let k1 = seq![SortKey { field: SortField::Title, descending: false }];
    let k2 = seq![SortKey { field: SortField::File, descending: false }];
    let k3 = seq![SortKey { field: SortField::Id, descending: false }];
    assert(k1.drop_first() =~= Seq::<SortKey>::empty());
    assert(k2.drop_first() =~= Seq::<SortKey>::empty());
    assert(k3.drop_first() =~= Seq::<SortKey>::empty());
    assert(pipeline_lt(k1.drop_first(), a, b) == false);
    assert(pipeline_lt(k2.drop_first(), a, b) == false);
    assert(pipeline_lt(k3.drop_first(), a, b) == false);
}

} // verus!
