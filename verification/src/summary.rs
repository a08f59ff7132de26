//! Counting the tags and priorities of TODOs.
use vstd::prelude::*;
use crate::filter::{
    bytes_lt, lemma_bytes_lt_asymmetric, lemma_bytes_lt_total,
    lemma_bytes_lt_transitive, utf8};
use crate::display::{decimal, pad_left, pad_right, push_chars, push_decimal, push_repeated, push_str};
use crate::text::{chars_of, string_of_chars};
use crate::todo::Todo;
use vstd::utf8::encode_utf8;

verus! {

/// A tag and the number of TODOs carrying it.
pub type TagCount = (String, usize);

/// The number of times `x` occurs in `xs`.
pub open spec fn occurrences<A>(xs: Seq<A>, x: A) -> nat
    decreases xs.len(),
{
    if xs.len() == 0 {
        0
    } else {
        occurrences(xs.drop_last(), x) + if xs.last() == x {
            1nat
        } else {
            0nat
        }
    }
}

pub proof fn lemma_occurrences_push<A>(xs: Seq<A>, y: A, x: A)
    ensures
        occurrences(xs.push(y), x) == occurrences(xs, x) + if y == x {
            1nat
        } else {
            0nat
        },
{
    assert(xs.push(y).drop_last() =~= xs);
}

pub proof fn lemma_occurrences_bound<A>(xs: Seq<A>, x: A)
    ensures
        occurrences(xs, x) <= xs.len(),
        !xs.contains(x) ==> occurrences(xs, x) == 0,
    decreases xs.len(),
{
    if xs.len() > 0 {
        lemma_occurrences_bound(xs.drop_last(), x);
        if !xs.contains(x) {
            assert forall|i: int| 0 <= i < xs.drop_last().len() implies xs.drop_last()[i] != x by {
                assert(xs.drop_last()[i] == xs[i]);
            }
            assert(xs.last() == xs[xs.len() - 1]);
        }
    }
}

/// The encoded name of a tag count.
pub open spec fn count_key(c: TagCount) -> Seq<u8> {
    utf8(c.0@)
}

/// The encoded names of tag counts.
pub open spec fn count_keys(cs: Seq<TagCount>) -> Seq<Seq<u8>> {
    cs.map_values(|c: TagCount| count_key(c))
}

/// `counts` lists each of `tags` once, in increasing byte order of the names, with the
/// number of times it occurs.
pub open spec fn counts_tags(counts: Seq<TagCount>, tags: Seq<Seq<u8>>) -> bool {
    &&& forall|i: int, j: int|
        0 <= i < j < counts.len() ==> bytes_lt(count_key(#[trigger] counts[i]), count_key(#[trigger] counts[j]))
    &&& forall|i: int|
        0 <= i < counts.len() ==> (#[trigger] counts[i]).1 == occurrences(tags, count_key(counts[i]))
            && counts[i].1 > 0
    &&& forall|p: int| 0 <= p < tags.len() ==> count_keys(counts).contains(#[trigger] tags[p])
}

/// The encoded tags of a TODO.
pub open spec fn tag_bytes(t: Todo) -> Seq<Seq<u8>> {
    t.tags@.map_values(|s: String| utf8(s@))
}

/// The encoded tags of all `todos`, in order.
pub open spec fn all_tags(todos: Seq<Todo>) -> Seq<Seq<u8>>
    decreases todos.len(),
{
    if todos.len() == 0 {
        Seq::empty()
    } else {
        all_tags(todos.drop_last()) + tag_bytes(todos.last())
    }
}

/// Returns whether `a` comes before `b` byte-wise.
fn name_before(a: &String, b: &String) -> (r: bool)
    ensures
        r == bytes_lt(utf8(a@), utf8(b@)),
{
    let x = a.as_str().as_bytes();
    let y = b.as_str().as_bytes();
    let mut i: usize = 0;
    assert(x@.subrange(0, x@.len() as int) =~= x@);
    assert(y@.subrange(0, y@.len() as int) =~= y@);
    while i < x.len() && i < y.len() && x[i] == y[i]
        invariant
            i <= x@.len(),
            i <= y@.len(),
            bytes_lt(x@, y@) == bytes_lt(x@.subrange(i as int, x@.len() as int), y@.subrange(
                i as int,
                y@.len() as int,
            )),
        decreases x@.len() - i,
    {
        assert(x@.subrange(i + 1, x@.len() as int) =~= x@.subrange(i as int, x@.len() as int).drop_first());
        assert(y@.subrange(i + 1, y@.len() as int) =~= y@.subrange(i as int, y@.len() as int).drop_first());
        i = i + 1;
    }
    if i == x.len() {
        i < y.len()
    } else if i == y.len() {
        false
    } else {
        x[i] < y[i]
    }
}

/// Returns whether `a` and `b` have the same encoding.
fn same_name(a: &String, b: &String) -> (r: bool)
    ensures
        r == (utf8(a@) == utf8(b@)),
{
    let x = a.as_str().as_bytes();
    let y = b.as_str().as_bytes();
    if x.len() != y.len() {
        return false;
    }
    let r = crate::text::starts_with_at(x, 0, y);
    assert(x@.subrange(0, y@.len() as int) =~= x@);
    r
}

/// The first position in `counts` whose name does not come before `tag`.
fn tag_position(counts: &Vec<TagCount>, tag: &String) -> (j: usize)
    ensures
        j <= counts@.len(),
        forall|i: int| 0 <= i < j ==> bytes_lt(count_key(#[trigger] counts@[i]), utf8(tag@)),
        j < counts@.len() ==> !bytes_lt(count_key(counts@[j as int]), utf8(tag@)),
{
    let mut j: usize = 0;
    while j < counts.len()
        invariant
            j <= counts@.len(),
            forall|i: int| 0 <= i < j ==> bytes_lt(count_key(#[trigger] counts@[i]), utf8(tag@)),
        decreases counts@.len() - j,
    {
        if !name_before(&counts[j].0, tag) {
            return j;
        }
        j = j + 1;
    }
    j
}

/// Adds one occurrence of `tag` to `counts`.
fn add_tag(counts: &mut Vec<TagCount>, tag: &String, Ghost(seen): Ghost<Seq<Seq<u8>>>)
    requires
        counts_tags(old(counts)@, seen),
        seen.len() + 1 < usize::MAX,
    ensures
        counts_tags(final(counts)@, seen.push(utf8(tag@))),
{
    let ghost x = utf8(tag@);
    let ghost old_counts = counts@;
    let j = tag_position(counts, tag);
    proof {
        assert forall|i: int| 0 <= i < counts@.len() implies occurrences(seen.push(x), count_key(
            #[trigger] counts@[i],
        )) == occurrences(seen, count_key(counts@[i])) + if x == count_key(counts@[i]) {
            1nat
        } else {
            0nat
        } by {
            lemma_occurrences_push(seen, x, count_key(counts@[i]));
        }
        lemma_occurrences_bound(seen, x);
    }
    if j < counts.len() && same_name(&counts[j].0, tag) {
        let name = counts[j].0.clone();
        let n = counts[j].1;
        proof {
            lemma_occurrences_bound(seen, count_key(counts@[j as int]));
        }
        counts.set(j, (name, n + 1));
        proof {
            let cs = counts@;
            assert forall|i: int| 0 <= i < cs.len() implies count_key(#[trigger] cs[i]) == count_key(
                old_counts[i],
            ) by {}
            assert forall|i: int| 0 <= i < cs.len() implies (#[trigger] cs[i]).1 == occurrences(
                seen.push(x),
                count_key(cs[i]),
            ) && cs[i].1 > 0 by {
                if i != j {
                    if i < j {
                        assert(bytes_lt(count_key(old_counts[i]), count_key(old_counts[j as int])));
                        lemma_bytes_lt_asymmetric(count_key(old_counts[i]), count_key(old_counts[j as int]));
                    } else {
                        assert(bytes_lt(count_key(old_counts[j as int]), count_key(old_counts[i])));
                        lemma_bytes_lt_asymmetric(count_key(old_counts[j as int]), count_key(old_counts[i]));
                    }
                }
            }
            assert(count_keys(cs) =~= count_keys(old_counts));
            let s2 = seen.push(x);
            assert forall|p: int| 0 <= p < s2.len() implies count_keys(cs).contains(#[trigger] s2[p]) by {
                if p == seen.len() {
                    assert(count_keys(cs)[j as int] == x);
                } else {
                    assert(s2[p] == seen[p]);
                }
            }
        }
    } else {
        proof {
            if j < counts@.len() {
                lemma_bytes_lt_total(count_key(counts@[j as int]), x);
            }
            assert forall|i: int| 0 <= i < old_counts.len() implies count_key(#[trigger] old_counts[i])
                != x by {
                if i < j {
                    lemma_bytes_lt_asymmetric(count_key(old_counts[i]), x);
                } else {
                    if i > j {
                        assert(bytes_lt(count_key(old_counts[j as int]), count_key(old_counts[i])));
                        lemma_bytes_lt_transitive(x, count_key(old_counts[j as int]), count_key(old_counts[i]));
                    }
                    lemma_bytes_lt_asymmetric(x, count_key(old_counts[i]));
                }
            }
            if seen.contains(x) {
                let p = choose|p: int| 0 <= p < seen.len() && seen[p] == x;
                assert(count_keys(old_counts).contains(seen[p]));
                let i = choose|i: int| 0 <= i < count_keys(old_counts).len() && count_keys(old_counts)[i] == x;
                assert(count_key(old_counts[i]) == x);
            }
        }
        let name = tag.clone();
        counts.insert(j, (name, 1));
        proof {
            let cs = counts@;
            assert(cs == old_counts.insert(j as int, cs[j as int]));
            assert forall|a: int, b: int| 0 <= a < b < cs.len() implies bytes_lt(
                count_key(#[trigger] cs[a]),
                count_key(#[trigger] cs[b]),
            ) by {
                if b < j {
                } else if b == j {
                    assert(cs[a] == old_counts[a]);
                } else if a == j {
                    assert(cs[b] == old_counts[b - 1]);
                    if b - 1 > j {
                        assert(bytes_lt(count_key(old_counts[j as int]), count_key(old_counts[b - 1])));
                        lemma_bytes_lt_transitive(x, count_key(old_counts[j as int]), count_key(old_counts[b - 1]));
                    }
                } else if a < j {
                    assert(cs[a] == old_counts[a]);
                    assert(cs[b] == old_counts[b - 1]);
                } else {
                    assert(cs[a] == old_counts[a - 1]);
                    assert(cs[b] == old_counts[b - 1]);
                }
            }
            assert forall|i: int| 0 <= i < cs.len() implies (#[trigger] cs[i]).1 == occurrences(
                seen.push(x),
                count_key(cs[i]),
            ) && cs[i].1 > 0 by {
                lemma_occurrences_push(seen, x, count_key(cs[i]));
                if i < j {
                    assert(cs[i] == old_counts[i]);
                } else if i > j {
                    assert(cs[i] == old_counts[i - 1]);
                } else {
                    assert(count_key(cs[i]) == x);
                    assert(!seen.contains(x));
                }
            }
            let s2 = seen.push(x);
            assert forall|p: int| 0 <= p < s2.len() implies count_keys(cs).contains(#[trigger] s2[p]) by {
                if p == seen.len() {
                    assert(count_keys(cs)[j as int] == x);
                } else {
                    assert(s2[p] == seen[p]);
                    assert(count_keys(old_counts).contains(seen[p]));
                    let i = choose|i: int| 0 <= i < count_keys(old_counts).len() && count_keys(old_counts)[i] == seen[p];
                    if i < j {
                        assert(count_keys(cs)[i] == seen[p]);
                    } else {
                        assert(count_keys(cs)[i + 1] == seen[p]);
                    }
                }
            }
        }
    }
}

proof fn lemma_all_tags_take(todos: Seq<Todo>, k: int)
    requires
        0 <= k < todos.len(),
    ensures
        all_tags(todos.take(k + 1)) == all_tags(todos.take(k)) + tag_bytes(todos[k]),
{
    assert(todos.take(k + 1).drop_last() =~= todos.take(k));
}

proof fn lemma_all_tags_prefix(todos: Seq<Todo>, k: int)
    requires
        0 <= k <= todos.len(),
    ensures
        all_tags(todos.take(k)).len() <= all_tags(todos).len(),
    decreases todos.len() - k,
{
    if k < todos.len() {
        lemma_all_tags_take(todos, k);
        lemma_all_tags_prefix(todos, k + 1);
    } else {
        assert(todos.take(k) =~= todos);
    }
}

/// Counts the tags of `todos` (see [`counts_tags`]): each tag once, by name, with the
/// number of times it occurs.
pub fn count_tags(todos: &[Todo]) -> (r: Vec<TagCount>)
    requires
        all_tags(todos@).len() + 1 < usize::MAX,
    ensures
        counts_tags(r@, all_tags(todos@)),
{
    let mut counts: Vec<TagCount> = Vec::new();
    let mut k: usize = 0;
    assert(todos@.take(0) =~= Seq::<Todo>::empty());
    while k < todos.len()
        invariant
            k <= todos@.len(),
            all_tags(todos@).len() + 1 < usize::MAX,
            counts_tags(counts@, all_tags(todos@.take(k as int))),
        decreases todos@.len() - k,
    {
        let tags = &todos[k].tags;
        let ghost before = all_tags(todos@.take(k as int));
        proof {
            lemma_all_tags_take(todos@, k as int);
            lemma_all_tags_prefix(todos@, k + 1);
            assert(before + tag_bytes(todos@[k as int]).take(0) =~= before);
        }
        let mut j: usize = 0;
        while j < tags.len()
            invariant
                j <= tags@.len(),
                tags@ == todos@[k as int].tags@,
                before.len() + tags@.len() + 1 < usize::MAX,
                counts_tags(counts@, before + tag_bytes(todos@[k as int]).take(j as int)),
            decreases tags@.len() - j,
        {
            let ghost seen = before + tag_bytes(todos@[k as int]).take(j as int);
            add_tag(&mut counts, &tags[j], Ghost(seen));
            assert(seen.push(utf8(tags@[j as int]@)) =~= before + tag_bytes(todos@[k as int]).take(
                j + 1,
            ));
            j = j + 1;
        }
        assert(tag_bytes(todos@[k as int]).take(j as int) =~= tag_bytes(todos@[k as int]));
        k = k + 1;
    }
    assert(todos@.take(k as int) =~= todos@);
    counts
}

/// How a tag list is ordered.
#[derive(Clone, Copy, Debug, PartialEq, Eq, Structural)]
pub enum SortOrder {
    /// By name, in byte order.
    Name,
    /// By count, the most frequent first; equal counts by name.
    Count,
}

/// `a` comes before `b` when listing by count: a higher count, or an equal count and a
/// name earlier in byte order.
pub open spec fn count_before(a: TagCount, b: TagCount) -> bool {
    a.1 > b.1 || (a.1 == b.1 && bytes_lt(count_key(a), count_key(b)))
}

/// `cs` is ordered by count (see [`count_before`]).
pub open spec fn sorted_by_count(cs: Seq<TagCount>) -> bool {
    forall|i: int, j: int| 0 <= i < j < cs.len() ==> !count_before(#[trigger] cs[j], #[trigger] cs[i])
}

proof fn lemma_count_before_transitive(a: TagCount, b: TagCount, c: TagCount)
    requires
        count_before(a, b),
        count_before(b, c),
    ensures
        count_before(a, c),
{
    if a.1 == b.1 && b.1 == c.1 {
        lemma_bytes_lt_transitive(count_key(a), count_key(b), count_key(c));
    }
}

proof fn lemma_count_before_asymmetric(a: TagCount, b: TagCount)
    requires
        count_before(a, b),
    ensures
        !count_before(b, a),
{
    if a.1 == b.1 {
        lemma_bytes_lt_asymmetric(count_key(a), count_key(b));
    }
}

/// Returns whether `a` comes before `b` by count.
fn before_by_count(a: &TagCount, b: &TagCount) -> (r: bool)
    ensures
        r == count_before(*a, *b),
{
    a.1 > b.1 || (a.1 == b.1 && name_before(&a.0, &b.0))
}

/// The tag counts `counts` ordered by count (see [`count_before`]).
pub fn sort_by_count(counts: &Vec<TagCount>) -> (r: Vec<TagCount>)
    ensures
        sorted_by_count(r@),
        r@.to_multiset() == counts@.to_multiset(),
{
    let mut out: Vec<TagCount> = Vec::new();
    let mut i: usize = 0;
    assert(counts@.take(0) =~= Seq::<TagCount>::empty());
    while i < counts.len()
        invariant
            i <= counts@.len(),
            sorted_by_count(out@),
            out@.to_multiset() == counts@.take(i as int).to_multiset(),
        decreases counts@.len() - i,
    {
        let x = (counts[i].0.clone(), counts[i].1);
        assert(x == counts@[i as int]);
        let mut p: usize = 0;
        while p < out.len() && !before_by_count(&x, &out[p])
            invariant
                p <= out@.len(),
                forall|q: int| 0 <= q < p ==> !count_before(x, #[trigger] out@[q]),
            decreases out@.len() - p,
        {
            assert(!count_before(x, out@[p as int]));
            p = p + 1;
        }
        let ghost old_out = out@;
        out.insert(p, x);
        proof {
            let o = out@;
            assert(o == old_out.insert(p as int, x));
            assert forall|a: int, b: int| 0 <= a < b < o.len() implies !count_before(
                #[trigger] o[b],
                #[trigger] o[a],
            ) by {
                if b < p {
                } else if b == p {
                    assert(o[a] == old_out[a]);
                } else if a == p {
                    assert(o[b] == old_out[b - 1]);
                    assert(p < old_out.len());
                    assert(count_before(x, old_out[p as int]));
                    if count_before(old_out[b - 1], x) {
                        lemma_count_before_transitive(old_out[b - 1], x, old_out[p as int]);
                        if b - 1 > p {
                            assert(!count_before(old_out[b - 1], old_out[p as int]));
                        } else {
                            lemma_count_before_asymmetric(x, old_out[p as int]);
                        }
                    }
                } else if a < p {
                    assert(o[a] == old_out[a]);
                    assert(o[b] == old_out[b - 1]);
                } else {
                    assert(o[a] == old_out[a - 1]);
                    assert(o[b] == old_out[b - 1]);
                }
            }
            assert(counts@.take(i + 1) =~= counts@.take(i as int).push(counts@[i as int]));
            vstd::seq_lib::to_multiset_insert(old_out, p as int, x);
            vstd::seq_lib::to_multiset_build(counts@.take(i as int), x);
            assert(o.to_multiset() == old_out.to_multiset().insert(x));
            assert(counts@.take(i + 1).to_multiset() == counts@.take(i as int).to_multiset().insert(
                x,
            ));
        }
        i = i + 1;
    }
    assert(counts@.take(i as int) =~= counts@);
    out
}

/// The tags of `todos` with their counts, ordered by `sort`, at most `limit` of them.
pub fn tag_list(todos: &[Todo], sort: SortOrder, limit: Option<usize>) -> (r: Vec<TagCount>)
    requires
        all_tags(todos@).len() + 1 < usize::MAX,
    ensures
        exists|all: Seq<TagCount>|
            #![trigger all.len()]
            counts_tags(all, all_tags(todos@)) && match sort {
                SortOrder::Name => r@ == match limit {
                    Some(n) => if n < all.len() { all.take(n as int) } else { all },
                    None => all,
                },
                SortOrder::Count => exists|ordered: Seq<TagCount>|
                    #![trigger ordered.len()]
                    sorted_by_count(ordered) && ordered.to_multiset() == all.to_multiset()
                        && r@ == match limit {
                        Some(n) => if n < ordered.len() { ordered.take(n as int) } else { ordered },
                        None => ordered,
                    },
            },
{
    let counts = count_tags(todos);
    let ghost all = counts@;
    let mut listed = match sort {
        SortOrder::Name => counts,
        SortOrder::Count => sort_by_count(&counts),
    };
    let ghost full = listed@;
    if let Some(n) = limit {
        listed.truncate(n);
    }
    proof {
        if let Some(n) = limit {
            if n >= full.len() {
                assert(listed@ =~= full);
            } else {
                assert(listed@ =~= full.take(n as int));
            }
        }
        let limited = match limit {
            Some(n) => if n < full.len() { full.take(n as int) } else { full },
            None => full,
        };
        assert(listed@ == limited);
        match sort {
            SortOrder::Name => {
                assert(full == all);
                assert(counts_tags(all, all_tags(todos@)) && all.len() == all.len());
            },
            SortOrder::Count => {
                assert(sorted_by_count(full) && full.to_multiset() == all.to_multiset() && listed@
                    == limited && full.len() == full.len());
                assert(counts_tags(all, all_tags(todos@)) && all.len() == all.len());
            },
        }
    }
    listed
}

/// A priority (`None` for a TODO without one) and the number of TODOs that have it.
pub type PriorityCount = (Option<char>, usize);

/// Priorities in listing order: `A` to `Z` (by code point), then no priority.
pub open spec fn priority_lt(a: Option<char>, b: Option<char>) -> bool {
    match (a, b) {
        (Some(x), Some(y)) => x < y,
        (Some(_), None) => true,
        _ => false,
    }
}

/// `counts` lists each of `ps` once, in listing order, with the number of times it occurs.
pub open spec fn counts_priorities(counts: Seq<PriorityCount>, ps: Seq<Option<char>>) -> bool {
    &&& forall|i: int, j: int|
        0 <= i < j < counts.len() ==> priority_lt((#[trigger] counts[i]).0, (#[trigger] counts[j]).0)
    &&& forall|i: int|
        0 <= i < counts.len() ==> (#[trigger] counts[i]).1 == occurrences(ps, counts[i].0) && counts[i].1
            > 0
    &&& forall|p: int| 0 <= p < ps.len() ==> counts.map_values(|c: PriorityCount| c.0).contains(
        #[trigger] ps[p],
    )
}

/// The priorities of `todos`, in order.
pub open spec fn priorities(todos: Seq<Todo>) -> Seq<Option<char>> {
    todos.map_values(|t: Todo| t.priority)
}

/// Returns whether `a` comes before `b` in listing order.
fn priority_before(a: Option<char>, b: Option<char>) -> (r: bool)
    ensures
        r == priority_lt(a, b),
{
    match (a, b) {
        (Some(x), Some(y)) => x < y,
        (Some(_), None) => true,
        _ => false,
    }
}

/// The first position in `counts` whose priority does not come before `p`.
fn priority_position(counts: &Vec<PriorityCount>, p: Option<char>) -> (j: usize)
    ensures
        j <= counts@.len(),
        forall|i: int| 0 <= i < j ==> priority_lt((#[trigger] counts@[i]).0, p),
        j < counts@.len() ==> !priority_lt(counts@[j as int].0, p),
{
    let mut j: usize = 0;
    while j < counts.len()
        invariant
            j <= counts@.len(),
            forall|i: int| 0 <= i < j ==> priority_lt((#[trigger] counts@[i]).0, p),
        decreases counts@.len() - j,
    {
        if !priority_before(counts[j].0, p) {
            return j;
        }
        j = j + 1;
    }
    j
}

/// Adds one occurrence of priority `p` to `counts`.
fn add_priority(counts: &mut Vec<PriorityCount>, p: Option<char>, Ghost(seen): Ghost<Seq<Option<char>>>)
    requires
        counts_priorities(old(counts)@, seen),
        seen.len() < usize::MAX,
    ensures
        counts_priorities(final(counts)@, seen.push(p)),
{
    let ghost old_counts = old(counts)@;
    let j = priority_position(counts, p);
    proof {
        lemma_occurrences_bound(seen, p);
        assert forall|i: int| 0 <= i < old_counts.len() implies occurrences(seen.push(p), (
        #[trigger] old_counts[i]).0) == occurrences(seen, old_counts[i].0) + if p == old_counts[i].0 {
            1nat
        } else {
            0nat
        } by {
            lemma_occurrences_push(seen, p, old_counts[i].0);
        }
    }
    let ghost keys = old_counts.map_values(|c: PriorityCount| c.0);
    if j < counts.len() && counts[j].0 == p {
        let n = counts[j].1;
        proof {
            lemma_occurrences_bound(seen, p);
        }
        counts.set(j, (p, n + 1));
        proof {
            let cs = counts@;
            assert(cs.map_values(|c: PriorityCount| c.0) =~= keys);
            let s2 = seen.push(p);
            assert forall|q: int| 0 <= q < s2.len() implies cs.map_values(|c: PriorityCount| c.0).contains(
                #[trigger] s2[q],
            ) by {
                if q == seen.len() {
                    assert(cs.map_values(|c: PriorityCount| c.0)[j as int] == p);
                } else {
                    assert(s2[q] == seen[q]);
                }
            }
        }
    } else {
        proof {
            assert forall|i: int| 0 <= i < old_counts.len() implies (#[trigger] old_counts[i]).0 != p by {
                if i >= j {
                    if i > j {
                        assert(priority_lt(old_counts[j as int].0, old_counts[i].0));
                    }
                }
            }
            if seen.contains(p) {
                let q = choose|q: int| 0 <= q < seen.len() && seen[q] == p;
                assert(keys.contains(seen[q]));
                let i = choose|i: int| 0 <= i < keys.len() && keys[i] == p;
                assert(old_counts[i].0 == p);
            }
        }
        counts.insert(j, (p, 1));
        proof {
            let cs = counts@;
            assert(cs == old_counts.insert(j as int, (p, 1usize)));
            assert forall|a: int, b: int| 0 <= a < b < cs.len() implies priority_lt(
                (#[trigger] cs[a]).0,
                (#[trigger] cs[b]).0,
            ) by {
                if b < j {
                } else if b == j {
                    assert(cs[a] == old_counts[a]);
                } else if a == j {
                    assert(cs[b] == old_counts[b - 1]);
                    assert(old_counts[j as int].0 != p);
                    assert(priority_lt(p, old_counts[j as int].0));
                    if b - 1 > j {
                        assert(priority_lt(old_counts[j as int].0, old_counts[b - 1].0));
                    }
                } else if a < j {
                    assert(cs[a] == old_counts[a]);
                    assert(cs[b] == old_counts[b - 1]);
                } else {
                    assert(cs[a] == old_counts[a - 1]);
                    assert(cs[b] == old_counts[b - 1]);
                }
            }
            assert forall|i: int| 0 <= i < cs.len() implies (#[trigger] cs[i]).1 == occurrences(
                seen.push(p),
                cs[i].0,
            ) && cs[i].1 > 0 by {
                lemma_occurrences_push(seen, p, cs[i].0);
                if i < j {
                    assert(cs[i] == old_counts[i]);
                } else if i > j {
                    assert(cs[i] == old_counts[i - 1]);
                }
            }
            let s2 = seen.push(p);
            let ks = cs.map_values(|c: PriorityCount| c.0);
            assert forall|q: int| 0 <= q < s2.len() implies ks.contains(#[trigger] s2[q]) by {
                if q == seen.len() {
                    assert(ks[j as int] == p);
                } else {
                    assert(s2[q] == seen[q]);
                    assert(keys.contains(seen[q]));
                    let i = choose|i: int| 0 <= i < keys.len() && keys[i] == seen[q];
                    if i < j {
                        assert(ks[i] == seen[q]);
                    } else {
                        assert(ks[i + 1] == seen[q]);
                    }
                }
            }
        }
    }
}

/// The number of `todos` that have a tracking number.
pub open spec fn count_with_id(todos: Seq<Todo>) -> nat
    decreases todos.len(),
{
    if todos.len() == 0 {
        0
    } else {
        count_with_id(todos.drop_last()) + if todos.last().id is Some {
            1nat
        } else {
            0nat
        }
    }
}

/// Totals over a set of TODOs.
pub struct SummaryStats {
    /// The number of TODOs.
    pub total: usize,
    /// How many have a tracking number.
    pub with_id: usize,
    /// How many have none.
    pub without_id: usize,
    /// The TODOs per priority, `A` first, no priority last.
    pub by_priority: Vec<PriorityCount>,
    /// The TODOs per tag, the most frequent first, equal counts by name.
    pub by_tag: Vec<TagCount>,
}

impl SummaryStats {
    /// The totals over `todos`.
    pub fn from_todos(todos: &[Todo]) -> (r: Self)
        requires
            all_tags(todos@).len() + 1 < usize::MAX,
        ensures
            r.total == todos@.len(),
            r.with_id == count_with_id(todos@),
            r.without_id == todos@.len() - count_with_id(todos@),
            counts_priorities(r.by_priority@, priorities(todos@)),
            sorted_by_count(r.by_tag@),
            exists|all: Seq<TagCount>|
                #![trigger all.len()]
                counts_tags(all, all_tags(todos@)) && r.by_tag@.to_multiset() == all.to_multiset(),
    {
        let mut with_id: usize = 0;
        let mut by_priority: Vec<PriorityCount> = Vec::new();
        let mut k: usize = 0;
        assert(todos@.take(0) =~= Seq::<Todo>::empty());
        while k < todos.len()
            invariant
                k <= todos@.len(),
                with_id == count_with_id(todos@.take(k as int)),
                with_id <= k,
                counts_priorities(by_priority@, priorities(todos@.take(k as int))),
            decreases todos@.len() - k,
        {
            proof {
                assert(todos@.take(k + 1).drop_last() =~= todos@.take(k as int));
                assert(priorities(todos@.take(k + 1)) =~= priorities(todos@.take(k as int)).push(
                    todos@[k as int].priority,
                ));
            }
            if todos[k].id.is_some() {
                with_id = with_id + 1;
            }
            add_priority(&mut by_priority, todos[k].priority, Ghost(priorities(todos@.take(k as int))));
            k = k + 1;
        }
        assert(todos@.take(k as int) =~= todos@);
        let counts = count_tags(todos);
        let by_tag = sort_by_count(&counts);
        let r = SummaryStats {
            total: todos.len(),
            with_id,
            without_id: todos.len() - with_id,
            by_priority,
            by_tag,
        };
        let ghost all = counts@;
        assert(counts_tags(all, all_tags(todos@)) && r.by_tag@.to_multiset() == all.to_multiset()
            && all.len() == all.len());
        r
    }
}

} // verus!

verus! {

/// Lines of text joined into one text, each ended by a line break.
pub open spec fn joined_lines(ls: Seq<Seq<char>>) -> Seq<char>
    decreases ls.len(),
{
    if ls.len() == 0 {
        Seq::empty()
    } else {
        joined_lines(ls.drop_last()) + ls.last() + seq!['\n']
    }
}

/// The largest count in `cs`; 0 if there is none.
pub open spec fn max_count<A>(cs: Seq<(A, usize)>) -> nat
    decreases cs.len(),
{
    if cs.len() == 0 {
        0
    } else {
        let m = max_count(cs.drop_last());
        if cs.last().1 > m {
            cs.last().1 as nat
        } else {
            m
        }
    }
}

/// The length in bytes of the longest tag name in `cs`; 0 if there is none.
pub open spec fn max_name_len(cs: Seq<TagCount>) -> nat
    decreases cs.len(),
{
    if cs.len() == 0 {
        0
    } else {
        let m = max_name_len(cs.drop_last());
        let n = encode_utf8(cs.last().0@).len();
        if n > m {
            n
        } else {
            m
        }
    }
}

/// The most digits among the counts in `cs`; 0 if there is none.
pub open spec fn max_count_digits(cs: Seq<TagCount>) -> nat
    decreases cs.len(),
{
    if cs.len() == 0 {
        0
    } else {
        let m = max_count_digits(cs.drop_last());
        let n = decimal(cs.last().1 as nat).len();
        if n > m {
            n
        } else {
            m
        }
    }
}

/// The label of a priority in the summary: the letter in brackets, ` - ` for none.
pub open spec fn priority_label(p: Option<char>) -> Seq<char> {
    match p {
        Some(c) => seq!['(', c, ')'],
        None => seq![' ', '-', ' '],
    }
}

/// The summary as plain text, line by line; `tracked_pct` and
/// `untracked_pct` are the shares of TODOs with and without an identifier, in percent.
pub open spec fn summary_lines(s: SummaryStats, tracked_pct: nat, untracked_pct: nat) -> Seq<Seq<char>> {
    let counts = seq!["Summary"@, "======="@, "Total todos: "@ + decimal(s.total as nat)] + if s.total
        > 0 {
        seq![
            "  Tracked:   "@ + pad_left(decimal(s.with_id as nat), 3) + " ("@ + decimal(tracked_pct)
                + "%)"@,
            "  Untracked: "@ + pad_left(decimal(s.without_id as nat), 3) + " ("@ + decimal(
                untracked_pct,
            ) + "%)"@,
        ]
    } else {
        Seq::empty()
    };
    let priorities = if s.by_priority@.len() > 0 {
        let w = decimal(max_count(s.by_priority@)).len() as int;
        seq![Seq::empty(), "By Priority"@, "-----------"@] + s.by_priority@.map_values(
            |pc: PriorityCount| pad_left(priority_label(pc.0), 3) + "  "@ + pad_left(decimal(pc.1 as nat), w),
        )
    } else {
        Seq::empty()
    };
    let tags = if s.by_tag@.len() > 0 {
        let tw = max_name_len(s.by_tag@) as int;
        let cw = decimal(max_count(s.by_tag@)).len() as int;
        seq![Seq::empty(), "By Tag"@, "------"@] + s.by_tag@.map_values(
            |tc: TagCount| pad_right(tc.0@, tw) + "  "@ + pad_left(decimal(tc.1 as nat), cw),
        )
    } else {
        Seq::empty()
    };
    counts + priorities + tags
}

/// The tags as a table: each name padded to the
/// longest name, in bytes, a space, and its count right-aligned to the widest count.
pub open spec fn tag_table_lines(cs: Seq<TagCount>) -> Seq<Seq<char>> {
    cs.map_values(
        |tc: TagCount|
            pad_right(tc.0@, max_name_len(cs) as int) + seq![' '] + pad_left(
                decimal(tc.1 as nat),
                max_count_digits(cs) as int,
            ),
    )
}

/// Returns the largest count in `cs` (see [`max_count`]).
fn largest_count<A>(cs: &Vec<(A, usize)>) -> (r: usize)
    ensures
        r == max_count(cs@),
{
    let mut m: usize = 0;
    let mut i: usize = 0;
    while i < cs.len()
        invariant
            i <= cs@.len(),
            m == max_count(cs@.take(i as int)),
        decreases cs@.len() - i,
    {
        assert(cs@.take(i + 1).drop_last() =~= cs@.take(i as int));
        if cs[i].1 > m {
            m = cs[i].1;
        }
        i = i + 1;
    }
    assert(cs@.take(i as int) =~= cs@);
    m
}

/// Returns the length in bytes of the longest name in `cs` (see [`max_name_len`]).
fn longest_name(cs: &Vec<TagCount>) -> (r: usize)
    ensures
        r == max_name_len(cs@),
{
    let mut m: usize = 0;
    let mut i: usize = 0;
    while i < cs.len()
        invariant
            i <= cs@.len(),
            m == max_name_len(cs@.take(i as int)),
        decreases cs@.len() - i,
    {
        assert(cs@.take(i + 1).drop_last() =~= cs@.take(i as int));
        let n = cs[i].0.as_str().as_bytes().len();
        if n > m {
            m = n;
        }
        i = i + 1;
    }
    assert(cs@.take(i as int) =~= cs@);
    m
}

/// The decimal digits of `n`.
fn decimal_chars(n: usize) -> (r: Vec<char>)
    ensures
        r@ == decimal(n as nat),
{
    let mut v: Vec<char> = Vec::new();
    push_decimal(&mut v, n as u64);
    assert(v@ =~= decimal(n as nat));
    v
}

/// Appends `line` and a line break to `out`.
fn push_line(out: &mut Vec<char>, line: &Vec<char>, Ghost(lines): Ghost<Seq<Seq<char>>>)
    requires
        old(out)@ == joined_lines(lines),
    ensures
        final(out)@ == joined_lines(lines.push(line@)),
{
    push_chars(out, line.as_slice());
    out.push('\n');
    assert(lines.push(line@).drop_last() =~= lines);
    assert(out@ =~= joined_lines(lines) + line@ + seq!['\n']);
}

/// The text `s` right-aligned to `width` characters.
fn padded_left(s: Vec<char>, width: usize) -> (r: Vec<char>)
    ensures
        r@ == pad_left(s@, width as int),
{
    let mut out: Vec<char> = Vec::new();
    if s.len() < width {
        push_repeated(&mut out, ' ', width - s.len());
    } else {
        push_repeated(&mut out, ' ', 0);
    }
    push_chars(&mut out, s.as_slice());
    assert(out@ =~= pad_left(s@, width as int));
    out
}

/// The text `s` left-aligned in `width` characters.
fn padded_right(s: Vec<char>, width: usize) -> (r: Vec<char>)
    ensures
        r@ == pad_right(s@, width as int),
{
    let mut out = s;
    let n = out.len();
    if n < width {
        push_repeated(&mut out, ' ', width - n);
    } else {
        push_repeated(&mut out, ' ', 0);
    }
    assert(out@ =~= pad_right(s@, width as int));
    out
}

/// The summary as text (see [`summary_lines`]), `tracked_pct` and `untracked_pct` being
/// the shares, in percent, of TODOs with and without an identifier.
#[verifier::rlimit(30)]
pub fn write_raw(stats: &SummaryStats, tracked_pct: u32, untracked_pct: u32) -> (r: String)
    ensures
        r@ == joined_lines(summary_lines(*stats, tracked_pct as nat, untracked_pct as nat)),
{
    let ghost all = summary_lines(*stats, tracked_pct as nat, untracked_pct as nat);
    let mut out: Vec<char> = Vec::new();
    let ghost mut lines: Seq<Seq<char>> = Seq::empty();
    let mut l: Vec<char> = chars_of("Summary");
    push_line(&mut out, &l, Ghost(lines));
    proof { lines = lines.push(l@); }
    l = chars_of("=======");
    push_line(&mut out, &l, Ghost(lines));
    proof { lines = lines.push(l@); }
    l = chars_of("Total todos: ");
    push_chars(&mut l, decimal_chars(stats.total).as_slice());
    push_line(&mut out, &l, Ghost(lines));
    proof { lines = lines.push(l@); }
    if stats.total > 0 {
        l = chars_of("  Tracked:   ");
        push_chars(&mut l, padded_left(decimal_chars(stats.with_id), 3).as_slice());
        push_str(&mut l, " (");
        push_chars(&mut l, decimal_chars(tracked_pct as usize).as_slice());
        push_str(&mut l, "%)");
        push_line(&mut out, &l, Ghost(lines));
        proof { lines = lines.push(l@); }
        l = chars_of("  Untracked: ");
        push_chars(&mut l, padded_left(decimal_chars(stats.without_id), 3).as_slice());
        push_str(&mut l, " (");
        push_chars(&mut l, decimal_chars(untracked_pct as usize).as_slice());
        push_str(&mut l, "%)");
        push_line(&mut out, &l, Ghost(lines));
        proof { lines = lines.push(l@); }
    }
    let ghost counts_part = lines;
    if stats.by_priority.len() > 0 {
        let w = decimal_chars(largest_count(&stats.by_priority)).len();
        l = Vec::new();
        push_line(&mut out, &l, Ghost(lines));
        proof { lines = lines.push(l@); }
        l = chars_of("By Priority");
        push_line(&mut out, &l, Ghost(lines));
        proof { lines = lines.push(l@); }
        l = chars_of("-----------");
        push_line(&mut out, &l, Ghost(lines));
        proof { lines = lines.push(l@); }
        let ghost head = lines;
        let ghost rows = stats.by_priority@.map_values(
            |pc: PriorityCount| pad_left(priority_label(pc.0), 3) + "  "@ + pad_left(decimal(pc.1 as nat), w as int),
        );
        let mut i: usize = 0;
        while i < stats.by_priority.len()
            invariant
                i <= stats.by_priority@.len(),
                rows == stats.by_priority@.map_values(
                    |pc: PriorityCount| pad_left(priority_label(pc.0), 3) + "  "@ + pad_left(decimal(pc.1 as nat), w as int),
                ),
                lines == head + rows.take(i as int),
                out@ == joined_lines(lines),
            decreases stats.by_priority@.len() - i,
        {
            let (p, c) = stats.by_priority[i];
            let mut label: Vec<char> = Vec::new();
            match p {
                Some(x) => {
                    label.push('(');
                    label.push(x);
                    label.push(')');
                },
                None => {
                    label.push(' ');
                    label.push('-');
                    label.push(' ');
                },
            }
            assert(label@ =~= priority_label(p));
            l = padded_left(label, 3);
            push_str(&mut l, "  ");
            push_chars(&mut l, padded_left(decimal_chars(c), w).as_slice());
            assert(l@ == rows[i as int]);
            push_line(&mut out, &l, Ghost(lines));
            proof {
                lines = lines.push(l@);
                assert(rows.take(i + 1) =~= rows.take(i as int).push(rows[i as int]));
            }
            i = i + 1;
        }
        proof {
            assert(rows.take(i as int) =~= rows);
        }
    }
    let ghost priorities_part = lines;
    if stats.by_tag.len() > 0 {
        let tw = longest_name(&stats.by_tag);
        let cw = decimal_chars(largest_count(&stats.by_tag)).len();
        l = Vec::new();
        push_line(&mut out, &l, Ghost(lines));
        proof { lines = lines.push(l@); }
        l = chars_of("By Tag");
        push_line(&mut out, &l, Ghost(lines));
        proof { lines = lines.push(l@); }
        l = chars_of("------");
        push_line(&mut out, &l, Ghost(lines));
        proof { lines = lines.push(l@); }
        let ghost head = lines;
        let ghost rows = stats.by_tag@.map_values(
            |tc: TagCount| pad_right(tc.0@, tw as int) + "  "@ + pad_left(decimal(tc.1 as nat), cw as int),
        );
        let mut i: usize = 0;
        while i < stats.by_tag.len()
            invariant
                i <= stats.by_tag@.len(),
                rows == stats.by_tag@.map_values(
                    |tc: TagCount| pad_right(tc.0@, tw as int) + "  "@ + pad_left(decimal(tc.1 as nat), cw as int),
                ),
                lines == head + rows.take(i as int),
                out@ == joined_lines(lines),
            decreases stats.by_tag@.len() - i,
        {
            l = padded_right(chars_of(stats.by_tag[i].0.as_str()), tw);
            push_str(&mut l, "  ");
            push_chars(&mut l, padded_left(decimal_chars(stats.by_tag[i].1), cw).as_slice());
            assert(l@ == rows[i as int]);
            push_line(&mut out, &l, Ghost(lines));
            proof {
                lines = lines.push(l@);
                assert(rows.take(i + 1) =~= rows.take(i as int).push(rows[i as int]));
            }
            i = i + 1;
        }
        proof {
            assert(rows.take(i as int) =~= rows);
        }
    }
    assert(lines =~= all);
    string_of_chars(out.as_slice())
}

/// The table of tags (see [`tag_table_lines`]), as text.
pub fn tag_table(tags: &Vec<TagCount>) -> (r: String)
    ensures
        r@ == joined_lines(tag_table_lines(tags@)),
{
    let nw = longest_name(tags);
    let mut cw: usize = 0;
    let mut i: usize = 0;
    while i < tags.len()
        invariant
            i <= tags@.len(),
            cw == max_count_digits(tags@.take(i as int)),
        decreases tags@.len() - i,
    {
        assert(tags@.take(i + 1).drop_last() =~= tags@.take(i as int));
        let n = decimal_chars(tags[i].1).len();
        if n > cw {
            cw = n;
        }
        i = i + 1;
    }
    assert(tags@.take(i as int) =~= tags@);
    let ghost rows = tag_table_lines(tags@);
    let mut out: Vec<char> = Vec::new();
    let mut j: usize = 0;
    assert(rows.take(0) =~= Seq::<Seq<char>>::empty());
    while j < tags.len()
        invariant
            j <= tags@.len(),
            nw == max_name_len(tags@),
            cw == max_count_digits(tags@),
            rows == tag_table_lines(tags@),
            out@ == joined_lines(rows.take(j as int)),
        decreases tags@.len() - j,
    {
        let mut l = padded_right(chars_of(tags[j].0.as_str()), nw);
        l.push(' ');
        push_chars(&mut l, padded_left(decimal_chars(tags[j].1), cw).as_slice());
        assert(l@ == rows[j as int]);
        push_line(&mut out, &l, Ghost(rows.take(j as int)));
        assert(rows.take(j + 1) =~= rows.take(j as int).push(rows[j as int]));
        j = j + 1;
    }
    assert(rows.take(j as int) =~= rows);
    string_of_chars(out.as_slice())
}

} // verus!
