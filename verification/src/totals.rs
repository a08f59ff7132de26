//! What the breakdowns of a summary add up to.
use vstd::prelude::*;
use crate::filter::{bytes_lt, lemma_bytes_lt_irreflexive};
use crate::summary::{
    all_tags, count_key, count_keys, counts_priorities, counts_tags, lemma_occurrences_bound,
    lemma_occurrences_push, occurrences, priorities, priority_lt, PriorityCount, TagCount,
};
use crate::todo::Todo;

verus! {

/// The sum of the counts in `cs`.
pub open spec fn total_count<A>(cs: Seq<(A, usize)>) -> nat
    decreases cs.len(),
{
    if cs.len() == 0 {
        0
    } else {
        total_count(cs.drop_last()) + cs.last().1 as nat
    }
}

/// The sum, over `keys`, of the occurrences of each in `xs`.
pub open spec fn occurrences_of_all<K>(keys: Seq<K>, xs: Seq<K>) -> nat
    decreases keys.len(),
{
    if keys.len() == 0 {
        0
    } else {
        occurrences_of_all(keys.drop_last(), xs) + occurrences(xs, keys.last())
    }
}

proof fn lemma_occurrences_of_all_empty<K>(keys: Seq<K>)
    ensures
        occurrences_of_all(keys, Seq::<K>::empty()) == 0,
    decreases keys.len(),
{
    if keys.len() > 0 {
        lemma_occurrences_of_all_empty(keys.drop_last());
    }
}

proof fn lemma_occurrences_of_all_push<K>(keys: Seq<K>, xs: Seq<K>, x: K)
    ensures
        occurrences_of_all(keys, xs.push(x)) == occurrences_of_all(keys, xs) + occurrences(keys, x),
    decreases keys.len(),
{
    if keys.len() > 0 {
        lemma_occurrences_of_all_push(keys.drop_last(), xs, x);
        lemma_occurrences_push(xs, x, keys.last());
    }
}

proof fn lemma_occurrences_unique<K>(keys: Seq<K>, x: K)
    requires
        keys.no_duplicates(),
        keys.contains(x),
    ensures
        occurrences(keys, x) == 1,
    decreases keys.len(),
{
    let rest = keys.drop_last();
    assert(rest.no_duplicates());
    if keys.last() == x {
        if rest.contains(x) {
            let i = choose|i: int| 0 <= i < rest.len() && rest[i] == x;
            assert(keys[i] == keys[keys.len() - 1]);
        }
        lemma_occurrences_bound(rest, x);
    } else {
        let i = choose|i: int| 0 <= i < keys.len() && keys[i] == x;
        assert(rest[i] == x);
        lemma_occurrences_unique(rest, x);
    }
}

/// Summing the occurrences of distinct keys that cover `xs` counts each of `xs` once.
proof fn lemma_occurrences_of_all<K>(keys: Seq<K>, xs: Seq<K>)
    requires
        keys.no_duplicates(),
        forall|p: int| 0 <= p < xs.len() ==> keys.contains(#[trigger] xs[p]),
    ensures
        occurrences_of_all(keys, xs) == xs.len(),
    decreases xs.len(),
{
    if xs.len() == 0 {
        lemma_occurrences_of_all_empty(keys);
        assert(xs =~= Seq::<K>::empty());
    } else {
        let rest = xs.drop_last();
        assert forall|p: int| 0 <= p < rest.len() implies keys.contains(#[trigger] rest[p]) by {
            assert(rest[p] == xs[p]);
        }
        lemma_occurrences_of_all(keys, rest);
        assert(rest.push(xs.last()) =~= xs);
        lemma_occurrences_of_all_push(keys, rest, xs.last());
        assert(keys.contains(xs[xs.len() - 1]));
        lemma_occurrences_unique(keys, xs.last());
    }
}

/// The total of counts that count the occurrences of their keys in `xs` is the sum of
/// those occurrences.
proof fn lemma_total_count<A, K>(cs: Seq<(A, usize)>, key: spec_fn((A, usize)) -> K, xs: Seq<K>)
    requires
        forall|i: int| 0 <= i < cs.len() ==> (#[trigger] cs[i]).1 == occurrences(xs, key(cs[i])),
    ensures
        total_count(cs) == occurrences_of_all(cs.map_values(key), xs),
    decreases cs.len(),
{
    if cs.len() > 0 {
        let rest = cs.drop_last();
        assert forall|i: int| 0 <= i < rest.len() implies (#[trigger] rest[i]).1 == occurrences(
            xs,
            key(rest[i]),
        ) by {
            assert(rest[i] == cs[i]);
        }
        lemma_total_count(rest, key, xs);
        assert(cs.map_values(key).drop_last() =~= rest.map_values(key));
        assert(cs[cs.len() - 1].1 == occurrences(xs, key(cs[cs.len() - 1])));
    }
}

/// The priority breakdown counts every TODO exactly once: its counts add up to the
/// number of TODOs.
pub proof fn law_priority_counts_add_up(counts: Seq<PriorityCount>, todos: Seq<Todo>)
    requires
        counts_priorities(counts, priorities(todos)),
    ensures
        total_count(counts) == todos.len(),
{
    let ps = priorities(todos);
    let key = |c: PriorityCount| c.0;
    let keys = counts.map_values(key);
    assert(counts.map_values(|c: PriorityCount| c.0) == keys);
    lemma_total_count(counts, key, ps);
    assert forall|i: int, j: int| 0 <= i < keys.len() && 0 <= j < keys.len() && i != j implies keys[i]
        != keys[j] by {
        if i < j {
            assert(priority_lt(counts[i].0, counts[j].0));
        } else {
            assert(priority_lt(counts[j].0, counts[i].0));
        }
    }
    lemma_occurrences_of_all(keys, ps);
}

/// The tag breakdown counts every tag of every TODO exactly once: its counts add up to
/// the number of tags over all TODOs.
pub proof fn law_tag_counts_add_up(counts: Seq<TagCount>, todos: Seq<Todo>)
    requires
        counts_tags(counts, all_tags(todos)),
    ensures
        total_count(counts) == all_tags(todos).len(),
{
    let tags = all_tags(todos);
    let key = |c: TagCount| count_key(c);
    let keys = counts.map_values(key);
    assert(count_keys(counts) == keys);
    lemma_total_count(counts, key, tags);
    assert forall|i: int, j: int| 0 <= i < keys.len() && 0 <= j < keys.len() && i != j implies keys[i]
        != keys[j] by {
        lemma_bytes_lt_irreflexive(keys[i]);
        if i < j {
            assert(bytes_lt(count_key(counts[i]), count_key(counts[j])));
        } else {
            assert(bytes_lt(count_key(counts[j]), count_key(counts[i])));
        }
    }
    lemma_occurrences_of_all(keys, tags);
}

} // verus!
