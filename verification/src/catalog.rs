//! Collections over all TODOs: the projects and contexts in use, and the numbering of
//! TODOs that have no identifier yet.
use vstd::prelude::*;
use vstd::string::StringExecFns;
use crate::display::{decimal, push_decimal, push_str};
use crate::summary::count_with_id;
use crate::text::string_of_chars;
use crate::todo::{contains_string, string_views, Todo, TodoFields, TodoIdentifier};

verus! {

/// The projects of all `todos`, in order, with repeats.
pub open spec fn all_projects(todos: Seq<Todo>) -> Seq<Seq<char>>
    decreases todos.len(),
{
    if todos.len() == 0 {
        Seq::empty()
    } else {
        all_projects(todos.drop_last()) + todos.last().fields().projects
    }
}

/// The contexts of all `todos`, in order, with repeats.
pub open spec fn all_contexts(todos: Seq<Todo>) -> Seq<Seq<char>>
    decreases todos.len(),
{
    if todos.len() == 0 {
        Seq::empty()
    } else {
        all_contexts(todos.drop_last()) + todos.last().fields().contexts
    }
}

/// `xs` without repeats: each value once, where it first occurs.
pub open spec fn distinct(xs: Seq<Seq<char>>) -> Seq<Seq<char>>
    decreases xs.len(),
{
    if xs.len() == 0 {
        Seq::empty()
    } else {
        let d = distinct(xs.drop_last());
        if d.contains(xs.last()) {
            d
        } else {
            d.push(xs.last())
        }
    }
}

/// Appends to `out` each of `names` that it does not hold yet.
fn add_distinct(out: &mut Vec<String>, names: &Vec<String>, Ghost(seen): Ghost<Seq<Seq<char>>>)
    requires
        string_views(old(out)@) == distinct(seen),
    ensures
        string_views(final(out)@) == distinct(seen + string_views(names@)),
{
    let mut i: usize = 0;
    while i < names.len()
        invariant
            i <= names@.len(),
            string_views(out@) == distinct(seen + string_views(names@).take(i as int)),
        decreases names@.len() - i,
    {
        let ghost prefix = seen + string_views(names@).take(i as int);
        assert((seen + string_views(names@).take(i + 1)).drop_last() =~= prefix);
        assert((seen + string_views(names@).take(i + 1)).last() == names@[i as int]@);
        if !contains_string(out, &names[i]) {
            let ghost before = out@;
            out.push(names[i].clone());
            assert(string_views(out@) =~= string_views(before).push(names@[i as int]@));
        }
        i = i + 1;
    }
    assert(string_views(names@).take(i as int) =~= string_views(names@));
}

/// The projects used by `todos`, each once, in the order they first occur.
pub fn list_projects(todos: &[Todo]) -> (r: Vec<String>)
    ensures
        string_views(r@) == distinct(all_projects(todos@)),
{
    let mut out: Vec<String> = Vec::new();
    let mut k: usize = 0;
    assert(string_views(out@) =~= distinct(Seq::empty()));
    assert(todos@.take(0) =~= Seq::<Todo>::empty());
    while k < todos.len()
        invariant
            k <= todos@.len(),
            string_views(out@) == distinct(all_projects(todos@.take(k as int))),
        decreases todos@.len() - k,
    {
        assert(todos@.take(k + 1).drop_last() =~= todos@.take(k as int));
        add_distinct(&mut out, &todos[k].projects, Ghost(all_projects(todos@.take(k as int))));
        k = k + 1;
    }
    assert(todos@.take(k as int) =~= todos@);
    out
}

/// The contexts used by `todos`, each once, in the order they first occur.
pub fn list_contexts(todos: &[Todo]) -> (r: Vec<String>)
    ensures
        string_views(r@) == distinct(all_contexts(todos@)),
{
    let mut out: Vec<String> = Vec::new();
    let mut k: usize = 0;
    assert(string_views(out@) =~= distinct(Seq::empty()));
    assert(todos@.take(0) =~= Seq::<Todo>::empty());
    while k < todos.len()
        invariant
            k <= todos@.len(),
            string_views(out@) == distinct(all_contexts(todos@.take(k as int))),
        decreases todos@.len() - k,
    {
        assert(todos@.take(k + 1).drop_last() =~= todos@.take(k as int));
        add_distinct(&mut out, &todos[k].contexts, Ghost(all_contexts(todos@.take(k as int))));
        k = k + 1;
    }
    assert(todos@.take(k as int) =~= todos@);
    out
}

/// The number of `todos` without an identifier.
pub open spec fn count_without_id(todos: Seq<Todo>) -> nat {
    (todos.len() - count_with_id(todos)) as nat
}

/// The identifier that importing gives the TODO at `i` of `todos`, the counter standing
/// at `num_todos`: the next number for each TODO without one, in order; the others keep
/// theirs.
pub open spec fn imported_id(todos: Seq<Todo>, num_todos: nat, i: int) -> Option<TodoIdentifier> {
    match todos[i].id {
        Some(id) => Some(id),
        None => Some(TodoIdentifier::Primary((num_todos + count_without_id(todos.take(i + 1))) as u32)),
    }
}

proof fn lemma_count_with_id_bounds(todos: Seq<Todo>)
    ensures
        count_with_id(todos) <= todos.len(),
    decreases todos.len(),
{
    if todos.len() > 0 {
        lemma_count_with_id_bounds(todos.drop_last());
    }
}

proof fn lemma_count_without_id_grows(todos: Seq<Todo>, i: int, j: int)
    requires
        0 <= i <= j <= todos.len(),
    ensures
        count_without_id(todos.take(i)) <= count_without_id(todos.take(j)),
    decreases j - i,
{
    if i < j {
        lemma_count_without_id_grows(todos, i, j - 1);
        assert(todos.take(j).drop_last() =~= todos.take(j - 1));
        lemma_count_with_id_bounds(todos.take(j - 1));
    }
}

/// Gives each of `todos` without an identifier the next number of the counter
/// `num_todos`, in order; returns the TODOs and the counter after them.
pub fn import_all(todos: Vec<Todo>, num_todos: u32) -> (r: (Vec<Todo>, u32))
    requires
        num_todos + count_without_id(todos@) <= u32::MAX,
    ensures
        r.0@.len() == todos@.len(),
        r.1 == num_todos + count_without_id(todos@),
        forall|i: int|
            0 <= i < todos@.len() ==> (#[trigger] r.0@[i]).fields() == (TodoFields {
                id: imported_id(todos@, num_todos as nat, i),
                ..todos@[i].fields()
            }),
{
    let ghost all = todos@;
    let mut rest = todos;
    let mut out: Vec<Todo> = Vec::new();
    let mut n = num_todos;
    proof {
        lemma_count_with_id_bounds(all);
        assert(all.take(0) =~= Seq::<Todo>::empty());
    }
    while rest.len() > 0
        invariant
            out@.len() + rest@.len() == all.len(),
            rest@ == all.subrange(out@.len() as int, all.len() as int),
            n == num_todos + count_without_id(all.take(out@.len() as int)),
            num_todos + count_without_id(all) <= u32::MAX,
            forall|i: int|
                0 <= i < out@.len() ==> (#[trigger] out@[i]).fields() == (TodoFields {
                    id: imported_id(all, num_todos as nat, i),
                    ..all[i].fields()
                }),
        decreases rest@.len(),
    {
        let ghost k = out@.len() as int;
        let mut t = rest.remove(0);
        assert(t == all[k]);
        assert(all.take(k + 1).drop_last() =~= all.take(k));
        proof {
            lemma_count_with_id_bounds(all.take(k));
            lemma_count_without_id_grows(all, k + 1, all.len() as int);
            assert(all.take(all.len() as int) =~= all);
        }
        if t.id.is_none() {
            n = n + 1;
            t.id = Some(TodoIdentifier::Primary(n));
        }
        out.push(t);
        assert(rest@ =~= all.subrange(out@.len() as int, all.len() as int));
    }
    assert(all.take(out@.len() as int) =~= all);
    (out, n)
}

/// The message after importing all TODOs, `n` of which had no identifier.
pub open spec fn import_all_message(n: nat) -> Seq<char> {
    if n == 0 {
        "No todos to import"@
    } else {
        decimal(n) + " todos imported"@
    }
}

/// Returns the message after importing `n` TODOs (see [`import_all_message`]).
pub fn imported_message(n: usize) -> (r: String)
    ensures
        r@ == import_all_message(n as nat),
{
    if n == 0 {
        <String as StringExecFns>::from_str("No todos to import")
    } else {
        let mut cs: Vec<char> = Vec::new();
        push_decimal(&mut cs, n as u64);
        push_str(&mut cs, " todos imported");
        string_of_chars(cs.as_slice())
    }
}

} // verus!

verus! {

/// Listing without repeats keeps every value and only those, each once.
pub proof fn law_distinct_lists_each_once(xs: Seq<Seq<char>>)
    ensures
        distinct(xs).no_duplicates(),
        forall|x: Seq<char>| #[trigger] distinct(xs).contains(x) <==> xs.contains(x),
    decreases xs.len(),
{
    if xs.len() > 0 {
        let rest = xs.drop_last();
        law_distinct_lists_each_once(rest);
        let d = distinct(rest);
        assert forall|x: Seq<char>| #[trigger] distinct(xs).contains(x) <==> xs.contains(x) by {
            if xs.contains(x) && x != xs.last() {
                let i = choose|i: int| 0 <= i < xs.len() && xs[i] == x;
                assert(rest[i] == x);
            }
            if rest.contains(x) {
                let i = choose|i: int| 0 <= i < rest.len() && rest[i] == x;
                assert(xs[i] == x);
            }
            if !d.contains(xs.last()) && x == xs.last() {
                assert(d.push(xs.last())[d.len() as int] == x);
            }
            if !d.contains(xs.last()) && d.push(xs.last()).contains(x) && x != xs.last() {
                let i = choose|i: int| 0 <= i < d.len() + 1 && d.push(xs.last())[i] == x;
                assert(d[i] == x);
            }
            if d.contains(x) && !d.contains(xs.last()) {
                let i = choose|i: int| 0 <= i < d.len() && d[i] == x;
                assert(d.push(xs.last())[i] == x);
            }
            assert(xs[xs.len() - 1] == xs.last());
        }
        if !d.contains(xs.last()) {
            let e = d.push(xs.last());
            assert forall|i: int, j: int| 0 <= i < e.len() && 0 <= j < e.len() && i != j implies e[i]
                != e[j] by {
                if i == d.len() {
                    assert(e[j] == d[j]);
                } else if j == d.len() {
                    assert(e[i] == d[i]);
                } else {
                    assert(e[i] == d[i] && e[j] == d[j]);
                }
            }
        }
    }
}

/// Importing gives the TODOs without an identifier numbers above the counter, in the
/// order of the TODOs and all different.
pub proof fn law_import_numbers_fresh(todos: Seq<Todo>, num_todos: nat, i: int, j: int)
    requires
        0 <= i < j < todos.len(),
        todos[i].id is None,
        todos[j].id is None,
    ensures
        imported_id(todos, num_todos, i) matches Some(TodoIdentifier::Primary(a)) && imported_id(
            todos,
            num_todos,
            j,
        ) matches Some(TodoIdentifier::Primary(b)) && (num_todos + count_without_id(todos) <= u32::MAX
            ==> num_todos < a < b),
{
    let ti = todos.take(i + 1);
    let tj = todos.take(j + 1);
    assert(ti.drop_last() =~= todos.take(i));
    assert(tj.drop_last() =~= todos.take(j));
    lemma_count_with_id_bounds(todos.take(i));
    lemma_count_with_id_bounds(todos.take(j));
    lemma_count_without_id_grows(todos, i + 1, j);
    lemma_count_without_id_grows(todos, j + 1, todos.len() as int);
    assert(todos.take(todos.len() as int) =~= todos);
}

} // verus!

verus! {

/// Importing the selected TODO, whose identifier is `id`, the counter standing at
/// `num_todos`: the number it gets (none where it has an identifier already), the counter
/// after, and the message shown.
pub fn import_selected(id: Option<TodoIdentifier>, num_todos: u32) -> (r: (Option<u32>, u32, String))
    requires
        id is None ==> num_todos < u32::MAX,
    ensures
        match id {
            Some(TodoIdentifier::Primary(n)) => r.0 is None && r.1 == num_todos && r.2@
                == "Todo already imported with ID "@ + decimal(n as nat),
            Some(TodoIdentifier::Reference(n)) => r.0 is None && r.1 == num_todos && r.2@
                == "Cannot import reference todo &"@ + decimal(n as nat),
            None => r.0 == Some((num_todos + 1) as u32) && r.1 == num_todos + 1 && r.2@
                == "Todo imported with ID "@ + decimal((num_todos + 1) as nat),
        },
{
    let mut cs: Vec<char> = Vec::new();
    match id {
        Some(TodoIdentifier::Primary(n)) => {
            push_str(&mut cs, "Todo already imported with ID ");
            push_decimal(&mut cs, n as u64);
            (None, num_todos, string_of_chars(cs.as_slice()))
        },
        Some(TodoIdentifier::Reference(n)) => {
            push_str(&mut cs, "Cannot import reference todo &");
            push_decimal(&mut cs, n as u64);
            (None, num_todos, string_of_chars(cs.as_slice()))
        },
        None => {
            let next = num_todos + 1;
            push_str(&mut cs, "Todo imported with ID ");
            push_decimal(&mut cs, next as u64);
            (Some(next), next, string_of_chars(cs.as_slice()))
        },
    }
}

} // verus!
