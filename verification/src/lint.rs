//! Checks on how TODOs are linked by their identifiers: a tracking number used by more
//! than one TODO, and references to a number that no TODO has; and the renumbering that
//! fixes the first kind.
use vstd::prelude::*;
use crate::todo::{Todo, TodoIdentifier};
use crate::view::{ids_of, max_primary_id};

verus! {

/// A problem with the identifiers of a list of TODOs; TODOs are given by their index.
#[derive(Clone, Copy, Debug, PartialEq, Eq, Structural)]
pub enum LinkingWarning {
    /// The TODO at `duplicate` has the tracking number `id`, which the TODO at `first`
    /// (the first to have it) has too.
    DuplicatePrimary { id: u32, first: usize, duplicate: usize },
    /// The TODO at `at` refers to number `id`, which no TODO has.
    OrphanReference { id: u32, at: usize },
}

/// The first of `todos[..upto]` with tracking number `n`.
pub open spec fn first_primary(todos: Seq<Todo>, n: u32, upto: int) -> Option<int>
    decreases upto,
{
    if upto <= 0 {
        None
    } else {
        match first_primary(todos, n, upto - 1) {
            Some(j) => Some(j),
            None => if todos[upto - 1].id == Some(TodoIdentifier::Primary(n)) {
                Some(upto - 1)
            } else {
                None
            },
        }
    }
}

/// The warning about the TODO at `k`, if there is one.
pub open spec fn warning_at(todos: Seq<Todo>, k: int) -> Option<LinkingWarning> {
    match todos[k].id {
        Some(TodoIdentifier::Primary(n)) => match first_primary(todos, n, k) {
            Some(j) => Some(LinkingWarning::DuplicatePrimary { id: n, first: j as usize, duplicate: k as usize }),
            None => None,
        },
        Some(TodoIdentifier::Reference(n)) => if first_primary(todos, n, todos.len() as int) is None {
            Some(LinkingWarning::OrphanReference { id: n, at: k as usize })
        } else {
            None
        },
        None => None,
    }
}

/// The warnings about `todos[..upto]`, in the order of the TODOs.
pub open spec fn warnings_upto(todos: Seq<Todo>, upto: int) -> Seq<LinkingWarning>
    decreases upto,
{
    if upto <= 0 {
        Seq::empty()
    } else {
        warnings_upto(todos, upto - 1) + match warning_at(todos, upto - 1) {
            Some(w) => seq![w],
            None => Seq::empty(),
        }
    }
}

proof fn lemma_first_primary(todos: Seq<Todo>, n: u32, upto: int)
    requires
        upto <= todos.len(),
    ensures
        first_primary(todos, n, upto) matches Some(j) ==> 0 <= j < upto && todos[j].id == Some(
            TodoIdentifier::Primary(n),
        ),
        first_primary(todos, n, upto) is None ==> forall|j: int|
            0 <= j < upto ==> todos[j].id != Some(TodoIdentifier::Primary(n)),
    decreases upto,
{
    if upto > 0 {
        lemma_first_primary(todos, n, upto - 1);
    }
}

/// Returns the first of `todos[..upto]` with tracking number `n` (see [`first_primary`]).
fn find_primary(todos: &[Todo], n: u32, upto: usize) -> (r: Option<usize>)
    requires
        upto <= todos@.len(),
    ensures
        match first_primary(todos@, n, upto as int) {
            Some(j) => r == Some(j as usize),
            None => r is None,
        },
{
    let mut j: usize = 0;
    while j < upto
        invariant
            j <= upto <= todos@.len(),
            first_primary(todos@, n, j as int) is None,
        decreases upto - j,
    {
        match todos[j].id {
            Some(TodoIdentifier::Primary(m)) => {
                if m == n {
                    assert(first_primary(todos@, n, j + 1) == Some(j as int));
                    proof {
                        lemma_first_primary_stays(todos@, n, j + 1, upto as int);
                    }
                    return Some(j);
                }
            },
            _ => {},
        }
        j = j + 1;
    }
    None
}

proof fn lemma_first_primary_stays(todos: Seq<Todo>, n: u32, a: int, b: int)
    requires
        0 <= a <= b,
        first_primary(todos, n, a) is Some,
    ensures
        first_primary(todos, n, b) == first_primary(todos, n, a),
    decreases b - a,
{
    if a < b {
        lemma_first_primary_stays(todos, n, a, b - 1);
    }
}

/// The linking warnings of `todos`: each TODO whose tracking number an earlier TODO
/// already has, and each reference to a number that no TODO has; in the order of the
/// TODOs.
pub fn warnings(todos: &[Todo]) -> (r: Vec<LinkingWarning>)
    ensures
        r@ == warnings_upto(todos@, todos@.len() as int),
{
    let mut out: Vec<LinkingWarning> = Vec::new();
    let mut k: usize = 0;
    while k < todos.len()
        invariant
            k <= todos@.len(),
            out@ == warnings_upto(todos@, k as int),
        decreases todos@.len() - k,
    {
        let w: Option<LinkingWarning> = match todos[k].id {
            Some(TodoIdentifier::Primary(n)) => match find_primary(todos, n, k) {
                Some(j) => Some(LinkingWarning::DuplicatePrimary { id: n, first: j, duplicate: k }),
                None => None,
            },
            Some(TodoIdentifier::Reference(n)) => match find_primary(todos, n, todos.len()) {
                Some(_) => None,
                None => Some(LinkingWarning::OrphanReference { id: n, at: k }),
            },
            None => None,
        };
        assert(w == warning_at(todos@, k as int));
        match w {
            Some(x) => {
                out.push(x);
            },
            None => {},
        }
        assert(out@ =~= warnings_upto(todos@, k + 1));
        k = k + 1;
    }
    out
}

/// The renumbering that fixes the duplicates among `ws`: in order, each duplicate gets
/// the next number after `max_id`; as `(index of the TODO, new number)`.
pub open spec fn renumbered(ws: Seq<LinkingWarning>, max_id: nat) -> Seq<(usize, u32)>
    decreases ws.len(),
{
    if ws.len() == 0 {
        Seq::empty()
    } else {
        let prev = renumbered(ws.drop_last(), max_id);
        match ws.last() {
            LinkingWarning::DuplicatePrimary { duplicate, .. } => prev.push(
                (duplicate, (max_id + prev.len() + 1) as u32),
            ),
            LinkingWarning::OrphanReference { .. } => prev,
        }
    }
}

/// The number of orphan references among `ws`, which renumbering cannot fix.
pub open spec fn orphans(ws: Seq<LinkingWarning>) -> nat
    decreases ws.len(),
{
    if ws.len() == 0 {
        0
    } else {
        orphans(ws.drop_last()) + match ws.last() {
            LinkingWarning::OrphanReference { .. } => 1nat,
            _ => 0nat,
        }
    }
}

proof fn lemma_renumbered_len(ws: Seq<LinkingWarning>, max_id: nat)
    ensures
        renumbered(ws, max_id).len() + orphans(ws) == ws.len(),
    decreases ws.len(),
{
    if ws.len() > 0 {
        lemma_renumbered_len(ws.drop_last(), max_id);
    }
}

/// The fix for the warnings `ws`, the largest number in use being `max_id`, where every
/// duplicate can be loaded and rewritten: the new numbers of the duplicates (see
/// [`renumbered`]), how many warnings remain, and whether the command fails (exit status
/// 1: issues were found, or fixes were made), which is whenever there is a warning.
pub fn lint_fix(ws: &[LinkingWarning], max_id: u32) -> (r: (Vec<(usize, u32)>, usize, bool))
    requires
        max_id + ws@.len() <= u32::MAX,
    ensures
        r.0@ == renumbered(ws@, max_id as nat),
        r.1 == orphans(ws@),
        r.2 == (r.0@.len() > 0 || r.1 > 0),
        r.2 == (ws@.len() > 0),
{
    let mut fixes: Vec<(usize, u32)> = Vec::new();
    let mut remaining: usize = 0;
    let mut next = max_id;
    let mut i: usize = 0;
    assert(ws@.take(0) =~= Seq::<LinkingWarning>::empty());
    while i < ws.len()
        invariant
            i <= ws@.len(),
            max_id + ws@.len() <= u32::MAX,
            fixes@ == renumbered(ws@.take(i as int), max_id as nat),
            remaining == orphans(ws@.take(i as int)),
            next == max_id + fixes@.len(),
            fixes@.len() + remaining == i,
        decreases ws@.len() - i,
    {
        assert(ws@.take(i + 1).drop_last() =~= ws@.take(i as int));
        proof {
            lemma_renumbered_len(ws@.take(i as int), max_id as nat);
        }
        match ws[i] {
            LinkingWarning::DuplicatePrimary { duplicate, .. } => {
                next = next + 1;
                fixes.push((duplicate, next));
            },
            LinkingWarning::OrphanReference { .. } => {
                remaining = remaining + 1;
            },
        }
        i = i + 1;
    }
    assert(ws@.take(i as int) =~= ws@);
    let failed = fixes.len() > 0 || remaining > 0;
    (fixes, remaining, failed)
}

/// Whether checking without fixing fails (exit status 1): whenever there is a warning.
pub fn lint_report_failed(ws: &[LinkingWarning]) -> (r: bool)
    ensures
        r == (ws@.len() > 0),
{
    ws.len() > 0
}

/// Where fixing the warnings one by one stands: the largest number in use so far, how
/// many duplicates were renumbered, and how many warnings remain.
#[derive(Clone, Copy, Debug, PartialEq, Eq, Structural)]
pub struct FixProgress {
    pub max_id: u32,
    pub fixed: usize,
    pub remaining: usize,
}

/// What fixing does about one warning.
#[derive(Clone, Copy, Debug, PartialEq, Eq, Structural)]
pub enum FixAction {
    /// Rewrite the number of the duplicate at `at` from `old` to `new`.
    Rewrite { at: usize, old: u32, new: u32 },
    /// Leave it: an orphan reference, or a duplicate that could not be loaded.
    Leave,
}

/// The step of fixing warning `w` from `p`, `loaded` telling whether the duplicate's
/// TODO could be loaded: a loaded duplicate gets the next number (whether or not its
/// rewrite then succeeds); anything else remains an issue.
pub open spec fn fix_step(p: FixProgress, w: LinkingWarning, loaded: bool) -> (FixProgress, FixAction) {
    match w {
        LinkingWarning::DuplicatePrimary { id, duplicate, .. } => if loaded {
            (
                FixProgress { max_id: (p.max_id + 1) as u32, ..p },
                FixAction::Rewrite { at: duplicate, old: id, new: (p.max_id + 1) as u32 },
            )
        } else {
            (FixProgress { remaining: (p.remaining + 1) as usize, ..p }, FixAction::Leave)
        },
        LinkingWarning::OrphanReference { .. } => (
            FixProgress { remaining: (p.remaining + 1) as usize, ..p },
            FixAction::Leave,
        ),
    }
}

/// Takes the step of fixing warning `w` (see [`fix_step`]).
pub fn fix_warning(p: FixProgress, w: LinkingWarning, loaded: bool) -> (r: (FixProgress, FixAction))
    requires
        p.max_id < u32::MAX,
        p.remaining < usize::MAX,
    ensures
        r == fix_step(p, w, loaded),
{
    match w {
        LinkingWarning::DuplicatePrimary { id, duplicate, .. } => if loaded {
            let new = p.max_id + 1;
            (FixProgress { max_id: new, ..p }, FixAction::Rewrite { at: duplicate, old: id, new })
        } else {
            (FixProgress { remaining: p.remaining + 1, ..p }, FixAction::Leave)
        },
        LinkingWarning::OrphanReference { .. } => (
            FixProgress { remaining: p.remaining + 1, ..p },
            FixAction::Leave,
        ),
    }
}

/// Records whether a rewrite succeeded: a fix made, or an issue that remains.
pub fn record_rewrite(p: FixProgress, ok: bool) -> (r: FixProgress)
    requires
        p.fixed < usize::MAX,
        p.remaining < usize::MAX,
    ensures
        r == if ok {
            FixProgress { fixed: (p.fixed + 1) as usize, ..p }
        } else {
            FixProgress { remaining: (p.remaining + 1) as usize, ..p }
        },
{
    if ok {
        FixProgress { fixed: p.fixed + 1, ..p }
    } else {
        FixProgress { remaining: p.remaining + 1, ..p }
    }
}

/// Whether fixing ends in failure (exit status 1): fixes were made, or issues remain.
pub fn fix_failed(p: FixProgress) -> (r: bool)
    ensures
        r == (p.fixed > 0 || p.remaining > 0),
{
    p.fixed > 0 || p.remaining > 0
}

/// The largest tracking number among `todos`; 0 if there is none.
pub fn max_primary(todos: &[Todo]) -> (r: u32)
    ensures
        r == max_primary_id(ids_of(todos@)),
{
    let mut m: u32 = 0;
    let mut i: usize = 0;
    while i < todos.len()
        invariant
            i <= todos@.len(),
            m == max_primary_id(ids_of(todos@).take(i as int)),
        decreases todos@.len() - i,
    {
        assert(ids_of(todos@).take(i + 1).drop_last() =~= ids_of(todos@).take(i as int));
        match todos[i].id {
            Some(TodoIdentifier::Primary(n)) => {
                if n > m {
                    m = n;
                }
            },
            _ => {},
        }
        i = i + 1;
    }
    assert(ids_of(todos@).take(i as int) =~= ids_of(todos@));
    m
}

/// The TODO at `k` has a tracking number that an earlier TODO already has.
pub open spec fn is_duplicate(todos: Seq<Todo>, k: int) -> bool {
    todos[k].id matches Some(TodoIdentifier::Primary(n)) && first_primary(todos, n, k) is Some
}

/// The number that `fixes` give the TODO at `k`, if they give it one.
pub open spec fn fix_for(fixes: Seq<(usize, u32)>, k: int) -> Option<u32> {
    if exists|r: int| 0 <= r < fixes.len() && fixes[r].0 == k {
        Some(fixes[choose|r: int| 0 <= r < fixes.len() && fixes[r].0 == k].1)
    } else {
        None
    }
}

/// The identifier of the TODO at `k` once `fixes` are applied.
pub open spec fn fixed_id(todos: Seq<Todo>, fixes: Seq<(usize, u32)>, k: int) -> Option<TodoIdentifier> {
    match fix_for(fixes, k) {
        Some(n) => Some(TodoIdentifier::Primary(n)),
        None => todos[k].id,
    }
}

proof fn lemma_renumbered_step(ws: Seq<LinkingWarning>, extra: Seq<LinkingWarning>, max_id: nat)
    requires
        extra.len() <= 1,
    ensures
        renumbered(ws + extra, max_id) == if extra.len() == 1 && extra[0] is DuplicatePrimary {
            renumbered(ws, max_id).push(
                (extra[0]->duplicate, (max_id + renumbered(ws, max_id).len() + 1) as u32),
            )
        } else {
            renumbered(ws, max_id)
        },
{
    if extra.len() == 0 {
        assert(ws + extra =~= ws);
    } else {
        assert((ws + extra).drop_last() =~= ws);
        assert((ws + extra).last() == extra[0]);
    }
}

/// What the renumbering of the warnings about `todos[..u]` consists of: the duplicates
/// among them, in order, numbered from `max_id + 1` on.
proof fn lemma_renumbered_warnings(todos: Seq<Todo>, max_id: nat, u: int)
    requires
        0 <= u <= todos.len() <= usize::MAX,
    ensures
        ({
            let f = renumbered(warnings_upto(todos, u), max_id);
            &&& f.len() <= u
            &&& forall|r: int|
                0 <= r < f.len() ==> 0 <= (#[trigger] f[r]).0 < u && f[r].1 == (max_id + r + 1) as u32
                    && is_duplicate(todos, f[r].0 as int)
            &&& forall|r: int, s: int| 0 <= r < s < f.len() ==> (#[trigger] f[r]).0 < (#[trigger] f[s]).0
            &&& forall|k: int| 0 <= k < u && is_duplicate(todos, k) ==> exists|r: int|
                0 <= r < f.len() && (#[trigger] f[r]).0 == k
        }),
    decreases u,
{
    if u > 0 {
        lemma_renumbered_warnings(todos, max_id, u - 1);
        let prev = warnings_upto(todos, u - 1);
        let extra = match warning_at(todos, u - 1) {
            Some(w) => seq![w],
            None => Seq::<LinkingWarning>::empty(),
        };
        assert(warnings_upto(todos, u) == prev + extra);
        lemma_renumbered_step(prev, extra, max_id);
        let f0 = renumbered(prev, max_id);
        let f = renumbered(warnings_upto(todos, u), max_id);
        if is_duplicate(todos, u - 1) {
            assert(extra.len() == 1 && extra[0] is DuplicatePrimary);
            assert(extra[0]->duplicate == (u - 1) as usize);
            assert(f == f0.push(((u - 1) as usize, (max_id + f0.len() + 1) as u32)));
            assert forall|k: int| 0 <= k < u && is_duplicate(todos, k) implies exists|r: int|
                0 <= r < f.len() && (#[trigger] f[r]).0 == k by {
                if k == u - 1 {
                    assert(f[f0.len() as int].0 == k);
                } else {
                    let r = choose|r: int| 0 <= r < f0.len() && (#[trigger] f0[r]).0 == k;
                    assert(f[r] == f0[r]);
                }
            }
            assert forall|r: int, s: int| 0 <= r < s < f.len() implies (#[trigger] f[r]).0 < (
            #[trigger] f[s]).0 by {
                if s < f0.len() {
                    assert(f[r] == f0[r] && f[s] == f0[s]);
                } else {
                    assert(f[r] == f0[r]);
                }
            }
            assert forall|r: int| 0 <= r < f.len() implies 0 <= (#[trigger] f[r]).0 < u && f[r].1 == (
            max_id + r + 1) as u32 && is_duplicate(todos, f[r].0 as int) by {
                if r < f0.len() {
                    assert(f[r] == f0[r]);
                }
            }
        } else {
            assert(f == f0) by {
                if extra.len() == 1 {
                    assert(!(extra[0] is DuplicatePrimary));
                }
            }
        }
    }
}

/// Renumbering the duplicates leaves no tracking number on two TODOs, where every
/// number in use is at most `max_id`.
pub proof fn law_fix_removes_duplicates(todos: Seq<Todo>, max_id: nat, i: int, j: int)
    requires
        forall|k: int|
            0 <= k < todos.len() ==> (#[trigger] todos[k].id matches Some(TodoIdentifier::Primary(n))
                ==> n <= max_id),
        max_id + todos.len() <= u32::MAX,
        todos.len() <= usize::MAX,
        0 <= i < j < todos.len(),
    ensures
        ({
            let fixes = renumbered(warnings_upto(todos, todos.len() as int), max_id);
            match (fixed_id(todos, fixes, i), fixed_id(todos, fixes, j)) {
                (Some(TodoIdentifier::Primary(a)), Some(TodoIdentifier::Primary(b))) => a != b,
                _ => true,
            }
        }),
{
    let n = todos.len() as int;
    lemma_renumbered_warnings(todos, max_id, n);
    let f = renumbered(warnings_upto(todos, n), max_id);
    // A TODO that is fixed gets the number after `max_id` given by its place among the
    // fixes; one that is not keeps its own.
    assert forall|k: int| 0 <= k < n implies (is_duplicate(todos, k) ==> exists|r: int|
        0 <= r < f.len() && f[r].0 == k && fix_for(f, k) == Some(f[r].1)) && (!is_duplicate(todos, k)
        ==> fix_for(f, k) is None) by {
        if is_duplicate(todos, k) {
            let r = choose|r: int| 0 <= r < f.len() && (#[trigger] f[r]).0 == k;
            let c = choose|c: int| 0 <= c < f.len() && f[c].0 == k;
            if c < r {
                assert(f[c].0 < f[r].0);
            } else if r < c {
                assert(f[r].0 < f[c].0);
            }
        } else {
            if exists|r: int| 0 <= r < f.len() && f[r].0 == k {
                let r = choose|r: int| 0 <= r < f.len() && f[r].0 == k;
                assert(is_duplicate(todos, f[r].0 as int));
            }
        }
    }
    let fixes = f;
    if is_duplicate(todos, i) && is_duplicate(todos, j) {
        let ri = choose|r: int| 0 <= r < f.len() && f[r].0 == i && fix_for(f, i) == Some(f[r].1);
        let rj = choose|r: int| 0 <= r < f.len() && f[r].0 == j && fix_for(f, j) == Some(f[r].1);
        assert(f[ri].1 == max_id + ri + 1);
        assert(f[rj].1 == max_id + rj + 1);
        assert(ri != rj);
        assert(fixed_id(todos, fixes, i) == Some(TodoIdentifier::Primary(f[ri].1)));
        assert(fixed_id(todos, fixes, j) == Some(TodoIdentifier::Primary(f[rj].1)));
    } else if is_duplicate(todos, i) {
        let ri = choose|r: int| 0 <= r < f.len() && f[r].0 == i && fix_for(f, i) == Some(f[r].1);
        assert(f[ri].1 == max_id + ri + 1);
        assert(fixed_id(todos, fixes, i) == Some(TodoIdentifier::Primary(f[ri].1)));
        assert(fix_for(f, j) is None);
        assert(fixed_id(todos, fixes, j) == todos[j].id);
    } else if is_duplicate(todos, j) {
        let rj = choose|r: int| 0 <= r < f.len() && f[r].0 == j && fix_for(f, j) == Some(f[r].1);
        assert(f[rj].1 == max_id + rj + 1);
        assert(fixed_id(todos, fixes, j) == Some(TodoIdentifier::Primary(f[rj].1)));
        assert(fix_for(f, i) is None);
        assert(fixed_id(todos, fixes, i) == todos[i].id);
    } else {
        assert(fix_for(f, i) is None);
        assert(fix_for(f, j) is None);
        if let Some(TodoIdentifier::Primary(a)) = todos[i].id {
            if todos[j].id == Some(TodoIdentifier::Primary(a)) {
                lemma_first_primary(todos, a, j);
                if first_primary(todos, a, j) is None {
                    assert(todos[i].id != Some(TodoIdentifier::Primary(a)));
                }
            }
        }
    }
}

/// Fixing the warnings `ws` step by step from `p`, every duplicate loaded and every
/// rewrite succeeding: where it ends, and the rewrites made, as `(index, new number)`.
pub open spec fn fix_run(ws: Seq<LinkingWarning>, p: FixProgress) -> (FixProgress, Seq<(usize, u32)>)
    decreases ws.len(),
{
    if ws.len() == 0 {
        (p, Seq::empty())
    } else {
        let (q, done) = fix_run(ws.drop_last(), p);
        let (q2, a) = fix_step(q, ws.last(), true);
        match a {
            FixAction::Rewrite { at, new, .. } => (
                FixProgress { fixed: (q2.fixed + 1) as usize, ..q2 },
                done.push((at, new)),
            ),
            FixAction::Leave => (q2, done),
        }
    }
}

/// Fixing step by step, where every duplicate loads and every rewrite succeeds, makes
/// exactly the renumbering that [`lint_fix`] plans and leaves the orphans as the issues
/// that remain.
pub proof fn law_steps_match_plan(ws: Seq<LinkingWarning>, max_id: u32)
    requires
        max_id + ws.len() <= u32::MAX,
        ws.len() <= usize::MAX,
    ensures
        fix_run(ws, FixProgress { max_id, fixed: 0, remaining: 0 }) == (
            FixProgress {
                max_id: (max_id + renumbered(ws, max_id as nat).len()) as u32,
                fixed: renumbered(ws, max_id as nat).len() as usize,
                remaining: orphans(ws) as usize,
            },
            renumbered(ws, max_id as nat),
        ),
    decreases ws.len(),
{
    lemma_renumbered_len(ws, max_id as nat);
    if ws.len() > 0 {
        law_steps_match_plan(ws.drop_last(), max_id);
        lemma_renumbered_len(ws.drop_last(), max_id as nat);
    }
}

} // verus!
