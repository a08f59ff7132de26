//! Filters over TODOs: comparisons of a TODO property with a value, combined with
//! `and`, `or` and negation.
use vstd::prelude::*;
use chrono::Datelike;
use vstd::string::StrSliceExecFns;
use crate::todo::{Date, Todo, date_before, date_lt};

pub mod parser;

pub use parser::parse_expression;



verus! {

/// A property of a TODO that a filter can compare.
#[derive(Clone, Copy, Debug, PartialEq, Eq, Structural)]
pub enum Property {
    File,
    Priority,
    Project,
    Context,
    CreationDate,
    CompletionDate,
}

/// How a property is compared with a value.
#[derive(Clone, Copy, Debug, PartialEq, Eq, Structural)]
pub enum Relation {
    Equal,
    NotEqual,
    Greater,
    GreaterEqual,
    Less,
    LessEqual,
}

/// Compares one property of a TODO with a value.
#[derive(Debug, PartialEq)]
pub struct PropertyFilter {
    pub property: Property,
    pub relation: Relation,
    pub value: String,
}

/// Holds when any of its filters holds.
pub struct Disjunction {
    pub filters: Vec<Filter>,
}

/// Holds when all of its filters hold.
pub struct Conjunction {
    pub filters: Vec<Filter>,
}

/// Holds when its filter does not.
pub struct Negation {
    pub filter: Box<Filter>,
}

/// Holds for every TODO.
#[derive(Debug, PartialEq)]
pub struct All {}

/// A filter over TODOs.
pub enum Filter {
    Property(PropertyFilter),
    Disjunction(Disjunction),
    Conjunction(Conjunction),
    Negation(Negation),
    All(All),
}

/// The mathematical content of a [`Filter`].
pub enum SpecFilter {
    Property(Property, Relation, Seq<char>),
    Disjunction(Seq<SpecFilter>),
    Conjunction(Seq<SpecFilter>),
    Negation(Box<SpecFilter>),
    All,
}

/// The content of filter `f`.
pub open spec fn filter_view(f: Filter) -> SpecFilter
    decreases f, 0int,
{
    match f {
        Filter::Property(p) => SpecFilter::Property(p.property, p.relation, p.value@),
        Filter::Disjunction(d) => SpecFilter::Disjunction(filter_views(d.filters@, 0)),
        Filter::Conjunction(c) => SpecFilter::Conjunction(filter_views(c.filters@, 0)),
        Filter::Negation(n) => SpecFilter::Negation(Box::new(filter_view(*n.filter))),
        Filter::All(_) => SpecFilter::All,
    }
}

/// The contents of the filters `fs` from index `i` on.
pub open spec fn filter_views(fs: Seq<Filter>, i: int) -> Seq<SpecFilter>
    decreases fs, fs.len() - i,
{
    if 0 <= i < fs.len() {
        seq![filter_view(fs[i])] + filter_views(fs, i + 1)
    } else {
        Seq::empty()
    }
}

impl View for Filter {
    type V = SpecFilter;

    open spec fn view(&self) -> SpecFilter {
        filter_view(*self)
    }
}

/// The date that `str::parse::<chrono::NaiveDate>` reads from `s`, as
/// `(year, month, day)`.
pub uninterp spec fn naive_date_of(s: Seq<char>) -> Option<(i32, u32, u32)>;

/// The date in `s`, as the filter values give dates.
pub open spec fn date_of(s: Seq<char>) -> Option<Date> {
    match naive_date_of(s) {
        Some((y, m, d)) => Some(Date { year: y, month: m, day: d }),
        None => None,
    }
}

/// Parses `s` with `str::parse::<chrono::NaiveDate>`. The contract claims that the date
/// returned is the one [`naive_date_of`] names, and that its month and day are those of
/// a calendar (chrono's `month()` is 1 to 12 and `day()` 1 to 31); which strings chrono
/// accepts is left to chrono.
#[verifier::external_body]
pub(crate) fn parse_date(s: &str) -> (r: Option<Date>)
    ensures
        r matches Some(d) ==> naive_date_of(s@) == Some((d.year, d.month, d.day)),
        r is None ==> naive_date_of(s@) is None,
        r matches Some(d) ==> 1 <= d.month <= 12 && 1 <= d.day <= 31,
{
    match s.parse::<chrono::NaiveDate>() {
        Ok(d) => Some(Date { year: d.year(), month: d.month(), day: d.day() }),
        Err(_) => None,
    }
}

/// Whether a comparison holds, given whether the left side is below (`lt`) or equal to
/// (`eq`) the right side.
pub open spec fn compares(r: Relation, lt: bool, eq: bool) -> bool {
    match r {
        Relation::Equal => eq,
        Relation::NotEqual => !eq,
        Relation::Greater => !lt && !eq,
        Relation::GreaterEqual => !lt,
        Relation::Less => lt,
        Relation::LessEqual => lt || eq,
    }
}

/// `a` comes before `b` in byte-wise lexicographic order (the order of `str`).
pub open spec fn bytes_lt(a: Seq<u8>, b: Seq<u8>) -> bool
    decreases a.len(),
{
    if a.len() == 0 {
        b.len() > 0
    } else if b.len() == 0 {
        false
    } else if a[0] != b[0] {
        a[0] < b[0]
    } else {
        bytes_lt(a.drop_first(), b.drop_first())
    }
}

/// The UTF-8 encoding of a string.
pub open spec fn utf8(s: Seq<char>) -> Seq<u8> {
    vstd::utf8::encode_utf8(s)
}

/// An optional string before another (`None` first, as `Option` orders).
pub open spec fn opt_str_lt(a: Option<Seq<char>>, b: Option<Seq<char>>) -> bool {
    match (a, b) {
        (None, Some(_)) => true,
        (Some(x), Some(y)) => bytes_lt(utf8(x), utf8(y)),
        _ => false,
    }
}

/// An optional date before another (`None` first, as `Option` orders).
pub open spec fn opt_date_lt(a: Option<Date>, b: Option<Date>) -> bool {
    match (a, b) {
        (None, Some(_)) => true,
        (Some(x), Some(y)) => date_lt(x, y),
        _ => false,
    }
}

/// The file of a TODO as characters.
pub open spec fn file_of(t: Todo) -> Option<Seq<char>> {
    match t.file {
        Some(f) => Some(f@),
        None => None,
    }
}

/// Whether a comparison of property `p` with value `v` by relation `r` holds of `t`.
/// Priorities compare in reverse letter order: `priority>B` holds of an `A`. A TODO
/// without priority counts as `Z`. Projects and contexts only test membership; the
/// ordering relations never hold of them. A creation date comparison with a value that
/// is no date does not hold.
pub open spec fn property_holds(p: Property, r: Relation, v: Seq<char>, t: Todo) -> bool {
    match p {
        Property::File => compares(
            r,
            opt_str_lt(file_of(t), Some(v)),
            file_of(t) == Some(v),
        ),
        Property::Priority => {
            let pr = match t.priority {
                Some(c) => c,
                None => 'Z',
            };
            compares(r, (v[0] as u32) < (pr as u32), pr == v[0])
        },
        Property::Project => match r {
            Relation::Equal => t.spec_has_project(v),
            Relation::NotEqual => !t.spec_has_project(v),
            _ => false,
        },
        Property::Context => match r {
            Relation::Equal => t.spec_has_context(v),
            Relation::NotEqual => !t.spec_has_context(v),
            _ => false,
        },
        Property::CreationDate => match date_of(v) {
            None => false,
            Some(d) => compares(
                r,
                opt_date_lt(t.creation_date, Some(d)),
                t.creation_date == Some(d),
            ),
        },
        Property::CompletionDate => match date_of(v) {
            None => false,
            Some(d) => compares(
                r,
                opt_date_lt(t.completion_date, Some(d)),
                t.completion_date == Some(d),
            ),
        },
    }
}

/// Whether filter `f` holds of TODO `t`.
pub open spec fn holds(f: SpecFilter, t: Todo) -> bool
    decreases f, 0int,
{
    match f {
        SpecFilter::Property(p, r, v) => property_holds(p, r, v, t),
        SpecFilter::Disjunction(fs) => any_holds(fs, 0, t),
        SpecFilter::Conjunction(fs) => all_hold(fs, 0, t),
        SpecFilter::Negation(g) => !holds(*g, t),
        SpecFilter::All => true,
    }
}

/// Whether any of the filters `fs` from index `i` on holds of `t`.
pub open spec fn any_holds(fs: Seq<SpecFilter>, i: int, t: Todo) -> bool
    decreases fs, fs.len() - i,
{
    if 0 <= i < fs.len() {
        holds(fs[i], t) || any_holds(fs, i + 1, t)
    } else {
        false
    }
}

/// Whether all of the filters `fs` from index `i` on hold of `t`.
pub open spec fn all_hold(fs: Seq<SpecFilter>, i: int, t: Todo) -> bool
    decreases fs, fs.len() - i,
{
    if 0 <= i < fs.len() {
        holds(fs[i], t) && all_hold(fs, i + 1, t)
    } else {
        true
    }
}

/// A comparison that can be evaluated without failing: a priority needs a letter to
/// compare with, a completion date a value that is a date.
pub open spec fn property_evaluable(p: Property, v: Seq<char>) -> bool {
    &&& p == Property::Priority ==> v.len() > 0
    &&& p == Property::CompletionDate ==> date_of(v) is Some
}

/// Every comparison in filter `f` can be evaluated.
pub open spec fn evaluable(f: SpecFilter) -> bool
    decreases f, 0int,
{
    match f {
        SpecFilter::Property(p, _, v) => property_evaluable(p, v),
        SpecFilter::Disjunction(fs) => all_evaluable(fs, 0),
        SpecFilter::Conjunction(fs) => all_evaluable(fs, 0),
        SpecFilter::Negation(g) => evaluable(*g),
        SpecFilter::All => true,
    }
}

/// Every comparison in the filters `fs` from index `i` on can be evaluated.
pub open spec fn all_evaluable(fs: Seq<SpecFilter>, i: int) -> bool
    decreases fs, fs.len() - i,
{
    if 0 <= i < fs.len() {
        evaluable(fs[i]) && all_evaluable(fs, i + 1)
    } else {
        true
    }
}

/// Returns whether `a` comes before `b` byte-wise.
pub(crate) fn str_before(a: &str, b: &str) -> (r: bool)
    ensures
        r == bytes_lt(utf8(a@), utf8(b@)),
{
    let x = a.as_bytes();
    let y = b.as_bytes();
    let mut i: usize = 0;
    assert(x@.subrange(0, x@.len() as int) =~= x@);
    assert(y@.subrange(0, y@.len() as int) =~= y@);
    while i < x.len() && i < y.len() && x[i] == y[i]
        invariant
            i <= x@.len(),
            i <= y@.len(),
            bytes_lt(x@, y@) == bytes_lt(x@.subrange(i as int, x@.len() as int), y@.subrange(
                i as int,
                y@.len() as int,
            )),
        decreases x@.len() - i,
    {
        assert(x@.subrange(i + 1, x@.len() as int) =~= x@.subrange(i as int, x@.len() as int).drop_first());
        assert(y@.subrange(i + 1, y@.len() as int) =~= y@.subrange(i as int, y@.len() as int).drop_first());
        i = i + 1;
    }
    if i == x.len() {
        i < y.len()
    } else if i == y.len() {
        false
    } else {
        x[i] < y[i]
    }
}

/// Returns whether the relation holds between `a` and `b` given by `lt` and `eq`.
fn compare(r: Relation, lt: bool, eq: bool) -> (res: bool)
    ensures
        res == compares(r, lt, eq),
{
    match r {
        Relation::Equal => eq,
        Relation::NotEqual => !eq,
        Relation::Greater => !lt && !eq,
        Relation::GreaterEqual => !lt,
        Relation::Less => lt,
        Relation::LessEqual => lt || eq,
    }
}

/// Compares an optional date of a TODO with `d`.
pub fn compare_date(r: Relation, todo_date: Option<Date>, d: Date) -> (res: bool)
    ensures
        res == compares(r, opt_date_lt(todo_date, Some(d)), todo_date == Some(d)),
{
    let (lt, eq) = match todo_date {
        None => (true, false),
        Some(t) => (date_before(&t, &d), t == d),
    };
    compare(r, lt, eq)
}

impl PropertyFilter {
    /// Whether the filter holds of `todo`.
    pub fn filter(&self, todo: &Todo) -> (r: bool)
        requires
            property_evaluable(self.property, self.value@),
        ensures
            r == property_holds(self.property, self.relation, self.value@, *todo),
    {
        match self.property {
            Property::File => {
                let (lt, eq) = match &todo.file {
                    None => (true, false),
                    Some(f) => (str_before(f.as_str(), self.value.as_str()), *f == self.value),
                };
                compare(self.relation, lt, eq)
            },
            Property::Priority => {
                let pr = match todo.priority {
                    Some(c) => c,
                    None => 'Z',
                };
                let v = self.value.as_str().get_char(0);
                compare(self.relation, (v as u32) < (pr as u32), pr == v)
            },
            Property::Project => match self.relation {
                Relation::Equal => todo.has_project(&self.value),
                Relation::NotEqual => !todo.has_project(&self.value),
                _ => false,
            },
            Property::Context => match self.relation {
                Relation::Equal => todo.has_context(&self.value),
                Relation::NotEqual => !todo.has_context(&self.value),
                _ => false,
            },
            Property::CreationDate => match parse_date(self.value.as_str()) {
                None => false,
                Some(d) => compare_date(self.relation, todo.creation_date, d),
            },
            Property::CompletionDate => match parse_date(self.value.as_str()) {
                None => false,
                Some(d) => compare_date(self.relation, todo.completion_date, d),
            },
        }
    }

    /// Returns whether the filter can be evaluated (see [`property_evaluable`]).
    pub fn is_evaluable(&self) -> (r: bool)
        ensures
            r == property_evaluable(self.property, self.value@),
    {
        match self.property {
            Property::Priority => self.value.as_str().unicode_len() > 0,
            Property::CompletionDate => parse_date(self.value.as_str()).is_some(),
            _ => true,
        }
    }
}

pub proof fn lemma_filter_views(fs: Seq<Filter>, i: int)
    requires
        0 <= i <= fs.len(),
    ensures
        filter_views(fs, i).len() == fs.len() - i,
        forall|k: int| 0 <= k < fs.len() - i ==> #[trigger] filter_views(fs, i)[k] == filter_view(fs[i + k]),
    decreases fs.len() - i,
{
    if i < fs.len() {
        lemma_filter_views(fs, i + 1);
        assert forall|k: int| 0 <= k < fs.len() - i implies #[trigger] filter_views(fs, i)[k]
            == filter_view(fs[i + k]) by {
            if k > 0 {
                assert(filter_views(fs, i)[k] == filter_views(fs, i + 1)[k - 1]);
            }
        }
    }
}

/// `any_holds` from index `i` on is `any_holds` from 0 on when none of the first `i` holds.
proof fn lemma_any_prefix(fs: Seq<SpecFilter>, i: int, t: Todo)
    requires
        0 <= i <= fs.len(),
        forall|k: int| 0 <= k < i ==> !holds(#[trigger] fs[k], t),
    ensures
        any_holds(fs, 0, t) == any_holds(fs, i, t),
    decreases i,
{
    if i > 0 {
        lemma_any_prefix(fs, i - 1, t);
    }
}

/// `all_hold` from index `i` on is `all_hold` from 0 on when all of the first `i` hold.
proof fn lemma_all_prefix(fs: Seq<SpecFilter>, i: int, t: Todo)
    requires
        0 <= i <= fs.len(),
        forall|k: int| 0 <= k < i ==> holds(#[trigger] fs[k], t),
    ensures
        all_hold(fs, 0, t) == all_hold(fs, i, t),
    decreases i,
{
    if i > 0 {
        lemma_all_prefix(fs, i - 1, t);
    }
}

/// `all_evaluable` from 0 on covers every filter.
proof fn lemma_all_evaluable(fs: Seq<SpecFilter>, i: int)
    requires
        0 <= i <= fs.len(),
    ensures
        all_evaluable(fs, i) == forall|k: int| i <= k < fs.len() ==> evaluable(#[trigger] fs[k]),
    decreases fs.len() - i,
{
    if i < fs.len() {
        lemma_all_evaluable(fs, i + 1);
    }
}

impl Disjunction {
    /// Whether any of the filters holds of `todo`.
    pub fn filter(&self, todo: &Todo) -> (r: bool)
        requires
            all_evaluable(filter_views(self.filters@, 0), 0),
        ensures
            r == any_holds(filter_views(self.filters@, 0), 0, *todo),
        decreases self, 0int,
    {
        let ghost vs = filter_views(self.filters@, 0);
        proof {
            lemma_filter_views(self.filters@, 0);
            lemma_all_evaluable(vs, 0);
        }
        let mut i: usize = 0;
        while i < self.filters.len()
            invariant
                i <= self.filters@.len(),
                vs == filter_views(self.filters@, 0),
                vs.len() == self.filters@.len(),
                forall|k: int| 0 <= k < vs.len() ==> #[trigger] vs[k] == filter_view(self.filters@[k]),
                forall|k: int| 0 <= k < vs.len() ==> evaluable(#[trigger] vs[k]),
                forall|k: int| 0 <= k < i ==> !holds(#[trigger] vs[k], *todo),
            decreases self.filters@.len() - i,
        {
            assert(vs[i as int] == filter_view(self.filters@[i as int]));
            if self.filters[i].filter(todo) {
                proof {
                    lemma_any_prefix(vs, i as int, *todo);
                }
                return true;
            }
            i = i + 1;
        }
        proof {
            lemma_any_prefix(vs, i as int, *todo);
        }
        false
    }
}

impl Conjunction {
    /// Whether all of the filters hold of `todo`.
    pub fn filter(&self, todo: &Todo) -> (r: bool)
        requires
            all_evaluable(filter_views(self.filters@, 0), 0),
        ensures
            r == all_hold(filter_views(self.filters@, 0), 0, *todo),
        decreases self, 0int,
    {
        let ghost vs = filter_views(self.filters@, 0);
        proof {
            lemma_filter_views(self.filters@, 0);
            lemma_all_evaluable(vs, 0);
        }
        let mut i: usize = 0;
        while i < self.filters.len()
            invariant
                i <= self.filters@.len(),
                vs == filter_views(self.filters@, 0),
                vs.len() == self.filters@.len(),
                forall|k: int| 0 <= k < vs.len() ==> #[trigger] vs[k] == filter_view(self.filters@[k]),
                forall|k: int| 0 <= k < vs.len() ==> evaluable(#[trigger] vs[k]),
                forall|k: int| 0 <= k < i ==> holds(#[trigger] vs[k], *todo),
            decreases self.filters@.len() - i,
        {
            assert(vs[i as int] == filter_view(self.filters@[i as int]));
            if !self.filters[i].filter(todo) {
                proof {
                    lemma_all_prefix(vs, i as int, *todo);
                }
                return false;
            }
            i = i + 1;
        }
        proof {
            lemma_all_prefix(vs, i as int, *todo);
        }
        true
    }
}

impl Negation {
    /// Whether the negated filter does not hold of `todo`.
    pub fn filter(&self, todo: &Todo) -> (r: bool)
        requires
            evaluable(filter_view(*self.filter)),
        ensures
            r == !holds(filter_view(*self.filter), *todo),
        decreases self, 0int,
    {
        !self.filter.filter(todo)
    }
}

impl All {
    /// Holds of every TODO.
    pub fn filter(&self, todo: &Todo) -> (r: bool)
        ensures
            r,
    {
        true
    }
}

impl Filter {
    /// Whether the filter holds of `todo`.
    pub fn filter(&self, todo: &Todo) -> (r: bool)
        requires
            evaluable(self@),
        ensures
            r == holds(self@, *todo),
        decreases self, 1int,
    {
        match self {
            Filter::Property(p) => p.filter(todo),
            Filter::Disjunction(d) => d.filter(todo),
            Filter::Conjunction(c) => c.filter(todo),
            Filter::Negation(n) => n.filter(todo),
            Filter::All(a) => a.filter(todo),
        }
    }
}

/// Returns whether every filter in `fs` can be evaluated.
fn all_filters_evaluable(fs: &Vec<Filter>) -> (r: bool)
    ensures
        r == all_evaluable(filter_views(fs@, 0), 0),
    decreases fs, 0int,
{
    let ghost vs = filter_views(fs@, 0);
    proof {
        lemma_filter_views(fs@, 0);
        lemma_all_evaluable(vs, 0);
    }
    let mut i: usize = 0;
    while i < fs.len()
        invariant
            i <= fs@.len(),
            vs == filter_views(fs@, 0),
            vs.len() == fs@.len(),
            all_evaluable(vs, 0) == forall|k: int| 0 <= k < vs.len() ==> evaluable(#[trigger] vs[k]),
            forall|k: int| 0 <= k < vs.len() ==> #[trigger] vs[k] == filter_view(fs@[k]),
            forall|k: int| 0 <= k < i ==> evaluable(#[trigger] vs[k]),
        decreases fs@.len() - i,
    {
        assert(vs[i as int] == filter_view(fs@[i as int]));
        if !fs[i].is_evaluable() {
            return false;
        }
        i = i + 1;
    }
    true
}

impl Filter {
    /// Returns whether the filter can be evaluated (see [`evaluable`]).
    pub fn is_evaluable(&self) -> (r: bool)
        ensures
            r == evaluable(self@),
        decreases self, 1int,
    {
        match self {
            Filter::Property(p) => p.is_evaluable(),
            Filter::Disjunction(d) => all_filters_evaluable(&d.filters),
            Filter::Conjunction(c) => all_filters_evaluable(&c.filters),
            Filter::Negation(n) => n.filter.is_evaluable(),
            Filter::All(_) => true,
        }
    }

    /// Whether the filter holds of `todo`; `None` where a comparison cannot be evaluated
    /// (a priority compared with nothing, a completion date with a value that is no date).
    pub fn try_filter(&self, todo: &Todo) -> (r: Option<bool>)
        ensures
            evaluable(self@) ==> r == Some(holds(self@, *todo)),
            !evaluable(self@) ==> r is None,
    {
        if self.is_evaluable() {
            Some(self.filter(todo))
        } else {
            None
        }
    }
}

/// The TODOs among `ts` that `f` holds of, in their order.
pub open spec fn kept_by(f: SpecFilter, ts: Seq<Todo>) -> Seq<Todo>
    decreases ts.len(),
{
    if ts.len() == 0 {
        Seq::empty()
    } else if holds(f, ts.last()) {
        kept_by(f, ts.drop_last()).push(ts.last())
    } else {
        kept_by(f, ts.drop_last())
    }
}

impl Filter {
    /// The TODOs that the filter holds of, in their order; `None` where the filter cannot
    /// be evaluated (see [`evaluable`]) and there is a TODO to evaluate it on.
    pub fn select(&self, todos: Vec<Todo>) -> (r: Option<Vec<Todo>>)
        ensures
            todos@.len() > 0 && !evaluable(self@) ==> r is None,
            todos@.len() == 0 || evaluable(self@) ==> (r matches Some(v) && v@ == kept_by(
                self@,
                todos@,
            )),
    {
        if todos.len() == 0 {
            return Some(todos);
        }
        if !self.is_evaluable() {
            return None;
        }
        let ghost all = todos@;
        let mut src = todos;
        let mut kept: Vec<Todo> = Vec::new();
        let ghost mut x: int = 0;
        assert(all.skip(0) =~= all);
        assert(all.take(0) =~= Seq::<Todo>::empty());
        while src.len() > 0
            invariant
                0 <= x <= all.len(),
                evaluable(self@),
                src@ == all.skip(x),
                kept@ == kept_by(self@, all.take(x)),
            decreases src@.len(),
        {
            let t = src.remove(0);
            assert(src@ =~= all.skip(x + 1));
            assert(all.take(x + 1).drop_last() =~= all.take(x));
            assert(all.take(x + 1).last() == t);
            if self.filter(&t) {
                kept.push(t);
            }
            proof {
                x = x + 1;
            }
        }
        assert(all.take(x) =~= all);
        Some(kept)
    }
}

/// Parses the filter expression `filter_def` (see [`parser::parse_expression`]).
pub fn parse_str(filter_def: String) -> (r: Result<Filter, String>)
    ensures
        match parser::parse_spec(filter_def@) {
            Ok(f) => r matches Ok(g) && g@ == f,
            Err((k, kind)) => r matches Err(m) && m@ == parser::error_message(
                filter_def@.subrange(k, filter_def@.len() as int),
                kind,
            ),
        },
{
    parse_expression(filter_def.as_str())
}

pub proof fn lemma_bytes_lt_irreflexive(a: Seq<u8>)
    ensures
        !bytes_lt(a, a),
    decreases a.len(),
{
    if a.len() > 0 {
        lemma_bytes_lt_irreflexive(a.drop_first());
    }
}

/// The properties that `<` and `>` order: files, priorities, and dates (when the value is
/// a date).
pub open spec fn ordered(p: Property, v: Seq<char>) -> bool {
    ||| p == Property::File
    ||| p == Property::Priority && v.len() > 0
    ||| (p == Property::CreationDate || p == Property::CompletionDate) && date_of(v) is Some
}

/// `!=` holds exactly when `=` does not, for every property (for a date property, when
/// the value is a date; for a priority, when there is a letter to compare with).
pub proof fn law_not_equal_is_complement(p: Property, v: Seq<char>, t: Todo)
    requires
        p == Property::Priority ==> v.len() > 0,
        (p == Property::CreationDate || p == Property::CompletionDate) ==> date_of(v) is Some,
    ensures
        property_holds(p, Relation::NotEqual, v, t) == !property_holds(p, Relation::Equal, v, t),
{
}

/// On the ordered properties, `>` holds exactly when `<=` does not, and `<` exactly when
/// `>=` does not.
pub proof fn law_order_complements(p: Property, v: Seq<char>, t: Todo)
    requires
        ordered(p, v),
    ensures
        property_holds(p, Relation::Greater, v, t) == !property_holds(p, Relation::LessEqual, v, t),
        property_holds(p, Relation::Less, v, t) == !property_holds(p, Relation::GreaterEqual, v, t),
{
}

/// On the ordered properties, exactly one of `<`, `=` and `>` holds.
pub proof fn law_trichotomy(p: Property, v: Seq<char>, t: Todo)
    requires
        ordered(p, v),
    ensures
        property_holds(p, Relation::Less, v, t) || property_holds(p, Relation::Equal, v, t)
            || property_holds(p, Relation::Greater, v, t),
        !(property_holds(p, Relation::Less, v, t) && property_holds(p, Relation::Equal, v, t)),
        !(property_holds(p, Relation::Less, v, t) && property_holds(p, Relation::Greater, v, t)),
        !(property_holds(p, Relation::Equal, v, t) && property_holds(p, Relation::Greater, v, t)),
{
    if p == Property::File {
        if let Some(f) = file_of(t) {
            lemma_bytes_lt_irreflexive(utf8(f));
        }
    }
}

/// A disjunction or a conjunction of a single filter holds exactly when that filter does.
pub proof fn law_single_clause(f: SpecFilter, t: Todo)
    ensures
        holds(SpecFilter::Disjunction(seq![f]), t) == holds(f, t),
        holds(SpecFilter::Conjunction(seq![f]), t) == holds(f, t),
{
    let s = seq![f];
    assert(any_holds(s, 1, t) == false);
    assert(any_holds(s, 0, t) == (holds(s[0], t) || any_holds(s, 1, t)));
    assert(all_hold(s, 1, t) == true);
    assert(all_hold(s, 0, t) == (holds(s[0], t) && all_hold(s, 1, t)));
    assert(holds(SpecFilter::Disjunction(s), t) == any_holds(s, 0, t));
    assert(holds(SpecFilter::Conjunction(s), t) == all_hold(s, 0, t));
}

/// A negation holds exactly when the negated filter does not, and negating twice gives
/// the filter back.
pub proof fn law_negation(f: SpecFilter, t: Todo)
    ensures
        holds(SpecFilter::Negation(Box::new(f)), t) == !holds(f, t),
        holds(SpecFilter::Negation(Box::new(SpecFilter::Negation(Box::new(f)))), t) == holds(f, t),
{
    let g = SpecFilter::Negation(Box::new(f));
    assert(holds(g, t) == !holds(f, t));
    assert(holds(SpecFilter::Negation(Box::new(g)), t) == !holds(g, t));
}

/// How a date `x` that a TODO may have compares with date `d`: an absent date is
/// before every date.
pub open spec fn date_compares(r: Relation, x: Option<Date>, d: Date) -> bool {
    let before = match x {
        None => true,
        Some(c) => c.year < d.year || (c.year == d.year && c.month < d.month) || (c.year
            == d.year && c.month == d.month && c.day < d.day),
    };
    let same = x == Some(d);
    match r {
        Relation::Equal => same,
        Relation::NotEqual => !same,
        Relation::Less => before,
        Relation::LessEqual => before || same,
        Relation::Greater => !before && !same,
        Relation::GreaterEqual => !before,
    }
}

/// A `completion_date` comparison reads the TODO's completion date and nothing else, a
/// `creation_date` comparison its creation date and nothing else: with a value `v` that
/// is the date `d`, `completion_date=v` holds exactly of the TODOs completed on `d`
/// (whatever their creation date), `completion_date<v` of those not completed or
/// completed before `d`, and so on.
pub proof fn law_date_comparisons_read_their_date(r: Relation, v: Seq<char>, d: Date, t: Todo)
    requires
        date_of(v) == Some(d),
    ensures
        holds(SpecFilter::Property(Property::CompletionDate, r, v), t) == date_compares(
            r,
            t.completion_date,
            d,
        ),
        holds(SpecFilter::Property(Property::CreationDate, r, v), t) == date_compares(
            r,
            t.creation_date,
            d,
        ),
{
}

/// Two TODOs with the same completion date satisfy the same `completion_date`
/// comparisons, and two with the same creation date the same `creation_date` ones,
/// whatever else differs between them.
pub proof fn law_date_comparisons_ignore_other_fields(r: Relation, v: Seq<char>, a: Todo, b: Todo)
    ensures
        a.completion_date == b.completion_date ==> holds(
            SpecFilter::Property(Property::CompletionDate, r, v),
            a,
        ) == holds(SpecFilter::Property(Property::CompletionDate, r, v), b),
        a.creation_date == b.creation_date ==> holds(
            SpecFilter::Property(Property::CreationDate, r, v),
            a,
        ) == holds(SpecFilter::Property(Property::CreationDate, r, v), b),
{
}

/// `project=v` holds exactly of the TODOs with a project `v`, `context=v` of those with
/// a context `v`, `file=v` of those found in file `v`, and `priority=v` of those whose
/// priority letter (`Z` where there is none) is the first letter of `v`.
pub proof fn law_comparisons_read_their_property(v: Seq<char>, t: Todo)
    ensures
        holds(SpecFilter::Property(Property::Project, Relation::Equal, v), t) == exists|i: int|
            0 <= i < t.projects@.len() && (#[trigger] t.projects@[i])@ == v,
        holds(SpecFilter::Property(Property::Context, Relation::Equal, v), t) == exists|i: int|
            0 <= i < t.contexts@.len() && (#[trigger] t.contexts@[i])@ == v,
        holds(SpecFilter::Property(Property::File, Relation::Equal, v), t) == (t.file matches Some(
            f,
        ) && f@ == v),
        holds(SpecFilter::Property(Property::Priority, Relation::Equal, v), t) == (match t.priority {
            Some(c) => c,
            None => 'Z',
        } == v[0]),
{
    let ps = crate::todo::string_views(t.projects@);
    if ps.contains(v) {
        let i = choose|i: int| 0 <= i < ps.len() && ps[i] == v;
        assert(t.projects@[i]@ == v);
    }
    if exists|i: int| 0 <= i < t.projects@.len() && (#[trigger] t.projects@[i])@ == v {
        let i = choose|i: int| 0 <= i < t.projects@.len() && (#[trigger] t.projects@[i])@ == v;
        assert(ps[i] == v);
    }
    let cs = crate::todo::string_views(t.contexts@);
    if cs.contains(v) {
        let i = choose|i: int| 0 <= i < cs.len() && cs[i] == v;
        assert(t.contexts@[i]@ == v);
    }
    if exists|i: int| 0 <= i < t.contexts@.len() && (#[trigger] t.contexts@[i])@ == v {
        let i = choose|i: int| 0 <= i < t.contexts@.len() && (#[trigger] t.contexts@[i])@ == v;
        assert(cs[i] == v);
    }
}

pub proof fn lemma_bytes_lt_transitive(a: Seq<u8>, b: Seq<u8>, c: Seq<u8>)
    requires
        bytes_lt(a, b),
        bytes_lt(b, c),
    ensures
        bytes_lt(a, c),
    decreases a.len(),
{
    if a.len() > 0 && b.len() > 0 && c.len() > 0 && a[0] == b[0] && b[0] == c[0] {
        lemma_bytes_lt_transitive(a.drop_first(), b.drop_first(), c.drop_first());
    }
}

pub proof fn lemma_bytes_lt_total(a: Seq<u8>, b: Seq<u8>)
    ensures
        a == b || bytes_lt(a, b) || bytes_lt(b, a),
    decreases a.len(),
{
    if a.len() > 0 && b.len() > 0 && a[0] == b[0] {
        lemma_bytes_lt_total(a.drop_first(), b.drop_first());
        if a.drop_first() == b.drop_first() {
            assert(a =~= seq![a[0]] + a.drop_first());
            assert(b =~= seq![b[0]] + b.drop_first());
        }
    }
}

pub proof fn lemma_bytes_lt_asymmetric(a: Seq<u8>, b: Seq<u8>)
    requires
        bytes_lt(a, b),
    ensures
        !bytes_lt(b, a),
        a != b,
{
    lemma_bytes_lt_irreflexive(a);
    if bytes_lt(b, a) {
        lemma_bytes_lt_transitive(a, b, a);
    }
}

} // verus!
