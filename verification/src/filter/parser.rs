//! The filter expression grammar:
//!
//! ```text
//! expression  := conjunction
//! conjunction := disjunction (and disjunction)*
//! disjunction := clause (or clause)*
//! clause      := spaces "(" conjunction ")" spaces | not clause | term
//! term        := property relation value
//! and         := spaces "and" spaces1
//! or          := spaces "or" spaces1
//! not         := spaces "not" spaces1
//! ```
//!
//! A property is one of `file`, `priority`, `project`, `context`, `creation_date`,
//! `completion_date`; a relation one of `=`, `!=`, `>=`, `>`, `<=`, `<`; a value runs up
//! to the next space or `)`. Spaces are blanks and tabs. `or` binds tighter than `and`,
//! and text after the expression is ignored.
use vstd::prelude::*;
use vstd::string::StringExecFns;
use crate::text::{chars_of, debug_quoted, quote_debug, string_of_chars};
use super::{Conjunction, Disjunction, Filter, Negation, Property, PropertyFilter, Relation, SpecFilter,
    filter_view, filter_views, lemma_filter_views};

verus! {

/// Why a term could not be read: a keyword that is not there (`Tag`), or an empty value
/// (`IsNot`).
#[derive(Clone, Copy, Debug, PartialEq, Eq, Structural)]
pub enum ErrorKind {
    Tag,
    IsNot,
}

pub open spec fn is_space(c: char) -> bool {
    c == ' ' || c == '\t'
}

/// The first position at or after `i` that does not hold a space.
pub open spec fn skip_spaces(s: Seq<char>, i: int) -> int
    decreases s.len() - i,
{
    if 0 <= i < s.len() && is_space(s[i]) {
        skip_spaces(s, i + 1)
    } else {
        i
    }
}

pub proof fn lemma_skip_spaces(s: Seq<char>, i: int)
    requires
        0 <= i <= s.len(),
    ensures
        i <= skip_spaces(s, i) <= s.len(),
    decreases s.len() - i,
{
    if 0 <= i < s.len() && is_space(s[i]) {
        lemma_skip_spaces(s, i + 1);
    }
}

/// `w` occurs in `s` at position `i`.
pub open spec fn has_at(s: Seq<char>, i: int, w: Seq<char>) -> bool {
    &&& 0 <= i
    &&& i + w.len() <= s.len()
    &&& s.subrange(i, i + w.len()) == w
}

/// The keyword that names property `p`.
pub open spec fn property_name(p: Property) -> Seq<char> {
    match p {
        Property::File => seq!['f', 'i', 'l', 'e'],
        Property::Priority => seq!['p', 'r', 'i', 'o', 'r', 'i', 't', 'y'],
        Property::Project => seq!['p', 'r', 'o', 'j', 'e', 'c', 't'],
        Property::Context => seq!['c', 'o', 'n', 't', 'e', 'x', 't'],
        Property::CreationDate => seq![
            'c', 'r', 'e', 'a', 't', 'i', 'o', 'n', '_', 'd', 'a', 't', 'e',
        ],
        Property::CompletionDate => seq![
            'c', 'o', 'm', 'p', 'l', 'e', 't', 'i', 'o', 'n', '_', 'd', 'a', 't', 'e',
        ],
    }
}

/// The symbol of relation `r`.
pub open spec fn relation_symbol(r: Relation) -> Seq<char> {
    match r {
        Relation::Equal => seq!['='],
        Relation::NotEqual => seq!['!', '='],
        Relation::Greater => seq!['>'],
        Relation::GreaterEqual => seq!['>', '='],
        Relation::Less => seq!['<'],
        Relation::LessEqual => seq!['<', '='],
    }
}

/// The property whose keyword comes first in `file`, `priority`, `project`, `context`,
/// `creation_date`, `completion_date` among those that occur at `i`.
pub open spec fn property_at(s: Seq<char>, i: int) -> Option<Property> {
    if has_at(s, i, property_name(Property::File)) {
        Some(Property::File)
    } else if has_at(s, i, property_name(Property::Priority)) {
        Some(Property::Priority)
    } else if has_at(s, i, property_name(Property::Project)) {
        Some(Property::Project)
    } else if has_at(s, i, property_name(Property::Context)) {
        Some(Property::Context)
    } else if has_at(s, i, property_name(Property::CreationDate)) {
        Some(Property::CreationDate)
    } else if has_at(s, i, property_name(Property::CompletionDate)) {
        Some(Property::CompletionDate)
    } else {
        None
    }
}

/// The relation whose symbol comes first in `=`, `!=`, `>=`, `>`, `<=`, `<` among
/// those that occur at `i`.
pub open spec fn relation_at(s: Seq<char>, i: int) -> Option<Relation> {
    if has_at(s, i, relation_symbol(Relation::Equal)) {
        Some(Relation::Equal)
    } else if has_at(s, i, relation_symbol(Relation::NotEqual)) {
        Some(Relation::NotEqual)
    } else if has_at(s, i, relation_symbol(Relation::GreaterEqual)) {
        Some(Relation::GreaterEqual)
    } else if has_at(s, i, relation_symbol(Relation::Greater)) {
        Some(Relation::Greater)
    } else if has_at(s, i, relation_symbol(Relation::LessEqual)) {
        Some(Relation::LessEqual)
    } else if has_at(s, i, relation_symbol(Relation::Less)) {
        Some(Relation::Less)
    } else {
        None
    }
}

/// The end of a value starting at `i`: the next space or `)`, or the end of `s`.
pub open spec fn value_end(s: Seq<char>, i: int) -> int
    decreases s.len() - i,
{
    if 0 <= i < s.len() && s[i] != ' ' && s[i] != ')' {
        value_end(s, i + 1)
    } else {
        i
    }
}

pub proof fn lemma_value_end(s: Seq<char>, i: int)
    requires
        0 <= i <= s.len(),
    ensures
        i <= value_end(s, i) <= s.len(),
    decreases s.len() - i,
{
    if 0 <= i < s.len() && s[i] != ' ' && s[i] != ')' {
        lemma_value_end(s, i + 1);
    }
}

/// A comparison at `i` and the position after it, or where and why reading it failed.
pub open spec fn term_at(s: Seq<char>, i: int) -> Result<(SpecFilter, int), (int, ErrorKind)> {
    match property_at(s, i) {
        None => Err((i, ErrorKind::Tag)),
        Some(p) => {
            let j = i + property_name(p).len();
            match relation_at(s, j) {
                None => Err((j, ErrorKind::Tag)),
                Some(r) => {
                    let k = j + relation_symbol(r).len();
                    let e = value_end(s, k);
                    if e == k {
                        Err((k, ErrorKind::IsNot))
                    } else {
                        Ok((SpecFilter::Property(p, r, s.subrange(k, e)), e))
                    }
                },
            }
        },
    }
}

/// The position after the keyword `w` at `i`, with any spaces before it and at least one
/// space after it, spaces included.
pub open spec fn keyword_at(s: Seq<char>, i: int, w: Seq<char>) -> Option<int> {
    let j = skip_spaces(s, i);
    if has_at(s, j, w) {
        let k = j + w.len();
        let e = skip_spaces(s, k);
        if e > k {
            Some(e)
        } else {
            None
        }
    } else {
        None
    }
}

pub open spec fn and_word() -> Seq<char> {
    seq!['a', 'n', 'd']
}

pub open spec fn or_word() -> Seq<char> {
    seq!['o', 'r']
}

pub open spec fn not_word() -> Seq<char> {
    seq!['n', 'o', 't']
}

/// A clause at `i`: a parenthesized conjunction, or else a negated clause, or else a
/// comparison.
pub open spec fn clause_at(s: Seq<char>, i: int) -> Option<(SpecFilter, int)>
    decreases s.len() - i, 1int,
{
    if 0 <= i <= s.len() {
        let j = skip_spaces(s, i);
        proof {
            lemma_skip_spaces(s, i);
        }
        let parens = if j < s.len() && s[j] == '(' {
            match conj_at(s, j + 1) {
                Some((f, k)) => if 0 <= k < s.len() && s[k] == ')' {
                    Some((f, skip_spaces(s, k + 1)))
                } else {
                    None
                },
                None => None,
            }
        } else {
            None
        };
        let negation = match keyword_at(s, i, not_word()) {
            Some(k) => if i < k <= s.len() {
                match clause_at(s, k) {
                    Some((f, e)) => Some((SpecFilter::Negation(Box::new(f)), e)),
                    None => None,
                }
            } else {
                None
            },
            None => None,
        };
        match parens {
            Some(r) => Some(r),
            None => match negation {
                Some(r) => Some(r),
                None => match term_at(s, i) {
                    Ok(r) => Some(r),
                    Err(_) => None,
                },
            },
        }
    } else {
        None
    }
}

/// The clauses after `k` that `or` joins to those in `acc`, and where they end.
pub open spec fn disj_rest(s: Seq<char>, k: int, acc: Seq<SpecFilter>) -> (Seq<SpecFilter>, int)
    decreases s.len() - k, 0int,
{
    match keyword_at(s, k, or_word()) {
        None => (acc, k),
        Some(j) => {
            if k < j <= s.len() {
                match clause_at(s, j) {
                    Some((f, k2)) => if j < k2 <= s.len() {
                        disj_rest(s, k2, acc.push(f))
                    } else {
                        (acc, k)
                    },
                    None => (acc, k),
                }
            } else {
                (acc, k)
            }
        },
    }
}

/// A disjunction at `i`: a clause and the clauses that `or` joins to it.
pub open spec fn disj_at(s: Seq<char>, i: int) -> Option<(SpecFilter, int)>
    decreases s.len() - i, 2int,
{
    match clause_at(s, i) {
        None => None,
        Some((f, k)) => if i < k <= s.len() {
            let (fs, e) = disj_rest(s, k, seq![f]);
            Some((SpecFilter::Disjunction(fs), e))
        } else {
            None
        },
    }
}

/// The disjunctions after `k` that `and` joins to those in `acc`, and where they end.
pub open spec fn conj_rest(s: Seq<char>, k: int, acc: Seq<SpecFilter>) -> (Seq<SpecFilter>, int)
    decreases s.len() - k, 0int,
{
    match keyword_at(s, k, and_word()) {
        None => (acc, k),
        Some(j) => {
            if k < j <= s.len() {
                match disj_at(s, j) {
                    Some((f, k2)) => if j < k2 <= s.len() {
                        conj_rest(s, k2, acc.push(f))
                    } else {
                        (acc, k)
                    },
                    None => (acc, k),
                }
            } else {
                (acc, k)
            }
        },
    }
}

/// A conjunction at `i`: a disjunction and the disjunctions that `and` joins to it.
pub open spec fn conj_at(s: Seq<char>, i: int) -> Option<(SpecFilter, int)>
    decreases s.len() - i, 3int,
{
    match disj_at(s, i) {
        None => None,
        Some((f, k)) => if i < k <= s.len() {
            let (fs, e) = conj_rest(s, k, seq![f]);
            Some((SpecFilter::Conjunction(fs), e))
        } else {
            None
        },
    }
}

/// The filter that expression `s` denotes, or where and why reading it failed (which is
/// where reading a comparison at its start failed).
pub open spec fn parse_spec(s: Seq<char>) -> Result<SpecFilter, (int, ErrorKind)> {
    match conj_at(s, 0) {
        Some((f, _)) => Ok(f),
        None => match term_at(s, 0) {
            Err(e) => Err(e),
            Ok(_) => Err((0, ErrorKind::Tag)),
        },
    }
}

/// The message for a failure of kind `kind` where `rest` was left to read.
pub open spec fn error_message(rest: Seq<char>, kind: ErrorKind) -> Seq<char> {
    "Failed to parse filter expression: Error(Error { input: "@ + debug_quoted(rest) + ", code: "@
        + match kind {
        ErrorKind::Tag => "Tag"@,
        ErrorKind::IsNot => "IsNot"@,
    } + " })"@
}

pub proof fn lemma_filter_views_push(fs: Seq<Filter>, f: Filter)
    ensures
        filter_views(fs.push(f), 0) == filter_views(fs, 0).push(filter_view(f)),
{
    lemma_filter_views(fs.push(f), 0);
    lemma_filter_views(fs, 0);
    assert forall|k: int| 0 <= k < fs.len() + 1 implies #[trigger] filter_views(fs.push(f), 0)[k]
        == filter_views(fs, 0).push(filter_view(f))[k] by {
        assert(fs.push(f)[0 + k] == fs.push(f)[k]);
        if k < fs.len() {
            assert(fs[0 + k] == fs[k]);
        }
    }
    assert(filter_views(fs.push(f), 0) =~= filter_views(fs, 0).push(filter_view(f)));
}

/// Returns the first position at or after `i` that does not hold a space.
fn skip_spaces_at(s: &[char], i: usize) -> (r: usize)
    requires
        i <= s@.len(),
    ensures
        r == skip_spaces(s@, i as int),
        i <= r <= s@.len(),
{
    proof {
        lemma_skip_spaces(s@, i as int);
    }
    let mut k = i;
    while k < s.len() && (s[k] == ' ' || s[k] == '\t')
        invariant
            i <= k <= s@.len(),
            skip_spaces(s@, i as int) == skip_spaces(s@, k as int),
        decreases s@.len() - k,
    {
        k = k + 1;
    }
    k
}

/// Returns whether `w` occurs in `s` at position `i`.
fn has_word(s: &[char], i: usize, w: &[char]) -> (r: bool)
    ensures
        r == has_at(s@, i as int, w@),
{
    if i > s.len() || w.len() > s.len() - i {
        return false;
    }
    let n = s.len();
    let mut k: usize = 0;
    while k < w.len()
        invariant
            n == s@.len(),
            i + w@.len() <= s@.len(),
            k <= w@.len(),
            forall|m: int| 0 <= m < k ==> s@[i + m] == w@[m],
        decreases w@.len() - k,
    {
        if s[i + k] != w[k] {
            assert(s@.subrange(i as int, i + w@.len())[k as int] != w@[k as int]);
            return false;
        }
        k = k + 1;
    }
    assert(s@.subrange(i as int, i + w@.len()) =~= w@);
    true
}

/// The keyword of property `p`.
fn property_keyword(p: Property) -> (r: Vec<char>)
    ensures
        r@ == property_name(p),
{
    let v = match p {
        Property::File => vec!['f', 'i', 'l', 'e'],
        Property::Priority => vec!['p', 'r', 'i', 'o', 'r', 'i', 't', 'y'],
        Property::Project => vec!['p', 'r', 'o', 'j', 'e', 'c', 't'],
        Property::Context => vec!['c', 'o', 'n', 't', 'e', 'x', 't'],
        Property::CreationDate => vec![
            'c', 'r', 'e', 'a', 't', 'i', 'o', 'n', '_', 'd', 'a', 't', 'e',
        ],
        Property::CompletionDate => vec![
            'c', 'o', 'm', 'p', 'l', 'e', 't', 'i', 'o', 'n', '_', 'd', 'a', 't', 'e',
        ],
    };
    assert(v@ =~= property_name(p));
    v
}

/// The symbol of relation `r`.
fn relation_keyword(r: Relation) -> (res: Vec<char>)
    ensures
        res@ == relation_symbol(r),
{
    let v = match r {
        Relation::Equal => vec!['='],
        Relation::NotEqual => vec!['!', '='],
        Relation::Greater => vec!['>'],
        Relation::GreaterEqual => vec!['>', '='],
        Relation::Less => vec!['<'],
        Relation::LessEqual => vec!['<', '='],
    };
    assert(v@ =~= relation_symbol(r));
    v
}

fn read_property(s: &[char], i: usize) -> (r: Option<Property>)
    ensures
        r == property_at(s@, i as int),
{
    if has_word(s, i, property_keyword(Property::File).as_slice()) {
        Some(Property::File)
    } else if has_word(s, i, property_keyword(Property::Priority).as_slice()) {
        Some(Property::Priority)
    } else if has_word(s, i, property_keyword(Property::Project).as_slice()) {
        Some(Property::Project)
    } else if has_word(s, i, property_keyword(Property::Context).as_slice()) {
        Some(Property::Context)
    } else if has_word(s, i, property_keyword(Property::CreationDate).as_slice()) {
        Some(Property::CreationDate)
    } else if has_word(s, i, property_keyword(Property::CompletionDate).as_slice()) {
        Some(Property::CompletionDate)
    } else {
        None
    }
}

fn read_relation(s: &[char], i: usize) -> (r: Option<Relation>)
    ensures
        r == relation_at(s@, i as int),
{
    if has_word(s, i, relation_keyword(Relation::Equal).as_slice()) {
        Some(Relation::Equal)
    } else if has_word(s, i, relation_keyword(Relation::NotEqual).as_slice()) {
        Some(Relation::NotEqual)
    } else if has_word(s, i, relation_keyword(Relation::GreaterEqual).as_slice()) {
        Some(Relation::GreaterEqual)
    } else if has_word(s, i, relation_keyword(Relation::Greater).as_slice()) {
        Some(Relation::Greater)
    } else if has_word(s, i, relation_keyword(Relation::LessEqual).as_slice()) {
        Some(Relation::LessEqual)
    } else if has_word(s, i, relation_keyword(Relation::Less).as_slice()) {
        Some(Relation::Less)
    } else {
        None
    }
}

/// Returns the end of the value starting at `i` (see [`value_end`]).
fn find_value_end(s: &[char], i: usize) -> (r: usize)
    requires
        i <= s@.len(),
    ensures
        r == value_end(s@, i as int),
        i <= r <= s@.len(),
{
    proof {
        lemma_value_end(s@, i as int);
    }
    let mut k = i;
    while k < s.len() && s[k] != ' ' && s[k] != ')'
        invariant
            i <= k <= s@.len(),
            value_end(s@, i as int) == value_end(s@, k as int),
        decreases s@.len() - k,
    {
        k = k + 1;
    }
    k
}

/// Reads a comparison at `i` (see [`term_at`]).
fn read_term(s: &[char], i: usize) -> (r: Result<(Filter, usize), (usize, ErrorKind)>)
    requires
        i <= s@.len(),
    ensures
        match term_at(s@, i as int) {
            Ok((f, e)) => r matches Ok((g, re)) && g@ == f && re == e,
            Err((k, kind)) => r matches Err((rk, rkind)) && rk == k && rkind == kind,
        },
        match r {
            Ok((_, e)) => e <= s@.len(),
            Err((k, _)) => k <= s@.len(),
        },
{
    let n = s.len();
    let p = match read_property(s, i) {
        None => {
            return Err((i, ErrorKind::Tag));
        },
        Some(p) => p,
    };
    let j = i + property_keyword(p).len();
    let r = match read_relation(s, j) {
        None => {
            return Err((j, ErrorKind::Tag));
        },
        Some(r) => r,
    };
    let k = j + relation_keyword(r).len();
    let e = find_value_end(s, k);
    if e == k {
        return Err((k, ErrorKind::IsNot));
    }
    let value = string_of_chars(&s[k..e]);
    Ok((Filter::Property(PropertyFilter { property: p, relation: r, value }), e))
}

/// Returns the position after keyword `w` at `i` (see [`keyword_at`]).
fn read_keyword(s: &[char], i: usize, w: &[char]) -> (r: Option<usize>)
    requires
        i <= s@.len(),
    ensures
        r matches Some(e) ==> keyword_at(s@, i as int, w@) == Some(e as int) && e <= s@.len(),
        r is None ==> keyword_at(s@, i as int, w@) is None,
{
    let n = s.len();
    let j = skip_spaces_at(s, i);
    if !has_word(s, j, w) {
        return None;
    }
    let k = j + w.len();
    let e = skip_spaces_at(s, k);
    if e > k {
        Some(e)
    } else {
        None
    }
}

/// Reads a clause at `i` (see [`clause_at`]).
fn read_clause(s: &[char], i: usize) -> (r: Option<(Filter, usize)>)
    requires
        i <= s@.len(),
    ensures
        match clause_at(s@, i as int) {
            Some((f, e)) => r matches Some((g, re)) && g@ == f && re == e,
            None => r is None,
        },
    decreases s@.len() - i, 1int,
{
    let j = skip_spaces_at(s, i);
    if j < s.len() && s[j] == '(' {
        if let Some((f, k)) = read_conjunction(s, j + 1) {
            if k < s.len() && s[k] == ')' {
                return Some((f, skip_spaces_at(s, k + 1)));
            }
        }
    }
    let not_w = vec!['n', 'o', 't'];
    assert(not_w@ =~= not_word());
    if let Some(k) = read_keyword(s, i, not_w.as_slice()) {
        if i < k && k <= s.len() {
            if let Some((f, e)) = read_clause(s, k) {
                return Some((Filter::Negation(Negation { filter: Box::new(f) }), e));
            }
        }
    }
    match read_term(s, i) {
        Ok(r) => Some(r),
        Err(_) => None,
    }
}

/// Reads the next `or` and clause after `k`, as [`disj_rest`] does.
fn read_or_clause(s: &[char], k: usize) -> (r: Option<(Filter, usize)>)
    requires
        k <= s@.len(),
    ensures
        forall|acc: Seq<SpecFilter>| #[trigger] disj_rest(s@, k as int, acc) == match r {
            None => (acc, k as int),
            Some((f, k2)) => disj_rest(s@, k2 as int, acc.push(f@)),
        },
        r matches Some((_, k2)) ==> k < k2 <= s@.len(),
    decreases s@.len() - k, 0int,
{
    let or_w = vec!['o', 'r'];
    assert(or_w@ =~= or_word());
    let j = match read_keyword(s, k, or_w.as_slice()) {
        None => {
            return None;
        },
        Some(j) => j,
    };
    if !(k < j && j <= s.len()) {
        return None;
    }
    match read_clause(s, j) {
        None => None,
        Some((f, k2)) => if j < k2 && k2 <= s.len() {
            Some((f, k2))
        } else {
            None
        },
    }
}

/// Reads the next `and` and disjunction after `k`, as [`conj_rest`] does.
fn read_and_disjunction(s: &[char], k: usize) -> (r: Option<(Filter, usize)>)
    requires
        k <= s@.len(),
    ensures
        forall|acc: Seq<SpecFilter>| #[trigger] conj_rest(s@, k as int, acc) == match r {
            None => (acc, k as int),
            Some((f, k2)) => conj_rest(s@, k2 as int, acc.push(f@)),
        },
        r matches Some((_, k2)) ==> k < k2 <= s@.len(),
    decreases s@.len() - k, 0int,
{
    let and_w = vec!['a', 'n', 'd'];
    assert(and_w@ =~= and_word());
    let j = match read_keyword(s, k, and_w.as_slice()) {
        None => {
            return None;
        },
        Some(j) => j,
    };
    if !(k < j && j <= s.len()) {
        return None;
    }
    match read_disjunction(s, j) {
        None => None,
        Some((f, k2)) => if j < k2 && k2 <= s.len() {
            Some((f, k2))
        } else {
            None
        },
    }
}

/// Reads a disjunction at `i` (see [`disj_at`]).
fn read_disjunction(s: &[char], i: usize) -> (r: Option<(Filter, usize)>)
    requires
        i <= s@.len(),
    ensures
        match disj_at(s@, i as int) {
            Some((f, e)) => r matches Some((g, re)) && g@ == f && re == e,
            None => r is None,
        },
    decreases s@.len() - i, 2int,
{
    let (f0, k0) = match read_clause(s, i) {
        None => {
            return None;
        },
        Some(x) => x,
    };
    if !(i < k0 && k0 <= s.len()) {
        return None;
    }
    let ghost whole = disj_rest(s@, k0 as int, seq![f0@]);
    let mut filters: Vec<Filter> = Vec::new();
    proof {
        lemma_filter_views_push(filters@, f0);
        assert(filter_views(Seq::<Filter>::empty(), 0) =~= Seq::<SpecFilter>::empty());
    }
    filters.push(f0);
    assert(filter_views(filters@, 0) =~= seq![filter_view(f0)]);
    let mut k = k0;
    loop
        invariant
            i < k <= s@.len(),
            disj_at(s@, i as int) == Some((SpecFilter::Disjunction(whole.0), whole.1)),
            whole == disj_rest(s@, k as int, filter_views(filters@, 0)),
        decreases s@.len() - k,
    {
        match read_or_clause(s, k) {
            None => {
                return Some((Filter::Disjunction(Disjunction { filters }), k));
            },
            Some((f, k2)) => {
                proof {
                    lemma_filter_views_push(filters@, f);
                }
                filters.push(f);
                k = k2;
            },
        }
    }
}

/// Reads a conjunction at `i` (see [`conj_at`]).
fn read_conjunction(s: &[char], i: usize) -> (r: Option<(Filter, usize)>)
    requires
        i <= s@.len(),
    ensures
        match conj_at(s@, i as int) {
            Some((f, e)) => r matches Some((g, re)) && g@ == f && re == e,
            None => r is None,
        },
    decreases s@.len() - i, 3int,
{
    let (f0, k0) = match read_disjunction(s, i) {
        None => {
            return None;
        },
        Some(x) => x,
    };
    if !(i < k0 && k0 <= s.len()) {
        return None;
    }
    let ghost whole = conj_rest(s@, k0 as int, seq![f0@]);
    let mut filters: Vec<Filter> = Vec::new();
    proof {
        lemma_filter_views_push(filters@, f0);
        assert(filter_views(Seq::<Filter>::empty(), 0) =~= Seq::<SpecFilter>::empty());
    }
    filters.push(f0);
    assert(filter_views(filters@, 0) =~= seq![filter_view(f0)]);
    let mut k = k0;
    loop
        invariant
            i < k <= s@.len(),
            conj_at(s@, i as int) == Some((SpecFilter::Conjunction(whole.0), whole.1)),
            whole == conj_rest(s@, k as int, filter_views(filters@, 0)),
        decreases s@.len() - k,
    {
        match read_and_disjunction(s, k) {
            None => {
                return Some((Filter::Conjunction(Conjunction { filters }), k));
            },
            Some((f, k2)) => {
                proof {
                    lemma_filter_views_push(filters@, f);
                }
                filters.push(f);
                k = k2;
            },
        }
    }
}

/// The message for a failure of kind `kind` at position `k` of `s`.
fn failure_message(s: &[char], k: usize, kind: ErrorKind) -> (r: String)
    requires
        k <= s@.len(),
    ensures
        r@ == error_message(s@.subrange(k as int, s@.len() as int), kind),
{
    let rest = string_of_chars(&s[k..s.len()]);
    let quoted = quote_debug(rest.as_str());
    let mut m = <String as StringExecFns>::from_str(
        "Failed to parse filter expression: Error(Error { input: ",
    );
    m.append(quoted.as_str());
    m.append(", code: ");
    match kind {
        ErrorKind::Tag => m.append("Tag"),
        ErrorKind::IsNot => m.append("IsNot"),
    }
    m.append(" })");
    m
}


/// The characters of `cs` from `i` on, as a string.
fn rest_from(cs: &[char], i: usize) -> (r: String)
    requires
        i <= cs@.len(),
    ensures
        r@ == cs@.subrange(i as int, cs@.len() as int),
{
    string_of_chars(&cs[i..cs.len()])
}

/// Reads a property keyword at the start of `i`; gives what follows it and the property.
pub fn property(i: &str) -> (r: Option<(String, Property)>)
    ensures
        match property_at(i@, 0) {
            Some(p) => r matches Some(x) && x.1 == p && x.0@ == i@.subrange(
                property_name(p).len() as int,
                i@.len() as int,
            ),
            None => r is None,
        },
{
    let cs = chars_of(i);
    match read_property(cs.as_slice(), 0) {
        Some(p) => {
            let n = property_keyword(p).len();
            Some((rest_from(cs.as_slice(), n), p))
        },
        None => None,
    }
}

/// Reads a relation symbol at the start of `i`; gives what follows it and the relation.
pub fn relation(i: &str) -> (r: Option<(String, Relation)>)
    ensures
        match relation_at(i@, 0) {
            Some(x) => r matches Some(y) && y.1 == x && y.0@ == i@.subrange(
                relation_symbol(x).len() as int,
                i@.len() as int,
            ),
            None => r is None,
        },
{
    let cs = chars_of(i);
    match read_relation(cs.as_slice(), 0) {
        Some(x) => {
            let n = relation_keyword(x).len();
            Some((rest_from(cs.as_slice(), n), x))
        },
        None => None,
    }
}

/// Reads a comparison at the start of `i` (see [`term_at`]); gives what follows it and
/// the comparison, or what was left where reading failed and why.
pub fn property_filter(i: &str) -> (r: Result<(String, PropertyFilter), (String, ErrorKind)>)
    ensures
        match term_at(i@, 0) {
            Ok((f, e)) => r matches Ok(x) && SpecFilter::Property(x.1.property, x.1.relation, x.1.value@)
                == f && x.0@ == i@.subrange(e, i@.len() as int),
            Err((k, kind)) => r matches Err(x) && x.0@ == i@.subrange(k, i@.len() as int) && x.1
                == kind,
        },
{
    let cs = chars_of(i);
    match read_term(cs.as_slice(), 0) {
        Ok((Filter::Property(pf), e)) => Ok((rest_from(cs.as_slice(), e), pf)),
        Ok((_, _)) => {
            proof {
                lemma_term_is_property(i@);
            }
            Err((rest_from(cs.as_slice(), 0), ErrorKind::Tag))
        },
        Err((k, kind)) => Err((rest_from(cs.as_slice(), k), kind)),
    }
}

proof fn lemma_term_is_property(s: Seq<char>)
    ensures
        term_at(s, 0) matches Ok((f, _)) ==> f is Property,
{
}

/// Reads the keyword `w` at the start of `i`, with any spaces before it and at least one
/// after it; gives what follows and the keyword.
fn keyword(i: &str, w: &str) -> (r: Option<(String, String)>)
    ensures
        match keyword_at(i@, 0, w@) {
            Some(e) => r matches Some(x) && x.0@ == i@.subrange(e, i@.len() as int) && x.1@ == w@,
            None => r is None,
        },
{
    let cs = chars_of(i);
    let ws = chars_of(w);
    match read_keyword(cs.as_slice(), 0, ws.as_slice()) {
        Some(e) => Some((rest_from(cs.as_slice(), e), <String as StringExecFns>::from_str(w))),
        None => None,
    }
}

/// Reads `and` at the start of `i` (see [`keyword_at`]).
pub fn and(i: &str) -> (r: Option<(String, String)>)
    ensures
        match keyword_at(i@, 0, and_word()) {
            Some(e) => r matches Some(x) && x.0@ == i@.subrange(e, i@.len() as int) && x.1@
                == and_word(),
            None => r is None,
        },
{
    proof {
        reveal_strlit("and");
        assert("and"@ =~= and_word());
    }
    keyword(i, "and")
}

/// Reads `or` at the start of `i` (see [`keyword_at`]).
pub fn or(i: &str) -> (r: Option<(String, String)>)
    ensures
        match keyword_at(i@, 0, or_word()) {
            Some(e) => r matches Some(x) && x.0@ == i@.subrange(e, i@.len() as int) && x.1@
                == or_word(),
            None => r is None,
        },
{
    proof {
        reveal_strlit("or");
        assert("or"@ =~= or_word());
    }
    keyword(i, "or")
}

/// Parses the filter expression `filter_def` (see [`parse_spec`]); text after the
/// expression is ignored.
pub fn parse_expression(filter_def: &str) -> (r: Result<Filter, String>)
    ensures
        match parse_spec(filter_def@) {
            Ok(f) => r matches Ok(g) && g@ == f,
            Err((k, kind)) => r matches Err(m) && m@ == error_message(
                filter_def@.subrange(k, filter_def@.len() as int),
                kind,
            ),
        },
{
    let s = chars_of(filter_def);
    match read_conjunction(s.as_slice(), 0) {
        Some((f, _)) => Ok(f),
        None => match read_term(s.as_slice(), 0) {
            Err((k, kind)) => Err(failure_message(s.as_slice(), k, kind)),
            Ok(_) => Err(failure_message(s.as_slice(), 0, ErrorKind::Tag)),
        },
    }
}

} // verus!

verus! {

/// A clause `not C` is read as the negation of the clause `C` after `not`, and ends
/// where `C` ends: it holds of a TODO exactly when `C` does not. Where no clause follows
/// `not`, nothing is read there.
pub proof fn law_not_negates_the_clause(s: Seq<char>, i: int, k: int)
    requires
        0 <= i <= s.len(),
        keyword_at(s, i, not_word()) == Some(k),
    ensures
        match clause_at(s, k) {
            Some((f, e)) => clause_at(s, i) matches Some((g, e2)) && e2 == e && forall|t: crate::todo::Todo|
                super::holds(g, t) == !super::holds(f, t),
            None => clause_at(s, i) is None,
        },
{
    let j = skip_spaces(s, i);
    lemma_skip_spaces(s, i);
    assert(s.subrange(j, j + 3)[0] == s[j]);
    assert(s[j] == 'n');
    lemma_skip_spaces(s, j + 3);
    assert(i < k <= s.len());
    // The clause does not open with a parenthesis, and `not` is no property name.
    if 0 <= i < s.len() {
        assert(s[i] == 'n' || is_space(s[i])) by {
            if i < j {
                assert(is_space(s[i]));
            }
        }
    }
    assert forall|p: Property| !has_at(s, i, #[trigger] property_name(p)) by {
        if has_at(s, i, property_name(p)) {
            assert(s.subrange(i, i + property_name(p).len())[0] == s[i]);
            assert(property_name(p)[0] != 'n');
        }
    }
    assert(property_at(s, i) is None);
    match clause_at(s, k) {
        Some((f, e)) => {
            assert forall|t: crate::todo::Todo| super::holds(SpecFilter::Negation(Box::new(f)), t)
                == !super::holds(f, t) by {}
        },
        None => {},
    }
}

} // verus!
