//! Values given on the command line.
use vstd::prelude::*;
use vstd::string::StringExecFns;
use crate::summary::SortOrder;
use crate::display::{decimal, push_decimal};
use crate::text::{chars_of, str_eq, string_of_chars};

verus! {

/// `s` in lower case, as `str::to_lowercase` maps it (by Unicode's rules, a character
/// possibly to several).
pub uninterp spec fn lowercase(s: Seq<char>) -> Seq<char>;

/// Lower-cases `s` with `str::to_lowercase`.
#[verifier::external_body]
fn to_lowercase(s: &str) -> (r: String)
    ensures
        r@ == lowercase(s@),
{
    s.to_lowercase()
}

/// How a listing is printed.
#[derive(Clone, Copy, Debug, PartialEq, Eq, Structural)]
pub enum OutputFormat {
    Table,
    Json,
}

impl OutputFormat {
    /// Reads a format name, in any case: `table` or `json`.
    pub fn parse(s: &str) -> (r: Result<OutputFormat, String>)
        ensures
            lowercase(s@) == "table"@ ==> r == Ok::<OutputFormat, String>(OutputFormat::Table),
            lowercase(s@) == "json"@ ==> r == Ok::<OutputFormat, String>(OutputFormat::Json),
            lowercase(s@) != "table"@ && lowercase(s@) != "json"@ ==> (r matches Err(m)
                && m@ == "unknown format '"@ + lowercase(s@) + "', expected 'table' or 'json'"@),
    {
        proof {
            reveal_strlit("table");
            reveal_strlit("json");
            assert("table"@.len() != "json"@.len());
        }
        let l = to_lowercase(s);
        if str_eq(l.as_str(), "table") {
            Ok(OutputFormat::Table)
        } else if str_eq(l.as_str(), "json") {
            Ok(OutputFormat::Json)
        } else {
            let mut m = <String as StringExecFns>::from_str("unknown format '");
            m.append(l.as_str());
            m.append("', expected 'table' or 'json'");
            Err(m)
        }
    }
}

impl std::str::FromStr for OutputFormat {
    type Err = String;

    fn from_str(s: &str) -> (r: Result<OutputFormat, String>)
        ensures
            lowercase(s@) == "table"@ ==> r == Ok::<OutputFormat, String>(OutputFormat::Table),
            lowercase(s@) == "json"@ ==> r == Ok::<OutputFormat, String>(OutputFormat::Json),
            lowercase(s@) != "table"@ && lowercase(s@) != "json"@ ==> (r matches Err(m)
                && m@ == "unknown format '"@ + lowercase(s@) + "', expected 'table' or 'json'"@),
    {
        OutputFormat::parse(s)
    }
}

impl std::str::FromStr for SortOrder {
    type Err = String;

    fn from_str(s: &str) -> (r: Result<SortOrder, String>)
        ensures
            lowercase(s@) == "name"@ ==> r == Ok::<SortOrder, String>(SortOrder::Name),
            lowercase(s@) == "count"@ ==> r == Ok::<SortOrder, String>(SortOrder::Count),
            lowercase(s@) != "name"@ && lowercase(s@) != "count"@ ==> (r matches Err(m)
                && m@ == "unknown sort '"@ + lowercase(s@) + "', expected 'name' or 'count'"@),
    {
        SortOrder::parse(s)
    }
}

impl SortOrder {
    /// Reads a sort order name, in any case: `name` or `count`.
    pub fn parse(s: &str) -> (r: Result<SortOrder, String>)
        ensures
            lowercase(s@) == "name"@ ==> r == Ok::<SortOrder, String>(SortOrder::Name),
            lowercase(s@) == "count"@ ==> r == Ok::<SortOrder, String>(SortOrder::Count),
            lowercase(s@) != "name"@ && lowercase(s@) != "count"@ ==> (r matches Err(m)
                && m@ == "unknown sort '"@ + lowercase(s@) + "', expected 'name' or 'count'"@),
    {
        proof {
            reveal_strlit("name");
            reveal_strlit("count");
            assert("name"@.len() != "count"@.len());
        }
        let l = to_lowercase(s);
        if str_eq(l.as_str(), "name") {
            Ok(SortOrder::Name)
        } else if str_eq(l.as_str(), "count") {
            Ok(SortOrder::Count)
        } else {
            let mut m = <String as StringExecFns>::from_str("unknown sort '");
            m.append(l.as_str());
            m.append("', expected 'name' or 'count'");
            Err(m)
        }
    }
}

/// The value of a decimal digit.
pub open spec fn digit_value(c: char, radix: nat) -> Option<nat> {
    let v: int = if '0' <= c <= '9' {
        c as int - '0' as int
    } else if 'a' <= c <= 'z' {
        c as int - 'a' as int + 10
    } else if 'A' <= c <= 'Z' {
        c as int - 'A' as int + 10
    } else {
        radix as int
    };
    if 0 <= v < radix {
        Some(v as nat)
    } else {
        None
    }
}

/// The number that the digits `ds` write in base `radix`, if they are all digits.
pub open spec fn digits_value(ds: Seq<char>, radix: nat) -> Option<nat>
    decreases ds.len(),
{
    if ds.len() == 0 {
        Some(0)
    } else {
        match (digits_value(ds.drop_last(), radix), digit_value(ds.last(), radix)) {
            (Some(h), Some(d)) => Some(h * radix + d),
            _ => None,
        }
    }
}

/// The unsigned number that `s` writes in base `radix` as Rust's `from_str_radix`
/// reads it: an optional `+`, then at least one digit. `None` where `s` is no such
/// number or the number is not below `bound`.
pub open spec fn unsigned_value(s: Seq<char>, radix: nat, bound: nat) -> Option<nat> {
    let ds = if s.len() > 0 && s[0] == '+' {
        s.drop_first()
    } else {
        s
    };
    if ds.len() == 0 {
        None
    } else {
        match digits_value(ds, radix) {
            Some(v) => if v < bound {
                Some(v)
            } else {
                None
            },
            None => None,
        }
    }
}

/// Reads `s` with `from_str_radix`'s rules (see [`unsigned_value`]), saturating beyond
/// `bound`.
pub(crate) fn read_unsigned(s: &[char], radix: u64, bound: u128) -> (r: Option<u128>)
    requires
        2 <= radix <= 36,
        0 < bound <= 0x1_0000_0000_0000_0000,
    ensures
        match unsigned_value(s@, radix as nat, bound as nat) {
            Some(v) => r == Some(v as u128),
            None => r is None,
        },
{
    let start: usize = if s.len() > 0 && s[0] == '+' {
        1
    } else {
        0
    };
    let ghost ds = if s@.len() > 0 && s@[0] == '+' {
        s@.drop_first()
    } else {
        s@
    };
    assert(ds =~= s@.subrange(start as int, s@.len() as int));
    if start == s.len() {
        return None;
    }
    let mut v: u128 = 0;
    let mut big = false;
    let mut i = start;
    assert(s@.subrange(start as int, start as int) =~= Seq::<char>::empty());
    while i < s.len()
        invariant
            start <= i <= s@.len(),
            2 <= radix <= 36,
            0 < bound <= 0x1_0000_0000_0000_0000,
            ds == s@.subrange(start as int, s@.len() as int),
            ds.len() > 0,
            unsigned_value(s@, radix as nat, bound as nat) == match digits_value(ds, radix as nat) {
                Some(v) => if v < bound {
                    Some(v)
                } else {
                    None
                },
                None => None,
            },
            digits_value(s@.subrange(start as int, i as int), radix as nat) matches Some(x) ==> (
            big <==> x >= bound) && (!big ==> v == x),
            digits_value(s@.subrange(start as int, i as int), radix as nat) is Some,
        decreases s@.len() - i,
    {
        let c = s[i];
        let d: u64 = if '0' <= c && c <= '9' {
            (c as u64) - ('0' as u64)
        } else if 'a' <= c && c <= 'z' {
            (c as u64) - ('a' as u64) + 10
        } else if 'A' <= c && c <= 'Z' {
            (c as u64) - ('A' as u64) + 10
        } else {
            radix
        };
        assert(s@.subrange(start as int, i + 1).drop_last() =~= s@.subrange(start as int, i as int));
        if d >= radix {
            assert(digit_value(c, radix as nat) is None);
            proof {
                lemma_digits_none(s@, start as int, i as int + 1, radix as nat);
            }
            return None;
        }
        let ghost x = digits_value(s@.subrange(start as int, i as int), radix as nat).unwrap();
        if !big {
            assert(v * radix + d < 0x1_0000_0000_0000_0000 * 36 + 36) by (nonlinear_arith)
                requires
                    v < 0x1_0000_0000_0000_0000,
                    radix <= 36,
                    d < radix,
            ;
            let nv: u128 = v * (radix as u128) + (d as u128);
            if nv >= bound {
                big = true;
            } else {
                v = nv;
            }
        } else {
            assert(x * radix + d >= bound) by (nonlinear_arith)
                requires
                    x >= bound,
                    radix >= 2,
                    d >= 0,
            ;
        }
        i = i + 1;
    }
    assert(s@.subrange(start as int, s@.len() as int) == ds);
    if big {
        None
    } else {
        Some(v)
    }
}

proof fn lemma_digits_none(s: Seq<char>, start: int, end: int, radix: nat)
    requires
        0 <= start < end <= s.len(),
        digit_value(s[end - 1], radix) is None,
    ensures
        forall|e: int| end <= e <= s.len() ==> #[trigger] digits_value(s.subrange(start, e), radix) is None,
{
    assert forall|e: int| end <= e <= s.len() implies #[trigger] digits_value(s.subrange(start, e), radix) is None by {
        lemma_digits_none_at(s, start, end, e, radix);
    }
}

proof fn lemma_digits_none_at(s: Seq<char>, start: int, end: int, e: int, radix: nat)
    requires
        0 <= start < end <= e <= s.len(),
        digit_value(s[end - 1], radix) is None,
    ensures
        digits_value(s.subrange(start, e), radix) is None,
    decreases e - end,
{
    assert(s.subrange(start, e).drop_last() =~= s.subrange(start, e - 1));
    if e > end {
        lemma_digits_none_at(s, start, end, e - 1, radix);
    } else {
        assert(s.subrange(start, e).last() == s[end - 1]);
    }
}

/// The identifier of a TODO on the command line: a number, or a hexadecimal hash.
#[derive(Debug, PartialEq)]
pub enum TodoID {
    Legacy(u32),
    Hash(String),
}

impl TodoID {
    /// Reads an identifier: a decimal `u32`, or else a hexadecimal `u64` (kept as
    /// written).
    pub fn parse(s: &str) -> (r: Result<TodoID, String>)
        ensures
            unsigned_value(s@, 10, 0x1_0000_0000) matches Some(v) ==> r == Ok::<TodoID, String>(TodoID::Legacy(v as u32)),
            unsigned_value(s@, 10, 0x1_0000_0000) is None && unsigned_value(s@, 16, 0x1_0000_0000_0000_0000) is Some
                ==> (r matches Ok(TodoID::Hash(h)) && h@ == s@),
            unsigned_value(s@, 10, 0x1_0000_0000) is None && unsigned_value(s@, 16, 0x1_0000_0000_0000_0000) is None
                ==> (r matches Err(m) && m@ == "invalid ID '"@ + s@
                + "', expected a number or hexadecimal hash"@),
    {
        let cs = chars_of(s);
        match read_unsigned(cs.as_slice(), 10, 0x1_0000_0000) {
            Some(v) => {
                return Ok(TodoID::Legacy(v as u32));
            },
            None => {},
        }
        if read_unsigned(cs.as_slice(), 16, 0x1_0000_0000_0000_0000).is_some() {
            Ok(TodoID::Hash(string_of_chars(cs.as_slice())))
        } else {
            let mut m = <String as StringExecFns>::from_str("invalid ID '");
            m.append(s);
            m.append("', expected a number or hexadecimal hash");
            Err(m)
        }
    }

    /// The identifier as it is shown: `#` and the number, or the hash.
    pub fn to_string(&self) -> (r: String)
        ensures
            match self {
                TodoID::Legacy(n) => r@ == seq!['#'] + decimal(*n as nat),
                TodoID::Hash(h) => r@ == h@,
            },
    {
        match self {
            TodoID::Legacy(n) => {
                let mut out: Vec<char> = Vec::new();
                out.push('#');
                push_decimal(&mut out, *n as u64);
                string_of_chars(out.as_slice())
            },
            TodoID::Hash(h) => h.clone(),
        }
    }
}

impl std::str::FromStr for TodoID {
    type Err = String;

    fn from_str(s: &str) -> (r: Result<TodoID, String>)
        ensures
            unsigned_value(s@, 10, 0x1_0000_0000) matches Some(v) ==> r == Ok::<TodoID, String>(TodoID::Legacy(v as u32)),
            unsigned_value(s@, 10, 0x1_0000_0000) is None && unsigned_value(s@, 16, 0x1_0000_0000_0000_0000) is Some
                ==> (r matches Ok(TodoID::Hash(h)) && h@ == s@),
            unsigned_value(s@, 10, 0x1_0000_0000) is None && unsigned_value(s@, 16, 0x1_0000_0000_0000_0000) is None
                ==> (r matches Err(m) && m@ == "invalid ID '"@ + s@
                + "', expected a number or hexadecimal hash"@),
    {
        TodoID::parse(s)
    }
}

} // verus!

verus! {

/// A number written in decimal reads back as that number: the digits that identify a
/// TODO (shown after `#`) parse to the same identifier.
pub proof fn law_decimal_reads_back(n: nat)
    ensures
        digits_value(decimal(n), 10) == Some(n),
        n < 0x1_0000_0000 ==> unsigned_value(decimal(n), 10, 0x1_0000_0000) == Some(n),
    decreases n,
{
    let ds = decimal(n);
    let d = n % 10;
    let c = ('0' as int + d) as char;
    assert(c as int == '0' as int + d);
    assert(digit_value(c, 10) == Some(d));
    if n >= 10 {
        law_decimal_reads_back(n / 10);
        assert(ds.drop_last() == decimal(n / 10));
        assert(ds.last() == c);
        assert((n / 10) * 10 + d == n);
        assert(ds.len() > 0);
        assert(digits_value(ds, 10) == Some(((n / 10) * 10 + d) as nat));
    } else {
        assert(ds.drop_last() =~= Seq::<char>::empty());
        assert(digits_value(ds.drop_last(), 10) == Some(0nat));
        assert(ds.last() == c);
        assert(ds.len() > 0);
        assert(d == n);
    }
    assert(digits_value(ds, 10) == Some(n));
    lemma_decimal_first(n);
}

pub(crate) proof fn lemma_decimal_first(n: nat)
    ensures
        '0' <= decimal(n)[0] <= '9',
    decreases n,
{
    if n >= 10 {
        lemma_decimal_first(n / 10);
        assert(decimal(n)[0] == decimal(n / 10)[0]);
    }
}

} // verus!

verus! {

/// A command-line flag that can override a value of the configuration file.
pub enum Override<T> {
    /// Not passed: the configuration's value stands.
    NotSet,
    /// Passed empty: the configuration's value is dropped.
    Unset,
    /// Passed with a value, which replaces the configuration's.
    Value(T),
}

impl<T> Override<T> {
    /// The configuration's value `current` once the flag is applied.
    pub fn apply(self, current: Option<T>) -> (r: Option<T>)
        ensures
            r == match self {
                Override::NotSet => current,
                Override::Unset => None,
                Override::Value(v) => Some(v),
            },
    {
        match self {
            Override::NotSet => current,
            Override::Unset => None,
            Override::Value(v) => Some(v),
        }
    }
}

impl<T> Default for Override<T> {
    fn default() -> (r: Self)
        ensures
            r is NotSet,
    {
        Override::NotSet
    }
}

/// The options of `tdz tag list`.
pub struct TagListOptions {
    /// At most this many tags.
    pub limit: Option<usize>,
    pub format: OutputFormat,
    pub sort: SortOrder,
}

impl Default for TagListOptions {
    fn default() -> (r: Self)
        ensures
            r.limit is None,
            r.format == OutputFormat::Table,
            r.sort == SortOrder::Name,
    {
        TagListOptions { limit: None, format: OutputFormat::Table, sort: SortOrder::Name }
    }
}

/// The options of `tdz summary`.
pub struct SummaryOptions {
    pub format: OutputFormat,
}

impl Default for SummaryOptions {
    fn default() -> (r: Self)
        ensures
            r.format == OutputFormat::Table,
    {
        SummaryOptions { format: OutputFormat::Table }
    }
}

/// The options of `tdz lint`.
pub struct LintOptions {
    /// Renumber duplicates rather than only report them.
    pub fix: bool,
}

impl Default for LintOptions {
    fn default() -> (r: Self)
        ensures
            !r.fix,
    {
        LintOptions { fix: false }
    }
}

/// The paths to leave out of the search.
pub struct Args {
    pub exclude: Vec<String>,
}

/// The pieces of `s` between commas, as `str::split(',')` gives them: one more piece than
/// there are commas, empty pieces included.
pub open spec fn comma_pieces(s: Seq<char>) -> Seq<Seq<char>>
    decreases s.len(),
{
    if s.len() == 0 {
        seq![Seq::empty()]
    } else {
        let prev = comma_pieces(s.drop_last());
        if s.last() == ',' {
            prev.push(Seq::empty())
        } else {
            prev.update(prev.len() - 1, prev.last().push(s.last()))
        }
    }
}

proof fn lemma_comma_pieces_len(s: Seq<char>)
    ensures
        comma_pieces(s).len() >= 1,
    decreases s.len(),
{
    if s.len() > 0 {
        lemma_comma_pieces_len(s.drop_last());
    }
}

/// Pieces joined with a comma between each two.
pub open spec fn joined_with_commas(ps: Seq<Seq<char>>) -> Seq<char>
    decreases ps.len(),
{
    if ps.len() <= 1 {
        if ps.len() == 1 {
            ps[0]
        } else {
            Seq::empty()
        }
    } else {
        joined_with_commas(ps.drop_last()) + seq![','] + ps.last()
    }
}

/// Splitting at commas loses nothing: the pieces joined with commas give the text back,
/// and no piece holds a comma.
pub proof fn law_comma_pieces_rejoin(s: Seq<char>)
    ensures
        joined_with_commas(comma_pieces(s)) == s,
        forall|i: int| 0 <= i < comma_pieces(s).len() ==> !(#[trigger] comma_pieces(s)[i]).contains(','),
    decreases s.len(),
{
    if s.len() > 0 {
        let rest = s.drop_last();
        law_comma_pieces_rejoin(rest);
        lemma_comma_pieces_len(rest);
        let prev = comma_pieces(rest);
        if s.last() == ',' {
            assert(comma_pieces(s).drop_last() =~= prev);
            assert(joined_with_commas(comma_pieces(s)) =~= s);
            assert forall|i: int| 0 <= i < comma_pieces(s).len() implies !(#[trigger] comma_pieces(
                s,
            )[i]).contains(',') by {
                if i < prev.len() {
                    assert(comma_pieces(s)[i] == prev[i]);
                } else {
                    assert(comma_pieces(s)[i] =~= Seq::<char>::empty());
                }
            }
        } else {
            let q = comma_pieces(s);
            assert(q.last() == prev.last().push(s.last()));
            assert(rest.push(s.last()) =~= s);
            if prev.len() == 1 {
                assert(joined_with_commas(prev) == prev[0]);
                assert(q[0] == prev[0].push(s.last()));
                assert(joined_with_commas(q) == q[0]);
                assert(joined_with_commas(q) =~= rest.push(s.last()));
            } else {
                assert(q.drop_last() =~= prev.drop_last());
                assert(joined_with_commas(prev) == joined_with_commas(prev.drop_last()) + seq![',']
                    + prev.last());
                assert(joined_with_commas(q) == joined_with_commas(q.drop_last()) + seq![',']
                    + q.last());
                assert(joined_with_commas(q) =~= joined_with_commas(prev).push(s.last()));
            }
            assert(joined_with_commas(q) =~= s);
            assert forall|i: int| 0 <= i < q.len() implies !(#[trigger] q[i]).contains(',') by {
                if i < prev.len() - 1 {
                    assert(q[i] == prev[i]);
                } else {
                    assert(q[i] == prev.last().push(s.last()));
                    assert(!prev[prev.len() - 1].contains(','));
                    if q[i].contains(',') {
                        let k = choose|k: int| 0 <= k < q[i].len() && q[i][k] == ',';
                        if k < prev.last().len() {
                            assert(prev.last()[k] == ',');
                        }
                    }
                }
            }
        }
    } else {
        assert(comma_pieces(s) =~= seq![Seq::<char>::empty()]);
    }
}

/// Splits a comma-separated list of paths (see [`comma_pieces`]).
pub fn split_commas(s: &str) -> (r: Vec<String>)
    ensures
        r@.len() == comma_pieces(s@).len(),
        forall|i: int| 0 <= i < r@.len() ==> (#[trigger] r@[i])@ == comma_pieces(s@)[i],
{
    let cs = chars_of(s);
    let mut out: Vec<String> = Vec::new();
    let mut cur: Vec<char> = Vec::new();
    let mut i: usize = 0;
    assert(cs@.take(0) =~= Seq::<char>::empty());
    while i < cs.len()
        invariant
            i <= cs@.len(),
            cs@ == s@,
            out@.len() + 1 == comma_pieces(cs@.take(i as int)).len(),
            forall|k: int| 0 <= k < out@.len() ==> (#[trigger] out@[k])@ == comma_pieces(cs@.take(i as int))[k],
            cur@ == comma_pieces(cs@.take(i as int)).last(),
        decreases cs@.len() - i,
    {
        let ghost before = comma_pieces(cs@.take(i as int));
        assert(cs@.take(i + 1).drop_last() =~= cs@.take(i as int));
        assert(cs@.take(i + 1).last() == cs@[i as int]);
        proof {
            lemma_comma_pieces_len(cs@.take(i as int));
        }
        if cs[i] == ',' {
            let piece = string_of_chars(cur.as_slice());
            out.push(piece);
            cur = Vec::new();
            assert(cur@ =~= Seq::<char>::empty());
        } else {
            cur.push(cs[i]);
        }
        i = i + 1;
    }
    assert(cs@.take(i as int) =~= s@);
    out.push(string_of_chars(cur.as_slice()));
    out
}

} // verus!
