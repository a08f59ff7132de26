//! The syntax of a TODO's text: `[#ID] [(PRIORITY)] [DATES] TITLE [@context] [+project]
//! [key:value]` on its first line, and a free description on the lines after it.
use vstd::prelude::*;
use crate::cli::{law_decimal_reads_back, read_unsigned, unsigned_value};
use crate::display::{decimal, push_decimal};
use crate::filter::{date_of, parse_date};
use crate::text::{chars_of, string_of_chars};
use crate::fs::clone_strings;
use crate::todo::{Date, Todo, TodoFields, TodoIdentifier, date_valid, opt_view, pair_views, string_views};

verus! {

/// The words of `s`: the runs of characters between spaces.
pub open spec fn words(s: Seq<char>) -> Seq<Seq<char>>
    decreases s.len(),
{
    if s.len() == 0 {
        Seq::empty()
    } else {
        let prev = words(s.drop_last());
        if s.last() == ' ' {
            prev
        } else if s.len() >= 2 && s[s.len() - 2] != ' ' && prev.len() > 0 {
            prev.update(prev.len() - 1, prev.last().push(s.last()))
        } else {
            prev.push(seq![s.last()])
        }
    }
}

/// Character vectors as character sequences.
pub open spec fn char_views(v: Seq<Vec<char>>) -> Seq<Seq<char>> {
    v.map_values(|x: Vec<char>| x@)
}

/// The word being read, if any, as a sequence of at most one word.
pub open spec fn open_word(cur: Seq<char>) -> Seq<Seq<char>> {
    if cur.len() > 0 {
        seq![cur]
    } else {
        Seq::empty()
    }
}

/// Splits `cs` into its words (see [`words`]).
pub fn split_words(cs: &[char]) -> (r: Vec<Vec<char>>)
    ensures
        char_views(r@) == words(cs@),
{
    let mut out: Vec<Vec<char>> = Vec::new();
    let mut cur: Vec<char> = Vec::new();
    let mut i: usize = 0;
    assert(cs@.take(0) =~= Seq::<char>::empty());
    assert(char_views(out@) + open_word(cur@) =~= words(cs@.take(0)));
    while i < cs.len()
        invariant
            i <= cs@.len(),
            words(cs@.take(i as int)) == char_views(out@) + open_word(cur@),
            cur@.len() > 0 <==> (i > 0 && cs@[i - 1] != ' '),
        decreases cs@.len() - i,
    {
        let ghost before = cs@.take(i as int);
        let ghost after = cs@.take(i + 1);
        assert(after.drop_last() =~= before);
        assert(after.last() == cs@[i as int]);
        if cs[i] == ' ' {
            if cur.len() > 0 {
                let w = cur;
                out.push(w);
                cur = Vec::new();
                assert(char_views(out@) =~= char_views(out@.drop_last()).push(w@));
            }
            assert(char_views(out@) + open_word(cur@) =~= words(after));
        } else {
            let ghost old_out = char_views(out@);
            if cur.len() > 0 {
                assert(after.len() >= 2 && after[after.len() - 2] == cs@[i - 1]);
                let ghost prev = words(before);
                assert(prev =~= old_out.push(cur@));
                cur.push(cs[i]);
                assert(prev.update(prev.len() - 1, prev.last().push(cs@[i as int])) =~= old_out
                    + open_word(cur@));
            } else {
                cur.push(cs[i]);
                assert(cur@ =~= seq![cs@[i as int]]);
                assert(words(before).push(seq![cs@[i as int]]) =~= old_out + open_word(cur@));
            }
        }
        i = i + 1;
    }
    assert(cs@.take(cs@.len() as int) =~= cs@);
    if cur.len() > 0 {
        let w = cur;
        out.push(w);
        assert(char_views(out@) =~= char_views(out@.drop_last()).push(w@));
        assert(char_views(out@) =~= char_views(out@.drop_last()) + open_word(w@));
    } else {
        assert(char_views(out@) + open_word(cur@) =~= char_views(out@));
    }
    out
}


/// The identifier that a word writes: `#` and a number for the TODO's own tracking
/// number, `&` and a number for a reference to another TODO.
pub open spec fn id_of(w: Seq<char>) -> Option<TodoIdentifier> {
    if w.len() >= 2 && (w[0] == '#' || w[0] == '&') && w[1] != '+' {
        match unsigned_value(w.drop_first(), 10, 0x1_0000_0000) {
            Some(n) => if w[0] == '#' {
                Some(TodoIdentifier::Primary(n as u32))
            } else {
                Some(TodoIdentifier::Reference(n as u32))
            },
            None => None,
        }
    } else {
        None
    }
}

/// Returns the identifier that `w` writes (see [`id_of`]).
pub fn word_id(w: &[char]) -> (r: Option<TodoIdentifier>)
    ensures
        r == id_of(w@),
{
    if w.len() >= 2 && (w[0] == '#' || w[0] == '&') && w[1] != '+' {
        let digits = vstd::slice::slice_subrange(w, 1, w.len());
        assert(digits@ =~= w@.drop_first());
        match read_unsigned(digits, 10, 0x1_0000_0000) {
            Some(n) => {
                let n = n as u32;
                if w[0] == '#' {
                    Some(TodoIdentifier::Primary(n))
                } else {
                    Some(TodoIdentifier::Reference(n))
                }
            },
            None => None,
        }
    } else {
        None
    }
}

/// The priority that a word writes: a capital letter in brackets, `(A)` the highest.
pub open spec fn priority_of(w: Seq<char>) -> Option<char> {
    if w.len() == 3 && w[0] == '(' && w[2] == ')' && 'A' <= w[1] <= 'Z' {
        Some(w[1])
    } else {
        None
    }
}

/// Returns the priority that `w` writes (see [`priority_of`]).
pub fn word_priority(w: &[char]) -> (r: Option<char>)
    ensures
        r == priority_of(w@),
{
    if w.len() == 3 && w[0] == '(' && w[2] == ')' && 'A' <= w[1] && w[1] <= 'Z' {
        Some(w[1])
    } else {
        None
    }
}

/// A word in the shape `YYYY-MM-DD`: ten characters, digits but for the dashes at
/// positions four and seven.
pub open spec fn date_shaped(w: Seq<char>) -> bool {
    &&& w.len() == 10
    &&& forall|k: int|
        0 <= k < 10 ==> if k == 4 || k == 7 {
            #[trigger] w[k] == '-'
        } else {
            '0' <= w[k] <= '9'
        }
}

/// The date that a word writes: a word in the shape `YYYY-MM-DD` that is a date of the
/// calendar.
pub open spec fn date_word(w: Seq<char>) -> Option<Date> {
    if date_shaped(w) {
        date_of(w)
    } else {
        None
    }
}

/// Returns the date that `w` writes (see [`date_word`]).
pub fn word_date(w: &[char]) -> (r: Option<Date>)
    ensures
        r == date_word(w@),
        r matches Some(d) ==> date_valid(d),
{
    if w.len() != 10 {
        return None;
    }
    let mut k: usize = 0;
    while k < 10
        invariant
            k <= 10,
            w@.len() == 10,
            forall|j: int|
                0 <= j < k ==> if j == 4 || j == 7 {
                    #[trigger] w@[j] == '-'
                } else {
                    '0' <= w@[j] <= '9'
                },
        decreases 10 - k,
    {
        let ok = if k == 4 || k == 7 {
            w[k] == '-'
        } else {
            '0' <= w[k] && w[k] <= '9'
        };
        if !ok {
            assert(!date_shaped(w@)) by {
                assert(w@[k as int] == w[k as int]);
            }
            return None;
        }
        k = k + 1;
    }
    let s = string_of_chars(w);
    parse_date(s.as_str())
}

/// What a word of a TODO's title line is besides a word of the title.
pub enum WordKind {
    /// `+name`: a project.
    Project(Seq<char>),
    /// `@name`: a context.
    Context(Seq<char>),
    /// `key:value`, split at the first colon.
    Meta(Seq<char>, Seq<char>),
    /// A word of the title.
    Plain,
}

/// `k` is the position of the first colon in `w`.
pub open spec fn first_colon(w: Seq<char>, k: int) -> bool {
    0 <= k < w.len() && w[k] == ':' && forall|j: int| 0 <= j < k ==> w[j] != ':'
}

/// The kind of a word: `+` or `@` and a name, or a key and a value around the first
/// colon, both not empty; any other word belongs to the title.
pub open spec fn word_kind(w: Seq<char>) -> WordKind {
    if w.len() > 1 && w[0] == '+' {
        WordKind::Project(w.drop_first())
    } else if w.len() > 1 && w[0] == '@' {
        WordKind::Context(w.drop_first())
    } else if exists|k: int| first_colon(w, k) && 0 < k < w.len() - 1 {
        let k = choose|k: int| first_colon(w, k) && 0 < k < w.len() - 1;
        WordKind::Meta(w.take(k), w.skip(k + 1))
    } else {
        WordKind::Plain
    }
}

/// A word's kind as exec values.
pub enum Word {
    Project(String),
    Context(String),
    Meta(String, String),
    Plain,
}

/// A word's kind as plain values.
pub open spec fn word_view(w: Word) -> WordKind {
    match w {
        Word::Project(n) => WordKind::Project(n@),
        Word::Context(n) => WordKind::Context(n@),
        Word::Meta(k, v) => WordKind::Meta(k@, v@),
        Word::Plain => WordKind::Plain,
    }
}

/// Returns the kind of `w` (see [`word_kind`]).
pub fn classify_word(w: &[char]) -> (r: Word)
    ensures
        word_view(r) == word_kind(w@),
{
    if w.len() > 1 && (w[0] == '+' || w[0] == '@') {
        let name = string_of_chars(vstd::slice::slice_subrange(w, 1, w.len()));
        assert(name@ =~= w@.drop_first());
        return if w[0] == '+' {
            Word::Project(name)
        } else {
            Word::Context(name)
        };
    }
    let mut k: usize = 0;
    while k < w.len()
        invariant
            k <= w@.len(),
            !(w@.len() > 1 && (w@[0] == '+' || w@[0] == '@')),
            forall|j: int| 0 <= j < k ==> w@[j] != ':',
        decreases w@.len() - k,
    {
        if w[k] == ':' {
            assert(first_colon(w@, k as int));
            assert forall|j: int| first_colon(w@, j) implies j == k by {
                if j < k {
                    assert(w@[j] != ':');
                } else if j > k {
                    assert(w@[k as int] == ':');
                }
            }
            if 0 < k && k + 1 < w.len() {
                let key = string_of_chars(vstd::slice::slice_subrange(w, 0, k));
                let value = string_of_chars(vstd::slice::slice_subrange(w, k + 1, w.len()));
                assert(key@ =~= w@.take(k as int));
                assert(value@ =~= w@.skip(k + 1));
                return Word::Meta(key, value);
            }
            return Word::Plain;
        }
        k = k + 1;
    }
    assert forall|j: int| !first_colon(w@, j) by {
        if 0 <= j < w@.len() {
            assert(w@[j] != ':');
        }
    }
    Word::Plain
}


/// The words of the title among `ws`, in order.
pub open spec fn title_words(ws: Seq<Seq<char>>) -> Seq<Seq<char>>
    decreases ws.len(),
{
    if ws.len() == 0 {
        Seq::empty()
    } else if word_kind(ws.last()) is Plain {
        title_words(ws.drop_last()).push(ws.last())
    } else {
        title_words(ws.drop_last())
    }
}

/// The project names among `ws`, in order.
pub open spec fn projects_in(ws: Seq<Seq<char>>) -> Seq<Seq<char>>
    decreases ws.len(),
{
    if ws.len() == 0 {
        Seq::empty()
    } else {
        match word_kind(ws.last()) {
            WordKind::Project(n) => projects_in(ws.drop_last()).push(n),
            _ => projects_in(ws.drop_last()),
        }
    }
}

/// The context names among `ws`, in order.
pub open spec fn contexts_in(ws: Seq<Seq<char>>) -> Seq<Seq<char>>
    decreases ws.len(),
{
    if ws.len() == 0 {
        Seq::empty()
    } else {
        match word_kind(ws.last()) {
            WordKind::Context(n) => contexts_in(ws.drop_last()).push(n),
            _ => contexts_in(ws.drop_last()),
        }
    }
}

/// The key/value pairs among `ws`, in order.
pub open spec fn metadata_in(ws: Seq<Seq<char>>) -> Seq<(Seq<char>, Seq<char>)>
    decreases ws.len(),
{
    if ws.len() == 0 {
        Seq::empty()
    } else {
        match word_kind(ws.last()) {
            WordKind::Meta(k, v) => metadata_in(ws.drop_last()).push((k, v)),
            _ => metadata_in(ws.drop_last()),
        }
    }
}

/// Words joined with a space between each two.
pub open spec fn joined(ws: Seq<Seq<char>>) -> Seq<char>
    decreases ws.len(),
{
    if ws.len() == 0 {
        Seq::empty()
    } else if ws.len() == 1 {
        ws[0]
    } else {
        joined(ws.drop_last()) + seq![' '] + ws.last()
    }
}

/// The date that the word at `i` writes, if there is such a word.
pub open spec fn date_at(ws: Seq<Seq<char>>, i: int) -> Option<Date> {
    if 0 <= i < ws.len() {
        date_word(ws[i])
    } else {
        None
    }
}

/// What the title line of a TODO says, as plain values.
pub struct SpecHeader {
    pub id: Option<TodoIdentifier>,
    pub priority: Option<char>,
    pub completion_date: Option<Date>,
    pub creation_date: Option<Date>,
    pub title: Seq<char>,
    pub projects: Seq<Seq<char>>,
    pub contexts: Seq<Seq<char>>,
    pub metadata: Seq<(Seq<char>, Seq<char>)>,
}

/// The title line `line` read as `[#ID] [(PRIORITY)] [DATES] TITLE`, with `+project`,
/// `@context` and `key:value` words anywhere after the dates. Each of the leading parts
/// is there where its word is: an identifier first, then a priority, then one date (the
/// creation date) or two (the completion date, then the creation date). The title is
/// the remaining words that are none of the tags, joined by single spaces.
pub open spec fn header_of(line: Seq<char>) -> SpecHeader {
    let ws = words(line);
    let id = if ws.len() > 0 {
        id_of(ws[0])
    } else {
        None
    };
    let i1: int = if id is Some {
        1
    } else {
        0
    };
    let priority = if i1 < ws.len() {
        priority_of(ws[i1])
    } else {
        None
    };
    let i2: int = if priority is Some {
        i1 + 1
    } else {
        i1
    };
    let d1 = date_at(ws, i2);
    let d2 = date_at(ws, i2 + 1);
    let completion_date = if d1 is Some && d2 is Some {
        d1
    } else {
        None
    };
    let creation_date = if d1 is Some && d2 is Some {
        d2
    } else {
        d1
    };
    let i3: int = if d1 is Some && d2 is Some {
        i2 + 2
    } else if d1 is Some {
        i2 + 1
    } else {
        i2
    };
    let body = ws.skip(i3);
    SpecHeader {
        id,
        priority,
        completion_date,
        creation_date,
        title: joined(title_words(body)),
        projects: projects_in(body),
        contexts: contexts_in(body),
        metadata: metadata_in(body),
    }
}

/// What the title line of a TODO says.
pub struct Header {
    pub id: Option<TodoIdentifier>,
    pub priority: Option<char>,
    pub completion_date: Option<Date>,
    pub creation_date: Option<Date>,
    pub title: String,
    pub projects: Vec<String>,
    pub contexts: Vec<String>,
    pub metadata: Vec<(String, String)>,
}

impl View for Header {
    type V = SpecHeader;

    open spec fn view(&self) -> SpecHeader {
        SpecHeader {
            id: self.id,
            priority: self.priority,
            completion_date: self.completion_date,
            creation_date: self.creation_date,
            title: self.title@,
            projects: string_views(self.projects@),
            contexts: string_views(self.contexts@),
            metadata: pair_views(self.metadata@),
        }
    }
}

/// Reads the title line of a TODO (see [`header_of`]).
pub fn parse_header(line: &str) -> (r: Header)
    ensures
        r@ == header_of(line@),
        r.creation_date matches Some(d) ==> date_valid(d),
        r.completion_date matches Some(d) ==> date_valid(d),
{
    let cs = chars_of(line);
    let ws = split_words(cs.as_slice());
    let ghost sw = char_views(ws@);
    assert(sw == words(line@));
    let id = if ws.len() > 0 {
        word_id(ws[0].as_slice())
    } else {
        None
    };
    let i1: usize = if id.is_some() {
        1
    } else {
        0
    };
    let priority = if i1 < ws.len() {
        word_priority(ws[i1].as_slice())
    } else {
        None
    };
    let i2: usize = if priority.is_some() {
        i1 + 1
    } else {
        i1
    };
    let d1 = if i2 < ws.len() {
        word_date(ws[i2].as_slice())
    } else {
        None
    };
    let d2 = if i2 + 1 < ws.len() {
        word_date(ws[i2 + 1].as_slice())
    } else {
        None
    };
    assert(d1 == date_at(sw, i2 as int));
    assert(d2 == date_at(sw, i2 + 1));
    let (completion_date, creation_date, start) = if d1.is_some() && d2.is_some() {
        (d1, d2, i2 + 2)
    } else if d1.is_some() {
        (None, d1, i2 + 1)
    } else {
        (None, None, i2)
    };
    let ghost body = sw.skip(start as int);
    let mut title: Vec<char> = Vec::new();
    let mut any = false;
    let mut projects: Vec<String> = Vec::new();
    let mut contexts: Vec<String> = Vec::new();
    let mut metadata: Vec<(String, String)> = Vec::new();
    let mut j: usize = start;
    assert(sw.subrange(start as int, start as int) =~= Seq::<Seq<char>>::empty());
    assert(string_views(projects@) =~= Seq::<Seq<char>>::empty());
    assert(string_views(contexts@) =~= Seq::<Seq<char>>::empty());
    assert(pair_views(metadata@) =~= Seq::<(Seq<char>, Seq<char>)>::empty());
    while j < ws.len()
        invariant
            start <= j <= ws@.len(),
            sw == char_views(ws@),
            title@ == joined(title_words(sw.subrange(start as int, j as int))),
            any == (title_words(sw.subrange(start as int, j as int)).len() > 0),
            string_views(projects@) == projects_in(sw.subrange(start as int, j as int)),
            string_views(contexts@) == contexts_in(sw.subrange(start as int, j as int)),
            pair_views(metadata@) == metadata_in(sw.subrange(start as int, j as int)),
        decreases ws@.len() - j,
    {
        let ghost seen = sw.subrange(start as int, j as int);
        let ghost next = sw.subrange(start as int, j + 1);
        assert(next.drop_last() =~= seen);
        assert(next.last() == ws@[j as int]@);
        let w = ws[j].as_slice();
        match classify_word(w) {
            Word::Project(n) => {
                projects.push(n);
                assert(string_views(projects@) =~= string_views(projects@.drop_last()).push(
                    projects@.last()@,
                ));
            },
            Word::Context(n) => {
                contexts.push(n);
                assert(string_views(contexts@) =~= string_views(contexts@.drop_last()).push(
                    contexts@.last()@,
                ));
            },
            Word::Meta(k, v) => {
                metadata.push((k, v));
                assert(pair_views(metadata@) =~= pair_views(metadata@.drop_last()).push(
                    (metadata@.last().0@, metadata@.last().1@),
                ));
            },
            Word::Plain => {
                let ghost tw = title_words(seen);
                if any {
                    title.push(' ');
                }
                let mut k: usize = 0;
                let ghost t0 = title@;
                while k < w.len()
                    invariant
                        k <= w@.len(),
                        title@ == t0 + w@.take(k as int),
                    decreases w@.len() - k,
                {
                    title.push(w[k]);
                    assert(w@.take(k + 1) =~= w@.take(k as int).push(w@[k as int]));
                    k = k + 1;
                }
                assert(w@.take(w@.len() as int) =~= w@);
                assert(title_words(next) == tw.push(w@));
                proof {
                    if tw.len() > 0 {
                        assert(tw.push(w@).drop_last() =~= tw);
                        assert(title@ =~= joined(tw) + seq![' '] + w@);
                    } else {
                        assert(tw.push(w@) =~= seq![w@]);
                        assert(title@ =~= w@);
                    }
                }
                any = true;
            },
        }
        j = j + 1;
    }
    assert(sw.subrange(start as int, ws@.len() as int) =~= body);
    Header {
        id,
        priority,
        completion_date,
        creation_date,
        title: string_of_chars(title.as_slice()),
        projects,
        contexts,
        metadata,
    }
}


/// `k` is the position of the first line break in `t`.
pub open spec fn first_break(t: Seq<char>, k: int) -> bool {
    0 <= k < t.len() && t[k] == '\n' && forall|j: int| 0 <= j < k ==> t[j] != '\n'
}

/// The TODO whose text is `text`, found in `file` at line `line_number`: its first line
/// is read as [`header_of`] says, and the lines after it, if any, are the description.
/// The `+project` words are the TODO's tags too.
pub open spec fn todo_fields_of(text: Seq<char>, file: Option<Seq<char>>, line_number: usize) -> TodoFields {
    let has_break = exists|k: int| first_break(text, k);
    let k = choose|k: int| first_break(text, k);
    let h = if has_break {
        header_of(text.take(k))
    } else {
        header_of(text)
    };
    TodoFields {
        id: h.id,
        title: h.title,
        description: if has_break {
            Some(text.skip(k + 1))
        } else {
            None
        },
        file,
        line_number: Some(line_number),
        priority: h.priority,
        creation_date: h.creation_date,
        completion_date: h.completion_date,
        projects: h.projects,
        contexts: h.contexts,
        tags: h.projects,
        metadata: h.metadata,
    }
}

/// The TODO whose text is `text`, found in `file` at line `line_number` (see
/// [`todo_fields_of`]).
pub fn todo_of(text: &str, file: Option<String>, line_number: usize) -> (r: Todo)
    ensures
        r.fields() == todo_fields_of(text@, opt_view(file), line_number),
        r.creation_date matches Some(d) ==> date_valid(d),
        r.completion_date matches Some(d) ==> date_valid(d),
{
    let cs = chars_of(text);
    let mut k: usize = 0;
    while k < cs.len() && cs[k] != '\n'
        invariant
            k <= cs@.len(),
            cs@ == text@,
            forall|j: int| 0 <= j < k ==> cs@[j] != '\n',
        decreases cs@.len() - k,
    {
        k = k + 1;
    }
    let (header, description) = if k < cs.len() {
        assert(first_break(text@, k as int));
        assert forall|j: int| first_break(text@, j) implies j == k by {
            if j < k {
                assert(cs@[j] != '\n');
            } else if j > k {
                assert(cs@[k as int] == '\n');
            }
        }
        let line = string_of_chars(vstd::slice::slice_subrange(cs.as_slice(), 0, k));
        let rest = string_of_chars(vstd::slice::slice_subrange(cs.as_slice(), k + 1, cs.len()));
        assert(line@ =~= text@.take(k as int));
        assert(rest@ =~= text@.skip(k + 1));
        (parse_header(line.as_str()), Some(rest))
    } else {
        assert forall|j: int| !first_break(text@, j) by {
            if 0 <= j < text@.len() {
                assert(cs@[j] != '\n');
            }
        }
        (parse_header(text), None)
    };
    let tags = clone_strings(header.projects.as_slice());
    Todo {
        id: header.id,
        title: header.title,
        description,
        file,
        line_number: Some(line_number),
        priority: header.priority,
        creation_date: header.creation_date,
        completion_date: header.completion_date,
        projects: header.projects,
        contexts: header.contexts,
        tags,
        metadata: header.metadata,
    }
}


/// The first position from `i` on that holds no space (the end where there is none).
pub open spec fn skip_spaces(s: Seq<char>, i: int) -> int
    decreases s.len() - i,
{
    if 0 <= i < s.len() && s[i] == ' ' {
        skip_spaces(s, i + 1)
    } else {
        i
    }
}

/// The first position from `i` on that holds a space (the end where there is none).
pub open spec fn word_end(s: Seq<char>, i: int) -> int
    decreases s.len() - i,
{
    if 0 <= i < s.len() && s[i] != ' ' {
        word_end(s, i + 1)
    } else {
        i
    }
}

fn skip_spaces_from(s: &[char], i: usize) -> (r: usize)
    requires
        i <= s@.len(),
    ensures
        r == skip_spaces(s@, i as int),
        i <= r <= s@.len(),
{
    let mut j = i;
    while j < s.len() && s[j] == ' '
        invariant
            i <= j <= s@.len(),
            skip_spaces(s@, i as int) == skip_spaces(s@, j as int),
        decreases s@.len() - j,
    {
        j = j + 1;
    }
    j
}

fn word_end_from(s: &[char], i: usize) -> (r: usize)
    requires
        i <= s@.len(),
    ensures
        r == word_end(s@, i as int),
        i <= r <= s@.len(),
{
    let mut j = i;
    while j < s.len() && s[j] != ' '
        invariant
            i <= j <= s@.len(),
            word_end(s@, i as int) == word_end(s@, j as int),
        decreases s@.len() - j,
    {
        j = j + 1;
    }
    j
}

/// At `p` in `line` stands the token that opens the TODO whose title line is `head`:
/// the token, then spaces, then `head`.
pub open spec fn opens_todo(line: Seq<char>, tok: Seq<char>, head: Seq<char>, p: int) -> bool {
    let q = skip_spaces(line, p + tok.len());
    &&& 0 <= p
    &&& p + tok.len() <= line.len()
    &&& line.subrange(p, p + tok.len()) == tok
    &&& q + head.len() <= line.len()
    &&& line.subrange(q, q + head.len()) == head
}

/// `p` is the first position in `line` that opens the TODO.
pub open spec fn first_opening(line: Seq<char>, tok: Seq<char>, head: Seq<char>, p: int) -> bool {
    opens_todo(line, tok, head, p) && forall|j: int| 0 <= j < p ==> !opens_todo(line, tok, head, j)
}

/// `line` with the identifier `#id` written into the TODO opened at `p`: in place of
/// the identifier that the first word after the token writes, or else in front of that
/// word.
pub open spec fn with_id_at(line: Seq<char>, tok: Seq<char>, p: int, id: u32) -> Seq<char> {
    let e = p + tok.len();
    let q = skip_spaces(line, e);
    let we = word_end(line, q);
    let mark = seq!['#'] + decimal(id as nat);
    if id_of(line.subrange(q, we)) is Some {
        line.take(q) + mark + line.skip(we)
    } else if q < line.len() {
        line.take(q) + mark + seq![' '] + line.skip(q)
    } else if q == e {
        line + seq![' '] + mark
    } else {
        line + mark
    }
}

/// The source line `line` with `#id` written into the TODO whose title line is `head`
/// and that the token `tok` opens there; `None` where no token in `line` opens it.
pub open spec fn line_with_id_of(line: Seq<char>, tok: Seq<char>, head: Seq<char>, id: u32) -> Option<Seq<char>> {
    if exists|p: int| first_opening(line, tok, head, p) {
        let p = choose|p: int| first_opening(line, tok, head, p);
        Some(with_id_at(line, tok, p, id))
    } else {
        None
    }
}

fn slice_eq_at(s: &[char], at: usize, t: &[char]) -> (r: bool)
    requires
        at <= s@.len(),
    ensures
        r == (at + t@.len() <= s@.len() && s@.subrange(at as int, at + t@.len()) == t@),
{
    if t.len() > s.len() - at {
        return false;
    }
    let n = s.len();
    let mut k: usize = 0;
    while k < t.len()
        invariant
            k <= t@.len(),
            n == s@.len(),
            at <= s@.len(),
            at + t@.len() <= s@.len(),
            forall|j: int| 0 <= j < k ==> s@[at + j] == t@[j],
        decreases t@.len() - k,
    {
        if s[at + k] != t[k] {
            assert(s@.subrange(at as int, at + t@.len())[k as int] != t@[k as int]);
            return false;
        }
        k = k + 1;
    }
    assert(s@.subrange(at as int, at + t@.len()) =~= t@);
    true
}

/// Writes `#id` into the TODO whose title line is `head` in the source line `line` (see
/// [`line_with_id_of`]).
pub fn line_with_id(line: &str, tok: &str, head: &str, id: u32) -> (r: Option<String>)
    ensures
        opt_view(r) == line_with_id_of(line@, tok@, head@, id),
{
    let l = chars_of(line);
    let t = chars_of(tok);
    let h = chars_of(head);
    if t.len() > l.len() {
        assert forall|j: int| !first_opening(line@, tok@, head@, j) by {}
        return None;
    }
    let last = l.len() - t.len();
    let mut p: usize = 0;
    loop
        invariant_except_break
            p <= last,
        invariant
            l@ == line@,
            t@ == tok@,
            h@ == head@,
            last == l@.len() - t@.len(),
            last + t@.len() == l.len(),
            forall|j: int| 0 <= j < p ==> !opens_todo(line@, tok@, head@, j),
        ensures
            forall|j: int| 0 <= j <= last ==> !opens_todo(line@, tok@, head@, j),
        decreases last - p,
    {
        if slice_eq_at(l.as_slice(), p, t.as_slice()) {
            let q = skip_spaces_from(l.as_slice(), p + t.len());
            if slice_eq_at(l.as_slice(), q, h.as_slice()) {
                assert(opens_todo(line@, tok@, head@, p as int));
                assert(first_opening(line@, tok@, head@, p as int));
                assert forall|j: int| first_opening(line@, tok@, head@, j) implies j == p by {
                    if j > p {
                        assert(opens_todo(line@, tok@, head@, p as int));
                    }
                }
                let e = p + t.len();
                let we = word_end_from(l.as_slice(), q);
                let word = vstd::slice::slice_subrange(l.as_slice(), q, we);
                let mut out: Vec<char> = Vec::new();
                let is_id = word_id(word).is_some();
                if is_id || q < l.len() {
                    let mut k: usize = 0;
                    while k < q
                        invariant
                            k <= q <= l@.len(),
                            out@ == l@.take(k as int),
                        decreases q - k,
                    {
                        out.push(l[k]);
                        assert(l@.take(k + 1) =~= l@.take(k as int).push(l@[k as int]));
                        k = k + 1;
                    }
                } else {
                    let mut k: usize = 0;
                    while k < l.len()
                        invariant
                            k <= l@.len(),
                            out@ == l@.take(k as int),
                        decreases l@.len() - k,
                    {
                        out.push(l[k]);
                        assert(l@.take(k + 1) =~= l@.take(k as int).push(l@[k as int]));
                        k = k + 1;
                    }
                    assert(l@.take(l@.len() as int) =~= l@);
                    if q == e {
                        out.push(' ');
                    }
                }
                let ghost before = out@;
                out.push('#');
                push_decimal(&mut out, id as u64);
                assert(out@ =~= before + (seq!['#'] + decimal(id as nat)));
                let rest_from: usize = if is_id {
                    we
                } else if q < l.len() {
                    out.push(' ');
                    q
                } else {
                    l.len()
                };
                let ghost mid = out@;
                let mut k: usize = rest_from;
                while k < l.len()
                    invariant
                        rest_from <= k <= l@.len(),
                        out@ == mid + l@.subrange(rest_from as int, k as int),
                    decreases l@.len() - k,
                {
                    out.push(l[k]);
                    assert(l@.subrange(rest_from as int, k + 1) =~= l@.subrange(
                        rest_from as int,
                        k as int,
                    ).push(l@[k as int]));
                    k = k + 1;
                }
                assert(l@.subrange(rest_from as int, l@.len() as int) =~= l@.skip(
                    rest_from as int,
                ));
                assert(l@.skip(l@.len() as int) =~= Seq::<char>::empty());
                assert(out@ =~= with_id_at(line@, tok@, p as int, id));
                assert(line_with_id_of(line@, tok@, head@, id) == Some(with_id_at(line@, tok@, p as int, id)));
                return Some(string_of_chars(out.as_slice()));
            }
        }
        assert(!opens_todo(line@, tok@, head@, p as int));
        if p == last {
            break;
        }
        p = p + 1;
    }
    assert forall|j: int| !first_opening(line@, tok@, head@, j) by {
        if 0 <= j <= last {
        } else if j > last {
            assert(!opens_todo(line@, tok@, head@, j));
        }
    }
    None
}

/// The identifier written as `#` and its number reads back as that identifier.
pub proof fn law_written_id_reads_back(id: u32)
    ensures
        id_of(seq!['#'] + decimal(id as nat)) == Some(TodoIdentifier::Primary(id)),
{
    law_decimal_reads_back(id as nat);
    crate::cli::lemma_decimal_first(id as nat);
    let w = seq!['#'] + decimal(id as nat);
    assert(w.drop_first() =~= decimal(id as nat));
    assert(w[1] == decimal(id as nat)[0]);
}

} // verus!

verus! {

/// A title line whose first word is a date (`YYYY-MM-DD`, a date of the calendar) and
/// whose second word is none has that date as its creation date, with no identifier,
/// priority or completion date before it being needed; the date word is not part of the
/// title, and the rest of the line (any `rest` with the remaining words, the first of
/// them no identifier, priority or date) reads to the same title, projects, contexts
/// and key/value pairs on its own, with no creation date.
pub proof fn law_leading_date_is_creation_date(line: Seq<char>, rest: Seq<char>, d: Date)
    requires
        words(line).len() >= 1,
        date_word(words(line)[0]) == Some(d),
        words(rest) == words(line).skip(1),
        words(rest).len() > 0 ==> id_of(words(rest)[0]) is None && priority_of(words(rest)[0]) is None
            && date_word(words(rest)[0]) is None,
    ensures
        header_of(line).creation_date == Some(d),
        header_of(line).completion_date is None,
        header_of(line).id is None,
        header_of(line).priority is None,
        header_of(rest).creation_date is None,
        header_of(line).title == header_of(rest).title,
        header_of(line).projects == header_of(rest).projects,
        header_of(line).contexts == header_of(rest).contexts,
        header_of(line).metadata == header_of(rest).metadata,
{
    let ws = words(line);
    let w = ws[0];
    assert(date_shaped(w));
    assert(w[0] != '#' && w[0] != '&') by {
        assert('0' <= w[0] <= '9');
    }
    assert(id_of(w) is None);
    assert(priority_of(w) is None);
    let rs = words(rest);
    if rs.len() > 0 {
        assert(rs[0] == ws[1]);
    }
    assert(rs.skip(0) =~= rs);
}

/// A title line opening with two dates has the first as its completion date and the
/// second as its creation date.
pub proof fn law_two_leading_dates(line: Seq<char>, c: Date, d: Date)
    requires
        words(line).len() >= 2,
        date_word(words(line)[0]) == Some(c),
        date_word(words(line)[1]) == Some(d),
    ensures
        header_of(line).completion_date == Some(c),
        header_of(line).creation_date == Some(d),
        header_of(line).id is None,
        header_of(line).priority is None,
{
    let w = words(line)[0];
    assert(date_shaped(w));
    assert('0' <= w[0] <= '9');
    assert(id_of(w) is None);
    assert(priority_of(w) is None);
}

/// After an identifier `#n` and a priority `(P)`, a date word is the creation date.
pub proof fn law_date_after_id_and_priority(line: Seq<char>, d: Date)
    requires
        words(line).len() >= 3,
        id_of(words(line)[0]) is Some,
        priority_of(words(line)[1]) is Some,
        date_word(words(line)[2]) == Some(d),
        words(line).len() == 3 || date_word(words(line)[3]) is None,
    ensures
        header_of(line).id == id_of(words(line)[0]),
        header_of(line).priority == priority_of(words(line)[1]),
        header_of(line).creation_date == Some(d),
        header_of(line).completion_date is None,
{
}

} // verus!
