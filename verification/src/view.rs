//! What the terminal interface shows of TODOs: the rows of the list and the details of
//! the selected TODO, as coloured pieces of text.
use vstd::prelude::*;
use vstd::string::StringExecFns;
use vstd::utf8::encode_utf8;
use crate::display::{
    decimal, decimal_digits, law_decimal_width, num_digits, pad_right, push_chars, push_decimal,
    push_repeated, push_str, repeated, truncate_path_bytes, truncated, zero_pad,
};
use crate::text::{chars_of, string_from_utf8, string_of, string_of_chars};
use crate::todo::{Date, Todo, TodoFields, TodoIdentifier, date_valid};

verus! {

/// A terminal colour.
#[derive(Clone, Copy, Debug, PartialEq, Eq, Structural)]
pub enum Color {
    Black,
    Red,
    Green,
    Yellow,
    Blue,
    Magenta,
    Cyan,
    White,
}

/// A piece of text in one colour; `None` is the terminal's default colour.
#[derive(Debug, PartialEq)]
pub struct Span {
    pub color: Option<Color>,
    pub text: String,
}

/// Spans as colours and character sequences.
pub open spec fn spans_view(ss: Seq<Span>) -> Seq<(Option<Color>, Seq<char>)> {
    ss.map_values(|s: Span| (s.color, s.text@))
}

/// Lines of spans as colours and character sequences.
pub open spec fn lines_view(ls: Seq<Vec<Span>>) -> Seq<Seq<(Option<Color>, Seq<char>)>> {
    ls.map_values(|l: Vec<Span>| spans_view(l@))
}

/// The identifier column of a row: `#` and the number for a TODO of its own, `&` and the
/// number for a reference, padded to `width`; `#` and `width` dashes for a TODO without
/// one; then a space.
pub open spec fn id_label(id: Option<TodoIdentifier>, width: int) -> Seq<char> {
    match id {
        Some(TodoIdentifier::Primary(n)) => seq!['#'] + pad_right(decimal(n as nat), width) + seq![' '],
        Some(TodoIdentifier::Reference(n)) => seq!['&'] + pad_right(decimal(n as nat), width) + seq![
            ' ',
        ],
        None => seq!['#'] + repeated('-', width) + seq![' '],
    }
}

/// The colour of the identifier column.
pub open spec fn id_color(id: Option<TodoIdentifier>) -> Color {
    match id {
        Some(TodoIdentifier::Primary(_)) => Color::Green,
        Some(TodoIdentifier::Reference(_)) => Color::Cyan,
        None => Color::Yellow,
    }
}

/// The location column of a row: the shortened location (UTF-8 bytes) padded with
/// spaces to `width` bytes, then a space.
pub open spec fn location_cell(location: Seq<u8>, width: int) -> Seq<char> {
    string_of(
        location + Seq::new(
            if width > location.len() {
                (width - location.len()) as nat
            } else {
                0
            },
            |_i: int| 32u8,
        ),
    ) + seq![' ']
}

/// The priority column of a row: the letter in brackets, `Z` for none, then a space.
pub open spec fn priority_cell(p: Option<char>) -> Seq<char> {
    seq![
        '(',
        match p {
            Some(c) => c,
            None => 'Z',
        },
        ')',
        ' ',
    ]
}

/// The row of TODO `t` at shortened location `location`, with the identifier column
/// `id_width` digits wide and the location column `path_width` bytes wide.
pub open spec fn list_row(t: TodoFields, location: Seq<u8>, id_width: int, path_width: int) -> Seq<
    (Option<Color>, Seq<char>),
> {
    seq![
        (Some(id_color(t.id)), id_label(t.id, id_width)),
        (Some(Color::Red), seq!['[', ' ', ']', ' ']),
        (Some(Color::Blue), location_cell(location, path_width)),
        (Some(Color::Yellow), priority_cell(t.priority)),
        (Some(Color::White), t.title),
    ] + t.projects.map_values(|p: Seq<char>| (Some(Color::Magenta), seq![' ', '+'] + p))
        + t.contexts.map_values(|c: Seq<char>| (Some(Color::Cyan), seq![' ', '@'] + c))
}

/// A span of colour `color` with the characters `cs`.
fn span_of(color: Option<Color>, cs: Vec<char>) -> (r: Span)
    ensures
        r.color == color,
        r.text@ == cs@,
{
    Span { color, text: string_of_chars(cs.as_slice()) }
}

/// Appends `#` (or `&` for a reference) and the number.
fn push_id(out: &mut Vec<char>, id: TodoIdentifier)
    ensures
        final(out)@ == old(out)@ + match id {
            TodoIdentifier::Primary(n) => seq!['#'] + decimal(n as nat),
            TodoIdentifier::Reference(n) => seq!['&'] + decimal(n as nat),
        },
{
    match id {
        TodoIdentifier::Primary(n) => {
            out.push('#');
            push_decimal(out, n as u64);
        },
        TodoIdentifier::Reference(n) => {
            out.push('&');
            push_decimal(out, n as u64);
        },
    }
}

/// The identifier column of a row (see [`id_label`]).
fn id_cell(id: Option<TodoIdentifier>, width: usize) -> (r: Vec<char>)
    ensures
        r@ == id_label(id, width as int),
{
    let mut cs: Vec<char> = Vec::new();
    match id {
        Some(i) => {
            push_id(&mut cs, i);
            let n = match i {
                TodoIdentifier::Primary(n) => n,
                TodoIdentifier::Reference(n) => n,
            };
            proof {
                law_decimal_width(n as nat);
            }
            let digits = num_digits(n) as usize;
            if digits < width {
                push_repeated(&mut cs, ' ', width - digits);
            } else {
                push_repeated(&mut cs, ' ', 0);
            }
        },
        None => {
            cs.push('#');
            push_repeated(&mut cs, '-', width);
        },
    }
    cs.push(' ');
    proof {
        match id {
            Some(TodoIdentifier::Primary(n)) => {
                assert(cs@ =~= seq!['#'] + pad_right(decimal(n as nat), width as int) + seq![' ']);
            },
            Some(TodoIdentifier::Reference(n)) => {
                assert(cs@ =~= seq!['&'] + pad_right(decimal(n as nat), width as int) + seq![' ']);
            },
            None => {
                assert(cs@ =~= seq!['#'] + repeated('-', width as int) + seq![' ']);
            },
        }
    }
    cs
}

/// The row of the list for `todo`, where `location_start` is
/// where the TODO starts (`file:line`), shortened by [`truncated`]; the identifier column
/// is `max_id_digits` digits wide and the location column `max_path_width` bytes wide.
pub fn list_item(todo: &Todo, location_start: &str, max_id_digits: u32, max_path_width: usize) -> (r:
    Vec<Span>)
    requires
        truncated(encode_utf8(location_start@)) is Some,
    ensures
        spans_view(r@) == list_row(
            todo.fields(),
            truncated(encode_utf8(location_start@)).unwrap(),
            max_id_digits as int,
            max_path_width as int,
        ),
{
    let ghost f = todo.fields();
    let ghost short = truncated(encode_utf8(location_start@)).unwrap();
    let ghost head = seq![
        (Some(id_color(f.id)), id_label(f.id, max_id_digits as int)),
        (Some(Color::Red), seq!['[', ' ', ']', ' ']),
        (Some(Color::Blue), location_cell(short, max_path_width as int)),
        (Some(Color::Yellow), priority_cell(f.priority)),
        (Some(Color::White), f.title),
    ];
    let ghost projects = f.projects.map_values(|p: Seq<char>| (Some(Color::Magenta), seq![' ', '+'] + p));
    let ghost contexts = f.contexts.map_values(|c: Seq<char>| (Some(Color::Cyan), seq![' ', '@'] + c));
    let ghost row = head + projects + contexts;
    assert(row == list_row(f, short, max_id_digits as int, max_path_width as int));
    let mut spans: Vec<Span> = Vec::new();
    spans.push(span_of(Some(id_color_of(todo.id)), id_cell(todo.id, max_id_digits as usize)));
    let mut status: Vec<char> = Vec::new();
    status.push('[');
    status.push(' ');
    status.push(']');
    status.push(' ');
    assert(status@ =~= seq!['[', ' ', ']', ' ']);
    spans.push(span_of(Some(Color::Red), status));
    let mut loc = truncate_path_bytes(location_start.as_bytes());
    assert(loc@ == short);
    let mut k = loc.len();
    while k < max_path_width
        invariant
            short.len() <= k,
            k <= max_path_width || k == short.len(),
            loc@.len() == k,
            loc@ == short + Seq::new((k - short.len()) as nat, |_i: int| 32u8),
        decreases max_path_width - k,
    {
        loc.push(32u8);
        k = k + 1;
        assert(loc@ =~= short + Seq::new((k - short.len()) as nat, |_i: int| 32u8));
    }
    assert(loc@ =~= short + Seq::new(
        if max_path_width > short.len() {
            (max_path_width - short.len()) as nat
        } else {
            0
        },
        |_i: int| 32u8,
    ));
    let mut cell: Vec<char> = Vec::new();
    let loc_text = string_from_utf8(loc);
    push_chars(&mut cell, chars_of(loc_text.as_str()).as_slice());
    cell.push(' ');
    assert(cell@ =~= location_cell(short, max_path_width as int));
    spans.push(span_of(Some(Color::Blue), cell));
    let mut prio: Vec<char> = Vec::new();
    prio.push('(');
    prio.push(
        match todo.priority {
            Some(c) => c,
            None => 'Z',
        },
    );
    prio.push(')');
    prio.push(' ');
    assert(prio@ =~= priority_cell(todo.priority));
    spans.push(span_of(Some(Color::Yellow), prio));
    let title = todo.title.clone();
    assert(title@ == f.title);
    spans.push(Span { color: Some(Color::White), text: title });
    assert(spans_view(spans@) =~= head);
    assert(head =~= row.subrange(0, 5));
    let mut i: usize = 0;
    while i < todo.projects.len()
        invariant
            i <= todo.projects@.len(),
            f == todo.fields(),
            projects == f.projects.map_values(|p: Seq<char>| (Some(Color::Magenta), seq![' ', '+'] + p)),
            row == head + projects + contexts,
            head.len() == 5,
            spans_view(spans@) =~= row.subrange(0, 5 + i),
        decreases todo.projects@.len() - i,
    {
        let mut cs: Vec<char> = Vec::new();
        cs.push(' ');
        cs.push('+');
        push_chars(&mut cs, chars_of(todo.projects[i].as_str()).as_slice());
        assert(f.projects[i as int] == todo.projects@[i as int]@);
        assert(row[5 + i] == projects[i as int]);
        assert(cs@ =~= seq![' ', '+'] + f.projects[i as int]);
        assert(projects[i as int] == (Some(Color::Magenta), seq![' ', '+'] + f.projects[i as int]));
        let ghost before = spans@;
        let sp = span_of(Some(Color::Magenta), cs);
        spans.push(sp);
        assert(spans_view(spans@) =~= spans_view(before).push((sp.color, sp.text@)));
        i = i + 1;
        assert(spans_view(spans@) =~= row.subrange(0, 5 + i));
    }
    let mut j: usize = 0;
    while j < todo.contexts.len()
        invariant
            j <= todo.contexts@.len(),
            f == todo.fields(),
            contexts == f.contexts.map_values(|c: Seq<char>| (Some(Color::Cyan), seq![' ', '@'] + c)),
            row == head + projects + contexts,
            head.len() == 5,
            projects.len() == todo.projects@.len(),
            spans_view(spans@) =~= row.subrange(0, 5 + todo.projects@.len() + j),
        decreases todo.contexts@.len() - j,
    {
        let mut cs: Vec<char> = Vec::new();
        cs.push(' ');
        cs.push('@');
        push_chars(&mut cs, chars_of(todo.contexts[j].as_str()).as_slice());
        assert(f.contexts[j as int] == todo.contexts@[j as int]@);
        assert(row[5 + todo.projects@.len() + j] == contexts[j as int]);
        assert(cs@ =~= seq![' ', '@'] + f.contexts[j as int]);
        assert(contexts[j as int] == (Some(Color::Cyan), seq![' ', '@'] + f.contexts[j as int]));
        let ghost before = spans@;
        let sp = span_of(Some(Color::Cyan), cs);
        spans.push(sp);
        assert(spans_view(spans@) =~= spans_view(before).push((sp.color, sp.text@)));
        j = j + 1;
        assert(spans_view(spans@) =~= row.subrange(0, 5 + todo.projects@.len() + j));
    }
    assert(spans_view(spans@) =~= row);
    spans
}


/// The largest tracking number among `ids` (references do not count); 0 if there is none.
pub open spec fn max_primary_id(ids: Seq<Option<TodoIdentifier>>) -> nat
    decreases ids.len(),
{
    if ids.len() == 0 {
        0
    } else {
        let m = max_primary_id(ids.drop_last());
        match ids.last() {
            Some(TodoIdentifier::Primary(n)) => if n > m {
                n as nat
            } else {
                m
            },
            _ => m,
        }
    }
}

/// The length in bytes of the widest of `locations` once shortened; 0 if there is none.
pub open spec fn max_short_len(locations: Seq<Seq<char>>) -> nat
    decreases locations.len(),
{
    if locations.len() == 0 {
        0
    } else {
        let m = max_short_len(locations.drop_last());
        let n = truncated(encode_utf8(locations.last())).unwrap().len();
        if n > m {
            n
        } else {
            m
        }
    }
}

/// The identifiers of `todos`.
pub open spec fn ids_of(todos: Seq<Todo>) -> Seq<Option<TodoIdentifier>> {
    todos.map_values(|t: Todo| t.id)
}

/// Strings as character sequences.
pub open spec fn texts_of(ss: Seq<String>) -> Seq<Seq<char>> {
    ss.map_values(|s: String| s@)
}

/// The rows of the list: one per TODO, `locations[i]`
/// being where `todos[i]` starts; the identifier column is as wide as the largest
/// tracking number and the location column as wide as the widest shortened location.
pub fn list_items(todos: &[Todo], locations: &[String]) -> (r: Vec<Vec<Span>>)
    requires
        todos@.len() == locations@.len(),
        forall|i: int| 0 <= i < locations@.len() ==> truncated(encode_utf8(#[trigger] locations@[i]@)) is Some,
    ensures
        r@.len() == todos@.len(),
        forall|i: int|
            0 <= i < r@.len() ==> spans_view((#[trigger] r@[i])@) == list_row(
                todos@[i].fields(),
                truncated(encode_utf8(locations@[i]@)).unwrap(),
                decimal_digits(max_primary_id(ids_of(todos@))) as int,
                max_short_len(texts_of(locations@)) as int,
            ),
{
    let mut max_id: u32 = 0;
    let mut width: usize = 0;
    let mut i: usize = 0;
    while i < todos.len()
        invariant
            i <= todos@.len(),
            todos@.len() == locations@.len(),
            forall|k: int| 0 <= k < locations@.len() ==> truncated(encode_utf8(#[trigger] locations@[k]@)) is Some,
            max_id == max_primary_id(ids_of(todos@).take(i as int)),
            width == max_short_len(texts_of(locations@).take(i as int)),
        decreases todos@.len() - i,
    {
        assert(ids_of(todos@).take(i + 1).drop_last() =~= ids_of(todos@).take(i as int));
        assert(texts_of(locations@).take(i + 1).drop_last() =~= texts_of(locations@).take(i as int));
        match todos[i].id {
            Some(TodoIdentifier::Primary(n)) => {
                if n > max_id {
                    max_id = n;
                }
            },
            _ => {},
        }
        let short = truncate_path_bytes(locations[i].as_str().as_bytes());
        if short.len() > width {
            width = short.len();
        }
        i = i + 1;
    }
    assert(ids_of(todos@).take(i as int) =~= ids_of(todos@));
    assert(texts_of(locations@).take(i as int) =~= texts_of(locations@));
    let digits = num_digits(max_id);
    let mut rows: Vec<Vec<Span>> = Vec::new();
    let mut j: usize = 0;
    while j < todos.len()
        invariant
            j <= todos@.len(),
            todos@.len() == locations@.len(),
            forall|k: int| 0 <= k < locations@.len() ==> truncated(encode_utf8(#[trigger] locations@[k]@)) is Some,
            digits == decimal_digits(max_primary_id(ids_of(todos@))),
            width == max_short_len(texts_of(locations@)),
            rows@.len() == j,
            forall|k: int|
                0 <= k < j ==> spans_view((#[trigger] rows@[k])@) == list_row(
                    todos@[k].fields(),
                    truncated(encode_utf8(locations@[k]@)).unwrap(),
                    digits as int,
                    width as int,
                ),
        decreases todos@.len() - j,
    {
        assert(truncated(encode_utf8(locations@[j as int]@)) is Some);
        let row = list_item(&todos[j], locations[j].as_str(), digits, width);
        rows.push(row);
        j = j + 1;
    }
    rows
}

/// The background of the highlighted row: green for a selected TODO with an identifier,
/// yellow for one without; none where nothing is selected.
pub fn highlight_background(selected: Option<&Todo>) -> (r: Option<Color>)
    ensures
        r == match selected {
            Some(t) => Some(
                if t.id is Some {
                    Color::Green
                } else {
                    Color::Yellow
                },
            ),
            None => None,
        },
{
    match selected {
        Some(t) => match t.id {
            Some(_) => Some(Color::Green),
            None => Some(Color::Yellow),
        },
        None => None,
    }
}

/// The decimal digit `d` (below 10).
pub open spec fn digit_char(d: nat) -> char {
    ('0' as int + d) as char
}

/// A date as `chrono` shows a `NaiveDate`: `YYYY-MM-DD`, the year at least four digits,
/// with a sign where it is below 0 or above 9999.
pub open spec fn date_text(d: Date) -> Seq<char> {
    let y = d.year as int;
    let year = if 0 <= y <= 9999 {
        zero_pad(decimal(y as nat), 4)
    } else if y < 0 {
        seq!['-'] + zero_pad(decimal((-y) as nat), 4)
    } else {
        seq!['+'] + decimal(y as nat)
    };
    year + seq![
        '-',
        digit_char(d.month as nat / 10),
        digit_char(d.month as nat % 10),
        '-',
        digit_char(d.day as nat / 10),
        digit_char(d.day as nat % 10),
    ]
}

/// The digit for `d` (below 10).
fn digit_of(d: u32) -> (r: char)
    requires
        d < 10,
    ensures
        r == digit_char(d as nat),
{
    match d {
        0 => '0',
        1 => '1',
        2 => '2',
        3 => '3',
        4 => '4',
        5 => '5',
        6 => '6',
        7 => '7',
        8 => '8',
        _ => '9',
    }
}

/// Appends `n` in decimal, padded with zeros to four digits.
fn push_year_digits(out: &mut Vec<char>, n: u64)
    ensures
        final(out)@ == old(out)@ + zero_pad(decimal(n as nat), 4),
{
    proof {
        law_decimal_width(n as nat);
    }
    let digits: u64 = if n < 10 {
        1
    } else if n < 100 {
        2
    } else if n < 1000 {
        3
    } else {
        4
    };
    proof {
        if n >= 1000 {
            assert(decimal_digits(n as nat) >= 4) by {
                reveal_with_fuel(decimal_digits, 4);
            }
        } else {
            reveal_with_fuel(decimal_digits, 4);
        }
    }
    push_repeated(out, '0', (4 - digits) as usize);
    push_decimal(out, n);
    assert(out@ =~= old(out)@ + zero_pad(decimal(n as nat), 4));
}

/// Appends the date as [`date_text`] shows it.
fn push_date(out: &mut Vec<char>, d: Date)
    requires
        d.month < 100,
        d.day < 100,
    ensures
        final(out)@ == old(out)@ + date_text(d),
{
    let y = d.year;
    if 0 <= y && y <= 9999 {
        push_year_digits(out, y as u64);
    } else if y < 0 {
        out.push('-');
        let m: u64 = (0i64 - (y as i64)) as u64;
        push_year_digits(out, m);
    } else {
        out.push('+');
        push_decimal(out, y as u64);
    }
    out.push('-');
    out.push(digit_of(d.month / 10));
    out.push(digit_of(d.month % 10));
    out.push('-');
    out.push(digit_of(d.day / 10));
    out.push(digit_of(d.day % 10));
    assert(out@ =~= old(out)@ + date_text(d));
}

/// A line of one span.
pub open spec fn one_span(color: Option<Color>, text: Seq<char>) -> Seq<(Option<Color>, Seq<char>)> {
    seq![(color, text)]
}

/// The line holding a line break, which separates the sections of the details.
pub open spec fn break_line() -> Seq<(Option<Color>, Seq<char>)> {
    seq![(None, seq!['\n'])]
}

/// The head of the details of a TODO: its identifier, if it has one, and its title.
pub open spec fn detail_title(t: TodoFields) -> Seq<(Option<Color>, Seq<char>)> {
    (match t.id {
        Some(TodoIdentifier::Primary(n)) => seq![(Some(Color::Green), seq!['#'] + decimal(n as nat) + seq![' '])],
        Some(TodoIdentifier::Reference(n)) => seq![(Some(Color::Cyan), seq!['&'] + decimal(n as nat) + seq![' '])],
        None => Seq::empty(),
    }) + seq![(Some(Color::White), t.title)]
}

/// The location line of the details, for a TODO with a file: the file and, where known,
/// the line.
pub open spec fn detail_location(t: TodoFields) -> Seq<Seq<(Option<Color>, Seq<char>)>> {
    match t.file {
        Some(f) => seq![
            one_span(
                Some(Color::Blue),
                "location: "@ + f + match t.line_number {
                    Some(l) => seq![':'] + decimal(l as nat),
                    None => Seq::empty(),
                },
            ),
        ],
        None => Seq::empty(),
    }
}

/// The priority and creation date lines of the details, for a TODO that has them.
pub open spec fn detail_dates(t: TodoFields) -> Seq<Seq<(Option<Color>, Seq<char>)>> {
    (match t.priority {
        Some(p) => seq![one_span(Some(Color::Yellow), "priority: ("@ + seq![p] + ") "@)],
        None => Seq::empty(),
    }) + (match t.creation_date {
        Some(d) => seq![one_span(Some(Color::Red), "creation_date: "@ + date_text(d))],
        None => Seq::empty(),
    })
}

/// The metadata lines of the details (`key: value`), then a line break if there is any.
pub open spec fn detail_metadata(t: TodoFields) -> Seq<Seq<(Option<Color>, Seq<char>)>> {
    t.metadata.map_values(
        |kv: (Seq<char>, Seq<char>)| one_span(Some(Color::Cyan), kv.0 + ": "@ + kv.1),
    ) + (if t.metadata.len() > 0 {
        seq![break_line()]
    } else {
        Seq::empty()
    })
}

/// The details of the selected TODO, line by line, up to
/// its description, whose lines follow them.
pub open spec fn detail_lines(t: TodoFields) -> Seq<Seq<(Option<Color>, Seq<char>)>> {
    seq![detail_title(t), break_line(), one_span(Some(Color::Magenta), "status: in progress"@)]
        + detail_location(t) + detail_dates(t) + seq![break_line()] + detail_metadata(t)
}

/// A line of one span.
fn line_of(color: Option<Color>, cs: Vec<char>) -> (r: Vec<Span>)
    ensures
        spans_view(r@) == one_span(color, cs@),
{
    let mut l: Vec<Span> = Vec::new();
    l.push(span_of(color, cs));
    assert(spans_view(l@) =~= one_span(color, cs@));
    l
}

/// The line holding a line break.
fn newline() -> (r: Vec<Span>)
    ensures
        spans_view(r@) == break_line(),
{
    let mut cs: Vec<char> = Vec::new();
    cs.push('\n');
    assert(cs@ =~= seq!['\n']);
    line_of(None, cs)
}

/// The details of `todo` (see [`detail_lines`]).
pub fn selected_item_lines(todo: &Todo) -> (r: Vec<Vec<Span>>)
    requires
        todo.creation_date matches Some(d) ==> date_valid(d),
    ensures
        lines_view(r@) == detail_lines(todo.fields()),
{
    let ghost f = todo.fields();
    let mut lines: Vec<Vec<Span>> = Vec::new();
    let mut first: Vec<Span> = Vec::new();
    match todo.id {
        Some(TodoIdentifier::Primary(n)) => {
            let mut cs: Vec<char> = Vec::new();
            push_id(&mut cs, TodoIdentifier::Primary(n));
            cs.push(' ');
            assert(cs@ =~= seq!['#'] + decimal(n as nat) + seq![' ']);
            first.push(span_of(Some(Color::Green), cs));
        },
        Some(TodoIdentifier::Reference(n)) => {
            let mut cs: Vec<char> = Vec::new();
            push_id(&mut cs, TodoIdentifier::Reference(n));
            cs.push(' ');
            assert(cs@ =~= seq!['&'] + decimal(n as nat) + seq![' ']);
            first.push(span_of(Some(Color::Cyan), cs));
        },
        None => {},
    }
    let title = todo.title.clone();
    assert(title@ == f.title);
    first.push(Span { color: Some(Color::White), text: title });
    assert(spans_view(first@) =~= detail_title(f));
    lines.push(first);
    lines.push(newline());
    lines.push(line_of(Some(Color::Magenta), chars_of("status: in progress")));
    let ghost head = seq![detail_title(f), break_line(), one_span(Some(Color::Magenta), "status: in progress"@)];
    assert(lines_view(lines@) =~= head);
    match &todo.file {
        Some(file) => {
            let mut cs: Vec<char> = Vec::new();
            push_str(&mut cs, "location: ");
            push_str(&mut cs, file.as_str());
            match todo.line_number {
                Some(l) => {
                    cs.push(':');
                    push_decimal(&mut cs, l as u64);
                },
                None => {},
            }
            let ghost expected = "location: "@ + f.file.unwrap() + match f.line_number {
                Some(l) => seq![':'] + decimal(l as nat),
                None => Seq::<char>::empty(),
            };
            assert(cs@ =~= expected);
            lines.push(line_of(Some(Color::Blue), cs));
        },
        None => {},
    }
    assert(lines_view(lines@) =~= head + detail_location(f));
    let ghost upto_location = head + detail_location(f);
    match todo.priority {
        Some(p) => {
            let mut cs: Vec<char> = Vec::new();
            push_str(&mut cs, "priority: (");
            cs.push(p);
            push_str(&mut cs, ") ");
            assert(cs@ =~= "priority: ("@ + seq![p] + ") "@);
            lines.push(line_of(Some(Color::Yellow), cs));
        },
        None => {},
    }
    match todo.creation_date {
        Some(d) => {
            let mut cs: Vec<char> = Vec::new();
            push_str(&mut cs, "creation_date: ");
            push_date(&mut cs, d);
            lines.push(line_of(Some(Color::Red), cs));
        },
        None => {},
    }
    assert(lines_view(lines@) =~= upto_location + detail_dates(f));
    lines.push(newline());
    let ghost before_meta = upto_location + detail_dates(f) + seq![break_line()];
    assert(lines_view(lines@) =~= before_meta);
    let ghost meta = f.metadata.map_values(
        |kv: (Seq<char>, Seq<char>)| one_span(Some(Color::Cyan), kv.0 + ": "@ + kv.1),
    );
    let mut k: usize = 0;
    while k < todo.metadata.len()
        invariant
            k <= todo.metadata@.len(),
            f == todo.fields(),
            meta == f.metadata.map_values(
                |kv: (Seq<char>, Seq<char>)| one_span(Some(Color::Cyan), kv.0 + ": "@ + kv.1),
            ),
            lines_view(lines@) =~= before_meta + meta.take(k as int),
        decreases todo.metadata@.len() - k,
    {
        let mut cs: Vec<char> = Vec::new();
        push_str(&mut cs, todo.metadata[k].0.as_str());
        push_str(&mut cs, ": ");
        push_str(&mut cs, todo.metadata[k].1.as_str());
        assert(f.metadata[k as int] == (todo.metadata@[k as int].0@, todo.metadata@[k as int].1@));
        assert(meta[k as int] == one_span(Some(Color::Cyan), cs@));
        let ghost before = lines@;
        let line = line_of(Some(Color::Cyan), cs);
        lines.push(line);
        assert(lines_view(lines@) =~= lines_view(before).push(spans_view(line@)));
        assert(meta.take(k + 1) =~= meta.take(k as int).push(meta[k as int]));
        k = k + 1;
    }
    assert(meta.take(k as int) =~= meta);
    if todo.metadata.len() > 0 {
        let ghost before = lines@;
        let nl = newline();
        lines.push(nl);
        assert(lines_view(lines@) =~= lines_view(before).push(spans_view(nl@)));
    }
    assert(lines_view(lines@) =~= detail_lines(f));
    lines
}

/// The lines of the popup that offers to import `n` TODOs without identifiers.
pub open spec fn import_prompt(n: nat) -> Seq<Seq<(Option<Color>, Seq<char>)>> {
    seq![
        one_span(None, decimal(n) + " TODOs need importing."@),
        Seq::empty(),
        seq![
            (Some(Color::Green), "y"@),
            (None, ": confirm / "@),
            (Some(Color::Red), "n"@),
            (None, ": cancel"@),
        ],
    ]
}

/// The lines of the import popup for `n` TODOs (see [`import_prompt`]), and the
/// number of lines, which the popup centres.
pub fn unowned_todos(n: usize) -> (r: (u16, Vec<Vec<Span>>))
    ensures
        r.0 == 3,
        lines_view(r.1@) == import_prompt(n as nat),
{
    let mut lines: Vec<Vec<Span>> = Vec::new();
    let mut cs: Vec<char> = Vec::new();
    push_decimal(&mut cs, n as u64);
    push_str(&mut cs, " TODOs need importing.");
    let count_line = line_of(None, cs);
    assert(spans_view(count_line@) == one_span(None, decimal(n as nat) + " TODOs need importing."@));
    lines.push(count_line);
    let empty: Vec<Span> = Vec::new();
    assert(spans_view(empty@) =~= Seq::empty());
    lines.push(empty);
    let mut keys: Vec<Span> = Vec::new();
    keys.push(Span { color: Some(Color::Green), text: <String as StringExecFns>::from_str("y") });
    keys.push(Span { color: None, text: <String as StringExecFns>::from_str(": confirm / ") });
    keys.push(Span { color: Some(Color::Red), text: <String as StringExecFns>::from_str("n") });
    keys.push(Span { color: None, text: <String as StringExecFns>::from_str(": cancel") });
    assert(spans_view(keys@) =~= seq![
        (Some(Color::Green), "y"@),
        (None, ": confirm / "@),
        (Some(Color::Red), "n"@),
        (None, ": cancel"@),
    ]);
    lines.push(keys);
    assert(lines_view(lines@) =~= import_prompt(n as nat));
    (3, lines)
}

/// The colour of the identifier column (see [`id_color`]).
fn id_color_of(id: Option<TodoIdentifier>) -> (r: Color)
    ensures
        r == id_color(id),
{
    match id {
        Some(TodoIdentifier::Primary(_)) => Color::Green,
        Some(TodoIdentifier::Reference(_)) => Color::Cyan,
        None => Color::Yellow,
    }
}

} // verus!
