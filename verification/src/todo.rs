//! The TODO record that filters, summaries and views read.
use vstd::prelude::*;

verus! {

/// A calendar date.
#[derive(Clone, Copy, Debug, PartialEq, Eq, Structural)]
pub struct Date {
    pub year: i32,
    pub month: u32,
    pub day: u32,
}

/// The date's month and day are those of a calendar: month 1 to 12, day 1 to 31.
pub open spec fn date_valid(d: Date) -> bool {
    1 <= d.month <= 12 && 1 <= d.day <= 31
}

/// `a` comes before `b` in the calendar.
pub open spec fn date_lt(a: Date, b: Date) -> bool {
    ||| a.year < b.year
    ||| a.year == b.year && a.month < b.month
    ||| a.year == b.year && a.month == b.month && a.day < b.day
}

/// Returns whether `a` comes before `b` in the calendar.
pub fn date_before(a: &Date, b: &Date) -> (r: bool)
    ensures
        r == date_lt(*a, *b),
{
    a.year < b.year || (a.year == b.year && a.month < b.month) || (a.year == b.year && a.month
        == b.month && a.day < b.day)
}

/// How a TODO is identified: by its own tracking number, or as a reference to the
/// TODO with that number.
#[derive(Clone, Copy, Debug, PartialEq, Eq, Structural)]
pub enum TodoIdentifier {
    Primary(u32),
    Reference(u32),
}

/// A TODO: its identity, where it is, and its metadata.
pub struct Todo {
    /// The tracking number, for a TODO that has one.
    pub id: Option<TodoIdentifier>,
    /// The title (the first line of the TODO's text).
    pub title: String,
    /// The rest of the TODO's text.
    pub description: Option<String>,
    /// The file the TODO was found in.
    pub file: Option<String>,
    /// The line it starts on.
    pub line_number: Option<usize>,
    /// The priority letter, `A` the highest.
    pub priority: Option<char>,
    pub creation_date: Option<Date>,
    pub completion_date: Option<Date>,
    /// The `+project` tags.
    pub projects: Vec<String>,
    /// The `@context` tags.
    pub contexts: Vec<String>,
    /// All tags of the TODO.
    pub tags: Vec<String>,
    /// `key:value` pairs, in the order they were written.
    pub metadata: Vec<(String, String)>,
}

/// The fields of a [`Todo`] as plain values.
pub struct TodoFields {
    pub id: Option<TodoIdentifier>,
    pub title: Seq<char>,
    pub description: Option<Seq<char>>,
    pub file: Option<Seq<char>>,
    pub line_number: Option<usize>,
    pub priority: Option<char>,
    pub creation_date: Option<Date>,
    pub completion_date: Option<Date>,
    pub projects: Seq<Seq<char>>,
    pub contexts: Seq<Seq<char>>,
    pub tags: Seq<Seq<char>>,
    pub metadata: Seq<(Seq<char>, Seq<char>)>,
}

/// An optional string as an optional character sequence.
pub open spec fn opt_view(s: Option<String>) -> Option<Seq<char>> {
    match s {
        Some(x) => Some(x@),
        None => None,
    }
}

/// Key/value pairs of strings as pairs of character sequences.
pub open spec fn pair_views(ps: Seq<(String, String)>) -> Seq<(Seq<char>, Seq<char>)> {
    ps.map_values(|p: (String, String)| (p.0@, p.1@))
}

/// The strings `ss` as character sequences.
pub open spec fn string_views(ss: Seq<String>) -> Seq<Seq<char>> {
    ss.map_values(|s: String| s@)
}

/// Returns whether `list` holds a string equal to `s`.
pub(crate) fn contains_string(list: &Vec<String>, s: &String) -> (r: bool)
    ensures
        r == string_views(list@).contains(s@),
{
    let mut i: usize = 0;
    while i < list.len()
        invariant
            i <= list@.len(),
            forall|k: int| 0 <= k < i ==> list@[k]@ != s@,
        decreases list@.len() - i,
    {
        if list[i] == *s {
            assert(string_views(list@)[i as int] == s@);
            return true;
        }
        i = i + 1;
    }
    assert forall|k: int| 0 <= k < string_views(list@).len() implies string_views(list@)[k]
        != s@ by {
        assert(string_views(list@)[k] == list@[k]@);
    }
    false
}

impl Todo {
    /// The TODO's fields as plain values.
    pub open spec fn fields(&self) -> TodoFields {
        TodoFields {
            id: self.id,
            title: self.title@,
            description: opt_view(self.description),
            file: opt_view(self.file),
            line_number: self.line_number,
            priority: self.priority,
            creation_date: self.creation_date,
            completion_date: self.completion_date,
            projects: string_views(self.projects@),
            contexts: string_views(self.contexts@),
            tags: string_views(self.tags@),
            metadata: pair_views(self.metadata@),
        }
    }

    /// Whether the TODO is tagged with project `project`.
    pub open spec fn spec_has_project(&self, project: Seq<char>) -> bool {
        string_views(self.projects@).contains(project)
    }

    /// Whether the TODO is tagged with context `context`.
    pub open spec fn spec_has_context(&self, context: Seq<char>) -> bool {
        string_views(self.contexts@).contains(context)
    }

    /// Returns whether the TODO is tagged with project `project`.
    pub fn has_project(&self, project: &String) -> (r: bool)
        ensures
            r == self.spec_has_project(project@),
    {
        contains_string(&self.projects, project)
    }

    /// Returns whether the TODO is tagged with context `context`.
    pub fn has_context(&self, context: &String) -> (r: bool)
        ensures
            r == self.spec_has_context(context@),
    {
        contains_string(&self.contexts, context)
    }
}

/// Why a [`TodoBuilder`] could not build a [`Todo`].
#[derive(Clone, Copy, Debug, PartialEq, Eq, Structural)]
pub enum BuildError {
    /// A field that has no default was not set. Every field of a [`Todo`] has a default
    /// (the empty value), so [`TodoBuilder::build`] never returns this error.
    UninitializedField,
}

/// Builds a [`Todo`] field by field; fields that are not set are empty.
pub struct TodoBuilder {
    todo: Todo,
}

impl TodoBuilder {
    /// The fields set so far.
    pub closed spec fn spec_fields(&self) -> TodoFields {
        self.todo.fields()
    }

    /// A builder with every field empty.
    pub fn default() -> (r: Self)
        ensures
            r.spec_fields() == (TodoFields {
                id: None,
                title: Seq::empty(),
                description: None,
                file: None,
                line_number: None,
                priority: None,
                creation_date: None,
                completion_date: None,
                projects: Seq::empty(),
                contexts: Seq::empty(),
                tags: Seq::empty(),
                metadata: Seq::empty(),
            }),
    {
        let r = TodoBuilder {
            todo: Todo {
                id: None,
                title: String::new(),
                description: None,
                file: None,
                line_number: None,
                priority: None,
                creation_date: None,
                completion_date: None,
                projects: Vec::new(),
                contexts: Vec::new(),
                tags: Vec::new(),
                metadata: Vec::new(),
            },
        };
        assert(string_views(r.todo.projects@) =~= Seq::<Seq<char>>::empty());
        assert(string_views(r.todo.contexts@) =~= Seq::<Seq<char>>::empty());
        assert(string_views(r.todo.tags@) =~= Seq::<Seq<char>>::empty());
        assert(pair_views(r.todo.metadata@) =~= Seq::<(Seq<char>, Seq<char>)>::empty());
        r
    }

    /// Sets the tracking number.
    pub fn id(self, id: Option<TodoIdentifier>) -> (r: Self)
        ensures
            r.spec_fields() == (TodoFields { id: id, ..self.spec_fields() }),
    {
        TodoBuilder { todo: Todo { id, ..self.todo } }
    }

    /// Sets the title.
    pub fn title(self, title: String) -> (r: Self)
        ensures
            r.spec_fields() == (TodoFields { title: title@, ..self.spec_fields() }),
    {
        TodoBuilder { todo: Todo { title, ..self.todo } }
    }

    /// Sets the description.
    pub fn description(self, description: Option<String>) -> (r: Self)
        ensures
            r.spec_fields() == (TodoFields { description: opt_view(description), ..self.spec_fields() }),
    {
        TodoBuilder { todo: Todo { description, ..self.todo } }
    }

    /// Sets the file.
    pub fn file(self, file: Option<String>) -> (r: Self)
        ensures
            r.spec_fields() == (TodoFields { file: opt_view(file), ..self.spec_fields() }),
    {
        TodoBuilder { todo: Todo { file, ..self.todo } }
    }

    /// Sets the line number.
    pub fn line_number(self, line_number: Option<usize>) -> (r: Self)
        ensures
            r.spec_fields() == (TodoFields { line_number: line_number, ..self.spec_fields() }),
    {
        TodoBuilder { todo: Todo { line_number, ..self.todo } }
    }

    /// Sets the priority.
    pub fn priority(self, priority: Option<char>) -> (r: Self)
        ensures
            r.spec_fields() == (TodoFields { priority: priority, ..self.spec_fields() }),
    {
        TodoBuilder { todo: Todo { priority, ..self.todo } }
    }

    /// Sets the creation date.
    pub fn creation_date(self, creation_date: Option<Date>) -> (r: Self)
        ensures
            r.spec_fields() == (TodoFields { creation_date: creation_date, ..self.spec_fields() }),
    {
        TodoBuilder { todo: Todo { creation_date, ..self.todo } }
    }

    /// Sets the completion date.
    pub fn completion_date(self, completion_date: Option<Date>) -> (r: Self)
        ensures
            r.spec_fields() == (TodoFields { completion_date: completion_date, ..self.spec_fields() }),
    {
        TodoBuilder { todo: Todo { completion_date, ..self.todo } }
    }

    /// Sets the projects.
    pub fn projects(self, projects: Vec<String>) -> (r: Self)
        ensures
            r.spec_fields() == (TodoFields { projects: string_views(projects@), ..self.spec_fields() }),
    {
        TodoBuilder { todo: Todo { projects, ..self.todo } }
    }

    /// Sets the contexts.
    pub fn contexts(self, contexts: Vec<String>) -> (r: Self)
        ensures
            r.spec_fields() == (TodoFields { contexts: string_views(contexts@), ..self.spec_fields() }),
    {
        TodoBuilder { todo: Todo { contexts, ..self.todo } }
    }

    /// Sets the tags.
    pub fn tags(self, tags: Vec<String>) -> (r: Self)
        ensures
            r.spec_fields() == (TodoFields { tags: string_views(tags@), ..self.spec_fields() }),
    {
        TodoBuilder { todo: Todo { tags, ..self.todo } }
    }

    /// Sets the metadata.
    pub fn metadata(self, metadata: Vec<(String, String)>) -> (r: Self)
        ensures
            r.spec_fields() == (TodoFields { metadata: pair_views(metadata@), ..self.spec_fields() }),
    {
        TodoBuilder { todo: Todo { metadata, ..self.todo } }
    }

    /// The TODO with the fields set so far.
    pub fn build(self) -> (r: Result<Todo, BuildError>)
        ensures
            r matches Ok(t) && t.fields() == self.spec_fields(),
    {
        Ok(self.todo)
    }
}

} // verus!
