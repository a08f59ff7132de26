//! Recognising the language of a source file from its name or its first line.
use vstd::prelude::*;
use vstd::string::StringSliceAdditionalSpecFns;
use crate::text::{find_bytes, find_from, starts_at, starts_with_at};
use crate::pathspec::pathspec_list;
use crate::todo::string_views;

verus! {

/// The languages whose comments can be searched for TODOs.
#[derive(Clone, Copy, Debug, PartialEq, Eq, Structural)]
pub enum FileType {
    Bash,
    C,
    Csharp,
    Css,
    Cpp,
    Dockerfile,
    Go,
    Html,
    Java,
    JavaScript,
    Kotlin,
    Ksh,
    Less,
    Makefile,
    Markdown,
    Php,
    Protobuf,
    Python,
    Ruby,
    Rust,
    Scss,
    Sql,
    Sh,
    Swift,
    Terraform,
    Todoozy,
    Typescript,
    YAML,
    Zsh,
}

/// The start of the path component that ends at `end` (just after the last `/` before
/// it).
pub open spec fn piece_start(p: Seq<u8>, end: int) -> int
    decreases end,
{
    if end <= 0 {
        0
    } else if p[end - 1] == 47u8 {
        end
    } else {
        piece_start(p, end - 1)
    }
}

pub proof fn lemma_piece_start(p: Seq<u8>, end: int)
    requires
        0 <= end <= p.len(),
    ensures
        0 <= piece_start(p, end) <= end,
        piece_start(p, end) > 0 ==> p[piece_start(p, end) - 1] == 47u8,
    decreases end,
{
    if end > 0 && p[end - 1] != 47u8 {
        lemma_piece_start(p, end - 1);
    }
}

/// The bounds of the last normal component of `p` up to `end`, as `Path::file_name`
/// finds it: empty and `.` components are skipped, and a last `..` has no name.
pub open spec fn name_bounds(p: Seq<u8>, end: int) -> Option<(int, int)>
    decreases end,
{
    if end <= 0 || end > p.len() {
        None
    } else {
        let s = piece_start(p, end);
        proof {
            lemma_piece_start(p, end);
        }
        let piece = p.subrange(s, end);
        if piece.len() == 0 || piece == seq![46u8] {
            if s == 0 {
                None
            } else {
                name_bounds(p, s - 1)
            }
        } else if piece == seq![46u8, 46u8] {
            None
        } else {
            Some((s, end))
        }
    }
}

/// The file name of path `p` (`Path::file_name`).
pub open spec fn file_name(p: Seq<u8>) -> Option<Seq<u8>> {
    match name_bounds(p, p.len() as int) {
        Some((s, e)) => Some(p.subrange(s, e)),
        None => None,
    }
}

/// The position of the last `.` in `name` before `end`, if any.
pub open spec fn last_dot(name: Seq<u8>, end: int) -> Option<int>
    decreases end,
{
    if end <= 0 {
        None
    } else if name[end - 1] == 46u8 {
        Some(end - 1)
    } else {
        last_dot(name, end - 1)
    }
}

/// The extension of file name `name` (`Path::extension`): what follows its last `.`,
/// unless that `.` starts the name.
pub open spec fn extension(name: Seq<u8>) -> Option<Seq<u8>> {
    match last_dot(name, name.len() as int) {
        Some(d) => if d > 0 {
            Some(name.subrange(d + 1, name.len() as int))
        } else {
            None
        },
        None => None,
    }
}

/// The language of files with extension `e`.
#[verifier::opaque]
pub open spec fn type_of_extension(e: Seq<u8>) -> Option<FileType> {
    if e == "bash".spec_bytes() {
        Some(FileType::Bash)
    } else if e == "c".spec_bytes() || e == "h".spec_bytes() {
        Some(FileType::C)
    } else if e == "cs".spec_bytes() {
        Some(FileType::Csharp)
    } else if e == "css".spec_bytes() {
        Some(FileType::Css)
    } else if e == "cc".spec_bytes() || e == "cpp".spec_bytes() || e == "cxx".spec_bytes() || e
        == "hh".spec_bytes() || e == "hpp".spec_bytes() || e == "hxx".spec_bytes() {
        Some(FileType::Cpp)
    } else if e == "dockerfile".spec_bytes() {
        Some(FileType::Dockerfile)
    } else if e == "go".spec_bytes() {
        Some(FileType::Go)
    } else if e == "html".spec_bytes() || e == "htm".spec_bytes() {
        Some(FileType::Html)
    } else if e == "java".spec_bytes() {
        Some(FileType::Java)
    } else if e == "js".spec_bytes() || e == "jsx".spec_bytes() {
        Some(FileType::JavaScript)
    } else if e == "kt".spec_bytes() || e == "kts".spec_bytes() {
        Some(FileType::Kotlin)
    } else if e == "ksh".spec_bytes() {
        Some(FileType::Ksh)
    } else if e == "less".spec_bytes() {
        Some(FileType::Less)
    } else if e == "md".spec_bytes() {
        Some(FileType::Markdown)
    } else if e == "mk".spec_bytes() {
        Some(FileType::Makefile)
    } else if e == "php".spec_bytes() {
        Some(FileType::Php)
    } else if e == "proto".spec_bytes() {
        Some(FileType::Protobuf)
    } else if e == "rb".spec_bytes() {
        Some(FileType::Ruby)
    } else if e == "py".spec_bytes() {
        Some(FileType::Python)
    } else if e == "rs".spec_bytes() {
        Some(FileType::Rust)
    } else if e == "scss".spec_bytes() {
        Some(FileType::Scss)
    } else if e == "sql".spec_bytes() {
        Some(FileType::Sql)
    } else if e == "sh".spec_bytes() {
        Some(FileType::Sh)
    } else if e == "swift".spec_bytes() {
        Some(FileType::Swift)
    } else if e == "tdz".spec_bytes() {
        Some(FileType::Todoozy)
    } else if e == "tf".spec_bytes() {
        Some(FileType::Terraform)
    } else if e == "ts".spec_bytes() || e == "tsx".spec_bytes() {
        Some(FileType::Typescript)
    } else if e == "yaml".spec_bytes() || e == "yml".spec_bytes() {
        Some(FileType::YAML)
    } else if e == "zsh".spec_bytes() {
        Some(FileType::Zsh)
    } else {
        None
    }
}

/// The language of files named `n` whatever their extension.
#[verifier::opaque]
pub open spec fn type_of_file_name(n: Seq<u8>) -> Option<FileType> {
    if n == "Dockerfile".spec_bytes() {
        Some(FileType::Dockerfile)
    } else if n == "Makefile".spec_bytes() || n == "makefile".spec_bytes() || n
        == "GNUmakefile".spec_bytes() {
        Some(FileType::Makefile)
    } else if n == ".tdz".spec_bytes() {
        Some(FileType::Todoozy)
    } else {
        None
    }
}

/// The language of the file at path `p`: by its extension, or else by its name.
pub open spec fn type_of_path(p: Seq<u8>) -> Option<FileType> {
    match file_name(p) {
        None => None,
        Some(n) => match extension(n) {
            Some(e) if type_of_extension(e) is Some => type_of_extension(e),
            _ => type_of_file_name(n),
        },
    }
}

/// Returns whether `a` and `b` hold the same bytes.
fn bytes_eq(a: &[u8], b: &[u8]) -> (r: bool)
    ensures
        r == (a@ == b@),
{
    if a.len() != b.len() {
        return false;
    }
    let r = starts_with_at(a, 0, b);
    assert(a@.subrange(0, b@.len() as int) =~= a@);
    r
}

/// Returns the bounds of the file name of `p` (see [`name_bounds`]).
fn find_name(p: &[u8]) -> (r: Option<(usize, usize)>)
    ensures
        match r {
            Some((s, e)) => name_bounds(p@, p@.len() as int) == Some((s as int, e as int)) && s
                <= e <= p@.len(),
            None => name_bounds(p@, p@.len() as int) is None,
        },
{
    let mut end = p.len();
    loop
        invariant
            end <= p@.len(),
            name_bounds(p@, p@.len() as int) == name_bounds(p@, end as int),
        decreases end,
    {
        if end == 0 {
            return None;
        }
        let mut s = end;
        proof {
            lemma_piece_start(p@, end as int);
        }
        while s > 0 && p[s - 1] != 47u8
            invariant
                s <= end <= p@.len(),
                piece_start(p@, end as int) == piece_start(p@, s as int),
            decreases s,
        {
            s = s - 1;
        }
        let piece = &p[s..end];
        let dot: [u8; 1] = [46u8];
        let dots: [u8; 2] = [46u8, 46u8];
        assert(dot@ =~= seq![46u8]);
        assert(dots@ =~= seq![46u8, 46u8]);
        if piece.len() == 0 || bytes_eq(piece, &dot) {
            if s == 0 {
                return None;
            }
            end = s - 1;
        } else if bytes_eq(piece, &dots) {
            return None;
        } else {
            return Some((s, end));
        }
    }
}

/// Returns the extension of file name `name` (see [`extension`]).
fn find_extension(name: &[u8]) -> (r: Option<&[u8]>)
    ensures
        match extension(name@) {
            Some(e) => r matches Some(x) && x@ == e,
            None => r is None,
        },
{
    let mut end = name.len();
    while end > 0 && name[end - 1] != 46u8
        invariant
            end <= name@.len(),
            last_dot(name@, name@.len() as int) == last_dot(name@, end as int),
        decreases end,
    {
        end = end - 1;
    }
    if end == 0 {
        return None;
    }
    let d = end - 1;
    if d > 0 {
        Some(&name[d + 1..name.len()])
    } else {
        None
    }
}

/// Returns the language of files with extension `e`.
fn extension_type(e: &[u8]) -> (r: Option<FileType>)
    ensures
        r == type_of_extension(e@),
{
    reveal(type_of_extension);
    if bytes_eq(e, "bash".as_bytes()) {
        Some(FileType::Bash)
    } else if bytes_eq(e, "c".as_bytes()) || bytes_eq(e, "h".as_bytes()) {
        Some(FileType::C)
    } else if bytes_eq(e, "cs".as_bytes()) {
        Some(FileType::Csharp)
    } else if bytes_eq(e, "css".as_bytes()) {
        Some(FileType::Css)
    } else if bytes_eq(e, "cc".as_bytes()) || bytes_eq(e, "cpp".as_bytes()) || bytes_eq(
        e,
        "cxx".as_bytes(),
    ) || bytes_eq(e, "hh".as_bytes()) || bytes_eq(e, "hpp".as_bytes()) || bytes_eq(
        e,
        "hxx".as_bytes(),
    ) {
        Some(FileType::Cpp)
    } else if bytes_eq(e, "dockerfile".as_bytes()) {
        Some(FileType::Dockerfile)
    } else if bytes_eq(e, "go".as_bytes()) {
        Some(FileType::Go)
    } else if bytes_eq(e, "html".as_bytes()) || bytes_eq(e, "htm".as_bytes()) {
        Some(FileType::Html)
    } else if bytes_eq(e, "java".as_bytes()) {
        Some(FileType::Java)
    } else if bytes_eq(e, "js".as_bytes()) || bytes_eq(e, "jsx".as_bytes()) {
        Some(FileType::JavaScript)
    } else if bytes_eq(e, "kt".as_bytes()) || bytes_eq(e, "kts".as_bytes()) {
        Some(FileType::Kotlin)
    } else if bytes_eq(e, "ksh".as_bytes()) {
        Some(FileType::Ksh)
    } else if bytes_eq(e, "less".as_bytes()) {
        Some(FileType::Less)
    } else if bytes_eq(e, "md".as_bytes()) {
        Some(FileType::Markdown)
    } else if bytes_eq(e, "mk".as_bytes()) {
        Some(FileType::Makefile)
    } else if bytes_eq(e, "php".as_bytes()) {
        Some(FileType::Php)
    } else if bytes_eq(e, "proto".as_bytes()) {
        Some(FileType::Protobuf)
    } else if bytes_eq(e, "rb".as_bytes()) {
        Some(FileType::Ruby)
    } else if bytes_eq(e, "py".as_bytes()) {
        Some(FileType::Python)
    } else if bytes_eq(e, "rs".as_bytes()) {
        Some(FileType::Rust)
    } else if bytes_eq(e, "scss".as_bytes()) {
        Some(FileType::Scss)
    } else if bytes_eq(e, "sql".as_bytes()) {
        Some(FileType::Sql)
    } else if bytes_eq(e, "sh".as_bytes()) {
        Some(FileType::Sh)
    } else if bytes_eq(e, "swift".as_bytes()) {
        Some(FileType::Swift)
    } else if bytes_eq(e, "tdz".as_bytes()) {
        Some(FileType::Todoozy)
    } else if bytes_eq(e, "tf".as_bytes()) {
        Some(FileType::Terraform)
    } else if bytes_eq(e, "ts".as_bytes()) || bytes_eq(e, "tsx".as_bytes()) {
        Some(FileType::Typescript)
    } else if bytes_eq(e, "yaml".as_bytes()) || bytes_eq(e, "yml".as_bytes()) {
        Some(FileType::YAML)
    } else if bytes_eq(e, "zsh".as_bytes()) {
        Some(FileType::Zsh)
    } else {
        None
    }
}

/// Returns the language of files named `n`.
fn file_name_type(n: &[u8]) -> (r: Option<FileType>)
    ensures
        r == type_of_file_name(n@),
{
    reveal(type_of_file_name);
    if bytes_eq(n, "Dockerfile".as_bytes()) {
        Some(FileType::Dockerfile)
    } else if bytes_eq(n, "Makefile".as_bytes()) || bytes_eq(n, "makefile".as_bytes())
        || bytes_eq(n, "GNUmakefile".as_bytes()) {
        Some(FileType::Makefile)
    } else if bytes_eq(n, ".tdz".as_bytes()) {
        Some(FileType::Todoozy)
    } else {
        None
    }
}

/// The language of the file at `filename`, from its extension or else its name.
pub fn get_filetype(filename: &str) -> (r: Option<FileType>)
    ensures
        r == type_of_path(filename.spec_bytes()),
{
    let p = filename.as_bytes();
    let (s, e) = match find_name(p) {
        None => {
            return None;
        },
        Some(b) => b,
    };
    let name = &p[s..e];
    match find_extension(name) {
        Some(ext) => match extension_type(ext) {
            Some(t) => {
                return Some(t);
            },
            None => {},
        },
        None => {},
    }
    file_name_type(name)
}

/// The language a script's first line `line` names after `#!`: bash, zsh, ksh or sh.
pub open spec fn type_of_shebang(line: Seq<u8>) -> Option<FileType> {
    if !starts_at(line, 0, "#!".spec_bytes()) {
        None
    } else if find_from(line, "bash".spec_bytes(), 0) is Some {
        Some(FileType::Bash)
    } else if find_from(line, "zsh".spec_bytes(), 0) is Some {
        Some(FileType::Zsh)
    } else if find_from(line, "ksh".spec_bytes(), 0) is Some {
        Some(FileType::Ksh)
    } else if find_from(line, "/sh".spec_bytes(), 0) is Some || ends_with(line, " sh\n".spec_bytes())
        || ends_with(line, " sh".spec_bytes()) {
        Some(FileType::Sh)
    } else {
        None
    }
}

/// `t` ends with `suffix`.
pub open spec fn ends_with(t: Seq<u8>, suffix: Seq<u8>) -> bool {
    suffix.len() <= t.len() && t.subrange(t.len() - suffix.len(), t.len() as int) == suffix
}

/// Returns whether `t` ends with `suffix`.
fn has_suffix(t: &[u8], suffix: &[u8]) -> (r: bool)
    ensures
        r == ends_with(t@, suffix@),
{
    if suffix.len() > t.len() {
        return false;
    }
    let r = starts_with_at(t, t.len() - suffix.len(), suffix);
    r
}

/// The language of a script from its first line `first_line` (with its newline, if it
/// has one), for files whose name tells nothing.
pub fn filetype_from_shebang(first_line: &str) -> (r: Option<FileType>)
    ensures
        r == type_of_shebang(first_line.spec_bytes()),
{
    let l = first_line.as_bytes();
    if !starts_with_at(l, 0, "#!".as_bytes()) {
        None
    } else if find_bytes(l, "bash".as_bytes(), 0).is_some() {
        Some(FileType::Bash)
    } else if find_bytes(l, "zsh".as_bytes(), 0).is_some() {
        Some(FileType::Zsh)
    } else if find_bytes(l, "ksh".as_bytes(), 0).is_some() {
        Some(FileType::Ksh)
    } else if find_bytes(l, "/sh".as_bytes(), 0).is_some() || has_suffix(l, " sh\n".as_bytes())
        || has_suffix(l, " sh".as_bytes()) {
        Some(FileType::Sh)
    } else {
        None
    }
}

impl FileType {
    /// Glob patterns for the files of every supported language, to select the files of
    /// a diff.
    pub fn supported_pathspecs() -> (r: Vec<&'static str>)
        ensures
            r@ == pathspec_list(),
    {
        vec![
            "*.bash", "*.c", "*.cc", "*.cs", "*.css", "*.cpp", "*.cxx", "*.dockerfile", "*.go",
            "*.h", "*.hh", "*.hpp", "*.htm", "*.html", "*.hxx", "*.java", "*.js", "*.jsx",
            "*.kt", "*.ksh", "*.kts", "*.less", "*.md", "*.mk", "*.php", "*.proto", "*.rb",
            "*.py", "*.rs", "*.scss", "*.sql", "*.sh", "*.swift", "*.tdz", "*.tf", "*.ts",
            "*.tsx", "*.yaml", "*.yml", "*.zsh", "Dockerfile", "Makefile", "makefile",
            "GNUmakefile", ".tdz",
        ]
    }
}

/// Where a walk over source files starts and what it leaves out.
pub struct WalkConfig {
    root: String,
    exclude: Option<Vec<String>>,
}

/// Copies of the strings `ss`.
pub(crate) fn clone_strings(ss: &[String]) -> (r: Vec<String>)
    ensures
        string_views(r@) == string_views(ss@),
{
    let mut out: Vec<String> = Vec::new();
    let mut i: usize = 0;
    while i < ss.len()
        invariant
            i <= ss@.len(),
            string_views(out@) == string_views(ss@.subrange(0, i as int)),
        decreases ss@.len() - i,
    {
        let s = ss[i].clone();
        proof {
            let a = string_views(out@.push(s));
            let b = string_views(ss@.subrange(0, i + 1));
            assert(string_views(out@).len() == out@.len());
            assert forall|k: int| 0 <= k < a.len() implies a[k] == b[k] by {
                if k < i {
                    assert(string_views(out@)[k] == string_views(ss@.subrange(0, i as int))[k]);
                }
            }
            assert(a =~= b);
        }
        out.push(s);
        i = i + 1;
    }
    assert(ss@.subrange(0, ss@.len() as int) =~= ss@);
    out
}

impl WalkConfig {
    /// The directory the walk starts from.
    pub closed spec fn spec_root(&self) -> Seq<char> {
        self.root@
    }

    /// The patterns of the paths to leave out, if any.
    pub closed spec fn spec_exclude(&self) -> Option<Seq<Seq<char>>> {
        match self.exclude {
            Some(x) => Some(string_views(x@)),
            None => None,
        }
    }

    /// A walk from directory `root` that leaves out the paths matching `exclude`.
    pub fn new(root: &str, exclude: Option<&[String]>) -> (r: Self)
        ensures
            r.spec_root() == root@,
            r.spec_exclude() == match exclude {
                Some(e) => Some(string_views(e@)),
                None => None,
            },
    {
        let excluded = match exclude {
            Some(e) => Some(clone_strings(e)),
            None => None,
        };
        WalkConfig { root: root.to_owned(), exclude: excluded }
    }

    /// The directory the walk starts from.
    pub fn root(&self) -> (r: &String)
        ensures
            r@ == self.spec_root(),
    {
        &self.root
    }

    /// The patterns of the paths to leave out, if any.
    pub fn exclude(&self) -> (r: &Option<Vec<String>>)
        ensures
            self.spec_exclude() == match r {
                Some(x) => Some(string_views(x@)),
                None => None,
            },
    {
        &self.exclude
    }
}

} // verus!
