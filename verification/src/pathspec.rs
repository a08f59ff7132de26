//! The pathspecs that select the files of the supported languages, and the file types
//! they stand for.
use vstd::prelude::*;
use vstd::string::StringSliceAdditionalSpecFns;
use vstd::utf8::encode_utf8;
use crate::fs::{extension, file_name, type_of_extension, type_of_file_name, type_of_path};

verus! {

/// The pathspecs of the supported languages (what `FileType::supported_pathspecs`
/// returns).
pub open spec fn pathspec_list() -> Seq<&'static str> {
    seq![
        "*.bash",
        "*.c",
        "*.cc",
        "*.cs",
        "*.css",
        "*.cpp",
        "*.cxx",
        "*.dockerfile",
        "*.go",
        "*.h",
        "*.hh",
        "*.hpp",
        "*.htm",
        "*.html",
        "*.hxx",
        "*.java",
        "*.js",
        "*.jsx",
        "*.kt",
        "*.ksh",
        "*.kts",
        "*.less",
        "*.md",
        "*.mk",
        "*.php",
        "*.proto",
        "*.rb",
        "*.py",
        "*.rs",
        "*.scss",
        "*.sql",
        "*.sh",
        "*.swift",
        "*.tdz",
        "*.tf",
        "*.ts",
        "*.tsx",
        "*.yaml",
        "*.yml",
        "*.zsh",
        "Dockerfile",
        "Makefile",
        "makefile",
        "GNUmakefile",
        ".tdz",
    ]
}

/// The extension `x` that a pathspec `*.x` selects; none for a pathspec naming a whole
/// file.
pub open spec fn pathspec_extension(s: Seq<char>) -> Option<Seq<char>> {
    if s.len() >= 2 && s[0] == '*' && s[1] == '.' {
        Some(s.subrange(2, s.len() as int))
    } else {
        None
    }
}

/// Some pathspec selects the extension `e` (UTF-8 bytes).
pub open spec fn extension_selected(e: Seq<u8>) -> bool {
    exists|i: int|
        0 <= i < pathspec_list().len() && (#[trigger] pathspec_extension(pathspec_list()[i]@)) is Some
            && encode_utf8(pathspec_extension(pathspec_list()[i]@).unwrap()) == e
}

/// Some pathspec names the file `n` (UTF-8 bytes).
pub open spec fn name_selected(n: Seq<u8>) -> bool {
    exists|i: int|
        0 <= i < pathspec_list().len() && #[trigger] pathspec_extension(pathspec_list()[i]@) is None
            && encode_utf8(pathspec_list()[i]@) == n
}

/// The pathspecs and the file types agree: every pathspec selects files whose type is
/// known, by extension or by name, and every file whose type is known is selected by a
/// pathspec, through its extension or its name.
pub proof fn law_pathspecs_cover_file_types()
    ensures
        forall|i: int|
            0 <= i < pathspec_list().len() ==> match #[trigger] pathspec_extension(pathspec_list()[i]@) {
                Some(x) => type_of_extension(encode_utf8(x)) is Some,
                None => type_of_file_name(encode_utf8(pathspec_list()[i]@)) is Some,
            },
        forall|e: Seq<u8>| #[trigger] type_of_extension(e) is Some ==> extension_selected(e),
        forall|n: Seq<u8>| #[trigger] type_of_file_name(n) is Some ==> name_selected(n),
        forall|p: Seq<u8>|
            #[trigger] type_of_path(p) is Some ==> file_name(p) is Some && ((extension(
                file_name(p).unwrap(),
            ) is Some && extension_selected(extension(file_name(p).unwrap()).unwrap())) || name_selected(
                file_name(p).unwrap(),
            )),
{
    reveal_strlit("*.bash");
    reveal_strlit("*.c");
    reveal_strlit("*.cc");
    reveal_strlit("*.cpp");
    reveal_strlit("*.cs");
    reveal_strlit("*.css");
    reveal_strlit("*.cxx");
    reveal_strlit("*.dockerfile");
    reveal_strlit("*.go");
    reveal_strlit("*.h");
    reveal_strlit("*.hh");
    reveal_strlit("*.hpp");
    reveal_strlit("*.htm");
    reveal_strlit("*.html");
    reveal_strlit("*.hxx");
    reveal_strlit("*.java");
    reveal_strlit("*.js");
    reveal_strlit("*.jsx");
    reveal_strlit("*.ksh");
    reveal_strlit("*.kt");
    reveal_strlit("*.kts");
    reveal_strlit("*.less");
    reveal_strlit("*.md");
    reveal_strlit("*.mk");
    reveal_strlit("*.php");
    reveal_strlit("*.proto");
    reveal_strlit("*.py");
    reveal_strlit("*.rb");
    reveal_strlit("*.rs");
    reveal_strlit("*.scss");
    reveal_strlit("*.sh");
    reveal_strlit("*.sql");
    reveal_strlit("*.swift");
    reveal_strlit("*.tdz");
    reveal_strlit("*.tf");
    reveal_strlit("*.ts");
    reveal_strlit("*.tsx");
    reveal_strlit("*.yaml");
    reveal_strlit("*.yml");
    reveal_strlit("*.zsh");
    reveal_strlit(".tdz");
    reveal_strlit("Dockerfile");
    reveal_strlit("GNUmakefile");
    reveal_strlit("Makefile");
    reveal_strlit("bash");
    reveal_strlit("c");
    reveal_strlit("cc");
    reveal_strlit("cpp");
    reveal_strlit("cs");
    reveal_strlit("css");
    reveal_strlit("cxx");
    reveal_strlit("dockerfile");
    reveal_strlit("go");
    reveal_strlit("h");
    reveal_strlit("hh");
    reveal_strlit("hpp");
    reveal_strlit("htm");
    reveal_strlit("html");
    reveal_strlit("hxx");
    reveal_strlit("java");
    reveal_strlit("js");
    reveal_strlit("jsx");
    reveal_strlit("ksh");
    reveal_strlit("kt");
    reveal_strlit("kts");
    reveal_strlit("less");
    reveal_strlit("makefile");
    reveal_strlit("md");
    reveal_strlit("mk");
    reveal_strlit("php");
    reveal_strlit("proto");
    reveal_strlit("py");
    reveal_strlit("rb");
    reveal_strlit("rs");
    reveal_strlit("scss");
    reveal_strlit("sh");
    reveal_strlit("sql");
    reveal_strlit("swift");
    reveal_strlit("tdz");
    reveal_strlit("tf");
    reveal_strlit("ts");
    reveal_strlit("tsx");
    reveal_strlit("yaml");
    reveal_strlit("yml");
    reveal_strlit("zsh");
    reveal(type_of_extension);
    reveal(type_of_file_name);
    assert forall|i: int| 0 <= i < pathspec_list().len() implies match #[trigger] pathspec_extension(
        pathspec_list()[i]@,
    ) {
        Some(x) => type_of_extension(encode_utf8(x)) is Some,
        None => type_of_file_name(encode_utf8(pathspec_list()[i]@)) is Some,
    } by {
        if i == 0 {
            assert(pathspec_list()[0]@.subrange(2, 6) =~= "bash"@);
        } else if i == 1 {
            assert(pathspec_list()[1]@.subrange(2, 3) =~= "c"@);
        } else if i == 2 {
            assert(pathspec_list()[2]@.subrange(2, 4) =~= "cc"@);
        } else if i == 3 {
            assert(pathspec_list()[3]@.subrange(2, 4) =~= "cs"@);
        } else if i == 4 {
            assert(pathspec_list()[4]@.subrange(2, 5) =~= "css"@);
        } else if i == 5 {
            assert(pathspec_list()[5]@.subrange(2, 5) =~= "cpp"@);
        } else if i == 6 {
            assert(pathspec_list()[6]@.subrange(2, 5) =~= "cxx"@);
        } else if i == 7 {
            assert(pathspec_list()[7]@.subrange(2, 12) =~= "dockerfile"@);
        } else if i == 8 {
            assert(pathspec_list()[8]@.subrange(2, 4) =~= "go"@);
        } else if i == 9 {
            assert(pathspec_list()[9]@.subrange(2, 3) =~= "h"@);
        } else if i == 10 {
            assert(pathspec_list()[10]@.subrange(2, 4) =~= "hh"@);
        } else if i == 11 {
            assert(pathspec_list()[11]@.subrange(2, 5) =~= "hpp"@);
        } else if i == 12 {
            assert(pathspec_list()[12]@.subrange(2, 5) =~= "htm"@);
        } else if i == 13 {
            assert(pathspec_list()[13]@.subrange(2, 6) =~= "html"@);
        } else if i == 14 {
            assert(pathspec_list()[14]@.subrange(2, 5) =~= "hxx"@);
        } else if i == 15 {
            assert(pathspec_list()[15]@.subrange(2, 6) =~= "java"@);
        } else if i == 16 {
            assert(pathspec_list()[16]@.subrange(2, 4) =~= "js"@);
        } else if i == 17 {
            assert(pathspec_list()[17]@.subrange(2, 5) =~= "jsx"@);
        } else if i == 18 {
            assert(pathspec_list()[18]@.subrange(2, 4) =~= "kt"@);
        } else if i == 19 {
            assert(pathspec_list()[19]@.subrange(2, 5) =~= "ksh"@);
        } else if i == 20 {
            assert(pathspec_list()[20]@.subrange(2, 5) =~= "kts"@);
        } else if i == 21 {
            assert(pathspec_list()[21]@.subrange(2, 6) =~= "less"@);
        } else if i == 22 {
            assert(pathspec_list()[22]@.subrange(2, 4) =~= "md"@);
        } else if i == 23 {
            assert(pathspec_list()[23]@.subrange(2, 4) =~= "mk"@);
        } else if i == 24 {
            assert(pathspec_list()[24]@.subrange(2, 5) =~= "php"@);
        } else if i == 25 {
            assert(pathspec_list()[25]@.subrange(2, 7) =~= "proto"@);
        } else if i == 26 {
            assert(pathspec_list()[26]@.subrange(2, 4) =~= "rb"@);
        } else if i == 27 {
            assert(pathspec_list()[27]@.subrange(2, 4) =~= "py"@);
        } else if i == 28 {
            assert(pathspec_list()[28]@.subrange(2, 4) =~= "rs"@);
        } else if i == 29 {
            assert(pathspec_list()[29]@.subrange(2, 6) =~= "scss"@);
        } else if i == 30 {
            assert(pathspec_list()[30]@.subrange(2, 5) =~= "sql"@);
        } else if i == 31 {
            assert(pathspec_list()[31]@.subrange(2, 4) =~= "sh"@);
        } else if i == 32 {
            assert(pathspec_list()[32]@.subrange(2, 7) =~= "swift"@);
        } else if i == 33 {
            assert(pathspec_list()[33]@.subrange(2, 5) =~= "tdz"@);
        } else if i == 34 {
            assert(pathspec_list()[34]@.subrange(2, 4) =~= "tf"@);
        } else if i == 35 {
            assert(pathspec_list()[35]@.subrange(2, 4) =~= "ts"@);
        } else if i == 36 {
            assert(pathspec_list()[36]@.subrange(2, 5) =~= "tsx"@);
        } else if i == 37 {
            assert(pathspec_list()[37]@.subrange(2, 6) =~= "yaml"@);
        } else if i == 38 {
            assert(pathspec_list()[38]@.subrange(2, 5) =~= "yml"@);
        } else if i == 39 {
            assert(pathspec_list()[39]@.subrange(2, 5) =~= "zsh"@);
        } else if i == 40 {
            assert(pathspec_extension(pathspec_list()[40]@) is None);
        } else if i == 41 {
            assert(pathspec_extension(pathspec_list()[41]@) is None);
        } else if i == 42 {
            assert(pathspec_extension(pathspec_list()[42]@) is None);
        } else if i == 43 {
            assert(pathspec_extension(pathspec_list()[43]@) is None);
        } else if i == 44 {
            assert(pathspec_extension(pathspec_list()[44]@) is None);
        }
    }
    assert forall|e: Seq<u8>| #[trigger] type_of_extension(e) is Some implies extension_selected(e) by {
        if e == "bash".spec_bytes() {
            assert(pathspec_list()[0]@.subrange(2, 6) =~= "bash"@);
            assert(pathspec_extension(pathspec_list()[0]@) == Some("bash"@));
        } else if e == "c".spec_bytes() {
            assert(pathspec_list()[1]@.subrange(2, 3) =~= "c"@);
            assert(pathspec_extension(pathspec_list()[1]@) == Some("c"@));
        } else if e == "cc".spec_bytes() {
            assert(pathspec_list()[2]@.subrange(2, 4) =~= "cc"@);
            assert(pathspec_extension(pathspec_list()[2]@) == Some("cc"@));
        } else if e == "cs".spec_bytes() {
            assert(pathspec_list()[3]@.subrange(2, 4) =~= "cs"@);
            assert(pathspec_extension(pathspec_list()[3]@) == Some("cs"@));
        } else if e == "css".spec_bytes() {
            assert(pathspec_list()[4]@.subrange(2, 5) =~= "css"@);
            assert(pathspec_extension(pathspec_list()[4]@) == Some("css"@));
        } else if e == "cpp".spec_bytes() {
            assert(pathspec_list()[5]@.subrange(2, 5) =~= "cpp"@);
            assert(pathspec_extension(pathspec_list()[5]@) == Some("cpp"@));
        } else if e == "cxx".spec_bytes() {
            assert(pathspec_list()[6]@.subrange(2, 5) =~= "cxx"@);
            assert(pathspec_extension(pathspec_list()[6]@) == Some("cxx"@));
        } else if e == "dockerfile".spec_bytes() {
            assert(pathspec_list()[7]@.subrange(2, 12) =~= "dockerfile"@);
            assert(pathspec_extension(pathspec_list()[7]@) == Some("dockerfile"@));
        } else if e == "go".spec_bytes() {
            assert(pathspec_list()[8]@.subrange(2, 4) =~= "go"@);
            assert(pathspec_extension(pathspec_list()[8]@) == Some("go"@));
        } else if e == "h".spec_bytes() {
            assert(pathspec_list()[9]@.subrange(2, 3) =~= "h"@);
            assert(pathspec_extension(pathspec_list()[9]@) == Some("h"@));
        } else if e == "hh".spec_bytes() {
            assert(pathspec_list()[10]@.subrange(2, 4) =~= "hh"@);
            assert(pathspec_extension(pathspec_list()[10]@) == Some("hh"@));
        } else if e == "hpp".spec_bytes() {
            assert(pathspec_list()[11]@.subrange(2, 5) =~= "hpp"@);
            assert(pathspec_extension(pathspec_list()[11]@) == Some("hpp"@));
        } else if e == "htm".spec_bytes() {
            assert(pathspec_list()[12]@.subrange(2, 5) =~= "htm"@);
            assert(pathspec_extension(pathspec_list()[12]@) == Some("htm"@));
        } else if e == "html".spec_bytes() {
            assert(pathspec_list()[13]@.subrange(2, 6) =~= "html"@);
            assert(pathspec_extension(pathspec_list()[13]@) == Some("html"@));
        } else if e == "hxx".spec_bytes() {
            assert(pathspec_list()[14]@.subrange(2, 5) =~= "hxx"@);
            assert(pathspec_extension(pathspec_list()[14]@) == Some("hxx"@));
        } else if e == "java".spec_bytes() {
            assert(pathspec_list()[15]@.subrange(2, 6) =~= "java"@);
            assert(pathspec_extension(pathspec_list()[15]@) == Some("java"@));
        } else if e == "js".spec_bytes() {
            assert(pathspec_list()[16]@.subrange(2, 4) =~= "js"@);
            assert(pathspec_extension(pathspec_list()[16]@) == Some("js"@));
        } else if e == "jsx".spec_bytes() {
            assert(pathspec_list()[17]@.subrange(2, 5) =~= "jsx"@);
            assert(pathspec_extension(pathspec_list()[17]@) == Some("jsx"@));
        } else if e == "kt".spec_bytes() {
            assert(pathspec_list()[18]@.subrange(2, 4) =~= "kt"@);
            assert(pathspec_extension(pathspec_list()[18]@) == Some("kt"@));
        } else if e == "ksh".spec_bytes() {
            assert(pathspec_list()[19]@.subrange(2, 5) =~= "ksh"@);
            assert(pathspec_extension(pathspec_list()[19]@) == Some("ksh"@));
        } else if e == "kts".spec_bytes() {
            assert(pathspec_list()[20]@.subrange(2, 5) =~= "kts"@);
            assert(pathspec_extension(pathspec_list()[20]@) == Some("kts"@));
        } else if e == "less".spec_bytes() {
            assert(pathspec_list()[21]@.subrange(2, 6) =~= "less"@);
            assert(pathspec_extension(pathspec_list()[21]@) == Some("less"@));
        } else if e == "md".spec_bytes() {
            assert(pathspec_list()[22]@.subrange(2, 4) =~= "md"@);
            assert(pathspec_extension(pathspec_list()[22]@) == Some("md"@));
        } else if e == "mk".spec_bytes() {
            assert(pathspec_list()[23]@.subrange(2, 4) =~= "mk"@);
            assert(pathspec_extension(pathspec_list()[23]@) == Some("mk"@));
        } else if e == "php".spec_bytes() {
            assert(pathspec_list()[24]@.subrange(2, 5) =~= "php"@);
            assert(pathspec_extension(pathspec_list()[24]@) == Some("php"@));
        } else if e == "proto".spec_bytes() {
            assert(pathspec_list()[25]@.subrange(2, 7) =~= "proto"@);
            assert(pathspec_extension(pathspec_list()[25]@) == Some("proto"@));
        } else if e == "rb".spec_bytes() {
            assert(pathspec_list()[26]@.subrange(2, 4) =~= "rb"@);
            assert(pathspec_extension(pathspec_list()[26]@) == Some("rb"@));
        } else if e == "py".spec_bytes() {
            assert(pathspec_list()[27]@.subrange(2, 4) =~= "py"@);
            assert(pathspec_extension(pathspec_list()[27]@) == Some("py"@));
        } else if e == "rs".spec_bytes() {
            assert(pathspec_list()[28]@.subrange(2, 4) =~= "rs"@);
            assert(pathspec_extension(pathspec_list()[28]@) == Some("rs"@));
        } else if e == "scss".spec_bytes() {
            assert(pathspec_list()[29]@.subrange(2, 6) =~= "scss"@);
            assert(pathspec_extension(pathspec_list()[29]@) == Some("scss"@));
        } else if e == "sql".spec_bytes() {
            assert(pathspec_list()[30]@.subrange(2, 5) =~= "sql"@);
            assert(pathspec_extension(pathspec_list()[30]@) == Some("sql"@));
        } else if e == "sh".spec_bytes() {
            assert(pathspec_list()[31]@.subrange(2, 4) =~= "sh"@);
            assert(pathspec_extension(pathspec_list()[31]@) == Some("sh"@));
        } else if e == "swift".spec_bytes() {
            assert(pathspec_list()[32]@.subrange(2, 7) =~= "swift"@);
            assert(pathspec_extension(pathspec_list()[32]@) == Some("swift"@));
        } else if e == "tdz".spec_bytes() {
            assert(pathspec_list()[33]@.subrange(2, 5) =~= "tdz"@);
            assert(pathspec_extension(pathspec_list()[33]@) == Some("tdz"@));
        } else if e == "tf".spec_bytes() {
            assert(pathspec_list()[34]@.subrange(2, 4) =~= "tf"@);
            assert(pathspec_extension(pathspec_list()[34]@) == Some("tf"@));
        } else if e == "ts".spec_bytes() {
            assert(pathspec_list()[35]@.subrange(2, 4) =~= "ts"@);
            assert(pathspec_extension(pathspec_list()[35]@) == Some("ts"@));
        } else if e == "tsx".spec_bytes() {
            assert(pathspec_list()[36]@.subrange(2, 5) =~= "tsx"@);
            assert(pathspec_extension(pathspec_list()[36]@) == Some("tsx"@));
        } else if e == "yaml".spec_bytes() {
            assert(pathspec_list()[37]@.subrange(2, 6) =~= "yaml"@);
            assert(pathspec_extension(pathspec_list()[37]@) == Some("yaml"@));
        } else if e == "yml".spec_bytes() {
            assert(pathspec_list()[38]@.subrange(2, 5) =~= "yml"@);
            assert(pathspec_extension(pathspec_list()[38]@) == Some("yml"@));
        } else if e == "zsh".spec_bytes() {
            assert(pathspec_list()[39]@.subrange(2, 5) =~= "zsh"@);
            assert(pathspec_extension(pathspec_list()[39]@) == Some("zsh"@));
        }
    }
    assert forall|n: Seq<u8>| #[trigger] type_of_file_name(n) is Some implies name_selected(n) by {
        if n == "Dockerfile".spec_bytes() {
            assert(pathspec_extension(pathspec_list()[40]@) is None);
            assert(pathspec_list()[40]@ == "Dockerfile"@);
        } else if n == "Makefile".spec_bytes() {
            assert(pathspec_extension(pathspec_list()[41]@) is None);
            assert(pathspec_list()[41]@ == "Makefile"@);
        } else if n == "makefile".spec_bytes() {
            assert(pathspec_extension(pathspec_list()[42]@) is None);
            assert(pathspec_list()[42]@ == "makefile"@);
        } else if n == "GNUmakefile".spec_bytes() {
            assert(pathspec_extension(pathspec_list()[43]@) is None);
            assert(pathspec_list()[43]@ == "GNUmakefile"@);
        } else if n == ".tdz".spec_bytes() {
            assert(pathspec_extension(pathspec_list()[44]@) is None);
            assert(pathspec_list()[44]@ == ".tdz"@);
        }
    }
}

} // verus!
