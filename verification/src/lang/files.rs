//! Which syntax the TODOs of a file are read with, by the file's type.
use vstd::prelude::*;
use vstd::string::StringSliceAdditionalSpecFns;
use crate::fs::FileType;
use crate::text::max_text_len;
use super::{ParseError, RawTodo, SyntaxRule, comments_of, rules_wf};
use super::{c, cpp, csharp, css, dockerfile, go, html, kotlin, makefile, markdown, php,
    protobuf, python, ruby, rust, sh, sql, tdz, terraform, typescript, yaml};
use super::tdz::{marker_of, tdz_todos_from};
use super::todos::{Parser, RawParser, spec_views, todo_views, todos_from};

verus! {

/// The comment syntax of files of type `ft`; `None` for the types whose comments are
/// not read (Java and Swift) and for `.tdz` files, which have a reader of their own.
pub open spec fn rules_for(ft: FileType) -> Option<Seq<SyntaxRule>> {
    match ft {
        FileType::Bash | FileType::Ksh | FileType::Sh | FileType::Zsh => Some(
            sh::syntax_rule_seq(),
        ),
        FileType::C => Some(c::syntax_rule_seq()),
        FileType::Cpp => Some(cpp::syntax_rule_seq()),
        FileType::Csharp => Some(csharp::syntax_rule_seq()),
        FileType::Css => Some(css::css_rule_seq()),
        FileType::Less => Some(css::less_rule_seq()),
        FileType::Scss => Some(css::scss_rule_seq()),
        FileType::Dockerfile => Some(dockerfile::syntax_rule_seq()),
        FileType::Go => Some(go::syntax_rule_seq()),
        FileType::Html => Some(html::syntax_rule_seq()),
        FileType::JavaScript | FileType::Typescript => Some(typescript::syntax_rule_seq()),
        FileType::Kotlin => Some(kotlin::syntax_rule_seq()),
        FileType::Makefile => Some(makefile::syntax_rule_seq()),
        FileType::Markdown => Some(markdown::syntax_rule_seq()),
        FileType::Php => Some(php::syntax_rule_seq()),
        FileType::Protobuf => Some(protobuf::syntax_rule_seq()),
        FileType::Python => Some(python::syntax_rule_seq()),
        FileType::Ruby => Some(ruby::syntax_rule_seq()),
        FileType::Rust => Some(rust::syntax_rule_seq()),
        FileType::Sql => Some(sql::syntax_rule_seq()),
        FileType::Terraform => Some(terraform::syntax_rule_seq()),
        FileType::YAML => Some(yaml::syntax_rule_seq()),
        FileType::Java | FileType::Swift | FileType::Todoozy => None,
    }
}

/// Returns the comment syntax of files of type `ft` (see [`rules_for`]).
pub fn syntax_rules_for(ft: FileType) -> (r: Option<Vec<SyntaxRule>>)
    ensures
        match rules_for(ft) {
            Some(s) => r matches Some(v) && v@ == s && rules_wf(v@),
            None => r is None,
        },
{
    match ft {
        FileType::Bash | FileType::Ksh | FileType::Sh | FileType::Zsh => Some(sh::syntax_rules()),
        FileType::C => Some(c::syntax_rules()),
        FileType::Cpp => Some(cpp::syntax_rules()),
        FileType::Csharp => Some(csharp::syntax_rules()),
        FileType::Css => Some(css::css_rules()),
        FileType::Less => Some(css::less_rules()),
        FileType::Scss => Some(css::scss_rules()),
        FileType::Dockerfile => Some(dockerfile::syntax_rules()),
        FileType::Go => Some(go::syntax_rules()),
        FileType::Html => Some(html::syntax_rules()),
        FileType::JavaScript | FileType::Typescript => Some(typescript::syntax_rules()),
        FileType::Kotlin => Some(kotlin::syntax_rules()),
        FileType::Makefile => Some(makefile::syntax_rules()),
        FileType::Markdown => Some(markdown::syntax_rules()),
        FileType::Php => Some(php::syntax_rules()),
        FileType::Protobuf => Some(protobuf::syntax_rules()),
        FileType::Python => Some(python::syntax_rules()),
        FileType::Ruby => Some(ruby::syntax_rules()),
        FileType::Rust => Some(rust::syntax_rules()),
        FileType::Sql => Some(sql::syntax_rules()),
        FileType::Terraform => Some(terraform::syntax_rules()),
        FileType::YAML => Some(yaml::syntax_rules()),
        FileType::Java | FileType::Swift | FileType::Todoozy => None,
    }
}

/// The TODOs of the text of a file of type `ft`, introduced by `token`: `.tdz` files by
/// their headings, the other types by their comments (see [`Parser::try_parse`]), and
/// none for a type whose comments are not read.
pub fn todos_of_file(ft: FileType, token: &str, text: &[u8]) -> (r: Result<Vec<RawTodo>, ParseError>)
    requires
        text@.len() <= max_text_len(),
    ensures
        ft == FileType::Todoozy ==> (r matches Ok(v) && todo_views(v@) == spec_views(
            tdz_todos_from(text@, marker_of(token.spec_bytes()), 0, 1),
        )),
        ft != FileType::Todoozy ==> match rules_for(ft) {
            None => r matches Ok(v) && v@.len() == 0,
            Some(rules) => match comments_of(rules, text@) {
                None => r matches Err(ParseError::TruncatedBlockComment),
                Some(cs) => match todos_from(token.spec_bytes(), cs, 0, true) {
                    None => r matches Err(ParseError::SplitCharacter),
                    Some(ts) => r matches Ok(v) && todo_views(v@) == spec_views(ts),
                },
            },
        },
{
    if ft == FileType::Todoozy {
        let p = tdz::Parser::new(token);
        return Ok(p.parse(text));
    }
    match syntax_rules_for(ft) {
        Some(rules) => Parser::new(token, rules).try_parse(text),
        None => Ok(Vec::new()),
    }
}

/// Files of type `ft` are read with comment rule `r`.
pub open spec fn has_rule(ft: FileType, r: SyntaxRule) -> bool {
    match rules_for(ft) {
        Some(rs) => rs.contains(r),
        None => false,
    }
}

/// Each file type is read with its language's comments: `//` line comments and
/// `/* */` block comments in the C family (C, C++, C#, Go, JavaScript, TypeScript,
/// Kotlin, Rust, Protobuf, PHP, Terraform, SCSS and Less; CSS and SQL have block comments
/// too), `#` line comments in the shells, Python, Ruby, Makefiles, Dockerfiles, YAML,
/// PHP and Terraform, `--` in SQL, `<!-- -->` in HTML and Markdown; Go also skips its
/// backtick raw strings. Java, Swift and `.tdz` files are not read by comments.
pub proof fn law_file_types_read_their_comments()
    ensures
        has_rule(FileType::C, SyntaxRule::LineComment("//")),
        has_rule(FileType::Cpp, SyntaxRule::LineComment("//")),
        has_rule(FileType::Csharp, SyntaxRule::LineComment("//")),
        has_rule(FileType::Go, SyntaxRule::LineComment("//")),
        has_rule(FileType::JavaScript, SyntaxRule::LineComment("//")),
        has_rule(FileType::Typescript, SyntaxRule::LineComment("//")),
        has_rule(FileType::Kotlin, SyntaxRule::LineComment("//")),
        has_rule(FileType::Rust, SyntaxRule::LineComment("//")),
        has_rule(FileType::Scss, SyntaxRule::LineComment("//")),
        has_rule(FileType::Less, SyntaxRule::LineComment("//")),
        has_rule(FileType::Php, SyntaxRule::LineComment("//")),
        has_rule(FileType::Protobuf, SyntaxRule::LineComment("//")),
        has_rule(FileType::Terraform, SyntaxRule::LineComment("//")),
        has_rule(FileType::C, SyntaxRule::BlockComment("/*", "*/")),
        has_rule(FileType::Cpp, SyntaxRule::BlockComment("/*", "*/")),
        has_rule(FileType::Csharp, SyntaxRule::BlockComment("/*", "*/")),
        has_rule(FileType::Css, SyntaxRule::BlockComment("/*", "*/")),
        has_rule(FileType::Scss, SyntaxRule::BlockComment("/*", "*/")),
        has_rule(FileType::Less, SyntaxRule::BlockComment("/*", "*/")),
        has_rule(FileType::Go, SyntaxRule::BlockComment("/*", "*/")),
        has_rule(FileType::Kotlin, SyntaxRule::BlockComment("/*", "*/")),
        has_rule(FileType::Php, SyntaxRule::BlockComment("/*", "*/")),
        has_rule(FileType::Protobuf, SyntaxRule::BlockComment("/*", "*/")),
        has_rule(FileType::Rust, SyntaxRule::BlockComment("/*", "*/")),
        has_rule(FileType::Sql, SyntaxRule::BlockComment("/*", "*/")),
        has_rule(FileType::Terraform, SyntaxRule::BlockComment("/*", "*/")),
        has_rule(FileType::Typescript, SyntaxRule::BlockComment("/*", "*/")),
        has_rule(FileType::JavaScript, SyntaxRule::BlockComment("/*", "*/")),
        has_rule(FileType::Bash, SyntaxRule::LineComment("#")),
        has_rule(FileType::Ksh, SyntaxRule::LineComment("#")),
        has_rule(FileType::Sh, SyntaxRule::LineComment("#")),
        has_rule(FileType::Zsh, SyntaxRule::LineComment("#")),
        has_rule(FileType::Python, SyntaxRule::LineComment("#")),
        has_rule(FileType::Ruby, SyntaxRule::LineComment("#")),
        has_rule(FileType::Makefile, SyntaxRule::LineComment("#")),
        has_rule(FileType::Dockerfile, SyntaxRule::LineComment("#")),
        has_rule(FileType::YAML, SyntaxRule::LineComment("#")),
        has_rule(FileType::Php, SyntaxRule::LineComment("#")),
        has_rule(FileType::Terraform, SyntaxRule::LineComment("#")),
        has_rule(FileType::Sql, SyntaxRule::LineComment("--")),
        has_rule(FileType::Html, SyntaxRule::BlockComment("<!--", "-->")),
        has_rule(FileType::Markdown, SyntaxRule::BlockComment("<!--", "-->")),
        has_rule(FileType::Go, SyntaxRule::SkipDelimited("`", "`")),
        rules_for(FileType::Java) is None,
        rules_for(FileType::Swift) is None,
        rules_for(FileType::Todoozy) is None,
{
    assert(c::syntax_rule_seq()[0] == SyntaxRule::LineComment("//"));
    assert(c::syntax_rule_seq()[1] == SyntaxRule::BlockComment("/*", "*/"));
    assert(cpp::syntax_rule_seq()[0] == SyntaxRule::LineComment("//"));
    assert(cpp::syntax_rule_seq()[1] == SyntaxRule::BlockComment("/*", "*/"));
    assert(csharp::syntax_rule_seq()[0] == SyntaxRule::LineComment("//"));
    assert(csharp::syntax_rule_seq()[1] == SyntaxRule::BlockComment("/*", "*/"));
    assert(css::css_rule_seq()[0] == SyntaxRule::BlockComment("/*", "*/"));
    assert(css::less_rule_seq()[0] == SyntaxRule::LineComment("//"));
    assert(css::less_rule_seq()[1] == SyntaxRule::BlockComment("/*", "*/"));
    assert(css::scss_rule_seq()[0] == SyntaxRule::LineComment("//"));
    assert(css::scss_rule_seq()[1] == SyntaxRule::BlockComment("/*", "*/"));
    assert(dockerfile::syntax_rule_seq()[0] == SyntaxRule::LineComment("#"));
    assert(go::syntax_rule_seq()[0] == SyntaxRule::LineComment("//"));
    assert(go::syntax_rule_seq()[1] == SyntaxRule::BlockComment("/*", "*/"));
    assert(go::syntax_rule_seq()[2] == SyntaxRule::SkipDelimited("`", "`"));
    assert(html::syntax_rule_seq()[0] == SyntaxRule::BlockComment("<!--", "-->"));
    assert(kotlin::syntax_rule_seq()[0] == SyntaxRule::LineComment("//"));
    assert(kotlin::syntax_rule_seq()[1] == SyntaxRule::BlockComment("/*", "*/"));
    assert(makefile::syntax_rule_seq()[0] == SyntaxRule::LineComment("#"));
    assert(markdown::syntax_rule_seq()[0] == SyntaxRule::BlockComment("<!--", "-->"));
    assert(php::syntax_rule_seq()[0] == SyntaxRule::LineComment("//"));
    assert(php::syntax_rule_seq()[1] == SyntaxRule::LineComment("#"));
    assert(php::syntax_rule_seq()[2] == SyntaxRule::BlockComment("/*", "*/"));
    assert(protobuf::syntax_rule_seq()[0] == SyntaxRule::LineComment("//"));
    assert(protobuf::syntax_rule_seq()[1] == SyntaxRule::BlockComment("/*", "*/"));
    assert(python::syntax_rule_seq()[0] == SyntaxRule::LineComment("#"));
    assert(ruby::syntax_rule_seq()[0] == SyntaxRule::LineComment("#"));
    assert(rust::syntax_rule_seq()[2] == SyntaxRule::LineComment("//"));
    assert(rust::syntax_rule_seq()[3] == SyntaxRule::BlockComment("/*", "*/"));
    assert(sh::syntax_rule_seq()[0] == SyntaxRule::LineComment("#"));
    assert(sql::syntax_rule_seq()[0] == SyntaxRule::LineComment("--"));
    assert(sql::syntax_rule_seq()[1] == SyntaxRule::BlockComment("/*", "*/"));
    assert(terraform::syntax_rule_seq()[0] == SyntaxRule::LineComment("#"));
    assert(terraform::syntax_rule_seq()[1] == SyntaxRule::LineComment("//"));
    assert(terraform::syntax_rule_seq()[2] == SyntaxRule::BlockComment("/*", "*/"));
    assert(typescript::syntax_rule_seq()[0] == SyntaxRule::LineComment("//"));
    assert(typescript::syntax_rule_seq()[1] == SyntaxRule::BlockComment("/*", "*/"));
    assert(yaml::syntax_rule_seq()[0] == SyntaxRule::LineComment("#"));
}

} // verus!
