use todoozy::lang::{Parser, RawParser, cpp};

#[test]
fn cpp_line_comment_todo() {
    let parser = Parser::new("TODO", cpp::syntax_rules());
    let text = r#"
int main() {
    // TODO fix this function
    return 0;
}
"#;
    let todos = parser.parse_str(text);
    assert_eq!(todos.len(), 1);
    assert_eq!(todos[0].2, "fix this function".to_string());
}

#[test]
fn cpp_line_comment_multiline_todo() {
    let parser = Parser::new("TODO", cpp::syntax_rules());
    let text = r#"
int main() {
    // TODO refactor this code
    // to use a better algorithm
    // for performance
    return 0;
}
"#;
    let todos = parser.parse_str(text);
    assert_eq!(todos.len(), 1);
    assert_eq!(
        todos[0],
        (
            3,
            5,
            "refactor this code\nto use a better algorithm\nfor performance".to_string()
        )
    );
}

#[test]
fn cpp_block_comment_todo() {
    let parser = Parser::new("TODO", cpp::syntax_rules());
    let text = r#"
int main() {
    /* TODO add error handling */
    return 0;
}
"#;
    let todos = parser.parse_str(text);
    assert_eq!(todos.len(), 1);
    assert_eq!(todos[0].2, "add error handling".to_string());
}

#[test]
fn cpp_block_comment_multiline_todo() {
    let parser = Parser::new("TODO", cpp::syntax_rules());
    let text = r#"
int main() {
    /* TODO implement feature

       This needs to handle:
       - Case A
       - Case B
     */
    return 0;
}
"#;
    let todos = parser.parse_str(text);
    assert_eq!(todos.len(), 1);
    assert_eq!(
        todos[0],
        (
            3,
            8,
            "implement feature\n\nThis needs to handle:\n- Case A\n- Case B".to_string()
        )
    );
}

#[test]
fn cpp_todo_inside_double_quoted_string_ignored() {
    let parser = Parser::new("TODO", cpp::syntax_rules());
    let text = r#"
std::string msg = "// TODO this should be ignored";

// TODO this should be found
int x = 1;
"#;
    let todos = parser.parse_str(text);
    assert_eq!(todos.len(), 1);
    assert_eq!(todos[0].2, "this should be found".to_string());
}

#[test]
fn cpp_todo_inside_character_literal_ignored() {
    let parser = Parser::new("TODO", cpp::syntax_rules());
    let text = r#"
int x = 'TODO';

// TODO real todo
int y = 1;
"#;
    let todos = parser.parse_str(text);
    assert_eq!(todos.len(), 1);
    assert_eq!(todos[0].2, "real todo".to_string());
}

#[test]
fn cpp_escaped_quote_in_string() {
    let parser = Parser::new("TODO", cpp::syntax_rules());
    let text = r#"
std::string msg = "hello \"
// TODO false positive
world";

// TODO real todo
int x = 1;
"#;
    let todos = parser.parse_str(text);
    assert_eq!(todos.len(), 1);
    assert_eq!(todos[0].2, "real todo".to_string());
}

#[test]
fn raw_string_literal_no_delimiter() {
    let parser = Parser::new("TODO", cpp::syntax_rules());
    let text = r##"
std::string msg = R"(// TODO this should be ignored)";

// TODO this should be found
int x = 1;
"##;
    let todos = parser.parse_str(text);
    assert_eq!(todos.len(), 1);
    assert_eq!(todos[0].2, "this should be found".to_string());
}

#[test]
fn raw_string_literal_with_delimiter() {
    let parser = Parser::new("TODO", cpp::syntax_rules());
    let text = r##"
std::string msg = R"xyz(// TODO this should be ignored)xyz";

// TODO this should be found
int x = 1;
"##;
    let todos = parser.parse_str(text);
    assert_eq!(todos.len(), 1);
    assert_eq!(todos[0].2, "this should be found".to_string());
}

#[test]
fn raw_string_literal_with_embedded_quotes() {
    let parser = Parser::new("TODO", cpp::syntax_rules());
    let text = r##"
std::string msg = R"(contains "quotes" and // TODO fake)";

// TODO real todo
int x = 1;
"##;
    let todos = parser.parse_str(text);
    assert_eq!(todos.len(), 1);
    assert_eq!(todos[0].2, "real todo".to_string());
}

#[test]
fn raw_string_literal_multiline() {
    let parser = Parser::new("TODO", cpp::syntax_rules());
    let text = r##"
std::string msg = R"(
line 1
// TODO this is inside raw string
line 3
)";

// TODO real todo
int x = 1;
"##;
    let todos = parser.parse_str(text);
    assert_eq!(todos.len(), 1);
    assert_eq!(todos[0].2, "real todo".to_string());
}

#[test]
fn raw_string_literal_with_closing_paren() {
    // The ) alone doesn't close it - needs )delimiter"
    let parser = Parser::new("TODO", cpp::syntax_rules());
    let text = r##"
std::string msg = R"delim(
contains ) and )" and )delim without quote
// TODO fake
)delim";

// TODO real todo
int x = 1;
"##;
    let todos = parser.parse_str(text);
    assert_eq!(todos.len(), 1);
    assert_eq!(todos[0].2, "real todo".to_string());
}

#[test]
fn raw_string_after_regular_code() {
    let parser = Parser::new("TODO", cpp::syntax_rules());
    let text = r##"
int x = 1;
std::string msg = R"(raw content)";

// TODO after raw string
int y = 2;
"##;
    let todos = parser.parse_str(text);
    assert_eq!(todos.len(), 1);
    assert_eq!(todos[0].2, "after raw string".to_string());
}

#[test]
fn multiple_raw_strings() {
    let parser = Parser::new("TODO", cpp::syntax_rules());
    let text = r##"
std::string a = R"(// TODO fake 1)";
std::string b = R"abc(// TODO fake 2)abc";

// TODO real todo
int x = 1;
"##;
    let todos = parser.parse_str(text);
    assert_eq!(todos.len(), 1);
    assert_eq!(todos[0].2, "real todo".to_string());
}

#[test]
fn cpp_inline_todo() {
    let parser = Parser::new("TODO", cpp::syntax_rules());
    let text = r#"int x = 1; // TODO fix this
int y = 2;
"#;
    let todos = parser.parse_str(text);
    assert_eq!(todos.len(), 1);
    assert_eq!(todos[0], (1, 1, "fix this\n\n`int x = 1;`".to_string()));
}

#[test]
fn r_not_followed_by_quote_is_not_raw_string() {
    // R without " immediately after is just a variable/identifier
    let parser = Parser::new("TODO", cpp::syntax_rules());
    let text = r#"
int R = 1;
// TODO real todo
int x = R + 1;
"#;
    let todos = parser.parse_str(text);
    assert_eq!(todos.len(), 1);
    assert_eq!(todos[0].2, "real todo".to_string());
}
