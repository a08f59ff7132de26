use todoozy::lang::{Parser, sh};

#[test]
fn sh_test_parse_todos() {
    let parser = Parser::new("TODO", sh::syntax_rules());

    // Todo as line comment
    let text = r#"
some="code"

# TODO 2020-08-06 Can it handle line comments? +Testing
#
# This is the description.
more="code"
"#;
    assert_eq!(
        parser.parse_todos(text)[0],
        (
            4 as usize,
            6 as usize,
            r#"2020-08-06 Can it handle line comments? +Testing

This is the description."#
                .to_string()
        )
    );

    // Todo inside double-quoted string should be ignored
    let text = r##"
some="code"
msg="
# TODO this is inside a string
"

# TODO this is a real todo
more="code"
"##;
    let todos = parser.parse_todos(text);
    assert_eq!(todos.len(), 1);
    assert_eq!(todos[0], (7, 7, "this is a real todo".to_string()));

    // Todo inside single-quoted string should be ignored
    let text = r##"
some='code'
msg='
# TODO this is inside a single-quoted string
'

# TODO this is a real todo
more='code'
"##;
    let todos = parser.parse_todos(text);
    assert_eq!(todos.len(), 1);
    assert_eq!(todos[0], (7, 7, "this is a real todo".to_string()));
}

#[test]
fn sh_escaped_quote_in_double_quoted_string() {
    let parser = Parser::new("TODO", sh::syntax_rules());
    let text = r##"
msg="hello \"
# TODO false positive
world"

# TODO real todo
"##;
    let todos = parser.parse_todos(text);
    assert_eq!(todos.len(), 1);
    assert_eq!(todos[0].2, "real todo".to_string());
}

#[test]
fn sh_escaped_backslash_before_closing_double_quote() {
    // `\\` escapes the backslash, so the quote ends the string
    let parser = Parser::new("TODO", sh::syntax_rules());
    let text = r##"
msg="hello \\"

# TODO real todo
"##;
    let todos = parser.parse_todos(text);
    assert_eq!(todos.len(), 1);
    assert_eq!(todos[0].2, "real todo".to_string());
}

#[test]
fn sh_triple_backslash_before_double_quote() {
    // `\\\"` = escaped backslash + escaped quote, string continues
    let parser = Parser::new("TODO", sh::syntax_rules());
    let text = r##"
msg="hello \\\"
# TODO false positive
world"

# TODO real todo
"##;
    let todos = parser.parse_todos(text);
    assert_eq!(todos.len(), 1);
    assert_eq!(todos[0].2, "real todo".to_string());
}

#[test]
fn sh_multiple_escaped_double_quotes() {
    let parser = Parser::new("TODO", sh::syntax_rules());
    let text = r##"
msg="\"hello\" \"world\""

# TODO real todo
"##;
    let todos = parser.parse_todos(text);
    assert_eq!(todos.len(), 1);
    assert_eq!(todos[0].2, "real todo".to_string());
}

#[test]
fn sh_escaped_double_quote_at_end_of_string() {
    let parser = Parser::new("TODO", sh::syntax_rules());
    let text = r##"
msg="hello \""

# TODO real todo
"##;
    let todos = parser.parse_todos(text);
    assert_eq!(todos.len(), 1);
    assert_eq!(todos[0].2, "real todo".to_string());
}

#[test]
fn sh_other_escape_sequences_in_double_quoted_string() {
    // Various escapes shouldn't break parsing
    let parser = Parser::new("TODO", sh::syntax_rules());
    let text = r##"
msg="hello\nworld\t\$var"

# TODO real todo
"##;
    let todos = parser.parse_todos(text);
    assert_eq!(todos.len(), 1);
    assert_eq!(todos[0].2, "real todo".to_string());
}

#[test]
fn sh_escape_sequences_mixed_with_escaped_double_quotes() {
    // Mix of regular escapes and escaped quotes
    let parser = Parser::new("TODO", sh::syntax_rules());
    let text = r##"
msg="line1\nline2\t\"quoted\"\\done"

# TODO real todo
"##;
    let todos = parser.parse_todos(text);
    assert_eq!(todos.len(), 1);
    assert_eq!(todos[0].2, "real todo".to_string());
}

#[test]
fn sh_escaped_quote_in_single_quoted_string() {
    let parser = Parser::new("TODO", sh::syntax_rules());
    let text = r##"
msg='hello '\''
# TODO false positive
world'

# TODO real todo
"##;
    let todos = parser.parse_todos(text);
    assert_eq!(todos.len(), 1);
    assert_eq!(todos[0].2, "real todo".to_string());
}

#[test]
fn heredoc() {
    let parser = Parser::new("TODO", sh::syntax_rules());
    let text = r##"
cat <<EOF
# TODO this is inside a here-doc
EOF

# TODO real todo
"##;
    let todos = parser.parse_todos(text);
    assert_eq!(todos.len(), 1);
    assert_eq!(todos[0].2, "real todo".to_string());
}

#[test]
fn sh_heredoc_single_quoted_delimiter() {
    let parser = Parser::new("TODO", sh::syntax_rules());
    let text = r##"
cat <<'EOF'
# TODO inside here-doc
EOF

# TODO real todo
"##;
    let todos = parser.parse_todos(text);
    assert_eq!(todos.len(), 1);
    assert_eq!(todos[0].2, "real todo".to_string());
}

#[test]
fn sh_heredoc_double_quoted_delimiter() {
    let parser = Parser::new("TODO", sh::syntax_rules());
    let text = r##"
cat <<"EOF"
# TODO inside here-doc
EOF

# TODO real todo
"##;
    let todos = parser.parse_todos(text);
    assert_eq!(todos.len(), 1);
    assert_eq!(todos[0].2, "real todo".to_string());
}

#[test]
fn heredoc_indented_close() {
    // <<- allows the closing delimiter to be indented with tabs
    let parser = Parser::new("TODO", sh::syntax_rules());
    let text = "
cat <<-EOF
\t# TODO inside here-doc
\tEOF

# TODO real todo
";
    let todos = parser.parse_todos(text);
    assert_eq!(todos.len(), 1);
    assert_eq!(todos[0].2, "real todo".to_string());
}

#[test]
fn heredoc_delimiter_in_content() {
    // EOF appearing as part of a line shouldn't close the here-doc
    let parser = Parser::new("TODO", sh::syntax_rules());
    let text = r##"
cat <<EOF
# TODO inside - this line mentions EOF but isn't the closing
some text EOF more text
EOF

# TODO real todo
"##;
    let todos = parser.parse_todos(text);
    assert_eq!(todos.len(), 1);
    assert_eq!(todos[0].2, "real todo".to_string());
}

#[test]
fn sh_heredoc_multiple() {
    let parser = Parser::new("TODO", sh::syntax_rules());
    let text = r##"
cat <<EOF
# TODO inside first here-doc
EOF

# TODO between here-docs

cat <<END
# TODO inside second here-doc
END

# TODO after here-docs
"##;
    let todos = parser.parse_todos(text);
    assert_eq!(todos.len(), 2);
    assert_eq!(todos[0].2, "between here-docs".to_string());
    assert_eq!(todos[1].2, "after here-docs".to_string());
}

#[test]
fn heredoc_not_herestring() {
    // <<< is a here-string, not here-doc - should not be matched
    let parser = Parser::new("TODO", sh::syntax_rules());
    let text = r##"
cat <<< "hello"

# TODO real todo
"##;
    let todos = parser.parse_todos(text);
    assert_eq!(todos.len(), 1);
    assert_eq!(todos[0].2, "real todo".to_string());
}

#[test]
fn herestring_with_quoted_todo_ignored() {
    // TODO inside a quoted here-string should be ignored
    let parser = Parser::new("TODO", sh::syntax_rules());
    let text = r##"
cat <<< "# TODO inside here-string"

# TODO real todo
"##;
    let todos = parser.parse_todos(text);
    assert_eq!(todos.len(), 1);
    assert_eq!(todos[0].2, "real todo".to_string());
}

#[test]
fn herestring_unquoted_with_comment() {
    // `cat <<< word # comment` - the # starts a real comment
    let parser = Parser::new("TODO", sh::syntax_rules());
    let text = r##"
cat <<< hello # TODO this is a comment after here-string

# TODO second todo
"##;
    let todos = parser.parse_todos(text);
    assert_eq!(todos.len(), 2);
    assert_eq!(todos[0].2, "this is a comment after here-string".to_string());
    assert_eq!(todos[1].2, "second todo".to_string());
}
