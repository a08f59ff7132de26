use todoozy::lang::{Parser, RawParser, php};

#[test]
fn php_test_parser() {
    let parser = Parser::new("TODO", php::syntax_rules());

    // Todo as // line comment
    let text = r#"
<?php
$x = 1;

// TODO 2020-08-06 Can it handle // line comments? +Testing
//
// This is the description.
$y = 2;
"#;
    assert_eq!(
        parser.parse_str(text)[0],
        (
            5,
            7,
            "2020-08-06 Can it handle // line comments? +Testing\n\nThis is the description."
                .to_string()
        )
    );

    // Todo as # line comment
    let text = r#"
<?php
$x = 1;

# TODO 2020-08-06 Can it handle # line comments? +Testing
#
# This is the description.
$y = 2;
"#;
    assert_eq!(
        parser.parse_str(text)[0],
        (
            5,
            7,
            "2020-08-06 Can it handle # line comments? +Testing\n\nThis is the description."
                .to_string()
        )
    );

    // Todo as block comment
    let text = r#"
<?php
$x = 1;

/* TODO 2020-08-06 Can it handle block comments? +Testing

   This is the description.
 */
$y = 2;
"#;
    assert_eq!(
        parser.parse_str(text)[0],
        (
            5,
            8,
            "2020-08-06 Can it handle block comments? +Testing\n\nThis is the description."
                .to_string()
        )
    );

    // Todo inside double-quoted string should be ignored
    let text = r#"
<?php
$msg = "// TODO this is inside a string";

// TODO this is a real todo
"#;
    let todos = parser.parse_str(text);
    assert_eq!(todos.len(), 1);
    assert_eq!(todos[0].2, "this is a real todo".to_string());

    // Todo inside single-quoted string should be ignored
    let text = r#"
<?php
$msg = '// TODO this is inside a string';

// TODO this is a real todo
"#;
    let todos = parser.parse_str(text);
    assert_eq!(todos.len(), 1);
    assert_eq!(todos[0].2, "this is a real todo".to_string());

    // Todo inside heredoc should be ignored
    let text = r#"
<?php
$text = <<<EOT
// TODO this is inside a heredoc
EOT;

// TODO this is a real todo
"#;
    let todos = parser.parse_str(text);
    assert_eq!(todos.len(), 1);
    assert_eq!(todos[0].2, "this is a real todo".to_string());

    // Todo inside nowdoc should be ignored
    let text = r#"
<?php
$text = <<<'EOT'
// TODO this is inside a nowdoc
EOT;

// TODO this is a real todo
"#;
    let todos = parser.parse_str(text);
    assert_eq!(todos.len(), 1);
    assert_eq!(todos[0].2, "this is a real todo".to_string());
}

#[test]
fn heredoc_closing_with_semicolon() {
    let parser = Parser::new("TODO", php::syntax_rules());
    let text = r#"
<?php
$text = <<<EOT
// TODO false positive
EOT;

// TODO real todo
"#;
    let todos = parser.parse_str(text);
    assert_eq!(todos.len(), 1);
    assert_eq!(todos[0].2, "real todo".to_string());
}

#[test]
fn double_quoted_heredoc_skipped() {
    let parser = Parser::new("TODO", php::syntax_rules());
    let text = r#"
<?php
$text = <<<"EOT"
// TODO false positive
EOT;

// TODO real todo
"#;
    let todos = parser.parse_str(text);
    assert_eq!(todos.len(), 1);
    assert_eq!(todos[0].2, "real todo".to_string());
}

#[test]
fn todo_inside_block_comment_after_heredoc() {
    let parser = Parser::new("TODO", php::syntax_rules());
    let text = r#"
<?php
$text = <<<EOT
nothing here
EOT;

/* TODO after heredoc */
"#;
    let todos = parser.parse_str(text);
    assert_eq!(todos.len(), 1);
    assert_eq!(todos[0].2, "after heredoc".to_string());
}

#[test]
fn php_escaped_quote_in_double_quoted_string() {
    let parser = Parser::new("TODO", php::syntax_rules());
    let text = r#"
$msg = "hello \"
// TODO false positive
world";

// TODO real todo
"#;
    let todos = parser.parse_str(text);
    assert_eq!(todos.len(), 1);
    assert_eq!(todos[0].2, "real todo".to_string());
}

#[test]
fn php_escaped_quote_in_single_quoted_string() {
    let parser = Parser::new("TODO", php::syntax_rules());
    let text = r#"
$msg = 'hello \'
// TODO false positive
world';

// TODO real todo
"#;
    let todos = parser.parse_str(text);
    assert_eq!(todos.len(), 1);
    assert_eq!(todos[0].2, "real todo".to_string());
}
