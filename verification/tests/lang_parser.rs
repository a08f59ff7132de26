use todoozy::lang::{Parser, SyntaxRule};

fn test_line_comment() -> Vec<SyntaxRule> {
    vec![SyntaxRule::LineComment("//")]
}

fn test_block_comment() -> Vec<SyntaxRule> {
    vec![SyntaxRule::BlockComment("/*", "*/")]
}

fn test_with_multi_line_string() -> Vec<SyntaxRule> {
    vec![SyntaxRule::LineComment("//"), SyntaxRule::SkipDelimited("`", "`")]
}

fn test_mixed_comments() -> Vec<SyntaxRule> {
    vec![SyntaxRule::LineComment("//"), SyntaxRule::BlockComment("/*", "*/")]
}

#[test]
fn line_comment_basic_todo() {
    let parser = Parser::new("TODO", test_line_comment());
    let text = "// TODO basic test\nlet x = 1;";
    let todos = parser.parse_todos(text);
    assert_eq!(todos.len(), 1);
    assert_eq!(todos[0], (1, 1, "basic test".to_string()));
}

#[test]
fn lang_line_comment_multiline_todo() {
    let parser = Parser::new("TODO", test_line_comment());
    let text = r#"// TODO multi-line test
// This is the second line
// This is the third line
let x = 1;"#;
    let todos = parser.parse_todos(text);
    assert_eq!(todos.len(), 1);
    assert_eq!(
        todos[0],
        (
            1,
            3,
            "multi-line test\nThis is the second line\nThis is the third line".to_string()
        )
    );
}

#[test]
fn line_comment_todo_at_end_of_file() {
    let parser = Parser::new("TODO", test_line_comment());
    let text = "let x = 1;\n// TODO at end of file";
    let todos = parser.parse_todos(text);
    assert_eq!(todos.len(), 1);
    assert_eq!(todos[0], (2, 2, "at end of file".to_string()));
}

#[test]
fn line_comment_todo_at_end_of_file_multiline() {
    let parser = Parser::new("TODO", test_line_comment());
    let text = r#"let x = 1;
// TODO at end of file
// with continuation"#;
    let todos = parser.parse_todos(text);
    assert_eq!(todos.len(), 1);
    assert_eq!(
        todos[0],
        (2, 3, "at end of file\nwith continuation".to_string())
    );
}

#[test]
fn line_comment_empty_description() {
    let parser = Parser::new("TODO", test_line_comment());
    let text = r#"// TODO
let x = 1;"#;
    let todos = parser.parse_todos(text);
    assert_eq!(todos.len(), 1);
    assert_eq!(todos[0], (1, 1, "".to_string()));
}

#[test]
fn line_comment_adjacent_todos() {
    let parser = Parser::new("TODO", test_line_comment());
    let text = r#"// TODO first todo
// TODO second todo
let x = 1;"#;
    let todos = parser.parse_todos(text);
    assert_eq!(todos.len(), 2);
    assert_eq!(todos[0], (1, 1, "first todo".to_string()));
    assert_eq!(todos[1], (2, 2, "second todo".to_string()));
}

#[test]
fn line_comment_adjacent_todos_with_gap() {
    let parser = Parser::new("TODO", test_line_comment());
    let text = r#"// TODO first todo
let x = 1;
// TODO second todo
let y = 2;"#;
    let todos = parser.parse_todos(text);
    assert_eq!(todos.len(), 2);
    assert_eq!(todos[0], (1, 1, "first todo".to_string()));
    assert_eq!(todos[1], (3, 3, "second todo".to_string()));
}

#[test]
fn line_comment_todo_in_title() {
    let parser = Parser::new("TODO", test_line_comment());
    let text = r#"// TODO (B) Handle TODOs inside TODO title
let x = 1;"#;
    let todos = parser.parse_todos(text);
    assert_eq!(todos.len(), 1);
    assert_eq!(
        todos[0],
        (1, 1, "(B) Handle TODOs inside TODO title".to_string())
    );
}

#[test]
fn line_comments_description_starts_with_todos() {
    let parser = Parser::new("TODO", test_line_comment());
    let text = r#"// TODO (B) Handle TODOs inside TODO title
//
// TODOs should not start new TODO unless "TODO" followed by whitespace
let x = 1;"#;
    let todos = parser.parse_todos(text);
    assert_eq!(todos.len(), 1);
    assert_eq!(
        todos[0],
        (1, 3, "(B) Handle TODOs inside TODO title\n\nTODOs should not start new TODO unless \"TODO\" followed by whitespace".to_string())
    );
}

#[test]
fn line_comment_multiple_spaces_before_todo() {
    let parser = Parser::new("TODO", test_line_comment());
    let text = "//    TODO with extra spaces\nlet x = 1;";
    let todos = parser.parse_todos(text);
    assert_eq!(todos.len(), 1);
    assert_eq!(todos[0], (1, 1, "with extra spaces".to_string()));
}

#[test]
fn line_comment_tab_before_todo() {
    let parser = Parser::new("TODO", test_line_comment());
    let text = "//\tTODO with tab\nlet x = 1;";
    let todos = parser.parse_todos(text);
    assert_eq!(todos.len(), 1);
    assert_eq!(todos[0], (1, 1, "with tab".to_string()));
}

#[test]
fn line_comment_no_space_before_todo() {
    let parser = Parser::new("TODO", test_line_comment());
    let text = "//TODO no space\nlet x = 1;";
    let todos = parser.parse_todos(text);
    assert_eq!(todos.len(), 1);
    assert_eq!(todos[0], (1, 1, "no space".to_string()));
}

#[test]
fn line_comment_todolist_not_detected() {
    // Word boundary prevents matching "TODOLIST"
    let parser = Parser::new("TODO", test_line_comment());
    let text = "// TODOLIST is not a todo\nlet x = 1;";
    let todos = parser.parse_todos(text);
    assert_eq!(todos.len(), 0);
}

#[test]
fn line_comment_empty_line_preserved() {
    let parser = Parser::new("TODO", test_line_comment());
    let text = r#"// TODO title line
//
// continuation after empty line
let x = 1;"#;
    let todos = parser.parse_todos(text);
    assert_eq!(todos.len(), 1);
    assert_eq!(
        todos[0],
        (
            1,
            3,
            "title line\n\ncontinuation after empty line".to_string()
        )
    );
}

#[test]
fn line_comment_deeply_indented() {
    let parser = Parser::new("TODO", test_line_comment());
    let text = r#"fn foo() {
    if condition {
        while x {
            // TODO deeply indented task
            // with continuation line
            do_something();
        }
    }
}"#;
    let todos = parser.parse_todos(text);
    assert_eq!(todos.len(), 1);
    assert_eq!(
        todos[0],
        (
            4,
            5,
            "deeply indented task\nwith continuation line".to_string()
        )
    );
}

#[test]
fn line_comment_inline_todo() {
    let parser = Parser::new("TODO", test_line_comment());
    let text = "let x = 1; // TODO change this\nlet y = 2;";
    let todos = parser.parse_todos(text);
    assert_eq!(todos.len(), 1);
    assert_eq!(todos[0], (1, 1, "change this".to_string()));
}

#[test]
fn line_comment_inline_todo_with_continuation() {
    let parser = Parser::new("TODO", test_line_comment());
    let text = r#"let x = 1; // TODO inline with continuation
// this continues the todo
let y = 2;"#;
    let todos = parser.parse_todos(text);
    assert_eq!(todos.len(), 1);
    assert_eq!(
        todos[0],
        (
            1,
            2,
            "inline with continuation\nthis continues the todo".to_string()
        )
    );
}

#[test]
fn line_comment_multiple_inline_todos() {
    let parser = Parser::new("TODO", test_line_comment());
    let text = r#"let x = 1; // TODO first inline
let y = 2; // TODO second inline
let z = 3;"#;
    let todos = parser.parse_todos(text);
    assert_eq!(todos.len(), 2);
    assert_eq!(todos[0], (1, 1, "first inline".to_string()));
    assert_eq!(todos[1], (2, 2, "second inline".to_string()));
}

#[test]
fn block_comment_single_line() {
    let parser = Parser::new("TODO", test_block_comment());
    let text = "/* TODO single line */\nlet x = 1;";
    let todos = parser.parse_todos(text);
    assert_eq!(todos.len(), 1);
    assert_eq!(todos[0], (1, 1, "single line".to_string()));
}

#[test]
fn block_comment_multiline_closing_own_line() {
    let parser = Parser::new("TODO", test_block_comment());
    let text = r#"/* TODO multi-line
   second line
   third line
 */
let x = 1;"#;
    let todos = parser.parse_todos(text);
    assert_eq!(todos.len(), 1);
    assert_eq!(
        todos[0],
        (1, 4, "multi-line\nsecond line\nthird line".to_string())
    );
}

#[test]
fn block_comment_multiline_closing_after_content() {
    let parser = Parser::new("TODO", test_block_comment());
    let text = r#"/* TODO multi-line
   second line
   third line */
let x = 1;"#;
    let todos = parser.parse_todos(text);
    assert_eq!(todos.len(), 1);
    assert_eq!(
        todos[0],
        (1, 3, "multi-line\nsecond line\nthird line".to_string())
    );
}

#[test]
fn block_comment_todo_at_end_of_file() {
    let parser = Parser::new("TODO", test_block_comment());
    let text = r#"let x = 1;
/* TODO at end of file
   more content
 */"#;
    let todos = parser.parse_todos(text);
    assert_eq!(todos.len(), 1);
    assert_eq!(todos[0], (2, 4, "at end of file\nmore content".to_string()));
}

#[test]
fn block_comment_asterisk_border_not_stripped() {
    // Documents that * borders in block comments are NOT stripped
    let parser = Parser::new("TODO", test_block_comment());
    let text = r#"/* TODO with asterisk border
 * this line has asterisk
 * so does this
 */"#;
    let todos = parser.parse_todos(text);
    assert_eq!(todos.len(), 1);
    assert_eq!(
        todos[0],
        (
            1,
            4,
            "with asterisk border\n* this line has asterisk\n* so does this".to_string()
        )
    );
}

#[test]
fn block_comment_todo_in_description() {
    let parser = Parser::new("TODO", test_block_comment());
    let text = r#"/* TODO (B) Handle TODOs inside TODO description
   This TODO should not start a new todo.
*/"#;
    let todos = parser.parse_todos(text);
    assert_eq!(todos.len(), 1);
    assert_eq!(
        todos[0],
        (
            1,
            3,
            "(B) Handle TODOs inside TODO description\nThis TODO should not start a new todo."
                .to_string()
        )
    );
}

#[test]
fn block_comment_left_edge_content() {
    // Content starts at left edge, not aligned to comment opener
    let parser = Parser::new("TODO", test_block_comment());
    let text = r#"/* TODO left edge test

Content starts at the left edge.
  - indented item
*/"#;
    let todos = parser.parse_todos(text);
    assert_eq!(todos.len(), 1);
    assert_eq!(
        todos[0],
        (
            1,
            5,
            "left edge test\n\nContent starts at the left edge.\n  - indented item".to_string()
        )
    );
}

#[test]
fn block_comment_nested_simple() {
    let parser = Parser::new("TODO", test_block_comment());
    let text = "/* TODO outer /* inner */ still outer */\nlet x = 1;";
    let todos = parser.parse_todos(text);
    assert_eq!(todos.len(), 1);
    assert_eq!(
        todos[0],
        (1, 1, "outer /* inner */ still outer".to_string())
    );
}

#[test]
fn block_comment_nested_multiline() {
    let parser = Parser::new("TODO", test_block_comment());
    let text = r#"/* TODO nested multiline
   /* this is nested
      and spans lines
   */
   back to outer
*/
let x = 1;"#;
    let todos = parser.parse_todos(text);
    assert_eq!(todos.len(), 1);
    assert_eq!(
        todos[0],
        (
            1,
            6,
            "nested multiline\n/* this is nested\n   and spans lines\n*/\nback to outer"
                .to_string()
        )
    );
}

#[test]
fn block_comment_nested_two_levels() {
    let parser = Parser::new("TODO", test_block_comment());
    let text = "/* TODO /* level 1 /* level 2 */ back to 1 */ outer */\nlet x = 1;";
    let todos = parser.parse_todos(text);
    assert_eq!(todos.len(), 1);
    assert_eq!(
        todos[0],
        (
            1,
            1,
            "/* level 1 /* level 2 */ back to 1 */ outer".to_string()
        )
    );
}

#[test]
fn block_comment_nested_does_not_affect_next_comment() {
    let parser = Parser::new("TODO", test_block_comment());
    let text = r#"/* TODO first with /* nested */ content */
/* TODO second todo */
let x = 1;"#;
    let todos = parser.parse_todos(text);
    assert_eq!(todos.len(), 2);
    assert_eq!(
        todos[0],
        (1, 1, "first with /* nested */ content".to_string())
    );
    assert_eq!(todos[1], (2, 2, "second todo".to_string()));
}

#[test]
fn block_comment_nested_empty_inner() {
    let parser = Parser::new("TODO", test_block_comment());
    let text = "/* TODO with /**/ empty nested */\nlet x = 1;";
    let todos = parser.parse_todos(text);
    assert_eq!(todos.len(), 1);
    assert_eq!(todos[0], (1, 1, "with /**/ empty nested".to_string()));
}

#[test]
fn multi_line_string_todo_inside_ignored() {
    let parser = Parser::new("TODO", test_with_multi_line_string());
    let text = r#"let x = `
// TODO this should be ignored
`;
// TODO this should be found
let y = 1;"#;
    let todos = parser.parse_todos(text);
    assert_eq!(todos.len(), 1);
    assert_eq!(todos[0], (4, 4, "this should be found".to_string()));
}

#[test]
fn multi_line_string_single_line() {
    let parser = Parser::new("TODO", test_with_multi_line_string());
    let text = r#"let x = `// TODO fake`;
// TODO real
let y = 1;"#;
    let todos = parser.parse_todos(text);
    assert_eq!(todos.len(), 1);
    assert_eq!(todos[0], (2, 2, "real".to_string()));
}

#[test]
fn multi_line_string_todo_after_detected() {
    let parser = Parser::new("TODO", test_with_multi_line_string());
    let text = r#"let x = `raw string content`;
// TODO after raw string
let y = 1;"#;
    let todos = parser.parse_todos(text);
    assert_eq!(todos.len(), 1);
    assert_eq!(todos[0], (2, 2, "after raw string".to_string()));
}

#[test]
fn multi_line_string_delimiter_in_comment() {
    let parser = Parser::new("TODO", test_with_multi_line_string());
    let text = r#"// TODO mentions ` backtick
let x = 1;
// TODO second todo
let y = 1;"#;
    let todos = parser.parse_todos(text);
    assert_eq!(todos.len(), 2);
    assert_eq!(todos[0], (1, 1, "mentions ` backtick".to_string()));
    assert_eq!(todos[1], (3, 3, "second todo".to_string()));
}

#[test]
fn mixed_comment_styles_both_detected() {
    let parser = Parser::new("TODO", test_mixed_comments());
    let text = r#"// TODO first in line comment
let x = 1;
/* TODO second in block comment */
let y = 2;
// TODO third back to line comment
let z = 3;"#;
    let todos = parser.parse_todos(text);
    assert_eq!(todos.len(), 3);
    assert_eq!(todos[0], (1, 1, "first in line comment".to_string()));
    assert_eq!(todos[1], (3, 3, "second in block comment".to_string()));
    assert_eq!(todos[2], (5, 5, "third back to line comment".to_string()));
}

#[test]
fn mixed_comment_styles_multiline() {
    let parser = Parser::new("TODO", test_mixed_comments());
    let text = r#"// TODO line comment todo
// with continuation
let x = 1;
/* TODO block comment todo

with continuation
*/
let y = 2;"#;
    let todos = parser.parse_todos(text);
    assert_eq!(todos.len(), 2);
    assert_eq!(
        todos[0],
        (1, 2, "line comment todo\nwith continuation".to_string())
    );
    assert_eq!(
        todos[1],
        (4, 7, "block comment todo\n\nwith continuation".to_string())
    );
}
