use todoozy::lang::{tdz, RawParser};

#[test]
fn single_todo_title_only() {
    let text = "# TODO Simple task";
    let todos = tdz::Parser::new("TODO").parse_str(text);
    assert_eq!(todos.len(), 1);
    assert_eq!(todos[0], (1, 1, "Simple task".to_string()));
}

#[test]
fn single_todo_with_description() {
    let text = "# TODO Task title\n\nThis is the description.\nSecond line of description.";
    let todos = tdz::Parser::new("TODO").parse_str(text);
    assert_eq!(todos.len(), 1);
    assert_eq!(
        todos[0],
        (
            1,
            4,
            "Task title\n\nThis is the description.\nSecond line of description.".to_string()
        )
    );
}

#[test]
fn full_syntax() {
    let text = "# TODO #42 (A) 2026-03-22 Task title +tag key:value\n\nDescription here.";
    let todos = tdz::Parser::new("TODO").parse_str(text);
    assert_eq!(todos.len(), 1);
    assert_eq!(
        todos[0],
        (
            1,
            3,
            "#42 (A) 2026-03-22 Task title +tag key:value\n\nDescription here.".to_string()
        )
    );
}

#[test]
fn tdz_multiple_todos() {
    let text =
        "# TODO First task\n\nDescription one.\n\n# TODO Second task\n\nDescription two.";
    let todos = tdz::Parser::new("TODO").parse_str(text);
    assert_eq!(todos.len(), 2);
    assert_eq!(
        todos[0],
        (1, 3, "First task\n\nDescription one.".to_string())
    );
    assert_eq!(
        todos[1],
        (5, 7, "Second task\n\nDescription two.".to_string())
    );
}

#[test]
fn back_to_back_todos_no_description() {
    let text = "# TODO First\n# TODO Second\n# TODO Third";
    let todos = tdz::Parser::new("TODO").parse_str(text);
    assert_eq!(todos.len(), 3);
    assert_eq!(todos[0], (1, 1, "First".to_string()));
    assert_eq!(todos[1], (2, 2, "Second".to_string()));
    assert_eq!(todos[2], (3, 3, "Third".to_string()));
}

#[test]
fn trailing_whitespace_trimmed() {
    let text = "# TODO Task with trailing space   \n\nDescription.   \n\n\n";
    let todos = tdz::Parser::new("TODO").parse_str(text);
    assert_eq!(todos.len(), 1);
    assert_eq!(
        todos[0],
        (1, 3, "Task with trailing space\n\nDescription.".to_string())
    );
}

#[test]
fn eof_without_trailing_newline() {
    let text = "# TODO Task at EOF";
    let todos = tdz::Parser::new("TODO").parse_str(text);
    assert_eq!(todos.len(), 1);
    assert_eq!(todos[0], (1, 1, "Task at EOF".to_string()));
}

#[test]
fn h2_todo_not_parsed() {
    let text = "# TODO Real task\n\n## TODO This is a heading, not a todo";
    let todos = tdz::Parser::new("TODO").parse_str(text);
    assert_eq!(todos.len(), 1);
    assert_eq!(
        todos[0],
        (
            1,
            3,
            "Real task\n\n## TODO This is a heading, not a todo".to_string()
        )
    );
}

#[test]
fn h3_todo_not_parsed() {
    let text = "# TODO Real task\n\n### TODO Also not a todo";
    let todos = tdz::Parser::new("TODO").parse_str(text);
    assert_eq!(todos.len(), 1);
    assert_eq!(
        todos[0],
        (1, 3, "Real task\n\n### TODO Also not a todo".to_string())
    );
}

#[test]
fn empty_file_returns_empty_vec() {
    let text = "";
    let todos = tdz::Parser::new("TODO").parse_str(text);
    assert_eq!(todos.len(), 0);
}

#[test]
fn todolist_not_matched() {
    let text = "# TODOLIST is not a todo";
    let todos = tdz::Parser::new("TODO").parse_str(text);
    assert_eq!(todos.len(), 0);
}

#[test]
fn todo_mid_line_not_matched() {
    let text = "Some text # TODO not at start\n# TODO Real todo";
    let todos = tdz::Parser::new("TODO").parse_str(text);
    assert_eq!(todos.len(), 1);
    assert_eq!(todos[0], (2, 2, "Real todo".to_string()));
}

#[test]
fn file_with_no_todos() {
    let text = "Just some regular text.\nNo TODOs here.\n## Heading";
    let todos = tdz::Parser::new("TODO").parse_str(text);
    assert_eq!(todos.len(), 0);
}

#[test]
fn todo_with_code_block_in_description() {
    let text = "# TODO Add tests\n\n```rust\nfn example() {}\n```";
    let todos = tdz::Parser::new("TODO").parse_str(text);
    assert_eq!(todos.len(), 1);
    assert_eq!(
        todos[0],
        (
            1,
            5,
            "Add tests\n\n```rust\nfn example() {}\n```".to_string()
        )
    );
}

#[test]
fn multiple_blank_lines_between_todos() {
    let text = "# TODO First\n\n\n\n# TODO Second";
    let todos = tdz::Parser::new("TODO").parse_str(text);
    assert_eq!(todos.len(), 2);
    assert_eq!(todos[0], (1, 1, "First".to_string()));
    assert_eq!(todos[1], (5, 5, "Second".to_string()));
}

#[test]
fn todo_without_space_after_todo_not_matched() {
    let text = "# TODOthing\n# TODO Real todo";
    let todos = tdz::Parser::new("TODO").parse_str(text);
    assert_eq!(todos.len(), 1);
    assert_eq!(todos[0], (2, 2, "Real todo".to_string()));
}
