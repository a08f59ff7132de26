use todoozy::sort::{parse_sort, pipeline_before, sorted_order, SortField, SortKey};
use todoozy::syntax::todo_of;
use todoozy::todo::Todo;

fn todo(text: &str) -> Todo {
    todo_of(text, Some("a.rs".to_string()), 1)
}

fn asc(field: SortField) -> SortKey {
    SortKey { field, descending: false }
}

fn desc(field: SortField) -> SortKey {
    SortKey { field, descending: true }
}

#[test]
fn pipeline_from_the_readme() {
    let keys = parse_sort("priority:asc > creation_date:desc").unwrap();
    assert_eq!(keys, vec![asc(SortField::Priority), desc(SortField::CreationDate)]);
}

#[test]
fn pipeline_without_spaces() {
    let keys = parse_sort("title:asc>id:desc>file:asc>completion_date:asc").unwrap();
    assert_eq!(
        keys,
        vec![
            asc(SortField::Title),
            desc(SortField::Id),
            asc(SortField::File),
            asc(SortField::CompletionDate),
        ]
    );
}

#[test]
fn unknown_direction_is_refused() {
    assert_eq!(
        parse_sort("priority:up"),
        Err("invalid sort key 'priority:up'".to_string())
    );
}

#[test]
fn unknown_property_is_refused() {
    assert_eq!(
        parse_sort("priority:asc > colour:asc"),
        Err("invalid sort key ' colour:asc'".to_string())
    );
}

#[test]
fn empty_stage_is_refused() {
    assert_eq!(parse_sort(""), Err("invalid sort key ''".to_string()));
    assert_eq!(
        parse_sort("id:asc >"),
        Err("invalid sort key ''".to_string())
    );
}

#[test]
fn two_words_in_a_stage_are_refused() {
    assert_eq!(
        parse_sort("id:asc title:asc"),
        Err("invalid sort key 'id:asc title:asc'".to_string())
    );
}

#[test]
fn sorts_by_priority_then_newest_first() {
    let todos = vec![
        todo("(B) 2024-01-01 b"),
        todo("(A) 2024-01-01 a old"),
        todo("no priority"),
        todo("(A) 2024-06-01 a new"),
    ];
    let keys = parse_sort("priority:asc > creation_date:desc").unwrap();
    assert_eq!(sorted_order(&todos, &keys), vec![3, 1, 0, 2]);
}

#[test]
fn ties_keep_their_order() {
    let todos = vec![todo("(C) one"), todo("(A) two"), todo("(C) three"), todo("(A) four")];
    let keys = vec![asc(SortField::Priority)];
    assert_eq!(sorted_order(&todos, &keys), vec![1, 3, 0, 2]);
}

#[test]
fn descending_identifiers_and_untracked_last() {
    let todos = vec![todo("#3 c"), todo("untracked"), todo("#10 j"), todo("&5 ref")];
    let keys = vec![desc(SortField::Id)];
    assert_eq!(sorted_order(&todos, &keys), vec![2, 3, 0, 1]);
}

#[test]
fn no_keys_keep_the_order() {
    let todos = vec![todo("b"), todo("a")];
    assert_eq!(sorted_order(&todos, &[]), vec![0, 1]);
}

#[test]
fn sorted_listing_in_order_throughout() {
    let todos = vec![
        todo("(C) 2024-02-01 e"),
        todo("(A) d"),
        todo("(C) 2023-12-24 c"),
        todo("b"),
        todo("(A) 2025-01-01 a"),
        todo("(B) 2024-02-01 f"),
    ];
    let keys = parse_sort("priority:asc > creation_date:desc > title:asc").unwrap();
    let order = sorted_order(&todos, &keys);
    assert_eq!(order, vec![4, 1, 5, 0, 2, 3]);
    for i in 0..order.len() {
        for j in i + 1..order.len() {
            assert!(!pipeline_before(&keys, &todos[order[j]], &todos[order[i]]));
        }
    }
}

#[test]
fn sort_todos_moves_the_todos_into_order() {
    let todos = vec![todo("(C) one"), todo("(A) two"), todo("(C) three"), todo("(A) four")];
    let keys = vec![asc(SortField::Priority)];
    let sorted = todoozy::sort::sort_todos(todos, &keys);
    let titles: Vec<&str> = sorted.iter().map(|t| t.title.as_str()).collect();
    assert_eq!(titles, vec!["two", "four", "one", "three"]);
}
