use todoozy::catalog::{imported_message, import_all, list_contexts, list_projects};
use todoozy::todo::{Todo, TodoBuilder, TodoIdentifier};

fn tagged(projects: &[&str], contexts: &[&str]) -> Todo {
    TodoBuilder::default()
        .projects(projects.iter().map(|s| s.to_string()).collect())
        .contexts(contexts.iter().map(|s| s.to_string()).collect())
        .build()
        .unwrap()
}

fn with_id(id: Option<TodoIdentifier>, title: &str) -> Todo {
    TodoBuilder::default()
        .id(id)
        .title(title.to_string())
        .build()
        .unwrap()
}

#[test]
fn projects_listed_once_each() {
    let todos = vec![
        tagged(&["web", "api"], &["home"]),
        tagged(&["api"], &["work", "home"]),
        tagged(&[], &[]),
    ];
    assert_eq!(list_projects(&todos), vec!["web".to_string(), "api".to_string()]);
    assert_eq!(list_contexts(&todos), vec!["home".to_string(), "work".to_string()]);
    assert!(list_projects(&[]).is_empty());
}

#[test]
fn import_numbers_todos_without_identifier() {
    let todos = vec![
        with_id(None, "a"),
        with_id(Some(TodoIdentifier::Primary(3)), "b"),
        with_id(None, "c"),
        with_id(Some(TodoIdentifier::Reference(3)), "d"),
    ];
    let (out, counter) = import_all(todos, 10);
    assert_eq!(counter, 12);
    let ids: Vec<Option<TodoIdentifier>> = out.iter().map(|t| t.id).collect();
    assert_eq!(
        ids,
        vec![
            Some(TodoIdentifier::Primary(11)),
            Some(TodoIdentifier::Primary(3)),
            Some(TodoIdentifier::Primary(12)),
            Some(TodoIdentifier::Reference(3)),
        ]
    );
    assert_eq!(out[2].title, "c");
}

#[test]
fn import_messages() {
    assert_eq!(imported_message(0), "No todos to import");
    assert_eq!(imported_message(3), "3 todos imported");
    let (out, counter) = import_all(vec![], 5);
    assert!(out.is_empty());
    assert_eq!(counter, 5);
}

#[test]
fn import_selected_messages() {
    assert_eq!(
        todoozy::catalog::import_selected(Some(TodoIdentifier::Primary(4)), 9),
        (None, 9, "Todo already imported with ID 4".to_string())
    );
    assert_eq!(
        todoozy::catalog::import_selected(Some(TodoIdentifier::Reference(4)), 9),
        (None, 9, "Cannot import reference todo &4".to_string())
    );
    assert_eq!(
        todoozy::catalog::import_selected(None, 9),
        (Some(10), 10, "Todo imported with ID 10".to_string())
    );
}
