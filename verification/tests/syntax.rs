use todoozy::syntax::{
    classify_word, line_with_id, parse_header, split_words, todo_of, word_date, word_id, Word,
};
use todoozy::todo::{Date, TodoIdentifier};

fn chars(s: &str) -> Vec<char> {
    s.chars().collect()
}

fn date(year: i32, month: u32, day: u32) -> Option<Date> {
    Some(Date { year, month, day })
}

#[test]
fn header_with_every_part() {
    let h = parse_header("#15 (B) 2024-08-14 Refactor database layer +backend db:postgresql");
    assert_eq!(h.id, Some(TodoIdentifier::Primary(15)));
    assert_eq!(h.priority, Some('B'));
    assert_eq!(h.creation_date, date(2024, 8, 14));
    assert_eq!(h.completion_date, None);
    assert_eq!(h.title, "Refactor database layer");
    assert_eq!(h.projects, vec!["backend".to_string()]);
    assert!(h.contexts.is_empty());
    assert_eq!(h.metadata, vec![("db".to_string(), "postgresql".to_string())]);
}

#[test]
fn header_with_priority_and_tags() {
    let h = parse_header("(A) Implement authentication +backend @security");
    assert_eq!(h.id, None);
    assert_eq!(h.priority, Some('A'));
    assert_eq!(h.title, "Implement authentication");
    assert_eq!(h.projects, vec!["backend".to_string()]);
    assert_eq!(h.contexts, vec!["security".to_string()]);
}

#[test]
fn plain_title_only() {
    let h = parse_header("Fix the login bug");
    assert_eq!(h.id, None);
    assert_eq!(h.priority, None);
    assert_eq!(h.creation_date, None);
    assert_eq!(h.title, "Fix the login bug");
}

#[test]
fn two_dates_are_completion_then_creation() {
    let h = parse_header("(C) 2024-08-10 2024-08-05 Ship it");
    assert_eq!(h.completion_date, date(2024, 8, 10));
    assert_eq!(h.creation_date, date(2024, 8, 5));
    assert_eq!(h.title, "Ship it");
}

#[test]
fn reference_identifier() {
    let h = parse_header("&12 Follow up on the cache");
    assert_eq!(h.id, Some(TodoIdentifier::Reference(12)));
    assert_eq!(h.title, "Follow up on the cache");
}

#[test]
fn identifier_only_in_first_place() {
    let h = parse_header("Fix #12 later");
    assert_eq!(h.id, None);
    assert_eq!(h.title, "Fix #12 later");
}

#[test]
fn not_a_calendar_date_stays_in_the_title() {
    let h = parse_header("2024-13-45 odd");
    assert_eq!(h.creation_date, None);
    assert_eq!(h.title, "2024-13-45 odd");
}

#[test]
fn lowercase_priority_stays_in_the_title() {
    let h = parse_header("(a) small");
    assert_eq!(h.priority, None);
    assert_eq!(h.title, "(a) small");
}

#[test]
fn spaces_collapse_in_the_title() {
    let h = parse_header("  Fix   the  bug ");
    assert_eq!(h.title, "Fix the bug");
}

#[test]
fn tags_anywhere_after_the_dates() {
    let h = parse_header("Refactor +a module @b now +c");
    assert_eq!(h.title, "Refactor module now");
    assert_eq!(h.projects, vec!["a".to_string(), "c".to_string()]);
    assert_eq!(h.contexts, vec!["b".to_string()]);
}

#[test]
fn identifier_words() {
    assert_eq!(word_id(&chars("#42")), Some(TodoIdentifier::Primary(42)));
    assert_eq!(word_id(&chars("&7")), Some(TodoIdentifier::Reference(7)));
    assert_eq!(word_id(&chars("#")), None);
    assert_eq!(word_id(&chars("#+4")), None);
    assert_eq!(word_id(&chars("#4a")), None);
    assert_eq!(word_id(&chars("#4294967295")), Some(TodoIdentifier::Primary(4294967295)));
    assert_eq!(word_id(&chars("#4294967296")), None);
}

#[test]
fn date_words() {
    assert_eq!(word_date(&chars("2024-02-29")), date(2024, 2, 29));
    assert_eq!(word_date(&chars("2023-02-29")), None);
    assert_eq!(word_date(&chars("2024-2-29")), None);
    assert_eq!(word_date(&chars("2024/02/29")), None);
}

#[test]
fn word_kinds() {
    assert!(matches!(classify_word(&chars("+")), Word::Plain));
    assert!(matches!(classify_word(&chars("@")), Word::Plain));
    assert!(matches!(classify_word(&chars(":x")), Word::Plain));
    assert!(matches!(classify_word(&chars("x:")), Word::Plain));
    match classify_word(&chars("a:b:c")) {
        Word::Meta(k, v) => {
            assert_eq!(k, "a");
            assert_eq!(v, "b:c");
        }
        _ => panic!("expected a key and a value"),
    }
    match classify_word(&chars("+cli")) {
        Word::Project(n) => assert_eq!(n, "cli"),
        _ => panic!("expected a project"),
    }
}

#[test]
fn split_into_words() {
    let ws = split_words(&chars(" a  bc d "));
    assert_eq!(ws, vec![chars("a"), chars("bc"), chars("d")]);
    assert!(split_words(&chars("   ")).is_empty());
}

#[test]
fn todo_with_description() {
    let t = todo_of(
        "#23 (C) 2024-03-01 Add caching +performance\n\nUse an in-memory cache.",
        Some("src/api.go".to_string()),
        4,
    );
    assert_eq!(t.id, Some(TodoIdentifier::Primary(23)));
    assert_eq!(t.priority, Some('C'));
    assert_eq!(t.title, "Add caching");
    assert_eq!(t.description, Some("\nUse an in-memory cache.".to_string()));
    assert_eq!(t.file, Some("src/api.go".to_string()));
    assert_eq!(t.line_number, Some(4));
    assert_eq!(t.projects, vec!["performance".to_string()]);
    assert_eq!(t.tags, vec!["performance".to_string()]);
}

#[test]
fn todo_without_description() {
    let t = todo_of("Fix the login bug", None, 1);
    assert_eq!(t.title, "Fix the login bug");
    assert_eq!(t.description, None);
    assert!(t.tags.is_empty());
}

#[test]
fn identifier_written_in_front_of_the_title() {
    let line = line_with_id("// TODO Fix the login bug", "TODO", "Fix the login bug", 42);
    assert_eq!(line, Some("// TODO #42 Fix the login bug".to_string()));
    let h = parse_header("#42 Fix the login bug");
    assert_eq!(h.id, Some(TodoIdentifier::Primary(42)));
}

#[test]
fn identifier_replaces_the_old_one() {
    let line = line_with_id("    // TODO #3 (A) Split +db", "TODO", "#3 (A) Split +db", 17);
    assert_eq!(line, Some("    // TODO #17 (A) Split +db".to_string()));
}

#[test]
fn identifier_goes_to_the_token_that_opens_the_todo() {
    let line = line_with_id("let s = \"TODO\"; // TODO fix it", "TODO", "fix it", 5);
    assert_eq!(line, Some("let s = \"TODO\"; // TODO #5 fix it".to_string()));
}

#[test]
fn identifier_after_a_bare_token() {
    assert_eq!(line_with_id("// TODO", "TODO", "", 1), Some("// TODO #1".to_string()));
    assert_eq!(line_with_id("# TODO  ", "TODO", "", 2), Some("# TODO  #2".to_string()));
}

#[test]
fn no_identifier_without_the_todo() {
    assert_eq!(line_with_id("// FIXME later", "TODO", "later", 1), None);
    assert_eq!(line_with_id("// TODO other", "TODO", "later", 1), None);
}
