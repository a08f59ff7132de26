use todoozy::summary::{
    count_tags, sort_by_count, tag_list, tag_table, write_raw, SortOrder, SummaryStats,
};
use todoozy::todo::{Todo, TodoBuilder, TodoIdentifier};

fn make_todo(id: Option<u32>, priority: Option<char>, tags: Vec<&str>) -> Todo {
    TodoBuilder::default()
        .id(id.map(TodoIdentifier::Primary))
        .priority(priority)
        .title("Test todo".to_string())
        .file(Some("test.rs".to_string()))
        .tags(tags.into_iter().map(String::from).collect())
        .build()
        .unwrap()
}

fn counts(v: &[(&str, usize)]) -> Vec<(String, usize)> {
    v.iter().map(|(t, c)| (t.to_string(), *c)).collect()
}

#[test]
fn summary_stats_empty() {
    let todos: Vec<Todo> = vec![];
    let stats = SummaryStats::from_todos(&todos);

    assert_eq!(stats.total, 0);
    assert_eq!(stats.with_id, 0);
    assert_eq!(stats.without_id, 0);
    assert!(stats.by_priority.is_empty());
    assert!(stats.by_tag.is_empty());
}

#[test]
fn summary_stats_tracked_untracked() {
    let todos = vec![
        make_todo(Some(1), Some('A'), vec![]),
        make_todo(Some(2), Some('B'), vec![]),
        make_todo(None, Some('C'), vec![]),
    ];
    let stats = SummaryStats::from_todos(&todos);

    assert_eq!(stats.total, 3);
    assert_eq!(stats.with_id, 2);
    assert_eq!(stats.without_id, 1);
}

#[test]
fn summary_stats_priorities_sorted() {
    let todos = vec![
        make_todo(Some(1), Some('C'), vec![]),
        make_todo(Some(2), Some('A'), vec![]),
        make_todo(Some(3), None, vec![]),
        make_todo(Some(4), Some('B'), vec![]),
    ];
    let stats = SummaryStats::from_todos(&todos);

    assert_eq!(stats.by_priority.len(), 4);
    assert_eq!(stats.by_priority[0], (Some('A'), 1));
    assert_eq!(stats.by_priority[1], (Some('B'), 1));
    assert_eq!(stats.by_priority[2], (Some('C'), 1));
    assert_eq!(stats.by_priority[3], (None, 1));
}

#[test]
fn summary_stats_tags_sorted_by_count() {
    let todos = vec![
        make_todo(Some(1), Some('A'), vec!["cli", "feature"]),
        make_todo(Some(2), Some('B'), vec!["cli", "bug"]),
        make_todo(Some(3), Some('C'), vec!["cli"]),
    ];
    let stats = SummaryStats::from_todos(&todos);

    assert_eq!(stats.by_tag.len(), 3);
    assert_eq!(stats.by_tag[0], ("cli".to_string(), 3));
    assert_eq!(stats.by_tag[1], ("bug".to_string(), 1));
    assert_eq!(stats.by_tag[2], ("feature".to_string(), 1));
}

#[test]
fn summary_stats_counts_repeated_priorities() {
    let todos = vec![
        make_todo(Some(1), Some('A'), vec!["cli"]),
        make_todo(Some(2), Some('A'), vec!["cli"]),
        make_todo(None, Some('B'), vec!["bug"]),
        make_todo(None, None, vec![]),
    ];
    let stats = SummaryStats::from_todos(&todos);

    assert_eq!(stats.total, 4);
    assert_eq!(stats.with_id, 2);
    assert_eq!(stats.without_id, 2);
    assert_eq!(stats.by_priority, vec![(Some('A'), 2), (Some('B'), 1), (None, 1)]);
    assert_eq!(stats.by_tag, counts(&[("cli", 2), ("bug", 1)]));
}

#[test]
fn count_tags_by_name() {
    let todos = vec![
        make_todo(None, None, vec!["zeta", "alpha"]),
        make_todo(None, None, vec!["alpha", "alpha", "Beta"]),
    ];
    assert_eq!(
        count_tags(&todos),
        counts(&[("Beta", 1), ("alpha", 3), ("zeta", 1)])
    );
    assert_eq!(count_tags(&[]), counts(&[]));
}

#[test]
fn sort_by_count_breaks_ties_by_name() {
    let sorted = sort_by_count(&counts(&[("b", 1), ("c", 5), ("a", 1), ("d", 2)]));
    assert_eq!(sorted, counts(&[("c", 5), ("d", 2), ("a", 1), ("b", 1)]));
}

#[test]
fn tag_list_sorted_and_limited() {
    let todos = vec![
        make_todo(None, None, vec!["cli", "feature"]),
        make_todo(None, None, vec!["cli", "bug"]),
        make_todo(None, None, vec!["cli", "bug"]),
    ];
    assert_eq!(
        tag_list(&todos, SortOrder::Name, None),
        counts(&[("bug", 2), ("cli", 3), ("feature", 1)])
    );
    assert_eq!(
        tag_list(&todos, SortOrder::Count, None),
        counts(&[("cli", 3), ("bug", 2), ("feature", 1)])
    );
    assert_eq!(
        tag_list(&todos, SortOrder::Count, Some(2)),
        counts(&[("cli", 3), ("bug", 2)])
    );
    assert_eq!(
        tag_list(&todos, SortOrder::Name, Some(1)),
        counts(&[("bug", 2)])
    );
    assert_eq!(tag_list(&todos, SortOrder::Name, Some(10)).len(), 3);
    assert_eq!(tag_list(&todos, SortOrder::Name, Some(0)), counts(&[]));
}

fn percent(part: usize, total: usize) -> u32 {
    (part as f64 / total as f64 * 100.0).round() as u32
}

fn raw(stats: &SummaryStats) -> String {
    if stats.total > 0 {
        write_raw(
            stats,
            percent(stats.with_id, stats.total),
            percent(stats.without_id, stats.total),
        )
    } else {
        write_raw(stats, 0, 0)
    }
}

#[test]
fn write_raw_output() {
    let todos = vec![
        make_todo(Some(1), Some('A'), vec!["cli"]),
        make_todo(Some(2), Some('A'), vec!["cli"]),
        make_todo(None, Some('B'), vec!["bug"]),
    ];
    let stats = SummaryStats::from_todos(&todos);
    let output = raw(&stats);

    assert!(output.contains("Summary"));
    assert!(output.contains("Total todos: 3"));
    assert!(output.contains("Tracked:"));
    assert!(output.contains("Untracked:"));
    assert!(output.contains("By Priority"));
    assert!(output.contains("(A)"));
    assert!(output.contains("By Tag"));
    assert!(output.contains("cli"));
}

#[test]
fn write_raw_exact_text() {
    let todos = vec![
        make_todo(Some(1), Some('A'), vec!["cli"]),
        make_todo(Some(2), Some('A'), vec!["cli"]),
        make_todo(None, None, vec!["bug"]),
    ];
    let stats = SummaryStats::from_todos(&todos);
    assert_eq!(
        raw(&stats),
        "Summary\n=======\nTotal todos: 3\n  Tracked:     2 (67%)\n  Untracked:   1 (33%)\n\n\
         By Priority\n-----------\n(A)  2\n -   1\n\nBy Tag\n------\ncli  2\nbug  1\n"
    );
}

#[test]
fn write_raw_empty() {
    let stats = SummaryStats::from_todos(&[]);
    assert_eq!(raw(&stats), "Summary\n=======\nTotal todos: 0\n");
}

#[test]
fn tag_table_aligns_columns() {
    let tags = counts(&[("cli", 12), ("feature", 3), ("é", 1)]);
    assert_eq!(
        tag_table(&tags),
        "cli     12\nfeature  3\né        1\n"
    );
    assert_eq!(tag_table(&counts(&[])), "");
}
