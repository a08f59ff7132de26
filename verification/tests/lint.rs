use todoozy::lint::{
    fix_failed, fix_warning, lint_fix, lint_report_failed, max_primary, record_rewrite, warnings,
    FixAction, FixProgress, LinkingWarning,
};
use todoozy::todo::{Todo, TodoBuilder, TodoIdentifier};

fn with(id: Option<TodoIdentifier>) -> Todo {
    TodoBuilder::default().id(id).build().unwrap()
}

fn primary(n: u32) -> Option<TodoIdentifier> {
    Some(TodoIdentifier::Primary(n))
}

fn reference(n: u32) -> Option<TodoIdentifier> {
    Some(TodoIdentifier::Reference(n))
}

#[test]
fn no_warnings_for_distinct_numbers() {
    let todos = vec![with(primary(1)), with(primary(2)), with(reference(1)), with(None)];
    assert!(warnings(&todos).is_empty());
}

#[test]
fn duplicates_and_orphans_are_reported_in_order() {
    let todos = vec![
        with(primary(3)),
        with(reference(9)),
        with(primary(3)),
        with(primary(4)),
        with(primary(3)),
    ];
    assert_eq!(
        warnings(&todos),
        vec![
            LinkingWarning::OrphanReference { id: 9, at: 1 },
            LinkingWarning::DuplicatePrimary {
                id: 3,
                first: 0,
                duplicate: 2
            },
            LinkingWarning::DuplicatePrimary {
                id: 3,
                first: 0,
                duplicate: 4
            },
        ]
    );
}

#[test]
fn fix_renumbers_duplicates_after_the_largest_number() {
    let ws = vec![
        LinkingWarning::OrphanReference { id: 9, at: 1 },
        LinkingWarning::DuplicatePrimary {
            id: 3,
            first: 0,
            duplicate: 2,
        },
        LinkingWarning::DuplicatePrimary {
            id: 3,
            first: 0,
            duplicate: 4,
        },
    ];
    assert_eq!(lint_fix(&ws, 4), (vec![(2, 5), (4, 6)], 1, true));
    assert_eq!(lint_fix(&[], 4), (vec![], 0, false));
}

#[test]
fn fixing_step_by_step_follows_load_and_rewrite_outcomes() {
    let start = FixProgress {
        max_id: 4,
        fixed: 0,
        remaining: 0,
    };
    let dup = LinkingWarning::DuplicatePrimary {
        id: 3,
        first: 0,
        duplicate: 2,
    };
    let (p, a) = fix_warning(start, dup, true);
    assert_eq!(a, FixAction::Rewrite { at: 2, old: 3, new: 5 });
    assert_eq!(p.max_id, 5);
    let p = record_rewrite(p, false);
    assert_eq!((p.fixed, p.remaining), (0, 1));
    let (p, a) = fix_warning(p, dup, false);
    assert_eq!(a, FixAction::Leave);
    assert_eq!((p.max_id, p.remaining), (5, 2));
    let (p, a) = fix_warning(p, LinkingWarning::OrphanReference { id: 9, at: 1 }, true);
    assert_eq!(a, FixAction::Leave);
    assert_eq!(p.remaining, 3);
    let p = record_rewrite(p, true);
    assert_eq!(p.fixed, 1);
    assert!(fix_failed(p));
    assert!(!fix_failed(start));
}

#[test]
fn exit_status_of_checking() {
    assert!(!lint_report_failed(&[]));
    assert!(lint_report_failed(&[LinkingWarning::OrphanReference { id: 1, at: 0 }]));
    let todos = vec![with(primary(3)), with(reference(8)), with(primary(7)), with(None)];
    assert_eq!(max_primary(&todos), 7);
    assert_eq!(max_primary(&[]), 0);
}
