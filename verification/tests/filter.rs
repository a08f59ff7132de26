use todoozy::filter::{
    parse_expression, parse_str, All, Conjunction, Disjunction, Filter, Negation, Property,
    PropertyFilter, Relation,
};
use todoozy::filter::parser::{and, or, property, property_filter, relation, ErrorKind};
use todoozy::todo::{Date, Todo, TodoBuilder};

fn with_projects(projects: &[&str]) -> Todo {
    TodoBuilder::default()
        .projects(projects.iter().map(|p| p.to_string()).collect())
        .build()
        .unwrap()
}

fn date(year: i32, month: u32, day: u32) -> Option<Date> {
    Some(Date { year, month, day })
}

#[test]
fn filter_test_property_filter() {
    let filter = PropertyFilter {
        property: Property::Priority,
        relation: Relation::Equal,
        value: "A".to_string(),
    };
    assert_eq!(
        filter.filter(&TodoBuilder::default().priority(Some('A')).build().unwrap()),
        true
    );

    let filter = PropertyFilter {
        property: Property::Priority,
        relation: Relation::Greater,
        value: "A".to_string(),
    };
    assert_eq!(
        filter.filter(&TodoBuilder::default().priority(Some('B')).build().unwrap()),
        false
    );
}

#[test]
fn test_term() {
    let f = parse_expression("project=Test").expect("Failed to parse");
    assert!(f.filter(&with_projects(&["Test"])));

    let f = parse_expression("project=Test and project=Else").expect("Failed to parse");
    assert!(!f.filter(&with_projects(&["Test"])));
    assert!(f.filter(&with_projects(&["Test", "Else"])));
}

#[test]
fn test_disjunction() {
    let f = parse_expression("project=p1 or project=p2").expect("Failed to parse");
    assert!(f.filter(&with_projects(&["p1"])));
}

#[test]
fn test_conjunction() {
    let f = parse_expression("project=p1 and project=p2").expect("Failed to parse");
    assert!(f.filter(&with_projects(&["p1", "p2"])));
}

#[test]
fn test_expression() {
    let f = parse_expression("priority=A").expect("Failed to parse");
    assert!(f.filter(&TodoBuilder::default().priority(Some('A')).build().unwrap()));
    assert!(!f.filter(&TodoBuilder::default().priority(Some('B')).build().unwrap()));

    let f = parse_expression("project=p1 and project=p2").expect("Failed to parse");
    assert!(f.filter(&with_projects(&["p1", "p2"])));
    assert!(!f.filter(&with_projects(&["p2"])));

    let f = parse_expression("project=p1 or project=p2").expect("Failed to parse");
    assert!(f.filter(&with_projects(&["p1"])));
    assert!(f.filter(&with_projects(&["p2"])));
    assert!(!f.filter(&TodoBuilder::default().build().unwrap()));

    let f = parse_expression("project=p1 and project=p2 or project=p3").expect("Failed to parse");
    assert!(f.filter(&with_projects(&["p1", "p2"])));
    assert!(f.filter(&with_projects(&["p1", "p3"])));
    assert!(!f.filter(&with_projects(&["p1"])));
    assert!(!f.filter(&with_projects(&["p2"])));

    let f = parse_expression("(project=p1 and project=p2) or project=p3").expect("Failed to parse");
    assert!(f.filter(&with_projects(&["p1", "p2"])));
    assert!(f.filter(&with_projects(&["p1", "p3"])));
    assert!(f.filter(&with_projects(&["p3"])));
    assert!(!f.filter(&with_projects(&["p1"])));

    let f = parse_expression("(project=p1 and (project=p2 or project=p3)) or project=p4")
        .expect("Failed to parse");
    assert!(f.filter(&with_projects(&["p1", "p2"])));
    assert!(f.filter(&with_projects(&["p1", "p3"])));
    assert!(f.filter(&with_projects(&["p4"])));
    assert!(!f.filter(&with_projects(&["p1"])));

    let f = parse_expression("creation_date>=2024-08-22").expect("Failed to parse");
    assert!(f.filter(&TodoBuilder::default().creation_date(date(2024, 8, 23)).build().unwrap()));
    assert!(f.filter(&TodoBuilder::default().creation_date(date(2024, 8, 22)).build().unwrap()));
    assert!(!f.filter(&TodoBuilder::default().creation_date(date(2024, 8, 21)).build().unwrap()));
}

#[test]
fn parse_str_takes_an_owned_string() {
    let f = parse_str("context=home".to_string()).expect("Failed to parse");
    let todo = TodoBuilder::default().contexts(vec!["home".to_string()]).build().unwrap();
    assert!(f.filter(&todo));
}

#[test]
fn unknown_property_is_reported_with_the_input() {
    match parse_expression("colour=red") {
        Err(e) => assert_eq!(
            e,
            "Failed to parse filter expression: Error(Error { input: \"colour=red\", code: Tag })"
        ),
        Ok(_) => panic!("expected an error"),
    }
}

#[test]
fn missing_relation_is_reported_after_the_property() {
    match parse_expression("project~x") {
        Err(e) => assert_eq!(
            e,
            "Failed to parse filter expression: Error(Error { input: \"~x\", code: Tag })"
        ),
        Ok(_) => panic!("expected an error"),
    }
}

#[test]
fn empty_value_is_reported() {
    match parse_expression("project= x") {
        Err(e) => assert_eq!(
            e,
            "Failed to parse filter expression: Error(Error { input: \" x\", code: IsNot })"
        ),
        Ok(_) => panic!("expected an error"),
    }
}

#[test]
fn trailing_text_is_ignored() {
    let f = parse_expression("project=p1 garbage").expect("Failed to parse");
    assert!(f.filter(&with_projects(&["p1"])));
}

#[test]
fn priority_orders_letters_in_reverse() {
    let high = TodoBuilder::default().priority(Some('A')).build().unwrap();
    let none = TodoBuilder::default().build().unwrap();
    let f = parse_expression("priority>B").unwrap();
    assert!(f.filter(&high));
    assert!(!f.filter(&none));
    let f = parse_expression("priority<=Y").unwrap();
    assert!(f.filter(&none));
    assert!(!f.filter(&high));
}

#[test]
fn file_compares_as_text() {
    let todo = TodoBuilder::default().file(Some("src/b.rs".to_string())).build().unwrap();
    assert!(parse_expression("file>src/a.rs").unwrap().filter(&todo));
    assert!(parse_expression("file!=src/a.rs").unwrap().filter(&todo));
    assert!(!parse_expression("file<src/b.rs").unwrap().filter(&todo));
    let nowhere = TodoBuilder::default().build().unwrap();
    assert!(parse_expression("file<a").unwrap().filter(&nowhere));
}

#[test]
fn ordering_relations_never_hold_of_projects() {
    let todo = with_projects(&["p1"]);
    assert!(!parse_expression("project>p0").unwrap().filter(&todo));
    assert!(parse_expression("project!=p0").unwrap().filter(&todo));
}

#[test]
fn completion_date_that_is_no_date_cannot_be_evaluated() {
    let f = parse_expression("completion_date=someday").unwrap();
    let todo = TodoBuilder::default().build().unwrap();
    assert_eq!(f.try_filter(&todo), None);
    let f = parse_expression("creation_date=someday").unwrap();
    assert_eq!(f.try_filter(&todo), Some(false));
    let f = parse_expression("completion_date<2020-01-01").unwrap();
    assert_eq!(f.try_filter(&todo), Some(true));
}

#[test]
fn combinators_evaluate_as_named() {
    let todo = with_projects(&["p1"]);
    let yes = || {
        Filter::Property(PropertyFilter {
            property: Property::Project,
            relation: Relation::Equal,
            value: "p1".to_string(),
        })
    };
    let no = || {
        Filter::Property(PropertyFilter {
            property: Property::Project,
            relation: Relation::Equal,
            value: "p2".to_string(),
        })
    };
    assert!(Disjunction { filters: vec![no(), yes()] }.filter(&todo));
    assert!(!Disjunction { filters: vec![] }.filter(&todo));
    assert!(!Conjunction { filters: vec![no(), yes()] }.filter(&todo));
    assert!(Conjunction { filters: vec![] }.filter(&todo));
    assert!(Negation { filter: Box::new(no()) }.filter(&todo));
    assert!(All {}.filter(&todo));
    assert!(Filter::All(All {}).filter(&todo));
}

fn rest(s: &str) -> String {
    s.to_string()
}

#[test]
fn test_property() {
    assert_eq!(property("file"), Some((rest(""), Property::File)));
    assert_eq!(property("priority"), Some((rest(""), Property::Priority)));
    assert_eq!(property("project"), Some((rest(""), Property::Project)));
    assert_eq!(property("context"), Some((rest(""), Property::Context)));
    assert_eq!(property("creation_date"), Some((rest(""), Property::CreationDate)));
    assert_eq!(
        property("completion_date"),
        Some((rest(""), Property::CompletionDate))
    );
}

#[test]
fn test_relation() {
    assert_eq!(relation("="), Some((rest(""), Relation::Equal)));
    assert_eq!(relation("!="), Some((rest(""), Relation::NotEqual)));
    assert_eq!(relation(">"), Some((rest(""), Relation::Greater)));
    assert_eq!(relation(">="), Some((rest(""), Relation::GreaterEqual)));
    assert_eq!(relation("<"), Some((rest(""), Relation::Less)));
    assert_eq!(relation("<="), Some((rest(""), Relation::LessEqual)));
}

#[test]
fn parser_test_property_filter() {
    assert_eq!(
        property_filter("project=Test"),
        Ok((
            rest(""),
            PropertyFilter {
                property: Property::Project,
                relation: Relation::Equal,
                value: "Test".to_owned()
            }
        ))
    );
    assert_eq!(
        property_filter("context=Test"),
        Ok((
            rest(""),
            PropertyFilter {
                property: Property::Context,
                relation: Relation::Equal,
                value: "Test".to_owned()
            }
        ))
    );
    assert_eq!(
        property_filter("file=Test"),
        Ok((
            rest(""),
            PropertyFilter {
                property: Property::File,
                relation: Relation::Equal,
                value: "Test".to_owned()
            }
        ))
    );
}

#[test]
fn test_and() {
    assert_eq!(and("and "), Some((rest(""), rest("and"))));
    assert_eq!(and(" and "), Some((rest(""), rest("and"))));
    assert_eq!(and("  and  "), Some((rest(""), rest("and"))));
    assert_eq!(and("  and "), Some((rest(""), rest("and"))));
}

#[test]
fn test_or() {
    assert_eq!(or("or "), Some((rest(""), rest("or"))));
    assert_eq!(or(" or "), Some((rest(""), rest("or"))));
    assert_eq!(or("  or  "), Some((rest(""), rest("or"))));
    assert_eq!(or("  or "), Some((rest(""), rest("or"))));
}

#[test]
fn grammar_pieces_leave_the_rest() {
    assert_eq!(property("priority>B"), Some((rest(">B"), Property::Priority)));
    assert_eq!(property("title=x"), None);
    assert_eq!(relation(">=2024"), Some((rest("2024"), Relation::GreaterEqual)));
    assert_eq!(relation("~"), None);
    assert_eq!(
        property_filter("project= x"),
        Err((rest(" x"), ErrorKind::IsNot))
    );
    assert_eq!(property_filter("owner=me"), Err((rest("owner=me"), ErrorKind::Tag)));
    assert_eq!(and("and"), None);
    assert_eq!(or("nor "), None);
    assert_eq!(and(" and x"), Some((rest("x"), rest("and"))));
}

#[test]
fn select_keeps_matching_todos_in_order() {
    let todos = vec![
        todoozy::syntax::todo_of("(A) one", None, 1),
        todoozy::syntax::todo_of("(B) two", None, 2),
        todoozy::syntax::todo_of("(A) three", None, 3),
    ];
    let filter = todoozy::filter::parse_str("priority=A".to_string()).unwrap();
    let kept = filter.select(todos).unwrap();
    let titles: Vec<&str> = kept.iter().map(|t| t.title.as_str()).collect();
    assert_eq!(titles, vec!["one", "three"]);
}

#[test]
fn select_refuses_a_filter_it_cannot_evaluate() {
    let todos = vec![todoozy::syntax::todo_of("(A) one", None, 1)];
    let filter = todoozy::filter::Filter::Property(PropertyFilter {
        property: Property::CompletionDate,
        relation: Relation::Equal,
        value: "not a date".to_string(),
    });
    assert!(filter.select(todos).is_none());
    assert!(filter.select(Vec::new()).unwrap().is_empty());
}
