use todoozy::cli::{LintOptions, Override, SummaryOptions, TagListOptions, split_commas};
use todoozy::cli::{OutputFormat, TodoID};
use todoozy::summary::SortOrder;

#[test]
fn output_format_parse() {
    assert_eq!(OutputFormat::parse("table"), Ok(OutputFormat::Table));
    assert_eq!(OutputFormat::parse("JSON"), Ok(OutputFormat::Json));
    assert_eq!(OutputFormat::parse("Json"), Ok(OutputFormat::Json));
    assert_eq!(
        OutputFormat::parse("XML"),
        Err("unknown format 'xml', expected 'table' or 'json'".to_string())
    );
}

#[test]
fn sort_order_parse() {
    assert_eq!(SortOrder::parse("name"), Ok(SortOrder::Name));
    assert_eq!(SortOrder::parse("COUNT"), Ok(SortOrder::Count));
    assert_eq!(
        SortOrder::parse("Size"),
        Err("unknown sort 'size', expected 'name' or 'count'".to_string())
    );
}

#[test]
fn todo_id_parse_number() {
    assert_eq!(TodoID::parse("54"), Ok(TodoID::Legacy(54)));
    assert_eq!(TodoID::parse("+7"), Ok(TodoID::Legacy(7)));
    assert_eq!(TodoID::parse("4294967295"), Ok(TodoID::Legacy(u32::MAX)));
}

#[test]
fn todo_id_parse_hash() {
    assert_eq!(
        TodoID::parse("4294967296"),
        Ok(TodoID::Hash("4294967296".to_string()))
    );
    assert_eq!(TodoID::parse("abc"), Ok(TodoID::Hash("abc".to_string())));
    assert_eq!(
        TodoID::parse("DEADbeef"),
        Ok(TodoID::Hash("DEADbeef".to_string()))
    );
}

#[test]
fn todo_id_parse_invalid() {
    assert_eq!(
        TodoID::parse("xyz"),
        Err("invalid ID 'xyz', expected a number or hexadecimal hash".to_string())
    );
    assert_eq!(
        TodoID::parse(""),
        Err("invalid ID '', expected a number or hexadecimal hash".to_string())
    );
    assert_eq!(
        TodoID::parse("-1"),
        Err("invalid ID '-1', expected a number or hexadecimal hash".to_string())
    );
    assert_eq!(
        TodoID::parse("+"),
        Err("invalid ID '+', expected a number or hexadecimal hash".to_string())
    );
    assert_eq!(
        TodoID::parse("10000000000000000"),
        Err("invalid ID '10000000000000000', expected a number or hexadecimal hash".to_string())
    );
}

#[test]
fn todo_id_to_string() {
    assert_eq!(TodoID::Legacy(42).to_string(), "#42");
    assert_eq!(TodoID::Legacy(0).to_string(), "#0");
    assert_eq!(TodoID::Legacy(u32::MAX).to_string(), "#4294967295");
    assert_eq!(TodoID::Hash("abc123".to_string()).to_string(), "abc123");
}

#[test]
fn values_parse_through_from_str() {
    assert_eq!("json".parse::<OutputFormat>(), Ok(OutputFormat::Json));
    assert_eq!("count".parse::<SortOrder>(), Ok(SortOrder::Count));
    assert_eq!("12".parse::<TodoID>(), Ok(TodoID::Legacy(12)));
}

#[test]
fn exclude_lists_split_at_commas() {
    assert_eq!(split_commas("foo,bar,baz"), vec!["foo", "bar", "baz"]);
    assert_eq!(split_commas("foo"), vec!["foo"]);
    assert_eq!(split_commas(""), vec![""]);
    assert_eq!(split_commas("a,,b,"), vec!["a", "", "b", ""]);
}

#[test]
fn flags_override_configuration() {
    assert_eq!(Override::NotSet.apply(Some(1)), Some(1));
    assert_eq!(Override::Unset.apply(Some(1)), None);
    assert_eq!(Override::Value(2).apply(Some(1)), Some(2));
    assert_eq!(Override::Value(2).apply(None), Some(2));
    assert!(matches!(Override::<u8>::default(), Override::NotSet));
}

#[test]
fn option_defaults() {
    let t = TagListOptions::default();
    assert_eq!(t.limit, None);
    assert_eq!(t.format, OutputFormat::Table);
    assert_eq!(t.sort, SortOrder::Name);
    assert_eq!(SummaryOptions::default().format, OutputFormat::Table);
    assert!(!LintOptions::default().fix);
}
