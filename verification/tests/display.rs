use todoozy::display::{num_digits, truncate_path};

#[test]
fn test_num_digits() {
    assert_eq!(num_digits(0), 1);
    assert_eq!(num_digits(1), 1);
    assert_eq!(num_digits(9), 1);
    assert_eq!(num_digits(10), 2);
    assert_eq!(num_digits(99), 2);
    assert_eq!(num_digits(100), 3);
}

#[test]
fn num_digits_of_largest_u32() {
    assert_eq!(num_digits(u32::MAX), 10);
    assert_eq!(num_digits(999_999_999), 9);
    assert_eq!(num_digits(1_000_000_000), 10);
}

#[test]
fn short_path_is_kept() {
    assert_eq!(truncate_path("src/main.rs"), "src/main.rs".to_string());
}

#[test]
fn leading_dot_slash_is_dropped() {
    assert_eq!(truncate_path("./src/main.rs"), "src/main.rs".to_string());
}

#[test]
fn long_directories_are_abbreviated() {
    assert_eq!(truncate_path("./src/cli/tui/display.rs"), "s/c/t/display.rs".to_string());
}

#[test]
fn long_file_name_is_cut_from_the_left() {
    assert_eq!(
        truncate_path("a/b/very_long_file_name_here.rs"),
        "..._name_here.rs".to_string()
    );
}

#[test]
fn path_of_exactly_sixteen_bytes_is_kept() {
    assert_eq!(truncate_path("abcdefgh/ijk.rst"), "abcdefgh/ijk.rst".to_string());
}

#[test]
fn try_truncate_path_refuses_empty_directories() {
    assert_eq!(
        todoozy::display::try_truncate_path("./src/main.rs:10"),
        Some("src/main.rs:10".to_string())
    );
    assert_eq!(
        todoozy::display::try_truncate_path("/absolute/path/to/file.rs"),
        None
    );
    assert_eq!(
        todoozy::display::try_truncate_path("dir//nested/file_name.rs"),
        None
    );
    assert_eq!(todoozy::display::try_truncate_path("/x.rs"), Some("/x.rs".to_string()));
}
