use smart_read::choice::{decimal_string, numbered_options, InputOption, ListConstraintError};

#[test]
fn display_string_forms() {
    let with = InputOption::new("1", &["red", "r"], ());
    let without = InputOption::new_without_bulletin(&["red"], ());
    assert_eq!(with.get_display_string(Some(true)), "[1: red]");
    assert_eq!(with.get_display_string(Some(false)), " 1: red ");
    assert_eq!(with.get_display_string(None), "1: red");
    assert_eq!(without.get_display_string(Some(true)), "[red]");
    assert_eq!(without.get_display_string(Some(false)), " red ");
    assert_eq!(without.get_display_string(None), "red");
}

#[test]
fn name_is_first_name_or_placeholder() {
    let named = InputOption::new("1", &["red", "r"], 7);
    assert_eq!(named.get_name(), "red");
    assert_eq!(named.extra_data, 7);
    assert_eq!(named.bulletin_string.as_deref(), Some("1"));
    assert_eq!(named.names, vec!["red".to_string(), "r".to_string()]);
    let empty: InputOption<()> = InputOption::new_without_bulletin(&[], ());
    assert_eq!(empty.get_name(), "[unnamed]");
    assert_eq!(empty.get_display_string(None), "[unnamed]");
}

#[test]
fn decimal_strings() {
    assert_eq!(decimal_string(0), "0");
    assert_eq!(decimal_string(7), "7");
    assert_eq!(decimal_string(120), "120");
    assert_eq!(decimal_string(usize::MAX), usize::MAX.to_string());
}

#[test]
fn numbered_options_count_from_one() {
    let labels = vec!["a".to_string(), "b".to_string(), "c".to_string()];
    let opts = numbered_options(&labels);
    assert_eq!(opts.len(), 3);
    assert_eq!(opts[0].bulletin_string.as_deref(), Some("1"));
    assert_eq!(opts[2].bulletin_string.as_deref(), Some("3"));
    assert_eq!(opts[1].names, vec!["b".to_string()]);
}

#[test]
fn empty_list_error_message() {
    assert_eq!(ListConstraintError::EmptyList.message(), "List Constraint is empty");
}
