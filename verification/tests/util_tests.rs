use nodes::util::{
    i32_string, is_node, is_uint, node_summary, short_string, split_lines, u32_string, u64_string,
    Order, Sort,
};

#[test]
fn short_string_fits() {
    assert_eq!(short_string("hello", 10), "hello");
}

#[test]
fn short_string_exact_length_untouched() {
    assert_eq!(short_string("hello", 5), "hello");
}

#[test]
fn short_string_truncates_with_ellipsis() {
    assert_eq!(short_string("hello world!", 8), "hello...");
}

#[test]
fn short_string_minimum_width() {
    assert_eq!(short_string("abcd", 3), "...");
}

#[test]
fn node_summary_single_line() {
    assert_eq!(node_summary("first\nsecond", 1, 80), "first");
}

#[test]
fn node_summary_multiline_marks_leftover() {
    assert_eq!(node_summary("l1\nl2\nl3", 2, 80), "l1\n\tl2\n\t[...]\n");
}

#[test]
fn node_summary_multiline_all_lines() {
    assert_eq!(node_summary("l1\nl2", 3, 80), "l1\n\tl2\n\t");
}

#[test]
fn node_summary_empty() {
    assert_eq!(node_summary("", 2, 80), "");
}

#[test]
fn node_summary_shortens_lines() {
    assert_eq!(node_summary("abcdefgh", 1, 6), "abc...");
}

#[test]
fn split_lines_drops_final_newline() {
    assert_eq!(split_lines("a\nb\n"), vec!["a".to_string(), "b".to_string()]);
}

#[test]
fn split_lines_strips_carriage_return() {
    assert_eq!(split_lines("a\r\nb"), vec!["a".to_string(), "b".to_string()]);
}

#[test]
fn decimal_formatting() {
    assert_eq!(u32_string(0), "0");
    assert_eq!(u32_string(42), "42");
    assert_eq!(u32_string(u32::MAX), "4294967295");
    assert_eq!(u64_string(18446744073709551615), "18446744073709551615");
}

#[test]
fn signed_formatting() {
    assert_eq!(i32_string(-7), "-7");
    assert_eq!(i32_string(7), "7");
    assert_eq!(i32_string(i32::MIN), "-2147483648");
}

#[test]
fn is_uint_accepts_numbers() {
    assert!(is_uint("123".to_string()).is_ok());
    assert!(is_uint("+5".to_string()).is_ok());
    assert!(is_uint("18446744073709551615".to_string()).is_ok());
}

#[test]
fn is_uint_rejects_junk() {
    assert!(is_uint("".to_string()).is_err());
    assert!(is_uint("+".to_string()).is_err());
    assert!(is_uint("12a".to_string()).is_err());
    assert!(is_uint("-3".to_string()).is_err());
    assert!(is_uint("18446744073709551616".to_string()).is_err());
}

#[test]
fn is_uint_error_message() {
    let e = is_uint("nope".to_string()).err().unwrap();
    assert_eq!(e, "Could not parse 'nope' as unsigned number");
}

#[test]
fn is_node_same_rule() {
    assert!(is_node("7".to_string()).is_ok());
    assert!(is_node("x".to_string()).is_err());
}

#[test]
fn order_names_and_toggle() {
    assert_eq!(Order::Asc.name(), "ASC");
    assert_eq!(Order::Desc.name(), "DESC");
    assert_eq!(Order::Asc.toggle(), Order::Desc);
    assert_eq!(Order::Desc.toggle(), Order::Asc);
}

#[test]
fn sort_names() {
    assert_eq!(Sort::ID.name(), "id");
    assert_eq!(Sort::Priority.name(), "priority");
    assert_eq!(Sort::Edited.name(), "edited");
}
