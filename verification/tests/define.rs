use dtsfmt::define::split_define_value_comment;

fn split(raw: &str) -> (String, Option<String>) {
    split_define_value_comment(raw)
}

#[test]
fn value_without_comment_is_trimmed() {
    assert_eq!(split("  LS(0x87) "), ("LS(0x87)".to_string(), None));
    assert_eq!(split(""), (String::new(), None));
    assert_eq!(split("a / b"), ("a / b".to_string(), None));
}

#[test]
fn comment_is_split_off() {
    assert_eq!(split(" AT // \""), ("AT".to_string(), Some("\"".to_string())));
    assert_eq!(split("1//one // two"), ("1".to_string(), Some("one // two".to_string())));
    assert_eq!(split("// only"), (String::new(), Some("only".to_string())));
}

#[test]
fn blank_comment_is_dropped() {
    assert_eq!(split("X //  "), ("X".to_string(), None));
}

#[test]
fn slashes_in_quotes_open_no_comment() {
    assert_eq!(split("\"a//b\" // c"), ("\"a//b\"".to_string(), Some("c".to_string())));
    assert_eq!(split("'//' 1"), ("'//' 1".to_string(), None));
    assert_eq!(split("\"'\" // c"), ("\"'\"".to_string(), Some("c".to_string())));
}

#[test]
fn backslash_hides_the_next_character() {
    assert_eq!(split("\"\\\"//\" // c"), ("\"\\\"//\"".to_string(), Some("c".to_string())));
    assert_eq!(split("\\// x"), ("\\// x".to_string(), None));
    assert_eq!(split("\\/// x"), ("\\/".to_string(), Some("x".to_string())));
}

#[test]
fn splitting_a_value_again_changes_nothing() {
    for raw in ["  a // b", "\"//\" x // y", "\\// z", "  "] {
        let (value, _) = split(raw);
        assert_eq!(split(&value), (value.clone(), None));
    }
}

#[test]
fn parts_read_back_behind_any_number_of_spaces() {
    let parts = (r"a\".to_string(), Some("b // c".to_string()));
    assert_eq!(split(r"a\ // b // c"), parts);
    assert_eq!(split(r"a\     // b // c"), parts);
    assert_eq!(split("\t a\\ // b // c  "), parts);
}
