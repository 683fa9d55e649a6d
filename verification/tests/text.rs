use dtsfmt::kind::{classify, Kind};
use dtsfmt::text::{
    begins_with, byte_width, ends_blank, is_white_space, join_words, same, split_words,
    strip_slashes, to_decimal, trim,
};

#[test]
fn trim_agrees_with_the_standard_library() {
    for s in ["", " ", " a b ", "\t\u{3000}x\u{a0}\n", "é\u{85}", "\u{200b}a\u{200b}", "\u{180e}"] {
        assert_eq!(trim(s), s.trim());
    }
}

#[test]
fn white_space_agrees_with_the_standard_library() {
    for code in 0..0x110000u32 {
        if let Some(c) = char::from_u32(code) {
            assert_eq!(is_white_space(c), c.is_whitespace());
        }
    }
}

#[test]
fn words_agree_with_the_standard_library() {
    for s in ["", "  ", "a", " 01  02\n\t03 ", "é\u{2003}b"] {
        let expected: Vec<String> = s.split_whitespace().map(|w| w.to_string()).collect();
        assert_eq!(split_words(s), expected);
    }
}

#[test]
fn slashes_are_stripped_in_pairs() {
    for s in ["", "/", "//", "///a", "////a", "// //a", "a//"] {
        assert_eq!(strip_slashes(s), s.trim_start_matches("//"));
    }
}

#[test]
fn blank_end_is_two_newlines() {
    assert!(ends_blank("a\n\n"));
    assert!(ends_blank("\n\n"));
    assert!(!ends_blank("a\n"));
    assert!(!ends_blank("\n"));
    assert!(!ends_blank(""));
    assert!(!ends_blank("\n\né"));
    assert!(!ends_blank("\né\n"));
}

#[test]
fn texts_are_compared_and_measured() {
    assert!(same("é", "é"));
    assert!(!same("e", "é"));
    assert!(!same("a", "ab"));
    assert!(begins_with("//x", "//"));
    assert!(!begins_with("/", "//"));
    assert!(begins_with("x", ""));
    assert_eq!(byte_width("aé"), 3);
}

#[test]
fn numbers_are_decimal() {
    for n in [0, 7, 9, 10, 42, 100, 12345, usize::MAX] {
        assert_eq!(to_decimal(n), n.to_string());
    }
}

#[test]
fn words_are_joined_with_spaces() {
    let parts = vec!["a".to_string(), "b".to_string(), "c".to_string()];
    assert_eq!(join_words(&parts, 0, 3), "a b c");
    assert_eq!(join_words(&parts, 1, 2), "b");
    assert_eq!(join_words(&parts, 2, 2), "");
}

#[test]
fn kinds_are_told_by_name() {
    assert_eq!(classify("preproc_def"), Kind::PreprocDef);
    assert_eq!(classify("&{"), Kind::PathOpen);
    assert_eq!(classify("ERROR"), Kind::Other);
    assert_eq!(classify(""), Kind::Other);
}
