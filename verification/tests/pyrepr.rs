use termproof::pyrepr::{repr_str, repr_tuple};

#[test]
fn strings_use_single_quotes() {
    assert_eq!(repr_str("hello"), "'hello'");
    assert_eq!(repr_str(""), "''");
}

#[test]
fn an_apostrophe_flips_the_delimiter() {
    assert_eq!(repr_str("it's"), "\"it's\"");
}

#[test]
fn both_quote_characters_keep_single_quotes() {
    assert_eq!(repr_str("it's \"quoted\""), "'it\\'s \"quoted\"'");
}

#[test]
fn a_double_quote_alone_needs_no_escaping() {
    assert_eq!(repr_str("say \"hi\""), "'say \"hi\"'");
}

#[test]
fn escapes_the_characters_python_escapes() {
    assert_eq!(repr_str("a\nb\tc\rd\\e"), "'a\\nb\\tc\\rd\\\\e'");
    assert_eq!(repr_str("\u{0}\u{1b}\u{7f}"), "'\\x00\\x1b\\x7f'");
}

#[test]
fn leaves_printable_non_ascii_alone() {
    assert_eq!(repr_str("héllo →"), "'héllo →'");
}

#[test]
fn a_one_element_tuple_keeps_its_comma() {
    assert_eq!(repr_tuple(&["'a'".into()]), "('a',)");
    assert_eq!(repr_tuple(&["'a'".into(), "'b'".into()]), "('a', 'b')");
    assert_eq!(repr_tuple(&[]), "()");
}

#[test]
fn c1_controls_are_hex_escaped() {
    assert_eq!(repr_str("\u{85}x\u{9f}"), "'\\x85x\\x9f'");
    assert_eq!(repr_str("\u{a0}"), "'\u{a0}'");
}

#[test]
fn three_items_join_with_commas() {
    assert_eq!(repr_tuple(&["1".into(), "2".into(), "3".into()]), "(1, 2, 3)");
}
