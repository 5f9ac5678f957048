use termproof::pyregex::{compile, translate};

fn is_match(pattern: &str, haystack: &str) -> bool {
    compile(pattern)
        .expect("pattern should compile")
        .is_match(haystack)
        .expect("match should not error")
}

#[test]
fn translates_the_end_of_string_anchor() {
    assert_eq!(translate("x\\Z").unwrap(), "x\\z");
    assert!(!is_match("x\\Z", "x\n"));
    assert!(is_match("x\\Z", "x"));
}

#[test]
fn leaves_other_escapes_alone() {
    assert_eq!(translate("\\A\\w+\\d\\\\").unwrap(), "\\A\\w+\\d\\\\");
}

#[test]
fn rejects_unicode_property_escapes() {
    assert_eq!(compile("\\p{L}").unwrap_err(), "unsupported escape \\p at position 0");
    assert_eq!(compile("ab\\P{L}").unwrap_err(), "unsupported escape \\P at position 2");
}

#[test]
fn a_doubled_backslash_does_not_swallow_the_next_escape() {
    assert!(compile("\\\\p").is_ok());
    assert!(compile("\\\\\\p{L}").is_err());
}

#[test]
fn rejects_an_inverted_repetition_range() {
    assert_eq!(compile("a{2,1}").unwrap_err(), "repetition range is inverted at position 1");
    assert!(compile("a{1,2}").is_ok());
    assert!(compile("a{2,}").is_ok());
    assert!(compile("a{2}").is_ok());
}

#[test]
fn an_open_ended_lower_bound_means_zero() {
    assert_eq!(translate("a{,3}").unwrap(), "a{0,3}");
    assert!(is_match("^a{,3}$", "aa"));
}

#[test]
fn a_brace_that_is_not_a_quantifier_is_a_literal() {
    assert!(is_match("a{", "a{"));
    assert!(is_match("a{}", "a{}"));
    assert!(is_match("a{,}", "a{,}"));
}

#[test]
fn braces_inside_a_character_class_are_literal() {
    assert!(is_match("[{2,1}]", "{"));
    assert!(is_match("[{2,1}]", ","));
}

#[test]
fn a_leading_close_bracket_is_a_class_member() {
    assert!(is_match("[]]", "]"));
    assert!(is_match("[^]]", "a"));
    assert!(!is_match("[^]]", "]"));
}

#[test]
fn rejects_a_property_escape_inside_a_class() {
    assert!(compile("[\\p{L}]").is_err());
}

#[test]
fn reports_a_trailing_backslash_rather_than_dropping_it() {
    assert_eq!(compile("ab\\").unwrap_err(), "trailing backslash at position 2");
}

#[test]
fn engine_errors_stay_on_one_line() {
    let err = compile("[bad").unwrap_err();
    assert!(!err.contains('\n'), "{err:?}");
}

#[test]
fn counts_positions_in_characters_not_bytes() {
    assert_eq!(compile("é\\p{L}").unwrap_err(), "unsupported escape \\p at position 1");
}

#[test]
fn translation_rewrites_only_what_it_must() {
    assert_eq!(translate("a{1,2}b{3}").unwrap(), "a{1,2}b{3}");
    assert_eq!(translate("[\\Z]").unwrap(), "[\\Z]");
    assert_eq!(translate("[^]x]").unwrap(), "[^\\]x]");
    assert_eq!(translate("{x").unwrap(), "\\{x");
    assert_eq!(translate("a{99999999999999999999999}").unwrap(), "a\\{99999999999999999999999}");
    assert_eq!(translate("a{99999999999999999999999,3}").unwrap(), "a{0,3}");
    assert_eq!(translate("a{12,345678}").unwrap(), "a{12,345678}");
    assert_eq!(translate("x{10,2}").unwrap_err(), "repetition range is inverted at position 1");
}
