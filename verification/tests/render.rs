use termproof::render::{normalize_text, renders_as_png};

#[test]
fn normalize_text_trims_lines_and_trailing_blanks() {
    assert_eq!(normalize_text("a  \nb\t\n\n\n"), "a\nb");
}

#[test]
fn normalize_keeps_inner_blank_lines_and_leading_space() {
    assert_eq!(normalize_text("  a\n\n b \r\n   \n"), "  a\n\n b");
    assert_eq!(normalize_text(""), "");
    assert_eq!(normalize_text("\n\n"), "");
}

#[test]
fn the_suffix_chooses_the_renderer() {
    assert!(renders_as_png("out/shot.png"));
    assert!(renders_as_png("out/shot.PNG"));
    assert!(renders_as_png("./a.b.Png/"));
    assert!(!renders_as_png("out/shot.svg"));
    assert!(!renders_as_png("out/shot"));
    assert!(!renders_as_png(".png"));
    assert!(!renders_as_png("out/png"));
    assert!(!renders_as_png("x.png/.."));
    assert!(!renders_as_png(""));
}

#[test]
fn normalising_twice_changes_nothing() {
    for t in ["a  \nb\t\n\n\n", "", "\n\n", "  x \n\n y\t", "tail \u{a0}"] {
        let once = normalize_text(t);
        assert_eq!(normalize_text(&once), once);
        assert!(once.lines().all(|l| !l.ends_with(char::is_whitespace)));
    }
}
