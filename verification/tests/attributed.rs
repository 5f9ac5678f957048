use termproof::attributed::cast_cell;
use termproof::screen::TermColor;
use termproof::screen::TerminalScreen;
use termproof::attributed::{
    attributed_screen_from_ansi_text, attributed_screen_from_lines, attributed_screen_from_text,
    cell_colors, css_color, from_vt100, palette_color, rgb_color, xml_escape, xterm_256_colors, AttributedCell,
    AttributedScreen, DEFAULT_BG, DEFAULT_COLUMNS, DEFAULT_FG, DEFAULT_ROWS,
};

fn screen(ansi: &str) -> AttributedScreen {
    attributed_screen_from_ansi_text(ansi, DEFAULT_COLUMNS, DEFAULT_ROWS)
}

#[test]
fn plain_text_keeps_default_attributes() {
    let s = screen("hi\n");
    assert_eq!(s.to_text(true), "hi");
    assert_eq!(s.rows[0][0], AttributedCell::plain("h"));
}

#[test]
fn sgr_sets_named_foreground() {
    let s = screen("\x1b[31mred\x1b[0m!");
    assert_eq!(s.rows[0][0].fg, "red");
    assert_eq!(s.rows[0][3].fg, "default");
    assert_eq!(s.to_text(true), "red!");
}

#[test]
fn sgr_sets_bright_background() {
    let s = screen("\x1b[103mx");
    assert_eq!(s.rows[0][0].bg, "brightbrown");
}

#[test]
fn attributes_carry_across_lines() {
    let s = screen("\x1b[32mgreen\nstill");
    assert_eq!(s.rows[1][0].fg, "green");
}

#[test]
fn style_codes_toggle() {
    let s = screen("\x1b[1;3;4;9;7mx\x1b[22;23;24;27;29my");
    let styled = &s.rows[0][0];
    assert!(styled.bold && styled.italic && styled.underline);
    assert!(styled.strikethrough && styled.reverse);
    let plain = &s.rows[0][1];
    assert!(!plain.bold && !plain.italic && !plain.underline);
    assert!(!plain.strikethrough && !plain.reverse);
    assert!(!plain.dim);
}

#[test]
fn xterm_256_indexed_color() {
    let s = screen("\x1b[38;5;196mx");
    assert_eq!(s.rows[0][0].fg, "ff0000");
    assert_eq!(cell_colors(&s.rows[0][0]).0, "#ff0000");
}

#[test]
fn xterm_256_grayscale_ramp_is_last() {
    assert_eq!(xterm_256_colors().len(), 256);
    assert_eq!(xterm_256_colors()[255], "eeeeee");
}

#[test]
fn truecolor_rgb() {
    let s = screen("\x1b[48;2;1;2;3mx");
    assert_eq!(s.rows[0][0].bg, "010203");
}

#[test]
fn truncated_extended_color_does_not_leak_into_next_code() {
    let s = screen("\x1b[38;5mx");
    assert_eq!(s.rows[0][0].fg, "default");
    let s = screen("\x1b[48;2;9mx");
    assert_eq!(s.rows[0][0].bg, "default");
}

#[test]
fn empty_sgr_params_reset() {
    let s = screen("\x1b[31ma\x1b[mb");
    assert_eq!(s.rows[0][0].fg, "red");
    assert_eq!(s.rows[0][1].fg, "default");
}

#[test]
fn non_sgr_escapes_are_skipped_without_emitting_cells() {
    let s = screen("\x1b[2Kab");
    assert_eq!(s.to_text(true), "ab");
}

#[test]
fn wide_char_gets_a_zero_width_filler() {
    let s = screen("\u{4f60}x");
    assert_eq!(s.rows[0][0].width, 2);
    assert_eq!(s.rows[0][1].width, 0);
    assert_eq!(s.rows[0][2].text, "x");
    assert_eq!(s.to_text(true), "\u{4f60}x");
}

#[test]
fn combining_mark_merges_into_the_previous_cell() {
    let s = screen("e\u{0301}");
    assert_eq!(s.rows[0].len(), 1);
    assert_eq!(s.rows[0][0].text, "\u{00e9}");
}

#[test]
fn tab_advances_to_the_next_eight_column_stop() {
    let s = screen("ab\tc");
    assert_eq!(s.rows[0].len(), 9);
    assert_eq!(s.rows[0][8].text, "c");
}

#[test]
fn columns_and_rows_are_clipped() {
    let s = attributed_screen_from_ansi_text("abcdef\nghi\njkl", 3, 2);
    assert_eq!(s.row_count(), 2);
    assert_eq!(s.column_count(), 3);
    assert_eq!(s.to_text(false), "abc\nghi");
}

#[test]
fn trailing_newline_does_not_add_a_row() {
    assert_eq!(screen("a\nb\n").row_count(), 2);
}

#[test]
fn from_lines_has_no_attributes() {
    let s = attributed_screen_from_lines(&["ab", "c"], 10, 10);
    assert_eq!(s.to_text(false), "ab\nc");
    assert!(s.rows[0].iter().all(|c| c.fg == "default"));
}

#[test]
fn from_text_splits_lines() {
    assert_eq!(attributed_screen_from_text("a\nb", 10, 10).to_text(false), "a\nb");
}

#[test]
fn trim_right_strips_padding() {
    let s = screen("hi   ");
    assert_eq!(s.to_text(false), "hi   ");
    assert_eq!(s.to_text(true), "hi");
}

#[test]
fn fingerprint_is_stable_and_attribute_sensitive() {
    let a = screen("\x1b[31mhi");
    let b = screen("\x1b[31mhi");
    let c = screen("\x1b[32mhi");
    let d = screen("ho");
    assert_eq!(a.render_fingerprint(), b.render_fingerprint());
    assert_ne!(a.render_fingerprint(), c.render_fingerprint());
    assert_ne!(a.render_fingerprint(), d.render_fingerprint());
}

#[test]
fn reverse_swaps_resolved_colors() {
    let s = screen("\x1b[7mx");
    let (fg, bg) = cell_colors(&s.rows[0][0]);
    assert_eq!(fg, DEFAULT_BG);
    assert_eq!(bg, DEFAULT_FG);
}

#[test]
fn unknown_color_name_falls_back_to_the_default() {
    assert_eq!(css_color("chartreuse", DEFAULT_FG), DEFAULT_FG);
    assert_eq!(css_color("abcdef", DEFAULT_FG), "#abcdef");
    assert_eq!(css_color("abcde", DEFAULT_FG), DEFAULT_FG);
}

#[test]
fn palette_names_and_cube_entries() {
    assert_eq!(palette_color(1), "red");
    assert_eq!(palette_color(15), "brightwhite");
    assert_eq!(palette_color(16), "000000");
    assert_eq!(palette_color(21), "0000ff");
    assert_eq!(palette_color(232), "080808");
    assert_eq!(palette_color(300), "default");
    assert_eq!(rgb_color(0, 171, 255), "00abff");
}

#[test]
fn css_color_is_case_insensitive_for_names() {
    assert_eq!(css_color("BrightRed", DEFAULT_BG), "#ffa198");
    assert_eq!(css_color("default", "#123456"), "#123456");
    assert_eq!(css_color("ABCDEF", DEFAULT_BG), "#abcdef");
}

#[test]
fn escapes_xml_specials() {
    assert_eq!(xml_escape("a<b>&c"), "a&lt;b&gt;&amp;c");
    assert_eq!(xml_escape("plain \"text\""), "plain \"text\"");
}

#[test]
fn carriage_returns_before_the_newline_are_dropped() {
    let s = screen("ab\r\r\ncd");
    assert_eq!(s.to_text(false), "ab\ncd");
}

#[test]
fn a_wide_glyph_in_the_last_column_has_no_filler() {
    let s = attributed_screen_from_ansi_text("a\u{4f60}", 2, 1);
    assert_eq!(s.rows[0].len(), 2);
    assert_eq!(s.rows[0][1].width, 2);
}

#[test]
fn plus_signed_and_colon_separated_params_parse() {
    let s = screen("\x1b[+31mx\x1b[38:5:21my");
    assert_eq!(s.rows[0][0].fg, "red");
    assert_eq!(s.rows[0][1].fg, "0000ff");
    let s = screen("\x1b[99999;1mz");
    assert!(s.rows[0][0].bold);
    assert_eq!(s.rows[0][0].fg, "default");
}

#[test]
fn escapes_past_the_last_column_are_not_applied() {
    let s = attributed_screen_from_ansi_text("ab\x1b[31m\ncd", 2, 5);
    assert_eq!(s.rows[1][0].fg, "default");
}

#[test]
fn emulated_screen_keeps_colors_text_and_cursor() {
    let mut t = TerminalScreen::new(10, 3);
    t.feed_str("\x1b[31mhi");
    let s = from_vt100(&t);
    assert_eq!(s.rows.len(), 3);
    assert_eq!(s.rows[0].len(), 10);
    assert_eq!(s.rows[0][0].text, "h");
    assert_eq!(s.rows[0][0].fg, "red");
    assert_eq!(s.rows[0][0].bg, "default");
    assert_eq!(s.rows[0][2].text, " ");
    assert_eq!(s.rows[0][2].fg, "default");
    assert_eq!((s.cursor_row, s.cursor_column, s.cursor_hidden), (0, 2, false));
}

#[test]
fn emulated_wide_glyph_has_a_zero_width_continuation() {
    let mut t = TerminalScreen::new(10, 2);
    t.feed_str("\u{4f60}x\x1b[?25l");
    let s = from_vt100(&t);
    assert_eq!(s.rows[0][0].text, "\u{4f60}");
    assert_eq!(s.rows[0][0].width, 2);
    assert_eq!(s.rows[0][1].text, "");
    assert_eq!(s.rows[0][1].width, 0);
    assert_eq!(s.rows[0][2].text, "x");
    assert!(s.cursor_hidden);
}

#[test]
fn emulated_styles_and_truecolor_are_named() {
    let mut t = TerminalScreen::new(10, 2);
    t.feed_str("\x1b[1;3;4;7;38;2;1;2;3mz");
    let s = from_vt100(&t);
    let c = &s.rows[0][0];
    assert!(c.bold && c.italic && c.underline && c.reverse);
    assert!(!c.dim && !c.strikethrough);
    assert_eq!(c.fg, "010203");
}

#[test]
fn a_cast_cell_keeps_the_players_width_and_drops_the_fillers_text() {
    let wide = cast_cell('界', 2, TermColor::Idx(1), TermColor::Default, (true, false, false, false, false, false));
    assert_eq!(wide.text, "界");
    assert_eq!(wide.width, 2);
    assert!(wide.bold);
    assert_eq!(wide.bg, "default");
    let filler = cast_cell(' ', 0, TermColor::Default, TermColor::Rgb(1, 2, 3), (false, true, false, false, true, true));
    assert_eq!(filler.text, "");
    assert_eq!(filler.width, 0);
    assert!(filler.dim && filler.strikethrough && filler.reverse);
    assert_eq!(cast_cell('x', 5, TermColor::Default, TermColor::Default, (false, false, false, false, false, false)).width, 2);
}
