//! A terminal screen with per-cell attributes.
//!
//! Every cell carries its glyph, foreground, background, bold, dim, italic,
//! underline, strikethrough, reverse and display width. Screens are built from
//! plain text, or from captured text that still has its SGR escape sequences
//! (`tmux capture-pane -e`); the parser's state machine is stated as spec
//! functions and the builders are proved against it.
use vstd::prelude::*;
use crate::text::{string_seqs, lemma_string_seqs_push};
use crate::screen::{cell_grid_view, vt100_cells, vt100_cursor, EmulatedCell, EmulatedCellView, TermColor, TerminalScreen};
use crate::text::{
    chars_eq, chars_of, join, join_chars, lines_chars, lines_of, push_str, split_chars, split_on,
    str_eq, string_of, string_of_char, trim_end, trim_end_chars, unicode_alphabetic, unicode_control,
    lemma_views_push, hex2, push_hex2, digits_value, all_digits,
    unicode_lowercase, lowercase_chars, views, is_alphabetic, is_control,
};

verus! {

broadcast use vstd::string::group_string_axioms;

/// Default grid width, in columns.
pub const DEFAULT_COLUMNS: usize = 120;

/// Default grid height, in rows.
pub const DEFAULT_ROWS: usize = 40;

/// Foreground used for a cell with no explicit colour.
pub const DEFAULT_FG: &'static str = "#e6edf3";

/// Background used for a cell with no explicit colour, and for the page.
pub const DEFAULT_BG: &'static str = "#0b0f14";

/// Format a true-colour triple the way a cell's colour expects: six
/// lowercase hex digits.
pub open spec fn rgb_spec(r: int, g: int, b: int) -> Seq<char> {
    hex2(r) + hex2(g) + hex2(b)
}

/// Format a true-colour triple the way a cell's colour expects.
pub fn rgb_color(r: u8, g: u8, b: u8) -> (s: String)
    ensures
        s@ == rgb_spec(r as int, g as int, b as int),
{
    let mut v: Vec<char> = Vec::new();
    push_hex2(&mut v, r);
    push_hex2(&mut v, g);
    push_hex2(&mut v, b);
    assert(v@ =~= rgb_spec(r as int, g as int, b as int));
    string_of(v.as_slice())
}

// ---------------------------------------------------------------------------
// Palettes
// ---------------------------------------------------------------------------

/// Name of the `i`-th of the 16 named palette entries.
pub open spec fn palette_name(i: int) -> Seq<char> {
    if i == 0 { "black"@ } else if i == 1 { "red"@ } else if i == 2 { "green"@ }
    else if i == 3 { "brown"@ } else if i == 4 { "blue"@ } else if i == 5 { "magenta"@ }
    else if i == 6 { "cyan"@ } else if i == 7 { "white"@ } else if i == 8 { "brightblack"@ }
    else if i == 9 { "brightred"@ } else if i == 10 { "brightgreen"@ }
    else if i == 11 { "brightbrown"@ } else if i == 12 { "brightblue"@ }
    else if i == 13 { "brightmagenta"@ } else if i == 14 { "brightcyan"@ }
    else { "brightwhite"@ }
}

/// CSS colour of the `i`-th named palette entry, tuned to read against the
/// default background.
pub open spec fn palette_css(i: int) -> Seq<char> {
    if i == 0 { "#0b0f14"@ } else if i == 1 { "#ff7b72"@ } else if i == 2 { "#7ee787"@ }
    else if i == 3 { "#d29922"@ } else if i == 4 { "#79c0ff"@ } else if i == 5 { "#d2a8ff"@ }
    else if i == 6 { "#56d4dd"@ } else if i == 7 { "#e6edf3"@ } else if i == 8 { "#6e7681"@ }
    else if i == 9 { "#ffa198"@ } else if i == 10 { "#aff5b4"@ } else if i == 11 { "#f2cc60"@ }
    else if i == 12 { "#a5d6ff"@ } else if i == 13 { "#d2a8ff"@ } else if i == 14 { "#79c0ff"@ }
    else { "#ffffff"@ }
}

fn palette_entry(i: usize) -> (r: (&'static str, &'static str))
    requires
        i < 16,
    ensures
        r.0@ == palette_name(i as int),
        r.1@ == palette_css(i as int),
{
    match i {
        0 => ("black", "#0b0f14"),
        1 => ("red", "#ff7b72"),
        2 => ("green", "#7ee787"),
        3 => ("brown", "#d29922"),
        4 => ("blue", "#79c0ff"),
        5 => ("magenta", "#d2a8ff"),
        6 => ("cyan", "#56d4dd"),
        7 => ("white", "#e6edf3"),
        8 => ("brightblack", "#6e7681"),
        9 => ("brightred", "#ffa198"),
        10 => ("brightgreen", "#aff5b4"),
        11 => ("brightbrown", "#f2cc60"),
        12 => ("brightblue", "#a5d6ff"),
        13 => ("brightmagenta", "#d2a8ff"),
        14 => ("brightcyan", "#79c0ff"),
        _ => ("brightwhite", "#ffffff"),
    }
}

/// The first 16 xterm colours, as six hex digits.
pub open spec fn xterm_base(i: int) -> Seq<char> {
    if i == 0 { "000000"@ } else if i == 1 { "cd0000"@ } else if i == 2 { "00cd00"@ }
    else if i == 3 { "cdcd00"@ } else if i == 4 { "0000ee"@ } else if i == 5 { "cd00cd"@ }
    else if i == 6 { "00cdcd"@ } else if i == 7 { "e5e5e5"@ } else if i == 8 { "7f7f7f"@ }
    else if i == 9 { "ff0000"@ } else if i == 10 { "00ff00"@ } else if i == 11 { "ffff00"@ }
    else if i == 12 { "5c5cff"@ } else if i == 13 { "ff00ff"@ } else if i == 14 { "00ffff"@ }
    else { "ffffff"@ }
}

/// The intensity of step `k` of the xterm 6x6x6 colour cube.
pub open spec fn cube_level(k: int) -> int {
    if k == 0 { 0x00 } else if k == 1 { 0x5f } else if k == 2 { 0x87 } else if k == 3 { 0xaf }
    else if k == 4 { 0xd7 } else { 0xff }
}

/// The `i`-th of the 256 xterm colours (`i < 256`), as six hex digits: 16
/// base colours, the 6x6x6 cube (red slowest), then a 24-step grey ramp.
pub open spec fn xterm_hex(i: int) -> Seq<char> {
    if i < 16 {
        xterm_base(i)
    } else if i < 232 {
        let k = i - 16;
        rgb_spec(cube_level(k / 36), cube_level((k / 6) % 6), cube_level(k % 6))
    } else {
        let v = 8 + (i - 232) * 10;
        rgb_spec(v, v, v)
    }
}

fn xterm_base_exec(i: u16) -> (r: &'static str)
    requires
        i < 16,
    ensures
        r@ == xterm_base(i as int),
{
    match i {
        0 => "000000",
        1 => "cd0000",
        2 => "00cd00",
        3 => "cdcd00",
        4 => "0000ee",
        5 => "cd00cd",
        6 => "00cdcd",
        7 => "e5e5e5",
        8 => "7f7f7f",
        9 => "ff0000",
        10 => "00ff00",
        11 => "ffff00",
        12 => "5c5cff",
        13 => "ff00ff",
        14 => "00ffff",
        _ => "ffffff",
    }
}

fn cube_level_exec(k: u16) -> (r: u8)
    requires
        k < 6,
    ensures
        r == cube_level(k as int),
{
    match k {
        0 => 0x00,
        1 => 0x5f,
        2 => 0x87,
        3 => 0xaf,
        4 => 0xd7,
        _ => 0xff,
    }
}

/// The xterm colour at `index`, or `"default"` past the 256-colour table.
pub open spec fn xterm_color_spec(index: int) -> Seq<char> {
    if 0 <= index < 256 {
        xterm_hex(index)
    } else {
        "default"@
    }
}

/// The xterm colour at `index`, or `"default"` past the 256-colour table.
pub fn xterm_256_color(index: u16) -> (s: String)
    ensures
        s@ == xterm_color_spec(index as int),
{
    if index < 16 {
        xterm_base_exec(index).to_owned()
    } else if index < 232 {
        let k: u16 = index - 16;
        let r = cube_level_exec(k / 36);
        let g = cube_level_exec((k / 6) % 6);
        let b = cube_level_exec(k % 6);
        rgb_color(r, g, b)
    } else if index < 256 {
        let v: u8 = (8 + (index - 232) * 10) as u8;
        rgb_color(v, v, v)
    } else {
        "default".to_owned()
    }
}

/// The 256 xterm colours, in index order.
pub fn xterm_256_colors() -> (colors: Vec<String>)
    ensures
        colors@.len() == 256,
        forall|i: int| 0 <= i < 256 ==> #[trigger] colors@[i]@ == xterm_hex(i),
{
    let mut colors: Vec<String> = Vec::new();
    let mut i: u16 = 0;
    while i < 256
        invariant
            i <= 256,
            colors@.len() == i,
            forall|j: int| 0 <= j < i ==> #[trigger] colors@[j]@ == xterm_hex(j),
        decreases 256 - i,
    {
        colors.push(xterm_256_color(i));
        i += 1;
    }
    colors
}

/// Name a palette index: the first 16 are named colours, the rest are hex
/// (or `"default"` past the 256-colour table).
pub open spec fn palette_color_spec(index: int) -> Seq<char> {
    if 0 <= index < 16 {
        palette_name(index)
    } else {
        xterm_color_spec(index)
    }
}

/// Name a palette index: the first 16 are named colours, the rest are hex.
pub fn palette_color(index: u16) -> (s: String)
    ensures
        s@ == palette_color_spec(index as int),
{
    if index < 16 {
        palette_entry(index as usize).0.to_owned()
    } else {
        xterm_256_color(index)
    }
}

// ---------------------------------------------------------------------------
// CSS colours
// ---------------------------------------------------------------------------

/// The first named palette entry at or after `i` whose name is `name`.
pub open spec fn palette_index_from(name: Seq<char>, i: int) -> Option<int>
    decreases 16 - i,
{
    if i < 0 || i >= 16 {
        None
    } else if palette_name(i) == name {
        Some(i)
    } else {
        palette_index_from(name, i + 1)
    }
}

/// `c` is an ASCII hex digit.
pub open spec fn is_hex_char(c: char) -> bool {
    ('0' <= c && c <= '9') || ('a' <= c && c <= 'f') || ('A' <= c && c <= 'F')
}

/// Resolve an unresolved colour to CSS: `"default"` gives `default`, a
/// palette name (case-insensitively) its CSS colour, six hex digits a `#`
/// colour in lowercase, and anything else `default`.
pub open spec fn css_color_spec(value: Seq<char>, default: Seq<char>) -> Seq<char> {
    let lowered = unicode_lowercase(value);
    if value == "default"@ {
        default
    } else if palette_index_from(lowered, 0) is Some {
        palette_css(palette_index_from(lowered, 0)->0)
    } else if value.len() == 6 && forall|i: int| 0 <= i < 6 ==> is_hex_char(#[trigger] value[i]) {
        seq!['#'] + lowered
    } else {
        default
    }
}

fn is_hex_char_exec(c: char) -> (r: bool)
    ensures
        r == is_hex_char(c),
{
    ('0' <= c && c <= '9') || ('a' <= c && c <= 'f') || ('A' <= c && c <= 'F')
}

/// Resolve an unresolved colour to CSS.
pub fn css_color(value: &str, default: &str) -> (s: String)
    ensures
        s@ == css_color_spec(value@, default@),
{
    if str_eq(value, "default") {
        return default.to_owned();
    }
    let lowered = lowercase_chars(value);
    let mut i: usize = 0;
    while i < 16
        invariant
            i <= 16,
            value@ != "default"@,
            lowered@ == unicode_lowercase(value@),
            palette_index_from(lowered@, 0) == palette_index_from(lowered@, i as int),
        decreases 16 - i,
    {
        let (name, css) = palette_entry(i);
        let n = chars_of(name);
        if chars_eq(n.as_slice(), lowered.as_slice()) {
            return css.to_owned();
        }
        i += 1;
    }
    let chars = chars_of(value);
    if chars.len() == 6 {
        let mut k: usize = 0;
        while k < 6
            invariant
                chars@ == value@,
                value@ != "default"@,
                palette_index_from(lowered@, 0) is None,
                lowered@ == unicode_lowercase(value@),
                chars@.len() == 6,
                k <= 6,
                forall|j: int| 0 <= j < k ==> is_hex_char(#[trigger] chars@[j]),
            decreases 6 - k,
        {
            if !is_hex_char_exec(chars[k]) {
                return default.to_owned();
            }
            k += 1;
        }
        let mut out: Vec<char> = Vec::new();
        out.push('#');
        out.extend_from_slice(lowered.as_slice());
        assert(out@ =~= seq!['#'] + lowered@);
        return string_of(out.as_slice());
    }
    default.to_owned()
}

// ---------------------------------------------------------------------------
// XML
// ---------------------------------------------------------------------------

/// `c` as XML text content: `&`, `<` and `>` escaped.
pub open spec fn xml_char(c: char) -> Seq<char> {
    if c == '&' {
        "&amp;"@
    } else if c == '<' {
        "&lt;"@
    } else if c == '>' {
        "&gt;"@
    } else {
        seq![c]
    }
}

/// `s` with `&`, `<` and `>` escaped for XML text content.
pub open spec fn xml_escape_spec(s: Seq<char>) -> Seq<char>
    decreases s.len(),
{
    if s.len() == 0 {
        Seq::<char>::empty()
    } else {
        xml_escape_spec(s.drop_last()) + xml_char(s.last())
    }
}

/// Escape `&`, `<`, `>` for XML text content.
pub fn xml_escape(s: &str) -> (r: String)
    ensures
        r@ == xml_escape_spec(s@),
{
    let chars = chars_of(s);
    let mut out = String::new();
    let mut i: usize = 0;
    assert(chars@.take(0) =~= Seq::<char>::empty());
    while i < chars.len()
        invariant
            chars@ == s@,
            i <= chars@.len(),
            out@ == xml_escape_spec(chars@.take(i as int)),
        decreases chars@.len() - i,
    {
        let c = chars[i];
        assert(chars@.take(i + 1).drop_last() =~= chars@.take(i as int));
        if c == '&' {
            push_str(&mut out, "&amp;");
        } else if c == '<' {
            push_str(&mut out, "&lt;");
        } else if c == '>' {
            push_str(&mut out, "&gt;");
        } else {
            let one = string_of_char(c);
            push_str(&mut out, one.as_str());
        }
        i += 1;
    }
    assert(chars@.take(chars@.len() as int) =~= chars@);
    out
}

// ---------------------------------------------------------------------------
// Cells and screens
// ---------------------------------------------------------------------------

/// What a cell holds.
pub struct CellView {
    pub text: Seq<char>,
    pub fg: Seq<char>,
    pub bg: Seq<char>,
    pub bold: bool,
    pub dim: bool,
    pub italic: bool,
    pub underline: bool,
    pub strikethrough: bool,
    pub reverse: bool,
    pub width: u8,
}

/// One terminal cell with its display attributes.
///
/// `fg`/`bg` hold the *unresolved* colour: `"default"`, a palette name such as
/// `"brightred"`, or a bare 6-digit hex string. [`cell_colors`] resolves them.
#[derive(Debug, Clone, PartialEq, Eq)]
pub struct AttributedCell {
    /// The glyph in this cell; a single space when the cell is blank, and
    /// empty for the filler cell that follows a wide glyph.
    pub text: String,
    /// Unresolved foreground colour.
    pub fg: String,
    /// Unresolved background colour.
    pub bg: String,
    /// SGR 1.
    pub bold: bool,
    /// SGR 2.
    pub dim: bool,
    /// SGR 3.
    pub italic: bool,
    /// SGR 4.
    pub underline: bool,
    /// SGR 9.
    pub strikethrough: bool,
    /// SGR 7: foreground and background swap when rendered.
    pub reverse: bool,
    /// Display columns: 2 for a wide glyph, 0 for the filler cell that follows
    /// it, 1 otherwise.
    pub width: u8,
}

impl View for AttributedCell {
    type V = CellView;

    open spec fn view(&self) -> CellView {
        CellView {
            text: self.text@,
            fg: self.fg@,
            bg: self.bg@,
            bold: self.bold,
            dim: self.dim,
            italic: self.italic,
            underline: self.underline,
            strikethrough: self.strikethrough,
            reverse: self.reverse,
            width: self.width,
        }
    }
}

/// A blank cell: one space, default colours, no styles, width 1.
pub open spec fn default_cell() -> CellView {
    CellView {
        text: " "@,
        fg: "default"@,
        bg: "default"@,
        bold: false,
        dim: false,
        italic: false,
        underline: false,
        strikethrough: false,
        reverse: false,
        width: 1,
    }
}

/// A cell holding `text` with default attributes.
pub open spec fn plain_cell(text: Seq<char>) -> CellView {
    CellView { text, ..default_cell() }
}

impl Default for AttributedCell {
    fn default() -> (c: Self)
        ensures
            c@ == default_cell(),
    {
        AttributedCell {
            text: " ".to_owned(),
            fg: "default".to_owned(),
            bg: "default".to_owned(),
            bold: false,
            dim: false,
            italic: false,
            underline: false,
            strikethrough: false,
            reverse: false,
            width: 1,
        }
    }
}

impl AttributedCell {
    /// A plain cell holding `text`, with default attributes.
    pub fn plain(text: &str) -> (c: Self)
        ensures
            c@ == plain_cell(text@),
    {
        AttributedCell { text: text.to_owned(), ..AttributedCell::default() }
    }

    /// A copy of this cell.
    pub fn copy(&self) -> (c: Self)
        ensures
            c@ == self@,
    {
        AttributedCell {
            text: self.text.clone(),
            fg: self.fg.clone(),
            bg: self.bg.clone(),
            bold: self.bold,
            dim: self.dim,
            italic: self.italic,
            underline: self.underline,
            strikethrough: self.strikethrough,
            reverse: self.reverse,
            width: self.width,
        }
    }
}

/// The views of a row of cells.
pub open spec fn cells_view(v: Seq<AttributedCell>) -> Seq<CellView> {
    Seq::new(v.len(), |i: int| v[i]@)
}

/// The views of a grid of cells.
pub open spec fn grid_view(rows: Seq<Vec<AttributedCell>>) -> Seq<Seq<CellView>> {
    Seq::new(rows.len(), |i: int| cells_view(rows[i]@))
}

proof fn lemma_cells_view_push(v: Seq<AttributedCell>, c: AttributedCell)
    ensures
        cells_view(v.push(c)) == cells_view(v).push(c@),
{
    assert(cells_view(v.push(c)) =~= cells_view(v).push(c@));
}

proof fn lemma_grid_view_push(rows: Seq<Vec<AttributedCell>>, r: Vec<AttributedCell>)
    ensures
        grid_view(rows.push(r)) == grid_view(rows).push(cells_view(r@)),
{
    assert(grid_view(rows.push(r)) =~= grid_view(rows).push(cells_view(r@)));
}

/// What a screen holds.
pub struct ScreenView {
    pub rows: Seq<Seq<CellView>>,
    pub cursor_row: usize,
    pub cursor_column: usize,
    pub cursor_hidden: bool,
}

/// A rectangular terminal grid plus cursor metadata.
#[derive(Debug, Clone, PartialEq, Eq)]
pub struct AttributedScreen {
    /// Cells in row-major order. Rows are not required to be equal length;
    /// `column_count` reports the widest.
    pub rows: Vec<Vec<AttributedCell>>,
    /// Zero-based cursor row.
    pub cursor_row: usize,
    /// Zero-based cursor column.
    pub cursor_column: usize,
    /// Whether the cursor is hidden (DECTCEM reset).
    pub cursor_hidden: bool,
}

impl View for AttributedScreen {
    type V = ScreenView;

    open spec fn view(&self) -> ScreenView {
        ScreenView {
            rows: grid_view(self.rows@),
            cursor_row: self.cursor_row,
            cursor_column: self.cursor_column,
            cursor_hidden: self.cursor_hidden,
        }
    }
}

impl Default for AttributedScreen {
    fn default() -> (s: Self)
        ensures
            s@.rows == Seq::<Seq<CellView>>::empty(),
            s@.cursor_row == 0,
            s@.cursor_column == 0,
            !s@.cursor_hidden,
    {
        let s = AttributedScreen {
            rows: Vec::new(),
            cursor_row: 0,
            cursor_column: 0,
            cursor_hidden: false,
        };
        assert(s@.rows =~= Seq::<Seq<CellView>>::empty());
        s
    }
}

/// The widest of `rows`, in cells; 0 when there are none.
pub open spec fn widest(rows: Seq<Seq<CellView>>) -> nat
    decreases rows.len(),
{
    if rows.len() == 0 {
        0
    } else {
        let rest = widest(rows.drop_last());
        if rows.last().len() > rest { rows.last().len() } else { rest }
    }
}

/// The text a row reads as: the glyphs of its cells, skipping the zero-width
/// fillers behind wide glyphs.
pub open spec fn row_text(row: Seq<CellView>) -> Seq<char>
    decreases row.len(),
{
    if row.len() == 0 {
        Seq::<char>::empty()
    } else {
        row_text(row.drop_last()) + if row.last().width > 0 {
            row.last().text
        } else {
            Seq::<char>::empty()
        }
    }
}

/// A row's text, with trailing whitespace stripped when `trim_right`.
pub open spec fn line_text(row: Seq<CellView>, trim_right: bool) -> Seq<char> {
    if trim_right {
        trim_end(row_text(row))
    } else {
        row_text(row)
    }
}

fn row_text_exec(row: &Vec<AttributedCell>) -> (r: Vec<char>)
    ensures
        r@ == row_text(cells_view(row@)),
{
    let mut out: Vec<char> = Vec::new();
    let mut i: usize = 0;
    assert(cells_view(row@).take(0) =~= Seq::<CellView>::empty());
    while i < row.len()
        invariant
            i <= row@.len(),
            out@ == row_text(cells_view(row@).take(i as int)),
        decreases row@.len() - i,
    {
        let ghost t = cells_view(row@).take(i + 1);
        assert(t.drop_last() =~= cells_view(row@).take(i as int));
        assert(t.last() == row@[i as int]@);
        if row[i].width > 0 {
            let c = chars_of(row[i].text.as_str());
            out.extend_from_slice(c.as_slice());
            assert(out@ =~= row_text(t));
        }
        i += 1;
    }
    assert(cells_view(row@).take(row@.len() as int) =~= cells_view(row@));
    out
}

impl AttributedScreen {
    /// Number of rows in the grid.
    pub fn row_count(&self) -> (n: usize)
        ensures
            n == self@.rows.len(),
    {
        self.rows.len()
    }

    /// Width of the widest row, in cells.
    pub fn column_count(&self) -> (n: usize)
        ensures
            n == widest(self@.rows),
    {
        let ghost g = self@.rows;
        let mut best: usize = 0;
        let mut i: usize = 0;
        assert(g.take(0) =~= Seq::<Seq<CellView>>::empty());
        while i < self.rows.len()
            invariant
                g == self@.rows,
                i <= g.len(),
                best == widest(g.take(i as int)),
            decreases g.len() - i,
        {
            let ghost t = g.take(i + 1);
            assert(t.drop_last() =~= g.take(i as int));
            let len = self.rows[i].len();
            if len > best {
                best = len;
            }
            i += 1;
        }
        assert(g.take(g.len() as int) =~= g);
        best
    }

    /// The grid as one string per row, dropping attributes. `trim_right`
    /// strips trailing whitespace from each line: a terminal pads every row
    /// out to the full width.
    pub fn text_lines(&self, trim_right: bool) -> (lines: Vec<String>)
        ensures
            string_seqs(lines@) == Seq::new(
                self@.rows.len(),
                |i: int| line_text(self@.rows[i], trim_right),
            ),
    {
        let ghost want = Seq::new(self@.rows.len(), |i: int| line_text(self@.rows[i], trim_right));
        let mut lines: Vec<String> = Vec::new();
        let mut i: usize = 0;
        while i < self.rows.len()
            invariant
                want == Seq::new(self@.rows.len(), |i: int| line_text(self@.rows[i], trim_right)),
                i <= self@.rows.len(),
                string_seqs(lines@) == want.take(i as int),
            decreases self@.rows.len() - i,
        {
            let t = row_text_exec(&self.rows[i]);
            let line = if trim_right { trim_end_chars(t.as_slice()) } else { t };
            let l = string_of(line.as_slice());
            proof { lemma_string_seqs_push(lines@, l); }
            lines.push(l);
            assert(want.take(i as int).push(want[i as int]) =~= want.take(i + 1));
            i += 1;
        }
        assert(want.take(self@.rows.len() as int) =~= want);
        lines
    }

    /// The text lines joined with newlines.
    pub fn to_text(&self, trim_right: bool) -> (s: String)
        ensures
            s@ == join(
                Seq::new(self@.rows.len(), |i: int| line_text(self@.rows[i], trim_right)),
                seq!['\n'],
            ),
    {
        let lines = self.text_lines(trim_right);
        let mut pieces: Vec<Vec<char>> = Vec::new();
        let mut i: usize = 0;
        while i < lines.len()
            invariant
                i <= lines@.len(),
                views(pieces@) == string_seqs(lines@).take(i as int),
            decreases lines@.len() - i,
        {
            let p = chars_of(lines[i].as_str());
            proof { lemma_views_push(pieces@, p); }
            pieces.push(p);
            assert(string_seqs(lines@).take(i as int).push(lines@[i as int]@) =~= string_seqs(
                lines@,
            ).take(i + 1));
            i += 1;
        }
        assert(string_seqs(lines@).take(lines@.len() as int) =~= string_seqs(lines@));
        let joined = join_chars(&pieces, &['\n']);
        assert(['\n']@ =~= seq!['\n']);
        string_of(joined.as_slice())
    }
}

/// Resolve a cell's `(foreground, background)` to CSS colours, swapped for a
/// reversed cell.
pub open spec fn cell_colors_spec(cell: CellView) -> (Seq<char>, Seq<char>) {
    let fg = css_color_spec(cell.fg, DEFAULT_FG@);
    let bg = css_color_spec(cell.bg, DEFAULT_BG@);
    if cell.reverse {
        (bg, fg)
    } else {
        (fg, bg)
    }
}

/// Resolve a cell's `(foreground, background)` to CSS colours.
pub fn cell_colors(cell: &AttributedCell) -> (r: (String, String))
    ensures
        (r.0@, r.1@) == cell_colors_spec(cell@),
{
    let fg = css_color(cell.fg.as_str(), DEFAULT_FG);
    let bg = css_color(cell.bg.as_str(), DEFAULT_BG);
    if cell.reverse {
        (bg, fg)
    } else {
        (fg, bg)
    }
}

// ---------------------------------------------------------------------------
// Screens from plain text
// ---------------------------------------------------------------------------

/// A row of plain cells, one per character of `line`, clipped to `columns`.
pub open spec fn plain_row(line: Seq<char>, columns: int) -> Seq<CellView> {
    let n = if line.len() < columns { line.len() as int } else { columns };
    Seq::new(n as nat, |j: int| plain_cell(seq![line[j]]))
}

/// A grid of plain rows, one per line, clipped to `rows` lines and `columns`
/// columns.
pub open spec fn plain_grid(lines: Seq<Seq<char>>, columns: int, rows: int) -> Seq<Seq<CellView>> {
    let n = if lines.len() < rows { lines.len() as int } else { rows };
    Seq::new(n as nat, |i: int| plain_row(lines[i], columns))
}

fn plain_row_exec(line: &[char], columns: usize) -> (r: Vec<AttributedCell>)
    ensures
        cells_view(r@) == plain_row(line@, columns as int),
{
    let n: usize = if line.len() < columns { line.len() } else { columns };
    let mut out: Vec<AttributedCell> = Vec::new();
    let mut j: usize = 0;
    while j < n
        invariant
            n <= line@.len(),
            n == (if line@.len() < columns { line@.len() as int } else { columns as int }),
            j <= n,
            cells_view(out@) == plain_row(line@, columns as int).take(j as int),
        decreases n - j,
    {
        let text = string_of_char(line[j]);
        let cell = AttributedCell::plain(text.as_str());
        proof { lemma_cells_view_push(out@, cell); }
        out.push(cell);
        assert(plain_row(line@, columns as int).take(j as int).push(cell@) =~= plain_row(
            line@,
            columns as int,
        ).take(j + 1));
        j += 1;
    }
    assert(plain_row(line@, columns as int).take(n as int) =~= plain_row(line@, columns as int));
    out
}

fn plain_grid_exec(lines: &Vec<Vec<char>>, columns: usize, rows: usize) -> (r: AttributedScreen)
    ensures
        r@.rows == plain_grid(views(lines@), columns as int, rows as int),
        r@.cursor_row == 0,
        r@.cursor_column == 0,
        !r@.cursor_hidden,
{
    let ghost want = plain_grid(views(lines@), columns as int, rows as int);
    let n: usize = if lines.len() < rows { lines.len() } else { rows };
    let mut grid: Vec<Vec<AttributedCell>> = Vec::new();
    let mut i: usize = 0;
    assert(grid_view(grid@) =~= want.take(0));
    while i < n
        invariant
            want == plain_grid(views(lines@), columns as int, rows as int),
            n == want.len(),
            n <= lines@.len(),
            i <= n,
            grid_view(grid@) == want.take(i as int),
        decreases n - i,
    {
        let row = plain_row_exec(lines[i].as_slice(), columns);
        proof { lemma_grid_view_push(grid@, row); }
        grid.push(row);
        assert(want.take(i as int).push(want[i as int]) =~= want.take(i + 1));
        i += 1;
    }
    assert(want.take(n as int) =~= want);
    AttributedScreen { rows: grid, cursor_row: 0, cursor_column: 0, cursor_hidden: false }
}

/// A screen from plain text lines, with default attributes throughout.
pub fn attributed_screen_from_lines(lines: &[&str], columns: usize, rows: usize) -> (s: AttributedScreen)
    ensures
        s@.rows == plain_grid(strs_view(lines@), columns as int, rows as int),
        s@.cursor_row == 0,
        s@.cursor_column == 0,
        !s@.cursor_hidden,
{
    let mut all: Vec<Vec<char>> = Vec::new();
    let mut i: usize = 0;
    while i < lines.len()
        invariant
            i <= lines@.len(),
            views(all@) == strs_view(lines@).take(i as int),
        decreases lines@.len() - i,
    {
        let p = chars_of(lines[i]);
        proof { lemma_views_push(all@, p); }
        all.push(p);
        assert(strs_view(lines@).take(i as int).push(lines@[i as int]@) =~= strs_view(lines@).take(
            i + 1,
        ));
        i += 1;
    }
    assert(strs_view(lines@).take(lines@.len() as int) =~= strs_view(lines@));
    plain_grid_exec(&all, columns, rows)
}

/// The character sequences of a list of string slices.
pub open spec fn strs_view(s: Seq<&str>) -> Seq<Seq<char>> {
    Seq::new(s.len(), |i: int| s[i]@)
}

/// A screen from a plain-text blob split into lines as `str::lines` does,
/// with default attributes throughout.
pub fn attributed_screen_from_text(screen_text: &str, columns: usize, rows: usize) -> (s: AttributedScreen)
    ensures
        s@.rows == plain_grid(lines_of(screen_text@), columns as int, rows as int),
        s@.cursor_row == 0,
        s@.cursor_column == 0,
        !s@.cursor_hidden,
{
    let chars = chars_of(screen_text);
    let lines = lines_chars(chars.as_slice());
    plain_grid_exec(&lines, columns, rows)
}

// ---------------------------------------------------------------------------
// Unicode properties, from the unicode crates
// ---------------------------------------------------------------------------

/// What `unicode_width::UnicodeWidthChar::width` answers for `c`.
pub uninterp spec fn unicode_char_width(c: char) -> Option<usize>;

/// What `unicode_normalization::char::canonical_combining_class` answers for
/// `c`.
pub uninterp spec fn combining_class(c: char) -> u8;

/// The NFC form of `s`, as `unicode_normalization::UnicodeNormalization::nfc`
/// yields it.
pub uninterp spec fn nfc_of(s: Seq<char>) -> Seq<char>;

/// `UnicodeWidthChar::width` (unicode-width). Trusted to answer the displayed
/// width of `c`, a function of the character alone; nothing is claimed of
/// the range of the answer.
#[verifier::external_body]
fn char_width(c: char) -> (r: Option<usize>)
    ensures
        r == unicode_char_width(c),
{
    unicode_width::UnicodeWidthChar::width(c)
}

/// `unicode_normalization::char::canonical_combining_class`. Trusted to
/// answer the Unicode canonical combining class of `c`.
#[verifier::external_body]
fn canonical_combining_class(c: char) -> (r: u8)
    ensures
        r == combining_class(c),
{
    unicode_normalization::char::canonical_combining_class(c)
}

/// `UnicodeNormalization::nfc` (unicode-normalization), collected. Trusted to
/// return the NFC form of `s`, a function of `s` alone.
#[verifier::external_body]
fn nfc(s: &str) -> (r: String)
    ensures
        r@ == nfc_of(s@),
{
    unicode_normalization::UnicodeNormalization::nfc(s).collect()
}

/// Display columns of a glyph: 2 when the character is wide, 1 otherwise.
pub open spec fn cell_width_spec(c: char) -> u8 {
    if unicode_char_width(c) == Some(2usize) {
        2
    } else {
        1
    }
}

fn cell_width(c: char) -> (w: u8)
    ensures
        w == cell_width_spec(c),
{
    match char_width(c) {
        Some(2) => 2,
        _ => 1,
    }
}

// ---------------------------------------------------------------------------
// SGR state
// ---------------------------------------------------------------------------

/// The SGR state carried from cell to cell.
pub struct AttrsView {
    pub fg: Seq<char>,
    pub bg: Seq<char>,
    pub bold: bool,
    pub dim: bool,
    pub italic: bool,
    pub underline: bool,
    pub strikethrough: bool,
    pub reverse: bool,
}

/// Mutable SGR state, carried across a `capture-pane` line boundary because a
/// colour opened on one row stays open on the next.
#[derive(Debug, Clone, PartialEq, Eq)]
struct AnsiAttrs {
    fg: String,
    bg: String,
    bold: bool,
    dim: bool,
    italic: bool,
    underline: bool,
    strikethrough: bool,
    reverse: bool,
}

impl View for AnsiAttrs {
    type V = AttrsView;

    closed spec fn view(&self) -> AttrsView {
        AttrsView {
            fg: self.fg@,
            bg: self.bg@,
            bold: self.bold,
            dim: self.dim,
            italic: self.italic,
            underline: self.underline,
            strikethrough: self.strikethrough,
            reverse: self.reverse,
        }
    }
}

/// No colour, no style.
pub open spec fn default_attrs() -> AttrsView {
    AttrsView {
        fg: "default"@,
        bg: "default"@,
        bold: false,
        dim: false,
        italic: false,
        underline: false,
        strikethrough: false,
        reverse: false,
    }
}

/// A cell holding `text`, drawn with `a`.
pub open spec fn attrs_cell(a: AttrsView, text: Seq<char>, width: u8) -> CellView {
    CellView {
        text,
        fg: a.fg,
        bg: a.bg,
        bold: a.bold,
        dim: a.dim,
        italic: a.italic,
        underline: a.underline,
        strikethrough: a.strikethrough,
        reverse: a.reverse,
        width,
    }
}

impl AnsiAttrs {
    fn new() -> (a: Self)
        ensures
            a@ == default_attrs(),
    {
        AnsiAttrs {
            fg: "default".to_owned(),
            bg: "default".to_owned(),
            bold: false,
            dim: false,
            italic: false,
            underline: false,
            strikethrough: false,
            reverse: false,
        }
    }

    fn reset(&mut self)
        ensures
            final(self)@ == default_attrs(),
    {
        *self = AnsiAttrs::new();
    }

    fn cell(&self, text: &str, width: u8) -> (c: AttributedCell)
        ensures
            c@ == attrs_cell(self@, text@, width),
    {
        AttributedCell {
            text: text.to_owned(),
            fg: self.fg.clone(),
            bg: self.bg.clone(),
            bold: self.bold,
            dim: self.dim,
            italic: self.italic,
            underline: self.underline,
            strikethrough: self.strikethrough,
            reverse: self.reverse,
            width,
        }
    }
}

/// SGR code to palette name, for the 8 standard and 8 bright foregrounds.
pub open spec fn fg_name(code: int) -> Option<Seq<char>> {
    if 30 <= code <= 37 {
        Some(palette_name(code - 30))
    } else if 90 <= code <= 97 {
        Some(palette_name(code - 90 + 8))
    } else {
        None
    }
}

/// SGR code to palette name, for the 8 standard and 8 bright backgrounds.
pub open spec fn bg_name(code: int) -> Option<Seq<char>> {
    if (40 <= code <= 47) || (100 <= code <= 107) {
        fg_name(code - 10)
    } else {
        None
    }
}

fn ansi_fg(code: u16) -> (r: Option<&'static str>)
    ensures
        r matches Some(n) ==> fg_name(code as int) == Some(n@),
        r is None ==> fg_name(code as int) is None,
{
    let name = match code {
        30 => "black",
        31 => "red",
        32 => "green",
        33 => "brown",
        34 => "blue",
        35 => "magenta",
        36 => "cyan",
        37 => "white",
        90 => "brightblack",
        91 => "brightred",
        92 => "brightgreen",
        93 => "brightbrown",
        94 => "brightblue",
        95 => "brightmagenta",
        96 => "brightcyan",
        97 => "brightwhite",
        _ => {
            return None;
        },
    };
    Some(name)
}

fn ansi_bg(code: u16) -> (r: Option<&'static str>)
    ensures
        r matches Some(n) ==> bg_name(code as int) == Some(n@),
        r is None ==> bg_name(code as int) is None,
{
    if (40 <= code && code <= 47) || (100 <= code && code <= 107) {
        ansi_fg(code - 10)
    } else {
        None
    }
}

/// The effect of a single SGR code that is neither a colour nor an extended
/// colour introducer.
pub open spec fn basic_sgr(code: int, a: AttrsView) -> AttrsView {
    if code == 0 {
        default_attrs()
    } else if code == 1 {
        AttrsView { bold: true, ..a }
    } else if code == 2 {
        AttrsView { dim: true, ..a }
    } else if code == 3 {
        AttrsView { italic: true, ..a }
    } else if code == 4 {
        AttrsView { underline: true, ..a }
    } else if code == 7 {
        AttrsView { reverse: true, ..a }
    } else if code == 9 {
        AttrsView { strikethrough: true, ..a }
    } else if code == 22 {
        AttrsView { bold: false, dim: false, ..a }
    } else if code == 23 {
        AttrsView { italic: false, ..a }
    } else if code == 24 {
        AttrsView { underline: false, ..a }
    } else if code == 27 {
        AttrsView { reverse: false, ..a }
    } else if code == 29 {
        AttrsView { strikethrough: false, ..a }
    } else if code == 39 {
        AttrsView { fg: "default"@, ..a }
    } else if code == 49 {
        AttrsView { bg: "default"@, ..a }
    } else {
        a
    }
}

fn apply_basic_sgr(code: u16, attrs: &mut AnsiAttrs)
    ensures
        final(attrs)@ == basic_sgr(code as int, old(attrs)@),
{
    match code {
        0 => attrs.reset(),
        1 => attrs.bold = true,
        2 => attrs.dim = true,
        3 => attrs.italic = true,
        4 => attrs.underline = true,
        7 => attrs.reverse = true,
        9 => attrs.strikethrough = true,
        22 => {
            attrs.bold = false;
            attrs.dim = false;
        },
        23 => attrs.italic = false,
        24 => attrs.underline = false,
        27 => attrs.reverse = false,
        29 => attrs.strikethrough = false,
        39 => attrs.fg = "default".to_owned(),
        49 => attrs.bg = "default".to_owned(),
        _ => {},
    }
}

/// `a` with its foreground (`is_fg`) or background set to `color`.
pub open spec fn set_color(a: AttrsView, is_fg: bool, color: Seq<char>) -> AttrsView {
    if is_fg {
        AttrsView { fg: color, ..a }
    } else {
        AttrsView { bg: color, ..a }
    }
}

/// A `38;...`/`48;...` extended colour starting at `index`: the index of its
/// last consumed parameter, and the state after it. A truncated sequence
/// consumes the rest of the parameters.
pub open spec fn extended_color(params: Seq<u16>, index: int, a: AttrsView) -> (int, AttrsView) {
    if index + 1 >= params.len() {
        (index, a)
    } else {
        let is_fg = params[index] == 38;
        let mode = params[index + 1];
        if mode == 5 && index + 2 < params.len() {
            (index + 2, set_color(a, is_fg, xterm_color_spec(params[index + 2] as int)))
        } else if mode == 2 && index + 4 < params.len() {
            let r = if params[index + 2] < 255 { params[index + 2] as int } else { 255 };
            let g = if params[index + 3] < 255 { params[index + 3] as int } else { 255 };
            let b = if params[index + 4] < 255 { params[index + 4] as int } else { 255 };
            (index + 4, set_color(a, is_fg, rgb_spec(r, g, b)))
        } else {
            (params.len() - 1, a)
        }
    }
}

fn set_color_exec(attrs: &mut AnsiAttrs, is_fg: bool, color: String)
    ensures
        final(attrs)@ == set_color(old(attrs)@, is_fg, color@),
{
    if is_fg {
        attrs.fg = color;
    } else {
        attrs.bg = color;
    }
}

fn clamp_byte(v: u16) -> (b: u8)
    ensures
        b == (if v < 255 { v as int } else { 255 }),
{
    if v < 255 {
        v as u8
    } else {
        255
    }
}

/// Apply a `38;...`/`48;...` extended colour and return the index of its last
/// consumed parameter (the caller advances one past).
fn apply_extended_color(params: &[u16], index: usize, attrs: &mut AnsiAttrs) -> (r: usize)
    requires
        index < params@.len(),
    ensures
        (r as int, final(attrs)@) == extended_color(params@, index as int, old(attrs)@),
{
    if params.len() - index <= 1 {
        return index;
    }
    let is_fg = params[index] == 38;
    let mode = params[index + 1];
    if mode == 5 && params.len() - index > 2 {
        let color = xterm_256_color(params[index + 2]);
        set_color_exec(attrs, is_fg, color);
        return index + 2;
    }
    if mode == 2 && params.len() - index > 4 {
        let color = rgb_color(
            clamp_byte(params[index + 2]),
            clamp_byte(params[index + 3]),
            clamp_byte(params[index + 4]),
        );
        set_color_exec(attrs, is_fg, color);
        return index + 4;
    }
    params.len() - 1
}

/// The SGR state after applying `params` from `index` on.
pub open spec fn apply_sgr_from(params: Seq<u16>, index: int, a: AttrsView) -> AttrsView
    decreases params.len() - index,
{
    if index < 0 || index >= params.len() {
        a
    } else {
        let code = params[index] as int;
        if fg_name(code) is Some {
            apply_sgr_from(params, index + 1, AttrsView { fg: fg_name(code)->0, ..a })
        } else if bg_name(code) is Some {
            apply_sgr_from(params, index + 1, AttrsView { bg: bg_name(code)->0, ..a })
        } else if code == 38 || code == 48 {
            let (last, b) = extended_color(params, index, a);
            apply_sgr_from(params, last + 1, b)
        } else {
            apply_sgr_from(params, index + 1, basic_sgr(code, a))
        }
    }
}

fn apply_sgr(params: &[u16], attrs: &mut AnsiAttrs)
    ensures
        final(attrs)@ == apply_sgr_from(params@, 0, old(attrs)@),
{
    let ghost goal = apply_sgr_from(params@, 0, attrs@);
    let mut index: usize = 0;
    while index < params.len()
        invariant
            index <= params@.len(),
            goal == apply_sgr_from(params@, index as int, attrs@),
        decreases params@.len() - index,
    {
        let code = params[index];
        if let Some(name) = ansi_fg(code) {
            attrs.fg = name.to_owned();
        } else if let Some(name) = ansi_bg(code) {
            attrs.bg = name.to_owned();
        } else if code == 38 || code == 48 {
            index = apply_extended_color(params, index, attrs);
        } else {
            apply_basic_sgr(code, attrs);
        }
        index += 1;
    }
}

// ---------------------------------------------------------------------------
// SGR parameters
// ---------------------------------------------------------------------------

/// What `str::parse::<u16>` gives: an optional `+`, then one or more ASCII
/// digits whose value fits in a `u16`.
pub open spec fn parse_u16(p: Seq<char>) -> Option<u16> {
    let digits = if p.len() > 0 && p[0] == '+' { p.drop_first() } else { p };
    if digits.len() > 0 && all_digits(digits) && digits_value(digits) <= 65535 {
        Some(digits_value(digits) as u16)
    } else {
        None
    }
}

fn parse_u16_exec(p: &[char]) -> (r: Option<u16>)
    ensures
        r == parse_u16(p@),
{
    let start: usize = if p.len() > 0 && p[0] == '+' { 1 } else { 0 };
    let ghost digits = if p@.len() > 0 && p@[0] == '+' { p@.drop_first() } else { p@ };
    assert(digits =~= p@.skip(start as int));
    if start >= p.len() {
        return None;
    }
    let mut val: u32 = 0;
    let mut i: usize = start;
    assert(p@.subrange(start as int, start as int) =~= Seq::<char>::empty());
    while i < p.len()
        invariant
            start <= i <= p@.len(),
            start < p@.len(),
            digits == p@.skip(start as int),
            digits == (if p@.len() > 0 && p@[0] == '+' { p@.drop_first() } else { p@ }),
            all_digits(p@.subrange(start as int, i as int)),
            digits_value(p@.subrange(start as int, i as int)) <= 65535 ==> val == digits_value(
                p@.subrange(start as int, i as int),
            ),
            (digits_value(p@.subrange(start as int, i as int)) > 65535) == (val > 65535),
            val <= 655359,
        decreases p@.len() - i,
    {
        let c = p[i];
        if !('0' <= c && c <= '9') {
            assert(digits[i - start] == c);
            assert(!all_digits(digits));
            return None;
        }
        let ghost pre = p@.subrange(start as int, i as int);
        let ghost next = p@.subrange(start as int, i + 1);
        assert(next.drop_last() =~= pre);
        assert(next.last() == c);
        let d: u32 = (c as u32) - ('0' as u32);
        if val <= 65535 {
            val = val * 10 + d;
        }
        i += 1;
    }
    assert(p@.subrange(start as int, p@.len() as int) =~= digits);
    if val > 65535 {
        None
    } else {
        Some(val as u16)
    }
}

/// The numbers among `pieces`, in order: each piece that parses as a `u16`.
pub open spec fn parsed_numbers(pieces: Seq<Seq<char>>) -> Seq<u16>
    decreases pieces.len(),
{
    if pieces.len() == 0 {
        Seq::<u16>::empty()
    } else {
        parsed_numbers(pieces.drop_last()) + match parse_u16(pieces.last()) {
            Some(v) => seq![v],
            None => Seq::<u16>::empty(),
        }
    }
}

/// The SGR parameters written between `ESC [` and `m`: the numbers between
/// `;` or `:` separators, or a single 0 (reset) when there are none.
pub open spec fn sgr_params(params: Seq<char>) -> Seq<u16> {
    let parsed = parsed_numbers(split_on(params, seq![';', ':']));
    if params.len() == 0 || parsed.len() == 0 {
        seq![0u16]
    } else {
        parsed
    }
}

fn parse_sgr_params(params: &[char]) -> (r: Vec<u16>)
    ensures
        r@ == sgr_params(params@),
{
    if params.len() == 0 {
        let mut v: Vec<u16> = Vec::new();
        v.push(0);
        assert(v@ =~= seq![0u16]);
        return v;
    }
    let pieces = split_chars(params, &[';', ':']);
    assert([';', ':']@ =~= seq![';', ':']);
    let ghost ps = views(pieces@);
    let mut parsed: Vec<u16> = Vec::new();
    let mut i: usize = 0;
    assert(ps.take(0) =~= Seq::<Seq<char>>::empty());
    while i < pieces.len()
        invariant
            ps == views(pieces@),
            i <= ps.len(),
            parsed@ == parsed_numbers(ps.take(i as int)),
        decreases ps.len() - i,
    {
        let ghost t = ps.take(i + 1);
        assert(t.drop_last() =~= ps.take(i as int));
        assert(t.last() == pieces@[i as int]@);
        match parse_u16_exec(pieces[i].as_slice()) {
            Some(v) => {
                parsed.push(v);
            },
            None => {},
        }
        assert(parsed@ =~= parsed_numbers(t));
        i += 1;
    }
    assert(ps.take(ps.len() as int) =~= ps);
    if parsed.len() == 0 {
        let mut v: Vec<u16> = Vec::new();
        v.push(0);
        assert(v@ =~= seq![0u16]);
        return v;
    }
    parsed
}

// ---------------------------------------------------------------------------
// Escape sequences
// ---------------------------------------------------------------------------

/// The first position at or after `j` holding an alphabetic character, or the
/// length of `chars` when there is none.
pub open spec fn first_alpha_from(chars: Seq<char>, j: int) -> int
    decreases chars.len() - j,
{
    if j < 0 || j >= chars.len() {
        if j < 0 { 0 } else { j }
    } else if unicode_alphabetic(chars[j]) {
        j
    } else {
        first_alpha_from(chars, j + 1)
    }
}

/// Consuming the escape sequence at `index`: where reading resumes, and the
/// SGR state after it. A CSI sequence (`ESC [`) runs to its first alphabetic
/// character; only one ending in `m` (SGR) changes the state. A lone `ESC`,
/// or one whose sequence never ends, is skipped by itself.
pub open spec fn consume_escape(chars: Seq<char>, index: int, a: AttrsView) -> (int, AttrsView) {
    if index + 2 >= chars.len() || chars[index + 1] != '[' {
        (index + 1, a)
    } else {
        let end = first_alpha_from(chars, index + 2);
        if end >= chars.len() {
            (index + 1, a)
        } else if chars[end] == 'm' {
            (end + 1, apply_sgr_from(sgr_params(chars.subrange(index + 2, end)), 0, a))
        } else {
            (end + 1, a)
        }
    }
}

pub proof fn lemma_first_alpha_bounds(chars: Seq<char>, j: int)
    requires
        0 <= j <= chars.len(),
    ensures
        j <= first_alpha_from(chars, j) <= chars.len(),
    decreases chars.len() - j,
{
    if j < chars.len() && !unicode_alphabetic(chars[j]) {
        lemma_first_alpha_bounds(chars, j + 1);
    }
}

/// Advance past the escape sequence at `index`, applying it if it is an SGR.
fn consume_ansi_sequence(chars: &[char], index: usize, attrs: &mut AnsiAttrs) -> (r: usize)
    requires
        index < chars@.len(),
    ensures
        (r as int, final(attrs)@) == consume_escape(chars@, index as int, old(attrs)@),
        index < r <= chars@.len(),
{
    if chars.len() - index <= 2 || chars[index + 1] != '[' {
        return index + 1;
    }
    proof { lemma_first_alpha_bounds(chars@, index + 2); }
    let mut end: usize = index + 2;
    while end < chars.len() && !is_alphabetic(chars[end])
        invariant
            index + 2 <= end <= chars@.len(),
            first_alpha_from(chars@, index + 2) == first_alpha_from(chars@, end as int),
        decreases chars@.len() - end,
    {
        end += 1;
    }
    if end >= chars.len() {
        return index + 1;
    }
    if chars[end] == 'm' {
        let params = parse_sgr_params(&chars[index + 2..end]);
        assert(chars@.subrange(index + 2, end as int) == chars@.subrange(index + 2, end as int));
        apply_sgr(params.as_slice(), attrs);
    }
    end + 1
}

// ---------------------------------------------------------------------------
// Lines with escapes
// ---------------------------------------------------------------------------

pub proof fn lemma_consume_advances(chars: Seq<char>, index: int, a: AttrsView)
    requires
        0 <= index < chars.len(),
    ensures
        index < consume_escape(chars, index, a).0 <= chars.len(),
{
    if !(index + 2 >= chars.len() || chars[index + 1] != '[') {
        lemma_first_alpha_bounds(chars, index + 2);
    }
}

/// The next tab stop after `len` cells (every 8 columns), clipped to
/// `columns`.
pub open spec fn tab_target(len: int, columns: int) -> int {
    let t = (len / 8 + 1) * 8;
    if t < columns {
        t
    } else {
        columns
    }
}

/// `cells` padded with blank cells drawn with `a` up to the next tab stop.
pub open spec fn tab_fill(cells: Seq<CellView>, a: AttrsView, columns: int) -> Seq<CellView> {
    let target = tab_target(cells.len() as int, columns);
    if target > cells.len() {
        cells + Seq::new((target - cells.len()) as nat, |k: int| attrs_cell(a, " "@, 1))
    } else {
        cells
    }
}

/// `cells` with `ch` merged into the glyph of the last cell (NFC).
pub open spec fn merge_into_last(cells: Seq<CellView>, ch: char) -> Seq<CellView> {
    let last = cells.last();
    cells.update(cells.len() - 1, CellView { text: nfc_of(last.text.push(ch)), ..last })
}

/// `cells` with a cell for `ch` drawn with `a`, plus a zero-width filler
/// after a wide glyph when the row has room for it.
pub open spec fn put_glyph(cells: Seq<CellView>, a: AttrsView, ch: char, columns: int) -> Seq<CellView> {
    let w = cell_width_spec(ch);
    let with_glyph = cells.push(attrs_cell(a, seq![ch], w));
    if w == 2 && with_glyph.len() < columns {
        with_glyph.push(attrs_cell(a, Seq::<char>::empty(), 0))
    } else {
        with_glyph
    }
}

/// Reading `chars` from `index` into `cells` with SGR state `a`, until the
/// characters run out or the row holds `columns` cells: the cells of the row
/// and the SGR state after it. An escape sequence is consumed (and applied if
/// it is an SGR); a tab pads to the next tab stop; a combining mark joins the
/// previous glyph; any other character becomes a cell.
pub open spec fn scan_line(
    chars: Seq<char>,
    index: int,
    cells: Seq<CellView>,
    a: AttrsView,
    columns: int,
) -> (Seq<CellView>, AttrsView)
    decreases chars.len() - index,
{
    if index < 0 || index >= chars.len() || cells.len() >= columns {
        (cells, a)
    } else if chars[index] == '\x1b' {
        proof {
            lemma_consume_advances(chars, index, a);
        }
        let (next, b) = consume_escape(chars, index, a);
        scan_line(chars, next, cells, b, columns)
    } else if chars[index] == '\t' {
        scan_line(chars, index + 1, tab_fill(cells, a, columns), a, columns)
    } else if combining_class(chars[index]) != 0 && cells.len() > 0 {
        scan_line(chars, index + 1, merge_into_last(cells, chars[index]), a, columns)
    } else {
        scan_line(chars, index + 1, put_glyph(cells, a, chars[index], columns), a, columns)
    }
}

/// The shape of a row the parser produces: at most `columns` cells, widths
/// 0, 1 or 2, every zero-width filler directly behind a wide glyph, every
/// wide glyph followed by its filler unless it fills the row's last column.
pub open spec fn row_shape(row: Seq<CellView>, columns: int) -> bool {
    &&& row.len() <= columns
    &&& forall|c: int| 0 <= c < row.len() ==> (#[trigger] row[c]).width <= 2
    &&& forall|c: int|
        0 <= c < row.len() && (#[trigger] row[c]).width == 0 ==> c > 0 && row[c - 1].width == 2
    &&& forall|c: int|
        0 <= c < row.len() - 1 && (#[trigger] row[c]).width == 2 ==> row[c + 1].width == 0
    &&& (row.len() > 0 && row.last().width == 2 ==> row.len() == columns)
}

proof fn lemma_scan_shape(chars: Seq<char>, index: int, cells: Seq<CellView>, a: AttrsView, columns: int)
    requires
        row_shape(cells, columns),
    ensures
        row_shape(scan_line(chars, index, cells, a, columns).0, columns),
    decreases chars.len() - index,
{
    if index < 0 || index >= chars.len() || cells.len() >= columns {
    } else if chars[index] == '\x1b' {
        lemma_consume_advances(chars, index, a);
        let (next, b) = consume_escape(chars, index, a);
        lemma_scan_shape(chars, next, cells, b, columns);
    } else if chars[index] == '\t' {
        let filled = tab_fill(cells, a, columns);
        let target = tab_target(cells.len() as int, columns);
        assert(target <= columns);
        if cells.len() > 0 {
            assert(cells.last().width != 2);
        }
        assert(row_shape(filled, columns)) by {
            assert forall|c: int| 0 <= c < filled.len() implies (#[trigger] filled[c]).width <= 2 by {
                if c >= cells.len() {
                } else {
                    assert(filled[c] == cells[c]);
                }
            }
            assert forall|c: int| 0 <= c < filled.len() && (#[trigger] filled[c]).width == 0 implies c
                > 0 && filled[c - 1].width == 2 by {
                assert(c < cells.len());
                assert(filled[c] == cells[c]);
                assert(filled[c - 1] == cells[c - 1]);
            }
            assert forall|c: int| 0 <= c < filled.len() - 1 && (#[trigger] filled[c]).width == 2 implies filled[c
                + 1].width == 0 by {
                assert(c < cells.len());
                assert(filled[c] == cells[c]);
                if c + 1 < cells.len() {
                    assert(filled[c + 1] == cells[c + 1]);
                } else {
                    assert(c == cells.len() - 1);
                }
            }
        }
        lemma_scan_shape(chars, index + 1, filled, a, columns);
    } else if combining_class(chars[index]) != 0 && cells.len() > 0 {
        let merged = merge_into_last(cells, chars[index]);
        assert(forall|c: int| 0 <= c < cells.len() ==> #[trigger] merged[c].width == cells[c].width);
        assert(row_shape(merged, columns)) by {
            assert forall|c: int| 0 <= c < merged.len() implies (#[trigger] merged[c]).width <= 2 by {
                assert(merged[c].width == cells[c].width);
            }
            assert forall|c: int| 0 <= c < merged.len() && (#[trigger] merged[c]).width == 0 implies c
                > 0 && merged[c - 1].width == 2 by {
                assert(merged[c].width == cells[c].width);
                assert(merged[c - 1].width == cells[c - 1].width);
            }
            assert forall|c: int| 0 <= c < merged.len() - 1 && (#[trigger] merged[c]).width == 2 implies merged[c
                + 1].width == 0 by {
                assert(merged[c].width == cells[c].width);
                assert(merged[c + 1].width == cells[c + 1].width);
            }
        }
        lemma_scan_shape(chars, index + 1, merged, a, columns);
    } else {
        let ch = chars[index];
        let put = put_glyph(cells, a, ch, columns);
        if cells.len() > 0 {
            assert(cells.last().width != 2);
        }
        assert(row_shape(put, columns)) by {
            assert forall|c: int| 0 <= c < put.len() implies (#[trigger] put[c]).width <= 2 by {
                if c < cells.len() {
                    assert(put[c] == cells[c]);
                }
            }
            assert forall|c: int| 0 <= c < put.len() && (#[trigger] put[c]).width == 0 implies c > 0
                && put[c - 1].width == 2 by {
                if c < cells.len() {
                    assert(put[c] == cells[c]);
                    assert(put[c - 1] == cells[c - 1]);
                }
            }
            assert forall|c: int| 0 <= c < put.len() - 1 && (#[trigger] put[c]).width == 2 implies put[c
                + 1].width == 0 by {
                if c < cells.len() {
                    assert(put[c] == cells[c]);
                    if c + 1 < cells.len() {
                        assert(put[c + 1] == cells[c + 1]);
                    }
                }
            }
        }
        lemma_scan_shape(chars, index + 1, put, a, columns);
    }
}

fn append_tab(cells: &mut Vec<AttributedCell>, attrs: &AnsiAttrs, columns: usize)
    requires
        old(cells)@.len() < columns,
    ensures
        cells_view(final(cells)@) == tab_fill(cells_view(old(cells)@), attrs@, columns as int),
{
    let len: usize = cells.len();
    let step: usize = 8 - len % 8;
    assert((len as int / 8 + 1) * 8 == len + step) by (nonlinear_arith)
        requires
            step == 8 - len % 8,
    ;
    let target: usize = if columns - len > step { len + step } else { columns };
    let ghost start = cells_view(cells@);
    let ghost want = tab_fill(start, attrs@, columns as int);
    assert(target > len);
    while cells.len() < target
        invariant
            len <= cells@.len() <= target,
            target <= columns,
            target == tab_target(len as int, columns as int),
            start.len() == len,
            want == tab_fill(start, attrs@, columns as int),
            cells_view(cells@) == want.take(cells@.len() as int),
        decreases target - cells@.len(),
    {
        let c = attrs.cell(" ", 1);
        proof { lemma_cells_view_push(cells@, c); }
        let ghost k = cells@.len() as int;
        cells.push(c);
        assert(want.take(k).push(want[k]) =~= want.take(k + 1));
    }
    assert(want.take(target as int) =~= want);
}

fn cells_from_ansi_line(line: &[char], attrs: &mut AnsiAttrs, columns: usize) -> (cells: Vec<AttributedCell>)
    ensures
        (cells_view(cells@), final(attrs)@) == scan_line(
            line@,
            0,
            Seq::<CellView>::empty(),
            old(attrs)@,
            columns as int,
        ),
{
    let ghost goal = scan_line(line@, 0, Seq::<CellView>::empty(), attrs@, columns as int);
    let mut cells: Vec<AttributedCell> = Vec::new();
    let mut index: usize = 0;
    assert(cells_view(cells@) =~= Seq::<CellView>::empty());
    while index < line.len() && cells.len() < columns
        invariant
            index <= line@.len(),
            goal == scan_line(line@, index as int, cells_view(cells@), attrs@, columns as int),
        decreases line@.len() - index,
    {
        let ghost before = cells_view(cells@);
        let ghost a0 = attrs@;
        if line[index] == '\x1b' {
            index = consume_ansi_sequence(line, index, attrs);
            continue;
        }
        let ch = line[index];
        if ch == '\t' {
            append_tab(&mut cells, attrs, columns);
            assert(cells_view(cells@) == tab_fill(before, a0, columns as int));
        } else if canonical_combining_class(ch) != 0 && cells.len() > 0 {
            let k: usize = cells.len() - 1;
            let ghost before = cells_view(cells@);
            let mut joined = cells[k].text.clone();
            crate::text::push_char(&mut joined, ch);
            let mut cell = cells[k].copy();
            cell.text = nfc(joined.as_str());
            cells[k] = cell;
            assert(cells_view(cells@) =~= merge_into_last(before, ch));
        } else {
            let w = cell_width(ch);
            let text = string_of_char(ch);
            let cell = attrs.cell(text.as_str(), w);
            proof { lemma_cells_view_push(cells@, cell); }
            cells.push(cell);
            if w == 2 && cells.len() < columns {
                let empty = String::new();
                let filler = attrs.cell(empty.as_str(), 0);
                proof { lemma_cells_view_push(cells@, filler); }
                cells.push(filler);
            }
            assert(cells_view(cells@) == put_glyph(before, a0, ch, columns as int));
        }
        index += 1;
    }
    cells
}

/// The pieces of `text` between newlines, without the empty piece after a
/// final newline.
pub open spec fn ansi_lines(text: Seq<char>) -> Seq<Seq<char>> {
    let p = split_on(text, seq!['\n']);
    if p.last().len() == 0 {
        p.drop_last()
    } else {
        p
    }
}

/// `s` without its trailing carriage returns.
pub open spec fn trim_cr_end(s: Seq<char>) -> Seq<char>
    decreases s.len(),
{
    if s.len() > 0 && s.last() == '\r' {
        trim_cr_end(s.drop_last())
    } else {
        s
    }
}

/// The rows for the first `n` of `lines`, and the SGR state after them: each
/// line is scanned with the state the previous one left behind.
pub open spec fn ansi_fold(lines: Seq<Seq<char>>, n: nat, columns: int) -> (Seq<Seq<CellView>>, AttrsView)
    decreases n,
{
    if n == 0 {
        (Seq::<Seq<CellView>>::empty(), default_attrs())
    } else {
        let (rows, a) = ansi_fold(lines, (n - 1) as nat, columns);
        let (cells, b) = scan_line(trim_cr_end(lines[n - 1]), 0, Seq::<CellView>::empty(), a, columns);
        (rows.push(cells), b)
    }
}

/// The grid parsed from captured text: one row per line, at most `rows`.
pub open spec fn ansi_grid(text: Seq<char>, columns: int, rows: int) -> Seq<Seq<CellView>> {
    let lines = ansi_lines(text);
    let n = if lines.len() < rows { lines.len() } else { rows as nat };
    ansi_fold(lines, n, columns).0
}

proof fn lemma_fold_shape(lines: Seq<Seq<char>>, n: nat, columns: int)
    requires
        n <= lines.len(),
        columns >= 0,
    ensures
        ansi_fold(lines, n, columns).0.len() == n,
        forall|r: int| 0 <= r < n ==> row_shape(#[trigger] ansi_fold(lines, n, columns).0[r], columns),
    decreases n,
{
    if n > 0 {
        lemma_fold_shape(lines, (n - 1) as nat, columns);
        let (rows, a) = ansi_fold(lines, (n - 1) as nat, columns);
        lemma_scan_shape(trim_cr_end(lines[n - 1]), 0, Seq::<CellView>::empty(), a, columns);
    }
}

fn trim_cr_end_exec(s: &[char]) -> (r: Vec<char>)
    ensures
        r@ == trim_cr_end(s@),
{
    let mut n: usize = s.len();
    assert(s@.take(n as int) =~= s@);
    while n > 0 && s[n - 1] == '\r'
        invariant
            n <= s@.len(),
            trim_cr_end(s@) == trim_cr_end(s@.take(n as int)),
        decreases n,
    {
        assert(s@.take(n as int).drop_last() =~= s@.take(n - 1));
        n -= 1;
    }
    let mut out: Vec<char> = Vec::new();
    let mut i: usize = 0;
    while i < n
        invariant
            n <= s@.len(),
            i <= n,
            out@ == s@.take(i as int),
            trim_cr_end(s@) == trim_cr_end(s@.take(n as int)),
            !(n > 0 && s@[n - 1] == '\r'),
        decreases n - i,
    {
        out.push(s[i]);
        assert(s@.take(i as int).push(s@[i as int]) =~= s@.take(i + 1));
        i += 1;
    }
    out
}

/// A screen from `tmux capture-pane -e` output: laid-out text plus SGR
/// escapes. SGR state carries from one line to the next. The grid has at
/// most `rows` rows, and each row the shape the parser guarantees: at most
/// `columns` cells, with every wide glyph's filler in place.
pub fn attributed_screen_from_ansi_text(ansi_text: &str, columns: usize, rows: usize) -> (s: AttributedScreen)
    ensures
        s@.rows == ansi_grid(ansi_text@, columns as int, rows as int),
        s@.rows.len() <= rows,
        forall|r: int| 0 <= r < s@.rows.len() ==> row_shape(#[trigger] s@.rows[r], columns as int),
        s@.cursor_row == 0,
        s@.cursor_column == 0,
        !s@.cursor_hidden,
{
    let chars = chars_of(ansi_text);
    let mut pieces = split_chars(chars.as_slice(), &['\n']);
    assert(['\n']@ =~= seq!['\n']);
    proof { crate::text::lemma_split_on_nonempty(chars@, seq!['\n']); }
    let ghost all = views(pieces@);
    let ghost lines = ansi_lines(ansi_text@);
    let last: usize = pieces.len() - 1;
    if pieces[last].len() == 0 {
        pieces.pop();
        assert(views(pieces@) =~= all.drop_last());
    }
    assert(views(pieces@) == lines);
    let n: usize = if pieces.len() < rows { pieces.len() } else { rows };
    let mut attrs = AnsiAttrs::new();
    let mut grid: Vec<Vec<AttributedCell>> = Vec::new();
    let mut i: usize = 0;
    assert(grid_view(grid@) =~= Seq::<Seq<CellView>>::empty());
    while i < n
        invariant
            views(pieces@) == lines,
            n <= lines.len(),
            i <= n,
            (grid_view(grid@), attrs@) == ansi_fold(lines, i as nat, columns as int),
        decreases n - i,
    {
        let line = trim_cr_end_exec(pieces[i].as_slice());
        let cells = cells_from_ansi_line(line.as_slice(), &mut attrs, columns);
        proof { lemma_grid_view_push(grid@, cells); }
        grid.push(cells);
        i += 1;
    }
    proof { lemma_fold_shape(lines, n as nat, columns as int); }
    AttributedScreen { rows: grid, cursor_row: 0, cursor_column: 0, cursor_hidden: false }
}

// ---------------------------------------------------------------------------
// Fingerprints
// ---------------------------------------------------------------------------

/// The JSON text (as bytes) that `serde_json::to_string` gives for the grid
/// as an array of rows, each an array of cells, each cell the array
/// `[text, fg, bg, bold, dim, italic, underline, strikethrough, reverse,
/// width]`.
pub uninterp spec fn fingerprint_json(rows: Seq<Seq<CellView>>) -> Seq<u8>;

/// The lowercase hex SHA-256 digest of `data`.
pub uninterp spec fn sha256_hex(data: Seq<u8>) -> Seq<char>;

/// `serde_json::to_string` on the grid, each cell as a tuple of its fields.
/// Trusted to give the same text for the same grid; serialising strings,
/// booleans and integers does not fail, and a failure would give the empty
/// text.
#[verifier::external_body]
fn grid_json(rows: &Vec<Vec<AttributedCell>>) -> (r: Vec<u8>)
    ensures
        r@ == fingerprint_json(grid_view(rows@)),
{
    let payload: Vec<Vec<(&str, &str, &str, bool, bool, bool, bool, bool, bool, u8)>> = rows.iter().map(
        |row| row.iter().map(|c| (c.text.as_str(), c.fg.as_str(), c.bg.as_str(), c.bold, c.dim,
            c.italic, c.underline, c.strikethrough, c.reverse, c.width)).collect(),
    ).collect();
    serde_json::to_string(&payload).unwrap_or_default().into_bytes()
}

/// Lowercase hexadecimal digits only.
pub open spec fn is_lower_hex(s: Seq<char>) -> bool {
    forall|i: int| 0 <= i < s.len() ==> ('0' <= #[trigger] s[i] <= '9') || ('a' <= s[i] <= 'f')
}

/// `sha2::Sha256::digest`, formatted as lowercase hex. Trusted to give the
/// digest of `data`, a function of the bytes alone: 32 bytes, written as
/// two lowercase hex digits each by the digest array's `LowerHex`.
#[verifier::external_body]
pub(crate) fn sha256_hex_digest(data: &[u8]) -> (r: String)
    ensures
        r@ == sha256_hex(data@),
        r@.len() == 64,
        is_lower_hex(r@),
{
    format!("{:x}", <sha2::Sha256 as sha2::Digest>::digest(data))
}

impl AttributedScreen {
    /// A digest of every cell *including its attributes*: two screens with
    /// the same text but a different highlight are different screenshots.
    pub fn render_fingerprint(&self) -> (s: String)
        ensures
            s@ == sha256_hex(fingerprint_json(self@.rows)),
    {
        let json = grid_json(&self.rows);
        sha256_hex_digest(json.as_slice())
    }
}

// ---------------------------------------------------------------------------
// Screens from the emulator
// ---------------------------------------------------------------------------

/// The unresolved colour name of a colour the emulator reports.
pub open spec fn term_color_name(c: TermColor) -> Seq<char> {
    match c {
        TermColor::Default => "default"@,
        TermColor::Idx(i) => palette_color_spec(i as int),
        TermColor::Rgb(r, g, b) => rgb_spec(r as int, g as int, b as int),
    }
}

/// The attributed cell for a cell the emulator reports: width 0 for the
/// continuation of a wide glyph (with no text of its own), 2 for a wide
/// glyph, 1 otherwise; a blank cell holds a space. The emulator models
/// neither dim nor strikethrough.
pub open spec fn cell_from_emulated(c: EmulatedCellView) -> CellView {
    let width: u8 = if c.wide_continuation {
        0
    } else if c.wide {
        2
    } else {
        1
    };
    CellView {
        text: if width == 0 {
            Seq::<char>::empty()
        } else if c.has_contents {
            c.contents
        } else {
            " "@
        },
        fg: term_color_name(c.fg),
        bg: term_color_name(c.bg),
        bold: c.bold,
        dim: false,
        italic: c.italic,
        underline: c.underline,
        strikethrough: false,
        reverse: c.inverse,
        width,
    }
}

/// The attributed grid for the cells the emulator reports; a cell it does
/// not report is a blank default cell.
pub open spec fn grid_from_emulated(g: Seq<Seq<Option<EmulatedCellView>>>) -> Seq<Seq<CellView>> {
    Seq::new(
        g.len(),
        |r: int| Seq::new(g[r].len(), |c: int| match g[r][c] {
            Some(x) => cell_from_emulated(x),
            None => default_cell(),
        }),
    )
}

fn term_color(c: TermColor) -> (s: String)
    ensures
        s@ == term_color_name(c),
{
    match c {
        TermColor::Default => "default".to_owned(),
        TermColor::Idx(i) => palette_color(i as u16),
        TermColor::Rgb(r, g, b) => rgb_color(r, g, b),
    }
}

fn cell_from_vt100(c: &EmulatedCell) -> (cell: AttributedCell)
    ensures
        cell@ == cell_from_emulated(c@),
{
    let width: u8 = if c.wide_continuation {
        0
    } else if c.wide {
        2
    } else {
        1
    };
    AttributedCell {
        text: if width == 0 {
            String::new()
        } else if c.has_contents {
            c.contents.clone()
        } else {
            " ".to_owned()
        },
        fg: term_color(c.fg),
        bg: term_color(c.bg),
        bold: c.bold,
        dim: false,
        italic: c.italic,
        underline: c.underline,
        strikethrough: false,
        reverse: c.inverse,
        width,
    }
}

/// The attributed cell for a cell of the cast player, which reports its own
/// width: the width capped at 2, and a width-0 cell, the filler behind a wide
/// glyph, carries no text; any other cell holds its glyph.
pub open spec fn cast_cell_spec(
    glyph: char,
    width: usize,
    fg: TermColor,
    bg: TermColor,
    pen: (bool, bool, bool, bool, bool, bool),
) -> CellView {
    let w: u8 = if width >= 2 {
        2
    } else {
        width as u8
    };
    CellView {
        text: if w == 0 {
            Seq::<char>::empty()
        } else {
            seq![glyph]
        },
        fg: term_color_name(fg),
        bg: term_color_name(bg),
        bold: pen.0,
        dim: pen.1,
        italic: pen.2,
        underline: pen.3,
        strikethrough: pen.4,
        reverse: pen.5,
        width: w,
    }
}

/// A cell of the cast player as an attributed cell, keeping the player's own
/// width (capped at 2) rather than measuring the glyph again. The pen is
/// bold, faint, italic, underline, strikethrough and inverse, in that order.
pub fn cast_cell(
    glyph: char,
    width: usize,
    fg: TermColor,
    bg: TermColor,
    pen: (bool, bool, bool, bool, bool, bool),
) -> (cell: AttributedCell)
    ensures
        cell@ == cast_cell_spec(glyph, width, fg, bg, pen),
{
    let w: u8 = if width >= 2 {
        2
    } else {
        width as u8
    };
    AttributedCell {
        text: if w == 0 {
            String::new()
        } else {
            crate::text::string_of_char(glyph)
        },
        fg: term_color(fg),
        bg: term_color(bg),
        bold: pen.0,
        dim: pen.1,
        italic: pen.2,
        underline: pen.3,
        strikethrough: pen.4,
        reverse: pen.5,
        width: w,
    }
}

/// An attributed screen from a live emulated screen: every cell with its
/// attributes, and the cursor.
pub fn from_vt100(screen: &TerminalScreen) -> (s: AttributedScreen)
    ensures
        s@.rows == grid_from_emulated(vt100_cells(screen@.rows, screen@.cols, screen@.raw)),
        (s@.cursor_row as u16, s@.cursor_column as u16, s@.cursor_hidden) == vt100_cursor(
            screen@.rows,
            screen@.cols,
            screen@.raw,
        ),
        s@.cursor_row < 0x10000 && s@.cursor_column < 0x10000,
{
    let cells = screen.cells();
    let ghost g = cell_grid_view(cells@);
    let ghost want = grid_from_emulated(g);
    let mut grid: Vec<Vec<AttributedCell>> = Vec::new();
    let mut r: usize = 0;
    while r < cells.len()
        invariant
            g == cell_grid_view(cells@),
            want == grid_from_emulated(g),
            r <= cells@.len(),
            grid_view(grid@) == want.take(r as int),
        decreases cells@.len() - r,
    {
        let row = &cells[r];
        let mut out: Vec<AttributedCell> = Vec::new();
        let mut c: usize = 0;
        while c < row.len()
            invariant
                g == cell_grid_view(cells@),
                want == grid_from_emulated(g),
                r < cells@.len(),
                row@ == cells@[r as int]@,
                c <= row@.len(),
                cells_view(out@) == want[r as int].take(c as int),
            decreases row@.len() - c,
        {
            let cell = match &row[c] {
                Some(x) => cell_from_vt100(x),
                None => AttributedCell::default(),
            };
            proof { lemma_cells_view_push(out@, cell); }
            out.push(cell);
            assert(want[r as int].take(c as int).push(want[r as int][c as int]) =~= want[r as int].take(c + 1));
            c += 1;
        }
        assert(want[r as int].take(row@.len() as int) =~= want[r as int]);
        proof { lemma_grid_view_push(grid@, out); }
        grid.push(out);
        assert(want.take(r as int).push(want[r as int]) =~= want.take(r + 1));
        r += 1;
    }
    assert(want.take(cells@.len() as int) =~= want);
    let (cursor_row, cursor_column, hidden) = screen.cursor();
    AttributedScreen {
        rows: grid,
        cursor_row: cursor_row as usize,
        cursor_column: cursor_column as usize,
        cursor_hidden: hidden,
    }
}

/// A reversed cell shows its colours swapped: whatever the cell, its
/// resolved colours with reverse set are those without it, exchanged.
pub proof fn lemma_reverse_swaps_the_resolved_colours(c: CellView)
    ensures
        cell_colors_spec(CellView { reverse: true, ..c }) == ({
            let plain = cell_colors_spec(CellView { reverse: false, ..c });
            (plain.1, plain.0)
        }),
{
}

proof fn lemma_plain_row_text(line: Seq<char>)
    ensures
        row_text(Seq::new(line.len(), |j: int| plain_cell(seq![line[j]]))) == line,
    decreases line.len(),
{
    let row = Seq::new(line.len(), |j: int| plain_cell(seq![line[j]]));
    if line.len() > 0 {
        let init = line.drop_last();
        lemma_plain_row_text(init);
        assert(row.drop_last() =~= Seq::new(init.len(), |j: int| plain_cell(seq![init[j]])));
        assert(row.last().text == seq![line.last()]);
        assert(init + seq![line.last()] =~= line);
    } else {
        assert(row_text(row) =~= line);
    }
}

/// A screen made from text that fits gives the text back: when the text
/// has at most `rows` lines and none longer than `columns`, the screen's
/// untrimmed lines are the text's lines, so its text is those lines joined.
pub proof fn lemma_text_round_trips_through_a_screen(text: Seq<char>, columns: int, rows: int)
    requires
        lines_of(text).len() <= rows,
        forall|i: int| 0 <= i < lines_of(text).len() ==> (#[trigger] lines_of(text)[i]).len() <= columns,
    ensures
        ({
            let g = plain_grid(lines_of(text), columns, rows);
            Seq::new(g.len(), |i: int| line_text(g[i], false)) == lines_of(text)
                && join(Seq::new(g.len(), |i: int| line_text(g[i], false)), seq!['\n']) == join(
                lines_of(text),
                seq!['\n'],
            )
        }),
{
    let ls = lines_of(text);
    let g = plain_grid(ls, columns, rows);
    assert forall|i: int| 0 <= i < ls.len() implies line_text(g[i], false) == ls[i] by {
        let line = ls[i];
        assert(plain_row(line, columns) =~= Seq::new(line.len(), |j: int| plain_cell(seq![line[j]])));
        lemma_plain_row_text(line);
    }
    assert(Seq::new(g.len(), |i: int| line_text(g[i], false)) =~= ls);
}

/// The default-colour codes reset their own colour and nothing else: SGR 39
/// sets the foreground to `default` and SGR 49 the background, leaving every
/// other attribute as it was, whatever the state before.
pub proof fn lemma_default_colour_codes_reset_only_their_colour(a: AttrsView)
    ensures
        apply_sgr_from(seq![39u16], 0, a) == (AttrsView { fg: "default"@, ..a }),
        apply_sgr_from(seq![49u16], 0, a) == (AttrsView { bg: "default"@, ..a }),
{
    reveal_with_fuel(apply_sgr_from, 2);
    assert(seq![39u16][0] == 39u16);
    assert(seq![49u16][0] == 49u16);
}

/// A foreground colour does not leak past SGR 39: a standard or bright
/// foreground followed by 39 leaves the foreground `default` and every other
/// attribute as it was before the colour.
pub proof fn lemma_a_foreground_colour_ends_at_the_default_code(a: AttrsView, c: u16)
    requires
        (30 <= c <= 37) || (90 <= c <= 97),
    ensures
        apply_sgr_from(seq![c, 39u16], 0, a) == (AttrsView { fg: "default"@, ..a }),
{
    reveal_with_fuel(apply_sgr_from, 3);
    let s = seq![c, 39u16];
    assert(s[0] == c && s[1] == 39u16);
    let b = AttrsView { fg: fg_name(c as int)->0, ..a };
    assert(apply_sgr_from(s, 0, a) == apply_sgr_from(s, 1, b));
    assert(apply_sgr_from(s, 1, b) == apply_sgr_from(s, 2, basic_sgr(39, b)));
}

} // verus!
