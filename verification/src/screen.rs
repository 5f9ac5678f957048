//! Terminal screen emulation: what a user would see on a terminal.
//!
//! The screen is a fixed `cols` x `rows` cell grid interpreted by the `vt100`
//! emulator, not an append-only transcript: erase, cursor addressing, scroll
//! regions and the alternate buffer behave as on a real terminal, so text
//! that is erased stops being visible. The screen keeps the raw byte stream
//! it was fed, and what is visible is the emulator's reading of that stream
//! at the current size, so a resize replays the stream: narrowing and then
//! widening again restores the original contents.
use vstd::prelude::*;
use crate::render::drop_trailing_blank;
use vstd::string::StringSliceAdditionalSpecFns;
use vt100::{Color, Parser};
use crate::text::{chars_of, join, join_chars, string_of, string_seqs, trim_end, trim_end_chars, views};

verus! {

broadcast use vstd::string::group_string_axioms;

/// The visible rows, each as `vt100::Screen::rows(0, cols)` renders it, of a
/// `rows` x `cols` `vt100` emulator (no scrollback) fed `raw`. The emulator
/// needs two columns at least: with one, a wide character underflows its
/// column arithmetic.
pub uninterp spec fn vt100_visible_rows(rows: u16, cols: u16, raw: Seq<u8>) -> Seq<Seq<char>>;

/// A fresh `vt100::Parser` of the given size, fed `raw`, read back row by row.
/// Trusted to depend on the size and the bytes alone: the emulator is
/// deterministic.
#[verifier::external_body]
fn emulate_rows(rows: u16, cols: u16, raw: &[u8]) -> (r: Vec<String>)
    requires
        rows > 0,
        cols >= 2,
    ensures
        string_seqs(r@) == vt100_visible_rows(rows, cols, raw@),
{
    let mut parser = Parser::new(rows, cols, 0);
    parser.process(raw);
    parser.screen().rows(0, cols).collect()
}

/// A colour as the emulator reports it.
#[derive(Debug, Clone, Copy, PartialEq, Eq)]
pub enum TermColor {
    /// The default terminal colour.
    Default,
    /// An indexed palette colour.
    Idx(u8),
    /// A true colour.
    Rgb(u8, u8, u8),
}

/// One cell as the emulator reports it.
#[derive(Debug, Clone, PartialEq, Eq)]
pub struct EmulatedCell {
    /// The cell's text.
    pub contents: String,
    /// Whether anything was written to the cell.
    pub has_contents: bool,
    /// Whether the cell holds a wide glyph.
    pub wide: bool,
    /// Whether the cell is the second column of a wide glyph.
    pub wide_continuation: bool,
    /// Foreground colour.
    pub fg: TermColor,
    /// Background colour.
    pub bg: TermColor,
    /// Bold.
    pub bold: bool,
    /// Italic.
    pub italic: bool,
    /// Underline.
    pub underline: bool,
    /// Reverse video.
    pub inverse: bool,
}

/// What a reported cell holds.
pub struct EmulatedCellView {
    pub contents: Seq<char>,
    pub has_contents: bool,
    pub wide: bool,
    pub wide_continuation: bool,
    pub fg: TermColor,
    pub bg: TermColor,
    pub bold: bool,
    pub italic: bool,
    pub underline: bool,
    pub inverse: bool,
}

impl EmulatedCell {
    /// A reported cell from its parts, given in field order.
    #[allow(clippy::too_many_arguments)]
    pub fn new(
        contents: String,
        has_contents: bool,
        wide: bool,
        wide_continuation: bool,
        fg: TermColor,
        bg: TermColor,
        bold: bool,
        italic: bool,
        underline: bool,
        inverse: bool,
    ) -> (c: Self)
        ensures
            c == (EmulatedCell {
                contents,
                has_contents,
                wide,
                wide_continuation,
                fg,
                bg,
                bold,
                italic,
                underline,
                inverse,
            }),
    {
        EmulatedCell {
            contents,
            has_contents,
            wide,
            wide_continuation,
            fg,
            bg,
            bold,
            italic,
            underline,
            inverse,
        }
    }
}

impl View for EmulatedCell {
    type V = EmulatedCellView;

    open spec fn view(&self) -> EmulatedCellView {
        EmulatedCellView {
            contents: self.contents@,
            has_contents: self.has_contents,
            wide: self.wide,
            wide_continuation: self.wide_continuation,
            fg: self.fg,
            bg: self.bg,
            bold: self.bold,
            italic: self.italic,
            underline: self.underline,
            inverse: self.inverse,
        }
    }
}

/// The views of a grid of reported cells.
pub open spec fn cell_grid_view(g: Seq<Vec<Option<EmulatedCell>>>) -> Seq<Seq<Option<EmulatedCellView>>> {
    Seq::new(
        g.len(),
        |r: int| Seq::new(g[r]@.len(), |c: int| match g[r]@[c] {
            Some(cell) => Some(cell@),
            None => None,
        }),
    )
}

/// The cells `vt100::Screen::cell(row, col)` reports, row by row over the
/// whole grid, of a `rows` x `cols` emulator fed `raw`.
pub uninterp spec fn vt100_cells(rows: u16, cols: u16, raw: Seq<u8>) -> Seq<Seq<Option<EmulatedCellView>>>;

/// The cursor row, cursor column and whether the cursor is hidden, as a
/// `rows` x `cols` emulator fed `raw` reports them.
pub uninterp spec fn vt100_cursor(rows: u16, cols: u16, raw: Seq<u8>) -> (u16, u16, bool);

/// Every cell of a fresh `vt100::Parser` fed `raw`, each copied field by
/// field. Trusted to depend on the size and the bytes alone.
#[verifier::external_body]
fn emulate_cells(rows: u16, cols: u16, raw: &[u8]) -> (r: Vec<Vec<Option<EmulatedCell>>>)
    requires
        rows > 0,
        cols >= 2,
    ensures
        cell_grid_view(r@) == vt100_cells(rows, cols, raw@),
{
    let mut p = Parser::new(rows, cols, 0);
    p.process(raw);
    let color = |c| match c {
        Color::Idx(i) => TermColor::Idx(i),
        Color::Rgb(r, g, b) => TermColor::Rgb(r, g, b),
        _ => TermColor::Default
    };
    (0..rows).map(|r| (0..cols).map(|c| p.screen().cell(r, c).map(|x| EmulatedCell::new(x.contents(),
        x.has_contents(), x.is_wide(), x.is_wide_continuation(), color(x.fgcolor()),
        color(x.bgcolor()), x.bold(), x.italic(), x.underline(), x.inverse()))).collect()).collect()
}

/// `vt100::Screen::cursor_position` and `hide_cursor` of a fresh parser fed
/// `raw`. Trusted to depend on the size and the bytes alone.
#[verifier::external_body]
fn emulate_cursor(rows: u16, cols: u16, raw: &[u8]) -> (r: (u16, u16, bool))
    requires
        rows > 0,
        cols >= 2,
    ensures
        r == vt100_cursor(rows, cols, raw@),
{
    let mut p = Parser::new(rows, cols, 0);
    p.process(raw);
    let (row, col) = p.screen().cursor_position();
    (row, col, p.screen().hide_cursor())
}

/// What a screen holds: its size and every byte it has been fed.
pub struct ScreenState {
    pub cols: u16,
    pub rows: u16,
    pub raw: Seq<u8>,
}

/// In-memory terminal screen backed by `vt100`.
#[derive(Debug)]
pub struct TerminalScreen {
    cols: u16,
    rows: u16,
    raw: Vec<u8>,
}

impl View for TerminalScreen {
    type V = ScreenState;

    closed spec fn view(&self) -> ScreenState {
        ScreenState { cols: self.cols, rows: self.rows, raw: self.raw@ }
    }
}

/// Every visible row of a screen in state `s`, right-trimmed.
pub open spec fn visible_rows(s: ScreenState) -> Seq<Seq<char>> {
    let rows = vt100_visible_rows(s.rows, s.cols, s.raw);
    Seq::new(rows.len(), |i: int| trim_end(rows[i]))
}

/// The contents of a screen in state `s`: the visible rows, right-trimmed,
/// without trailing blank rows, joined with `\n`.
pub open spec fn contents_spec(s: ScreenState) -> Seq<char> {
    join(drop_trailing_blank(visible_rows(s)), seq!['\n'])
}

/// Every visible row, blanks included, joined with `\n`.
pub open spec fn raw_contents_spec(s: ScreenState) -> Seq<char> {
    join(visible_rows(s), seq!['\n'])
}

impl TerminalScreen {
    /// At least two columns, so that a wide character fits on a row (the
    /// emulator fails on one in a single column), and at least one row.
    #[verifier::type_invariant]
    closed spec fn positive_size(&self) -> bool {
        self.cols >= 2 && self.rows > 0
    }

    /// Create a screen with the given dimensions: at least two columns and
    /// one row.
    pub fn new(cols: u16, rows: u16) -> (s: Self)
        requires
            cols >= 2,
            rows > 0,
        ensures
            s@ == (ScreenState { cols, rows, raw: Seq::<u8>::empty() }),
    {
        let s = TerminalScreen { cols, rows, raw: Vec::new() };
        assert(s@.raw =~= Seq::<u8>::empty());
        s
    }

    /// Feed raw terminal bytes. A multi-byte character split across two
    /// chunks is reassembled, since the emulator reads the whole stream.
    pub fn feed_bytes(&mut self, data: &[u8])
        ensures
            final(self)@ == (ScreenState { raw: old(self)@.raw + data@, ..old(self)@ }),
    {
        proof { use_type_invariant(&*self); }
        if data.len() == 0 {
            assert(self@.raw + data@ =~= self@.raw);
            return;
        }
        let mut raw: Vec<u8> = Vec::new();
        std::mem::swap(&mut raw, &mut self.raw);
        let ghost start = raw@;
        let mut i: usize = 0;
        while i < data.len()
            invariant
                i <= data@.len(),
                raw@ == start + data@.take(i as int),
            decreases data@.len() - i,
        {
            raw.push(data[i]);
            assert(start + data@.take(i as int).push(data@[i as int]) =~= start + data@.take(i + 1));
            i += 1;
        }
        assert(data@.take(data@.len() as int) =~= data@);
        self.raw = raw;
    }

    /// Feed a UTF-8 string.
    pub fn feed_str(&mut self, data: &str)
        ensures
            final(self)@ == (ScreenState { raw: old(self)@.raw + data.spec_bytes(), ..old(self)@ }),
    {
        self.feed_bytes(data.as_bytes());
    }

    fn trimmed_rows(&self) -> (r: Vec<Vec<char>>)
        ensures
            views(r@) == visible_rows(self@),
    {
        proof { use_type_invariant(self); }
        let rows = emulate_rows(self.rows, self.cols, self.raw.as_slice());
        let ghost want = visible_rows(self@);
        let mut out: Vec<Vec<char>> = Vec::new();
        let mut i: usize = 0;
        while i < rows.len()
            invariant
                want == visible_rows(self@),
                string_seqs(rows@) == vt100_visible_rows(self@.rows, self@.cols, self@.raw),
                i <= rows@.len(),
                views(out@) == want.take(i as int),
            decreases rows@.len() - i,
        {
            let c = chars_of(rows[i].as_str());
            let t = trim_end_chars(c.as_slice());
            proof { crate::text::lemma_views_push(out@, t); }
            out.push(t);
            assert(want.take(i as int).push(want[i as int]) =~= want.take(i + 1));
            i += 1;
        }
        assert(want.take(rows@.len() as int) =~= want);
        out
    }

    /// Current plain-text contents: the visible rows, right-trimmed, with
    /// trailing blank rows dropped.
    pub fn contents(&self) -> (s: String)
        ensures
            s@ == contents_spec(self@),
    {
        let mut lines = self.trimmed_rows();
        let ghost all = visible_rows(self@);
        while lines.len() > 0 && lines[lines.len() - 1].len() == 0
            invariant
                drop_trailing_blank(all) == drop_trailing_blank(views(lines@)),
            decreases lines@.len(),
        {
            let ghost before = views(lines@);
            lines.pop();
            assert(views(lines@) =~= before.drop_last());
        }
        let joined = join_chars(&lines, &['\n']);
        assert(['\n']@ =~= seq!['\n']);
        string_of(joined.as_slice())
    }

    /// Raw display without normalization: every visible row, blanks included.
    pub fn raw_contents(&self) -> (s: String)
        ensures
            s@ == raw_contents_spec(self@),
    {
        let lines = self.trimmed_rows();
        let joined = join_chars(&lines, &['\n']);
        assert(['\n']@ =~= seq!['\n']);
        string_of(joined.as_slice())
    }

    /// Resize the screen; the fed bytes are replayed at the new size.
    pub fn resize(&mut self, cols: u16, rows: u16)
        requires
            cols >= 2,
            rows > 0,
        ensures
            final(self)@ == (ScreenState { cols, rows, raw: old(self)@.raw }),
    {
        proof { use_type_invariant(&*self); }
        self.cols = cols;
        self.rows = rows;
    }

    /// Current columns.
    pub fn cols(&self) -> (c: u16)
        ensures
            c == self@.cols,
    {
        self.cols
    }

    /// Current rows.
    pub fn rows(&self) -> (r: u16)
        ensures
            r == self@.rows,
    {
        self.rows
    }

    /// Whether the screen shows nothing.
    pub fn is_empty(&self) -> (b: bool)
        ensures
            b == (contents_spec(self@).len() == 0),
    {
        let c = self.contents();
        c.as_str().is_empty()
    }

    /// Clear the screen and the replay buffer.
    pub fn clear(&mut self)
        ensures
            final(self)@ == (ScreenState { raw: Seq::<u8>::empty(), ..old(self)@ }),
    {
        proof { use_type_invariant(&*self); }
        self.raw = Vec::new();
        assert(self@.raw =~= Seq::<u8>::empty());
    }
}

impl TerminalScreen {
    /// Every cell of the grid, row by row, as the emulator reports it.
    pub fn cells(&self) -> (r: Vec<Vec<Option<EmulatedCell>>>)
        ensures
            cell_grid_view(r@) == vt100_cells(self@.rows, self@.cols, self@.raw),
    {
        proof { use_type_invariant(self); }
        emulate_cells(self.rows, self.cols, self.raw.as_slice())
    }

    /// The cursor row and column, and whether the cursor is hidden.
    pub fn cursor(&self) -> (r: (u16, u16, bool))
        ensures
            r == vt100_cursor(self@.rows, self@.cols, self@.raw),
    {
        proof { use_type_invariant(self); }
        emulate_cursor(self.rows, self.cols, self.raw.as_slice())
    }
}

/// Resizing is lossless: a screen resized away and back shows what it
/// showed before, because the fed bytes are replayed at each size.
pub proof fn lemma_resize_round_trip(s: ScreenState, cols: u16, rows: u16)
    ensures
        ({
            let away = ScreenState { cols, rows, ..s };
            let back = ScreenState { cols: s.cols, rows: s.rows, ..away };
            contents_spec(back) == contents_spec(s)
        }),
{
    let away = ScreenState { cols, rows, ..s };
    let back = ScreenState { cols: s.cols, rows: s.rows, ..away };
    assert(back == s);
}

/// Feeding in chunks is feeding the whole: two feeds in a row leave the
/// screen as one feed of the concatenated bytes.
pub proof fn lemma_chunked_feed(s: ScreenState, a: Seq<u8>, b: Seq<u8>)
    ensures
        (ScreenState { raw: (s.raw + a) + b, ..s }) == (ScreenState { raw: s.raw + (a + b), ..s }),
{
    assert((s.raw + a) + b =~= s.raw + (a + b));
}

} // verus!
