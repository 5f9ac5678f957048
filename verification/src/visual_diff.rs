//! Comparing a run's screenshot with its stored baseline: where the baseline
//! lives, what the comparison reports, and the pictures drawn when the two
//! differ.
use vstd::prelude::*;
use crate::cache::join_exec;
use crate::render::{is_png_extension, path_extension, path_extension_spec, png_extension, renders_as_png, selects_png};
use crate::result::AssertionResult;
use crate::store::{joined_path, sanitize_component, sanitize_spec};
use crate::text::{chars_of, owned, push_str, string_of};

verus! {

broadcast use vstd::string::group_string_axioms;

// ---------------------------------------------------------------------------
// Where things live
// ---------------------------------------------------------------------------

/// The suffix a screenshot is compared under: its extension, or `svg` when
/// it has none.
pub open spec fn suffix_spec(screenshot: Seq<char>) -> Seq<char> {
    match path_extension_spec(screenshot) {
        Some(e) => e,
        None => "svg"@,
    }
}

/// The suffix a screenshot is compared under: its extension, or `svg`.
pub fn screenshot_suffix(screenshot: &str) -> (s: String)
    ensures
        s@ == suffix_spec(screenshot@),
{
    match path_extension(screenshot) {
        Some(e) => e,
        None => owned("svg"),
    }
}

/// `s` without its leading dots.
pub open spec fn trim_leading_dots(s: Seq<char>) -> Seq<char>
    decreases s.len(),
{
    if s.len() > 0 && s[0] == '.' {
        trim_leading_dots(s.drop_first())
    } else {
        s
    }
}

fn trim_leading_dots_exec(s: &str) -> (r: String)
    ensures
        r@ == trim_leading_dots(s@),
{
    let chars = chars_of(s);
    let mut i: usize = 0;
    assert(chars@.skip(0) =~= chars@);
    while i < chars.len() && chars[i] == '.'
        invariant
            chars@ == s@,
            i <= chars@.len(),
            trim_leading_dots(s@) == trim_leading_dots(chars@.skip(i as int)),
        decreases chars@.len() - i,
    {
        assert(chars@.skip(i as int).drop_first() =~= chars@.skip(i + 1));
        i += 1;
    }
    let rest = crate::text::slice_chars(chars.as_slice(), i, chars.len());
    assert(rest@ =~= chars@.skip(i as int));
    string_of(rest.as_slice())
}

/// Where the baseline of `recipe` under `renderer` lives:
/// `<root>/<recipe>/<renderer>/final.<suffix>`, each name sanitised into one
/// path component and the suffix without leading dots.
pub open spec fn baseline_path_spec(root: Seq<char>, recipe: Seq<char>, renderer: Seq<char>, suffix: Seq<char>) -> Seq<char> {
    joined_path(
        joined_path(joined_path(root, sanitize_spec(recipe)), sanitize_spec(renderer)),
        "final."@ + trim_leading_dots(suffix),
    )
}

/// The baseline file for `recipe` under `renderer` with the given suffix.
pub fn baseline_path(root: &str, recipe: &str, renderer: &str, suffix: &str) -> (p: String)
    ensures
        p@ == baseline_path_spec(root@, recipe@, renderer@, suffix@),
{
    let a = join_exec(root, sanitize_component(recipe).as_str());
    let b = join_exec(a.as_str(), sanitize_component(renderer).as_str());
    let mut name = owned("final.");
    push_str(&mut name, trim_leading_dots_exec(suffix).as_str());
    join_exec(b.as_str(), name.as_str())
}

/// The file name of the picture drawn when a screenshot differs from its
/// baseline: `visual-diff.<suffix>` for a PNG suffix (in any ASCII case),
/// otherwise the side-by-side SVG `visual-diff.svg`.
pub open spec fn diff_file_name(suffix: Seq<char>) -> Seq<char> {
    if png_extension(suffix) {
        "visual-diff."@ + trim_leading_dots(suffix)
    } else {
        "visual-diff.svg"@
    }
}

/// The path `std::path::Path::with_file_name` gives for `path` and `name`.
pub uninterp spec fn std_with_file_name(path: Seq<char>, name: Seq<char>) -> Seq<char>;

/// `path` with its last component replaced by `name`, as
/// `std::path::Path::with_file_name` builds it. The contract names the
/// result; it does not restate how the standard library treats `.`, `..`
/// or trailing separators.
#[verifier::external_body]
fn with_file_name(path: &str, name: &str) -> (r: String)
    ensures
        r@ == std_with_file_name(path@, name@),
{
    std::path::Path::new(path).with_file_name(name).to_string_lossy().into_owned()
}

/// Where the picture of a mismatch goes: beside the screenshot.
pub open spec fn diff_path_spec(screenshot: Seq<char>) -> Seq<char> {
    std_with_file_name(screenshot, diff_file_name(suffix_spec(screenshot)))
}

/// Where the picture of a mismatch goes: beside the screenshot, named
/// `visual-diff.png` for a PNG screenshot and `visual-diff.svg` otherwise.
pub fn diff_path(screenshot: &str) -> (p: String)
    ensures
        p@ == diff_path_spec(screenshot@),
{
    let suffix = screenshot_suffix(screenshot);
    let name = if is_png_extension(suffix.as_str()) {
        let mut n = owned("visual-diff.");
        push_str(&mut n, trim_leading_dots_exec(suffix.as_str()).as_str());
        n
    } else {
        owned("visual-diff.svg")
    };
    with_file_name(screenshot, name.as_str())
}

// ---------------------------------------------------------------------------
// What the comparison reports
// ---------------------------------------------------------------------------

/// How the comparison with the baseline came out.
#[derive(Debug, Clone, Copy, PartialEq, Eq)]
pub enum BaselineState {
    /// The run has no screenshot to compare.
    NoScreenshot,
    /// The baseline was replaced by the screenshot.
    Updated,
    /// There is no baseline yet.
    Missing,
    /// The screenshot matches the baseline.
    Matches,
    /// The screenshot differs from the baseline.
    Differs,
}

/// Whether the `visual_diff` assertion holds, and its detail.
pub open spec fn verdict_spec(state: BaselineState, baseline: Seq<char>, screenshot: Seq<char>, diff: Seq<char>) -> (bool, Seq<char>) {
    match state {
        BaselineState::NoScreenshot => (false, "no screenshot artifact to compare"@),
        BaselineState::Updated => (true, "updated baseline: "@ + baseline),
        BaselineState::Missing => (
            false,
            "missing baseline: "@ + baseline + "; run with --update-baselines to create it"@,
        ),
        BaselineState::Matches => (true, "matches baseline: "@ + baseline),
        BaselineState::Differs => (
            false,
            "visual regression: baseline="@ + baseline + " actual="@ + screenshot + " diff="@ + diff,
        ),
    }
}

/// The `visual_diff` assertion for a comparison's outcome. A failing one
/// fails the run; a passing one leaves the run's verdict as it was.
pub fn visual_diff_assertion(state: BaselineState, baseline: &str, screenshot: &str, diff: &str) -> (a: AssertionResult)
    ensures
        a.name@ == "visual_diff"@,
        (a.passed, a.detail@) == verdict_spec(state, baseline@, screenshot@, diff@),
{
    let (passed, detail) = match state {
        BaselineState::NoScreenshot => (false, owned("no screenshot artifact to compare")),
        BaselineState::Updated => {
            let mut d = owned("updated baseline: ");
            push_str(&mut d, baseline);
            (true, d)
        },
        BaselineState::Missing => {
            let mut d = owned("missing baseline: ");
            push_str(&mut d, baseline);
            push_str(&mut d, "; run with --update-baselines to create it");
            (false, d)
        },
        BaselineState::Matches => {
            let mut d = owned("matches baseline: ");
            push_str(&mut d, baseline);
            (true, d)
        },
        BaselineState::Differs => {
            let mut d = owned("visual regression: baseline=");
            push_str(&mut d, baseline);
            push_str(&mut d, " actual=");
            push_str(&mut d, screenshot);
            push_str(&mut d, " diff=");
            push_str(&mut d, diff);
            (false, d)
        },
    };
    AssertionResult { name: owned("visual_diff"), passed, detail }
}

// ---------------------------------------------------------------------------
// The side-by-side SVG
// ---------------------------------------------------------------------------

/// The base64 digit for `v < 64`.
pub open spec fn b64_char(v: int) -> char {
    if v < 26 {
        (65 + v) as char
    } else if v < 52 {
        (97 + v - 26) as char
    } else if v < 62 {
        (48 + v - 52) as char
    } else if v == 62 {
        '+'
    } else {
        '/'
    }
}

/// The four characters encoding the bytes of `d` from `i`: a missing second
/// or third byte counts as zero, and its place is padded with `=`.
pub open spec fn b64_group(d: Seq<u8>, i: int) -> Seq<char> {
    let b0 = d[i] as int;
    let b1 = if i + 1 < d.len() { d[i + 1] as int } else { 0 };
    let b2 = if i + 2 < d.len() { d[i + 2] as int } else { 0 };
    seq![
        b64_char(b0 / 4),
        b64_char((b0 % 4) * 16 + b1 / 16),
        if i + 1 < d.len() { b64_char((b1 % 16) * 4 + b2 / 64) } else { '=' },
        if i + 2 < d.len() { b64_char(b2 % 64) } else { '=' },
    ]
}

/// The first `k` groups of the encoding.
pub open spec fn b64_groups(d: Seq<u8>, k: nat) -> Seq<char>
    decreases k,
{
    if k == 0 {
        Seq::<char>::empty()
    } else {
        b64_groups(d, (k - 1) as nat) + b64_group(d, 3 * (k - 1))
    }
}

/// Standard base64 with `=` padding.
pub open spec fn base64_spec(d: Seq<u8>) -> Seq<char> {
    b64_groups(d, ((d.len() + 2) / 3) as nat)
}

fn b64_digit(v: u8) -> (c: char)
    requires
        v < 64,
    ensures
        c == b64_char(v as int),
{
    if v < 26 {
        ((65 + v) as u8) as char
    } else if v < 52 {
        ((97 + v - 26) as u8) as char
    } else if v < 62 {
        ((48 + v - 52) as u8) as char
    } else if v == 62 {
        '+'
    } else {
        '/'
    }
}

/// Encode bytes as standard base64 with `=` padding.
pub fn base64_encode(data: &[u8]) -> (s: String)
    ensures
        s@ == base64_spec(data@),
{
    let len: usize = data.len();
    let groups: usize = len / 3 + if len % 3 > 0 { 1 } else { 0 };
    assert(groups == (len + 2) / 3);
    let mut out: Vec<char> = Vec::new();
    let mut k: usize = 0;
    while k < groups
        invariant
            len == data@.len(),
            groups == (len + 2) / 3,
            k <= groups,
            out@ == b64_groups(data@, k as nat),
        decreases groups - k,
    {
        assert(3 * k < len);
        let i: usize = 3 * k;
        let b0: u8 = data[i];
        let has1 = len - i > 1;
        let has2 = len - i > 2;
        let b1: u8 = if has1 { data[i + 1] } else { 0 };
        let b2: u8 = if has2 { data[i + 2] } else { 0 };
        out.push(b64_digit(b0 / 4));
        out.push(b64_digit((b0 % 4) * 16 + b1 / 16));
        out.push(if has1 { b64_digit((b1 % 16) * 4 + b2 / 64) } else { '=' });
        out.push(if has2 { b64_digit(b2 % 64) } else { '=' });
        assert(out@ =~= b64_groups(data@, (k + 1) as nat));
        k += 1;
    }
    string_of(out.as_slice())
}

/// `c` escaped for an HTML attribute: `&`, `<`, `>` and `"`.
pub open spec fn html_char(c: char) -> Seq<char> {
    if c == '&' {
        "&amp;"@
    } else if c == '<' {
        "&lt;"@
    } else if c == '>' {
        "&gt;"@
    } else if c == '"' {
        "&quot;"@
    } else {
        seq![c]
    }
}

/// `s` with `&`, `<`, `>` and `"` escaped.
pub open spec fn html_escape_spec(s: Seq<char>) -> Seq<char>
    decreases s.len(),
{
    if s.len() == 0 {
        Seq::<char>::empty()
    } else {
        html_escape_spec(s.drop_last()) + html_char(s.last())
    }
}

/// Escape `&`, `<`, `>` and `"`.
pub fn html_escape(s: &str) -> (r: String)
    ensures
        r@ == html_escape_spec(s@),
{
    let chars = chars_of(s);
    let mut out = String::new();
    let mut i: usize = 0;
    assert(chars@.take(0) =~= Seq::<char>::empty());
    while i < chars.len()
        invariant
            chars@ == s@,
            i <= chars@.len(),
            out@ == html_escape_spec(chars@.take(i as int)),
        decreases chars@.len() - i,
    {
        let c = chars[i];
        assert(chars@.take(i + 1).drop_last() =~= chars@.take(i as int));
        if c == '&' {
            push_str(&mut out, "&amp;");
        } else if c == '<' {
            push_str(&mut out, "&lt;");
        } else if c == '>' {
            push_str(&mut out, "&gt;");
        } else if c == '"' {
            push_str(&mut out, "&quot;");
        } else {
            let mut one = String::new();
            crate::text::push_char(&mut one, c);
            push_str(&mut out, one.as_str());
        }
        i += 1;
    }
    assert(chars@.take(chars@.len() as int) =~= chars@);
    out
}

/// The media type of a picture: PNG by its extension, SVG otherwise.
pub open spec fn mime_spec(path: Seq<char>) -> Seq<char> {
    if selects_png(path) {
        "image/png"@
    } else {
        "image/svg+xml"@
    }
}

/// A `data:` URI holding a picture's bytes.
pub open spec fn data_uri_spec(path: Seq<char>, data: Seq<u8>) -> Seq<char> {
    "data:"@ + mime_spec(path) + ";base64,"@ + base64_spec(data)
}

/// The document drawn when two SVG screenshots differ: both pictures side
/// by side, embedded as `data:` URIs, the baseline on the left.
pub open spec fn side_by_side_spec(baseline: Seq<char>, baseline_data: Seq<u8>, actual: Seq<char>, actual_data: Seq<u8>) -> Seq<char> {
    "<svg xmlns=\"http://www.w3.org/2000/svg\" width=\"1200\" height=\"620\" viewBox=\"0 0 1200 620\"><rect width=\"100%\" height=\"100%\" fill=\"#f6f8fa\"/><style>text{font:16px ui-monospace,SFMono-Regular,Menlo,Consolas,monospace;fill:#24292f}</style><text x=\"24\" y=\"32\">baseline</text><text x=\"616\" y=\"32\">actual</text><image href=\""@
        + html_escape_spec(data_uri_spec(baseline, baseline_data))
        + "\" x=\"24\" y=\"56\" width=\"560\" height=\"520\" preserveAspectRatio=\"xMinYMin meet\"/><image href=\""@
        + html_escape_spec(data_uri_spec(actual, actual_data))
        + "\" x=\"616\" y=\"56\" width=\"560\" height=\"520\" preserveAspectRatio=\"xMinYMin meet\"/></svg>\n"@
}

fn data_uri(path: &str, data: &[u8]) -> (s: String)
    ensures
        s@ == data_uri_spec(path@, data@),
{
    let mut s = owned("data:");
    if renders_as_png(path) {
        push_str(&mut s, "image/png");
    } else {
        push_str(&mut s, "image/svg+xml");
    }
    push_str(&mut s, ";base64,");
    push_str(&mut s, base64_encode(data).as_str());
    s
}

/// The side-by-side document for a baseline and the screenshot that
/// differs from it, with its trailing newline.
pub fn side_by_side_svg(baseline: &str, baseline_data: &[u8], actual: &str, actual_data: &[u8]) -> (s: String)
    ensures
        s@ == side_by_side_spec(baseline@, baseline_data@, actual@, actual_data@),
{
    let mut s = owned(
        "<svg xmlns=\"http://www.w3.org/2000/svg\" width=\"1200\" height=\"620\" viewBox=\"0 0 1200 620\"><rect width=\"100%\" height=\"100%\" fill=\"#f6f8fa\"/><style>text{font:16px ui-monospace,SFMono-Regular,Menlo,Consolas,monospace;fill:#24292f}</style><text x=\"24\" y=\"32\">baseline</text><text x=\"616\" y=\"32\">actual</text><image href=\"",
    );
    push_str(&mut s, html_escape(data_uri(baseline, baseline_data).as_str()).as_str());
    push_str(
        &mut s,
        "\" x=\"24\" y=\"56\" width=\"560\" height=\"520\" preserveAspectRatio=\"xMinYMin meet\"/><image href=\"",
    );
    push_str(&mut s, html_escape(data_uri(actual, actual_data).as_str()).as_str());
    push_str(
        &mut s,
        "\" x=\"616\" y=\"56\" width=\"560\" height=\"520\" preserveAspectRatio=\"xMinYMin meet\"/></svg>\n",
    );
    s
}


// ---------------------------------------------------------------------------
// The three-panel PNG
// ---------------------------------------------------------------------------

/// A picture as rows of RGB pixels, every row as wide as the picture.
pub struct Raster {
    width: u32,
    height: u32,
    rows: Vec<Vec<(u8, u8, u8)>>,
}

/// A picture as a value.
pub struct RasterView {
    pub width: nat,
    pub height: nat,
    pub rows: Seq<Seq<(u8, u8, u8)>>,
}

/// The pixel rows of a picture.
pub open spec fn rows_view(rows: Seq<Vec<(u8, u8, u8)>>) -> Seq<Seq<(u8, u8, u8)>> {
    Seq::new(rows.len(), |i: int| rows[i]@)
}

/// `rows` is `height` rows of `width` pixels.
pub open spec fn well_shaped(width: nat, height: nat, rows: Seq<Seq<(u8, u8, u8)>>) -> bool {
    rows.len() == height && forall|i: int| 0 <= i < rows.len() ==> (#[trigger] rows[i]).len() == width
}

impl View for Raster {
    type V = RasterView;

    closed spec fn view(&self) -> RasterView {
        RasterView { width: self.width as nat, height: self.height as nat, rows: rows_view(self.rows@) }
    }
}

impl Raster {
    #[verifier::type_invariant]
    spec fn shape_ok(self) -> bool {
        well_shaped(self.width as nat, self.height as nat, rows_view(self.rows@))
    }

    /// A picture of `height` rows of `width` pixels; `None` when `rows` does
    /// not have that shape.
    pub fn new(width: u32, height: u32, rows: Vec<Vec<(u8, u8, u8)>>) -> (r: Option<Raster>)
        ensures
            r is Some <==> well_shaped(width as nat, height as nat, rows_view(rows@)),
            r matches Some(p) ==> p@ == (RasterView {
                width: width as nat,
                height: height as nat,
                rows: rows_view(rows@),
            }),
    {
        if rows.len() != height as usize {
            return None;
        }
        let mut i: usize = 0;
        while i < rows.len()
            invariant
                i <= rows@.len(),
                forall|j: int| 0 <= j < i ==> (#[trigger] rows_view(rows@)[j]).len() == width,
            decreases rows@.len() - i,
        {
            if rows[i].len() != width as usize {
                assert(rows_view(rows@)[i as int].len() != width);
                return None;
            }
            i += 1;
        }
        Some(Raster { width, height, rows })
    }

    /// The picture's width.
    pub fn width(&self) -> (w: u32)
        ensures
            w == self@.width,
            well_shaped(self@.width, self@.height, self@.rows),
    {
        proof { use_type_invariant(self); }
        self.width
    }

    /// The picture's height.
    pub fn height(&self) -> (h: u32)
        ensures
            h == self@.height,
    {
        self.height
    }

    /// The pixel in column `x` of row `y`.
    pub fn pixel(&self, x: u32, y: u32) -> (p: (u8, u8, u8))
        requires
            x < self@.width,
            y < self@.height,
        ensures
            p == self@.rows[y as int][x as int],
    {
        proof { use_type_invariant(self); }
        assert(rows_view(self.rows@)[y as int].len() == self.width);
        self.rows[y as usize][x as usize]
    }

}

/// Two pictures are the same: the same size and the same pixels.
pub fn same_pixels(a: &Raster, b: &Raster) -> (r: bool)
    ensures
        r == (a@ == b@),
{
    proof {
        use_type_invariant(a);
        use_type_invariant(b);
    }
    if a.width != b.width || a.height != b.height {
        return false;
    }
    let mut y: usize = 0;
    while y < a.rows.len()
        invariant
            a.width == b.width,
            a.height == b.height,
            well_shaped(a.width as nat, a.height as nat, rows_view(a.rows@)),
            well_shaped(b.width as nat, b.height as nat, rows_view(b.rows@)),
            y <= a.rows@.len(),
            forall|j: int| 0 <= j < y ==> #[trigger] rows_view(a.rows@)[j] == rows_view(b.rows@)[j],
        decreases a.rows@.len() - y,
    {
        let ra = &a.rows[y];
        let rb = &b.rows[y];
        assert(ra@ == rows_view(a.rows@)[y as int]);
        assert(rb@ == rows_view(b.rows@)[y as int]);
        let mut x: usize = 0;
        while x < ra.len()
            invariant
                ra@.len() == rb@.len(),
                ra@ == rows_view(a.rows@)[y as int],
                rb@ == rows_view(b.rows@)[y as int],
                x <= ra@.len(),
                forall|i: int| 0 <= i < x ==> ra@[i] == rb@[i],
            decreases ra@.len() - x,
        {
            let pa = ra[x];
            let pb = rb[x];
            if pa.0 != pb.0 || pa.1 != pb.1 || pa.2 != pb.2 {
                assert(rows_view(a.rows@)[y as int][x as int] != rows_view(b.rows@)[y as int][x as int]);
                return false;
            }
            x += 1;
        }
        assert(ra@ =~= rb@);
        y += 1;
    }
    assert(rows_view(a.rows@) =~= rows_view(b.rows@));
    true
}

/// Height of the blank strip above the three panels.
pub const LABEL_HEIGHT: u32 = 28;

/// White.
pub open spec fn white() -> (u8, u8, u8) {
    (255u8, 255u8, 255u8)
}

/// A picture's pixel at `(x, y)`, or white beyond its edges.
pub open spec fn padded(p: RasterView, x: int, y: int) -> (u8, u8, u8) {
    if 0 <= x < p.width && 0 <= y < p.height {
        p.rows[y][x]
    } else {
        white()
    }
}

/// `|a - b|`.
pub open spec fn abs_diff(a: u8, b: u8) -> u8 {
    if a >= b {
        (a - b) as u8
    } else {
        (b - a) as u8
    }
}

/// The channel-wise difference of two pixels.
pub open spec fn diff_pixel(a: (u8, u8, u8), b: (u8, u8, u8)) -> (u8, u8, u8) {
    (abs_diff(a.0, b.0), abs_diff(a.1, b.1), abs_diff(a.2, b.2))
}

/// The larger of two sizes.
pub open spec fn larger(a: nat, b: nat) -> nat {
    if a >= b {
        a
    } else {
        b
    }
}

/// The pixel at `(x, y)` of the three-panel picture whose panels are `w`
/// wide: a white strip on top, then the baseline, the screenshot and their
/// difference side by side, each padded with white to the larger size.
pub open spec fn panel_pixel(base: RasterView, actual: RasterView, w: int, x: int, y: int) -> (u8, u8, u8) {
    if y < LABEL_HEIGHT {
        white()
    } else {
        let row = y - LABEL_HEIGHT;
        if x < w {
            padded(base, x, row)
        } else if x < 2 * w {
            padded(actual, x - w, row)
        } else {
            diff_pixel(padded(base, x - 2 * w, row), padded(actual, x - 2 * w, row))
        }
    }
}

/// The three-panel picture of a baseline and the screenshot that differs
/// from it.
pub open spec fn three_panel_spec(base: RasterView, actual: RasterView) -> RasterView {
    let w = larger(base.width, actual.width);
    let h = larger(base.height, actual.height);
    RasterView {
        width: 3 * w,
        height: h + LABEL_HEIGHT as nat,
        rows: Seq::new(
            h + LABEL_HEIGHT as nat,
            |y: int| Seq::new(3 * w, |x: int| panel_pixel(base, actual, w as int, x, y)),
        ),
    }
}

fn abs_diff_exec(a: u8, b: u8) -> (r: u8)
    ensures
        r == abs_diff(a, b),
{
    if a >= b {
        a - b
    } else {
        b - a
    }
}

fn padded_exec(p: &Raster, x: u32, y: u32) -> (r: (u8, u8, u8))
    ensures
        r == padded(p@, x as int, y as int),
{
    if x < p.width() && y < p.height() {
        p.pixel(x, y)
    } else {
        (255u8, 255u8, 255u8)
    }
}

/// Draw the baseline, the screenshot and their difference side by side under
/// a white strip, each panel as wide and as tall as the larger picture.
pub fn three_panel_diff(base: &Raster, actual: &Raster) -> (r: Raster)
    requires
        3 * larger(base@.width, actual@.width) <= u32::MAX,
        larger(base@.height, actual@.height) + LABEL_HEIGHT <= u32::MAX,
    ensures
        r@ == three_panel_spec(base@, actual@),
{
    let w: u32 = if base.width() >= actual.width() { base.width() } else { actual.width() };
    let h: u32 = if base.height() >= actual.height() { base.height() } else { actual.height() };
    let total_w: u32 = 3 * w;
    let total_h: u32 = h + LABEL_HEIGHT;
    let ghost want = three_panel_spec(base@, actual@);
    let mut rows: Vec<Vec<(u8, u8, u8)>> = Vec::new();
    let mut y: u32 = 0;
    while y < total_h
        invariant
            w == larger(base@.width, actual@.width),
            h == larger(base@.height, actual@.height),
            total_w == 3 * w,
            total_h == h + LABEL_HEIGHT,
            want == three_panel_spec(base@, actual@),
            y <= total_h,
            rows@.len() == y,
            forall|j: int| 0 <= j < y ==> #[trigger] rows_view(rows@)[j] == want.rows[j],
        decreases total_h - y,
    {
        let mut row: Vec<(u8, u8, u8)> = Vec::new();
        let mut x: u32 = 0;
        while x < total_w
            invariant
                w == larger(base@.width, actual@.width),
                total_w == 3 * w,
                want == three_panel_spec(base@, actual@),
                y < total_h,
                total_h == larger(base@.height, actual@.height) + LABEL_HEIGHT,
                x <= total_w,
                row@.len() == x,
                forall|i: int| 0 <= i < x ==> row@[i] == want.rows[y as int][i],
            decreases total_w - x,
        {
            let p = if y < LABEL_HEIGHT {
                (255u8, 255u8, 255u8)
            } else {
                let r = y - LABEL_HEIGHT;
                if x < w {
                    padded_exec(base, x, r)
                } else if x < 2 * w {
                    padded_exec(actual, x - w, r)
                } else {
                    let a = padded_exec(base, x - 2 * w, r);
                    let b = padded_exec(actual, x - 2 * w, r);
                    (abs_diff_exec(a.0, b.0), abs_diff_exec(a.1, b.1), abs_diff_exec(a.2, b.2))
                }
            };
            assert(p == panel_pixel(base@, actual@, w as int, x as int, y as int));
            row.push(p);
            x += 1;
        }
        assert(row@ =~= want.rows[y as int]);
        let ghost before = rows@;
        let ghost rv = row@;
        rows.push(row);
        assert(rows_view(rows@)[y as int] == rv);
        assert forall|j: int| 0 <= j < y + 1 implies #[trigger] rows_view(rows@)[j] == want.rows[j] by {
            if j < y {
                assert(rows_view(rows@)[j] == rows_view(before)[j]);
            }
        }
        y += 1;
    }
    assert(rows_view(rows@) =~= want.rows);
    Raster { width: total_w, height: total_h, rows }
}

/// The pixel rows of a picture.
pub fn raster_rows(p: &Raster) -> (rows: &Vec<Vec<(u8, u8, u8)>>)
    ensures
        rows_view(rows@) == p@.rows,
{
    &p.rows
}

} // verus!
