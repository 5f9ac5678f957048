//! Screen predicates for asserting on terminal output.
//!
//! A configurable failure detector plus a handful of marker helpers, with the
//! case-sensitivity and word-boundary decisions made once and written down.
//! Every predicate is stated over the characters of the screen: lowercasing is
//! Unicode lowercasing of the whole string, lines are what `str::lines`
//! yields, and whitespace is the Unicode `White_Space` property.
use vstd::prelude::*;
use crate::text::{
    chars_of, contains, contains_exec, is_alphanumeric, join, join_chars, lines_chars,
    lines_of, lowercase_chars, occurs_at, occurs_at_exec, starts_with, starts_with_exec,
    string_of, trim_start, trim_start_chars, unicode_alphanumeric, unicode_lowercase, views,
};

verus! {

broadcast use vstd::string::group_string_axioms;

// ---------------------------------------------------------------------------
// Tool-result error lines
// ---------------------------------------------------------------------------

/// What `regex::Regex::new(pattern)` then `is_match(text)` answer: whether
/// the compiled pattern matches somewhere in `text`, or `None` when the
/// pattern does not compile.
pub uninterp spec fn regex_finds(pattern: Seq<char>, text: Seq<char>) -> Option<bool>;

/// `regex::Regex::new` and `Regex::is_match`. Trusted to answer as a
/// function of the pattern and the text; a pattern that does not compile
/// gives `None`.
#[verifier::external_body]
fn regex_is_match(pattern: &str, text: &str) -> (r: Option<bool>)
    ensures
        r == regex_finds(pattern@, text@),
{
    match regex::Regex::new(pattern) {
        Ok(re) => Some(re.is_match(text)),
        Err(_) => None,
    }
}

/// The pattern of a nested tool result (rendered after a `└`) reporting its
/// own error: `└`, any whitespace, then `error:` or `exception:` in any case.
pub const TOOL_RESULT_ERROR_PATTERN: &'static str = "(?i)\u{2514}\\s*(?:error|exception):";

/// Whether `line` reports a tool result's own error: the tool-result error
/// pattern matches in it.
pub open spec fn tool_result_error_line(line: Seq<char>) -> bool {
    regex_finds(TOOL_RESULT_ERROR_PATTERN@, line) == Some(true)
}

fn is_tool_result_error_line(line: &str) -> (r: bool)
    ensures
        r == tool_result_error_line(line@),
{
    match regex_is_match(TOOL_RESULT_ERROR_PATTERN, line) {
        Some(found) => found,
        None => false,
    }
}

/// The lines of `screen` that are not tool-result error lines, joined with
/// `\n`.
pub open spec fn strip_tool_result_errors_spec(screen: Seq<char>) -> Seq<char> {
    join(lines_of(screen).filter(|l: Seq<char>| !tool_result_error_line(l)), seq!['\n'])
}

/// Drop lines where a *tool* reported an error, not the session.
///
/// An error anywhere outside a tool-result line survives, so a genuine failure
/// still fails.
pub fn strip_tool_result_errors(screen: &str) -> (r: String)
    ensures
        r@ == strip_tool_result_errors_spec(screen@),
{
    let chars = chars_of(screen);
    let lines = lines_chars(chars.as_slice());
    let ghost all = views(lines@);
    let ghost keep = |l: Seq<char>| !tool_result_error_line(l);
    let mut kept: Vec<Vec<char>> = Vec::new();
    let mut i: usize = 0;
    assert(all.take(0) =~= Seq::<Seq<char>>::empty());
    proof { reveal(Seq::filter); }
    assert(views(kept@) =~= all.take(0).filter(keep));
    while i < lines.len()
        invariant
            all == views(lines@),
            all == lines_of(screen@),
            keep == (|l: Seq<char>| !tool_result_error_line(l)),
            i <= all.len(),
            views(kept@) == all.take(i as int).filter(keep),
        decreases all.len() - i,
    {
        let line_text = string_of(lines[i].as_slice());
        let drop = is_tool_result_error_line(line_text.as_str());
        let ghost t = all.take(i + 1);
        assert(t.drop_last() =~= all.take(i as int));
        assert(t.last() == all[i as int]);
        assert(line_text@ == all[i as int]);
        assert(keep(all[i as int]) == !tool_result_error_line(all[i as int]));
        proof { reveal(Seq::filter); }
        assert(t.filter(keep) == if keep(t.last()) {
            t.drop_last().filter(keep).push(t.last())
        } else {
            t.drop_last().filter(keep)
        });
        if !drop {
            let ghost old_kept = kept@;
            let copy = lines[i].clone();
            assert(copy@ =~= all[i as int]);
            kept.push(copy);
            assert(views(kept@) =~= views(old_kept).push(all[i as int]));
        }
        i += 1;
    }
    assert(all.take(all.len() as int) =~= all);
    let joined = join_chars(&kept, &['\n']);
    let r = string_of(joined.as_slice());
    assert(seq!['\n'] =~= ['\n']@);
    r
}

// ---------------------------------------------------------------------------
// Word boundaries
// ---------------------------------------------------------------------------

/// A character that continues a word: alphanumeric or `_`.
pub open spec fn is_word_char(c: char) -> bool {
    unicode_alphanumeric(c) || c == '_'
}

/// `line` begins with `verb`, and the verb ends at a word boundary: either the
/// verb ends in a non-alphanumeric character (`error:`), or what follows it
/// does not continue a word.
pub open spec fn starts_with_word(line: Seq<char>, verb: Seq<char>) -> bool {
    &&& starts_with(line, verb)
    &&& (verb.len() == 0 || !unicode_alphanumeric(verb.last()) || line.len() == verb.len()
        || !is_word_char(line[verb.len() as int]))
}

/// The occurrence of `word` at `i` is delimited by non-word characters (or
/// the ends of `hay`).
pub open spec fn delimited_at(hay: Seq<char>, word: Seq<char>, i: int) -> bool {
    &&& (i == 0 || !is_word_char(hay[i - 1]))
    &&& (i + word.len() == hay.len() || !is_word_char(hay[i + word.len()]))
}

/// Scanning `hay` from `from` for non-overlapping occurrences of `word`, left
/// to right as `str::match_indices` yields them, one of them is delimited.
/// An empty `word` occurs at every position.
pub open spec fn word_hit_from(hay: Seq<char>, word: Seq<char>, from: int) -> bool
    decreases hay.len() + 1 - from,
{
    if from < 0 || from > hay.len() {
        false
    } else if occurs_at(hay, word, from) {
        delimited_at(hay, word, from) || word_hit_from(
            hay,
            word,
            from + if word.len() == 0 { 1 } else { word.len() as int },
        )
    } else {
        word_hit_from(hay, word, from + 1)
    }
}

/// Whether `hay` contains `word` delimited by non-word characters.
pub open spec fn contains_word(hay: Seq<char>, word: Seq<char>) -> bool {
    word_hit_from(hay, word, 0)
}

fn is_word_char_exec(c: char) -> (r: bool)
    ensures
        r == is_word_char(c),
{
    c == '_' || is_alphanumeric(c)
}

fn starts_with_word_exec(line: &[char], verb: &[char]) -> (r: bool)
    ensures
        r == starts_with_word(line@, verb@),
{
    if !starts_with_exec(line, verb) {
        return false;
    }
    if verb.len() == 0 || !is_alphanumeric(verb[verb.len() - 1]) {
        return true;
    }
    line.len() == verb.len() || !is_word_char_exec(line[verb.len()])
}

fn delimited_at_exec(hay: &[char], word: &[char], i: usize) -> (r: bool)
    requires
        i + word@.len() <= hay@.len(),
    ensures
        r == delimited_at(hay@, word@, i as int),
{
    let before_ok = i == 0 || !is_word_char_exec(hay[i - 1]);
    let after_ok = i + word.len() == hay.len() || !is_word_char_exec(hay[i + word.len()]);
    before_ok && after_ok
}

fn contains_word_exec(hay: &[char], word: &[char]) -> (r: bool)
    ensures
        r == contains_word(hay@, word@),
{
    let mut from: usize = 0;
    while from < hay.len()
        invariant
            from <= hay@.len(),
            word_hit_from(hay@, word@, 0) == word_hit_from(hay@, word@, from as int),
        decreases hay@.len() - from,
    {
        if occurs_at_exec(hay, word, from) {
            if delimited_at_exec(hay, word, from) {
                return true;
            }
            if word.len() == 0 {
                from += 1;
            } else {
                from += word.len();
            }
        } else {
            from += 1;
        }
    }
    assert(!word_hit_from(hay@, word@, hay@.len() + 1int));
    if occurs_at_exec(hay, word, from) {
        return delimited_at_exec(hay, word, from);
    }
    false
}

// ---------------------------------------------------------------------------
// Marker sets
// ---------------------------------------------------------------------------

/// The character sequences of a list of string slices.
pub open spec fn strs(s: Seq<&str>) -> Seq<Seq<char>> {
    Seq::new(s.len(), |i: int| s[i]@)
}

/// Some marker, lowercased, occurs in `hay`.
pub open spec fn some_marker_in(hay: Seq<char>, markers: Seq<Seq<char>>) -> bool {
    exists|i: int| 0 <= i < markers.len() && contains(hay, unicode_lowercase(#[trigger] markers[i]))
}

/// Some word, lowercased, occurs in `hay` at word boundaries.
pub open spec fn some_word_in(hay: Seq<char>, words: Seq<Seq<char>>) -> bool {
    exists|i: int| 0 <= i < words.len() && contains_word(hay, unicode_lowercase(#[trigger] words[i]))
}

/// Some line of `hay`, with leading whitespace trimmed, begins with some
/// verb, lowercased, at a word boundary.
pub open spec fn some_line_verb_in(hay: Seq<char>, verbs: Seq<Seq<char>>) -> bool {
    exists|l: int, v: int|
        0 <= l < lines_of(hay).len() && 0 <= v < verbs.len() && starts_with_word(
            trim_start(#[trigger] lines_of(hay)[l]),
            unicode_lowercase(#[trigger] verbs[v]),
        )
}

fn some_marker_exec(hay: &[char], markers: &[&str]) -> (r: bool)
    ensures
        r == some_marker_in(hay@, strs(markers@)),
{
    let mut i: usize = 0;
    while i < markers.len()
        invariant
            i <= markers@.len(),
            forall|j: int| 0 <= j < i ==> !contains(hay@, unicode_lowercase(#[trigger] strs(markers@)[j])),
        decreases markers@.len() - i,
    {
        let m = lowercase_chars(markers[i]);
        if contains_exec(hay, m.as_slice()) {
            assert(strs(markers@)[i as int] == markers@[i as int]@);
            return true;
        }
        i += 1;
    }
    false
}

fn some_word_exec(hay: &[char], words: &[&str]) -> (r: bool)
    ensures
        r == some_word_in(hay@, strs(words@)),
{
    let mut i: usize = 0;
    while i < words.len()
        invariant
            i <= words@.len(),
            forall|j: int| 0 <= j < i ==> !contains_word(hay@, unicode_lowercase(#[trigger] strs(words@)[j])),
        decreases words@.len() - i,
    {
        let w = lowercase_chars(words[i]);
        if contains_word_exec(hay, w.as_slice()) {
            assert(strs(words@)[i as int] == words@[i as int]@);
            return true;
        }
        i += 1;
    }
    false
}

fn some_line_verb_exec(hay: &[char], verbs: &[&str]) -> (r: bool)
    ensures
        r == some_line_verb_in(hay@, strs(verbs@)),
{
    let lines = lines_chars(hay);
    let ghost ls = lines_of(hay@);
    let ghost vs = strs(verbs@);
    let mut l: usize = 0;
    while l < lines.len()
        invariant
            views(lines@) == ls,
            ls == lines_of(hay@),
            vs == strs(verbs@),
            l <= ls.len(),
            forall|a: int, b: int|
                0 <= a < l && 0 <= b < vs.len() ==> !starts_with_word(
                    trim_start(#[trigger] ls[a]),
                    unicode_lowercase(#[trigger] vs[b]),
                ),
        decreases ls.len() - l,
    {
        assert(lines@[l as int]@ == ls[l as int]);
        let trimmed = trim_start_chars(lines[l].as_slice());
        let mut v: usize = 0;
        while v < verbs.len()
            invariant
                views(lines@) == ls,
                ls == lines_of(hay@),
                vs == strs(verbs@),
                l < ls.len(),
                trimmed@ == trim_start(ls[l as int]),
                v <= vs.len(),
                forall|b: int| 0 <= b < v ==> !starts_with_word(
                    trim_start(ls[l as int]),
                    unicode_lowercase(#[trigger] vs[b]),
                ),
            decreases vs.len() - v,
        {
            let verb = lowercase_chars(verbs[v]);
            assert(vs[v as int] == verbs@[v as int]@);
            if starts_with_word_exec(trimmed.as_slice(), verb.as_slice()) {
                assert(starts_with_word(
                    trim_start(lines_of(hay@)[l as int]),
                    unicode_lowercase(strs(verbs@)[v as int]),
                ));
                return true;
            }
            v += 1;
        }
        l += 1;
    }
    false
}

// ---------------------------------------------------------------------------
// The detector
// ---------------------------------------------------------------------------

/// What a detector is configured with.
pub struct FailureDetectorView {
    pub line_verbs: Seq<Seq<char>>,
    pub words: Seq<Seq<char>>,
    pub anywhere: Seq<Seq<char>>,
    pub extra: Seq<Seq<char>>,
    pub ignore_tool_result_errors: bool,
}

/// Whether a screen shows failure.
///
/// Three matching modes: line-anchored verbs (`^\s*verb`, the default, so
/// prose containing "error:" is not a failure), whole words anywhere, and
/// plain substrings anywhere. Substrings match startup banners and prose too:
/// choose them deliberately.
#[derive(Debug, Clone, Copy)]
pub struct FailureDetector {
    line_verbs: &'static [&'static str],
    words: &'static [&'static str],
    anywhere: &'static [&'static str],
    extra: &'static [&'static str],
    ignore_tool_result_errors: bool,
}

impl View for FailureDetector {
    type V = FailureDetectorView;

    closed spec fn view(&self) -> FailureDetectorView {
        FailureDetectorView {
            line_verbs: strs(self.line_verbs@),
            words: strs(self.words@),
            anywhere: strs(self.anywhere@),
            extra: strs(self.extra@),
            ignore_tool_result_errors: self.ignore_tool_result_errors,
        }
    }
}

/// The verbs that indicate failure when they begin a line.
pub open spec fn default_line_verbs() -> Seq<Seq<char>> {
    seq!["traceback"@, "exception"@, "error:"@, "failed to"@, "panic"@]
}

/// The markers almost every hand-rolled failure check starts with.
pub open spec fn core_failure_markers() -> Seq<Seq<char>> {
    seq!["traceback"@, "exception"@, "error:"@, "failed to"@]
}

/// Whether a detector configured as `d` reports failure on `screen`.
pub open spec fn detects_spec(d: FailureDetectorView, screen: Seq<char>) -> bool {
    let subject = if d.ignore_tool_result_errors {
        strip_tool_result_errors_spec(screen)
    } else {
        screen
    };
    let lowered = unicode_lowercase(subject);
    ||| some_marker_in(lowered, d.anywhere)
    ||| some_marker_in(lowered, d.extra)
    ||| some_word_in(lowered, d.words)
    ||| some_line_verb_in(lowered, d.line_verbs)
}

impl FailureDetector {
    /// A line-anchored detector over the default verbs, and nothing else.
    pub fn new() -> (d: Self)
        ensures
            d@.line_verbs == default_line_verbs(),
            d@.words == Seq::<Seq<char>>::empty(),
            d@.anywhere == Seq::<Seq<char>>::empty(),
            d@.extra == Seq::<Seq<char>>::empty(),
            !d@.ignore_tool_result_errors,
    {
        let d = FailureDetector {
            line_verbs: &["traceback", "exception", "error:", "failed to", "panic"],
            words: &[],
            anywhere: &[],
            extra: &[],
            ignore_tool_result_errors: false,
        };
        assert(d@.line_verbs =~= default_line_verbs());
        assert(d@.words =~= Seq::<Seq<char>>::empty());
        assert(d@.anywhere =~= Seq::<Seq<char>>::empty());
        assert(d@.extra =~= Seq::<Seq<char>>::empty());
        d
    }
}

impl FailureDetector {
    /// A substring detector over the core failure markers, with no line
    /// anchoring at all.
    pub fn markers_only() -> (d: Self)
        ensures
            d@.line_verbs == Seq::<Seq<char>>::empty(),
            d@.words == Seq::<Seq<char>>::empty(),
            d@.anywhere == core_failure_markers(),
            d@.extra == Seq::<Seq<char>>::empty(),
            !d@.ignore_tool_result_errors,
    {
        let d = FailureDetector {
            line_verbs: &[],
            words: &[],
            anywhere: &["traceback", "exception", "error:", "failed to"],
            extra: &[],
            ignore_tool_result_errors: false,
        };
        assert(d@.line_verbs =~= Seq::<Seq<char>>::empty());
        assert(d@.words =~= Seq::<Seq<char>>::empty());
        assert(d@.anywhere =~= core_failure_markers());
        assert(d@.extra =~= Seq::<Seq<char>>::empty());
        d
    }

    /// Replace the line-anchored verb set.
    pub fn line_verbs(self, verbs: &'static [&'static str]) -> (d: Self)
        ensures
            d@ == (FailureDetectorView { line_verbs: strs(verbs@), ..self@ }),
    {
        FailureDetector { line_verbs: verbs, ..self }
    }

    /// Substrings matched anywhere, but only at word boundaries, so
    /// "exceptional" is not a hit for "exception".
    pub fn words(self, words: &'static [&'static str]) -> (d: Self)
        ensures
            d@ == (FailureDetectorView { words: strs(words@), ..self@ }),
    {
        FailureDetector { words, ..self }
    }

    /// Replace the case-insensitive substrings matched anywhere on the screen.
    pub fn anywhere(self, markers: &'static [&'static str]) -> (d: Self)
        ensures
            d@ == (FailureDetectorView { anywhere: strs(markers@), ..self@ }),
    {
        FailureDetector { anywhere: markers, ..self }
    }

    /// Additional substrings on top of the `anywhere` set, so a recipe can
    /// keep the shared core and add only what is peculiar to it.
    pub fn extra(self, markers: &'static [&'static str]) -> (d: Self)
        ensures
            d@ == (FailureDetectorView { extra: strs(markers@), ..self@ }),
    {
        FailureDetector { extra: markers, ..self }
    }

    /// Drop `└ error:` tool-result lines before matching.
    pub fn ignoring_tool_result_errors(self) -> (d: Self)
        ensures
            d@ == (FailureDetectorView { ignore_tool_result_errors: true, ..self@ }),
    {
        FailureDetector { ignore_tool_result_errors: true, ..self }
    }

    /// Whether `screen` shows failure under this detector's configuration.
    pub fn detects(&self, screen: &str) -> (r: bool)
        ensures
            r == detects_spec(self@, screen@),
    {
        let subject = if self.ignore_tool_result_errors {
            strip_tool_result_errors(screen)
        } else {
            screen.to_owned()
        };
        let lowered = lowercase_chars(subject.as_str());
        if some_marker_exec(lowered.as_slice(), self.anywhere) {
            return true;
        }
        if some_marker_exec(lowered.as_slice(), self.extra) {
            return true;
        }
        if some_word_exec(lowered.as_slice(), self.words) {
            return true;
        }
        some_line_verb_exec(lowered.as_slice(), self.line_verbs)
    }
}

impl Default for FailureDetector {
    fn default() -> (d: Self)
        ensures
            d@.line_verbs == default_line_verbs(),
            d@.words == Seq::<Seq<char>>::empty(),
            d@.anywhere == Seq::<Seq<char>>::empty(),
            d@.extra == Seq::<Seq<char>>::empty(),
            !d@.ignore_tool_result_errors,
    {
        FailureDetector::new()
    }
}

// ---------------------------------------------------------------------------
// Marker helpers
// ---------------------------------------------------------------------------

/// How many of `markers`, lowercased, occur in `hay`.
pub open spec fn marker_hits(hay: Seq<char>, markers: Seq<Seq<char>>) -> nat
    decreases markers.len(),
{
    if markers.len() == 0 {
        0
    } else {
        marker_hits(hay, markers.drop_last()) + if contains(hay, unicode_lowercase(markers.last())) {
            1nat
        } else {
            0nat
        }
    }
}

/// How many of `markers` appear in `haystack`, case-insensitively: both sides
/// are lowered.
pub fn count_markers(haystack: &str, markers: &[&str]) -> (n: usize)
    ensures
        n == marker_hits(unicode_lowercase(haystack@), strs(markers@)),
{
    let lowered = lowercase_chars(haystack);
    let ghost ms = strs(markers@);
    let mut n: usize = 0;
    let mut i: usize = 0;
    assert(ms.take(0) =~= Seq::<Seq<char>>::empty());
    while i < markers.len()
        invariant
            ms == strs(markers@),
            lowered@ == unicode_lowercase(haystack@),
            i <= ms.len(),
            n <= i,
            n == marker_hits(lowered@, ms.take(i as int)),
        decreases ms.len() - i,
    {
        let m = lowercase_chars(markers[i]);
        let ghost t = ms.take(i + 1);
        assert(t.drop_last() =~= ms.take(i as int));
        assert(t.last() == markers@[i as int]@);
        if contains_exec(lowered.as_slice(), m.as_slice()) {
            n += 1;
        }
        i += 1;
    }
    assert(ms.take(ms.len() as int) =~= ms);
    n
}

/// Whether every marker in `markers` appears, case-insensitively.
pub fn all_markers(haystack: &str, markers: &[&str]) -> (r: bool)
    ensures
        r == forall|i: int|
            0 <= i < markers@.len() ==> contains(
                unicode_lowercase(haystack@),
                unicode_lowercase(#[trigger] markers@[i]@),
            ),
{
    let lowered = lowercase_chars(haystack);
    let mut i: usize = 0;
    while i < markers.len()
        invariant
            lowered@ == unicode_lowercase(haystack@),
            i <= markers@.len(),
            forall|j: int|
                0 <= j < i ==> contains(lowered@, unicode_lowercase(#[trigger] markers@[j]@)),
        decreases markers@.len() - i,
    {
        let m = lowercase_chars(markers[i]);
        if !contains_exec(lowered.as_slice(), m.as_slice()) {
            return false;
        }
        i += 1;
    }
    true
}

/// Whether any marker in `markers` appears, case-insensitively.
pub fn any_marker(haystack: &str, markers: &[&str]) -> (r: bool)
    ensures
        r == some_marker_in(unicode_lowercase(haystack@), strs(markers@)),
{
    let lowered = lowercase_chars(haystack);
    some_marker_exec(lowered.as_slice(), markers)
}

/// Whether `marker` appears on a line of `screen` that contains none of
/// `excluding`. Case-sensitive, unlike the marker helpers above: callers pass
/// literal tokens and literal command text.
pub open spec fn marker_on_unrelated_line_spec(
    screen: Seq<char>,
    marker: Seq<char>,
    excluding: Seq<Seq<char>>,
) -> bool {
    exists|l: int|
        0 <= l < lines_of(screen).len() && contains(#[trigger] lines_of(screen)[l], marker) && !(
        exists|e: int| 0 <= e < excluding.len() && contains(lines_of(screen)[l], #[trigger] excluding[e]))
}

fn contains_any(line: &[char], needles: &[&str]) -> (r: bool)
    ensures
        r == exists|e: int| 0 <= e < needles@.len() && contains(line@, #[trigger] strs(needles@)[e]),
{
    let mut i: usize = 0;
    while i < needles.len()
        invariant
            i <= needles@.len(),
            forall|j: int| 0 <= j < i ==> !contains(line@, #[trigger] strs(needles@)[j]),
        decreases needles@.len() - i,
    {
        let n = chars_of(needles[i]);
        if contains_exec(line, n.as_slice()) {
            assert(strs(needles@)[i as int] == needles@[i as int]@);
            return true;
        }
        i += 1;
    }
    false
}

/// Whether `marker` appears on a line that contains none of `excluding`.
pub fn marker_on_unrelated_line(screen: &str, marker: &str, excluding: &[&str]) -> (r: bool)
    ensures
        r == marker_on_unrelated_line_spec(screen@, marker@, strs(excluding@)),
{
    let chars = chars_of(screen);
    let lines = lines_chars(chars.as_slice());
    let m = chars_of(marker);
    let ghost ls = lines_of(screen@);
    let mut l: usize = 0;
    while l < lines.len()
        invariant
            views(lines@) == ls,
            ls == lines_of(screen@),
            m@ == marker@,
            l <= ls.len(),
            forall|a: int|
                0 <= a < l ==> !(contains(#[trigger] ls[a], marker@) && !(exists|e: int|
                    0 <= e < strs(excluding@).len() && contains(ls[a], #[trigger] strs(excluding@)[e]))),
        decreases ls.len() - l,
    {
        assert(lines@[l as int]@ == ls[l as int]);
        if contains_exec(lines[l].as_slice(), m.as_slice()) && !contains_any(lines[l].as_slice(), excluding) {
            return true;
        }
        l += 1;
    }
    false
}

/// Extra markers add to what a detector catches rather than replacing it:
/// a detector with no extra markers yet, given `extra`, reports failure
/// exactly where it did before or where one of the extra markers occurs,
/// case-insensitively.
pub proof fn lemma_extra_markers_add_to_the_detector(d: FailureDetectorView, extra: Seq<Seq<char>>, screen: Seq<char>)
    requires
        d.extra.len() == 0,
        !d.ignore_tool_result_errors,
    ensures
        detects_spec(FailureDetectorView { extra, ..d }, screen) == (detects_spec(d, screen) || some_marker_in(
            unicode_lowercase(screen),
            extra,
        )),
{
    assert(!some_marker_in(unicode_lowercase(screen), d.extra));
}

/// Ignoring tool-result errors is matching on the screen with those lines
/// removed: for a detector that did not ignore them already, the ignoring
/// detector reports failure on a screen exactly when the original detector
/// does on the stripped screen.
pub proof fn lemma_ignoring_tool_results_is_matching_the_stripped_screen(d: FailureDetectorView, screen: Seq<char>)
    requires
        !d.ignore_tool_result_errors,
    ensures
        detects_spec(FailureDetectorView { ignore_tool_result_errors: true, ..d }, screen) == detects_spec(
            d,
            strip_tool_result_errors_spec(screen),
        ),
{
}

/// A line verb is caught on whichever line of the screen it opens: when some
/// line of the lowercased screen, with its leading whitespace trimmed, begins
/// with one of the detector's verbs (lowercased) at a word boundary, the
/// detector reports failure, wherever that line stands on the screen.
pub proof fn lemma_a_line_verb_on_any_line_is_detected(d: FailureDetectorView, screen: Seq<char>, l: int, v: int)
    requires
        !d.ignore_tool_result_errors,
        0 <= l < lines_of(unicode_lowercase(screen)).len(),
        0 <= v < d.line_verbs.len(),
        starts_with_word(
            trim_start(lines_of(unicode_lowercase(screen))[l]),
            unicode_lowercase(d.line_verbs[v]),
        ),
    ensures
        detects_spec(d, screen),
{
    let lowered = unicode_lowercase(screen);
    assert(some_line_verb_in(lowered, d.line_verbs));
}

/// Prose that merely mentions a verb is not a failure: a detector with line
/// verbs only (no words, substrings or extra markers) reports failure only
/// when some line of the lowercased screen, with its leading whitespace
/// trimmed, begins with one of its verbs (lowercased) at a word boundary.
pub proof fn lemma_a_line_verb_detector_needs_a_line_that_opens_with_a_verb(d: FailureDetectorView, screen: Seq<char>)
    requires
        !d.ignore_tool_result_errors,
        d.words.len() == 0,
        d.anywhere.len() == 0,
        d.extra.len() == 0,
        detects_spec(d, screen),
    ensures
        exists|l: int, v: int|
            0 <= l < lines_of(unicode_lowercase(screen)).len() && 0 <= v < d.line_verbs.len()
                && starts_with_word(
                trim_start(#[trigger] lines_of(unicode_lowercase(screen))[l]),
                unicode_lowercase(#[trigger] d.line_verbs[v]),
            ),
{
    let lowered = unicode_lowercase(screen);
    assert(!some_marker_in(lowered, d.anywhere));
    assert(!some_marker_in(lowered, d.extra));
    assert(!some_word_in(lowered, d.words));
}

} // verus!
