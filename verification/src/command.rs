//! What the command line decides around a run: which files are recipes,
//! which recipes and renderers the filters keep, how an `init` command line
//! splits into words, and the process's exit code.
use vstd::prelude::*;
use crate::render::ascii_lower;
use crate::text::{is_whitespace, owned, string_of, string_seqs, lemma_string_seqs_push, unicode_whitespace};

verus! {

broadcast use vstd::string::group_string_axioms;

/// Exit code of a run where everything passed.
pub const EXIT_SUCCESS: i32 = 0;

/// Exit code of a run that failed or could not be carried out.
pub const EXIT_FAILURE: i32 = 1;

/// Exit code of an invalid invocation.
pub const EXIT_USAGE: i32 = 2;

// ---------------------------------------------------------------------------
// Recipe files
// ---------------------------------------------------------------------------

/// The suffixes a directory scan takes as recipes.
pub open spec fn recipe_suffixes() -> Seq<Seq<char>> {
    seq![".recipe.json"@, ".recipe.yaml"@, ".recipe.yml"@]
}

/// A file name is a recipe's when, ASCII case aside, it ends in a recipe
/// suffix and has something before it.
pub open spec fn is_recipe_name(name: Seq<char>) -> bool {
    let lower = name.map_values(|c: char| ascii_lower(c));
    exists|k: int|
        0 <= k < 3 && #[trigger] recipe_suffixes()[k].len() < lower.len() && lower.subrange(
            lower.len() - recipe_suffixes()[k].len(),
            lower.len() as int,
        ) == recipe_suffixes()[k]
}

/// `A` to `Z` become `a` to `z`; every other character is unchanged.
fn to_ascii_lowercase(c: char) -> (r: char)
    ensures
        r == ascii_lower(c),
{
    if 'A' <= c && c <= 'Z' {
        let b: u8 = (c as u8) + 32;
        assert(b as char == ((c as u32) + 32) as char);
        b as char
    } else {
        c
    }
}

fn lower_chars(name: &str) -> (v: Vec<char>)
    ensures
        v@ == name@.map_values(|c: char| ascii_lower(c)),
{
    let mut v: Vec<char> = Vec::new();
    let mut i: usize = 0;
    let chars = crate::text::chars_of(name);
    while i < chars.len()
        invariant
            i <= chars@.len(),
            chars@ == name@,
            v@ == chars@.take(i as int).map_values(|c: char| ascii_lower(c)),
        decreases chars@.len() - i,
    {
        let c = chars[i];
        v.push(to_ascii_lowercase(c));
        assert(chars@.take(i + 1).map_values(|c: char| ascii_lower(c)) =~= chars@.take(
            i as int,
        ).map_values(|c: char| ascii_lower(c)).push(ascii_lower(c)));
        i = i + 1;
    }
    assert(chars@.take(chars@.len() as int) =~= chars@);
    v
}

fn ends_with_longer(s: &[char], suffix: &str) -> (r: bool)
    ensures
        r == (suffix@.len() < s@.len() && s@.subrange(s@.len() - suffix@.len(), s@.len() as int)
            == suffix@),
{
    let t = crate::text::chars_of(suffix);
    if t.len() >= s.len() {
        return false;
    }
    let start = s.len() - t.len();
    let mut i: usize = 0;
    while i < t.len()
        invariant
            t@ == suffix@,
            t@.len() < s@.len(),
            s@.len() == s.len(),
            start == s@.len() - t@.len(),
            i <= t@.len(),
            forall|j: int| 0 <= j < i ==> s@[start + j] == t@[j],
        decreases t@.len() - i,
    {
        assert(start + i < s.len());
        if s[start + i] != t[i] {
            assert(s@.subrange(start as int, s@.len() as int)[i as int] != suffix@[i as int]);
            return false;
        }
        i = i + 1;
    }
    assert(s@.subrange(start as int, s@.len() as int) =~= suffix@);
    true
}

/// Whether a file of this name is taken as a recipe when a directory is
/// scanned.
pub fn is_recipe_file_name(name: &str) -> (r: bool)
    ensures
        r == is_recipe_name(name@),
{
    let lower = lower_chars(name);
    let suffixes: [&str; 3] = [".recipe.json", ".recipe.yaml", ".recipe.yml"];
    let ghost want = recipe_suffixes();
    assert(forall|k: int| 0 <= k < 3 ==> #[trigger] suffixes@[k]@ == want[k]);
    let mut k: usize = 0;
    while k < 3
        invariant
            k <= 3,
            suffixes@.len() == 3,
            want == recipe_suffixes(),
            forall|j: int| 0 <= j < 3 ==> #[trigger] suffixes@[j]@ == want[j],
            lower@ == name@.map_values(|c: char| ascii_lower(c)),
            forall|j: int|
                0 <= j < k ==> !(#[trigger] want[j].len() < lower@.len() && lower@.subrange(
                    lower@.len() - want[j].len(),
                    lower@.len() as int,
                ) == want[j]),
        decreases 3 - k,
    {
        if ends_with_longer(lower.as_slice(), suffixes[k]) {
            assert(want[k as int].len() < lower@.len());
            return true;
        }
        k = k + 1;
    }
    false
}

// ---------------------------------------------------------------------------
// Filters
// ---------------------------------------------------------------------------

/// A recipe is kept when it has the wanted priority (if one is asked for)
/// and its name is among the wanted names (if any are given).
pub open spec fn recipe_wanted_spec(
    priority_filter: Option<Seq<char>>,
    names: Seq<Seq<char>>,
    priority: Seq<char>,
    name: Seq<char>,
) -> bool {
    &&& match priority_filter {
        Some(p) => p == priority,
        None => true,
    }
    &&& (names.len() == 0 || names.contains(name))
}

/// Whether a recipe passes the `--priority` and `--recipe-name` filters.
pub fn recipe_wanted(priority_filter: Option<&str>, names: &[String], priority: &str, name: &str) -> (r:
    bool)
    ensures
        r == recipe_wanted_spec(
            match priority_filter {
                Some(p) => Some(p@),
                None => None,
            },
            string_seqs(names@),
            priority@,
            name@,
        ),
{
    match priority_filter {
        Some(p) => {
            if !crate::text::str_eq(p, priority) {
                return false;
            }
        },
        None => {},
    }
    if names.len() == 0 {
        return true;
    }
    let ghost all = string_seqs(names@);
    let mut i: usize = 0;
    while i < names.len()
        invariant
            i <= names@.len(),
            all == string_seqs(names@),
            forall|j: int| 0 <= j < i ==> all[j] != name@,
            match priority_filter {
                Some(p) => p@ == priority@,
                None => true,
            },
        decreases names@.len() - i,
    {
        if crate::text::str_eq(names[i].as_str(), name) {
            assert(all[i as int] == name@);
            return true;
        }
        i = i + 1;
    }
    false
}

/// Whether a renderer passes the `--renderer` filter.
pub fn renderer_wanted(wanted: Option<&str>, renderer: &str) -> (r: bool)
    ensures
        r == match wanted {
            Some(w) => w@ == renderer@,
            None => true,
        },
{
    match wanted {
        Some(w) => crate::text::str_eq(w, renderer),
        None => true,
    }
}

/// A run fails when any recipe could not be run or written, or any run did
/// not pass.
pub fn run_exit_code(refused: bool, passed: &[bool]) -> (code: i32)
    ensures
        code == if refused || exists|i: int| 0 <= i < passed@.len() && !#[trigger] passed@[i] {
            EXIT_FAILURE
        } else {
            EXIT_SUCCESS
        },
{
    if refused {
        return EXIT_FAILURE;
    }
    let mut i: usize = 0;
    while i < passed.len()
        invariant
            i <= passed@.len(),
            forall|j: int| 0 <= j < i ==> #[trigger] passed@[j],
        decreases passed@.len() - i,
    {
        if !passed[i] {
            assert(!passed@[i as int]);
            return EXIT_FAILURE;
        }
        i = i + 1;
    }
    EXIT_SUCCESS
}

/// A run needs at least one worker: `--parallel 0` is an invalid
/// invocation, refused with this message.
pub fn validate_parallel(parallel: u32) -> (r: Result<(), String>)
    ensures
        r is Err <==> parallel == 0,
        r matches Err(m) ==> m@ == "--parallel must be at least 1"@,
{
    if parallel == 0 {
        Err(owned("--parallel must be at least 1"))
    } else {
        Ok(())
    }
}

// ---------------------------------------------------------------------------
// Splitting a command line into words
// ---------------------------------------------------------------------------

/// Where the word splitter stands: the words so far, the word being built,
/// whether it is inside single or double quotes, and whether the next
/// character is escaped.
pub struct WordsState {
    pub words: Seq<Seq<char>>,
    pub current: Seq<char>,
    pub in_single: bool,
    pub in_double: bool,
    pub escaped: bool,
}

/// One character of the splitter: an escaped character is taken as it is; a
/// backslash outside single quotes escapes the next character; a quote
/// opens or closes its kind unless inside the other kind; whitespace outside
/// quotes ends a non-empty word; anything else joins the current word.
pub open spec fn words_step(s: WordsState, c: char) -> WordsState {
    if s.escaped {
        WordsState { current: s.current.push(c), escaped: false, ..s }
    } else if c == '\\' && !s.in_single {
        WordsState { escaped: true, ..s }
    } else if c == '\'' && !s.in_double {
        WordsState { in_single: !s.in_single, ..s }
    } else if c == '"' && !s.in_single {
        WordsState { in_double: !s.in_double, ..s }
    } else if unicode_whitespace(c) && !s.in_single && !s.in_double {
        if s.current.len() > 0 {
            WordsState { words: s.words.push(s.current), current: Seq::empty(), ..s }
        } else {
            s
        }
    } else {
        WordsState { current: s.current.push(c), ..s }
    }
}

/// The splitter after reading all of `text`.
pub open spec fn words_after(text: Seq<char>) -> WordsState
    decreases text.len(),
{
    if text.len() == 0 {
        WordsState {
            words: Seq::empty(),
            current: Seq::empty(),
            in_single: false,
            in_double: false,
            escaped: false,
        }
    } else {
        words_step(words_after(text.drop_last()), text.last())
    }
}

/// The words of `text`: what the splitter collected, and the word it was
/// building if any.
pub open spec fn shell_words_spec(text: Seq<char>) -> Seq<Seq<char>> {
    let s = words_after(text);
    if s.current.len() > 0 {
        s.words.push(s.current)
    } else {
        s.words
    }
}

/// Split a command line into words the way a POSIX shell roughly would:
/// quotes group, backslashes escape, whitespace separates.
pub fn shell_words(text: &str) -> (out: Vec<String>)
    ensures
        string_seqs(out@) == shell_words_spec(text@),
{
    let chars = crate::text::chars_of(text);
    let mut out: Vec<String> = Vec::new();
    let mut cur: Vec<char> = Vec::new();
    let mut in_single = false;
    let mut in_double = false;
    let mut escaped = false;
    let mut i: usize = 0;
    assert(chars@.take(0) =~= Seq::<char>::empty());
    assert(string_seqs(out@) =~= Seq::<Seq<char>>::empty());
    while i < chars.len()
        invariant
            i <= chars@.len(),
            chars@ == text@,
            words_after(chars@.take(i as int)) == (WordsState {
                words: string_seqs(out@),
                current: cur@,
                in_single,
                in_double,
                escaped,
            }),
        decreases chars@.len() - i,
    {
        let c = chars[i];
        assert(chars@.take(i + 1).drop_last() =~= chars@.take(i as int));
        if escaped {
            cur.push(c);
            escaped = false;
        } else if c == '\\' && !in_single {
            escaped = true;
        } else if c == '\'' && !in_double {
            in_single = !in_single;
        } else if c == '"' && !in_single {
            in_double = !in_double;
        } else if is_whitespace(c) && !in_single && !in_double {
            if cur.len() > 0 {
                let word = string_of(cur.as_slice());
                proof {
                    lemma_string_seqs_push(out@, word);
                }
                out.push(word);
                cur = Vec::new();
            }
        } else {
            cur.push(c);
        }
        proof {
            assert(cur@ =~= words_after(chars@.take(i + 1)).current);
        }
        i = i + 1;
    }
    assert(chars@.take(chars@.len() as int) =~= chars@);
    if cur.len() > 0 {
        let word = string_of(cur.as_slice());
        proof {
            lemma_string_seqs_push(out@, word);
        }
        out.push(word);
    }
    out
}

} // verus!
