//! A run described by a file rather than by a command line.
//!
//! Every field is optional, and an unset field means "whatever the command
//! line or the built-in default already said": an explicitly passed flag
//! beats the config file, which beats the built-in default.
use vstd::prelude::*;
use std::collections::BTreeMap;
use crate::text::string_seqs;

verus! {

broadcast use vstd::string::group_string_axioms;

/// The precedence rule, in one place: the flag if one was passed, else the
/// config, else the default.
pub fn pick<T>(flag: Option<T>, configured: Option<T>, builtin: T) -> (r: T)
    ensures
        r == (match flag {
            Some(f) => f,
            None => match configured {
                Some(c) => c,
                None => builtin,
            },
        }),
{
    match flag {
        Some(f) => f,
        None => match configured {
            Some(c) => c,
            None => builtin,
        },
    }
}

/// Which recipes to run, and where they are found.
#[derive(Debug, Clone, PartialEq)]
pub struct Discovery {
    /// Directories a changed file must fall under to count as touching the
    /// framework itself. Empty means the consumer's built-in roots.
    pub roots: Vec<String>,
    /// The path fragment that marks the start of a repo-relative path.
    pub repo_marker: Option<String>,
    /// Which recipes to run. `None` means the command line decides.
    pub select: Option<Selection>,
    /// Glob patterns over recipe *names*; a match is skipped.
    pub exclude: Vec<String>,
}

/// The ways a run can choose its recipes, mutually exclusive by
/// construction.
#[derive(Debug, Clone, PartialEq)]
pub enum Selection {
    /// Every discovered recipe.
    All,
    /// Every recipe at this priority, e.g. `P0`.
    Priority(String),
    /// Exactly these recipes, by name.
    Names(Vec<String>),
    /// Recipes whose `ci_paths` match the changed files listed in this file.
    ChangedFiles(String),
}

/// Where the binary under test comes from.
#[derive(Debug, Clone, PartialEq)]
pub enum BinarySource {
    /// Use the already-installed binary.
    Installed,
    /// Build from the current checkout, labelling results with this change id.
    Build(String),
}

/// Where results go.
#[derive(Debug, Clone, PartialEq)]
pub struct Output {
    /// Directory for screenshots, casts and videos.
    pub artifact_dir: Option<String>,
    /// Where the human-readable report is written.
    pub report_path: Option<String>,
    /// Where the machine-readable result JSON is written.
    pub result_json_path: Option<String>,
    /// Publishers to run, in order, each named for the consumer to resolve.
    pub publishers: Vec<Publisher>,
    /// What has to have happened for the run to count as passing.
    pub require: Requirements,
}

/// One publisher, named, with settings this layer does not interpret.
#[derive(Debug, Clone, PartialEq)]
pub struct Publisher {
    /// The publisher's name, for the consumer to resolve to an implementation.
    pub name: String,
    /// Opaque settings, passed to that implementation verbatim.
    pub settings: BTreeMap<String, String>,
}

/// What has to have happened for the run to count as passing.
#[derive(Debug, Clone, PartialEq)]
pub struct Requirements {
    /// Fail if evidence was not uploaded anywhere shareable.
    pub uploaded_media: bool,
    /// Fail if this specific publisher did not carry the evidence.
    pub media_publisher: Option<String>,
}

impl Default for Discovery {
    fn default() -> (d: Self)
        ensures
            d.roots@.len() == 0,
            d.repo_marker is None,
            d.select is None,
            d.exclude@.len() == 0,
    {
        Discovery { roots: Vec::new(), repo_marker: None, select: None, exclude: Vec::new() }
    }
}

impl Default for Requirements {
    fn default() -> (r: Self)
        ensures
            !r.uploaded_media,
            r.media_publisher is None,
    {
        Requirements { uploaded_media: false, media_publisher: None }
    }
}

impl Default for Output {
    fn default() -> (o: Self)
        ensures
            o.artifact_dir is None,
            o.report_path is None,
            o.result_json_path is None,
            o.publishers@.len() == 0,
            !o.require.uploaded_media,
            o.require.media_publisher is None,
    {
        Output {
            artifact_dir: None,
            report_path: None,
            result_json_path: None,
            publishers: Vec::new(),
            require: Requirements::default(),
        }
    }
}

impl Default for Publisher {
    fn default() -> (p: Self)
        ensures
            p.name@.len() == 0,
            p.settings@ == Map::<String, String>::empty(),
    {
        Publisher { name: String::new(), settings: BTreeMap::new() }
    }
}

/// Whether the glob `pattern` (as `globset::Glob::new` reads it) matches
/// `name`; `false` when the pattern does not compile.
pub uninterp spec fn glob_matches_name(pattern: Seq<char>, name: Seq<char>) -> bool;

/// `globset::Glob::new(pattern)`, compiled and matched against `name`.
/// Trusted to answer as a function of the two strings; a pattern that does
/// not compile matches nothing.
#[verifier::external_body]
fn glob_match(pattern: &str, name: &str) -> (r: bool)
    ensures
        r == glob_matches_name(pattern@, name@),
{
    globset::Glob::new(pattern).map(|g| g.compile_matcher().is_match(name)).unwrap_or(false)
}

impl Discovery {
    /// Whether `recipe_name` is excluded: some exclusion glob matches it. An
    /// unparseable pattern excludes nothing rather than failing the run.
    pub fn excludes(&self, recipe_name: &str) -> (r: bool)
        ensures
            r == exists|i: int|
                0 <= i < self.exclude@.len() && glob_matches_name(
                    #[trigger] string_seqs(self.exclude@)[i],
                    recipe_name@,
                ),
    {
        let mut i: usize = 0;
        while i < self.exclude.len()
            invariant
                i <= self.exclude@.len(),
                forall|j: int|
                    0 <= j < i ==> !glob_matches_name(#[trigger] string_seqs(self.exclude@)[j], recipe_name@),
            decreases self.exclude@.len() - i,
        {
            if glob_match(self.exclude[i].as_str(), recipe_name) {
                assert(string_seqs(self.exclude@)[i as int] == self.exclude@[i as int]@);
                return true;
            }
            i += 1;
        }
        false
    }
}


impl Output {
    /// The publisher named `name`, the first of that name when several are.
    pub fn publisher(&self, name: &str) -> (r: Option<&Publisher>)
        ensures
            match r {
                Some(p) => exists|i: int|
                    0 <= i < self.publishers@.len() && self.publishers@[i] == *p && p.name@ == name@ && forall|
                        j: int,
                    | 0 <= j < i ==> (#[trigger] self.publishers@[j]).name@ != name@,
                None => forall|j: int| 0 <= j < self.publishers@.len() ==> (#[trigger] self.publishers@[j]).name@ != name@,
            },
    {
        let mut i: usize = 0;
        while i < self.publishers.len()
            invariant
                i <= self.publishers@.len(),
                forall|j: int| 0 <= j < i ==> (#[trigger] self.publishers@[j]).name@ != name@,
            decreases self.publishers@.len() - i,
        {
            if crate::text::str_eq(self.publishers[i].name.as_str(), name) {
                return Some(&self.publishers[i]);
            }
            i += 1;
        }
        None
    }
}

} // verus!
