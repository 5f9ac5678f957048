//! Not re-rendering a screen that has not changed.
//!
//! Deduplication keys on the screen's render fingerprint, which covers every
//! cell's attributes as well as its text: two screens with the same
//! characters but a different highlight are different screenshots. It only
//! ever looks back one step: a run of identical screens all point at the
//! first of them, but a screen matching one from earlier, with something else
//! in between, renders again.
use vstd::prelude::*;
use crate::attributed::{fingerprint_json, sha256_hex, AttributedScreen};

verus! {

broadcast use vstd::string::group_string_axioms;

/// The screen that was last rendered: its label and its fingerprint.
pub struct RenderedView {
    pub label: Seq<char>,
    pub fingerprint: Seq<char>,
}

struct Rendered {
    label: String,
    fingerprint: String,
}

/// Decides whether a screen needs rendering, or matches the previous one.
pub struct Deduper {
    previous: Option<Rendered>,
}

impl View for Deduper {
    type V = Option<RenderedView>;

    closed spec fn view(&self) -> Option<RenderedView> {
        match &self.previous {
            Some(p) => Some(RenderedView { label: p.label@, fingerprint: p.fingerprint@ }),
            None => None,
        }
    }
}

/// The fingerprint a screen is keyed on.
pub open spec fn screen_fingerprint(screen: AttributedScreen) -> Seq<char> {
    sha256_hex(fingerprint_json(screen@.rows))
}

/// One check of a screen with fingerprint `fp` under `label`, from state
/// `previous`: the label to reuse (`None` when the screen must be rendered),
/// and the state after. A match leaves the state alone, so a run of identical
/// screens all point at the first; a miss records this screen.
pub open spec fn check_step(
    previous: Option<RenderedView>,
    label: Seq<char>,
    fp: Seq<char>,
) -> (Option<Seq<char>>, Option<RenderedView>) {
    match previous {
        Some(p) => if p.fingerprint == fp {
            (Some(p.label), previous)
        } else {
            (None, Some(RenderedView { label, fingerprint: fp }))
        },
        None => (None, Some(RenderedView { label, fingerprint: fp })),
    }
}

impl Default for Deduper {
    fn default() -> (d: Self)
        ensures
            d@ is None,
    {
        Deduper { previous: None }
    }
}

impl Deduper {
    /// Whether `screen` duplicates the previously rendered one.
    ///
    /// Returns `Some(label)` of the step to reuse, or `None` when this screen
    /// needs rendering. A `None` answer records the screen as the new
    /// previous. The caller renders on `None` and, if that render fails,
    /// should call [`Deduper::forget`].
    pub fn check(&mut self, label: &str, screen: &AttributedScreen) -> (r: Option<&str>)
        ensures
            (r matches Some(l) ==> check_step(old(self)@, label@, screen_fingerprint(*screen)).0
                == Some(l@)),
            (r is None ==> check_step(old(self)@, label@, screen_fingerprint(*screen)).0 is None),
            final(self)@ == check_step(old(self)@, label@, screen_fingerprint(*screen)).1,
    {
        let fingerprint = screen.render_fingerprint();
        let matched = match &self.previous {
            Some(p) => p.fingerprint == fingerprint,
            None => false,
        };
        if matched {
            return match &self.previous {
                Some(p) => Some(p.label.as_str()),
                None => None,
            };
        }
        self.previous = Some(Rendered { label: label.to_owned(), fingerprint });
        None
    }

    /// Drop the remembered screen, so the next one renders afresh.
    pub fn forget(&mut self)
        ensures
            final(self)@ is None,
    {
        self.previous = None;
    }

    /// The label of the last screen that needed rendering, if any.
    pub fn last_rendered(&self) -> (r: Option<&str>)
        ensures
            (r matches Some(l) ==> self@ matches Some(p) && p.label == l@),
            (r is None ==> self@ is None),
    {
        match &self.previous {
            Some(p) => Some(p.label.as_str()),
            None => None,
        }
    }
}

/// A run of identical screens all point at the first: once a screen with
/// fingerprint `fp` has been checked under `first`, any number of further
/// checks of the same fingerprint reuse the label recorded then and leave the
/// state as it was.
pub proof fn lemma_identical_run_points_at_the_first(
    previous: Option<RenderedView>,
    first: Seq<char>,
    later: Seq<char>,
    fp: Seq<char>,
)
    ensures
        ({
            let (r1, s1) = check_step(previous, first, fp);
            let recorded = if r1 is Some { r1->0 } else { first };
            check_step(s1, later, fp) == (Some(recorded), s1)
        }),
{
}

/// Only the immediately previous screen counts: a screen checked after a
/// different one renders again, even if it matches one from earlier.
pub proof fn lemma_only_the_previous_screen_counts(
    previous: Option<RenderedView>,
    a: Seq<char>,
    b: Seq<char>,
    c: Seq<char>,
    fp: Seq<char>,
    other: Seq<char>,
)
    requires
        fp != other,
    ensures
        ({
            let s1 = check_step(previous, a, fp).1;
            let s2 = check_step(s1, b, other).1;
            check_step(s2, c, fp) == (None::<Seq<char>>, Some(RenderedView { label: c, fingerprint: fp }))
        }),
{
}

/// The first screen always renders, and so does the first after `forget`:
/// with no previous screen, a check is told to render and records its label.
pub proof fn lemma_nothing_previous_renders(label: Seq<char>, fp: Seq<char>)
    ensures
        check_step(None, label, fp) == (None::<Seq<char>>, Some(RenderedView { label, fingerprint: fp })),
{
}

} // verus!
