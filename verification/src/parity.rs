//! Compare two verification runs and report where they disagree.
//!
//! Three grades of disagreement are reported separately, because they mean
//! different things: the two sides disagree on pass/fail (always a real
//! difference); they agree on the verdict but not on the score; they agree on
//! every assertion's verdict but word a detail differently (reported only
//! when asked for, since independently written diagnostics differ harmlessly).
//!
//! A comparison refuses rather than guesses: a side with no recipes is an
//! error, never an empty list of divergences.
//!
//! A run is reduced to a summary keyed by `recipe:renderer` (the recipe name
//! alone when the renderer is empty), in key order, one entry per key, the
//! last result for a key winning. The score is whatever the caller measures
//! it in; whether two scores differ is decided by a predicate the caller
//! hands to the comparison.
use vstd::prelude::*;
use crate::result::AssertionResult;
use crate::text::{
    lemma_text_lt_irreflexive, lemma_text_lt_total, lemma_text_lt_transitive, owned, push_str, str_eq,
    text_lt, text_lt_exec, chars_of, decimal, join, join_chars, push_decimal, trim_end,
    trim_end_chars, views, string_of, lemma_views_push,
};

verus! {

broadcast use vstd::string::group_string_axioms;

// ---------------------------------------------------------------------------
// Keyed entries in key order
// ---------------------------------------------------------------------------

/// Keys strictly increasing, so no key occurs twice.
pub open spec fn keys_sorted<V>(s: Seq<(Seq<char>, V)>) -> bool {
    forall|i: int, j: int| 0 <= i < j < s.len() ==> text_lt(#[trigger] s[i].0, #[trigger] s[j].0)
}

/// Some entry has key `k`.
pub open spec fn has_key<V>(s: Seq<(Seq<char>, V)>, k: Seq<char>) -> bool {
    exists|i: int| 0 <= i < s.len() && #[trigger] s[i].0 == k
}

/// An entry with key `k`, if there is one.
pub open spec fn index_of_key<V>(s: Seq<(Seq<char>, V)>, k: Seq<char>) -> int {
    choose|i: int| 0 <= i < s.len() && #[trigger] s[i].0 == k
}

/// The entries as a map from key to value.
pub open spec fn entries_map<V>(s: Seq<(Seq<char>, V)>) -> Map<Seq<char>, V> {
    Map::new(|k: Seq<char>| has_key(s, k), |k: Seq<char>| s[index_of_key(s, k)].1)
}

proof fn lemma_entry<V>(s: Seq<(Seq<char>, V)>, idx: int)
    requires
        keys_sorted(s),
        0 <= idx < s.len(),
    ensures
        entries_map(s).dom().contains(s[idx].0),
        entries_map(s)[s[idx].0] == s[idx].1,
{
    let k = s[idx].0;
    assert(has_key(s, k));
    let c = index_of_key(s, k);
    if c < idx {
        assert(text_lt(s[c].0, s[idx].0));
        lemma_text_lt_irreflexive(k);
    } else if idx < c {
        assert(text_lt(s[idx].0, s[c].0));
        lemma_text_lt_irreflexive(k);
    }
    assert(c == idx);
    assert(entries_map(s).dom().contains(k));
    assert(entries_map(s)[k] == s[c].1);
}

/// Where `k` belongs: every key before `p` sorts before it, the key at `p`
/// (if any) does not.
pub open spec fn is_slot<V>(s: Seq<(Seq<char>, V)>, p: int, k: Seq<char>) -> bool {
    &&& 0 <= p <= s.len()
    &&& forall|q: int| 0 <= q < p ==> text_lt(#[trigger] s[q].0, k)
    &&& p < s.len() ==> !text_lt(s[p].0, k)
}

/// Set `k` to `v`: replace the entry at its slot if the key is there,
/// otherwise insert a new entry at the slot.
pub open spec fn upsert<V>(s: Seq<(Seq<char>, V)>, p: int, k: Seq<char>, v: V) -> Seq<
    (Seq<char>, V),
> {
    if p < s.len() && s[p].0 == k {
        s.update(p, (k, v))
    } else {
        s.insert(p, (k, v))
    }
}

proof fn lemma_upsert<V>(s: Seq<(Seq<char>, V)>, p: int, k: Seq<char>, v: V)
    requires
        keys_sorted(s),
        is_slot(s, p, k),
    ensures
        keys_sorted(upsert(s, p, k, v)),
        entries_map(upsert(s, p, k, v)) == entries_map(s).insert(k, v),
{
    assert forall|q: int| p < q < s.len() implies text_lt(k, #[trigger] s[q].0) by {
        lemma_text_lt_total(s[p].0, k);
        if s[p].0 != k {
            lemma_text_lt_transitive(k, s[p].0, s[q].0);
        }
    }
    if p < s.len() && s[p].0 == k {
        let t = s.update(p, (k, v));
        assert(t == upsert(s, p, k, v));
        assert(keys_sorted(t)) by {
            assert forall|i: int, j: int| 0 <= i < j < t.len() implies text_lt(
                #[trigger] t[i].0,
                #[trigger] t[j].0,
            ) by {
                assert(t[i].0 == s[i].0 && t[j].0 == s[j].0);
            }
        }
        assert forall|kk: Seq<char>| #[trigger] has_key(t, kk) == (has_key(s, kk) || kk == k) by {
            if has_key(s, kk) {
                let i = choose|i: int| 0 <= i < s.len() && #[trigger] s[i].0 == kk;
                assert(t[i].0 == kk);
            }
            if has_key(t, kk) {
                let i = choose|i: int| 0 <= i < t.len() && #[trigger] t[i].0 == kk;
                assert(s[i].0 == kk);
            }
            if kk == k {
                assert(t[p].0 == k);
            }
        }
        assert(entries_map(t) =~= entries_map(s).insert(k, v)) by {
            assert forall|kk: Seq<char>| #[trigger] entries_map(t).dom().contains(kk) implies
                entries_map(t)[kk] == entries_map(s).insert(k, v)[kk] by {
                let i = choose|i: int| 0 <= i < t.len() && #[trigger] t[i].0 == kk;
                lemma_entry(t, i);
                if i != p {
                    assert(s[i] == t[i]);
                    lemma_entry(s, i);
                }
            }
        }
    } else {
        let t = s.insert(p, (k, v));
        assert(t == upsert(s, p, k, v));
        if p < s.len() {
            lemma_text_lt_total(s[p].0, k);
        }
        assert(keys_sorted(t)) by {
            assert forall|i: int, j: int| 0 <= i < j < t.len() implies text_lt(
                #[trigger] t[i].0,
                #[trigger] t[j].0,
            ) by {
                if j < p {
                    assert(t[i] == s[i] && t[j] == s[j]);
                } else if j == p {
                    assert(t[i] == s[i]);
                } else if i < p {
                    assert(t[i] == s[i] && t[j] == s[j - 1]);
                    lemma_text_lt_transitive(s[i].0, k, s[j - 1].0);
                } else if i == p {
                    assert(t[j] == s[j - 1]);
                } else {
                    assert(t[i] == s[i - 1] && t[j] == s[j - 1]);
                }
            }
        }
        assert forall|kk: Seq<char>| #[trigger] has_key(t, kk) == (has_key(s, kk) || kk == k) by {
            if has_key(s, kk) {
                let i = choose|i: int| 0 <= i < s.len() && #[trigger] s[i].0 == kk;
                if i < p {
                    assert(t[i].0 == kk);
                } else {
                    assert(t[i + 1].0 == kk);
                }
            }
            if has_key(t, kk) {
                let i = choose|i: int| 0 <= i < t.len() && #[trigger] t[i].0 == kk;
                if i < p {
                    assert(s[i].0 == kk);
                } else if i > p {
                    assert(s[i - 1].0 == kk);
                }
            }
            if kk == k {
                assert(t[p].0 == k);
            }
        }
        assert(entries_map(t) =~= entries_map(s).insert(k, v)) by {
            assert forall|kk: Seq<char>| #[trigger] entries_map(t).dom().contains(kk) implies
                entries_map(t)[kk] == entries_map(s).insert(k, v)[kk] by {
                let i = choose|i: int| 0 <= i < t.len() && #[trigger] t[i].0 == kk;
                lemma_entry(t, i);
                if i < p {
                    assert(s[i] == t[i]);
                    lemma_entry(s, i);
                    assert(text_lt(kk, k));
                    lemma_text_lt_irreflexive(k);
                } else if i > p {
                    assert(s[i - 1] == t[i]);
                    lemma_entry(s, i - 1);
                    assert(text_lt(k, kk));
                    lemma_text_lt_irreflexive(k);
                }
            }
        }
    }
}

// ---------------------------------------------------------------------------
// Summaries
// ---------------------------------------------------------------------------

/// One recipe's outcome, reduced to what a comparison needs.
#[derive(Debug, PartialEq)]
pub struct RecipeOutcome<S> {
    passed: bool,
    score: S,
    assertions: Vec<(String, bool, String)>,
}

/// What an outcome holds: its verdict, its score, and its assertions as
/// name → (verdict, detail) in name order.
pub struct OutcomeView<S> {
    pub passed: bool,
    pub score: S,
    pub assertions: Seq<(Seq<char>, (bool, Seq<char>))>,
}

/// The views of assertion entries.
pub open spec fn assertion_entries(a: Seq<(String, bool, String)>) -> Seq<
    (Seq<char>, (bool, Seq<char>)),
> {
    Seq::new(a.len(), |i: int| (a[i].0@, (a[i].1, a[i].2@)))
}

impl<S> View for RecipeOutcome<S> {
    type V = OutcomeView<S>;

    closed spec fn view(&self) -> OutcomeView<S> {
        OutcomeView {
            passed: self.passed,
            score: self.score,
            assertions: assertion_entries(self.assertions@),
        }
    }
}

impl<S> RecipeOutcome<S> {
    #[verifier::type_invariant]
    spec fn assertions_in_order(self) -> bool {
        keys_sorted(assertion_entries(self.assertions@))
    }

    /// An outcome with the given verdict and score and no assertions.
    pub fn new(passed: bool, score: S) -> (o: Self)
        ensures
            o@.passed == passed,
            o@.score == score,
            o@.assertions == Seq::<(Seq<char>, (bool, Seq<char>))>::empty(),
    {
        let o = RecipeOutcome { passed, score, assertions: Vec::new() };
        assert(assertion_entries(o.assertions@) =~= Seq::<(Seq<char>, (bool, Seq<char>))>::empty());
        o
    }

    /// Whether the recipe passed overall.
    pub fn passed(&self) -> (b: bool)
        ensures
            b == self@.passed,
    {
        self.passed
    }

    /// The recipe's score.
    pub fn score(&self) -> (s: &S)
        ensures
            *s == self@.score,
    {
        &self.score
    }

    /// The assertions, in name order.
    pub fn assertions(&self) -> (a: &[(String, bool, String)])
        ensures
            assertion_entries(a@) == self@.assertions,
    {
        self.assertions.as_slice()
    }

    /// The verdict and detail recorded for assertion `name`, if any.
    pub fn assertion(&self, name: &str) -> (r: Option<(bool, String)>)
        ensures
            match r {
                Some((passed, detail)) => entries_map(self@.assertions).dom().contains(name@)
                    && entries_map(self@.assertions)[name@] == (passed, detail@),
                None => !entries_map(self@.assertions).dom().contains(name@),
            },
    {
        proof {
            use_type_invariant(self);
        }
        let ghost s = self@.assertions;
        let mut i: usize = 0;
        while i < self.assertions.len()
            invariant
                i <= self.assertions@.len(),
                s == assertion_entries(self.assertions@),
                keys_sorted(s),
                forall|q: int| 0 <= q < i ==> s[q].0 != name@,
            decreases self.assertions@.len() - i,
        {
            if str_eq(self.assertions[i].0.as_str(), name) {
                let mut detail = String::new();
                push_str(&mut detail, self.assertions[i].2.as_str());
                proof {
                    lemma_entry(s, i as int);
                }
                return Some((self.assertions[i].1, detail));
            }
            i = i + 1;
        }
        assert(!has_key(s, name@));
        None
    }

    /// Record assertion `name` with its verdict and detail, replacing an
    /// earlier record of the same name.
    pub fn record_assertion(&mut self, name: &str, passed: bool, detail: &str)
        ensures
            final(self)@.passed == old(self)@.passed,
            final(self)@.score == old(self)@.score,
            entries_map(final(self)@.assertions) == entries_map(old(self)@.assertions).insert(
                name@,
                (passed, detail@),
            ),
    {
        proof {
            use_type_invariant(&*self);
        }
        let mut entries: Vec<(String, bool, String)> = Vec::new();
        std::mem::swap(&mut entries, &mut self.assertions);
        let ghost s = assertion_entries(entries@);
        let mut p: usize = 0;
        while p < entries.len() && text_lt_exec(entries[p].0.as_str(), name)
            invariant
                p <= entries@.len(),
                s == assertion_entries(entries@),
                forall|q: int| 0 <= q < p ==> text_lt(#[trigger] s[q].0, name@),
            decreases entries@.len() - p,
        {
            p = p + 1;
        }
        let mut n = String::new();
        push_str(&mut n, name);
        let mut d = String::new();
        push_str(&mut d, detail);
        proof {
            lemma_upsert(s, p as int, name@, (passed, detail@));
        }
        if p < entries.len() && str_eq(entries[p].0.as_str(), name) {
            entries.set(p, (n, passed, d));
            assert(assertion_entries(entries@) =~= upsert(s, p as int, name@, (passed, detail@)));
        } else {
            entries.insert(p, (n, passed, d));
            assert(assertion_entries(entries@) =~= upsert(s, p as int, name@, (passed, detail@)));
        }
        self.assertions = entries;
    }
}

/// A run reduced to the parts a comparison looks at: recipe key → outcome,
/// in key order.
#[derive(Debug, PartialEq)]
pub struct RunSummary<S> {
    recipes: Vec<(String, RecipeOutcome<S>)>,
}

/// The views of summary entries.
pub open spec fn summary_entries<S>(r: Seq<(String, RecipeOutcome<S>)>) -> Seq<
    (Seq<char>, OutcomeView<S>),
> {
    Seq::new(r.len(), |i: int| (r[i].0@, r[i].1@))
}

impl<S> View for RunSummary<S> {
    type V = Seq<(Seq<char>, OutcomeView<S>)>;

    closed spec fn view(&self) -> Seq<(Seq<char>, OutcomeView<S>)> {
        summary_entries(self.recipes@)
    }
}

impl<S> RunSummary<S> {
    #[verifier::type_invariant]
    spec fn recipes_in_order(self) -> bool {
        keys_sorted(summary_entries(self.recipes@))
    }

    /// An empty summary.
    pub fn new() -> (s: Self)
        ensures
            s@ == Seq::<(Seq<char>, OutcomeView<S>)>::empty(),
    {
        let s = RunSummary { recipes: Vec::new() };
        assert(summary_entries(s.recipes@) =~= Seq::<(Seq<char>, OutcomeView<S>)>::empty());
        s
    }

    /// The entries, in key order.
    pub fn recipes(&self) -> (r: &[(String, RecipeOutcome<S>)])
        ensures
            summary_entries(r@) == self@,
    {
        self.recipes.as_slice()
    }

    /// How many recipe keys the summary holds.
    pub fn len(&self) -> (n: usize)
        ensures
            n == self@.len(),
    {
        self.recipes.len()
    }

    /// Whether the summary holds no recipe.
    pub fn is_empty(&self) -> (b: bool)
        ensures
            b == (self@.len() == 0),
    {
        self.recipes.len() == 0
    }

    /// The outcome recorded under `key`, if any.
    pub fn get(&self, key: &str) -> (r: Option<&RecipeOutcome<S>>)
        ensures
            match r {
                Some(o) => entries_map(self@).dom().contains(key@) && entries_map(self@)[key@]
                    == o@,
                None => !entries_map(self@).dom().contains(key@),
            },
    {
        proof {
            use_type_invariant(self);
        }
        let ghost s = self@;
        let mut i: usize = 0;
        while i < self.recipes.len()
            invariant
                i <= self.recipes@.len(),
                s == summary_entries(self.recipes@),
                keys_sorted(s),
                forall|q: int| 0 <= q < i ==> s[q].0 != key@,
            decreases self.recipes@.len() - i,
        {
            if str_eq(self.recipes[i].0.as_str(), key) {
                proof {
                    lemma_entry(s, i as int);
                }
                return Some(&self.recipes[i].1);
            }
            i = i + 1;
        }
        assert(!has_key(s, key@));
        None
    }

    /// Record `outcome` under `key`, replacing an earlier one.
    pub fn insert(&mut self, key: &str, outcome: RecipeOutcome<S>)
        ensures
            entries_map(final(self)@) == entries_map(old(self)@).insert(key@, outcome@),
    {
        proof {
            use_type_invariant(&*self);
        }
        let mut entries: Vec<(String, RecipeOutcome<S>)> = Vec::new();
        std::mem::swap(&mut entries, &mut self.recipes);
        let ghost s = summary_entries(entries@);
        let ghost o = outcome@;
        let mut p: usize = 0;
        while p < entries.len() && text_lt_exec(entries[p].0.as_str(), key)
            invariant
                p <= entries@.len(),
                s == summary_entries(entries@),
                forall|q: int| 0 <= q < p ==> text_lt(#[trigger] s[q].0, key@),
            decreases entries@.len() - p,
        {
            p = p + 1;
        }
        let mut k = String::new();
        push_str(&mut k, key);
        proof {
            lemma_upsert(s, p as int, key@, o);
        }
        if p < entries.len() && str_eq(entries[p].0.as_str(), key) {
            entries.set(p, (k, outcome));
            assert(summary_entries(entries@) =~= upsert(s, p as int, key@, o));
        } else {
            entries.insert(p, (k, outcome));
            assert(summary_entries(entries@) =~= upsert(s, p as int, key@, o));
        }
        self.recipes = entries;
    }
}

impl<S> Default for RunSummary<S> {
    /// An empty summary.
    fn default() -> (s: Self)
        ensures
            s@ == Seq::<(Seq<char>, OutcomeView<S>)>::empty(),
    {
        RunSummary::new()
    }
}


// ---------------------------------------------------------------------------
// Reducing runs to a summary
// ---------------------------------------------------------------------------

/// One run as a comparison reads it.
#[derive(Debug, Clone, PartialEq)]
pub struct ScoredRun<S> {
    /// Recipe identifier.
    pub recipe_name: String,
    /// Renderer name; empty when the run has none.
    pub renderer: String,
    /// Overall verdict.
    pub passed: bool,
    /// Score, in whatever the caller measures it.
    pub score: S,
    /// Per-assertion results.
    pub assertions: Vec<AssertionResult>,
}

/// The key a run is compared under: `recipe:renderer`, or the recipe name
/// alone when the renderer is empty.
pub open spec fn run_key(recipe_name: Seq<char>, renderer: Seq<char>) -> Seq<char> {
    if renderer.len() == 0 {
        recipe_name
    } else {
        recipe_name + ":"@ + renderer
    }
}

/// Assertion name → (verdict, detail), a later assertion of the same name
/// replacing an earlier one.
pub open spec fn assertions_map(a: Seq<AssertionResult>) -> Map<Seq<char>, (bool, Seq<char>)>
    decreases a.len(),
{
    if a.len() == 0 {
        Map::empty()
    } else {
        assertions_map(a.drop_last()).insert(
            a.last().name@,
            (a.last().passed, a.last().detail@),
        )
    }
}

/// What a summary says of a recipe: its verdict, its score and its
/// assertions by name.
pub open spec fn outcome_meaning<S>(o: OutcomeView<S>) -> (bool, S, Map<Seq<char>, (bool, Seq<char>)>) {
    (o.passed, o.score, entries_map(o.assertions))
}

/// A summary as a map from recipe key to what it says of the recipe.
pub open spec fn summary_meaning<S>(s: Seq<(Seq<char>, OutcomeView<S>)>) -> Map<
    Seq<char>,
    (bool, S, Map<Seq<char>, (bool, Seq<char>)>),
> {
    entries_map(s).map_values(|o: OutcomeView<S>| outcome_meaning(o))
}

/// The summary of a list of runs: each key maps to the last run under it.
pub open spec fn summary_of<S>(runs: Seq<ScoredRun<S>>) -> Map<
    Seq<char>,
    (bool, S, Map<Seq<char>, (bool, Seq<char>)>),
>
    decreases runs.len(),
{
    if runs.len() == 0 {
        Map::empty()
    } else {
        let r = runs.last();
        summary_of(runs.drop_last()).insert(
            run_key(r.recipe_name@, r.renderer@),
            (r.passed, r.score, assertions_map(r.assertions@)),
        )
    }
}

/// The key `run` is compared under.
fn key_of<S>(run: &ScoredRun<S>) -> (k: String)
    ensures
        k@ == run_key(run.recipe_name@, run.renderer@),
{
    let mut k = String::new();
    push_str(&mut k, run.recipe_name.as_str());
    if run.renderer.as_str().is_empty() {
        return k;
    }
    push_str(&mut k, ":");
    push_str(&mut k, run.renderer.as_str());
    k
}

/// Reduce runs to a comparable summary: one entry per key, the last run
/// under a key winning, and within an entry one record per assertion name,
/// the last winning.
pub fn summarize<S: Copy>(results: &[ScoredRun<S>]) -> (s: RunSummary<S>)
    ensures
        summary_meaning(s@) == summary_of(results@),
{
    let mut summary: RunSummary<S> = RunSummary::new();
    let mut n: usize = 0;
    assert(summary_meaning(summary@) =~= summary_of(results@.take(0)));
    while n < results.len()
        invariant
            n <= results@.len(),
            summary_meaning(summary@) == summary_of(results@.take(n as int)),
        decreases results@.len() - n,
    {
        let run = &results[n];
        let mut outcome = RecipeOutcome::new(run.passed, run.score);
        let mut a: usize = 0;
        assert(entries_map(outcome@.assertions) =~= assertions_map(run.assertions@.take(0)));
        while a < run.assertions.len()
            invariant
                a <= run.assertions@.len(),
                outcome@.passed == run.passed,
                outcome@.score == run.score,
                entries_map(outcome@.assertions) == assertions_map(run.assertions@.take(a as int)),
            decreases run.assertions@.len() - a,
        {
            let item = &run.assertions[a];
            outcome.record_assertion(item.name.as_str(), item.passed, item.detail.as_str());
            assert(run.assertions@.take(a + 1).drop_last() =~= run.assertions@.take(a as int));
            a = a + 1;
        }
        assert(run.assertions@.take(run.assertions@.len() as int) =~= run.assertions@);
        let key = key_of(run);
        let ghost before = summary@;
        let ghost o = outcome@;
        summary.insert(key.as_str(), outcome);
        proof {
            let f = |x: OutcomeView<S>| outcome_meaning(x);
            assert(entries_map(before).insert(key@, o).map_values(f) =~= entries_map(before).map_values(
                f,
            ).insert(key@, f(o)));
            assert(results@.take(n + 1).drop_last() =~= results@.take(n as int));
        }
        n = n + 1;
    }
    assert(results@.take(results@.len() as int) =~= results@);
    summary
}


// ---------------------------------------------------------------------------
// Comparing two summaries
// ---------------------------------------------------------------------------

/// How two runs differ on one recipe.
#[allow(inconsistent_fields)]
#[derive(Debug, Clone, PartialEq)]
pub enum Divergence<S> {
    /// One side ran it and the other did not.
    OnlyIn {
        /// Recipe key.
        recipe: String,
        /// Name of the side that ran it.
        side: String,
    },
    /// Both ran it and disagreed on pass/fail.
    Verdict {
        /// Recipe key.
        recipe: String,
        /// Left side's verdict.
        left: bool,
        /// Right side's verdict.
        right: bool,
    },
    /// Same verdict, different score.
    Score {
        /// Recipe key.
        recipe: String,
        /// Left side's score.
        left: S,
        /// Right side's score.
        right: S,
    },
    /// Assertions that disagree on pass/fail, or exist on one side only.
    Assertions {
        /// Recipe key.
        recipe: String,
        /// Assertions on both sides with different verdicts.
        differing: Vec<String>,
        /// Assertions only the left side reported.
        only_left: Vec<String>,
        /// Assertions only the right side reported.
        only_right: Vec<String>,
    },
    /// Assertions that agree on pass/fail but word their detail differently.
    Detail {
        /// Recipe key.
        recipe: String,
        /// Assertions whose detail differs.
        differing: Vec<String>,
    },
}

/// A divergence with its texts as character sequences.
#[allow(inconsistent_fields)]
pub enum DivergenceView<S> {
    OnlyIn { recipe: Seq<char>, side: Seq<char> },
    Verdict { recipe: Seq<char>, left: bool, right: bool },
    Score { recipe: Seq<char>, left: S, right: S },
    Assertions {
        recipe: Seq<char>,
        differing: Seq<Seq<char>>,
        only_left: Seq<Seq<char>>,
        only_right: Seq<Seq<char>>,
    },
    Detail { recipe: Seq<char>, differing: Seq<Seq<char>> },
}

/// The texts of a list of strings.
pub open spec fn texts(v: Seq<String>) -> Seq<Seq<char>> {
    Seq::new(v.len(), |i: int| v[i]@)
}

impl<S> View for Divergence<S> {
    type V = DivergenceView<S>;

    open spec fn view(&self) -> DivergenceView<S> {
        match self {
            Divergence::OnlyIn { recipe, side } => DivergenceView::OnlyIn {
                recipe: recipe@,
                side: side@,
            },
            Divergence::Verdict { recipe, left, right } => DivergenceView::Verdict {
                recipe: recipe@,
                left: *left,
                right: *right,
            },
            Divergence::Score { recipe, left, right } => DivergenceView::Score {
                recipe: recipe@,
                left: *left,
                right: *right,
            },
            Divergence::Assertions { recipe, differing, only_left, only_right } =>
                DivergenceView::Assertions {
                recipe: recipe@,
                differing: texts(differing@),
                only_left: texts(only_left@),
                only_right: texts(only_right@),
            },
            Divergence::Detail { recipe, differing } => DivergenceView::Detail {
                recipe: recipe@,
                differing: texts(differing@),
            },
        }
    }
}

/// The views of a list of divergences.
pub open spec fn divergence_views<S>(v: Seq<Divergence<S>>) -> Seq<DivergenceView<S>> {
    Seq::new(v.len(), |i: int| v[i]@)
}

/// Why a comparison could not be made at all.
#[derive(Debug, Clone, PartialEq, Eq)]
pub enum ParityError {
    /// A side had no recipes, which is never a legitimate run.
    Empty {
        /// Name of the empty side.
        side: String,
    },
}

impl ParityError {
    /// The error's message.
    pub fn message(&self) -> (m: String)
        ensures
            match self {
                ParityError::Empty { side } => m@ == "`"@ + side@
                    + "` contained no recipes; refusing to report agreement"@,
            },
    {
        match self {
            ParityError::Empty { side } => {
                let mut m = String::new();
                push_str(&mut m, "`");
                push_str(&mut m, side.as_str());
                push_str(&mut m, "` contained no recipes; refusing to report agreement");
                m
            },
        }
    }
}

/// Whether a comparison reports detail-only differences.
#[derive(Debug, Clone, Copy, PartialEq, Eq, Structural)]
pub enum DetailMode {
    /// Ignore details; compare verdicts only.
    Ignore,
    /// Report detail differences as `Divergence::Detail`.
    Compare,
}

impl Default for DetailMode {
    /// Details are ignored unless asked for.
    fn default() -> (d: Self)
        ensures
            d == DetailMode::Ignore,
    {
        DetailMode::Ignore
    }
}

/// One step of walking two key lists in order together.
pub enum Pairing {
    /// The left key at this index sorts first.
    OnlyLeft(int),
    /// The right key at this index sorts first.
    OnlyRight(int),
    /// The two keys at these indices are equal.
    Both(int, int),
}

/// The steps of walking `lk` from `i` and `rk` from `j` together, smaller
/// key first, equal keys together.
pub open spec fn pairing(lk: Seq<Seq<char>>, rk: Seq<Seq<char>>, i: int, j: int) -> Seq<Pairing>
    decreases (if i < lk.len() {
        lk.len() - i
    } else {
        0
    }) + (if j < rk.len() {
        rk.len() - j
    } else {
        0
    }),
{
    if i >= lk.len() && j >= rk.len() {
        Seq::empty()
    } else if j >= rk.len() || (i < lk.len() && text_lt(lk[i], rk[j])) {
        seq![Pairing::OnlyLeft(i)] + pairing(lk, rk, i + 1, j)
    } else if i >= lk.len() || text_lt(rk[j], lk[i]) {
        seq![Pairing::OnlyRight(j)] + pairing(lk, rk, i, j + 1)
    } else {
        seq![Pairing::Both(i, j)] + pairing(lk, rk, i + 1, j + 1)
    }
}

/// The keys of a list of entries.
pub open spec fn keys_of<V>(s: Seq<(Seq<char>, V)>) -> Seq<Seq<char>> {
    Seq::new(s.len(), |i: int| s[i].0)
}

/// Names present on both sides with different verdicts, in walk order.
pub open spec fn differing_names(
    ev: Seq<Pairing>,
    la: Seq<(Seq<char>, (bool, Seq<char>))>,
    ra: Seq<(Seq<char>, (bool, Seq<char>))>,
) -> Seq<Seq<char>>
    decreases ev.len(),
{
    if ev.len() == 0 {
        Seq::empty()
    } else {
        let rest = differing_names(ev.drop_last(), la, ra);
        match ev.last() {
            Pairing::Both(i, j) => if la[i].1.0 != ra[j].1.0 {
                rest.push(la[i].0)
            } else {
                rest
            },
            _ => rest,
        }
    }
}

/// Names present on both sides with the same verdict and different detail.
pub open spec fn worded_names(
    ev: Seq<Pairing>,
    la: Seq<(Seq<char>, (bool, Seq<char>))>,
    ra: Seq<(Seq<char>, (bool, Seq<char>))>,
) -> Seq<Seq<char>>
    decreases ev.len(),
{
    if ev.len() == 0 {
        Seq::empty()
    } else {
        let rest = worded_names(ev.drop_last(), la, ra);
        match ev.last() {
            Pairing::Both(i, j) => if la[i].1.0 == ra[j].1.0 && la[i].1.1 != ra[j].1.1 {
                rest.push(la[i].0)
            } else {
                rest
            },
            _ => rest,
        }
    }
}

/// Names on the left side only.
pub open spec fn left_names(ev: Seq<Pairing>, la: Seq<(Seq<char>, (bool, Seq<char>))>) -> Seq<
    Seq<char>,
>
    decreases ev.len(),
{
    if ev.len() == 0 {
        Seq::empty()
    } else {
        let rest = left_names(ev.drop_last(), la);
        match ev.last() {
            Pairing::OnlyLeft(i) => rest.push(la[i].0),
            _ => rest,
        }
    }
}

/// Names on the right side only.
pub open spec fn right_names(ev: Seq<Pairing>, ra: Seq<(Seq<char>, (bool, Seq<char>))>) -> Seq<
    Seq<char>,
>
    decreases ev.len(),
{
    if ev.len() == 0 {
        Seq::empty()
    } else {
        let rest = right_names(ev.drop_last(), ra);
        match ev.last() {
            Pairing::OnlyRight(j) => rest.push(ra[j].0),
            _ => rest,
        }
    }
}

/// How one recipe that both sides ran differs: a verdict difference, or
/// else a score difference when `score_differs`; then the assertion
/// differences if there are any; then, when details are compared, the
/// assertions that agree on the verdict but not on the wording.
pub open spec fn recipe_divergences<S>(
    name: Seq<char>,
    l: OutcomeView<S>,
    r: OutcomeView<S>,
    detail: DetailMode,
    score_differs: bool,
) -> Seq<DivergenceView<S>> {
    let ev = pairing(keys_of(l.assertions), keys_of(r.assertions), 0, 0);
    let differing = differing_names(ev, l.assertions, r.assertions);
    let only_left = left_names(ev, l.assertions);
    let only_right = right_names(ev, r.assertions);
    let worded = worded_names(ev, l.assertions, r.assertions);
    let verdict = if l.passed != r.passed {
        seq![DivergenceView::Verdict { recipe: name, left: l.passed, right: r.passed }]
    } else if score_differs {
        seq![DivergenceView::Score { recipe: name, left: l.score, right: r.score }]
    } else {
        Seq::empty()
    };
    let assertions = if differing.len() > 0 || only_left.len() > 0 || only_right.len() > 0 {
        seq![DivergenceView::Assertions { recipe: name, differing, only_left, only_right }]
    } else {
        Seq::empty()
    };
    let wording = if detail == DetailMode::Compare && worded.len() > 0 {
        seq![DivergenceView::Detail { recipe: name, differing: worded }]
    } else {
        Seq::empty()
    };
    verdict + assertions + wording
}

/// The divergences one step of the walk over the two summaries produces.
pub open spec fn step_divergences<S>(
    p: Pairing,
    left: Seq<(Seq<char>, OutcomeView<S>)>,
    right: Seq<(Seq<char>, OutcomeView<S>)>,
    left_name: Seq<char>,
    right_name: Seq<char>,
    detail: DetailMode,
    score_differs: bool,
) -> Seq<DivergenceView<S>> {
    match p {
        Pairing::OnlyLeft(i) => seq![DivergenceView::OnlyIn { recipe: left[i].0, side: left_name }],
        Pairing::OnlyRight(j) => seq![
            DivergenceView::OnlyIn { recipe: right[j].0, side: right_name },
        ],
        Pairing::Both(i, j) => recipe_divergences(left[i].0, left[i].1, right[j].1, detail, score_differs),
    }
}

/// All divergences of a walk, `flags[e]` saying whether the scores at step
/// `e` count as different.
pub open spec fn walk_divergences<S>(
    ev: Seq<Pairing>,
    flags: Seq<bool>,
    left: Seq<(Seq<char>, OutcomeView<S>)>,
    right: Seq<(Seq<char>, OutcomeView<S>)>,
    left_name: Seq<char>,
    right_name: Seq<char>,
    detail: DetailMode,
) -> Seq<DivergenceView<S>>
    decreases ev.len(),
{
    if ev.len() == 0 {
        Seq::empty()
    } else {
        walk_divergences(ev.drop_last(), flags.drop_last(), left, right, left_name, right_name, detail)
            + step_divergences(ev.last(), left, right, left_name, right_name, detail, flags.last())
    }
}

/// `flags[e]` is an answer of `score_differs` on the scores of step `e`
/// wherever that step pairs two recipes with the same verdict.
pub open spec fn scores_judged<S, F: Fn(S, S) -> bool>(
    ev: Seq<Pairing>,
    flags: Seq<bool>,
    left: Seq<(Seq<char>, OutcomeView<S>)>,
    right: Seq<(Seq<char>, OutcomeView<S>)>,
    score_differs: F,
) -> bool {
    &&& flags.len() == ev.len()
    &&& forall|e: int|
        0 <= e < ev.len() ==> match #[trigger] ev[e] {
            Pairing::Both(i, j) => left[i].1.passed == right[j].1.passed ==> score_differs.ensures(
                (left[i].1.score, right[j].1.score),
                flags[e],
            ),
            _ => true,
        }
}

fn push_all<S>(out: &mut Vec<Divergence<S>>, more: Vec<Divergence<S>>)
    ensures
        divergence_views(final(out)@) == divergence_views(old(out)@) + divergence_views(more@),
{
    let mut more = more;
    let ghost a = out@;
    let ghost b = more@;
    out.append(&mut more);
    assert(divergence_views(out@) =~= divergence_views(a) + divergence_views(b));
}


/// How one recipe both sides ran differs; `score_differs` says whether the
/// scores count as different.
fn compare_one<S: Copy>(
    name: &str,
    l: &RecipeOutcome<S>,
    r: &RecipeOutcome<S>,
    detail: DetailMode,
    score_differs: bool,
) -> (out: Vec<Divergence<S>>)
    ensures
        divergence_views(out@) == recipe_divergences(name@, l@, r@, detail, score_differs),
{
    let la = l.assertions();
    let ra = r.assertions();
    let ghost lv = l@.assertions;
    let ghost rv = r@.assertions;
    let ghost lk = keys_of(lv);
    let ghost rk = keys_of(rv);
    let mut differing: Vec<String> = Vec::new();
    let mut only_left: Vec<String> = Vec::new();
    let mut only_right: Vec<String> = Vec::new();
    let mut worded: Vec<String> = Vec::new();
    let mut i: usize = 0;
    let mut j: usize = 0;
    let ghost mut ev: Seq<Pairing> = Seq::empty();
    assert(texts(differing@) =~= Seq::<Seq<char>>::empty());
    assert(texts(only_left@) =~= Seq::<Seq<char>>::empty());
    assert(texts(only_right@) =~= Seq::<Seq<char>>::empty());
    assert(texts(worded@) =~= Seq::<Seq<char>>::empty());
    while i < la.len() || j < ra.len()
        invariant
            i <= la@.len(),
            j <= ra@.len(),
            assertion_entries(la@) == lv,
            assertion_entries(ra@) == rv,
            lk == keys_of(lv),
            rk == keys_of(rv),
            pairing(lk, rk, 0, 0) == ev + pairing(lk, rk, i as int, j as int),
            texts(differing@) == differing_names(ev, lv, rv),
            texts(only_left@) == left_names(ev, lv),
            texts(only_right@) == right_names(ev, rv),
            texts(worded@) == worded_names(ev, lv, rv),
        decreases (la@.len() - i) + (ra@.len() - j),
    {
        let ghost before = ev;
        let ghost rest = pairing(lk, rk, i as int, j as int);
        if j >= ra.len() || (i < la.len() && text_lt_exec(la[i].0.as_str(), ra[j].0.as_str())) {
            let ghost e = Pairing::OnlyLeft(i as int);
            assert(rest == seq![e] + pairing(lk, rk, i + 1, j as int));
            let name_i = owned(la[i].0.as_str());
            only_left.push(name_i);
            proof {
                ev = before.push(e);
                assert(ev.drop_last() =~= before);
                assert(ev + pairing(lk, rk, i + 1, j as int) =~= before + rest);
            }
            i = i + 1;
        } else if i >= la.len() || text_lt_exec(ra[j].0.as_str(), la[i].0.as_str()) {
            let ghost e = Pairing::OnlyRight(j as int);
            assert(rest == seq![e] + pairing(lk, rk, i as int, j + 1));
            let name_j = owned(ra[j].0.as_str());
            only_right.push(name_j);
            proof {
                ev = before.push(e);
                assert(ev.drop_last() =~= before);
                assert(ev + pairing(lk, rk, i as int, j + 1) =~= before + rest);
            }
            j = j + 1;
        } else {
            let ghost e = Pairing::Both(i as int, j as int);
            assert(rest == seq![e] + pairing(lk, rk, i + 1, j + 1));
            if la[i].1 != ra[j].1 {
                let name_i = owned(la[i].0.as_str());
                differing.push(name_i);
            } else if !str_eq(la[i].2.as_str(), ra[j].2.as_str()) {
                let name_i = owned(la[i].0.as_str());
                worded.push(name_i);
            }
            proof {
                ev = before.push(e);
                assert(ev.drop_last() =~= before);
                assert(ev + pairing(lk, rk, i + 1, j + 1) =~= before + rest);
            }
            i = i + 1;
            j = j + 1;
        }
        proof {
            assert(texts(differing@) =~= differing_names(ev, lv, rv));
            assert(texts(only_left@) =~= left_names(ev, lv));
            assert(texts(only_right@) =~= right_names(ev, rv));
            assert(texts(worded@) =~= worded_names(ev, lv, rv));
        }
    }
    assert(ev =~= pairing(lk, rk, 0, 0));
    let mut out: Vec<Divergence<S>> = Vec::new();
    let lp = l.passed();
    let rp = r.passed();
    if lp != rp {
        out.push(Divergence::Verdict { recipe: owned(name), left: lp, right: rp });
    } else if score_differs {
        out.push(Divergence::Score { recipe: owned(name), left: *l.score(), right: *r.score() });
    }
    if differing.len() > 0 || only_left.len() > 0 || only_right.len() > 0 {
        out.push(Divergence::Assertions { recipe: owned(name), differing, only_left, only_right });
    }
    if detail == DetailMode::Compare && worded.len() > 0 {
        out.push(Divergence::Detail { recipe: owned(name), differing: worded });
    }
    assert(divergence_views(out@) =~= recipe_divergences(name@, l@, r@, detail, score_differs));
    out
}


/// What a comparison of two summaries gives when both have recipes: the
/// divergences of walking the two key lists together, scores judged by
/// `score_differs`.
pub open spec fn compared<S, F: Fn(S, S) -> bool>(
    out: Seq<DivergenceView<S>>,
    left: Seq<(Seq<char>, OutcomeView<S>)>,
    right: Seq<(Seq<char>, OutcomeView<S>)>,
    left_name: Seq<char>,
    right_name: Seq<char>,
    detail: DetailMode,
    score_differs: F,
) -> bool {
    let ev = pairing(keys_of(left), keys_of(right), 0, 0);
    exists|flags: Seq<bool>|
        #[trigger] scores_judged(ev, flags, left, right, score_differs) && out == walk_divergences(
            ev,
            flags,
            left,
            right,
            left_name,
            right_name,
            detail,
        )
}

/// Every way `left` and `right` disagree. A side with no recipes is refused,
/// the left side first. Scores count as different where `score_differs`
/// says so; it is asked only about recipes whose verdicts agree.
pub fn compare_with<S: Copy, F: Fn(S, S) -> bool>(
    left: &RunSummary<S>,
    right: &RunSummary<S>,
    left_name: &str,
    right_name: &str,
    detail: DetailMode,
    score_differs: F,
) -> (r: Result<Vec<Divergence<S>>, ParityError>)
    requires
        forall|a: S, b: S| score_differs.requires((a, b)),
    ensures
        r is Err <==> left@.len() == 0 || right@.len() == 0,
        left@.len() == 0 ==> (r matches Err(ParityError::Empty { side }) && side@ == left_name@),
        left@.len() > 0 && right@.len() == 0 ==> (r matches Err(ParityError::Empty { side })
            && side@ == right_name@),
        r matches Ok(out) ==> compared(
            divergence_views(out@),
            left@,
            right@,
            left_name@,
            right_name@,
            detail,
            score_differs,
        ),
{
    if left.is_empty() {
        return Err(ParityError::Empty { side: owned(left_name) });
    }
    if right.is_empty() {
        return Err(ParityError::Empty { side: owned(right_name) });
    }
    let lr = left.recipes();
    let rr = right.recipes();
    let ghost lv = left@;
    let ghost rv = right@;
    let ghost lk = keys_of(lv);
    let ghost rk = keys_of(rv);
    let mut out: Vec<Divergence<S>> = Vec::new();
    let mut i: usize = 0;
    let mut j: usize = 0;
    let ghost mut ev: Seq<Pairing> = Seq::empty();
    let ghost mut flags: Seq<bool> = Seq::empty();
    assert(divergence_views(out@) =~= Seq::<DivergenceView<S>>::empty());
    while i < lr.len() || j < rr.len()
        invariant
            i <= lr@.len(),
            j <= rr@.len(),
            summary_entries(lr@) == lv,
            summary_entries(rr@) == rv,
            lk == keys_of(lv),
            rk == keys_of(rv),
            forall|a: S, b: S| score_differs.requires((a, b)),
            pairing(lk, rk, 0, 0) == ev + pairing(lk, rk, i as int, j as int),
            scores_judged(ev, flags, lv, rv, score_differs),
            divergence_views(out@) == walk_divergences(
                ev,
                flags,
                lv,
                rv,
                left_name@,
                right_name@,
                detail,
            ),
        decreases (lr@.len() - i) + (rr@.len() - j),
    {
        let ghost before = ev;
        let ghost before_flags = flags;
        let ghost rest = pairing(lk, rk, i as int, j as int);
        let ghost e: Pairing;
        let ghost flag: bool;
        if j >= rr.len() || (i < lr.len() && text_lt_exec(lr[i].0.as_str(), rr[j].0.as_str())) {
            proof {
                e = Pairing::OnlyLeft(i as int);
                flag = false;
            }
            assert(rest == seq![e] + pairing(lk, rk, i + 1, j as int));
            out.push(Divergence::OnlyIn { recipe: owned(lr[i].0.as_str()), side: owned(left_name) });
            proof {
                assert(ev + seq![e] + pairing(lk, rk, i + 1, j as int) =~= before + rest);
            }
            i = i + 1;
        } else if i >= lr.len() || text_lt_exec(rr[j].0.as_str(), lr[i].0.as_str()) {
            proof {
                e = Pairing::OnlyRight(j as int);
                flag = false;
            }
            assert(rest == seq![e] + pairing(lk, rk, i as int, j + 1));
            out.push(
                Divergence::OnlyIn { recipe: owned(rr[j].0.as_str()), side: owned(right_name) },
            );
            proof {
                assert(ev + seq![e] + pairing(lk, rk, i as int, j + 1) =~= before + rest);
            }
            j = j + 1;
        } else {
            assert(rest == seq![Pairing::Both(i as int, j as int)] + pairing(lk, rk, i + 1, j + 1));
            let lo = &lr[i].1;
            let ro = &rr[j].1;
            let differs = if lo.passed() == ro.passed() {
                score_differs(*lo.score(), *ro.score())
            } else {
                false
            };
            proof {
                e = Pairing::Both(i as int, j as int);
                flag = differs;
            }
            let more = compare_one(lr[i].0.as_str(), lo, ro, detail, differs);
            push_all(&mut out, more);
            proof {
                assert(ev + seq![e] + pairing(lk, rk, i + 1, j + 1) =~= before + rest);
            }
            i = i + 1;
            j = j + 1;
        }
        proof {
            ev = before.push(e);
            flags = before_flags.push(flag);
            assert(ev.drop_last() =~= before);
            assert(flags.drop_last() =~= before_flags);
            assert(ev + pairing(lk, rk, i as int, j as int) =~= before + rest);
            assert(divergence_views(out@) =~= walk_divergences(
                ev,
                flags,
                lv,
                rv,
                left_name@,
                right_name@,
                detail,
            ));
            assert forall|k: int| 0 <= k < ev.len() implies match #[trigger] ev[k] {
                Pairing::Both(a, b) => lv[a].1.passed == rv[b].1.passed ==> score_differs.ensures(
                    (lv[a].1.score, rv[b].1.score),
                    flags[k],
                ),
                _ => true,
            } by {
                if k < before.len() {
                    assert(ev[k] == before[k]);
                    assert(flags[k] == before_flags[k]);
                }
            }
        }
    }
    assert(ev =~= pairing(lk, rk, 0, 0));
    Ok(out)
}

/// Every way `left` and `right` disagree, ignoring diagnostic wording.
pub fn compare<S: Copy, F: Fn(S, S) -> bool>(
    left: &RunSummary<S>,
    right: &RunSummary<S>,
    left_name: &str,
    right_name: &str,
    score_differs: F,
) -> (r: Result<Vec<Divergence<S>>, ParityError>)
    requires
        forall|a: S, b: S| score_differs.requires((a, b)),
    ensures
        r is Err <==> left@.len() == 0 || right@.len() == 0,
        left@.len() == 0 ==> (r matches Err(ParityError::Empty { side }) && side@ == left_name@),
        left@.len() > 0 && right@.len() == 0 ==> (r matches Err(ParityError::Empty { side })
            && side@ == right_name@),
        r matches Ok(out) ==> compared(
            divergence_views(out@),
            left@,
            right@,
            left_name@,
            right_name@,
            DetailMode::Ignore,
            score_differs,
        ),
{
    compare_with(left, right, left_name, right_name, DetailMode::Ignore, score_differs)
}

/// `compare`, also reporting assertions whose detail differs.
pub fn compare_detail<S: Copy, F: Fn(S, S) -> bool>(
    left: &RunSummary<S>,
    right: &RunSummary<S>,
    left_name: &str,
    right_name: &str,
    score_differs: F,
) -> (r: Result<Vec<Divergence<S>>, ParityError>)
    requires
        forall|a: S, b: S| score_differs.requires((a, b)),
    ensures
        r is Err <==> left@.len() == 0 || right@.len() == 0,
        left@.len() == 0 ==> (r matches Err(ParityError::Empty { side }) && side@ == left_name@),
        left@.len() > 0 && right@.len() == 0 ==> (r matches Err(ParityError::Empty { side })
            && side@ == right_name@),
        r matches Ok(out) ==> compared(
            divergence_views(out@),
            left@,
            right@,
            left_name@,
            right_name@,
            DetailMode::Compare,
            score_differs,
        ),
{
    compare_with(left, right, left_name, right_name, DetailMode::Compare, score_differs)
}


// ---------------------------------------------------------------------------
// The report
// ---------------------------------------------------------------------------

/// Names in backticks, separated by `, `.
pub open spec fn backticked(names: Seq<Seq<char>>) -> Seq<char> {
    join(Seq::new(names.len(), |i: int| "`"@ + names[i] + "`"@), ", "@)
}

/// `PASS` or `FAIL`.
pub open spec fn verdict_word(passed: bool) -> Seq<char> {
    if passed {
        "PASS"@
    } else {
        "FAIL"@
    }
}

/// `text` followed by a newline, or nothing when `names` is empty.
pub open spec fn name_list_line(label: Seq<char>, names: Seq<Seq<char>>) -> Seq<char> {
    if names.len() == 0 {
        Seq::empty()
    } else {
        "  - "@ + label + backticked(names) + "\n"@
    }
}

/// The report's line (or lines) for one divergence, scores already written
/// out as text.
pub open spec fn divergence_line(
    d: DivergenceView<String>,
    left_name: Seq<char>,
    right_name: Seq<char>,
) -> Seq<char> {
    match d {
        DivergenceView::OnlyIn { recipe, side } => "- `"@ + recipe + "` \u{2014} ran only in `"@ + side
            + "`"@,
        DivergenceView::Verdict { recipe, left, right } => "- `"@ + recipe
            + "` \u{2014} **verdict differs**: `"@ + left_name + "` "@ + verdict_word(left) + ", `"@
            + right_name + "` "@ + verdict_word(right),
        DivergenceView::Score { recipe, left, right } => "- `"@ + recipe
            + "` \u{2014} same verdict, score "@ + left@ + " vs "@ + right@,
        DivergenceView::Assertions { recipe, differing, only_left, only_right } => trim_end(
            "- `"@ + recipe + "` \u{2014} assertion differences:\n"@ + name_list_line(
                "disagree: "@,
                differing,
            ) + name_list_line("only in `"@ + left_name + "`: "@, only_left) + name_list_line(
                "only in `"@ + right_name + "`: "@,
                only_right,
            ),
        ),
        DivergenceView::Detail { recipe, differing } => "- `"@ + recipe
            + "` \u{2014} same verdicts, different wording: "@ + backticked(differing),
    }
}

/// The markdown report of a comparison: a heading, then either a sentence
/// saying the two sides agree or a count followed by one entry per
/// divergence.
pub open spec fn report(
    divergences: Seq<DivergenceView<String>>,
    left_name: Seq<char>,
    right_name: Seq<char>,
) -> Seq<char> {
    let head = seq!["# Parity report"@, Seq::<char>::empty()];
    if divergences.len() == 0 {
        join(
            head + seq![
                "`"@ + left_name + "` and `"@ + right_name + "` agree on every recipe."@,
                Seq::<char>::empty(),
            ],
            "\n"@,
        )
    } else {
        join(
            head + seq![
                "**"@ + decimal(divergences.len()) + " divergence(s)** between `"@ + left_name
                    + "` and `"@ + right_name + "`."@,
                Seq::<char>::empty(),
            ] + Seq::new(
                divergences.len(),
                |i: int| divergence_line(divergences[i], left_name, right_name),
            ) + seq![Seq::<char>::empty()],
            "\n"@,
        )
    }
}

fn append_text(v: &mut Vec<char>, s: &str)
    ensures
        final(v)@ == old(v)@ + s@,
{
    let mut c = chars_of(s);
    let ghost a = v@;
    let ghost b = c@;
    v.append(&mut c);
    assert(v@ =~= a + b);
}

fn add_backticked(v: &mut Vec<char>, names: &Vec<String>)
    ensures
        final(v)@ == old(v)@ + backticked(texts(names@)),
{
    let mut pieces: Vec<Vec<char>> = Vec::new();
    let ghost want = Seq::new(names@.len(), |i: int| "`"@ + names@[i]@ + "`"@);
    let mut k: usize = 0;
    while k < names.len()
        invariant
            k <= names@.len(),
            want == Seq::new(names@.len(), |i: int| "`"@ + names@[i]@ + "`"@),
            views(pieces@) == want.take(k as int),
        decreases names@.len() - k,
    {
        let mut piece: Vec<char> = Vec::new();
        append_text(&mut piece, "`");
        append_text(&mut piece, names[k].as_str());
        append_text(&mut piece, "`");
        proof {
            lemma_views_push(pieces@, piece);
        }
        pieces.push(piece);
        assert(views(pieces@) =~= want.take(k + 1));
        k = k + 1;
    }
    assert(want.take(names@.len() as int) =~= want);
    assert(want =~= Seq::new(texts(names@).len(), |i: int| "`"@ + texts(names@)[i] + "`"@));
    let sep = chars_of(", ");
    let mut joined = join_chars(&pieces, sep.as_slice());
    let ghost a = v@;
    let ghost b = joined@;
    v.append(&mut joined);
    assert(v@ =~= a + b);
}

fn add_name_list(v: &mut Vec<char>, label_head: &str, label_name: &str, label_tail: &str, names: &Vec<String>)
    ensures
        final(v)@ == old(v)@ + name_list_line(label_head@ + label_name@ + label_tail@, texts(names@)),
{
    if names.len() == 0 {
        assert(old(v)@ + name_list_line(label_head@ + label_name@ + label_tail@, texts(names@)) =~= v@);
        return;
    }
    let ghost start = v@;
    append_text(v, "  - ");
    append_text(v, label_head);
    append_text(v, label_name);
    append_text(v, label_tail);
    add_backticked(v, names);
    append_text(v, "\n");
    assert(v@ =~= start + name_list_line(label_head@ + label_name@ + label_tail@, texts(names@)));
}

fn divergence_text(d: &Divergence<String>, left_name: &str, right_name: &str) -> (t: Vec<char>)
    ensures
        t@ == divergence_line(d@, left_name@, right_name@),
{
    let mut v: Vec<char> = Vec::new();
    match d {
        Divergence::OnlyIn { recipe, side } => {
            append_text(&mut v, "- `");
            append_text(&mut v, recipe.as_str());
            append_text(&mut v, "` \u{2014} ran only in `");
            append_text(&mut v, side.as_str());
            append_text(&mut v, "`");
            assert(v@ =~= divergence_line(d@, left_name@, right_name@));
            v
        },
        Divergence::Verdict { recipe, left, right } => {
            append_text(&mut v, "- `");
            append_text(&mut v, recipe.as_str());
            append_text(&mut v, "` \u{2014} **verdict differs**: `");
            append_text(&mut v, left_name);
            append_text(&mut v, "` ");
            append_text(&mut v, if *left { "PASS" } else { "FAIL" });
            append_text(&mut v, ", `");
            append_text(&mut v, right_name);
            append_text(&mut v, "` ");
            append_text(&mut v, if *right { "PASS" } else { "FAIL" });
            assert(v@ =~= divergence_line(d@, left_name@, right_name@));
            v
        },
        Divergence::Score { recipe, left, right } => {
            append_text(&mut v, "- `");
            append_text(&mut v, recipe.as_str());
            append_text(&mut v, "` \u{2014} same verdict, score ");
            append_text(&mut v, left.as_str());
            append_text(&mut v, " vs ");
            append_text(&mut v, right.as_str());
            assert(v@ =~= divergence_line(d@, left_name@, right_name@));
            v
        },
        Divergence::Assertions { recipe, differing, only_left, only_right } => {
            append_text(&mut v, "- `");
            append_text(&mut v, recipe.as_str());
            append_text(&mut v, "` \u{2014} assertion differences:\n");
            add_name_list(&mut v, "disagree: ", "", "", differing);
            add_name_list(&mut v, "only in `", left_name, "`: ", only_left);
            add_name_list(&mut v, "only in `", right_name, "`: ", only_right);
            let t = trim_end_chars(v.as_slice());
            proof {
                reveal_strlit("");
            }
            assert("disagree: "@ + ""@ + ""@ =~= "disagree: "@);
            assert(t@ =~= divergence_line(d@, left_name@, right_name@));
            t
        },
        Divergence::Detail { recipe, differing } => {
            append_text(&mut v, "- `");
            append_text(&mut v, recipe.as_str());
            append_text(&mut v, "` \u{2014} same verdicts, different wording: ");
            add_backticked(&mut v, differing);
            assert(v@ =~= divergence_line(d@, left_name@, right_name@));
            v
        },
    }
}

/// Render divergences, their scores already written out, as markdown.
pub fn render(divergences: &[Divergence<String>], left_name: &str, right_name: &str) -> (s: String)
    ensures
        s@ == report(divergence_views(divergences@), left_name@, right_name@),
{
    let mut lines: Vec<Vec<char>> = Vec::new();
    lines.push(chars_of("# Parity report"));
    lines.push(Vec::new());
    let ghost head = seq!["# Parity report"@, Seq::<char>::empty()];
    assert(views(lines@) =~= head);
    if divergences.len() == 0 {
        let mut sentence: Vec<char> = Vec::new();
        append_text(&mut sentence, "`");
        append_text(&mut sentence, left_name);
        append_text(&mut sentence, "` and `");
        append_text(&mut sentence, right_name);
        append_text(&mut sentence, "` agree on every recipe.");
        lines.push(sentence);
        lines.push(Vec::new());
        let sep = chars_of("\n");
        let out = join_chars(&lines, sep.as_slice());
        assert(views(lines@) =~= head + seq![
            "`"@ + left_name@ + "` and `"@ + right_name@ + "` agree on every recipe."@,
            Seq::<char>::empty(),
        ]);
        return string_of(out.as_slice());
    }
    let mut count: Vec<char> = Vec::new();
    append_text(&mut count, "**");
    push_decimal(&mut count, divergences.len() as u64);
    append_text(&mut count, " divergence(s)** between `");
    append_text(&mut count, left_name);
    append_text(&mut count, "` and `");
    append_text(&mut count, right_name);
    append_text(&mut count, "`.");
    lines.push(count);
    lines.push(Vec::new());
    let ghost dv = divergence_views(divergences@);
    let ghost top = head + seq![
        "**"@ + decimal(dv.len()) + " divergence(s)** between `"@ + left_name@ + "` and `"@
            + right_name@ + "`."@,
        Seq::<char>::empty(),
    ];
    let ghost body = Seq::new(dv.len(), |i: int| divergence_line(dv[i], left_name@, right_name@));
    assert(views(lines@) =~= top);
    let mut k: usize = 0;
    while k < divergences.len()
        invariant
            k <= divergences@.len(),
            dv == divergence_views(divergences@),
            body == Seq::new(dv.len(), |i: int| divergence_line(dv[i], left_name@, right_name@)),
            views(lines@) == top + body.take(k as int),
        decreases divergences@.len() - k,
    {
        let line = divergence_text(&divergences[k], left_name, right_name);
        proof {
            lemma_views_push(lines@, line);
        }
        lines.push(line);
        assert(views(lines@) =~= top + body.take(k + 1));
        k = k + 1;
    }
    lines.push(Vec::new());
    assert(body.take(dv.len() as int) =~= body);
    assert(views(lines@) =~= top + body + seq![Seq::<char>::empty()]);
    let sep = chars_of("\n");
    let out = join_chars(&lines, sep.as_slice());
    string_of(out.as_slice())
}


// ---------------------------------------------------------------------------
// Laws
// ---------------------------------------------------------------------------

/// Walking a key list against itself pairs every key with itself.
proof fn lemma_pairing_with_itself(k: Seq<Seq<char>>, i: int)
    requires
        0 <= i <= k.len(),
    ensures
        pairing(k, k, i, i) == Seq::new((k.len() - i) as nat, |m: int| Pairing::Both(i + m, i + m)),
    decreases k.len() - i,
{
    if i < k.len() {
        lemma_text_lt_irreflexive(k[i]);
        lemma_pairing_with_itself(k, i + 1);
        assert(pairing(k, k, i, i) =~= Seq::new(
            (k.len() - i) as nat,
            |m: int| Pairing::Both(i + m, i + m),
        ));
    } else {
        assert(pairing(k, k, i, i) =~= Seq::new(0, |m: int| Pairing::Both(i + m, i + m)));
    }
}

proof fn lemma_no_names_against_itself(n: nat, a: Seq<(Seq<char>, (bool, Seq<char>))>)
    ensures
        differing_names(Seq::new(n, |m: int| Pairing::Both(m, m)), a, a).len() == 0,
        worded_names(Seq::new(n, |m: int| Pairing::Both(m, m)), a, a).len() == 0,
        left_names(Seq::new(n, |m: int| Pairing::Both(m, m)), a).len() == 0,
        right_names(Seq::new(n, |m: int| Pairing::Both(m, m)), a).len() == 0,
    decreases n,
{
    if n > 0 {
        let ev = Seq::new(n, |m: int| Pairing::Both(m, m));
        assert(ev.drop_last() =~= Seq::new((n - 1) as nat, |m: int| Pairing::Both(m, m)));
        lemma_no_names_against_itself((n - 1) as nat, a);
    }
}

/// A summary compared with itself agrees, in either detail mode, as long as
/// the score predicate never calls a score different from itself.
pub proof fn lemma_a_summary_agrees_with_itself<S, F: Fn(S, S) -> bool>(
    s: Seq<(Seq<char>, OutcomeView<S>)>,
    left_name: Seq<char>,
    right_name: Seq<char>,
    detail: DetailMode,
    score_differs: F,
    out: Seq<DivergenceView<S>>,
)
    requires
        forall|a: S, r: bool| score_differs.ensures((a, a), r) ==> !r,
        compared(out, s, s, left_name, right_name, detail, score_differs),
    ensures
        out.len() == 0,
{
    let k = keys_of(s);
    lemma_pairing_with_itself(k, 0);
    let ev = pairing(k, k, 0, 0);
    assert(ev =~= Seq::new(s.len(), |m: int| Pairing::Both(m, m)));
    let flags = choose|flags: Seq<bool>|
        #[trigger] scores_judged(ev, flags, s, s, score_differs) && out == walk_divergences(
            ev,
            flags,
            s,
            s,
            left_name,
            right_name,
            detail,
        );
    assert forall|e: int| 0 <= e < s.len() implies score_differs.ensures(
        (s[e].1.score, s[e].1.score),
        #[trigger] flags[e],
    ) by {
        assert(ev[e] == Pairing::Both(e, e));
    }
    assert(flags.take(s.len() as int) =~= flags);
    lemma_walk_against_itself(s.len(), flags, s, left_name, right_name, detail, score_differs);
}

proof fn lemma_walk_against_itself<S, F: Fn(S, S) -> bool>(
    n: nat,
    flags: Seq<bool>,
    s: Seq<(Seq<char>, OutcomeView<S>)>,
    left_name: Seq<char>,
    right_name: Seq<char>,
    detail: DetailMode,
    score_differs: F,
)
    requires
        n <= s.len(),
        n <= flags.len(),
        forall|a: S, r: bool| score_differs.ensures((a, a), r) ==> !r,
        forall|e: int| 0 <= e < n ==> score_differs.ensures((s[e].1.score, s[e].1.score), #[trigger] flags[e]),
    ensures
        walk_divergences(
            Seq::new(n, |m: int| Pairing::Both(m, m)),
            flags.take(n as int),
            s,
            s,
            left_name,
            right_name,
            detail,
        ).len() == 0,
    decreases n,
{
    if n > 0 {
        let ev = Seq::new(n, |m: int| Pairing::Both(m, m));
        assert(ev.drop_last() =~= Seq::new((n - 1) as nat, |m: int| Pairing::Both(m, m)));
        assert(flags.take(n as int).drop_last() =~= flags.take(n - 1));
        lemma_walk_against_itself((n - 1) as nat, flags, s, left_name, right_name, detail, score_differs);
        let o = s[n - 1].1;
        let ak = keys_of(o.assertions);
        lemma_pairing_with_itself(ak, 0);
        assert(pairing(ak, ak, 0, 0) =~= Seq::new(o.assertions.len(), |m: int| Pairing::Both(m, m)));
        lemma_no_names_against_itself(o.assertions.len(), o.assertions);
        assert(score_differs.ensures((o.score, o.score), flags[n - 1]));
        assert(!flags.take(n as int).last());
    }
}

/// Wording is ignored by default: comparing without details never reports a
/// detail divergence.
pub proof fn lemma_wording_is_ignored_by_default<S>(
    ev: Seq<Pairing>,
    flags: Seq<bool>,
    left: Seq<(Seq<char>, OutcomeView<S>)>,
    right: Seq<(Seq<char>, OutcomeView<S>)>,
    left_name: Seq<char>,
    right_name: Seq<char>,
    i: int,
)
    requires
        0 <= i < walk_divergences(ev, flags, left, right, left_name, right_name, DetailMode::Ignore).len(),
    ensures
        !(walk_divergences(ev, flags, left, right, left_name, right_name, DetailMode::Ignore)[i] is Detail),
    decreases ev.len(),
{
    if ev.len() > 0 {
        let front = walk_divergences(
            ev.drop_last(),
            flags.drop_last(),
            left,
            right,
            left_name,
            right_name,
            DetailMode::Ignore,
        );
        if i < front.len() {
            lemma_wording_is_ignored_by_default(
                ev.drop_last(),
                flags.drop_last(),
                left,
                right,
                left_name,
                right_name,
                i,
            );
        }
    }
}

} // verus!
