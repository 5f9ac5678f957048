//! What changed between two runs of the same suite: which outcomes flipped.
//!
//! Results are matched on `(recipe name, renderer)`. A recipe present in only
//! one pass is reported as `SKIP` on the missing side: a recipe that stopped
//! running is a real signal, not a gap to hide.
use vstd::prelude::*;
use crate::text::{chars_eq, chars_of, push_str, string_of};

verus! {

broadcast use vstd::string::group_string_axioms;

/// The run passed.
pub const PASS: &'static str = "PASS";

/// The run failed.
pub const FAIL: &'static str = "FAIL";

/// The recipe did not run on this side.
pub const SKIP: &'static str = "SKIP";

/// What a comparison reads of one run: which recipe, under which renderer,
/// and whether it passed.
#[derive(Debug, Clone, PartialEq, Eq)]
pub struct RunOutcome {
    /// Recipe identifier.
    pub recipe_name: String,
    /// Renderer name.
    pub renderer: String,
    /// Overall pass/fail.
    pub passed: bool,
}

/// A run as the comparison sees it: its key and whether it passed.
pub struct OutcomeView {
    pub key: (Seq<char>, Seq<char>),
    pub passed: bool,
}

impl View for RunOutcome {
    type V = OutcomeView;

    open spec fn view(&self) -> OutcomeView {
        OutcomeView { key: (self.recipe_name@, self.renderer@), passed: self.passed }
    }
}

/// One recipe/renderer whose outcome changed.
#[derive(Debug, Clone, PartialEq, Eq)]
pub struct BehaviorDelta {
    /// Recipe name.
    pub recipe: String,
    /// Renderer the recipe ran under.
    pub renderer: String,
    /// `PASS`, `FAIL` or `SKIP` before.
    pub before_outcome: String,
    /// `PASS`, `FAIL` or `SKIP` after.
    pub after_outcome: String,
}

/// A delta as four character sequences.
pub struct DeltaView {
    pub recipe: Seq<char>,
    pub renderer: Seq<char>,
    pub before_outcome: Seq<char>,
    pub after_outcome: Seq<char>,
}

impl View for BehaviorDelta {
    type V = DeltaView;

    open spec fn view(&self) -> DeltaView {
        DeltaView {
            recipe: self.recipe@,
            renderer: self.renderer@,
            before_outcome: self.before_outcome@,
            after_outcome: self.after_outcome@,
        }
    }
}

impl BehaviorDelta {
    /// One line a reader can follow without context:
    /// `recipe [renderer]: BEFORE -> AFTER`.
    pub fn explanation(&self) -> (s: String)
        ensures
            s@ == self.recipe@ + " ["@ + self.renderer@ + "]: "@ + self.before_outcome@ + " -> "@
                + self.after_outcome@,
    {
        let mut s = String::new();
        push_str(&mut s, self.recipe.as_str());
        push_str(&mut s, " [");
        push_str(&mut s, self.renderer.as_str());
        push_str(&mut s, "]: ");
        push_str(&mut s, self.before_outcome.as_str());
        push_str(&mut s, " -> ");
        push_str(&mut s, self.after_outcome.as_str());
        s
    }
}

/// The keys of `runs`, in order.
pub open spec fn keys_of(runs: Seq<OutcomeView>) -> Seq<(Seq<char>, Seq<char>)> {
    Seq::new(runs.len(), |i: int| runs[i].key)
}

/// The keys to report on: those of `before` in order, then those of `after`
/// (in order, repeats included) that `before` does not have.
pub open spec fn ordered_keys(before: Seq<OutcomeView>, after: Seq<OutcomeView>) -> Seq<(Seq<char>, Seq<char>)> {
    keys_of(before) + keys_of(after).filter(|k: (Seq<char>, Seq<char>)| !keys_of(before).contains(k))
}

/// The outcome of the first run in `runs` with key `k`: `PASS` or `FAIL`,
/// or `SKIP` when none has it.
pub open spec fn outcome_for(runs: Seq<OutcomeView>, k: (Seq<char>, Seq<char>)) -> Seq<char>
    decreases runs.len(),
{
    if runs.len() == 0 {
        SKIP@
    } else if runs[0].key == k {
        if runs[0].passed { PASS@ } else { FAIL@ }
    } else {
        outcome_for(runs.drop_first(), k)
    }
}

/// The deltas for `keys`, in order: one for each key whose outcome differs
/// between `before` and `after`.
pub open spec fn deltas_for(
    keys: Seq<(Seq<char>, Seq<char>)>,
    before: Seq<OutcomeView>,
    after: Seq<OutcomeView>,
) -> Seq<DeltaView>
    decreases keys.len(),
{
    if keys.len() == 0 {
        Seq::<DeltaView>::empty()
    } else {
        let k = keys.last();
        let b = outcome_for(before, k);
        let a = outcome_for(after, k);
        deltas_for(keys.drop_last(), before, after) + if b != a {
            seq![DeltaView { recipe: k.0, renderer: k.1, before_outcome: b, after_outcome: a }]
        } else {
            Seq::<DeltaView>::empty()
        }
    }
}

/// The views of a list of runs.
pub open spec fn outcomes_view(runs: Seq<RunOutcome>) -> Seq<OutcomeView> {
    Seq::new(runs.len(), |i: int| runs[i]@)
}

/// The views of a list of deltas.
pub open spec fn deltas_view(deltas: Seq<BehaviorDelta>) -> Seq<DeltaView> {
    Seq::new(deltas.len(), |i: int| deltas[i]@)
}

fn same_key(a: &RunOutcome, recipe: &[char], renderer: &[char]) -> (r: bool)
    ensures
        r == (a@.key == (recipe@, renderer@)),
{
    let x = chars_of(a.recipe_name.as_str());
    let y = chars_of(a.renderer.as_str());
    chars_eq(x.as_slice(), recipe) && chars_eq(y.as_slice(), renderer)
}

fn outcome_exec(runs: &[RunOutcome], recipe: &[char], renderer: &[char]) -> (r: &'static str)
    ensures
        r@ == outcome_for(outcomes_view(runs@), (recipe@, renderer@)),
{
    let ghost all = outcomes_view(runs@);
    let ghost k = (recipe@, renderer@);
    let mut i: usize = 0;
    assert(all.skip(0) =~= all);
    while i < runs.len()
        invariant
            all == outcomes_view(runs@),
            k == (recipe@, renderer@),
            i <= runs@.len(),
            outcome_for(all, k) == outcome_for(all.skip(i as int), k),
        decreases runs@.len() - i,
    {
        assert(all.skip(i as int)[0] == runs@[i as int]@);
        assert(all.skip(i as int).drop_first() =~= all.skip(i + 1));
        if same_key(&runs[i], recipe, renderer) {
            return if runs[i].passed { PASS } else { FAIL };
        }
        i += 1;
    }
    assert(all.skip(i as int) =~= Seq::<OutcomeView>::empty());
    SKIP
}

fn key_in(runs: &[RunOutcome], recipe: &[char], renderer: &[char]) -> (r: bool)
    ensures
        r == keys_of(outcomes_view(runs@)).contains((recipe@, renderer@)),
{
    let ghost ks = keys_of(outcomes_view(runs@));
    let mut i: usize = 0;
    while i < runs.len()
        invariant
            ks == keys_of(outcomes_view(runs@)),
            i <= runs@.len(),
            forall|j: int| 0 <= j < i ==> ks[j] != (recipe@, renderer@),
        decreases runs@.len() - i,
    {
        if same_key(&runs[i], recipe, renderer) {
            assert(ks[i as int] == (recipe@, renderer@));
            return true;
        }
        i += 1;
    }
    false
}

fn push_delta_for(
    deltas: &mut Vec<BehaviorDelta>,
    recipe: &[char],
    renderer: &[char],
    before: &[RunOutcome],
    after: &[RunOutcome],
)
    ensures
        deltas_view(final(deltas)@) == deltas_view(old(deltas)@) + deltas_for(
            seq![(recipe@, renderer@)],
            outcomes_view(before@),
            outcomes_view(after@),
        ),
{
    let b = outcome_exec(before, recipe, renderer);
    let a = outcome_exec(after, recipe, renderer);
    let ghost k = (recipe@, renderer@);
    let ghost one = seq![k];
    assert(one.drop_last() =~= Seq::<(Seq<char>, Seq<char>)>::empty());
    assert(one.last() == k);
    assert(deltas_for(one.drop_last(), outcomes_view(before@), outcomes_view(after@)) =~= Seq::<
        DeltaView,
    >::empty());
    if !crate::text::str_eq(b, a) {
        let d = BehaviorDelta {
            recipe: string_of(recipe),
            renderer: string_of(renderer),
            before_outcome: b.to_owned(),
            after_outcome: a.to_owned(),
        };
        let ghost old_d = deltas@;
        deltas.push(d);
        assert(deltas_view(deltas@) =~= deltas_view(old_d) + deltas_for(
            one,
            outcomes_view(before@),
            outcomes_view(after@),
        ));
    } else {
        assert(deltas_view(deltas@) =~= deltas_view(deltas@) + deltas_for(
            one,
            outcomes_view(before@),
            outcomes_view(after@),
        ));
    }
}

proof fn lemma_deltas_for_append(
    keys: Seq<(Seq<char>, Seq<char>)>,
    more: Seq<(Seq<char>, Seq<char>)>,
    before: Seq<OutcomeView>,
    after: Seq<OutcomeView>,
)
    ensures
        deltas_for(keys + more, before, after) == deltas_for(keys, before, after) + deltas_for(more, before, after),
    decreases more.len(),
{
    if more.len() == 0 {
        assert(keys + more =~= keys);
        assert(deltas_for(keys, before, after) + deltas_for(more, before, after) =~= deltas_for(keys, before, after));
    } else {
        lemma_deltas_for_append(keys, more.drop_last(), before, after);
        assert((keys + more).drop_last() =~= keys + more.drop_last());
        assert(deltas_for(keys, before, after) + deltas_for(more.drop_last(), before, after) + (deltas_for(more, before, after).skip(deltas_for(more.drop_last(), before, after).len() as int)) =~= deltas_for(keys, before, after) + deltas_for(more, before, after));
    }
}

/// The outcome changes from `before` to `after`, matched by
/// `(recipe_name, renderer)`. Ordering follows `before`, with recipes that
/// appear only in `after` appended, so a report reads in a stable order.
pub fn compute_deltas(before: &[RunOutcome], after: &[RunOutcome]) -> (deltas: Vec<BehaviorDelta>)
    ensures
        deltas_view(deltas@) == deltas_for(
            ordered_keys(outcomes_view(before@), outcomes_view(after@)),
            outcomes_view(before@),
            outcomes_view(after@),
        ),
{
    let ghost bv = outcomes_view(before@);
    let ghost av = outcomes_view(after@);
    let ghost bk = keys_of(bv);
    let ghost ak = keys_of(av);
    let ghost keep = |k: (Seq<char>, Seq<char>)| !bk.contains(k);
    let mut deltas: Vec<BehaviorDelta> = Vec::new();
    let mut i: usize = 0;
    assert(deltas_view(deltas@) =~= deltas_for(bk.take(0), bv, av));
    while i < before.len()
        invariant
            bv == outcomes_view(before@),
            av == outcomes_view(after@),
            bk == keys_of(bv),
            i <= before@.len(),
            deltas_view(deltas@) == deltas_for(bk.take(i as int), bv, av),
        decreases before@.len() - i,
    {
        let recipe = chars_of(before[i].recipe_name.as_str());
        let renderer = chars_of(before[i].renderer.as_str());
        push_delta_for(&mut deltas, recipe.as_slice(), renderer.as_slice(), before, after);
        proof {
            lemma_deltas_for_append(bk.take(i as int), seq![bk[i as int]], bv, av);
            assert(bk.take(i as int) + seq![bk[i as int]] =~= bk.take(i + 1));
        }
        i += 1;
    }
    assert(bk.take(before@.len() as int) =~= bk);
    let mut j: usize = 0;
    proof { reveal(Seq::filter); }
    assert(ak.take(0).filter(keep) =~= Seq::<(Seq<char>, Seq<char>)>::empty());
    assert(bk + ak.take(0).filter(keep) =~= bk);
    while j < after.len()
        invariant
            bv == outcomes_view(before@),
            av == outcomes_view(after@),
            bk == keys_of(bv),
            ak == keys_of(av),
            keep == (|k: (Seq<char>, Seq<char>)| !bk.contains(k)),
            j <= after@.len(),
            deltas_view(deltas@) == deltas_for(bk + ak.take(j as int).filter(keep), bv, av),
        decreases after@.len() - j,
    {
        let recipe = chars_of(after[j].recipe_name.as_str());
        let renderer = chars_of(after[j].renderer.as_str());
        let ghost t = ak.take(j + 1);
        assert(t.drop_last() =~= ak.take(j as int));
        assert(t.last() == ak[j as int]);
        assert(ak[j as int] == (recipe@, renderer@));
        proof { reveal(Seq::filter); }
        if !key_in(before, recipe.as_slice(), renderer.as_slice()) {
            push_delta_for(&mut deltas, recipe.as_slice(), renderer.as_slice(), before, after);
            proof {
                lemma_deltas_for_append(bk + ak.take(j as int).filter(keep), seq![ak[j as int]], bv, av);
                assert(bk + ak.take(j as int).filter(keep) + seq![ak[j as int]] =~= bk + t.filter(keep));
            }
        } else {
            assert(t.filter(keep) == ak.take(j as int).filter(keep));
        }
        j += 1;
    }
    assert(ak.take(after@.len() as int) =~= ak);
    deltas
}

/// Comparing a run with itself reports nothing.
pub proof fn lemma_identical_runs_have_no_deltas(runs: Seq<OutcomeView>)
    ensures
        deltas_for(ordered_keys(runs, runs), runs, runs).len() == 0,
{
    lemma_no_deltas_when_same(ordered_keys(runs, runs), runs);
}

proof fn lemma_no_deltas_when_same(keys: Seq<(Seq<char>, Seq<char>)>, runs: Seq<OutcomeView>)
    ensures
        deltas_for(keys, runs, runs).len() == 0,
    decreases keys.len(),
{
    if keys.len() > 0 {
        lemma_no_deltas_when_same(keys.drop_last(), runs);
    }
}

/// Every reported delta is a real change: its two outcomes differ.
pub proof fn lemma_every_delta_is_a_change(
    keys: Seq<(Seq<char>, Seq<char>)>,
    before: Seq<OutcomeView>,
    after: Seq<OutcomeView>,
)
    ensures
        forall|i: int|
            0 <= i < deltas_for(keys, before, after).len() ==> (#[trigger] deltas_for(keys, before, after)[i]).before_outcome
                != deltas_for(keys, before, after)[i].after_outcome,
    decreases keys.len(),
{
    if keys.len() > 0 {
        lemma_every_delta_is_a_change(keys.drop_last(), before, after);
        let prev = deltas_for(keys.drop_last(), before, after);
        let all = deltas_for(keys, before, after);
        assert forall|i: int| 0 <= i < all.len() implies (#[trigger] all[i]).before_outcome != all[i].after_outcome by {
            if i < prev.len() {
                assert(all[i] == prev[i]);
            }
        }
    }
}


/// The markdown section for a list of deltas: one bullet per delta, or a
/// sentence saying outright that nothing changed.
pub open spec fn deltas_markdown_spec(deltas: Seq<DeltaView>) -> Seq<char> {
    if deltas.len() == 0 {
        "**Behavioral deltas:** none \u{2014} before/after outcomes match.\n"@
    } else {
        crate::text::join(
            seq!["**Behavioral deltas:**"@, Seq::<char>::empty()] + Seq::new(
                deltas.len(),
                |i: int|
                    "- "@ + deltas[i].recipe + " ["@ + deltas[i].renderer + "]: "@ + deltas[i].before_outcome
                        + " -> "@ + deltas[i].after_outcome,
            ),
            seq!['\n'],
        ) + "\n"@
    }
}

/// A before/after comparison: both passes and the outcomes that differ.
#[derive(Debug, Clone, PartialEq, Eq)]
pub struct BeforeAfterResult {
    /// The baseline pass.
    pub before: Vec<RunOutcome>,
    /// The candidate pass.
    pub after: Vec<RunOutcome>,
    /// Outcomes that differ, in `before` order then new arrivals.
    pub deltas: Vec<BehaviorDelta>,
}

impl BeforeAfterResult {
    /// The deltas as markdown; says "none" outright rather than emitting
    /// nothing, since an empty section and a missing one look alike.
    pub fn to_markdown(&self) -> (s: String)
        ensures
            s@ == deltas_markdown_spec(deltas_view(self.deltas@)),
    {
        if self.deltas.len() == 0 {
            return crate::text::owned("**Behavioral deltas:** none \u{2014} before/after outcomes match.\n");
        }
        let ghost dv = deltas_view(self.deltas@);
        let ghost bullets = Seq::new(
            dv.len(),
            |i: int|
                "- "@ + dv[i].recipe + " ["@ + dv[i].renderer + "]: "@ + dv[i].before_outcome + " -> "@
                    + dv[i].after_outcome,
        );
        let mut lines: Vec<Vec<char>> = Vec::new();
        lines.push(chars_of("**Behavioral deltas:**"));
        lines.push(Vec::new());
        assert(crate::text::views(lines@) =~= seq!["**Behavioral deltas:**"@, Seq::<char>::empty()]);
        let mut i: usize = 0;
        while i < self.deltas.len()
            invariant
                dv == deltas_view(self.deltas@),
                bullets == Seq::new(
                    dv.len(),
                    |i: int|
                        "- "@ + dv[i].recipe + " ["@ + dv[i].renderer + "]: "@ + dv[i].before_outcome
                            + " -> "@ + dv[i].after_outcome,
                ),
                i <= dv.len(),
                crate::text::views(lines@) == seq!["**Behavioral deltas:**"@, Seq::<char>::empty()]
                    + bullets.take(i as int),
            decreases dv.len() - i,
        {
            let mut line = crate::text::owned("- ");
            push_str(&mut line, self.deltas[i].explanation().as_str());
            let l = chars_of(line.as_str());
            assert(l@ == bullets[i as int]);
            proof { crate::text::lemma_views_push(lines@, l); }
            lines.push(l);
            assert(bullets.take(i as int).push(bullets[i as int]) =~= bullets.take(i + 1));
            i += 1;
        }
        assert(bullets.take(dv.len() as int) =~= bullets);
        let joined = crate::text::join_chars(&lines, &['\n']);
        assert(['\n']@ =~= seq!['\n']);
        let mut s = string_of(joined.as_slice());
        push_str(&mut s, "\n");
        s
    }
}

/// Assemble a comparison with its deltas computed.
pub fn build_before_after(before: Vec<RunOutcome>, after: Vec<RunOutcome>) -> (r: BeforeAfterResult)
    ensures
        r.before@ == before@,
        r.after@ == after@,
        deltas_view(r.deltas@) == deltas_for(
            ordered_keys(outcomes_view(before@), outcomes_view(after@)),
            outcomes_view(before@),
            outcomes_view(after@),
        ),
{
    let deltas = compute_deltas(before.as_slice(), after.as_slice());
    BeforeAfterResult { before, after, deltas }
}

} // verus!
