//! Planning a run: every recipe under every renderer, in a deterministic
//! order that does not depend on how the files were listed.
use vstd::prelude::*;
use crate::text::{
    lemma_string_seqs_push, lemma_text_lt_asymmetric, lemma_text_lt_irreflexive, lemma_text_lt_total,
    lemma_text_lt_transitive, string_seqs, text_lt, text_lt_exec,
};

verus! {

broadcast use vstd::string::group_string_axioms;

/// One unit of work: a recipe file under one renderer.
#[derive(Debug, Clone, PartialEq, Eq)]
pub struct PlanItem {
    /// Recipe file path.
    pub recipe_path: String,
    /// Recipe name.
    pub recipe_name: String,
    /// Renderer name.
    pub renderer: String,
    /// Extra argv for the renderer.
    pub renderer_argv: Vec<String>,
}

/// What a plan item holds.
pub struct PlanItemView {
    pub recipe_path: Seq<char>,
    pub recipe_name: Seq<char>,
    pub renderer: Seq<char>,
    pub renderer_argv: Seq<Seq<char>>,
}

impl View for PlanItem {
    type V = PlanItemView;

    open spec fn view(&self) -> PlanItemView {
        PlanItemView {
            recipe_path: self.recipe_path@,
            recipe_name: self.recipe_name@,
            renderer: self.renderer@,
            renderer_argv: string_seqs(self.renderer_argv@),
        }
    }
}

/// Plan items sort by recipe name, then renderer.
pub open spec fn item_lt(a: PlanItemView, b: PlanItemView) -> bool {
    text_lt(a.recipe_name, b.recipe_name) || (a.recipe_name == b.recipe_name && text_lt(
        a.renderer,
        b.renderer,
    ))
}

/// Where `x` goes in `sorted`, looking back from position `p`: just after
/// the last item that does not sort after it, so equal items keep their
/// order.
pub open spec fn insert_pos(sorted: Seq<PlanItemView>, x: PlanItemView, p: int) -> int
    decreases p,
{
    if p > 0 && item_lt(x, sorted[p - 1]) {
        insert_pos(sorted, x, p - 1)
    } else {
        p
    }
}

/// The stable sort of `items` by name and renderer: each item in turn goes
/// after every earlier item that does not sort after it.
pub open spec fn stable_sorted(items: Seq<PlanItemView>) -> Seq<PlanItemView>
    decreases items.len(),
{
    if items.len() == 0 {
        items
    } else {
        let rest = stable_sorted(items.drop_last());
        rest.insert(insert_pos(rest, items.last(), rest.len() as int), items.last())
    }
}

/// A recipe as the planner takes it: path, name, and its renderers with
/// their argv.
pub struct RecipeEntry {
    pub path: Seq<char>,
    pub name: Seq<char>,
    pub renderers: Seq<(Seq<char>, Seq<Seq<char>>)>,
}

/// Every recipe under each of its renderers, in the order given.
pub open spec fn expand(recipes: Seq<RecipeEntry>) -> Seq<PlanItemView>
    decreases recipes.len(),
{
    if recipes.len() == 0 {
        Seq::<PlanItemView>::empty()
    } else {
        let r = recipes.last();
        expand(recipes.drop_last()) + Seq::new(
            r.renderers.len(),
            |j: int|
                PlanItemView {
                    recipe_path: r.path,
                    recipe_name: r.name,
                    renderer: r.renderers[j].0,
                    renderer_argv: r.renderers[j].1,
                },
        )
    }
}

/// The views of plan items.
pub open spec fn items_view(v: Seq<PlanItem>) -> Seq<PlanItemView> {
    Seq::new(v.len(), |i: int| v[i]@)
}

/// The planner's input as views.
pub open spec fn recipes_view(v: Seq<(String, String, Vec<(String, Vec<String>)>)>) -> Seq<RecipeEntry> {
    Seq::new(
        v.len(),
        |i: int|
            RecipeEntry {
                path: v[i].0@,
                name: v[i].1@,
                renderers: Seq::new(v[i].2@.len(), |j: int| (v[i].2@[j].0@, string_seqs(v[i].2@[j].1@))),
            },
    )
}

fn copy_strings(v: &Vec<String>) -> (r: Vec<String>)
    ensures
        string_seqs(r@) == string_seqs(v@),
{
    let mut out: Vec<String> = Vec::new();
    let mut i: usize = 0;
    while i < v.len()
        invariant
            i <= v@.len(),
            string_seqs(out@) == string_seqs(v@).take(i as int),
        decreases v@.len() - i,
    {
        let s = v[i].clone();
        proof { lemma_string_seqs_push(out@, s); }
        out.push(s);
        assert(string_seqs(v@).take(i as int).push(v@[i as int]@) =~= string_seqs(v@).take(i + 1));
        i += 1;
    }
    assert(string_seqs(v@).take(v@.len() as int) =~= string_seqs(v@));
    out
}

fn item_lt_exec(a: &PlanItem, b: &PlanItem) -> (r: bool)
    ensures
        r == item_lt(a@, b@),
{
    text_lt_exec(a.recipe_name.as_str(), b.recipe_name.as_str()) || (crate::text::str_eq(
        a.recipe_name.as_str(),
        b.recipe_name.as_str(),
    ) && text_lt_exec(a.renderer.as_str(), b.renderer.as_str()))
}

proof fn lemma_insert_pos_bounds(sorted: Seq<PlanItemView>, x: PlanItemView, p: int)
    requires
        0 <= p <= sorted.len(),
    ensures
        0 <= insert_pos(sorted, x, p) <= p,
    decreases p,
{
    if p > 0 && item_lt(x, sorted[p - 1]) {
        lemma_insert_pos_bounds(sorted, x, p - 1);
    }
}

/// Expand recipe paths × renderers into a plan, sorted stably by
/// `(recipe_name, renderer)` so that parallel execution is reproducible
/// whatever order the files were listed in.
pub fn plan_items(recipes: Vec<(String, String, Vec<(String, Vec<String>)>)>) -> (items: Vec<PlanItem>)
    ensures
        items_view(items@) == stable_sorted(expand(recipes_view(recipes@))),
        is_plan_ordered(items_view(items@)),
        items_view(items@).to_multiset() == expand(recipes_view(recipes@)).to_multiset(),
{
    let ghost rv = recipes_view(recipes@);
    let mut flat: Vec<PlanItem> = Vec::new();
    let mut i: usize = 0;
    assert(rv.take(0) =~= Seq::<RecipeEntry>::empty());
    assert(items_view(flat@) =~= expand(rv.take(0)));
    while i < recipes.len()
        invariant
            rv == recipes_view(recipes@),
            i <= rv.len(),
            items_view(flat@) == expand(rv.take(i as int)),
        decreases rv.len() - i,
    {
        let ghost before = items_view(flat@);
        let ghost r = rv[i as int];
        assert(rv.take(i + 1).drop_last() =~= rv.take(i as int));
        assert(rv.take(i + 1).last() == r);
        let renderers = &recipes[i].2;
        let mut j: usize = 0;
        while j < renderers.len()
            invariant
                rv == recipes_view(recipes@),
                i < rv.len(),
                r == rv[i as int],
                renderers@ == recipes@[i as int].2@,
                j <= renderers@.len(),
                items_view(flat@) == before + Seq::new(
                    r.renderers.len(),
                    |k: int|
                        PlanItemView {
                            recipe_path: r.path,
                            recipe_name: r.name,
                            renderer: r.renderers[k].0,
                            renderer_argv: r.renderers[k].1,
                        },
                ).take(j as int),
            decreases renderers@.len() - j,
        {
            let item = PlanItem {
                recipe_path: recipes[i].0.clone(),
                recipe_name: recipes[i].1.clone(),
                renderer: renderers[j].0.clone(),
                renderer_argv: copy_strings(&renderers[j].1),
            };
            let ghost old_flat = flat@;
            flat.push(item);
            assert(items_view(flat@) =~= items_view(old_flat).push(item@));
            assert(before + Seq::new(
                r.renderers.len(),
                |k: int|
                    PlanItemView {
                        recipe_path: r.path,
                        recipe_name: r.name,
                        renderer: r.renderers[k].0,
                        renderer_argv: r.renderers[k].1,
                    },
            ).take(j + 1) =~= items_view(flat@));
            j += 1;
        }
        assert(Seq::new(
            r.renderers.len(),
            |k: int|
                PlanItemView {
                    recipe_path: r.path,
                    recipe_name: r.name,
                    renderer: r.renderers[k].0,
                    renderer_argv: r.renderers[k].1,
                },
        ).take(renderers@.len() as int) =~= Seq::new(
            r.renderers.len(),
            |k: int|
                PlanItemView {
                    recipe_path: r.path,
                    recipe_name: r.name,
                    renderer: r.renderers[k].0,
                    renderer_argv: r.renderers[k].1,
                },
        ));
        i += 1;
    }
    assert(rv.take(rv.len() as int) =~= rv);
    // Stable insertion sort.
    let ghost all = items_view(flat@);
    let mut out: Vec<PlanItem> = Vec::new();
    let mut k: usize = 0;
    assert(all.take(0) =~= Seq::<PlanItemView>::empty());
    while k < flat.len()
        invariant
            all == items_view(flat@),
            k <= all.len(),
            items_view(out@) == stable_sorted(all.take(k as int)),
        decreases all.len() - k,
    {
        let x = flat[k].clone_item();
        let ghost sorted = items_view(out@);
        let mut p: usize = out.len();
        while p > 0 && item_lt_exec(&x, &out[p - 1])
            invariant
                sorted == items_view(out@),
                p <= out@.len(),
                insert_pos(sorted, x@, sorted.len() as int) == insert_pos(sorted, x@, p as int),
            decreases p,
        {
            p -= 1;
        }
        proof { lemma_insert_pos_bounds(sorted, x@, sorted.len() as int); }
        let ghost xv = x@;
        out.insert(p, x);
        assert(items_view(out@) =~= sorted.insert(p as int, xv));
        assert(all.take(k + 1).drop_last() =~= all.take(k as int));
        assert(all.take(k + 1).last() == all[k as int]);
        k += 1;
    }
    assert(all.take(all.len() as int) =~= all);
    proof {
        lemma_plan_is_ordered(all);
        lemma_plan_is_a_permutation(all);
    }
    out
}

impl PlanItem {
    fn clone_item(&self) -> (c: Self)
        ensures
            c@ == self@,
    {
        PlanItem {
            recipe_path: self.recipe_path.clone(),
            recipe_name: self.recipe_name.clone(),
            renderer: self.renderer.clone(),
            renderer_argv: copy_strings(&self.renderer_argv),
        }
    }
}

// ---------------------------------------------------------------------------
// The ordering
// ---------------------------------------------------------------------------

/// Two plan items sort the same: same recipe name and renderer.
pub open spec fn same_key(a: PlanItemView, b: PlanItemView) -> bool {
    a.recipe_name == b.recipe_name && a.renderer == b.renderer
}

proof fn lemma_item_lt_order(a: PlanItemView, b: PlanItemView, c: PlanItemView)
    ensures
        !item_lt(a, a),
        item_lt(a, b) ==> !item_lt(b, a),
        item_lt(a, b) && item_lt(b, c) ==> item_lt(a, c),
        item_lt(a, b) || item_lt(b, a) || same_key(a, b),
{
    lemma_text_lt_irreflexive(a.recipe_name);
    lemma_text_lt_irreflexive(a.renderer);
    lemma_text_lt_total(a.recipe_name, b.recipe_name);
    lemma_text_lt_total(a.renderer, b.renderer);
    if item_lt(a, b) {
        if text_lt(a.recipe_name, b.recipe_name) {
            lemma_text_lt_asymmetric(a.recipe_name, b.recipe_name);
        } else {
            lemma_text_lt_asymmetric(a.renderer, b.renderer);
            lemma_text_lt_irreflexive(a.recipe_name);
        }
    }
    if item_lt(a, b) && item_lt(b, c) {
        if text_lt(a.recipe_name, b.recipe_name) && text_lt(b.recipe_name, c.recipe_name) {
            lemma_text_lt_transitive(a.recipe_name, b.recipe_name, c.recipe_name);
        } else if text_lt(a.recipe_name, b.recipe_name) {
        } else if text_lt(b.recipe_name, c.recipe_name) {
        } else {
            lemma_text_lt_transitive(a.renderer, b.renderer, c.renderer);
        }
    }
}

/// `s` is in plan order: no item sorts before an earlier one.
pub open spec fn is_plan_ordered(s: Seq<PlanItemView>) -> bool {
    forall|i: int, j: int| 0 <= i < j < s.len() ==> !item_lt(#[trigger] s[j], #[trigger] s[i])
}

proof fn lemma_insert_pos_facts(sorted: Seq<PlanItemView>, x: PlanItemView, p: int)
    requires
        0 <= p <= sorted.len(),
    ensures
        0 <= insert_pos(sorted, x, p) <= p,
        forall|q: int| insert_pos(sorted, x, p) <= q < p ==> item_lt(x, #[trigger] sorted[q]),
        insert_pos(sorted, x, p) == 0 || !item_lt(x, sorted[insert_pos(sorted, x, p) - 1]),
    decreases p,
{
    if p > 0 && item_lt(x, sorted[p - 1]) {
        lemma_insert_pos_facts(sorted, x, p - 1);
    }
}

proof fn lemma_insert_keeps_order(sorted: Seq<PlanItemView>, x: PlanItemView)
    requires
        is_plan_ordered(sorted),
    ensures
        is_plan_ordered(sorted.insert(insert_pos(sorted, x, sorted.len() as int), x)),
{
    let p = insert_pos(sorted, x, sorted.len() as int);
    lemma_insert_pos_facts(sorted, x, sorted.len() as int);
    let out = sorted.insert(p, x);
    assert forall|i: int, j: int| 0 <= i < j < out.len() implies !item_lt(#[trigger] out[j], #[trigger] out[i]) by {
        if j < p {
            assert(out[i] == sorted[i] && out[j] == sorted[j]);
        } else if j == p {
            // out[j] is x, out[i] an earlier item that x does not sort before.
            assert(out[i] == sorted[i]);
            let last = sorted[p - 1];
            if i < p - 1 {
                assert(!item_lt(last, sorted[i]));
                lemma_item_lt_order(sorted[i], last, x);
                lemma_item_lt_order(x, sorted[i], last);
                lemma_item_lt_order(x, last, sorted[i]);
                if item_lt(x, sorted[i]) {
                    if item_lt(sorted[i], last) {
                        lemma_item_lt_order(x, sorted[i], last);
                    } else {
                        assert(same_key(sorted[i], last) || item_lt(last, sorted[i]));
                    }
                }
            }
        } else if i == p {
            assert(out[j] == sorted[j - 1]);
            assert(item_lt(x, sorted[j - 1]));
            lemma_item_lt_order(x, sorted[j - 1], x);
        } else if i < p {
            assert(out[i] == sorted[i] && out[j] == sorted[j - 1]);
        } else {
            assert(out[i] == sorted[i - 1] && out[j] == sorted[j - 1]);
        }
    }
}

/// A plan is in order: sorted by recipe name, then renderer.
pub proof fn lemma_plan_is_ordered(items: Seq<PlanItemView>)
    ensures
        is_plan_ordered(stable_sorted(items)),
    decreases items.len(),
{
    if items.len() > 0 {
        lemma_plan_is_ordered(items.drop_last());
        lemma_insert_keeps_order(stable_sorted(items.drop_last()), items.last());
    }
}

/// A plan holds exactly the expanded items: sorting neither drops nor
/// duplicates anything.
pub proof fn lemma_plan_is_a_permutation(items: Seq<PlanItemView>)
    ensures
        stable_sorted(items).to_multiset() == items.to_multiset(),
    decreases items.len(),
{
    broadcast use vstd::seq_lib::to_multiset_insert, vstd::seq_lib::to_multiset_build;

    if items.len() == 0 {
    } else {
        lemma_plan_is_a_permutation(items.drop_last());
        let rest = stable_sorted(items.drop_last());
        lemma_insert_pos_bounds(rest, items.last(), rest.len() as int);
        assert(items.drop_last().push(items.last()) =~= items);
    }
}

} // verus!
