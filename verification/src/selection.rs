//! Choosing which recipes to run for a set of changed files.
//!
//! Two rules do the work. Smoke recipes always run, so "selected nothing"
//! never silently means "verified nothing". A change under the harness root
//! selects only smoke: the change is to the verifier, not to what it
//! verifies. Otherwise a recipe runs when one of its `ci_paths` globs
//! matches a changed file.
use vstd::prelude::*;
use crate::text::{string_seqs, lemma_string_seqs_push};
use crate::text::{
    chars_of, contains, occurs_at, occurs_at_exec, starts_with, starts_with_exec, string_of, trim,
    trim_chars,
};
use crate::vocabulary::strs;

verus! {

broadcast use vstd::string::group_string_axioms;

/// Facts about one repository's layout that selection needs.
pub struct SelectionConfig<'a> {
    /// Repo-relative prefix where the verification harness itself lives.
    pub harness_root: &'a str,
    /// Path segment marking the repository root inside an absolute path.
    pub repo_marker: &'a str,
    /// Recipes that run for every changeset, whatever it touched.
    pub smoke: &'a [&'a str],
}

/// What selection reads of a recipe: its name and its `ci_paths` globs.
#[derive(Debug, Clone, PartialEq, Eq)]
pub struct RecipePaths {
    /// The recipe's name.
    pub name: String,
    /// Glob patterns over repo-relative paths.
    pub ci_paths: Vec<String>,
}

// ---------------------------------------------------------------------------
// Paths
// ---------------------------------------------------------------------------

/// `s` with each `\` turned into `/`.
pub open spec fn forward_slashes(s: Seq<char>) -> Seq<char> {
    Seq::new(s.len(), |i: int| if s[i] == '\\' { '/' } else { s[i] })
}

/// `s` without its leading `./` prefixes.
pub open spec fn strip_dot_slash(s: Seq<char>) -> Seq<char>
    decreases s.len(),
{
    if s.len() >= 2 && s[0] == '.' && s[1] == '/' {
        strip_dot_slash(s.skip(2))
    } else {
        s
    }
}

/// `s` without its trailing `/`s.
pub open spec fn strip_trailing_slashes(s: Seq<char>) -> Seq<char>
    decreases s.len(),
{
    if s.len() > 0 && s.last() == '/' {
        strip_trailing_slashes(s.drop_last())
    } else {
        s
    }
}

/// The first position at or after `i` where `needle` occurs in `hay`.
pub open spec fn find_from(hay: Seq<char>, needle: Seq<char>, i: int) -> Option<int>
    decreases hay.len() + 1 - i,
{
    if i < 0 || i > hay.len() {
        None
    } else if occurs_at(hay, needle, i) {
        Some(i)
    } else {
        find_from(hay, needle, i + 1)
    }
}

/// A changed path reduced to a repo-relative, forward-slashed form: trimmed,
/// `\` turned into `/`, leading `./` removed, everything up to and including
/// the first occurrence of `marker` removed, trailing `/` removed.
pub open spec fn normalize_path_spec(path: Seq<char>, marker: Seq<char>) -> Seq<char> {
    let a = strip_dot_slash(forward_slashes(trim(path)));
    let b = match find_from(a, marker, 0) {
        Some(idx) => a.subrange(idx + marker.len(), a.len() as int),
        None => a,
    };
    strip_trailing_slashes(b)
}

proof fn lemma_find_from_occurs(hay: Seq<char>, needle: Seq<char>, i: int)
    ensures
        find_from(hay, needle, i) matches Some(k) ==> i <= k && occurs_at(hay, needle, k),
    decreases hay.len() + 1 - i,
{
    if 0 <= i <= hay.len() && !occurs_at(hay, needle, i) {
        lemma_find_from_occurs(hay, needle, i + 1);
    }
}

fn find_exec(hay: &[char], needle: &[char]) -> (r: Option<usize>)
    ensures
        match r {
            Some(k) => find_from(hay@, needle@, 0) == Some(k as int),
            None => find_from(hay@, needle@, 0) is None,
        },
{
    let mut pos: usize = 0;
    while pos < hay.len()
        invariant
            pos <= hay@.len(),
            find_from(hay@, needle@, 0) == find_from(hay@, needle@, pos as int),
        decreases hay@.len() - pos,
    {
        if occurs_at_exec(hay, needle, pos) {
            return Some(pos);
        }
        pos += 1;
    }
    if occurs_at_exec(hay, needle, pos) {
        return Some(pos);
    }
    assert(find_from(hay@, needle@, pos + 1int) is None);
    None
}

/// Reduce a path to a repo-relative, forward-slashed form.
pub fn normalize_path(path: &str, repo_marker: &str) -> (r: String)
    ensures
        r@ == normalize_path_spec(path@, repo_marker@),
{
    let all = chars_of(path);
    let t = trim_chars(all.as_slice());
    let mut a: Vec<char> = Vec::new();
    let mut i: usize = 0;
    while i < t.len()
        invariant
            i <= t@.len(),
            a@ == forward_slashes(t@).take(i as int),
        decreases t@.len() - i,
    {
        let c = t[i];
        a.push(if c == '\\' { '/' } else { c });
        assert(a@ =~= forward_slashes(t@).take(i + 1));
        i += 1;
    }
    assert(forward_slashes(t@).take(t@.len() as int) =~= forward_slashes(t@));
    let ghost fs = a@;
    let mut start: usize = 0;
    assert(fs.skip(0) =~= fs);
    while a.len() - start >= 2 && a[start] == '.' && a[start + 1] == '/'
        invariant
            a@ == fs,
            start <= fs.len(),
            strip_dot_slash(fs) == strip_dot_slash(fs.skip(start as int)),
        decreases fs.len() - start,
    {
        assert(fs.skip(start as int).skip(2) =~= fs.skip(start + 2));
        start += 2;
    }
    let mut b: Vec<char> = Vec::new();
    let mut k: usize = start;
    while k < a.len()
        invariant
            a@ == fs,
            start <= k <= fs.len(),
            b@ == fs.subrange(start as int, k as int),
        decreases fs.len() - k,
    {
        b.push(a[k]);
        assert(b@ =~= fs.subrange(start as int, k + 1));
        k += 1;
    }
    assert(b@ =~= fs.skip(start as int));
    let marker = chars_of(repo_marker);
    let ghost sb = b@;
    let found = find_exec(b.as_slice(), marker.as_slice());
    proof {
        if found is Some {
            lemma_find_from_occurs(sb, marker@, 0);
        }
    }
    let mut c: Vec<char> = Vec::new();
    match found {
        Some(idx) => {
            let from: usize = idx + marker.len();
            let mut k: usize = from;
            while k < b.len()
                invariant
                    b@ == sb,
                    from <= sb.len(),
                    from <= k <= sb.len(),
                    c@ == sb.subrange(from as int, k as int),
                decreases sb.len() - k,
            {
                c.push(b[k]);
                assert(c@ =~= sb.subrange(from as int, k + 1));
                k += 1;
            }
        },
        None => {
            c = b;
        },
    }
    let ghost sc = c@;
    let mut n: usize = c.len();
    assert(sc.take(n as int) =~= sc);
    while n > 0 && c[n - 1] == '/'
        invariant
            c@ == sc,
            n <= sc.len(),
            strip_trailing_slashes(sc) == strip_trailing_slashes(sc.take(n as int)),
        decreases n,
    {
        assert(sc.take(n as int).drop_last() =~= sc.take(n - 1));
        n -= 1;
    }
    let mut out: Vec<char> = Vec::new();
    let mut j: usize = 0;
    while j < n
        invariant
            c@ == sc,
            n <= sc.len(),
            j <= n,
            out@ == sc.take(j as int),
            strip_trailing_slashes(sc) == strip_trailing_slashes(sc.take(n as int)),
            !(n > 0 && sc[n - 1] == '/'),
        decreases n - j,
    {
        out.push(c[j]);
        assert(out@ =~= sc.take(j + 1));
        j += 1;
    }
    string_of(out.as_slice())
}

// ---------------------------------------------------------------------------
// Globs
// ---------------------------------------------------------------------------

/// Whether the `globset` set built from `patterns` (each with
/// `literal_separator(false)`, so `*` crosses `/`; patterns that do not
/// compile are left out) matches `path`.
pub uninterp spec fn glob_set_matches_path(patterns: Seq<Seq<char>>, path: Seq<char>) -> bool;

/// `globset::GlobSetBuilder` over `patterns` and `GlobSet::is_match` on
/// `path`. Trusted to answer as a function of the patterns and the path; a
/// set that fails to build matches nothing.
#[verifier::external_body]
fn glob_set_is_match(patterns: &Vec<String>, path: &str) -> (r: bool)
    ensures
        r == glob_set_matches_path(string_seqs(patterns@), path@),
{
    let mut builder = globset::GlobSetBuilder::new();
    for pattern in patterns {
        if let Ok(glob) = globset::GlobBuilder::new(pattern).literal_separator(false).build() {
            builder.add(glob);
        }
    }
    match builder.build() {
        Ok(set) => set.is_match(path),
        Err(_) => false,
    }
}

/// Whether the glob set of `patterns` matches any of `paths`.
pub open spec fn glob_set_matches(patterns: Seq<Seq<char>>, paths: Seq<Seq<char>>) -> bool {
    exists|i: int| 0 <= i < paths.len() && glob_set_matches_path(patterns, #[trigger] paths[i])
}

fn glob_set_any_match(patterns: &Vec<String>, paths: &Vec<String>) -> (r: bool)
    ensures
        r == glob_set_matches(string_seqs(patterns@), string_seqs(paths@)),
{
    let ghost ps = string_seqs(paths@);
    let mut i: usize = 0;
    while i < paths.len()
        invariant
            ps == string_seqs(paths@),
            i <= paths@.len(),
            forall|j: int| 0 <= j < i ==> !glob_set_matches_path(string_seqs(patterns@), #[trigger] ps[j]),
        decreases paths@.len() - i,
    {
        if glob_set_is_match(patterns, paths[i].as_str()) {
            assert(ps[i as int] == paths@[i as int]@);
            return true;
        }
        i += 1;
    }
    false
}

/// Whether a recipe with `ci_paths` matches any of the normalised changed
/// `paths`: never with no patterns or no paths; otherwise the glob set of
/// the normalised patterns decides.
pub open spec fn matches_any_path_spec(patterns: Seq<Seq<char>>, paths: Seq<Seq<char>>, marker: Seq<char>) -> bool {
    if patterns.len() == 0 || paths.len() == 0 {
        false
    } else {
        glob_set_matches(Seq::new(patterns.len(), |i: int| normalize_path_spec(patterns[i], marker)), paths)
    }
}

fn normalize_all(items: &Vec<String>, marker: &str) -> (r: Vec<String>)
    ensures
        string_seqs(r@) == Seq::new(items@.len(), |i: int| normalize_path_spec(items@[i]@, marker@)),
{
    let ghost want = Seq::new(items@.len(), |i: int| normalize_path_spec(items@[i]@, marker@));
    let mut out: Vec<String> = Vec::new();
    let mut i: usize = 0;
    while i < items.len()
        invariant
            want == Seq::new(items@.len(), |i: int| normalize_path_spec(items@[i]@, marker@)),
            i <= items@.len(),
            string_seqs(out@) == want.take(i as int),
        decreases items@.len() - i,
    {
        let n = normalize_path(items[i].as_str(), marker);
        proof { lemma_string_seqs_push(out@, n); }
        out.push(n);
        assert(want.take(i as int).push(want[i as int]) =~= want.take(i + 1));
        i += 1;
    }
    assert(want.take(items@.len() as int) =~= want);
    out
}

fn matches_any_path(patterns: &Vec<String>, paths: &Vec<String>, repo_marker: &str) -> (r: bool)
    ensures
        r == matches_any_path_spec(string_seqs(patterns@), string_seqs(paths@), repo_marker@),
{
    if patterns.len() == 0 || paths.len() == 0 {
        return false;
    }
    let normalized = normalize_all(patterns, repo_marker);
    assert(string_seqs(normalized@) =~= Seq::new(
        string_seqs(patterns@).len(),
        |i: int| normalize_path_spec(string_seqs(patterns@)[i], repo_marker@),
    ));
    glob_set_any_match(&normalized, paths)
}

// ---------------------------------------------------------------------------
// Selection
// ---------------------------------------------------------------------------

/// A recipe as selection sees it: its name and its globs.
pub open spec fn recipe_view(r: RecipePaths) -> (Seq<char>, Seq<Seq<char>>) {
    (r.name@, string_seqs(r.ci_paths@))
}

/// Whether a recipe named `name` is chosen: a smoke name that some recipe
/// has, or (when no changed path is under the harness root) the name of a
/// recipe whose globs match a changed path.
pub open spec fn chosen(
    recipes: Seq<(Seq<char>, Seq<Seq<char>>)>,
    paths: Seq<Seq<char>>,
    harness_root: Seq<char>,
    marker: Seq<char>,
    smoke: Seq<Seq<char>>,
    name: Seq<char>,
) -> bool {
    let touches_harness = exists|p: int| 0 <= p < paths.len() && starts_with(#[trigger] paths[p], harness_root);
    ||| smoke.contains(name) && exists|j: int| 0 <= j < recipes.len() && (#[trigger] recipes[j]).0 == name
    ||| !touches_harness && exists|j: int|
        0 <= j < recipes.len() && (#[trigger] recipes[j]).0 == name && matches_any_path_spec(
            recipes[j].1,
            paths,
            marker,
        )
}

/// The names of the recipes chosen for `changed_files`, in recipe order.
pub open spec fn select_names_spec(
    recipes: Seq<(Seq<char>, Seq<Seq<char>>)>,
    changed: Seq<Seq<char>>,
    harness_root: Seq<char>,
    marker: Seq<char>,
    smoke: Seq<Seq<char>>,
) -> Seq<Seq<char>> {
    let paths = Seq::new(changed.len(), |i: int| normalize_path_spec(changed[i], marker));
    Seq::new(recipes.len(), |i: int| recipes[i].0).filter(
        |n: Seq<char>| chosen(recipes, paths, harness_root, marker, smoke, n),
    )
}

/// Views of a list of recipes.
pub open spec fn recipes_view(recipes: Seq<RecipePaths>) -> Seq<(Seq<char>, Seq<Seq<char>>)> {
    Seq::new(recipes.len(), |i: int| recipe_view(recipes[i]))
}

fn name_in(names: &[&str], name: &str) -> (r: bool)
    ensures
        r == strs(names@).contains(name@),
{
    let mut i: usize = 0;
    while i < names.len()
        invariant
            i <= names@.len(),
            forall|j: int| 0 <= j < i ==> strs(names@)[j] != name@,
        decreases names@.len() - i,
    {
        if crate::text::str_eq(names[i], name) {
            assert(strs(names@)[i as int] == name@);
            return true;
        }
        i += 1;
    }
    false
}

/// Names of the recipes to run for `changed_files`, in their original order.
pub fn select_names(recipes: &[RecipePaths], changed_files: &[String], config: &SelectionConfig<'_>) -> (r: Vec<String>)
    ensures
        string_seqs(r@) == select_names_spec(
            recipes_view(recipes@),
            string_seqs(changed_files@),
            config.harness_root@,
            config.repo_marker@,
            strs(config.smoke@),
        ),
{
    let ghost rv = recipes_view(recipes@);
    let ghost marker = config.repo_marker@;
    let mut paths: Vec<String> = Vec::new();
    let mut i: usize = 0;
    while i < changed_files.len()
        invariant
            i <= changed_files@.len(),
            string_seqs(paths@) == Seq::new(
                changed_files@.len(),
                |k: int| normalize_path_spec(changed_files@[k]@, config.repo_marker@),
            ).take(i as int),
        decreases changed_files@.len() - i,
    {
        let n = normalize_path(changed_files[i].as_str(), config.repo_marker);
        proof { lemma_string_seqs_push(paths@, n); }
        paths.push(n);
        assert(Seq::new(
            changed_files@.len(),
            |k: int| normalize_path_spec(changed_files@[k]@, config.repo_marker@),
        ).take(i as int).push(n@) =~= Seq::new(
            changed_files@.len(),
            |k: int| normalize_path_spec(changed_files@[k]@, config.repo_marker@),
        ).take(i + 1));
        i += 1;
    }
    let ghost pv = string_seqs(paths@);
    assert(pv =~= Seq::new(
        string_seqs(changed_files@).len(),
        |k: int| normalize_path_spec(string_seqs(changed_files@)[k], config.repo_marker@),
    ));
    let mut touches = false;
    let mut p: usize = 0;
    let root = chars_of(config.harness_root);
    while p < paths.len() && !touches
        invariant
            pv == string_seqs(paths@),
            p <= pv.len(),
            root@ == config.harness_root@,
            touches == exists|q: int| 0 <= q < p && starts_with(#[trigger] pv[q], config.harness_root@),
        decreases pv.len() - p,
    {
        let pc = chars_of(paths[p].as_str());
        if starts_with_exec(pc.as_slice(), root.as_slice()) {
            assert(starts_with(pv[p as int], config.harness_root@));
            touches = true;
        }
        p += 1;
    }
    let ghost touches_spec = exists|q: int| 0 <= q < pv.len() && starts_with(#[trigger] pv[q], config.harness_root@);
    assert(touches == touches_spec);
    // Which recipes matched on their own globs.
    let mut matched: Vec<bool> = Vec::new();
    let mut j: usize = 0;
    while j < recipes.len()
        invariant
            rv == recipes_view(recipes@),
            touches == touches_spec,
            pv == string_seqs(paths@),
            j <= recipes@.len(),
            matched@.len() == j,
            forall|k: int| 0 <= k < j ==> #[trigger] matched@[k] == (!touches_spec && matches_any_path_spec(
                rv[k].1,
                pv,
                config.repo_marker@,
            )),
        decreases recipes@.len() - j,
    {
        let m = if touches { false } else { matches_any_path(&recipes[j].ci_paths, &paths, config.repo_marker) };
        assert(rv[j as int] == recipe_view(recipes@[j as int]));
        matched.push(m);
        j += 1;
    }
    let ghost names = Seq::new(rv.len(), |i: int| rv[i].0);
    let ghost keep = |n: Seq<char>| chosen(rv, pv, config.harness_root@, config.repo_marker@, strs(config.smoke@), n);
    let mut out: Vec<String> = Vec::new();
    let mut k: usize = 0;
    proof { reveal(Seq::filter); }
    assert(names.take(0) =~= Seq::<Seq<char>>::empty());
    assert(string_seqs(out@) =~= names.take(0).filter(keep));
    while k < recipes.len()
        invariant
            rv == recipes_view(recipes@),
            names == Seq::new(rv.len(), |i: int| rv[i].0),
            keep == (|n: Seq<char>| chosen(rv, pv, config.harness_root@, config.repo_marker@, strs(config.smoke@), n)),
            matched@.len() == rv.len(),
            forall|q: int| 0 <= q < rv.len() ==> #[trigger] matched@[q] == (!touches_spec && matches_any_path_spec(
                rv[q].1,
                pv,
                config.repo_marker@,
            )),
            touches_spec == exists|q: int| 0 <= q < pv.len() && starts_with(#[trigger] pv[q], config.harness_root@),
            k <= rv.len(),
            string_seqs(out@) == names.take(k as int).filter(keep),
        decreases rv.len() - k,
    {
        let name = recipes[k].name.as_str();
        let ghost n = name@;
        assert(rv[k as int] == recipe_view(recipes@[k as int]));
        assert(names[k as int] == n);
        // Chosen through the smoke list, or through any recipe of this name
        // whose globs matched.
        let mut pick = name_in(config.smoke, name);
        if pick {
            assert(rv[k as int].0 == n);
        }
        let mut q: usize = 0;
        while q < recipes.len() && !pick
            invariant
                rv == recipes_view(recipes@),
                matched@.len() == rv.len(),
                forall|q2: int| 0 <= q2 < rv.len() ==> #[trigger] matched@[q2] == (!touches_spec && matches_any_path_spec(
                    rv[q2].1,
                    pv,
                    config.repo_marker@,
                )),
                q <= rv.len(),
                k < rv.len(),
                n == rv[k as int].0,
                name@ == n,
                pick ==> keep(n),
                !pick ==> !strs(config.smoke@).contains(n),
                !pick ==> forall|q2: int| 0 <= q2 < q && rv[q2].0 == n ==> !matched@[q2],
                keep == (|n: Seq<char>| chosen(rv, pv, config.harness_root@, config.repo_marker@, strs(config.smoke@), n)),
                touches_spec == exists|q: int| 0 <= q < pv.len() && starts_with(#[trigger] pv[q], config.harness_root@),
            decreases rv.len() - q,
        {
            assert(rv[q as int] == recipe_view(recipes@[q as int]));
            if matched[q] && crate::text::str_eq(recipes[q].name.as_str(), name) {
                assert(rv[q as int].0 == n);
                pick = true;
            }
            q += 1;
        }
        if !pick {
            assert(!keep(n)) by {
                if chosen(rv, pv, config.harness_root@, config.repo_marker@, strs(config.smoke@), n) {
                    let j2 = choose|j2: int| 0 <= j2 < rv.len() && (#[trigger] rv[j2]).0 == n && matches_any_path_spec(
                        rv[j2].1,
                        pv,
                        config.repo_marker@,
                    );
                    assert(matched@[j2]);
                }
            }
        }
        let ghost t = names.take(k + 1);
        assert(t.drop_last() =~= names.take(k as int));
        assert(t.last() == n);
        proof { reveal(Seq::filter); }
        if pick {
            let copy = recipes[k].name.clone();
            let ghost before = out@;
            out.push(copy);
            assert(string_seqs(out@) =~= string_seqs(before).push(n));
        }
        k += 1;
    }
    assert(names.take(rv.len() as int) =~= names);
    out
}

/// A recipe whose globs match is selected: when no changed path lies under
/// the harness root, a recipe with at least one `ci_paths` glob is selected
/// as soon as the glob set of all its (normalised) globs matches one
/// (normalised) changed path, whatever the position of the matching glob
/// among its `ci_paths` and of the path among the changes.
pub proof fn lemma_a_recipe_whose_globs_match_is_selected(
    recipes: Seq<(Seq<char>, Seq<Seq<char>>)>,
    changed: Seq<Seq<char>>,
    harness_root: Seq<char>,
    marker: Seq<char>,
    smoke: Seq<Seq<char>>,
    j: int,
    p: int,
)
    requires
        0 <= j < recipes.len(),
        0 <= p < changed.len(),
        recipes[j].1.len() > 0,
        forall|q: int| 0 <= q < changed.len() ==> !starts_with(
            #[trigger] normalize_path_spec(changed[q], marker),
            harness_root,
        ),
        glob_set_matches_path(
            Seq::new(recipes[j].1.len(), |i: int| normalize_path_spec(recipes[j].1[i], marker)),
            normalize_path_spec(changed[p], marker),
        ),
    ensures
        select_names_spec(recipes, changed, harness_root, marker, smoke).contains(recipes[j].0),
{
    let paths = Seq::new(changed.len(), |i: int| normalize_path_spec(changed[i], marker));
    let names = Seq::new(recipes.len(), |i: int| recipes[i].0);
    let keep = |n: Seq<char>| chosen(recipes, paths, harness_root, marker, smoke, n);
    assert(paths[p] == normalize_path_spec(changed[p], marker));
    assert(glob_set_matches(
        Seq::new(recipes[j].1.len(), |i: int| normalize_path_spec(recipes[j].1[i], marker)),
        paths,
    ));
    assert(matches_any_path_spec(recipes[j].1, paths, marker));
    assert(!exists|q: int| 0 <= q < paths.len() && starts_with(#[trigger] paths[q], harness_root)) by {
        assert forall|q: int| 0 <= q < paths.len() implies !starts_with(#[trigger] paths[q], harness_root) by {
            assert(paths[q] == normalize_path_spec(changed[q], marker));
        }
    }
    assert(keep(names[j]));
    names.lemma_filter_contains(keep, j);
    assert(select_names_spec(recipes, changed, harness_root, marker, smoke) == names.filter(keep));
}

/// Selection picks nothing else: every selected name is the name of some
/// recipe, and is either a smoke name or, with no changed path under the
/// harness root, the name of a recipe with globs whose glob set matches a
/// changed path (both normalised).
pub proof fn lemma_only_smoke_or_matching_recipes_are_selected(
    recipes: Seq<(Seq<char>, Seq<Seq<char>>)>,
    changed: Seq<Seq<char>>,
    harness_root: Seq<char>,
    marker: Seq<char>,
    smoke: Seq<Seq<char>>,
    n: Seq<char>,
)
    requires
        select_names_spec(recipes, changed, harness_root, marker, smoke).contains(n),
    ensures
        exists|j: int| 0 <= j < recipes.len() && (#[trigger] recipes[j]).0 == n,
        smoke.contains(n) || ((forall|q: int| 0 <= q < changed.len() ==> !starts_with(
            #[trigger] normalize_path_spec(changed[q], marker),
            harness_root,
        )) && exists|j: int, p: int|
            0 <= j < recipes.len() && 0 <= p < changed.len() && (#[trigger] recipes[j]).0 == n
                && recipes[j].1.len() > 0 && glob_set_matches_path(
                Seq::new(recipes[j].1.len(), |i: int| normalize_path_spec(recipes[j].1[i], marker)),
                normalize_path_spec(#[trigger] changed[p], marker),
            )),
{
    let paths = Seq::new(changed.len(), |i: int| normalize_path_spec(changed[i], marker));
    let names = Seq::new(recipes.len(), |i: int| recipes[i].0);
    let keep = |m: Seq<char>| chosen(recipes, paths, harness_root, marker, smoke, m);
    assert(select_names_spec(recipes, changed, harness_root, marker, smoke) == names.filter(keep));
    let f = names.filter(keep);
    let k = choose|k: int| 0 <= k < f.len() && f[k] == n;
    names.lemma_filter_pred(keep, k);
    assert(chosen(recipes, paths, harness_root, marker, smoke, n));
    names.lemma_filter_contains_rev(keep, n);
    let i = choose|i: int| 0 <= i < names.len() && names[i] == n;
    assert(recipes[i].0 == n);
    if !smoke.contains(n) {
        assert forall|q: int| 0 <= q < changed.len() implies !starts_with(
            #[trigger] normalize_path_spec(changed[q], marker),
            harness_root,
        ) by {
            assert(paths[q] == normalize_path_spec(changed[q], marker));
        }
        let j = choose|j: int| 0 <= j < recipes.len() && (#[trigger] recipes[j]).0 == n && matches_any_path_spec(
            recipes[j].1,
            paths,
            marker,
        );
        let pats = Seq::new(recipes[j].1.len(), |i: int| normalize_path_spec(recipes[j].1[i], marker));
        let p = choose|p: int| 0 <= p < paths.len() && glob_set_matches_path(pats, #[trigger] paths[p]);
        assert(paths[p] == normalize_path_spec(changed[p], marker));
        assert(glob_set_matches_path(pats, normalize_path_spec(changed[p], marker)));
    }
}

} // verus!
