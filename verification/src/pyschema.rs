//! Which JSON Schema error the `json_schema` assertion reports, chosen the
//! way Python's `jsonschema.best_match` chooses it.
//!
//! Each error is ranked by where it sits in the instance and by whether it is
//! weak: a shallower error ranks higher (more of the instance is wrong);
//! among errors at the same depth the path breaks the tie, an array index
//! sorting before a property name; and a failure of `anyOf` or `oneOf`, which
//! only needed one branch to succeed, ranks below a sibling failure. The
//! highest-ranked error wins, the first of equals keeping its place. The
//! winner's own sub-errors are then followed, each time to the lowest-ranked
//! one, unless the two lowest rank equally.
use vstd::prelude::*;
use crate::text::{
    all_digits, digits_value, chars_of, join, join_chars, lemma_text_lt_irreflexive, lemma_text_lt_total,
    lemma_text_lt_transitive, lemma_views_push, split_chars, split_on, string_of, text_lt,
    text_lt_exec, views,
};

verus! {

broadcast use vstd::string::group_string_axioms;

/// One step of the path to the failing part of the instance.
#[derive(Debug, Clone, PartialEq, Eq)]
pub enum PathPart {
    /// An array index.
    Index(u64),
    /// An object property.
    Property(String),
}

/// A path step as a value.
pub enum PartView {
    Index(nat),
    Property(Seq<char>),
}

impl View for PathPart {
    type V = PartView;

    open spec fn view(&self) -> PartView {
        match self {
            PathPart::Index(i) => PartView::Index(*i as nat),
            PathPart::Property(p) => PartView::Property(p@),
        }
    }
}

/// What the ranking reads of an error: its path and whether it is weak.
#[derive(Debug, Clone, PartialEq, Eq)]
pub struct ErrorRank {
    /// The path to the failing part of the instance.
    pub path: Vec<PathPart>,
    /// Whether the error is a failure of `anyOf` or `oneOf`.
    pub weak: bool,
}

/// An error's rank as a value.
pub struct RankView {
    pub path: Seq<PartView>,
    pub weak: bool,
}

/// The views of a path.
pub open spec fn part_views(p: Seq<PathPart>) -> Seq<PartView> {
    Seq::new(p.len(), |i: int| p[i]@)
}

impl View for ErrorRank {
    type V = RankView;

    open spec fn view(&self) -> RankView {
        RankView { path: part_views(self.path@), weak: self.weak }
    }
}

/// The views of a list of ranks.
pub open spec fn rank_views(r: Seq<ErrorRank>) -> Seq<RankView> {
    Seq::new(r.len(), |i: int| r[i]@)
}

/// Path steps in order: an index before any property, indices by number,
/// properties by name.
pub open spec fn part_lt(a: PartView, b: PartView) -> bool {
    match (a, b) {
        (PartView::Index(x), PartView::Index(y)) => x < y,
        (PartView::Index(_), PartView::Property(_)) => true,
        (PartView::Property(_), PartView::Index(_)) => false,
        (PartView::Property(x), PartView::Property(y)) => text_lt(x, y),
    }
}

/// Paths in order, step by step; a path before any longer path it starts.
pub open spec fn path_lt(a: Seq<PartView>, b: Seq<PartView>) -> bool
    decreases a.len(),
{
    if a.len() == 0 {
        b.len() > 0
    } else if b.len() == 0 {
        false
    } else if a[0] != b[0] {
        part_lt(a[0], b[0])
    } else {
        path_lt(a.drop_first(), b.drop_first())
    }
}

/// `a` ranks below `b`: it is deeper, or as deep with an earlier path, or
/// at the same place and weak where `b` is not.
pub open spec fn rank_lt(a: RankView, b: RankView) -> bool {
    a.path.len() > b.path.len() || (a.path.len() == b.path.len() && (path_lt(a.path, b.path) || (
    a.path == b.path && a.weak && !b.weak)))
}

/// `a` and `b` rank equally.
pub open spec fn rank_eq(a: RankView, b: RankView) -> bool {
    a.path == b.path && a.weak == b.weak
}

proof fn lemma_part_order(a: PartView, b: PartView, c: PartView)
    ensures
        !part_lt(a, a),
        part_lt(a, b) && part_lt(b, c) ==> part_lt(a, c),
        part_lt(a, b) || part_lt(b, a) || a == b,
{
    match (a, b) {
        (PartView::Property(x), PartView::Property(y)) => {
            lemma_text_lt_total(x, y);
        },
        _ => {},
    }
    match a {
        PartView::Property(x) => {
            lemma_text_lt_irreflexive(x);
        },
        _ => {},
    }
    if part_lt(a, b) && part_lt(b, c) {
        match (a, b, c) {
            (PartView::Property(x), PartView::Property(y), PartView::Property(z)) => {
                lemma_text_lt_transitive(x, y, z);
            },
            _ => {},
        }
    }
}

proof fn lemma_path_irreflexive(a: Seq<PartView>)
    ensures
        !path_lt(a, a),
    decreases a.len(),
{
    if a.len() > 0 {
        lemma_path_irreflexive(a.drop_first());
    }
}

proof fn lemma_path_transitive(a: Seq<PartView>, b: Seq<PartView>, c: Seq<PartView>)
    requires
        path_lt(a, b),
        path_lt(b, c),
    ensures
        path_lt(a, c),
    decreases a.len(),
{
    if a.len() > 0 && b.len() > 0 && c.len() > 0 {
        lemma_part_order(a[0], b[0], c[0]);
        lemma_part_order(b[0], c[0], a[0]);
        lemma_part_order(a[0], c[0], b[0]);
        if a[0] == b[0] && b[0] == c[0] {
            lemma_path_transitive(a.drop_first(), b.drop_first(), c.drop_first());
        } else if a[0] == b[0] {
        } else if b[0] == c[0] {
        } else {
            if a[0] == c[0] {
                lemma_part_order(a[0], b[0], a[0]);
            }
        }
    }
}

proof fn lemma_path_total(a: Seq<PartView>, b: Seq<PartView>)
    ensures
        path_lt(a, b) || path_lt(b, a) || a == b,
    decreases a.len(),
{
    if a.len() > 0 && b.len() > 0 {
        lemma_part_order(a[0], b[0], a[0]);
        if a[0] == b[0] {
            lemma_path_total(a.drop_first(), b.drop_first());
            if a.drop_first() == b.drop_first() {
                assert(a.drop_first().len() == b.drop_first().len());
                assert(a.len() == b.len());
                assert(a =~= b) by {
                    assert forall|k: int| 0 <= k < a.len() implies a[k] == b[k] by {
                        if k > 0 {
                            assert(a[k] == a.drop_first()[k - 1]);
                            assert(b[k] == b.drop_first()[k - 1]);
                        }
                    }
                }
            }
        }
    } else if a.len() == 0 && b.len() == 0 {
        assert(a =~= b);
    }
}

/// Ranking is a total order on ranks, equal ranks aside.
proof fn lemma_rank_order(a: RankView, b: RankView, c: RankView)
    ensures
        !rank_lt(a, a),
        rank_lt(a, b) ==> !rank_lt(b, a),
        rank_lt(a, b) && rank_lt(b, c) ==> rank_lt(a, c),
        rank_lt(a, b) || rank_lt(b, a) || rank_eq(a, b),
        rank_eq(a, b) ==> (rank_lt(a, c) == rank_lt(b, c) && rank_lt(c, a) == rank_lt(c, b)),
{
    lemma_path_irreflexive(a.path);
    lemma_path_total(a.path, b.path);
    if path_lt(a.path, b.path) && path_lt(b.path, a.path) {
        lemma_path_transitive(a.path, b.path, a.path);
    }
    if path_lt(a.path, b.path) && path_lt(b.path, c.path) {
        lemma_path_transitive(a.path, b.path, c.path);
    }
    if rank_lt(a, b) && rank_lt(b, c) && a.path.len() == c.path.len() {
        if path_lt(a.path, b.path) && b.path == c.path {
        } else if a.path == b.path && path_lt(b.path, c.path) {
        } else if a.path == b.path && b.path == c.path {
        }
    }
}

/// The first of the highest-ranked entries of a non-empty list.
pub open spec fn is_first_best(r: Seq<RankView>, i: int) -> bool {
    &&& 0 <= i < r.len()
    &&& forall|j: int| 0 <= j < r.len() ==> !rank_lt(#[trigger] r[i], r[j])
    &&& forall|j: int| 0 <= j < i ==> rank_lt(#[trigger] r[j], r[i])
}

/// The first of the lowest-ranked entries of a non-empty list.
pub open spec fn is_first_least(r: Seq<RankView>, i: int) -> bool {
    &&& 0 <= i < r.len()
    &&& forall|j: int| 0 <= j < r.len() ==> !rank_lt(#[trigger] r[j], r[i])
    &&& forall|j: int| 0 <= j < i ==> rank_lt(r[i], #[trigger] r[j])
}

fn part_lt_exec(a: &PathPart, b: &PathPart) -> (r: bool)
    ensures
        r == part_lt(a@, b@),
{
    match (a, b) {
        (PathPart::Index(x), PathPart::Index(y)) => *x < *y,
        (PathPart::Index(_), PathPart::Property(_)) => true,
        (PathPart::Property(_), PathPart::Index(_)) => false,
        (PathPart::Property(x), PathPart::Property(y)) => text_lt_exec(x.as_str(), y.as_str()),
    }
}

fn part_eq_exec(a: &PathPart, b: &PathPart) -> (r: bool)
    ensures
        r == (a@ == b@),
{
    match (a, b) {
        (PathPart::Index(x), PathPart::Index(y)) => *x == *y,
        (PathPart::Property(x), PathPart::Property(y)) => crate::text::str_eq(x.as_str(), y.as_str()),
        _ => false,
    }
}

fn path_lt_exec(a: &[PathPart], b: &[PathPart]) -> (r: bool)
    ensures
        r == path_lt(part_views(a@), part_views(b@)),
{
    let ghost x = part_views(a@);
    let ghost y = part_views(b@);
    let mut i: usize = 0;
    assert(x.skip(0) =~= x);
    assert(y.skip(0) =~= y);
    while i < a.len() && i < b.len() && part_eq_exec(&a[i], &b[i])
        invariant
            x == part_views(a@),
            y == part_views(b@),
            i <= a@.len(),
            i <= b@.len(),
            path_lt(x, y) == path_lt(x.skip(i as int), y.skip(i as int)),
        decreases a@.len() - i,
    {
        assert(x.skip(i as int).drop_first() =~= x.skip(i + 1));
        assert(y.skip(i as int).drop_first() =~= y.skip(i + 1));
        i = i + 1;
    }
    if i == a.len() {
        return i < b.len();
    }
    if i == b.len() {
        return false;
    }
    part_lt_exec(&a[i], &b[i])
}

fn path_eq_exec(a: &[PathPart], b: &[PathPart]) -> (r: bool)
    ensures
        r == (part_views(a@) == part_views(b@)),
{
    if a.len() != b.len() {
        assert(part_views(a@).len() != part_views(b@).len());
        return false;
    }
    let mut i: usize = 0;
    while i < a.len()
        invariant
            a@.len() == b@.len(),
            i <= a@.len(),
            forall|j: int| 0 <= j < i ==> a@[j]@ == b@[j]@,
        decreases a@.len() - i,
    {
        if !part_eq_exec(&a[i], &b[i]) {
            assert(part_views(a@)[i as int] != part_views(b@)[i as int]);
            return false;
        }
        i = i + 1;
    }
    assert(part_views(a@) =~= part_views(b@));
    true
}

fn rank_lt_exec(a: &ErrorRank, b: &ErrorRank) -> (r: bool)
    ensures
        r == rank_lt(a@, b@),
{
    if a.path.len() != b.path.len() {
        return a.path.len() > b.path.len();
    }
    path_lt_exec(a.path.as_slice(), b.path.as_slice()) || (path_eq_exec(
        a.path.as_slice(),
        b.path.as_slice(),
    ) && a.weak && !b.weak)
}

/// The first of the highest-ranked errors, or `None` when there are none.
pub fn best_index(errors: &[ErrorRank]) -> (r: Option<usize>)
    ensures
        match r {
            None => errors@.len() == 0,
            Some(i) => is_first_best(rank_views(errors@), i as int),
        },
{
    if errors.len() == 0 {
        return None;
    }
    let ghost r = rank_views(errors@);
    let mut best: usize = 0;
    let mut i: usize = 1;
    proof {
        lemma_rank_order(r[0], r[0], r[0]);
    }
    while i < errors.len()
        invariant
            r == rank_views(errors@),
            best < i <= errors@.len(),
            forall|j: int| 0 <= j < i ==> !rank_lt(#[trigger] r[best as int], r[j]),
            forall|j: int| 0 <= j < best ==> rank_lt(#[trigger] r[j], r[best as int]),
        decreases errors@.len() - i,
    {
        if rank_lt_exec(&errors[best], &errors[i]) {
            proof {
                assert forall|j: int| 0 <= j < i implies rank_lt(#[trigger] r[j], r[i as int]) by {
                    lemma_rank_order(r[j], r[best as int], r[i as int]);
                    lemma_rank_order(r[best as int], r[j], r[i as int]);
                    lemma_rank_order(r[j], r[best as int], r[best as int]);
                }
                assert forall|j: int| 0 <= j <= i implies !rank_lt(#[trigger] r[i as int], r[j]) by {
                    lemma_rank_order(r[j], r[i as int], r[j]);
                    lemma_rank_order(r[i as int], r[i as int], r[i as int]);
                }
            }
            best = i;
        }
        i = i + 1;
    }
    Some(best)
}

/// Where to go next from an error with sub-errors `context`: the first of
/// the lowest-ranked, unless the two lowest rank equally or there are none.
pub fn descend_choice(context: &[ErrorRank]) -> (r: Option<usize>)
    ensures
        match r {
            None => context@.len() == 0 || exists|m: int, k: int|
                #![trigger rank_views(context@)[m], rank_views(context@)[k]]
                is_first_least(rank_views(context@), m) && 0 <= k < context@.len() && k != m
                    && rank_eq(rank_views(context@)[k], rank_views(context@)[m]),
            Some(m) => is_first_least(rank_views(context@), m as int) && forall|k: int|
                0 <= k < context@.len() && k != m ==> !rank_eq(
                    #[trigger] rank_views(context@)[k],
                    rank_views(context@)[m as int],
                ),
        },
{
    if context.len() == 0 {
        return None;
    }
    let ghost r = rank_views(context@);
    let mut least: usize = 0;
    let mut i: usize = 1;
    proof {
        lemma_rank_order(r[0], r[0], r[0]);
    }
    while i < context.len()
        invariant
            r == rank_views(context@),
            least < i <= context@.len(),
            forall|j: int| 0 <= j < i ==> !rank_lt(r[j], #[trigger] r[least as int]),
            forall|j: int| 0 <= j < least ==> rank_lt(#[trigger] r[least as int], r[j]),
        decreases context@.len() - i,
    {
        if rank_lt_exec(&context[i], &context[least]) {
            proof {
                assert forall|j: int| 0 <= j < i implies rank_lt(r[i as int], #[trigger] r[j]) by {
                    lemma_rank_order(r[i as int], r[least as int], r[j]);
                    lemma_rank_order(r[least as int], r[j], r[i as int]);
                    lemma_rank_order(r[least as int], r[least as int], r[j]);
                    lemma_rank_order(r[j], r[least as int], r[i as int]);
                }
                assert forall|j: int| 0 <= j <= i implies !rank_lt(r[j], #[trigger] r[i as int]) by {
                    lemma_rank_order(r[j], r[i as int], r[j]);
                    lemma_rank_order(r[i as int], r[i as int], r[i as int]);
                }
            }
            least = i;
        }
        i = i + 1;
    }
    assert(is_first_least(r, least as int));
    let mut k: usize = 0;
    while k < context.len()
        invariant
            r == rank_views(context@),
            least < context@.len(),
            k <= context@.len(),
            is_first_least(r, least as int),
            forall|j: int| 0 <= j < k && j != least ==> !rank_eq(#[trigger] r[j], r[least as int]),
        decreases context@.len() - k,
    {
        if k != least && path_eq_exec(context[k].path.as_slice(), context[least].path.as_slice())
            && context[k].weak == context[least].weak {
            assert(rank_eq(r[k as int], r[least as int]));
            return None;
        }
        k = k + 1;
    }
    Some(least)
}

// ---------------------------------------------------------------------------
// Instance paths
// ---------------------------------------------------------------------------

/// One JSON Pointer reference token unescaped: `~1` is `/`, then `~0` is `~`.
pub open spec fn unescape_token(t: Seq<char>) -> Seq<char>
    decreases t.len(),
{
    if t.len() == 0 {
        Seq::empty()
    } else if t.len() >= 2 && t[0] == '~' && t[1] == '1' {
        seq!['/'] + unescape_token(t.subrange(2, t.len() as int))
    } else {
        seq![t[0]] + unescape_token(t.drop_first())
    }
}

/// `~0` unescaped to `~`, after `~1`.
pub open spec fn unescape_tilde(t: Seq<char>) -> Seq<char>
    decreases t.len(),
{
    if t.len() == 0 {
        Seq::empty()
    } else if t.len() >= 2 && t[0] == '~' && t[1] == '0' {
        seq!['~'] + unescape_tilde(t.subrange(2, t.len() as int))
    } else {
        seq![t[0]] + unescape_tilde(t.drop_first())
    }
}

/// A JSON Pointer's reference tokens, unescaped.
pub open spec fn pointer_tokens(pointer: Seq<char>) -> Seq<Seq<char>> {
    let pieces = split_on(pointer, seq!['/']).drop_first();
    Seq::new(pieces.len(), |i: int| unescape_tilde(unescape_token(pieces[i])))
}

/// A JSON Pointer as the report writes it: its tokens joined with `.`, so an
/// element of a list reads `at 11` rather than `at [11]`.
pub open spec fn dotted_spec(pointer: Seq<char>) -> Seq<char> {
    join(pointer_tokens(pointer), seq!['.'])
}

fn unescape_exec(t: &[char], second: char, replacement: char) -> (r: Vec<char>)
    requires
        second == '1' || second == '0',
        second == '1' ==> replacement == '/',
        second == '0' ==> replacement == '~',
    ensures
        second == '1' ==> r@ == unescape_token(t@),
        second == '0' ==> r@ == unescape_tilde(t@),
{
    let mut out: Vec<char> = Vec::new();
    let mut i: usize = 0;
    let ghost f = |s: Seq<char>| if second == '1' {
        unescape_token(s)
    } else {
        unescape_tilde(s)
    };
    assert(t@.skip(0) =~= t@);
    while i < t.len()
        invariant
            i <= t@.len(),
            second == '1' || second == '0',
            second == '1' ==> replacement == '/',
            second == '0' ==> replacement == '~',
            f == (|s: Seq<char>| if second == '1' {
                unescape_token(s)
            } else {
                unescape_tilde(s)
            }),
            f(t@) == out@ + f(t@.skip(i as int)),
        decreases t@.len() - i,
    {
        let ghost rest = t@.skip(i as int);
        if i + 1 < t.len() && t[i] == '~' && t[i + 1] == second {
            out.push(replacement);
            assert(rest.subrange(2, rest.len() as int) =~= t@.skip(i + 2));
            assert(f(rest) == seq![replacement] + f(t@.skip(i + 2)));
            assert(out@ + f(t@.skip(i + 2)) =~= out@.drop_last() + f(rest));
            i = i + 2;
        } else {
            out.push(t[i]);
            assert(rest.drop_first() =~= t@.skip(i + 1));
            assert(f(rest) == seq![t@[i as int]] + f(t@.skip(i + 1)));
            assert(out@ + f(t@.skip(i + 1)) =~= out@.drop_last() + f(rest));
            i = i + 1;
        }
    }
    assert(t@.skip(i as int) =~= Seq::<char>::empty());
    assert(out@ + f(Seq::<char>::empty()) =~= out@);
    out
}

/// The tokens of a JSON Pointer, unescaped.
pub fn pointer_token_chars(pointer: &str) -> (r: Vec<Vec<char>>)
    ensures
        views(r@) == pointer_tokens(pointer@),
{
    let chars = chars_of(pointer);
    let pieces = split_chars(chars.as_slice(), &['/']);
    assert(['/']@ =~= seq!['/']);
    let ghost all = views(pieces@);
    let ghost want = pointer_tokens(pointer@);
    assert(all == split_on(pointer@, seq!['/']));
    proof {
        crate::text::lemma_split_on_nonempty(pointer@, seq!['/']);
    }
    let mut out: Vec<Vec<char>> = Vec::new();
    let mut i: usize = 1;
    while i < pieces.len()
        invariant
            1 <= i <= pieces@.len(),
            all == views(pieces@),
            all.len() >= 1,
            want == Seq::new(
                (all.len() - 1) as nat,
                |k: int| unescape_tilde(unescape_token(all.drop_first()[k])),
            ),
            views(out@) == want.take(i - 1),
        decreases pieces@.len() - i,
    {
        let first = unescape_exec(pieces[i].as_slice(), '1', '/');
        let token = unescape_exec(first.as_slice(), '0', '~');
        proof {
            lemma_views_push(out@, token);
            assert(all.drop_first()[i - 1] == all[i as int]);
        }
        out.push(token);
        assert(views(out@) =~= want.take(i as int));
        i = i + 1;
    }
    assert(want.take(all.len() - 1) =~= want);
    out
}

/// Write a JSON Pointer the way the report does: its tokens joined with `.`.
pub fn dotted_path(pointer: &str) -> (s: String)
    ensures
        s@ == dotted_spec(pointer@),
{
    let tokens = pointer_token_chars(pointer);
    let joined = join_chars(&tokens, &['.']);
    assert(['.']@ =~= seq!['.']);
    string_of(joined.as_slice())
}


/// What `str::parse::<u64>` makes of a token: an optional `+`, then at
/// least one ASCII digit, the value fitting in 64 bits.
pub open spec fn parse_u64(p: Seq<char>) -> Option<nat> {
    let digits = if p.len() > 0 && p[0] == '+' {
        p.drop_first()
    } else {
        p
    };
    if digits.len() > 0 && all_digits(digits) && digits_value(digits) <= u64::MAX {
        Some(digits_value(digits))
    } else {
        None
    }
}

fn parse_u64_exec(p: &[char]) -> (r: Option<u64>)
    ensures
        match parse_u64(p@) {
            Some(v) => r == Some(v as u64),
            None => r is None,
        },
{
    let start: usize = if p.len() > 0 && p[0] == '+' {
        1
    } else {
        0
    };
    let ghost digits = if p@.len() > 0 && p@[0] == '+' {
        p@.drop_first()
    } else {
        p@
    };
    assert(digits =~= p@.skip(start as int));
    if start >= p.len() {
        return None;
    }
    let big: u128 = 0xFFFF_FFFF_FFFF_FFFF;
    let mut val: u128 = 0;
    let mut i: usize = start;
    assert(p@.subrange(start as int, start as int) =~= Seq::<char>::empty());
    while i < p.len()
        invariant
            start <= i <= p@.len(),
            start < p@.len(),
            big == u64::MAX,
            digits == p@.skip(start as int),
            digits == (if p@.len() > 0 && p@[0] == '+' {
                p@.drop_first()
            } else {
                p@
            }),
            all_digits(p@.subrange(start as int, i as int)),
            digits_value(p@.subrange(start as int, i as int)) <= big ==> val == digits_value(
                p@.subrange(start as int, i as int),
            ),
            (digits_value(p@.subrange(start as int, i as int)) > big) == (val > big),
            val <= big * 10 + 9,
        decreases p@.len() - i,
    {
        let c = p[i];
        if !('0' <= c && c <= '9') {
            assert(digits[i - start] == c);
            assert(!all_digits(digits));
            return None;
        }
        let ghost pre = p@.subrange(start as int, i as int);
        let ghost next = p@.subrange(start as int, i + 1);
        assert(next.drop_last() =~= pre);
        assert(next.last() == c);
        let d: u128 = (c as u128) - ('0' as u128);
        if val <= big {
            val = val * 10 + d;
        } else {
            assert(digits_value(next) >= digits_value(pre) * 10);
            val = big + 1;
        }
        i += 1;
    }
    assert(p@.subrange(start as int, p@.len() as int) =~= digits);
    if val > big {
        None
    } else {
        Some(val as u64)
    }
}

/// The path steps of a JSON Pointer: each raw token that parses as an
/// unsigned 64-bit number is an index, any other is a property, unescaped.
pub open spec fn path_steps(pointer: Seq<char>) -> Seq<PartView> {
    let pieces = split_on(pointer, seq!['/']).drop_first();
    Seq::new(
        pieces.len(),
        |i: int|
            match parse_u64(pieces[i]) {
                Some(n) => PartView::Index(n),
                None => PartView::Property(unescape_tilde(unescape_token(pieces[i]))),
            },
    )
}

/// The path steps of a JSON Pointer, as the ranking compares them.
pub fn path_parts(pointer: &str) -> (r: Vec<PathPart>)
    ensures
        part_views(r@) == path_steps(pointer@),
{
    let chars = chars_of(pointer);
    let pieces = split_chars(chars.as_slice(), &['/']);
    assert(['/']@ =~= seq!['/']);
    let ghost all = views(pieces@);
    let ghost want = path_steps(pointer@);
    proof {
        crate::text::lemma_split_on_nonempty(pointer@, seq!['/']);
    }
    let mut out: Vec<PathPart> = Vec::new();
    let mut i: usize = 1;
    while i < pieces.len()
        invariant
            1 <= i <= pieces@.len(),
            all == views(pieces@),
            all == split_on(pointer@, seq!['/']),
            all.len() >= 1,
            want == path_steps(pointer@),
            part_views(out@) == want.take(i - 1),
        decreases pieces@.len() - i,
    {
        assert(all.drop_first()[i - 1] == all[i as int]);
        let ghost piece = all[i as int];
        assert(pieces@[i as int]@ == piece);
        let part = match parse_u64_exec(pieces[i].as_slice()) {
            Some(n) => {
                assert(parse_u64(piece) is Some);
                assert(parse_u64(piece).unwrap() <= u64::MAX);
                PathPart::Index(n)
            },
            None => {
                let first = unescape_exec(pieces[i].as_slice(), '1', '/');
                let token = unescape_exec(first.as_slice(), '0', '~');
                PathPart::Property(string_of(token.as_slice()))
            },
        };
        assert(part@ == want[i - 1]);
        let ghost before = out@;
        let ghost pv = part@;
        out.push(part);
        assert(part_views(out@) =~= part_views(before).push(pv));
        assert(part_views(out@) =~= want.take(i as int));
        i = i + 1;
    }
    assert(want.take(all.len() - 1) =~= want);
    out
}

} // verus!
