//! `pathlib.PurePosixPath`'s lexical joining and rendering.
//!
//! Empty segments and `.` are dropped when parsing, `..` is kept (the kernel
//! resolves it against the real tree), an absolute right-hand side replaces
//! the left on joining, and a path with no parts renders as `/` or `.`.
use vstd::prelude::*;
use crate::text::{chars_of, join, join_chars, push_chars, split_chars, split_on, string_of, views};

verus! {

broadcast use vstd::string::group_string_axioms;

/// A path: whether it starts at the root, and its parts.
pub struct PathView {
    pub absolute: bool,
    pub parts: Seq<Seq<char>>,
}

/// A lexically normalised POSIX path.
#[derive(Debug, Clone, PartialEq, Eq)]
pub struct PyPath {
    absolute: bool,
    parts: Vec<Vec<char>>,
}

impl View for PyPath {
    type V = PathView;

    closed spec fn view(&self) -> PathView {
        PathView { absolute: self.absolute, parts: views(self.parts@) }
    }
}

/// A part that parsing keeps: not empty and not `.`.
pub open spec fn kept_part(p: Seq<char>) -> bool {
    p.len() > 0 && p != seq!['.']
}

/// `PurePosixPath(s)`: absolute when `s` starts with `/`, and the segments
/// between slashes other than empty ones and `.`.
pub open spec fn parse_spec(s: Seq<char>) -> PathView {
    PathView {
        absolute: s.len() > 0 && s[0] == '/',
        parts: split_on(s, seq!['/']).filter(|p: Seq<char>| kept_part(p)),
    }
}

/// `self / other`: an absolute `other` replaces `self`.
pub open spec fn join_spec(a: PathView, b: PathView) -> PathView {
    if b.absolute {
        b
    } else {
        PathView { absolute: a.absolute, parts: a.parts + b.parts }
    }
}

/// `str(path)`: `/` or `.` for a path with no parts, otherwise the parts
/// joined with `/`, after a leading `/` when absolute.
pub open spec fn render_spec(p: PathView) -> Seq<char> {
    if p.parts.len() == 0 {
        if p.absolute {
            seq!['/']
        } else {
            seq!['.']
        }
    } else if p.absolute {
        seq!['/'] + join(p.parts, seq!['/'])
    } else {
        join(p.parts, seq!['/'])
    }
}

fn is_kept_part(p: &[char]) -> (r: bool)
    ensures
        r == kept_part(p@),
{
    if p.len() == 0 {
        return false;
    }
    if p.len() == 1 && p[0] == '.' {
        assert(p@ =~= seq!['.']);
        return false;
    }
    assert(p@ != seq!['.']) by {
        if p@.len() == 1 {
            assert(p@[0] != '.');
        }
    }
    true
}

fn copy_parts(v: &Vec<Vec<char>>, out: &mut Vec<Vec<char>>)
    ensures
        views(final(out)@) == views(old(out)@) + views(v@),
{
    let ghost start = views(out@);
    let mut i: usize = 0;
    while i < v.len()
        invariant
            i <= v@.len(),
            views(out@) == start + views(v@).take(i as int),
        decreases v@.len() - i,
    {
        let mut p: Vec<char> = Vec::new();
        p.extend_from_slice(v[i].as_slice());
        assert(p@ =~= v@[i as int]@);
        proof { crate::text::lemma_views_push(out@, p); }
        out.push(p);
        assert(start + views(v@).take(i as int).push(v@[i as int]@) =~= start + views(v@).take(i + 1));
        i += 1;
    }
    assert(views(v@).take(v@.len() as int) =~= views(v@));
}

impl PyPath {
    /// Parse a path string the way `PurePosixPath(s)` does.
    pub fn parse(path: &str) -> (p: Self)
        ensures
            p@ == parse_spec(path@),
    {
        let chars = chars_of(path);
        let absolute = chars.len() > 0 && chars[0] == '/';
        let pieces = split_chars(chars.as_slice(), &['/']);
        assert(['/']@ =~= seq!['/']);
        let ghost all = views(pieces@);
        let ghost keep = |p: Seq<char>| kept_part(p);
        let mut parts: Vec<Vec<char>> = Vec::new();
        let mut i: usize = 0;
        assert(all.take(0) =~= Seq::<Seq<char>>::empty());
        proof { reveal(Seq::filter); }
        assert(views(parts@) =~= all.take(0).filter(keep));
        while i < pieces.len()
            invariant
                all == views(pieces@),
                all == split_on(path@, seq!['/']),
                keep == (|p: Seq<char>| kept_part(p)),
                i <= all.len(),
                views(parts@) == all.take(i as int).filter(keep),
            decreases all.len() - i,
        {
            let ghost t = all.take(i + 1);
            assert(t.drop_last() =~= all.take(i as int));
            assert(t.last() == all[i as int]);
            proof { reveal(Seq::filter); }
            assert(t.filter(keep) == if keep(t.last()) {
                t.drop_last().filter(keep).push(t.last())
            } else {
                t.drop_last().filter(keep)
            });
            if is_kept_part(pieces[i].as_slice()) {
                let mut p: Vec<char> = Vec::new();
                p.extend_from_slice(pieces[i].as_slice());
                assert(p@ =~= all[i as int]);
                proof { crate::text::lemma_views_push(parts@, p); }
                parts.push(p);
            }
            i += 1;
        }
        assert(all.take(all.len() as int) =~= all);
        PyPath { absolute, parts }
    }

    /// Whether the path starts at the root.
    pub fn is_absolute(&self) -> (r: bool)
        ensures
            r == self@.absolute,
    {
        self.absolute
    }

    /// Join, the way `self / other` does: an absolute `other` replaces `self`
    /// entirely rather than being appended to it.
    pub fn join(&self, other: &Self) -> (p: Self)
        ensures
            p@ == join_spec(self@, other@),
    {
        let mut parts: Vec<Vec<char>> = Vec::new();
        if other.absolute {
            copy_parts(&other.parts, &mut parts);
            assert(views(parts@) =~= other@.parts);
            return PyPath { absolute: true, parts };
        }
        copy_parts(&self.parts, &mut parts);
        copy_parts(&other.parts, &mut parts);
        assert(views(parts@) =~= self@.parts + other@.parts);
        PyPath { absolute: self.absolute, parts }
    }

    /// Render the way `str(path)` does.
    pub fn to_string(&self) -> (s: String)
        ensures
            s@ == render_spec(self@),
    {
        if self.parts.len() == 0 {
            if self.absolute {
                return string_of(&['/']);
            } else {
                return string_of(&['.']);
            }
        }
        let body = join_chars(&self.parts, &['/']);
        let mut out: Vec<char> = Vec::new();
        if self.absolute {
            out.push('/');
        }
        out.extend_from_slice(body.as_slice());
        assert(['/']@ =~= seq!['/']);
        assert(out@ =~= render_spec(self@));
        string_of(out.as_slice())
    }
}

/// Joining is associative: `(a / b) / c` is `a / (b / c)`.
pub proof fn lemma_join_associative(a: PathView, b: PathView, c: PathView)
    ensures
        join_spec(join_spec(a, b), c) == join_spec(a, join_spec(b, c)),
{
    if !b.absolute && !c.absolute {
        assert(a.parts + b.parts + c.parts =~= a.parts + (b.parts + c.parts));
    }
}

/// Joining a path with no parts that is not absolute (`.`, or the empty
/// string) changes nothing, on either side.
pub proof fn lemma_join_dot_is_identity(a: PathView, dot: PathView)
    requires
        !dot.absolute,
        dot.parts.len() == 0,
    ensures
        join_spec(a, dot) == a,
        join_spec(dot, a) == a,
{
    assert(a.parts + dot.parts =~= a.parts);
    assert(dot.parts + a.parts =~= a.parts);
}

} // verus!
