//! Artifact storage rules: sanitising names that become path components, and
//! the lexical path-traversal guard.
//!
//! Paths are handled as POSIX path strings, compared component by component
//! the way `std::path::Path` splits them: a leading `/` is the root
//! component, empty segments and `.` are dropped, and `..` removes the
//! preceding normal component (if there is one).
use vstd::prelude::*;
use crate::text::{
    chars_of, contains, contains_exec, is_alphanumeric, push_str, split_chars, split_on,
    string_of, unicode_alphanumeric, views,
};

verus! {

broadcast use vstd::string::group_string_axioms;

/// How a character of a name survives sanitising: alphanumerics, `-` and
/// `_` stay, anything else becomes `-`.
pub open spec fn sanitize_char(c: char) -> char {
    if unicode_alphanumeric(c) || c == '-' || c == '_' {
        c
    } else {
        '-'
    }
}

/// A name made safe as a single path component; `default` when empty.
pub open spec fn sanitize_spec(s: Seq<char>) -> Seq<char> {
    if s.len() == 0 {
        "default"@
    } else {
        Seq::new(s.len(), |i: int| sanitize_char(s[i]))
    }
}

/// Sanitize a user-controlled path component.
pub fn sanitize_component(input: &str) -> (r: String)
    ensures
        r@ == sanitize_spec(input@),
{
    let chars = chars_of(input);
    if chars.len() == 0 {
        return "default".to_owned();
    }
    let mut out: Vec<char> = Vec::new();
    let mut i: usize = 0;
    while i < chars.len()
        invariant
            chars@ == input@,
            i <= chars@.len(),
            out@ == Seq::new(i as nat, |j: int| sanitize_char(chars@[j])),
        decreases chars@.len() - i,
    {
        let c = chars[i];
        let kept = if is_alphanumeric(c) || c == '-' || c == '_' { c } else { '-' };
        out.push(kept);
        assert(out@ =~= Seq::new((i + 1) as nat, |j: int| sanitize_char(chars@[j])));
        i += 1;
    }
    assert(out@ =~= sanitize_spec(input@));
    string_of(out.as_slice())
}

/// The segments of a path string that name components: not empty, not `.`.
pub open spec fn path_segments(s: Seq<char>) -> Seq<Seq<char>> {
    split_on(s, seq!['/']).filter(|p: Seq<char>| p.len() > 0 && p != seq!['.'])
}

/// Applying `segments` in order to the normal components `acc`: `..` drops
/// the last one (if any), anything else is appended.
pub open spec fn resolve_segments(acc: Seq<Seq<char>>, segments: Seq<Seq<char>>) -> Seq<Seq<char>>
    decreases segments.len(),
{
    if segments.len() == 0 {
        acc
    } else {
        let before = resolve_segments(acc, segments.drop_last());
        if segments.last() == seq!['.', '.'] {
            if before.len() > 0 {
                before.drop_last()
            } else {
                before
            }
        } else {
            before.push(segments.last())
        }
    }
}

/// The components of `s` after lexical normalisation: the root (written
/// `/`) first when `s` is absolute, then its normal components with each
/// `..` applied.
pub open spec fn normalized_components(s: Seq<char>) -> Seq<Seq<char>> {
    let normal = resolve_segments(Seq::<Seq<char>>::empty(), path_segments(s));
    if s.len() > 0 && s[0] == '/' {
        seq![seq!['/']] + normal
    } else {
        normal
    }
}

/// `candidate` stays within `base`: the normalised components of `base`
/// are a prefix of those of `candidate`.
pub open spec fn within_base(base: Seq<char>, candidate: Seq<char>) -> bool {
    let b = normalized_components(base);
    let c = normalized_components(candidate);
    b.len() <= c.len() && c.take(b.len() as int) == b
}

/// The message for a path that escapes its base.
pub open spec fn traversal_message(base: Seq<char>, candidate: Seq<char>) -> Seq<char> {
    "path traversal detected: "@ + candidate + " escapes base "@ + base
}

fn is_dotdot(p: &[char]) -> (r: bool)
    ensures
        r == (p@ == seq!['.', '.']),
{
    if p.len() == 2 && p[0] == '.' && p[1] == '.' {
        assert(p@ =~= seq!['.', '.']);
        true
    } else {
        assert(p@ != seq!['.', '.']) by {
            if p@.len() == 2 {
                assert(p@[0] != '.' || p@[1] != '.');
            }
        }
        false
    }
}

fn normalized_components_exec(s: &str) -> (r: Vec<Vec<char>>)
    ensures
        views(r@) == normalized_components(s@),
{
    let chars = chars_of(s);
    let pieces = split_chars(chars.as_slice(), &['/']);
    assert(['/']@ =~= seq!['/']);
    let ghost all = views(pieces@);
    let ghost keep = |p: Seq<char>| p.len() > 0 && p != seq!['.'];
    let mut normal: Vec<Vec<char>> = Vec::new();
    let mut i: usize = 0;
    assert(all.take(0) =~= Seq::<Seq<char>>::empty());
    proof { reveal(Seq::filter); }
    assert(views(normal@) =~= resolve_segments(Seq::<Seq<char>>::empty(), all.take(0).filter(keep)));
    while i < pieces.len()
        invariant
            all == views(pieces@),
            all == split_on(s@, seq!['/']),
            keep == (|p: Seq<char>| p.len() > 0 && p != seq!['.']),
            i <= all.len(),
            views(normal@) == resolve_segments(Seq::<Seq<char>>::empty(), all.take(i as int).filter(keep)),
        decreases all.len() - i,
    {
        let ghost t = all.take(i + 1);
        let ghost prev = all.take(i as int).filter(keep);
        assert(t.drop_last() =~= all.take(i as int));
        assert(t.last() == all[i as int]);
        proof { reveal(Seq::filter); }
        assert(t.filter(keep) == if keep(t.last()) {
            prev.push(t.last())
        } else {
            prev
        });
        let piece = &pieces[i];
        let is_dot: bool = piece.len() == 1 && piece[0] == '.';
        if is_dot {
            assert(piece@ =~= seq!['.']);
        } else if piece.len() == 1 {
            assert(piece@ != seq!['.']) by { assert(piece@[0] != '.'); }
        }
        if piece.len() > 0 && !is_dot {
            assert(keep(all[i as int]));
            assert(prev.push(all[i as int]).drop_last() =~= prev);
            if is_dotdot(piece.as_slice()) {
                if normal.len() > 0 {
                    let ghost before = views(normal@);
                    normal.pop();
                    assert(views(normal@) =~= before.drop_last());
                }
            } else {
                let mut p: Vec<char> = Vec::new();
                p.extend_from_slice(piece.as_slice());
                assert(p@ =~= all[i as int]);
                proof { crate::text::lemma_views_push(normal@, p); }
                normal.push(p);
            }
        }
        i += 1;
    }
    assert(all.take(all.len() as int) =~= all);
    if chars.len() > 0 && chars[0] == '/' {
        let mut out: Vec<Vec<char>> = Vec::new();
        let mut root: Vec<char> = Vec::new();
        root.push('/');
        out.push(root);
        let mut j: usize = 0;
        assert(views(out@) =~= seq![seq!['/']] + views(normal@).take(0));
        while j < normal.len()
            invariant
                j <= normal@.len(),
                views(out@) == seq![seq!['/']] + views(normal@).take(j as int),
            decreases normal@.len() - j,
        {
            let mut p: Vec<char> = Vec::new();
            p.extend_from_slice(normal[j].as_slice());
            assert(p@ =~= normal@[j as int]@);
            proof { crate::text::lemma_views_push(out@, p); }
            out.push(p);
            assert(seq![seq!['/']] + views(normal@).take(j as int).push(normal@[j as int]@) =~= seq![
                seq!['/'],
            ] + views(normal@).take(j + 1));
            j += 1;
        }
        assert(views(normal@).take(normal@.len() as int) =~= views(normal@));
        return out;
    }
    normal
}

fn components_prefix(b: &Vec<Vec<char>>, c: &Vec<Vec<char>>) -> (r: bool)
    ensures
        r == (views(b@).len() <= views(c@).len() && views(c@).take(views(b@).len() as int) == views(b@)),
{
    if b.len() > c.len() {
        return false;
    }
    let mut i: usize = 0;
    while i < b.len()
        invariant
            b@.len() <= c@.len(),
            i <= b@.len(),
            forall|j: int| 0 <= j < i ==> views(c@)[j] == views(b@)[j],
        decreases b@.len() - i,
    {
        if !crate::text::chars_eq(b[i].as_slice(), c[i].as_slice()) {
            assert(views(c@).take(b@.len() as int)[i as int] != views(b@)[i as int]);
            return false;
        }
        i += 1;
    }
    assert(views(c@).take(b@.len() as int) =~= views(b@));
    true
}

/// Ensure `candidate` is within `base` (path traversal guard), comparing
/// lexically normalised components; the paths need not exist.
pub fn ensure_within_base(base: &str, candidate: &str) -> (r: Result<(), String>)
    ensures
        r is Ok <==> within_base(base@, candidate@),
        r matches Err(e) ==> e@ == traversal_message(base@, candidate@),
{
    let b = normalized_components_exec(base);
    let c = normalized_components_exec(candidate);
    if components_prefix(&b, &c) {
        Ok(())
    } else {
        let mut e = String::new();
        push_str(&mut e, "path traversal detected: ");
        push_str(&mut e, candidate);
        push_str(&mut e, " escapes base ");
        push_str(&mut e, base);
        Err(e)
    }
}

/// `run_dir` joined with the relative path `value`, as `Path::join` writes
/// it: a separator goes between them unless `run_dir` is empty or already
/// ends in one.
pub open spec fn joined_path(run_dir: Seq<char>, value: Seq<char>) -> Seq<char> {
    if run_dir.len() == 0 {
        value
    } else if run_dir.last() == '/' {
        run_dir + value
    } else {
        run_dir + seq!['/'] + value
    }
}

/// The message for an artifact path that holds `..`.
pub open spec fn dotdot_message(value: Seq<char>) -> Seq<char> {
    "artifact path contains '..': "@ + value
}

/// Validate an artifact path value: it must not contain `..`, and a relative
/// one must stay within the run directory once joined to it.
pub fn validate_artifact_path(run_dir: &str, value: &str) -> (r: Result<(), String>)
    ensures
        contains(value@, seq!['.', '.']) ==> r == Err::<(), String>(r->Err_0) && r->Err_0@ == dotdot_message(value@),
        !contains(value@, seq!['.', '.']) && value@.len() > 0 && value@[0] == '/' ==> r is Ok,
        !contains(value@, seq!['.', '.']) && !(value@.len() > 0 && value@[0] == '/') ==> (r is Ok <==> within_base(
            run_dir@,
            joined_path(run_dir@, value@),
        )),
{
    let v = chars_of(value);
    if contains_exec(v.as_slice(), &['.', '.']) {
        assert(['.', '.']@ =~= seq!['.', '.']);
        let mut e = String::new();
        push_str(&mut e, "artifact path contains '..': ");
        push_str(&mut e, value);
        return Err(e);
    }
    assert(['.', '.']@ =~= seq!['.', '.']);
    if !(v.len() > 0 && v[0] == '/') {
        let run = chars_of(run_dir);
        let mut joined: Vec<char> = Vec::new();
        joined.extend_from_slice(run.as_slice());
        if run.len() > 0 && run[run.len() - 1] != '/' {
            joined.push('/');
        }
        joined.extend_from_slice(v.as_slice());
        assert(joined@ =~= joined_path(run_dir@, value@));
        let joined_str = string_of(joined.as_slice());
        return match ensure_within_base(run_dir, joined_str.as_str()) {
            Ok(()) => Ok(()),
            Err(e) => Err(e),
        };
    }
    Ok(())
}


/// The directory a run writes into:
/// `<base>/<timestamp>-<recipe>-<renderer>-<pid>-<suffix>`, the names
/// sanitised, so that runs started together never share a directory.
pub open spec fn run_dir_spec(base: Seq<char>, timestamp: Seq<char>, recipe: Seq<char>, renderer: Seq<char>, pid: u32, suffix: Seq<char>) -> Seq<char> {
    joined_path(
        base,
        timestamp + "-"@ + sanitize_spec(recipe) + "-"@ + sanitize_spec(renderer) + "-"@
            + crate::text::decimal(pid as nat) + "-"@ + suffix,
    )
}

/// The directory for a new run, from the clock reading, the process id and
/// an extra suffix the caller supplies. Nothing is created.
pub fn new_run_dir(base: &str, timestamp: &str, recipe: &str, renderer: &str, pid: u32, suffix: &str) -> (p: String)
    ensures
        p@ == run_dir_spec(base@, timestamp@, recipe@, renderer@, pid, suffix@),
{
    let mut name = crate::text::owned(timestamp);
    crate::text::push_str(&mut name, "-");
    crate::text::push_str(&mut name, sanitize_component(recipe).as_str());
    crate::text::push_str(&mut name, "-");
    crate::text::push_str(&mut name, sanitize_component(renderer).as_str());
    crate::text::push_str(&mut name, "-");
    let mut digits: Vec<char> = Vec::new();
    crate::text::push_decimal(&mut digits, pid as u64);
    assert(digits@ =~= crate::text::decimal(pid as nat));
    crate::text::push_str(&mut name, crate::text::string_of(digits.as_slice()).as_str());
    crate::text::push_str(&mut name, "-");
    crate::text::push_str(&mut name, suffix);
    crate::cache::join_exec(base, name.as_str())
}

} // verus!
