//! Text normalisation for rendered evidence, and the choice of renderer by
//! file suffix.
use vstd::prelude::*;
use crate::text::{
    chars_of, join, join_chars, lines_chars, lines_of, string_of, trim_end, trim_end_chars, views,
};

verus! {

broadcast use vstd::string::group_string_axioms;

/// `lines` without its trailing empty lines.
pub open spec fn drop_trailing_blank(lines: Seq<Seq<char>>) -> Seq<Seq<char>>
    decreases lines.len(),
{
    if lines.len() > 0 && lines.last().len() == 0 {
        drop_trailing_blank(lines.drop_last())
    } else {
        lines
    }
}

/// Screen text normalised: each line with trailing whitespace trimmed,
/// trailing empty lines dropped, joined with `\n`.
pub open spec fn normalize_text_spec(text: Seq<char>) -> Seq<char> {
    let trimmed = Seq::new(lines_of(text).len(), |i: int| trim_end(lines_of(text)[i]));
    join(drop_trailing_blank(trimmed), seq!['\n'])
}

/// Normalize screen text: trim trailing whitespace per line, drop trailing
/// empty lines.
pub fn normalize_text(text: &str) -> (r: String)
    ensures
        r@ == normalize_text_spec(text@),
{
    let chars = chars_of(text);
    let lines = lines_chars(chars.as_slice());
    let ghost ls = lines_of(text@);
    let ghost want = Seq::new(ls.len(), |i: int| trim_end(ls[i]));
    let mut trimmed: Vec<Vec<char>> = Vec::new();
    let mut i: usize = 0;
    while i < lines.len()
        invariant
            views(lines@) == ls,
            want == Seq::new(ls.len(), |i: int| trim_end(ls[i])),
            i <= ls.len(),
            views(trimmed@) == want.take(i as int),
        decreases ls.len() - i,
    {
        let t = trim_end_chars(lines[i].as_slice());
        assert(lines@[i as int]@ == ls[i as int]);
        proof { crate::text::lemma_views_push(trimmed@, t); }
        trimmed.push(t);
        assert(want.take(i as int).push(want[i as int]) =~= want.take(i + 1));
        i += 1;
    }
    assert(want.take(ls.len() as int) =~= want);
    while trimmed.len() > 0 && trimmed[trimmed.len() - 1].len() == 0
        invariant
            drop_trailing_blank(want) == drop_trailing_blank(views(trimmed@)),
        decreases trimmed@.len(),
    {
        let ghost before = views(trimmed@);
        trimmed.pop();
        assert(views(trimmed@) =~= before.drop_last());
    }
    let joined = join_chars(&trimmed, &['\n']);
    assert(['\n']@ =~= seq!['\n']);
    string_of(joined.as_slice())
}

/// The file name of a POSIX path, as `Path::file_name` gives it: its last
/// component, unless the path ends in `..` or has no normal component.
pub open spec fn file_name(path: Seq<char>) -> Option<Seq<char>> {
    let parts = crate::store::path_segments(path);
    if parts.len() == 0 || parts.last() == seq!['.', '.'] {
        None
    } else {
        Some(parts.last())
    }
}

/// The extension of a file name, as `Path::extension` gives it: what follows
/// the last `.`, when something other than nothing precedes that dot.
pub open spec fn extension_of(name: Seq<char>) -> Option<Seq<char>> {
    if exists|i: int| 0 < i < name.len() && name[i] == '.' {
        let i = last_dot(name, name.len() - 1);
        Some(name.subrange(i + 1, name.len() as int))
    } else {
        None
    }
}

/// The last position at or before `i` holding a `.`, or -1.
pub open spec fn last_dot(name: Seq<char>, i: int) -> int
    decreases i + 1,
{
    if i < 0 {
        -1
    } else if name[i] == '.' {
        i
    } else {
        last_dot(name, i - 1)
    }
}

/// `c` with ASCII letters lowered, as `to_ascii_lowercase` does.
pub open spec fn ascii_lower(c: char) -> char {
    if 'A' <= c && c <= 'Z' {
        ((c as u32) + 32) as char
    } else {
        c
    }
}

/// Whether a path's suffix selects the PNG renderer: an extension that is
/// `png` in any ASCII case. Anything else, including no extension, selects
/// SVG.
pub open spec fn selects_png(path: Seq<char>) -> bool {
    match file_name(path) {
        Some(name) => match extension_of(name) {
            Some(ext) => Seq::new(ext.len(), |i: int| ascii_lower(ext[i])) == seq!['p', 'n', 'g'],
            None => false,
        },
        None => false,
    }
}

fn last_dot_exec(name: &[char]) -> (r: Option<usize>)
    ensures
        match r {
            Some(i) => 0 < i < name@.len() && i == last_dot(name@, name@.len() - 1) && name@[i as int] == '.',
            None => !(exists|i: int| 0 < i < name@.len() && name@[i] == '.'),
        },
{
    let mut i: usize = name.len();
    while i > 0
        invariant
            i <= name@.len(),
            forall|j: int| i <= j < name@.len() ==> name@[j] != '.',
            last_dot(name@, name@.len() - 1) == last_dot(name@, i - 1),
        decreases i,
    {
        if name[i - 1] == '.' {
            if i - 1 == 0 {
                return None;
            }
            return Some(i - 1);
        }
        i -= 1;
    }
    None
}

/// The extension of the last component of a path, as `Path::extension`
/// gives it.
pub open spec fn path_extension_spec(path: Seq<char>) -> Option<Seq<char>> {
    match file_name(path) {
        Some(name) => extension_of(name),
        None => None,
    }
}

/// An extension names PNG: it is `png` in any ASCII case.
pub open spec fn png_extension(ext: Seq<char>) -> bool {
    Seq::new(ext.len(), |i: int| ascii_lower(ext[i])) == seq!['p', 'n', 'g']
}

/// The last component of a path, as `Path::file_name` gives it.
fn file_name_exec(path: &str) -> (r: Option<Vec<char>>)
    ensures
        match r {
            Some(n) => file_name(path@) == Some(n@),
            None => file_name(path@) is None,
        },
{
    let chars = chars_of(path);
    let pieces = crate::text::split_chars(chars.as_slice(), &['/']);
    assert(['/']@ =~= seq!['/']);
    let ghost all = views(pieces@);
    let ghost keep = |p: Seq<char>| p.len() > 0 && p != seq!['.'];
    let ghost segs = crate::store::path_segments(path@);
    let mut last: Option<usize> = None;
    let mut i: usize = 0;
    proof { reveal(Seq::filter); }
    assert(all.take(0) =~= Seq::<Seq<char>>::empty());
    while i < pieces.len()
        invariant
            all == views(pieces@),
            all == crate::text::split_on(path@, seq!['/']),
            keep == (|p: Seq<char>| p.len() > 0 && p != seq!['.']),
            i <= all.len(),
            match last {
                Some(k) => k < i && all.take(i as int).filter(keep).len() > 0
                    && all.take(i as int).filter(keep).last() == all[k as int],
                None => all.take(i as int).filter(keep).len() == 0,
            },
        decreases all.len() - i,
    {
        let ghost t = all.take(i + 1);
        assert(t.drop_last() =~= all.take(i as int));
        assert(t.last() == all[i as int]);
        proof { reveal(Seq::filter); }
        let piece = &pieces[i];
        let is_dot: bool = piece.len() == 1 && piece[0] == '.';
        if is_dot {
            assert(piece@ =~= seq!['.']);
        } else if piece.len() == 1 {
            assert(piece@ != seq!['.']) by { assert(piece@[0] != '.'); }
        }
        if piece.len() > 0 && !is_dot {
            last = Some(i);
        }
        i += 1;
    }
    assert(all.take(all.len() as int) =~= all);
    assert(segs == all.filter(keep));
    match last {
        None => {
            assert(segs.len() == 0);
            None
        },
        Some(k) => {
            let name = &pieces[k];
            assert(name@ == all[k as int]);
            assert(segs.len() > 0 && segs.last() == name@);
            if name.len() == 2 && name[0] == '.' && name[1] == '.' {
                assert(name@ =~= seq!['.', '.']);
                return None;
            }
            assert(name@ != seq!['.', '.']) by {
                if name@.len() == 2 {
                    assert(name@[0] != '.' || name@[1] != '.');
                }
            }
            let mut out: Vec<char> = Vec::new();
            out.extend_from_slice(name.as_slice());
            assert(out@ =~= name@);
            Some(out)
        },
    }
}

/// The extension of a path's last component: what follows its last `.`,
/// when something precedes that dot. `None` when there is no such dot or no
/// last component.
pub fn path_extension(path: &str) -> (r: Option<String>)
    ensures
        match r {
            Some(e) => path_extension_spec(path@) == Some(e@),
            None => path_extension_spec(path@) is None,
        },
{
    match file_name_exec(path) {
        None => None,
        Some(name) => match last_dot_exec(name.as_slice()) {
            None => None,
            Some(d) => {
                let n: usize = name.len();
                assert(d < n);
                let ext = crate::text::slice_chars(name.as_slice(), d + 1, n);
                Some(string_of(ext.as_slice()))
            },
        },
    }
}

/// Whether an extension is `png` in any ASCII case.
pub fn is_png_extension(ext: &str) -> (r: bool)
    ensures
        r == png_extension(ext@),
{
    let e = chars_of(ext);
    if e.len() != 3 {
        assert(Seq::new(e@.len(), |j: int| ascii_lower(e@[j])).len() != 3);
        return false;
    }
    let a = e[0];
    let b = e[1];
    let c = e[2];
    let la = if 'A' <= a && a <= 'Z' { ((a as u32) + 32) as u8 as char } else { a };
    let lb = if 'A' <= b && b <= 'Z' { ((b as u32) + 32) as u8 as char } else { b };
    let lc = if 'A' <= c && c <= 'Z' { ((c as u32) + 32) as u8 as char } else { c };
    let ghost lowered = Seq::new(e@.len(), |j: int| ascii_lower(e@[j]));
    assert(lowered[0] == la && lowered[1] == lb && lowered[2] == lc);
    let r = la == 'p' && lb == 'n' && lc == 'g';
    if r {
        assert(lowered =~= seq!['p', 'n', 'g']);
    }
    r
}

/// Whether `path` is rendered as PNG: its extension is `png` in any ASCII
/// case. Anything else is rendered as SVG.
pub fn renders_as_png(path: &str) -> (r: bool)
    ensures
        r == selects_png(path@),
{
    match path_extension(path) {
        None => false,
        Some(e) => is_png_extension(e.as_str()),
    }
}

proof fn lemma_split_pieces_avoid_seps(s: Seq<char>, seps: Seq<char>)
    ensures
        forall|i: int, c: char| 0 <= i < crate::text::split_on(s, seps).len() && seps.contains(c)
            ==> !#[trigger] crate::text::split_on(s, seps)[i].contains(c),
    decreases s.len(),
{
    if s.len() > 0 {
        lemma_split_pieces_avoid_seps(s.drop_last(), seps);
        crate::text::lemma_split_on_nonempty(s.drop_last(), seps);
        let before = crate::text::split_on(s.drop_last(), seps);
        let now = crate::text::split_on(s, seps);
        assert forall|i: int, c: char| 0 <= i < now.len() && seps.contains(c)
            implies !#[trigger] now[i].contains(c) by {
            if seps.contains(s.last()) {
                assert(now == before.push(Seq::<char>::empty()));
                if i < before.len() {
                    assert(now[i] == before[i]);
                } else {
                    assert(now[i] == Seq::<char>::empty());
                }
            } else {
                assert(now == before.update(before.len() - 1, before.last().push(s.last())));
                if i == before.len() - 1 {
                    let piece = before.last().push(s.last());
                    assert(now[i] == piece);
                    if piece.contains(c) {
                        let k = choose|k: int| 0 <= k < piece.len() && piece[k] == c;
                        if k < before.last().len() {
                            assert(before.last()[k] == c);
                            assert(before[before.len() - 1].contains(c));
                        } else {
                            assert(piece[k] == s.last());
                        }
                    }
                } else {
                    assert(now[i] == before[i]);
                }
            }
        }
    }
}

proof fn lemma_split_append_plain(x: Seq<char>, y: Seq<char>)
    requires
        !y.contains('\n'),
    ensures
        crate::text::split_on(x + y, seq!['\n']) == ({
            let p = crate::text::split_on(x, seq!['\n']);
            p.update(p.len() - 1, p.last() + y)
        }),
    decreases y.len(),
{
    crate::text::lemma_split_on_nonempty(x, seq!['\n']);
    let p = crate::text::split_on(x, seq!['\n']);
    if y.len() == 0 {
        assert(x + y =~= x);
        assert(p.last() + y =~= p.last());
        assert(p.update(p.len() - 1, p.last() + y) =~= p);
    } else {
        let y0 = y.drop_last();
        assert(!y0.contains('\n')) by {
            if y0.contains('\n') {
                let k = choose|k: int| 0 <= k < y0.len() && y0[k] == '\n';
                assert(y[k] == '\n');
            }
        }
        lemma_split_append_plain(x, y0);
        assert((x + y).drop_last() =~= x + y0);
        assert((x + y).last() == y.last());
        assert(!seq!['\n'].contains(y.last())) by {
            if seq!['\n'].contains(y.last()) {
                assert(y[y.len() - 1] == '\n');
            }
        }
        let before = crate::text::split_on(x + y0, seq!['\n']);
        assert(before == p.update(p.len() - 1, p.last() + y0));
        assert(before.len() == p.len());
        assert(before.last() == p.last() + y0);
        assert(crate::text::split_on(x + y, seq!['\n']) == before.update(before.len() - 1, before.last().push(y.last())));
        assert((p.last() + y0).push(y.last()) =~= p.last() + y);
        assert(crate::text::split_on(x + y, seq!['\n']) =~= p.update(p.len() - 1, p.last() + y));
    }
}

proof fn lemma_split_join(ls: Seq<Seq<char>>)
    requires
        ls.len() >= 1,
        forall|i: int| 0 <= i < ls.len() ==> !(#[trigger] ls[i]).contains('\n'),
    ensures
        crate::text::split_on(join(ls, seq!['\n']), seq!['\n']) == ls,
    decreases ls.len(),
{
    if ls.len() == 1 {
        lemma_split_append_plain(Seq::empty(), ls[0]);
        assert(Seq::<char>::empty() + ls[0] =~= ls[0]);
        assert(crate::text::split_on(Seq::empty(), seq!['\n']) == seq![Seq::<char>::empty()]);
        assert(seq![Seq::<char>::empty()].update(0, Seq::<char>::empty() + ls[0]) =~= ls);
    } else {
        let init = ls.drop_last();
        lemma_split_join(init);
        let x = join(init, seq!['\n']);
        let xs = x + seq!['\n'];
        assert(crate::text::split_on(xs, seq!['\n']) == init.push(Seq::<char>::empty())) by {
            assert(xs.drop_last() =~= x);
            assert(seq!['\n'].contains(xs.last()));
        }
        lemma_split_append_plain(xs, ls.last());
        assert(join(ls, seq!['\n']) == xs + ls.last());
        let p = init.push(Seq::<char>::empty());
        assert(p.update(p.len() - 1, p.last() + ls.last()) =~= ls);
    }
}

proof fn lemma_trim_end_shape(s: Seq<char>)
    ensures
        crate::text::trim_end(s).len() == 0 || !crate::text::unicode_whitespace(crate::text::trim_end(s).last()),
        crate::text::trim_end(crate::text::trim_end(s)) == crate::text::trim_end(s),
        crate::text::trim_end(s).len() <= s.len(),
        crate::text::trim_end(s) == s.take(crate::text::trim_end(s).len() as int),
    decreases s.len(),
{
    if s.len() > 0 && crate::text::unicode_whitespace(s.last()) {
        lemma_trim_end_shape(s.drop_last());
        let t = crate::text::trim_end(s.drop_last());
        assert(s.drop_last().take(t.len() as int) =~= s.take(t.len() as int));
    } else {
        assert(s.take(s.len() as int) =~= s);
    }
}

proof fn lemma_drop_trailing_blank_shape(ls: Seq<Seq<char>>)
    ensures
        drop_trailing_blank(ls).len() <= ls.len(),
        drop_trailing_blank(ls) == ls.take(drop_trailing_blank(ls).len() as int),
        drop_trailing_blank(ls).len() == 0 || drop_trailing_blank(ls).last().len() > 0,
    decreases ls.len(),
{
    if ls.len() > 0 && ls.last().len() == 0 {
        lemma_drop_trailing_blank_shape(ls.drop_last());
        let d = drop_trailing_blank(ls.drop_last());
        assert(ls.drop_last().take(d.len() as int) =~= ls.take(d.len() as int));
    } else {
        assert(ls.take(ls.len() as int) =~= ls);
    }
}

/// The lines normalised text is made of.
pub open spec fn normalized_lines(text: Seq<char>) -> Seq<Seq<char>> {
    drop_trailing_blank(Seq::new(lines_of(text).len(), |i: int| trim_end(lines_of(text)[i])))
}

proof fn lemma_normalized_lines_shape(text: Seq<char>)
    ensures
        forall|i: int| 0 <= i < normalized_lines(text).len() ==> {
            &&& !(#[trigger] normalized_lines(text)[i]).contains('\n')
            &&& (normalized_lines(text)[i].len() == 0 || !crate::text::unicode_whitespace(
                normalized_lines(text)[i].last(),
            ))
        },
        normalized_lines(text).len() == 0 || normalized_lines(text).last().len() > 0,
{
    let p = crate::text::split_on(text, seq!['\n']);
    lemma_split_pieces_avoid_seps(text, seq!['\n']);
    crate::text::lemma_split_on_nonempty(text, seq!['\n']);
    let ls = lines_of(text);
    let t = Seq::new(ls.len(), |i: int| trim_end(ls[i]));
    lemma_drop_trailing_blank_shape(t);
    let d = normalized_lines(text);
    assert forall|i: int| 0 <= i < d.len() implies {
        &&& !(#[trigger] d[i]).contains('\n')
        &&& (d[i].len() == 0 || !crate::text::unicode_whitespace(d[i].last()))
    } by {
        assert(d[i] == t[i]);
        lemma_trim_end_shape(ls[i]);
        assert(seq!['\n'][0] == '\n');
        assert(seq!['\n'].contains('\n'));
        let piece = p[i];
        assert(!piece.contains('\n'));
        // the line is the piece, possibly without a final carriage return
        assert(ls[i] == piece || ls[i] == piece.drop_last());
        let tl = trim_end(ls[i]);
        if tl.contains('\n') {
            let k = choose|k: int| 0 <= k < tl.len() && tl[k] == '\n';
            assert(ls[i][k] == '\n');
            assert(piece[k] == '\n');
        }
    }
}

/// Normalised text is settled. The lines it is made of do not end in
/// whitespace and do not end with an empty line; read back, those are
/// exactly its lines (none ends in a carriage return, which is whitespace),
/// so normalising it again changes nothing.
pub proof fn lemma_normalize_text_is_settled(text: Seq<char>)
    ensures
        normalize_text_spec(text) == join(normalized_lines(text), seq!['\n']),
        normalized_lines(text).len() == 0 || normalized_lines(text).last().len() > 0,
        forall|i: int| 0 <= i < normalized_lines(text).len() ==> (#[trigger] normalized_lines(text)[i]).len() == 0
            || !crate::text::unicode_whitespace(normalized_lines(text)[i].last()),
        lines_of(normalize_text_spec(text)) == normalized_lines(text),
        normalize_text_spec(normalize_text_spec(text)) == normalize_text_spec(text),
{
    let d = normalized_lines(text);
    lemma_normalized_lines_shape(text);
    let n = normalize_text_spec(text);
    assert(n == join(d, seq!['\n']));
    if d.len() == 0 {
        assert(n =~= Seq::<char>::empty());
        assert(crate::text::split_on(n, seq!['\n']) == seq![Seq::<char>::empty()]);
        assert(lines_of(n) =~= Seq::<Seq<char>>::empty());
        assert(Seq::new(lines_of(n).len(), |i: int| trim_end(lines_of(n)[i])) =~= Seq::<Seq<char>>::empty());
    } else {
        lemma_split_join(d);
        let p = crate::text::split_on(n, seq!['\n']);
        assert(p == d);
        assert(lines_of(n) =~= d) by {
            assert forall|j: int| 0 <= j < d.len() - 1 implies crate::text::strip_cr(#[trigger] d[j]) == d[j] by {
                if d[j].len() > 0 && d[j].last() == '\r' {
                    assert(crate::text::unicode_whitespace('\r'));
                }
            }
        }
        let t2 = Seq::new(lines_of(n).len(), |i: int| trim_end(lines_of(n)[i]));
        assert(t2 =~= d) by {
            assert forall|j: int| 0 <= j < d.len() implies t2[j] == d[j] by {
                if d[j].len() > 0 {
                    assert(!crate::text::unicode_whitespace(d[j].last()));
                } else {
                    assert(trim_end(d[j]) == d[j]);
                }
            }
        }
        assert(drop_trailing_blank(t2) == t2);
    }
}

} // verus!
