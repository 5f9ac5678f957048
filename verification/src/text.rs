//! Character-level text handling shared by the screen and report code.
//!
//! Everything here works on `Seq<char>` in its contracts, and on `Vec<char>`
//! at run time, so that a string is indexed by character rather than by byte.
use vstd::prelude::*;
use vstd::std_specs::iter::IteratorSpec;

verus! {

broadcast use vstd::string::group_string_axioms;

// ---------------------------------------------------------------------------
// Unicode properties, as std computes them
// ---------------------------------------------------------------------------

/// What `char::is_alphanumeric` answers: Unicode `Alphabetic` or `Numeric`.
pub uninterp spec fn unicode_alphanumeric(c: char) -> bool;

/// What `char::is_alphabetic` answers: the Unicode `Alphabetic` property.
pub uninterp spec fn unicode_alphabetic(c: char) -> bool;

/// What `char::is_whitespace` answers: the Unicode `White_Space` property,
/// which holds of tab through carriage return, space, next line, no-break
/// space, ogham space mark, the spaces from en quad to hair space, the line
/// and paragraph separators, the narrow no-break space, the medium
/// mathematical space and the ideographic space.
pub open spec fn unicode_whitespace(c: char) -> bool {
    let u = c as u32;
    ||| 0x09 <= u <= 0x0d
    ||| u == 0x20
    ||| u == 0x85
    ||| u == 0xa0
    ||| u == 0x1680
    ||| 0x2000 <= u <= 0x200a
    ||| u == 0x2028
    ||| u == 0x2029
    ||| u == 0x202f
    ||| u == 0x205f
    ||| u == 0x3000
}

/// What `char::is_control` answers: the Unicode general category `Cc`, the
/// C0 controls, delete and the C1 controls.
pub open spec fn unicode_control(c: char) -> bool {
    let u = c as u32;
    u <= 0x1f || 0x7f <= u <= 0x9f
}

/// What `str::to_lowercase` returns for a string with these characters.
pub uninterp spec fn unicode_lowercase(s: Seq<char>) -> Seq<char>;

/// `char::is_alphanumeric` (std). Trusted to answer the Unicode property,
/// which is a function of the character alone.
#[verifier::external_body]
pub(crate) fn is_alphanumeric(c: char) -> (r: bool)
    ensures
        r == unicode_alphanumeric(c),
{
    c.is_alphanumeric()
}

/// `char::is_alphabetic` (std). Trusted to answer the Unicode property.
#[verifier::external_body]
pub(crate) fn is_alphabetic(c: char) -> (r: bool)
    ensures
        r == unicode_alphabetic(c),
{
    c.is_alphabetic()
}

/// Whether `c` is whitespace, as `char::is_whitespace` answers.
pub(crate) fn is_whitespace(c: char) -> (r: bool)
    ensures
        r == unicode_whitespace(c),
{
    let u = c as u32;
    (0x09 <= u && u <= 0x0d) || u == 0x20 || u == 0x85 || u == 0xa0 || u == 0x1680 || (0x2000 <= u && u
        <= 0x200a) || u == 0x2028 || u == 0x2029 || u == 0x202f || u == 0x205f || u == 0x3000
}

/// Whether `c` is a control character, as `char::is_control` answers.
pub(crate) fn is_control(c: char) -> (r: bool)
    ensures
        r == unicode_control(c),
{
    let u = c as u32;
    u <= 0x1f || (0x7f <= u && u <= 0x9f)
}

/// `str::to_lowercase` (std). Trusted to return the Unicode lowercase mapping
/// of the whole string, which depends on the string alone.
#[verifier::external_body]
pub(crate) fn to_lowercase(s: &str) -> (r: String)
    ensures
        r@ == unicode_lowercase(s@),
{
    s.to_lowercase()
}

/// `String::push` (std). Appends one character.
#[verifier::external_body]
pub(crate) fn push_char(s: &mut String, c: char)
    ensures
        final(s)@ == old(s)@.push(c),
{
    s.push(c)
}

// ---------------------------------------------------------------------------
// Conversions
// ---------------------------------------------------------------------------

/// The characters of `s`, in order.
pub fn chars_of(s: &str) -> (v: Vec<char>)
    ensures
        v@ == s@,
{
    let mut v: Vec<char> = Vec::new();
    for c in it: s.chars()
        invariant
            v@ == it.seq().take(it.index() as int),
            it.seq() == s@,
    {
        v.push(c);
    }
    v
}

/// A string holding exactly the characters of `v`.
pub fn string_of(v: &[char]) -> (s: String)
    ensures
        s@ == v@,
{
    let mut s = String::new();
    let mut i: usize = 0;
    while i < v.len()
        invariant
            i <= v@.len(),
            s@ == v@.take(i as int),
        decreases v@.len() - i,
    {
        push_char(&mut s, v[i]);
        assert(v@.take(i as int).push(v@[i as int]) =~= v@.take(i + 1));
        i += 1;
    }
    assert(v@.take(v@.len() as int) =~= v@);
    s
}

/// A string holding exactly `c`.
pub fn string_of_char(c: char) -> (s: String)
    ensures
        s@ == seq![c],
{
    let mut s = String::new();
    push_char(&mut s, c);
    assert(s@ =~= seq![c]);
    s
}

/// Append the characters of `v` to `s`.
pub(crate) fn push_chars(s: &mut String, v: &[char])
    ensures
        final(s)@ == old(s)@ + v@,
{
    let ghost start = s@;
    let mut i: usize = 0;
    while i < v.len()
        invariant
            i <= v@.len(),
            s@ == start + v@.take(i as int),
        decreases v@.len() - i,
    {
        push_char(s, v[i]);
        assert(start + v@.take(i as int).push(v@[i as int]) =~= start + v@.take(i + 1));
        i += 1;
    }
    assert(v@.take(v@.len() as int) =~= v@);
}

/// Append `t` to `s`.
pub fn push_str(s: &mut String, t: &str)
    ensures
        final(s)@ == old(s)@ + t@,
{
    let v = chars_of(t);
    push_chars(s, v.as_slice());
}

/// An owned copy of `s`.
pub fn owned(s: &str) -> (r: String)
    ensures
        r@ == s@,
{
    let mut r = String::new();
    push_str(&mut r, s);
    r
}

/// Lowercase characters of `s`.
pub fn lowercase_chars(s: &str) -> (v: Vec<char>)
    ensures
        v@ == unicode_lowercase(s@),
{
    let l = to_lowercase(s);
    chars_of(l.as_str())
}

// ---------------------------------------------------------------------------
// Searching
// ---------------------------------------------------------------------------

/// `needle` occurs in `hay` starting at character `i`.
pub open spec fn occurs_at(hay: Seq<char>, needle: Seq<char>, i: int) -> bool {
    0 <= i && i + needle.len() <= hay.len() && hay.subrange(i, i + needle.len()) == needle
}

/// `needle` occurs somewhere in `hay`; the empty needle occurs everywhere.
pub open spec fn contains(hay: Seq<char>, needle: Seq<char>) -> bool {
    exists|i: int| occurs_at(hay, needle, i)
}

/// `s` begins with `prefix`.
pub open spec fn starts_with(s: Seq<char>, prefix: Seq<char>) -> bool {
    prefix.len() <= s.len() && s.subrange(0, prefix.len() as int) == prefix
}

/// Whether `needle` occurs in `hay` at `i`.
pub fn occurs_at_exec(hay: &[char], needle: &[char], i: usize) -> (r: bool)
    ensures
        r == occurs_at(hay@, needle@, i as int),
{
    if i > hay.len() || needle.len() > hay.len() - i {
        return false;
    }
    let mut k: usize = 0;
    while k < needle.len()
        invariant
            i + needle.len() <= hay.len(),
            k <= needle@.len(),
            forall|j: int| 0 <= j < k ==> hay@[i + j] == needle@[j],
        decreases needle@.len() - k,
    {
        if hay[i + k] != needle[k] {
            assert(hay@.subrange(i as int, i + needle@.len())[k as int] != needle@[k as int]);
            return false;
        }
        k += 1;
    }
    assert(hay@.subrange(i as int, i + needle@.len()) =~= needle@);
    true
}

/// Whether `needle` occurs anywhere in `hay`.
pub fn contains_exec(hay: &[char], needle: &[char]) -> (r: bool)
    ensures
        r == contains(hay@, needle@),
{
    if needle.len() > hay.len() {
        assert forall|i: int| !occurs_at(hay@, needle@, i) by {}
        return false;
    }
    let last: usize = hay.len() - needle.len();
    let mut i: usize = 0;
    while i < last
        invariant
            last == hay@.len() - needle@.len(),
            i <= last,
            forall|j: int| 0 <= j < i ==> !occurs_at(hay@, needle@, j),
        decreases last - i,
    {
        if occurs_at_exec(hay, needle, i) {
            return true;
        }
        i += 1;
    }
    if occurs_at_exec(hay, needle, last) {
        return true;
    }
    assert forall|j: int| !occurs_at(hay@, needle@, j) by {
        if 0 <= j && j < i {
        }
    }
    false
}

/// Whether `s` begins with `prefix`.
pub fn starts_with_exec(s: &[char], prefix: &[char]) -> (r: bool)
    ensures
        r == starts_with(s@, prefix@),
{
    let r = occurs_at_exec(s, prefix, 0);
    r
}

/// `str::contains` between two strings.
pub fn str_contains(hay: &str, needle: &str) -> (r: bool)
    ensures
        r == contains(hay@, needle@),
{
    let h = chars_of(hay);
    let n = chars_of(needle);
    contains_exec(h.as_slice(), n.as_slice())
}

// ---------------------------------------------------------------------------
// Splitting and joining
// ---------------------------------------------------------------------------

/// The pieces of `s` between separators (any character of `seps`); always
/// at least one.
pub open spec fn split_on(s: Seq<char>, seps: Seq<char>) -> Seq<Seq<char>>
    decreases s.len(),
{
    if s.len() == 0 {
        seq![Seq::<char>::empty()]
    } else {
        let before = split_on(s.drop_last(), seps);
        if seps.contains(s.last()) {
            before.push(Seq::<char>::empty())
        } else {
            before.update(before.len() - 1, before.last().push(s.last()))
        }
    }
}

/// `piece` with one trailing carriage return removed, if it has one.
pub open spec fn strip_cr(piece: Seq<char>) -> Seq<char> {
    if piece.len() > 0 && piece.last() == '\r' {
        piece.drop_last()
    } else {
        piece
    }
}

/// What `str::lines` yields: the text split at `\n` or `\r\n`, with no final
/// empty line when the text ends in a line ending. A `\r` not followed by a
/// `\n` is ordinary text.
pub open spec fn lines_of(s: Seq<char>) -> Seq<Seq<char>> {
    let p = split_on(s, seq!['\n']);
    let n: int = if p.last().len() == 0 { p.len() - 1 } else { p.len() as int };
    Seq::new(n as nat, |j: int| if j < p.len() - 1 { strip_cr(p[j]) } else { p[j] })
}

/// `pieces` joined with `sep` between consecutive pieces.
pub open spec fn join(pieces: Seq<Seq<char>>, sep: Seq<char>) -> Seq<char>
    decreases pieces.len(),
{
    if pieces.len() == 0 {
        Seq::<char>::empty()
    } else if pieces.len() == 1 {
        pieces[0]
    } else {
        join(pieces.drop_last(), sep) + sep + pieces.last()
    }
}

pub proof fn lemma_split_on_nonempty(s: Seq<char>, seps: Seq<char>)
    ensures
        split_on(s, seps).len() >= 1,
    decreases s.len(),
{
    if s.len() > 0 {
        lemma_split_on_nonempty(s.drop_last(), seps);
    }
}

/// Whether `c` is one of `set`.
pub fn char_in(set: &[char], c: char) -> (r: bool)
    ensures
        r == set@.contains(c),
{
    let mut i: usize = 0;
    while i < set.len()
        invariant
            i <= set@.len(),
            forall|j: int| 0 <= j < i ==> set@[j] != c,
        decreases set@.len() - i,
    {
        if set[i] == c {
            return true;
        }
        i += 1;
    }
    false
}

/// Whether two character sequences are equal.
pub fn chars_eq(a: &[char], b: &[char]) -> (r: bool)
    ensures
        r == (a@ == b@),
{
    if a.len() != b.len() {
        return false;
    }
    let mut i: usize = 0;
    while i < a.len()
        invariant
            a@.len() == b@.len(),
            i <= a@.len(),
            forall|j: int| 0 <= j < i ==> a@[j] == b@[j],
        decreases a@.len() - i,
    {
        if a[i] != b[i] {
            return false;
        }
        i += 1;
    }
    assert(a@ =~= b@);
    true
}

/// Whether two strings hold the same characters.
pub fn str_eq(a: &str, b: &str) -> (r: bool)
    ensures
        r == (a@ == b@),
{
    let x = chars_of(a);
    let y = chars_of(b);
    chars_eq(x.as_slice(), y.as_slice())
}

/// The character sequences held by a vector of character vectors.
pub open spec fn views(v: Seq<Vec<char>>) -> Seq<Seq<char>> {
    Seq::new(v.len(), |i: int| v[i]@)
}

pub proof fn lemma_views_push(v: Seq<Vec<char>>, x: Vec<char>)
    ensures
        views(v.push(x)) == views(v).push(x@),
{
    assert(views(v.push(x)) =~= views(v).push(x@));
}

/// The pieces of `s` between separators.
pub fn split_chars(s: &[char], seps: &[char]) -> (out: Vec<Vec<char>>)
    ensures
        views(out@) == split_on(s@, seps@),
{
    let mut done: Vec<Vec<char>> = Vec::new();
    let mut cur: Vec<char> = Vec::new();
    let mut i: usize = 0;
    assert(s@.take(0) =~= Seq::<char>::empty());
    assert(views(done@) =~= Seq::<Seq<char>>::empty());
    while i < s.len()
        invariant
            i <= s@.len(),
            views(done@).push(cur@) == split_on(s@.take(i as int), seps@),
        decreases s@.len() - i,
    {
        let ghost prev = s@.take(i as int);
        let c = s[i];
        assert(s@.take(i + 1).drop_last() =~= prev);
        assert(s@.take(i + 1).last() == c);
        if char_in(seps, c) {
            let ghost old_done = done@;
            let finished = cur;
            proof { lemma_views_push(old_done, finished); }
            done.push(finished);
            cur = Vec::new();
            assert(cur@ =~= Seq::<char>::empty());
        } else {
            let ghost before = views(done@).push(cur@);
            cur.push(c);
            assert(views(done@).push(cur@) =~= before.update(before.len() - 1, before.last().push(c)));
        }
        i += 1;
    }
    assert(s@.take(s@.len() as int) =~= s@);
    proof { lemma_views_push(done@, cur); }
    done.push(cur);
    done
}

/// `piece` without one trailing carriage return.
fn strip_cr_exec(piece: Vec<char>) -> (out: Vec<char>)
    ensures
        out@ == strip_cr(piece@),
{
    let mut p = piece;
    if p.len() > 0 && p[p.len() - 1] == '\r' {
        p.pop();
    }
    p
}

/// The lines of `s`, as `str::lines` splits them.
pub fn lines_chars(s: &[char]) -> (out: Vec<Vec<char>>)
    ensures
        views(out@) == lines_of(s@),
{
    let pieces = split_chars(s, &['\n']);
    proof { lemma_split_on_nonempty(s@, seq!['\n']); }
    assert(['\n']@ =~= seq!['\n']);
    let ghost p = views(pieces@);
    let count: usize = pieces.len();
    let n: usize = if pieces[count - 1].len() == 0 { count - 1 } else { count };
    let ghost want = lines_of(s@);
    assert(want.len() == n);
    let mut out: Vec<Vec<char>> = Vec::new();
    let mut j: usize = 0;
    assert(views(out@) =~= want.take(0));
    while j < n
        invariant
            p == views(pieces@),
            p == split_on(s@, seq!['\n']),
            want == lines_of(s@),
            want.len() == n,
            count == p.len(),
            count >= 1,
            n <= count,
            j <= n,
            views(out@) == want.take(j as int),
        decreases n - j,
    {
        let piece = pieces[j].clone();
        assert(piece@ =~= p[j as int]);
        let line = if j + 1 < count { strip_cr_exec(piece) } else { piece };
        assert(line@ == want[j as int]);
        proof { lemma_views_push(out@, line); }
        out.push(line);
        assert(want.take(j as int).push(want[j as int]) =~= want.take(j + 1));
        j += 1;
    }
    assert(want.take(n as int) =~= want);
    out
}

/// The lines of `s`, as `str::lines` splits them.
pub fn lines_of_str(s: &str) -> (out: Vec<Vec<char>>)
    ensures
        views(out@) == lines_of(s@),
{
    let v = chars_of(s);
    lines_chars(v.as_slice())
}

/// `pieces` joined with `sep`.
pub fn join_chars(pieces: &Vec<Vec<char>>, sep: &[char]) -> (out: Vec<char>)
    ensures
        out@ == join(views(pieces@), sep@),
{
    let ghost all = views(pieces@);
    let mut out: Vec<char> = Vec::new();
    let mut i: usize = 0;
    assert(all.take(0) =~= Seq::<Seq<char>>::empty());
    while i < pieces.len()
        invariant
            all == views(pieces@),
            i <= pieces@.len(),
            out@ == join(all.take(i as int), sep@),
        decreases pieces@.len() - i,
    {
        let ghost before = out@;
        if i > 0 {
            out.extend_from_slice(sep);
            assert(out@ =~= before + sep@);
        }
        let ghost mid = out@;
        out.extend_from_slice(pieces[i].as_slice());
        assert(out@ =~= mid + all[i as int]);
        let ghost t = all.take(i + 1);
        assert(t.drop_last() =~= all.take(i as int));
        assert(t.last() == all[i as int]);
        if i == 0 {
            assert(t =~= seq![all[0]]);
            assert(out@ =~= all[0]);
        }
        i += 1;
    }
    assert(all.take(pieces@.len() as int) =~= all);
    out
}

// ---------------------------------------------------------------------------
// Trimming
// ---------------------------------------------------------------------------

/// `s` without trailing whitespace.
pub open spec fn trim_end(s: Seq<char>) -> Seq<char>
    decreases s.len(),
{
    if s.len() > 0 && unicode_whitespace(s.last()) {
        trim_end(s.drop_last())
    } else {
        s
    }
}

/// `s` without leading whitespace.
pub open spec fn trim_start(s: Seq<char>) -> Seq<char>
    decreases s.len(),
{
    if s.len() > 0 && unicode_whitespace(s[0]) {
        trim_start(s.drop_first())
    } else {
        s
    }
}

/// `s` without leading or trailing whitespace.
pub open spec fn trim(s: Seq<char>) -> Seq<char> {
    trim_start(trim_end(s))
}

/// `s` with trailing whitespace removed.
pub fn trim_end_chars(s: &[char]) -> (out: Vec<char>)
    ensures
        out@ == trim_end(s@),
{
    let mut n: usize = s.len();
    assert(s@.take(n as int) =~= s@);
    while n > 0 && is_whitespace(s[n - 1])
        invariant
            n <= s@.len(),
            trim_end(s@) == trim_end(s@.take(n as int)),
        decreases n,
    {
        assert(s@.take(n as int).drop_last() =~= s@.take(n - 1));
        n -= 1;
    }
    let mut out: Vec<char> = Vec::new();
    let mut i: usize = 0;
    while i < n
        invariant
            n <= s@.len(),
            i <= n,
            out@ == s@.take(i as int),
        decreases n - i,
    {
        out.push(s[i]);
        assert(s@.take(i as int).push(s@[i as int]) =~= s@.take(i + 1));
        i += 1;
    }
    out
}

/// `s` with leading whitespace removed.
pub fn trim_start_chars(s: &[char]) -> (out: Vec<char>)
    ensures
        out@ == trim_start(s@),
{
    let mut k: usize = 0;
    assert(s@.skip(0) =~= s@);
    while k < s.len() && is_whitespace(s[k])
        invariant
            k <= s@.len(),
            trim_start(s@) == trim_start(s@.skip(k as int)),
        decreases s@.len() - k,
    {
        assert(s@.skip(k as int).drop_first() =~= s@.skip(k + 1));
        k += 1;
    }
    let mut out: Vec<char> = Vec::new();
    let mut i: usize = k;
    while i < s.len()
        invariant
            k <= i <= s@.len(),
            out@ == s@.subrange(k as int, i as int),
        decreases s@.len() - i,
    {
        out.push(s[i]);
        assert(s@.subrange(k as int, i as int).push(s@[i as int]) =~= s@.subrange(k as int, i + 1));
        i += 1;
    }
    assert(s@.subrange(k as int, s@.len() as int) =~= s@.skip(k as int));
    out
}

/// `s` with leading and trailing whitespace removed.
pub fn trim_chars(s: &[char]) -> (out: Vec<char>)
    ensures
        out@ == trim(s@),
{
    let e = trim_end_chars(s);
    trim_start_chars(e.as_slice())
}

// ---------------------------------------------------------------------------
// Hex formatting
// ---------------------------------------------------------------------------

/// The lowercase hex digit for `v` (`v < 16`).
pub open spec fn hex_digit(v: int) -> char {
    if v == 0 { '0' } else if v == 1 { '1' } else if v == 2 { '2' } else if v == 3 { '3' }
    else if v == 4 { '4' } else if v == 5 { '5' } else if v == 6 { '6' } else if v == 7 { '7' }
    else if v == 8 { '8' } else if v == 9 { '9' } else if v == 10 { 'a' } else if v == 11 { 'b' }
    else if v == 12 { 'c' } else if v == 13 { 'd' } else if v == 14 { 'e' } else { 'f' }
}

/// `v` as two lowercase hex digits, as `{:02x}` formats a value below 256.
pub open spec fn hex2(v: int) -> Seq<char> {
    seq![hex_digit(v / 16), hex_digit(v % 16)]
}

pub(crate) fn hex_digit_exec(v: u8) -> (c: char)
    requires
        v < 16,
    ensures
        c == hex_digit(v as int),
{
    match v {
        0 => '0',
        1 => '1',
        2 => '2',
        3 => '3',
        4 => '4',
        5 => '5',
        6 => '6',
        7 => '7',
        8 => '8',
        9 => '9',
        10 => 'a',
        11 => 'b',
        12 => 'c',
        13 => 'd',
        14 => 'e',
        _ => 'f',
    }
}

pub(crate) fn push_hex2(s: &mut Vec<char>, v: u8)
    ensures
        final(s)@ == old(s)@ + hex2(v as int),
{
    let hi = hex_digit_exec(v / 16);
    let lo = hex_digit_exec(v % 16);
    s.push(hi);
    s.push(lo);
    assert(final(s)@ =~= old(s)@ + hex2(v as int));
}

/// The characters of `s` from `start` up to `end`.
pub fn slice_chars(s: &[char], start: usize, end: usize) -> (r: Vec<char>)
    requires
        start <= end <= s@.len(),
    ensures
        r@ == s@.subrange(start as int, end as int),
{
    let mut out: Vec<char> = Vec::new();
    let mut i: usize = start;
    while i < end
        invariant
            start <= i <= end <= s@.len(),
            out@ == s@.subrange(start as int, i as int),
        decreases end - i,
    {
        out.push(s[i]);
        assert(out@ =~= s@.subrange(start as int, i + 1));
        i += 1;
    }
    out
}

/// The decimal value of a string of ASCII digits.
pub open spec fn digits_value(d: Seq<char>) -> nat
    decreases d.len(),
{
    if d.len() == 0 {
        0
    } else {
        digits_value(d.drop_last()) * 10 + ((d.last() as int - '0' as int) as nat)
    }
}

/// Every character of `d` is an ASCII digit.
pub open spec fn all_digits(d: Seq<char>) -> bool {
    forall|i: int| 0 <= i < d.len() ==> '0' <= #[trigger] d[i] <= '9'
}

/// The decimal digit for `d` (`d < 10`).
pub open spec fn decimal_digit(d: int) -> char {
    ((d + 48) as u32) as char
}

/// `n` written in decimal, as `{}` formats an unsigned integer.
pub open spec fn decimal(n: nat) -> Seq<char>
    decreases n,
{
    if n < 10 {
        seq![decimal_digit(n as int)]
    } else {
        decimal(n / 10).push(decimal_digit((n % 10) as int))
    }
}

/// Append `n` written in decimal.
pub fn push_decimal(out: &mut Vec<char>, n: u64)
    ensures
        final(out)@ == old(out)@ + decimal(n as nat),
    decreases n,
{
    if n >= 10 {
        push_decimal(out, n / 10);
    }
    let d: u8 = (n % 10) as u8;
    let c: char = (d + 48) as char;
    assert(c == decimal_digit((n % 10) as int));
    out.push(c);
    assert(final(out)@ =~= old(out)@ + decimal(n as nat));
}

/// The character sequences of a list of strings.
pub open spec fn string_seqs(v: Seq<String>) -> Seq<Seq<char>> {
    Seq::new(v.len(), |i: int| v[i]@)
}

pub proof fn lemma_string_seqs_push(v: Seq<String>, x: String)
    ensures
        string_seqs(v.push(x)) == string_seqs(v).push(x@),
{
    assert(string_seqs(v.push(x)) =~= string_seqs(v).push(x@));
}

// ---------------------------------------------------------------------------
// Ordering
// ---------------------------------------------------------------------------

/// `a` sorts strictly before `b`: lexicographically by code point, which is
/// how `String`'s ordering compares (UTF-8 bytes sort in code point order).
pub open spec fn text_lt(a: Seq<char>, b: Seq<char>) -> bool
    decreases a.len(),
{
    if a.len() == 0 {
        b.len() > 0
    } else if b.len() == 0 {
        false
    } else if a[0] != b[0] {
        a[0] < b[0]
    } else {
        text_lt(a.drop_first(), b.drop_first())
    }
}

pub fn text_lt_exec(a: &str, b: &str) -> (r: bool)
    ensures
        r == text_lt(a@, b@),
{
    let x = chars_of(a);
    let y = chars_of(b);
    let mut i: usize = 0;
    assert(x@.skip(0) =~= x@);
    assert(y@.skip(0) =~= y@);
    while i < x.len() && i < y.len() && x[i] == y[i]
        invariant
            x@ == a@,
            y@ == b@,
            i <= x@.len(),
            i <= y@.len(),
            text_lt(a@, b@) == text_lt(x@.skip(i as int), y@.skip(i as int)),
        decreases x@.len() - i,
    {
        assert(x@.skip(i as int).drop_first() =~= x@.skip(i + 1));
        assert(y@.skip(i as int).drop_first() =~= y@.skip(i + 1));
        i += 1;
    }
    if i == x.len() {
        return i < y.len();
    }
    if i == y.len() {
        return false;
    }
    x[i] < y[i]
}

pub proof fn lemma_text_lt_irreflexive(a: Seq<char>)
    ensures
        !text_lt(a, a),
    decreases a.len(),
{
    if a.len() > 0 {
        lemma_text_lt_irreflexive(a.drop_first());
    }
}

pub proof fn lemma_text_lt_transitive(a: Seq<char>, b: Seq<char>, c: Seq<char>)
    requires
        text_lt(a, b),
        text_lt(b, c),
    ensures
        text_lt(a, c),
    decreases a.len(),
{
    if a.len() > 0 && b.len() > 0 && c.len() > 0 && a[0] == b[0] && b[0] == c[0] {
        lemma_text_lt_transitive(a.drop_first(), b.drop_first(), c.drop_first());
    }
}

pub proof fn lemma_text_lt_total(a: Seq<char>, b: Seq<char>)
    ensures
        text_lt(a, b) || text_lt(b, a) || a == b,
    decreases a.len(),
{
    if a.len() > 0 && b.len() > 0 && a[0] == b[0] {
        lemma_text_lt_total(a.drop_first(), b.drop_first());
        if a.drop_first() == b.drop_first() {
            assert(a.drop_first().len() == b.drop_first().len());
            assert(a.len() == b.len());
            assert(a =~= b) by {
                assert forall|k: int| 0 <= k < a.len() implies a[k] == b[k] by {
                    if k > 0 {
                        assert(a[k] == a.drop_first()[k - 1]);
                        assert(b[k] == b.drop_first()[k - 1]);
                    }
                }
            }
        }
    } else if a.len() == 0 && b.len() == 0 {
        assert(a =~= b);
    }
}

pub proof fn lemma_text_lt_asymmetric(a: Seq<char>, b: Seq<char>)
    requires
        text_lt(a, b),
    ensures
        !text_lt(b, a),
{
    if text_lt(b, a) {
        lemma_text_lt_transitive(a, b, a);
        lemma_text_lt_irreflexive(a);
    }
}


/// `a` sorts no later than `b`, as `String`'s ordering compares.
pub open spec fn text_leq() -> spec_fn(Seq<char>, Seq<char>) -> bool {
    |a: Seq<char>, b: Seq<char>| !text_lt(b, a)
}

/// The text ordering is a total order.
pub proof fn lemma_text_leq_total_ordering()
    ensures
        vstd::relations::total_ordering(text_leq()),
{
    let r = text_leq();
    assert forall|x: Seq<char>| #[trigger] r(x, x) by {
        lemma_text_lt_irreflexive(x);
    }
    assert forall|x: Seq<char>, y: Seq<char>| #[trigger] r(x, y) && #[trigger] r(y, x) implies x == y by {
        lemma_text_lt_total(x, y);
    }
    assert forall|x: Seq<char>, y: Seq<char>, z: Seq<char>| #[trigger] r(x, y) && #[trigger] r(y, z) implies r(x, z) by {
        lemma_text_lt_total(x, z);
        if text_lt(z, x) {
            lemma_text_lt_total(y, z);
            lemma_text_lt_total(x, y);
            if text_lt(z, y) {
                lemma_text_lt_transitive(z, y, x);
            } else if y == z {
            } else {
                lemma_text_lt_transitive(y, z, x);
            }
        }
    }
    assert forall|x: Seq<char>, y: Seq<char>| #[trigger] r(x, y) || #[trigger] r(y, x) by {
        lemma_text_lt_total(x, y);
        if text_lt(x, y) {
            lemma_text_lt_asymmetric(x, y);
        }
    }
}

/// Strings sorted as `String`'s ordering sorts them.
pub fn sort_texts(v: &[String]) -> (r: Vec<String>)
    ensures
        string_seqs(r@) == string_seqs(v@).sort_by(text_leq()),
{
    let ghost leq = text_leq();
    proof { lemma_text_leq_total_ordering(); }
    let mut out: Vec<String> = Vec::new();
    let mut i: usize = 0;
    broadcast use vstd::seq_lib::group_to_multiset_ensures;
    assert(string_seqs(v@).take(0) =~= Seq::<Seq<char>>::empty());
    assert(string_seqs(out@) =~= Seq::<Seq<char>>::empty());
    while i < v.len()
        invariant
            leq == text_leq(),
            vstd::relations::total_ordering(leq),
            i <= v@.len(),
            vstd::relations::sorted_by(string_seqs(out@), leq),
            string_seqs(out@).to_multiset() == string_seqs(v@).take(i as int).to_multiset(),
        decreases v@.len() - i,
    {
        let x = v[i].clone();
        let xs = x.as_str();
        let ghost xv = v@[i as int]@;
        assert(x@ == xv);
        let mut j: usize = out.len();
        let ghost ov = string_seqs(out@);
        while j > 0 && text_lt_exec(xs, out[j - 1].as_str())
            invariant
                ov == string_seqs(out@),
                xs@ == xv,
                j <= ov.len(),
                forall|q: int| j <= q < ov.len() ==> text_lt(xv, #[trigger] ov[q]),
            decreases j,
        {
            j -= 1;
        }
        let ghost before = ov;
        out.insert(j, x);
        let ghost after = string_seqs(out@);
        assert(after =~= before.insert(j as int, xv));
        assert(vstd::relations::sorted_by(after, leq)) by {
            assert forall|a: int, b: int| 0 <= a < b < after.len() implies #[trigger] leq(after[a], after[b]) by {
                if b < j {
                    assert(after[a] == before[a] && after[b] == before[b]);
                } else if a > j {
                    assert(after[a] == before[a - 1] && after[b] == before[b - 1]);
                } else if a == j {
                    assert(after[a] == xv && after[b] == before[b - 1]);
                    assert(text_lt(xv, before[b - 1]));
                    lemma_text_lt_asymmetric(xv, before[b - 1]);
                } else if b == j {
                    assert(after[b] == xv && after[a] == before[a]);
                    if j > 0 {
                        assert(!text_lt(xv, before[j - 1]));
                        if a < j - 1 {
                            assert(leq(before[a], before[j - 1]));
                            assert(leq(before[j - 1], xv));
                        }
                    }
                } else {
                    assert(a < j < b);
                    assert(after[a] == before[a] && after[b] == before[b - 1]);
                    assert(leq(before[a], before[b - 1]));
                }
            }
        }
        assert(string_seqs(v@).take(i + 1) =~= string_seqs(v@).take(i as int).push(xv));
        proof {
            vstd::seq_lib::to_multiset_insert(before, j as int, xv);
            vstd::seq_lib::to_multiset_build(string_seqs(v@).take(i as int), xv);
        }
        assert(after.to_multiset() == before.to_multiset().insert(xv));
        i += 1;
    }
    assert(string_seqs(v@).take(v@.len() as int) =~= string_seqs(v@));
    proof {
        string_seqs(v@).lemma_sort_by_ensures(leq);
        vstd::seq_lib::lemma_sorted_unique(string_seqs(out@), string_seqs(v@).sort_by(leq), leq);
    }
    out
}

} // verus!
