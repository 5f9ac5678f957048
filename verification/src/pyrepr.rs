//! Python `repr` formatting for strings and tuples, shared by every
//! diagnostic so that no Rust `Debug` rendering reaches a report.
use vstd::prelude::*;
use crate::text::{string_seqs, lemma_string_seqs_push};
use crate::text::{chars_of, contains, hex2, join, push_hex2, push_str, string_of, views};

verus! {

broadcast use vstd::string::group_string_axioms;

/// The delimiter Python's `repr` picks: `"` when the text holds a `'` and no
/// `"`, otherwise `'`.
pub open spec fn repr_quote(s: Seq<char>) -> char {
    if s.contains('\'') && !s.contains('"') {
        '"'
    } else {
        '\''
    }
}

/// How `repr` writes one character inside a string delimited by `quote`.
pub open spec fn repr_char(c: char, quote: char) -> Seq<char> {
    if c == '\\' {
        seq!['\\', '\\']
    } else if c == '\n' {
        seq!['\\', 'n']
    } else if c == '\r' {
        seq!['\\', 'r']
    } else if c == '\t' {
        seq!['\\', 't']
    } else if c == quote {
        seq!['\\', c]
    } else if (c as u32) < 0x20 || (c as u32) == 0x7f || (0x80 <= (c as u32) && (c as u32) <= 0x9f) {
        seq!['\\', 'x'] + hex2(c as u32 as int)
    } else {
        seq![c]
    }
}

/// The characters of `s`, each written as `repr` writes it.
pub open spec fn repr_body(s: Seq<char>, quote: char) -> Seq<char>
    decreases s.len(),
{
    if s.len() == 0 {
        Seq::<char>::empty()
    } else {
        repr_body(s.drop_last(), quote) + repr_char(s.last(), quote)
    }
}

/// Python's `repr` of a string: the body between two delimiters.
pub open spec fn repr_str_spec(s: Seq<char>) -> Seq<char> {
    let q = repr_quote(s);
    seq![q] + repr_body(s, q) + seq![q]
}

fn has_char(v: &[char], c: char) -> (r: bool)
    ensures
        r == v@.contains(c),
{
    crate::text::char_in(v, c)
}

/// Python's `repr` of a string.
///
/// Single quotes, unless the value contains a `'` and no `"`: then the
/// delimiter flips to `"` and the apostrophes are left bare. Escaping covers
/// the C0 controls, `DEL` and the C1 range; other text is emitted as itself.
pub fn repr_str(value: &str) -> (r: String)
    ensures
        r@ == repr_str_spec(value@),
{
    let chars = chars_of(value);
    let quote: char = if has_char(chars.as_slice(), '\'') && !has_char(chars.as_slice(), '"') {
        '"'
    } else {
        '\''
    };
    let mut out: Vec<char> = Vec::new();
    out.push(quote);
    let mut i: usize = 0;
    assert(chars@.take(0) =~= Seq::<char>::empty());
    while i < chars.len()
        invariant
            chars@ == value@,
            quote == repr_quote(value@),
            i <= chars@.len(),
            out@ == seq![quote] + repr_body(chars@.take(i as int), quote),
        decreases chars@.len() - i,
    {
        let c = chars[i];
        let ghost before = out@;
        assert(chars@.take(i + 1).drop_last() =~= chars@.take(i as int));
        let code: u32 = c as u32;
        if c == '\\' {
            out.push('\\');
            out.push('\\');
        } else if c == '\n' {
            out.push('\\');
            out.push('n');
        } else if c == '\r' {
            out.push('\\');
            out.push('r');
        } else if c == '\t' {
            out.push('\\');
            out.push('t');
        } else if c == quote {
            out.push('\\');
            out.push(c);
        } else if code < 0x20 || code == 0x7f || (0x80 <= code && code <= 0x9f) {
            out.push('\\');
            out.push('x');
            push_hex2(&mut out, code as u8);
        } else {
            out.push(c);
        }
        assert(out@ =~= before + repr_char(c, quote));
        i += 1;
    }
    assert(chars@.take(chars@.len() as int) =~= chars@);
    out.push(quote);
    string_of(out.as_slice())
}

/// Python's `repr` of a tuple whose items are already rendered: `()`, `(a,)`
/// with the trailing comma for one item, or the items joined with `, `.
pub open spec fn repr_tuple_spec(items: Seq<Seq<char>>) -> Seq<char> {
    if items.len() == 0 {
        seq!['(', ')']
    } else if items.len() == 1 {
        seq!['('] + items[0] + seq![',', ')']
    } else {
        seq!['('] + join(items, seq![',', ' ']) + seq![')']
    }
}

/// Python's `repr` of a tuple. One element keeps a trailing comma: `('a',)`.
pub fn repr_tuple(items: &[String]) -> (r: String)
    ensures
        r@ == repr_tuple_spec(string_seqs(items@)),
{
    let mut out = String::new();
    push_str(&mut out, "(");
    if items.len() == 1 {
        push_str(&mut out, items[0].as_str());
        push_str(&mut out, ",)");
        proof {
            reveal_strlit("(");
            reveal_strlit(",)");
        }
        assert(out@ =~= repr_tuple_spec(string_seqs(items@)));
        return out;
    }
    let mut pieces: Vec<Vec<char>> = Vec::new();
    let mut i: usize = 0;
    while i < items.len()
        invariant
            i <= items@.len(),
            views(pieces@) == string_seqs(items@).take(i as int),
        decreases items@.len() - i,
    {
        let p = chars_of(items[i].as_str());
        proof { crate::text::lemma_views_push(pieces@, p); }
        pieces.push(p);
        assert(string_seqs(items@).take(i as int).push(items@[i as int]@) =~= string_seqs(
            items@,
        ).take(i + 1));
        i += 1;
    }
    assert(string_seqs(items@).take(items@.len() as int) =~= string_seqs(items@));
    let joined = crate::text::join_chars(&pieces, &[',', ' ']);
    assert([',', ' ']@ =~= seq![',', ' ']);
    let body = string_of(joined.as_slice());
    push_str(&mut out, body.as_str());
    push_str(&mut out, ")");
    proof {
        reveal_strlit("(");
        reveal_strlit(")");
    }
    if items.len() == 0 {
        assert(joined@ =~= Seq::<char>::empty());
    }
    assert(out@ =~= repr_tuple_spec(string_seqs(items@)));
    out
}

} // verus!
