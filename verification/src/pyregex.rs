//! Python 3 `re` dialect for `wait_for_regex`.
//!
//! Patterns are written in Python's `re` dialect and run on `fancy-regex`,
//! which backtracks (so lookaround and backreferences work). Where the engine
//! would silently read a pattern differently from Python, the pattern is
//! translated first: `\Z` is the absolute end of the string, `{,n}` is
//! `{0,n}`, a brace that is not a quantifier is literal, and a `]` right
//! after `[` or `[^` is literal. The two forms Python refuses, `\p`/`\P`
//! escapes and inverted repetition ranges, are refused here too. Positions
//! in the messages count characters from the start of the pattern.
use vstd::prelude::*;
use crate::text::{
    chars_of, decimal, digits_value, join, join_chars, push_decimal, split_chars, split_on,
    string_of, unicode_whitespace, views, all_digits,
};

verus! {

broadcast use vstd::string::group_string_axioms;

/// `fancy_regex::Regex`, a compiled pattern.
#[verifier::external_type_specification]
#[verifier::external_body]
pub struct ExRegex(fancy_regex::Regex);

// ---------------------------------------------------------------------------
// Repetitions
// ---------------------------------------------------------------------------

/// The end of the run of ASCII digits starting at `i`.
pub open spec fn digits_end(p: Seq<char>, i: int) -> int
    decreases p.len() - i,
{
    if 0 <= i < p.len() && '0' <= p[i] <= '9' {
        digits_end(p, i + 1)
    } else {
        i
    }
}

/// The value of the run of ASCII digits starting at `i`: `None` when the
/// run is empty or too long for a `u64`.
pub open spec fn digits_at_spec(p: Seq<char>, i: int) -> Option<u64> {
    let end = digits_end(p, i);
    if end > i && digits_value(p.subrange(i, end)) <= u64::MAX {
        Some(digits_value(p.subrange(i, end)) as u64)
    } else {
        None
    }
}

/// A `{m,n}` quantifier as far as Python's parser is concerned: one past its
/// closing brace, and its bounds.
pub struct Repetition {
    pub end: usize,
    pub min: Option<u64>,
    pub max: Option<u64>,
}

/// The quantifier starting at the `{` at `start`, or `None` when the braces
/// are not one (`a{`, `a{}`, `a{,}`), which Python reads as literal text.
pub open spec fn repetition_spec(p: Seq<char>, start: int) -> Option<(int, Option<u64>, Option<u64>)> {
    let i1 = digits_end(p, start + 1);
    let min = digits_at_spec(p, start + 1);
    let comma = 0 <= i1 < p.len() && p[i1] == ',';
    let i2 = if comma { digits_end(p, i1 + 1) } else { i1 };
    let max = if comma { digits_at_spec(p, i1 + 1) } else { None };
    if !(0 <= i2 < p.len() && p[i2] == '}') || (min is None && max is None) {
        None
    } else {
        Some((i2 + 1, min, max))
    }
}

pub proof fn lemma_digits_end(p: Seq<char>, i: int)
    requires
        0 <= i <= p.len(),
    ensures
        i <= digits_end(p, i) <= p.len(),
        all_digits(p.subrange(i, digits_end(p, i))),
    decreases p.len() - i,
{
    if i < p.len() && '0' <= p[i] <= '9' {
        lemma_digits_end(p, i + 1);
        let e = digits_end(p, i);
        assert forall|k: int| 0 <= k < p.subrange(i, e).len() implies '0' <= #[trigger] p.subrange(i, e)[k]
            <= '9' by {
            if k > 0 {
                assert(p.subrange(i, e)[k] == p.subrange(i + 1, e)[k - 1]);
            }
        }
    }
}

pub proof fn lemma_repetition_end(p: Seq<char>, start: int)
    requires
        0 <= start < p.len(),
    ensures
        repetition_spec(p, start) matches Some(r) ==> start + 2 <= r.0 <= p.len(),
{
    lemma_digits_end(p, start + 1);
    let i1 = digits_end(p, start + 1);
    if 0 <= i1 < p.len() && p[i1] == ',' {
        lemma_digits_end(p, i1 + 1);
    }
}

/// Consume a run of ASCII digits starting at `i`; a run too long for `u64`
/// reads as no digits at all.
fn digits_at(chars: &[char], i: &mut usize) -> (r: Option<u64>)
    requires
        *old(i) <= chars@.len(),
    ensures
        *final(i) == digits_end(chars@, *old(i) as int),
        r == digits_at_spec(chars@, *old(i) as int),
{
    let start: usize = *i;
    proof { lemma_digits_end(chars@, start as int); }
    let mut value: u64 = 0;
    let mut overflow = false;
    assert(chars@.subrange(start as int, start as int) =~= Seq::<char>::empty());
    while *i < chars.len() && '0' <= chars[*i] && chars[*i] <= '9'
        invariant
            start <= *i <= chars@.len(),
            digits_end(chars@, start as int) == digits_end(chars@, *i as int),
            !overflow ==> value == digits_value(chars@.subrange(start as int, *i as int)),
            overflow == (digits_value(chars@.subrange(start as int, *i as int)) > u64::MAX),
        decreases chars@.len() - *i,
    {
        let c = chars[*i];
        let ghost pre = chars@.subrange(start as int, *i as int);
        let ghost next = chars@.subrange(start as int, *i + 1);
        assert(next.drop_last() =~= pre);
        let d: u64 = ((c as u32) - ('0' as u32)) as u64;
        if !overflow {
            match value.checked_mul(10) {
                Some(t) => match t.checked_add(d) {
                    Some(v) => {
                        value = v;
                    },
                    None => {
                        overflow = true;
                    },
                },
                None => {
                    overflow = true;
                    assert(digits_value(next) >= digits_value(pre) * 10);
                },
            }
        } else {
            assert(digits_value(next) >= digits_value(pre) * 10);
        }
        *i += 1;
    }
    if *i == start || overflow {
        None
    } else {
        Some(value)
    }
}

/// Parse a repetition starting at `start` (which must index a `{`).
fn repetition_at(chars: &[char], start: usize) -> (r: Option<Repetition>)
    requires
        start < chars.len(),
    ensures
        match r {
            Some(rep) => repetition_spec(chars@, start as int) == Some((rep.end as int, rep.min, rep.max)),
            None => repetition_spec(chars@, start as int) is None,
        },
{
    proof { lemma_repetition_end(chars@, start as int); lemma_digits_end(chars@, start + 1); }
    let mut i: usize = start + 1;
    let min_digits = digits_at(chars, &mut i);
    let comma = i < chars.len() && chars[i] == ',';
    if comma {
        i += 1;
    }
    let max_digits = if comma { digits_at(chars, &mut i) } else { None };
    if !(i < chars.len() && chars[i] == '}') {
        return None;
    }
    if min_digits.is_none() && max_digits.is_none() {
        return None;
    }
    Some(Repetition { end: i + 1, min: min_digits, max: max_digits })
}

// ---------------------------------------------------------------------------
// Translation
// ---------------------------------------------------------------------------

/// Translating `p` from position `i`, inside a character class or not, with
/// `out` written so far: the engine pattern, or Python's refusal.
pub open spec fn translate_from(p: Seq<char>, i: int, in_class: bool, out: Seq<char>) -> Result<Seq<char>, Seq<char>>
    decreases p.len() - i,
{
    if i < 0 || i >= p.len() {
        Ok(out)
    } else if p[i] == '\\' {
        if i + 1 >= p.len() {
            Err("trailing backslash at position "@ + decimal(i as nat))
        } else {
            let next = p[i + 1];
            if next == 'p' || next == 'P' {
                Err("unsupported escape \\"@ + seq![next] + " at position "@ + decimal(i as nat))
            } else if next == 'Z' && !in_class {
                translate_from(p, i + 2, in_class, out + seq!['\\', 'z'])
            } else {
                translate_from(p, i + 2, in_class, out + seq!['\\', next])
            }
        }
    } else if p[i] == '[' && !in_class {
        let caret = i + 1 < p.len() && p[i + 1] == '^';
        let j1 = if caret { i + 2 } else { i + 1 };
        let o1 = if caret { out + seq!['[', '^'] } else { out.push('[') };
        let bracket = j1 < p.len() && p[j1] == ']';
        let j2 = if bracket { j1 + 1 } else { j1 };
        let o2 = if bracket { o1 + seq!['\\', ']'] } else { o1 };
        translate_from(p, j2, true, o2)
    } else if p[i] == ']' && in_class {
        translate_from(p, i + 1, false, out.push(']'))
    } else if p[i] == '{' && !in_class {
        proof {
            lemma_repetition_end(p, i);
        }
        match repetition_spec(p, i) {
            Some(rep) => {
                if rep.1 is Some && rep.2 is Some && rep.1->0 > rep.2->0 {
                    Err("repetition range is inverted at position "@ + decimal(i as nat))
                } else if rep.1 is None {
                    let max = if rep.2 is Some { rep.2->0 } else { 0 };
                    translate_from(p, rep.0, in_class, out + seq!['{', '0', ','] + decimal(max as nat) + seq!['}'])
                } else {
                    translate_from(p, rep.0, in_class, out + p.subrange(i, rep.0))
                }
            },
            None => translate_from(p, i + 1, in_class, out + seq!['\\', '{']),
        }
    } else {
        translate_from(p, i + 1, in_class, out.push(p[i]))
    }
}

/// The characters of a translation's result.
pub open spec fn result_view(r: Result<String, String>) -> Result<Seq<char>, Seq<char>> {
    match r {
        Ok(s) => Ok(s@),
        Err(e) => Err(e@),
    }
}

/// The position message suffix: ` at position <i>`.
fn push_position(out: &mut Vec<char>, i: usize)
    ensures
        final(out)@ == old(out)@ + " at position "@ + decimal(i as nat),
{
    let text = chars_of(" at position ");
    out.extend_from_slice(text.as_slice());
    push_decimal(out, i as u64);
}

/// Rewrite a Python pattern into the equivalent `fancy-regex` pattern, or
/// reject it the way Python's parser would.
pub fn translate(pattern: &str) -> (r: Result<String, String>)
    ensures
        translate_from(pattern@, 0, false, Seq::<char>::empty()) == result_view(r),
{
    let chars = chars_of(pattern);
    let ghost goal = translate_from(pattern@, 0, false, Seq::<char>::empty());
    let mut out: Vec<char> = Vec::new();
    let mut i: usize = 0;
    let mut in_class = false;
    while i < chars.len()
        invariant
            chars@ == pattern@,
            i <= chars@.len(),
            goal == translate_from(pattern@, 0, false, Seq::<char>::empty()),
            goal == translate_from(chars@, i as int, in_class, out@),
        decreases chars@.len() - i,
    {
        let c = chars[i];
        if c == '\\' {
            if i + 1 >= chars.len() {
                let mut e = chars_of("trailing backslash");
                push_position(&mut e, i);
                assert(e@ =~= "trailing backslash at position "@ + decimal(i as nat)) by {
                    reveal_strlit("trailing backslash");
                    reveal_strlit(" at position ");
                    reveal_strlit("trailing backslash at position ");
                }
                assert(goal == Err::<Seq<char>, Seq<char>>(e@));
                return Err(string_of(e.as_slice()));
            }
            let next = chars[i + 1];
            if next == 'p' || next == 'P' {
                let mut e = chars_of("unsupported escape \\");
                e.push(next);
                push_position(&mut e, i);
                assert(e@ =~= "unsupported escape \\"@ + seq![next] + " at position "@ + decimal(i as nat));
                assert(goal == Err::<Seq<char>, Seq<char>>(e@));
                return Err(string_of(e.as_slice()));
            }
            let ghost start = out@;
            out.push('\\');
            if next == 'Z' && !in_class {
                out.push('z');
                assert(out@ =~= start + seq!['\\', 'z']);
            } else {
                out.push(next);
                assert(out@ =~= start + seq!['\\', next]);
            }
            i += 2;
        } else if c == '[' && !in_class {
            let ghost start = out@;
            let ghost i0 = i as int;
            in_class = true;
            out.push('[');
            i += 1;
            if i < chars.len() && chars[i] == '^' {
                out.push('^');
                i += 1;
                assert(out@ =~= start + seq!['[', '^']);
            }
            let ghost o1 = out@;
            if i < chars.len() && chars[i] == ']' {
                out.push('\\');
                out.push(']');
                i += 1;
                assert(out@ =~= o1 + seq!['\\', ']']);
            }
            assert(goal == translate_from(chars@, i0, false, start));
        } else if c == ']' && in_class {
            in_class = false;
            out.push(']');
            i += 1;
        } else if c == '{' && !in_class {
            proof { lemma_repetition_end(chars@, i as int); }
            match repetition_at(chars.as_slice(), i) {
                Some(rep) => {
                    let inverted = match (rep.min, rep.max) {
                        (Some(lo), Some(hi)) => lo > hi,
                        _ => false,
                    };
                    if inverted {
                        let mut e = chars_of("repetition range is inverted");
                        push_position(&mut e, i);
                        assert(e@ =~= "repetition range is inverted at position "@ + decimal(i as nat)) by {
                            reveal_strlit("repetition range is inverted");
                            reveal_strlit(" at position ");
                            reveal_strlit("repetition range is inverted at position ");
                        }
                        return Err(string_of(e.as_slice()));
                    }
                    match rep.min {
                        None => {
                            let ghost start = out@;
                            out.push('{');
                            out.push('0');
                            out.push(',');
                            let max: u64 = match rep.max {
                                Some(m) => m,
                                None => 0,
                            };
                            push_decimal(&mut out, max);
                            out.push('}');
                            assert(out@ =~= start + seq!['{', '0', ','] + decimal(max as nat) + seq!['}']);
                        },
                        Some(_) => {
                            let mut k: usize = i;
                            let ghost base = out@;
                            while k < rep.end
                                invariant
                                    i <= k <= rep.end,
                                    rep.end <= chars@.len(),
                                    out@ == base + chars@.subrange(i as int, k as int),
                                decreases rep.end - k,
                            {
                                out.push(chars[k]);
                                assert(base + chars@.subrange(i as int, k as int).push(chars@[k as int]) =~= base
                                    + chars@.subrange(i as int, k + 1));
                                k += 1;
                            }
                        },
                    }
                    i = rep.end;
                },
                None => {
                    let ghost start = out@;
                    out.push('\\');
                    out.push('{');
                    assert(out@ =~= start + seq!['\\', '{']);
                    i += 1;
                },
            }
        } else {
            out.push(c);
            i += 1;
        }
    }
    Ok(string_of(out.as_slice()))
}

// ---------------------------------------------------------------------------
// Compiling
// ---------------------------------------------------------------------------

/// The pieces of `s` between runs of whitespace, without empty ones: what
/// `str::split_whitespace` yields.
pub open spec fn whitespace_words(s: Seq<char>) -> Seq<Seq<char>>
    decreases s.len(),
{
    if s.len() == 0 {
        Seq::<Seq<char>>::empty()
    } else {
        let before = whitespace_words(s.drop_last());
        let c = s.last();
        if unicode_whitespace(c) {
            before
        } else if s.len() >= 2 && !unicode_whitespace(s[s.len() - 2]) {
            before.update(before.len() - 1, before.last().push(c))
        } else {
            before.push(seq![c])
        }
    }
}

/// `message` on one line: its words joined by single spaces.
pub open spec fn one_line_spec(message: Seq<char>) -> Seq<char> {
    join(whitespace_words(message), seq![' '])
}

proof fn lemma_words_nonempty_when_word_char_ends(s: Seq<char>)
    requires
        s.len() > 0,
        !unicode_whitespace(s.last()),
    ensures
        whitespace_words(s).len() > 0,
    decreases s.len(),
{
    if s.len() >= 2 && !unicode_whitespace(s[s.len() - 2]) {
        lemma_words_nonempty_when_word_char_ends(s.drop_last());
        assert(s.drop_last().last() == s[s.len() - 2]);
    }
}

fn one_line(message: &str) -> (r: String)
    ensures
        r@ == one_line_spec(message@),
{
    let chars = chars_of(message);
    let mut words: Vec<Vec<char>> = Vec::new();
    let mut i: usize = 0;
    assert(chars@.take(0) =~= Seq::<char>::empty());
    while i < chars.len()
        invariant
            chars@ == message@,
            i <= chars@.len(),
            views(words@) == whitespace_words(chars@.take(i as int)),
        decreases chars@.len() - i,
    {
        let c = chars[i];
        let ghost t = chars@.take(i + 1);
        assert(t.drop_last() =~= chars@.take(i as int));
        assert(t.last() == c);
        if !crate::text::is_whitespace(c) {
            if i >= 1 && !crate::text::is_whitespace(chars[i - 1]) {
                proof {
                    assert(chars@.take(i as int).last() == chars@[i - 1]);
                    lemma_words_nonempty_when_word_char_ends(chars@.take(i as int));
                }
                let k: usize = words.len() - 1;
                let ghost before = views(words@);
                let mut w: Vec<char> = Vec::new();
                w.extend_from_slice(words[k].as_slice());
                w.push(c);
                assert(before.last() == words@[k as int]@);
                assert(w@ =~= before.last().push(c));
                words[k] = w;
                assert(views(words@) =~= before.update(before.len() - 1, before.last().push(c)));
            } else {
                let mut w: Vec<char> = Vec::new();
                w.push(c);
                assert(w@ =~= seq![c]);
                proof { crate::text::lemma_views_push(words@, w); }
                words.push(w);
            }
        }
        i += 1;
    }
    assert(chars@.take(chars@.len() as int) =~= chars@);
    let joined = join_chars(&words, &[' ']);
    assert([' ']@ =~= seq![' ']);
    string_of(joined.as_slice())
}

/// The message `fancy_regex::Regex::new` reports for `pattern`, or `None`
/// when it compiles.
pub uninterp spec fn fancy_regex_error(pattern: Seq<char>) -> Option<Seq<char>>;

/// `fancy_regex::Regex::new`. Trusted to compile `pattern` or to fail with
/// the error's display text, depending on the pattern alone.
#[verifier::external_body]
fn fancy_regex_new(pattern: &str) -> (r: Result<fancy_regex::Regex, String>)
    ensures
        match r {
            Ok(_) => fancy_regex_error(pattern@) is None,
            Err(e) => fancy_regex_error(pattern@) == Some(e@),
        },
{
    fancy_regex::Regex::new(pattern).map_err(|e| e.to_string())
}

/// A pattern compiled for searching, kept with the engine-dialect text it
/// was compiled from. Only [`compile_pattern`] makes one.
pub struct CompiledPattern {
    translated: String,
    regex: fancy_regex::Regex,
}

impl CompiledPattern {
    /// The engine-dialect text the pattern was compiled from.
    pub closed spec fn source(&self) -> Seq<char> {
        self.translated@
    }

    /// The compiled form the pattern holds: what the engine made of
    /// [`source`](Self::source) when [`compile_pattern`] compiled it.
    pub closed spec fn compiled(&self) -> fancy_regex::Regex {
        self.regex
    }

    /// The compiled pattern: the one compiled from [`source`](Self::source).
    pub fn regex(&self) -> (r: &fancy_regex::Regex)
        ensures
            *r == self.compiled(),
    {
        &self.regex
    }
}

/// Compile a pattern written in Python's `re` dialect for searching: the
/// translation's refusal, or the engine's error on one line, or the pattern
/// compiled from the translation.
pub fn compile_pattern(pattern: &str) -> (r: Result<CompiledPattern, String>)
    ensures
        match translate_from(pattern@, 0, false, Seq::<char>::empty()) {
            Err(e) => r matches Err(m) && m@ == e,
            Ok(t) => match fancy_regex_error(t) {
                Some(msg) => r matches Err(m) && m@ == one_line_spec(msg),
                None => r matches Ok(p) && p.source() == t,
            },
        },
{
    let translated = match translate(pattern) {
        Ok(t) => t,
        Err(e) => {
            return Err(e);
        },
    };
    match fancy_regex_new(translated.as_str()) {
        Ok(regex) => Ok(CompiledPattern { translated, regex }),
        Err(msg) => Err(one_line(msg.as_str())),
    }
}

/// Compile a pattern written in Python's `re` dialect: the translation's
/// refusal, or the engine's error on one line, or the compiled pattern.
pub fn compile(pattern: &str) -> (r: Result<fancy_regex::Regex, String>)
    ensures
        match translate_from(pattern@, 0, false, Seq::<char>::empty()) {
            Err(e) => r matches Err(m) && m@ == e,
            Ok(t) => match fancy_regex_error(t) {
                Some(msg) => r matches Err(m) && m@ == one_line_spec(msg),
                None => r is Ok,
            },
        },
{
    match compile_pattern(pattern) {
        Ok(p) => Ok(p.regex),
        Err(e) => Err(e),
    }
}

} // verus!
