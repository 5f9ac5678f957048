//! Agent-driven execution: the prompt an agent is given for a recipe, and
//! where in the agent's reply its JSON verdict may be found.
use vstd::prelude::*;
use crate::render::ascii_lower;
use crate::text::{
    chars_of, contains, contains_exec, join, join_chars, lemma_views_push, lines_chars, lines_of, owned,
    push_str, slice_chars, string_of, string_seqs, trim, trim_chars, views, str_eq,
};
use crate::uploader::{lemma_utf8_len_prefix, utf8_len, utf8_width, utf8_width_exec};

verus! {

broadcast use vstd::string::group_string_axioms;

/// Most bytes of an agent's reply that are read.
pub const MAX_AGENT_OUTPUT_BYTES: usize = 1048576;

/// Most bytes of recipe context quoted in a prompt.
pub const MAX_PROMPT_CONTEXT_CHARS: usize = 50000;

// ---------------------------------------------------------------------------
// The prompt
// ---------------------------------------------------------------------------

/// An argument needs quoting when it holds a space or a quote.
pub open spec fn needs_quoting(s: Seq<char>) -> bool {
    s.contains(' ') || s.contains('"') || s.contains('\'')
}

/// `s` with each `'` written `'\''`.
pub open spec fn escape_single_quotes(s: Seq<char>) -> Seq<char>
    decreases s.len(),
{
    if s.len() == 0 {
        Seq::<char>::empty()
    } else {
        escape_single_quotes(s.drop_last()) + if s.last() == '\'' {
            seq!['\'', '\\', '\'', '\'']
        } else {
            seq![s.last()]
        }
    }
}

/// One argument as a shell would read it back: in single quotes when it
/// needs quoting, as it is otherwise.
pub open spec fn quote_arg(s: Seq<char>) -> Seq<char> {
    if needs_quoting(s) {
        seq!['\''] + escape_single_quotes(s) + seq!['\'']
    } else {
        s
    }
}

/// An argument vector for display: each argument quoted, joined by spaces.
pub open spec fn shell_quote_spec(argv: Seq<Seq<char>>) -> Seq<char> {
    join(Seq::new(argv.len(), |i: int| quote_arg(argv[i])), seq![' '])
}

fn quote_arg_exec(s: &str) -> (r: Vec<char>)
    ensures
        r@ == quote_arg(s@),
{
    let chars = chars_of(s);
    let q = crate::text::char_in(chars.as_slice(), ' ') || crate::text::char_in(chars.as_slice(), '"')
        || crate::text::char_in(chars.as_slice(), '\'');
    if !q {
        return chars;
    }
    let mut out: Vec<char> = Vec::new();
    out.push('\'');
    let mut i: usize = 0;
    assert(chars@.take(0) =~= Seq::<char>::empty());
    while i < chars.len()
        invariant
            chars@ == s@,
            i <= chars@.len(),
            out@ == seq!['\''] + escape_single_quotes(chars@.take(i as int)),
        decreases chars@.len() - i,
    {
        assert(chars@.take(i + 1).drop_last() =~= chars@.take(i as int));
        if chars[i] == '\'' {
            out.push('\'');
            out.push('\\');
            out.push('\'');
            out.push('\'');
        } else {
            out.push(chars[i]);
        }
        assert(out@ =~= seq!['\''] + escape_single_quotes(chars@.take(i + 1)));
        i += 1;
    }
    assert(chars@.take(chars@.len() as int) =~= chars@);
    out.push('\'');
    out
}

/// Quote an argument vector for display in a prompt.
pub fn shell_quote(argv: &[String]) -> (s: String)
    ensures
        s@ == shell_quote_spec(Seq::new(argv@.len(), |i: int| argv@[i]@)),
{
    let ghost args = Seq::new(argv@.len(), |i: int| argv@[i]@);
    let ghost want = Seq::new(args.len(), |i: int| quote_arg(args[i]));
    let mut pieces: Vec<Vec<char>> = Vec::new();
    let mut i: usize = 0;
    while i < argv.len()
        invariant
            args == Seq::new(argv@.len(), |i: int| argv@[i]@),
            want == Seq::new(args.len(), |i: int| quote_arg(args[i])),
            i <= argv@.len(),
            views(pieces@) == want.take(i as int),
        decreases argv@.len() - i,
    {
        let q = quote_arg_exec(argv[i].as_str());
        proof { lemma_views_push(pieces@, q); }
        pieces.push(q);
        assert(want.take(i as int).push(want[i as int]) =~= want.take(i + 1));
        i += 1;
    }
    assert(want.take(argv@.len() as int) =~= want);
    let joined = join_chars(&pieces, &[' ']);
    assert([' ']@ =~= seq![' ']);
    string_of(joined.as_slice())
}

/// The checks an agent is asked to decide: the recipe's own, or a single
/// default one when it lists none.
pub open spec fn agent_checks_spec(checks: Seq<Seq<char>>) -> Seq<Seq<char>> {
    if checks.len() == 0 {
        seq!["Codex operator completed the verification"@]
    } else {
        checks
    }
}

/// The checks an agent is asked to decide.
pub fn agent_checks(checks: &[String]) -> (r: Vec<String>)
    ensures
        Seq::new(r@.len(), |i: int| r@[i]@) == agent_checks_spec(Seq::new(checks@.len(), |i: int| checks@[i]@)),
{
    let mut out: Vec<String> = Vec::new();
    if checks.len() == 0 {
        out.push(owned("Codex operator completed the verification"));
        assert(Seq::new(out@.len(), |i: int| out@[i]@) =~= seq!["Codex operator completed the verification"@]);
        return out;
    }
    let mut i: usize = 0;
    while i < checks.len()
        invariant
            i <= checks@.len(),
            out@.len() == i,
            forall|j: int| 0 <= j < i ==> #[trigger] out@[j]@ == checks@[j]@,
        decreases checks@.len() - i,
    {
        out.push(owned(checks[i].as_str()));
        i += 1;
    }
    assert(Seq::new(out@.len(), |i: int| out@[i]@) =~= Seq::new(checks@.len(), |i: int| checks@[i]@));
    out
}

/// The prompt for a target command, quoted for display, and the recipe's
/// context as JSON.
pub open spec fn agent_prompt_spec(target: Seq<char>, context: Seq<char>) -> Seq<char> {
    "You are the Codex operator for an evidence-first TUI verification run.\n\nExercise the target terminal workflow and decide whether each check passes.\nDo not modify files; only inspect or run commands needed for verification.\nThe harness will turn your transcript into asciinema evidence, screenshots, videos, and reports.\n\nTarget command: `"@
        + target
        + "`\n\nRecipe context:\n```json\n"@
        + context
        + "\n```\n\nReturn JSON only with this schema:\n```json\n{\"assertions\":{\"check name\":true},\"transcript\":\"what you observed\",\"notes\":\"optional\"}\n```\n"@
}

/// The prompt an agent is given: what to do, the target command, the
/// recipe's context as JSON, and the shape of the answer expected.
pub fn agent_prompt(argv: &[String], context_json: &str) -> (p: String)
    ensures
        p@ == agent_prompt_spec(shell_quote_spec(Seq::new(argv@.len(), |i: int| argv@[i]@)), context_json@),
{
    let mut p = owned(
        "You are the Codex operator for an evidence-first TUI verification run.\n\nExercise the target terminal workflow and decide whether each check passes.\nDo not modify files; only inspect or run commands needed for verification.\nThe harness will turn your transcript into asciinema evidence, screenshots, videos, and reports.\n\nTarget command: `",
    );
    push_str(&mut p, shell_quote(argv).as_str());
    push_str(&mut p, "`\n\nRecipe context:\n```json\n");
    push_str(&mut p, context_json);
    push_str(
        &mut p,
        "\n```\n\nReturn JSON only with this schema:\n```json\n{\"assertions\":{\"check name\":true},\"transcript\":\"what you observed\",\"notes\":\"optional\"}\n```\n",
    );
    p
}

// ---------------------------------------------------------------------------
// Finding the verdict in a reply
// ---------------------------------------------------------------------------

/// The code fence.
pub open spec fn fence() -> Seq<char> {
    seq!['`', '`', '`']
}

/// `s` split at each code fence, as `str::split("```")` splits it: the
/// leftmost fence first, fences not overlapping.
pub open spec fn split_fence(s: Seq<char>) -> Seq<Seq<char>>
    decreases s.len(),
{
    if s.len() == 0 {
        seq![Seq::<char>::empty()]
    } else if s.len() >= 3 && s.take(3) == fence() {
        seq![Seq::<char>::empty()] + split_fence(s.skip(3))
    } else {
        let r = split_fence(s.drop_first());
        r.update(0, seq![s[0]] + r[0])
    }
}

proof fn lemma_split_fence_nonempty(s: Seq<char>)
    ensures
        split_fence(s).len() >= 1,
    decreases s.len(),
{
    if s.len() > 0 {
        if s.len() >= 3 && s.take(3) == fence() {
            lemma_split_fence_nonempty(s.skip(3));
        } else {
            lemma_split_fence_nonempty(s.drop_first());
        }
    }
}

/// A fenced chunk as a candidate: trimmed, and without a leading `json`
/// tag (in any ASCII case) and the whitespace after it.
pub open spec fn chunk_candidate(chunk: Seq<char>) -> Seq<char> {
    let c = trim(chunk);
    if c.len() >= 4 && Seq::new(4, |i: int| ascii_lower(c[i])) == seq!['j', 's', 'o', 'n'] {
        trim(c.skip(4))
    } else {
        c
    }
}

/// The non-empty texts of `v`, last first.
pub open spec fn nonempty_reversed(v: Seq<Seq<char>>) -> Seq<Seq<char>>
    decreases v.len(),
{
    if v.len() == 0 {
        Seq::<Seq<char>>::empty()
    } else if v.last().len() > 0 {
        seq![v.last()] + nonempty_reversed(v.drop_last())
    } else {
        nonempty_reversed(v.drop_last())
    }
}

/// The texts tried as a whole reply's JSON, in order: the trimmed reply;
/// each trimmed line, last line first; and, when the reply holds a code
/// fence, each fenced chunk, last first. Empty texts are skipped.
pub open spec fn agent_candidates_spec(output: Seq<char>) -> Seq<Seq<char>> {
    let whole = if trim(output).len() > 0 {
        seq![trim(output)]
    } else {
        Seq::<Seq<char>>::empty()
    };
    let lines = nonempty_reversed(Seq::new(lines_of(output).len(), |i: int| trim(lines_of(output)[i])));
    let chunks = if contains(output, fence()) {
        nonempty_reversed(Seq::new(split_fence(output).len(), |i: int| chunk_candidate(split_fence(output)[i])))
    } else {
        Seq::<Seq<char>>::empty()
    };
    whole + lines + chunks
}

fn nonempty_reversed_exec(v: &Vec<Vec<char>>) -> (out: Vec<Vec<char>>)
    ensures
        views(out@) == nonempty_reversed(views(v@)),
{
    let ghost all = views(v@);
    let mut out: Vec<Vec<char>> = Vec::new();
    let mut i: usize = v.len();
    assert(all.take(all.len() as int) =~= all);
    while i > 0
        invariant
            all == views(v@),
            i <= all.len(),
            nonempty_reversed(all) == views(out@) + nonempty_reversed(all.take(i as int)),
        decreases i,
    {
        let ghost t = all.take(i as int);
        assert(t.drop_last() =~= all.take(i - 1));
        assert(t.last() == all[i - 1]);
        if v[i - 1].len() > 0 {
            let mut c: Vec<char> = Vec::new();
            c.extend_from_slice(v[i - 1].as_slice());
            assert(c@ =~= all[i - 1]);
            proof { lemma_views_push(out@, c); }
            let ghost before = views(out@);
            out.push(c);
            assert(views(out@) + nonempty_reversed(all.take(i - 1)) =~= before + (seq![all[i - 1]]
                + nonempty_reversed(all.take(i - 1))));
        } else {
            assert(views(out@) + nonempty_reversed(all.take(i - 1)) =~= views(out@) + nonempty_reversed(t));
        }
        i -= 1;
    }
    assert(all.take(0) =~= Seq::<Seq<char>>::empty());
    assert(views(out@) + Seq::<Seq<char>>::empty() =~= views(out@));
    out
}

fn split_fence_exec(s: &[char]) -> (out: Vec<Vec<char>>)
    ensures
        views(out@) == split_fence(s@),
{
    let mut done: Vec<Vec<char>> = Vec::new();
    let mut cur: Vec<char> = Vec::new();
    let mut i: usize = 0;
    assert(s@.skip(0) =~= s@);
    proof { lemma_split_fence_nonempty(s@); }
    while i < s.len()
        invariant
            i <= s@.len(),
            split_fence(s@.skip(i as int)).len() >= 1,
            split_fence(s@) == views(done@) + seq![cur@ + split_fence(s@.skip(i as int))[0]] + split_fence(
                s@.skip(i as int),
            ).skip(1),
        decreases s@.len() - i,
    {
        let ghost rest = s@.skip(i as int);
        let is_fence: bool = s.len() - i >= 3 && s[i] == '`' && s[i + 1] == '`' && s[i + 2] == '`';
        if is_fence {
            assert(rest.take(3) =~= fence());
            assert(rest.skip(3) =~= s@.skip(i + 3));
            proof { lemma_split_fence_nonempty(s@.skip(i + 3)); }
            let ghost r = split_fence(s@.skip(i + 3));
            assert(split_fence(rest) == seq![Seq::<char>::empty()] + r);
            let piece = cur;
            proof { lemma_views_push(done@, piece); }
            done.push(piece);
            cur = Vec::new();
            assert(split_fence(s@) =~= views(done@) + seq![cur@ + r[0]] + r.skip(1));
            i += 3;
        } else {
            assert(!(rest.len() >= 3 && rest.take(3) == fence())) by {
                if rest.len() >= 3 && rest.take(3) == fence() {
                    assert(rest[0] == s@[i as int] && rest[1] == s@[i + 1] && rest[2] == s@[i + 2]);
                    assert(rest.take(3)[0] == '`' && rest.take(3)[1] == '`' && rest.take(3)[2] == '`');
                }
            }
            assert(rest.drop_first() =~= s@.skip(i + 1));
            proof { lemma_split_fence_nonempty(s@.skip(i + 1)); }
            let ghost r = split_fence(s@.skip(i + 1));
            assert(split_fence(rest) == r.update(0, seq![rest[0]] + r[0]));
            assert(split_fence(rest)[0] == seq![rest[0]] + r[0]);
            assert(split_fence(rest).skip(1) =~= r.skip(1));
            let ghost old_cur = cur@;
            cur.push(s[i]);
            assert(old_cur + (seq![rest[0]] + r[0]) =~= cur@ + r[0]);
            assert(split_fence(s@) =~= views(done@) + seq![cur@ + r[0]] + r.skip(1));
            i += 1;
        }
    }
    assert(s@.skip(i as int) =~= Seq::<char>::empty());
    assert(split_fence(s@.skip(i as int)) =~= seq![Seq::<char>::empty()]);
    proof { lemma_views_push(done@, cur); }
    let ghost before = views(done@);
    let ghost c = cur@;
    done.push(cur);
    assert(views(done@) =~= before.push(c));
    assert(split_fence(s@) =~= views(done@));
    done
}

fn chunk_candidate_exec(chunk: &[char]) -> (r: Vec<char>)
    ensures
        r@ == chunk_candidate(chunk@),
{
    let c = trim_chars(chunk);
    if c.len() >= 4 {
        let l0 = if 'A' <= c[0] && c[0] <= 'Z' { ((c[0] as u32) + 32) as u8 as char } else { c[0] };
        let l1 = if 'A' <= c[1] && c[1] <= 'Z' { ((c[1] as u32) + 32) as u8 as char } else { c[1] };
        let l2 = if 'A' <= c[2] && c[2] <= 'Z' { ((c[2] as u32) + 32) as u8 as char } else { c[2] };
        let l3 = if 'A' <= c[3] && c[3] <= 'Z' { ((c[3] as u32) + 32) as u8 as char } else { c[3] };
        let ghost lowered = Seq::new(4, |i: int| ascii_lower(c@[i]));
        assert(lowered[0] == l0 && lowered[1] == l1 && lowered[2] == l2 && lowered[3] == l3);
        if l0 == 'j' && l1 == 's' && l2 == 'o' && l3 == 'n' {
            assert(lowered =~= seq!['j', 's', 'o', 'n']);
            let rest = slice_chars(c.as_slice(), 4, c.len());
            assert(rest@ =~= c@.skip(4));
            return trim_chars(rest.as_slice());
        }
        assert(lowered != seq!['j', 's', 'o', 'n']) by {
            if lowered == seq!['j', 's', 'o', 'n'] {
                assert(lowered[0] == 'j' && lowered[1] == 's' && lowered[2] == 'o' && lowered[3] == 'n');
            }
        }
    }
    c
}

/// The texts tried, in order, as the whole of an agent's JSON verdict.
pub fn agent_candidates(output: &str) -> (r: Vec<String>)
    ensures
        Seq::new(r@.len(), |i: int| r@[i]@) == agent_candidates_spec(output@),
{
    let chars = chars_of(output);
    let mut found: Vec<Vec<char>> = Vec::new();
    let whole = trim_chars(chars.as_slice());
    let ghost w = if trim(output@).len() > 0 { seq![trim(output@)] } else { Seq::<Seq<char>>::empty() };
    if whole.len() > 0 {
        proof { lemma_views_push(found@, whole); }
        found.push(whole);
    }
    assert(views(found@) =~= w);
    let lines = lines_chars(chars.as_slice());
    let ghost ls = lines_of(output@);
    let mut trimmed: Vec<Vec<char>> = Vec::new();
    let mut i: usize = 0;
    while i < lines.len()
        invariant
            views(lines@) == ls,
            i <= ls.len(),
            views(trimmed@) == Seq::new(i as nat, |j: int| trim(ls[j])),
        decreases ls.len() - i,
    {
        let t = trim_chars(lines[i].as_slice());
        assert(lines@[i as int]@ == ls[i as int]);
        proof { lemma_views_push(trimmed@, t); }
        trimmed.push(t);
        assert(views(trimmed@) =~= Seq::new((i + 1) as nat, |j: int| trim(ls[j])));
        i += 1;
    }
    let from_lines = nonempty_reversed_exec(&trimmed);
    let ghost before_lines = views(found@);
    let mut k: usize = 0;
    while k < from_lines.len()
        invariant
            k <= from_lines@.len(),
            views(found@) == before_lines + views(from_lines@).take(k as int),
        decreases from_lines@.len() - k,
    {
        let mut c: Vec<char> = Vec::new();
        c.extend_from_slice(from_lines[k].as_slice());
        assert(c@ =~= from_lines@[k as int]@);
        proof { lemma_views_push(found@, c); }
        found.push(c);
        assert(views(from_lines@).take(k + 1) =~= views(from_lines@).take(k as int).push(from_lines@[k as int]@));
        k += 1;
    }
    assert(views(from_lines@).take(from_lines@.len() as int) =~= views(from_lines@));
    let ghost before_chunks = views(found@);
    let has_fence = contains_exec(chars.as_slice(), &['`', '`', '`']);
    assert(['`', '`', '`']@ =~= fence());
    if has_fence {
        let pieces = split_fence_exec(chars.as_slice());
        let ghost ps = split_fence(output@);
        let mut cands: Vec<Vec<char>> = Vec::new();
        let mut j: usize = 0;
        while j < pieces.len()
            invariant
                views(pieces@) == ps,
                j <= ps.len(),
                views(cands@) == Seq::new(j as nat, |m: int| chunk_candidate(ps[m])),
            decreases ps.len() - j,
        {
            let c = chunk_candidate_exec(pieces[j].as_slice());
            assert(pieces@[j as int]@ == ps[j as int]);
            proof { lemma_views_push(cands@, c); }
            cands.push(c);
            assert(views(cands@) =~= Seq::new((j + 1) as nat, |m: int| chunk_candidate(ps[m])));
            j += 1;
        }
        let from_chunks = nonempty_reversed_exec(&cands);
        let mut m: usize = 0;
        while m < from_chunks.len()
            invariant
                m <= from_chunks@.len(),
                views(found@) == before_chunks + views(from_chunks@).take(m as int),
            decreases from_chunks@.len() - m,
        {
            let mut c: Vec<char> = Vec::new();
            c.extend_from_slice(from_chunks[m].as_slice());
            assert(c@ =~= from_chunks@[m as int]@);
            proof { lemma_views_push(found@, c); }
            found.push(c);
            assert(views(from_chunks@).take(m + 1) =~= views(from_chunks@).take(m as int).push(
                from_chunks@[m as int]@,
            ));
            m += 1;
        }
        assert(views(from_chunks@).take(from_chunks@.len() as int) =~= views(from_chunks@));
    } else {
        assert(views(found@) =~= before_chunks + Seq::<Seq<char>>::empty());
    }
    assert(views(found@) =~= agent_candidates_spec(output@));
    let mut out: Vec<String> = Vec::new();
    let mut n: usize = 0;
    while n < found.len()
        invariant
            n <= found@.len(),
            out@.len() == n,
            forall|q: int| 0 <= q < n ==> #[trigger] out@[q]@ == found@[q]@,
        decreases found@.len() - n,
    {
        out.push(string_of(found[n].as_slice()));
        n += 1;
    }
    assert(Seq::new(out@.len(), |q: int| out@[q]@) =~= views(found@));
    out
}

/// What is tried at one `{` of a reply: the reply from that brace on, and,
/// when a `}` follows, that text cut just after its last `}`.
pub open spec fn brace_tail(s: Seq<char>, k: int) -> (Seq<char>, Option<Seq<char>>) {
    let t = s.skip(k);
    if t.contains('}') {
        (t, Some(t.take(last_close(t, t.len() - 1) + 1)))
    } else {
        (t, None)
    }
}

/// The last position at or before `i` holding a `}`.
pub open spec fn last_close(t: Seq<char>, i: int) -> int
    decreases i + 1,
{
    if i < 0 {
        -1
    } else if t[i] == '}' {
        i
    } else {
        last_close(t, i - 1)
    }
}

/// What is tried at each `{` before position `i`, the last brace first.
pub open spec fn brace_tails(s: Seq<char>, i: int) -> Seq<(Seq<char>, Option<Seq<char>>)>
    decreases i,
{
    if i <= 0 {
        Seq::empty()
    } else if s[i - 1] == '{' {
        seq![brace_tail(s, i - 1)] + brace_tails(s, i - 1)
    } else {
        brace_tails(s, i - 1)
    }
}

fn brace_tail_exec(s: &[char], k: usize) -> (r: (String, Option<String>))
    requires
        k < s@.len(),
    ensures
        r.0@ == brace_tail(s@, k as int).0,
        match r.1 {
            Some(x) => brace_tail(s@, k as int).1 == Some(x@),
            None => brace_tail(s@, k as int).1 is None,
        },
{
    let t = slice_chars(s, k, s.len());
    assert(t@ =~= s@.skip(k as int));
    let mut j: usize = t.len();
    while j > 0 && t[j - 1] != '}'
        invariant
            j <= t@.len(),
            forall|q: int| j <= q < t@.len() ==> t@[q] != '}',
            last_close(t@, t@.len() - 1) == last_close(t@, j - 1),
        decreases j,
    {
        j -= 1;
    }
    let whole = string_of(t.as_slice());
    if j == 0 {
        assert(!t@.contains('}'));
        (whole, None)
    } else {
        assert(t@.contains('}')) by {
            assert(t@[j - 1] == '}');
        }
        let cut = slice_chars(t.as_slice(), 0, j);
        assert(cut@ =~= t@.take(j as int));
        (whole, Some(string_of(cut.as_slice())))
    }
}

/// What is tried at each `{` of a reply, the last brace first.
pub fn brace_tails_exec(output: &str) -> (r: Vec<(String, Option<String>)>)
    ensures
        r@.len() == brace_tails(output@, output@.len() as int).len(),
        forall|i: int| 0 <= i < r@.len() ==> {
            &&& (#[trigger] r@[i]).0@ == brace_tails(output@, output@.len() as int)[i].0
            &&& match r@[i].1 {
                Some(x) => brace_tails(output@, output@.len() as int)[i].1 == Some(x@),
                None => brace_tails(output@, output@.len() as int)[i].1 is None,
            }
        },
{
    let s = chars_of(output);
    let ghost all = brace_tails(s@, s@.len() as int);
    let ghost rv = |r: Seq<(String, Option<String>)>| Seq::new(r.len(), |i: int| (r[i].0@, match r[i].1 {
        Some(x) => Some(x@),
        None => None,
    }));
    let mut out: Vec<(String, Option<String>)> = Vec::new();
    let mut i: usize = s.len();
    while i > 0
        invariant
            s@ == output@,
            i <= s@.len(),
            all == brace_tails(s@, s@.len() as int),
            rv == (|r: Seq<(String, Option<String>)>| Seq::new(r.len(), |i: int| (r[i].0@, match r[i].1 {
                Some(x) => Some(x@),
                None => None,
            }))),
            all == rv(out@) + brace_tails(s@, i as int),
        decreases i,
    {
        if s[i - 1] == '{' {
            let item = brace_tail_exec(s.as_slice(), i - 1);
            let ghost before = out@;
            out.push(item);
            assert(rv(out@) =~= rv(before).push(brace_tail(s@, i - 1)));
            assert(all =~= rv(out@) + brace_tails(s@, i - 1));
        }
        i -= 1;
    }
    assert(all =~= rv(out@));
    proof {
        assert forall|k: int| 0 <= k < out@.len() implies {
            &&& (#[trigger] out@[k]).0@ == all[k].0
            &&& match out@[k].1 {
                Some(x) => all[k].1 == Some(x@),
                None => all[k].1 is None,
            }
        } by {
            assert(all[k] == rv(out@)[k]);
        }
    }
    out
}

/// Which of the JSON objects found in a reply is its verdict, given for each
/// whether it has an `assertions` or a `transcript` key: the first that
/// has, or else the first; `None` when there are none.
pub fn preferred_object(has_keys: &[bool]) -> (r: Option<usize>)
    ensures
        match r {
            Some(i) => i < has_keys@.len() && (has_keys@[i as int] || forall|j: int|
                0 <= j < has_keys@.len() ==> !has_keys@[j]) && (has_keys@[i as int] ==> forall|j: int|
                0 <= j < i ==> !has_keys@[j]) && (!has_keys@[i as int] ==> i == 0),
            None => has_keys@.len() == 0,
        },
{
    let mut i: usize = 0;
    while i < has_keys.len()
        invariant
            i <= has_keys@.len(),
            forall|j: int| 0 <= j < i ==> !has_keys@[j],
        decreases has_keys@.len() - i,
    {
        if has_keys[i] {
            return Some(i);
        }
        i += 1;
    }
    if has_keys.len() > 0 {
        Some(0)
    } else {
        None
    }
}

// ---------------------------------------------------------------------------
// The verdict
// ---------------------------------------------------------------------------

/// The longest leading part of `s` whose UTF-8 encoding fits in `max` bytes.
pub open spec fn within_bytes(s: Seq<char>, max: nat) -> Seq<char>
    decreases s.len(),
{
    if utf8_len(s) <= max || s.len() == 0 {
        s
    } else {
        within_bytes(s.drop_last(), max)
    }
}

proof fn lemma_within_bytes(s: Seq<char>, max: nat, k: int)
    requires
        0 <= k <= s.len(),
        utf8_len(s.take(k)) <= max,
        k < s.len() ==> utf8_len(s.take(k + 1)) > max,
    ensures
        within_bytes(s, max) == s.take(k),
    decreases s.len(),
{
    if k == s.len() {
        assert(s.take(k) =~= s);
    } else {
        lemma_utf8_len_prefix(s, k + 1);
        let d = s.drop_last();
        assert(d.take(k) =~= s.take(k));
        if k + 1 <= d.len() {
            assert(d.take(k + 1) =~= s.take(k + 1));
        }
        lemma_within_bytes(d, max, k);
    }
}

/// The part of an agent's reply that is read: at most
/// `MAX_AGENT_OUTPUT_BYTES` bytes, cut back to a character boundary.
pub fn bounded_reply(output: &str) -> (r: String)
    ensures
        r@ == within_bytes(output@, MAX_AGENT_OUTPUT_BYTES as nat),
        utf8_len(r@) <= MAX_AGENT_OUTPUT_BYTES,
{
    let chars = chars_of(output);
    let mut used: usize = 0;
    let mut k: usize = 0;
    let mut full = false;
    while k < chars.len() && !full
        invariant
            k <= chars@.len(),
            used == utf8_len(chars@.take(k as int)),
            used <= MAX_AGENT_OUTPUT_BYTES,
            full ==> k < chars@.len() && utf8_len(chars@.take(k + 1)) > MAX_AGENT_OUTPUT_BYTES,
        decreases chars@.len() - k + (if full { 0int } else { 1int }),
    {
        let w = utf8_width_exec(chars[k]);
        assert(chars@.take(k + 1).drop_last() =~= chars@.take(k as int));
        if used + w > MAX_AGENT_OUTPUT_BYTES {
            full = true;
        } else {
            used = used + w;
            k += 1;
        }
    }
    proof {
        lemma_within_bytes(chars@, MAX_AGENT_OUTPUT_BYTES as nat, k as int);
    }
    let cut = slice_chars(chars.as_slice(), 0, k);
    assert(cut@ =~= chars@.take(k as int));
    string_of(cut.as_slice())
}

/// The member names of the JSON object `text` holds, as `serde_json` reads
/// it; `None` when `text` is not a JSON object.
pub uninterp spec fn json_object_keys(text: Seq<char>) -> Option<Seq<Seq<char>>>;

/// `serde_json::from_str` into a `Value`, read as an object's member names;
/// `None` for anything that is not a JSON object. Trusted to depend on the
/// text alone.
#[verifier::external_body]
fn object_keys(text: &str) -> (r: Option<Vec<String>>)
    ensures
        match r {
            Some(k) => json_object_keys(text@) == Some(string_seqs(k@)),
            None => json_object_keys(text@) is None,
        },
{
    match serde_json::from_str::<serde_json::Value>(text) {
        Ok(serde_json::Value::Object(map)) => Some(map.keys().cloned().collect()),
        _ => None,
    }
}

/// Whether `text` is a JSON object.
pub open spec fn is_object(text: Seq<char>) -> bool {
    json_object_keys(text) is Some
}

/// Whether `text` is a JSON object with an `assertions` or a `transcript`
/// member.
pub open spec fn is_keyed(text: Seq<char>) -> bool {
    match json_object_keys(text) {
        Some(k) => k.contains("assertions"@) || k.contains("transcript"@),
        None => false,
    }
}

/// The texts among `texts` that are JSON objects, in order.
pub open spec fn objects_among(texts: Seq<Seq<char>>) -> Seq<Seq<char>>
    decreases texts.len(),
{
    if texts.len() == 0 {
        Seq::empty()
    } else {
        objects_among(texts.drop_last()) + if is_object(texts.last()) {
            seq![texts.last()]
        } else {
            Seq::empty()
        }
    }
}

/// What one `{` yields: the tail when it is an object, else its repair when
/// that is one, else nothing.
pub open spec fn tail_choice(t: (Seq<char>, Option<Seq<char>>)) -> Seq<Seq<char>> {
    if is_object(t.0) {
        seq![t.0]
    } else {
        match t.1 {
            Some(r) => if is_object(r) {
                seq![r]
            } else {
                Seq::empty()
            },
            None => Seq::empty(),
        }
    }
}

/// What the braces yield, in order.
pub open spec fn tail_objects(ts: Seq<(Seq<char>, Option<Seq<char>>)>) -> Seq<Seq<char>>
    decreases ts.len(),
{
    if ts.len() == 0 {
        Seq::empty()
    } else {
        tail_objects(ts.drop_last()) + tail_choice(ts.last())
    }
}

/// Every JSON object found in a reply, in the order tried: the candidates,
/// then each brace, the last first.
pub open spec fn found_objects(output: Seq<char>) -> Seq<Seq<char>> {
    objects_among(agent_candidates_spec(output)) + tail_objects(brace_tails(output, output.len() as int))
}

/// The first keyed object among `v`.
pub open spec fn first_keyed(v: Seq<Seq<char>>) -> Option<Seq<char>>
    decreases v.len(),
{
    if v.len() == 0 {
        None
    } else if is_keyed(v[0]) {
        Some(v[0])
    } else {
        first_keyed(v.drop_first())
    }
}

/// The verdict among objects found: the first keyed one, or else the first.
pub open spec fn chosen(v: Seq<Seq<char>>) -> Option<Seq<char>> {
    match first_keyed(v) {
        Some(t) => Some(t),
        None => if v.len() > 0 {
            Some(v[0])
        } else {
            None
        },
    }
}

proof fn lemma_first_keyed(v: Seq<Seq<char>>, i: int)
    requires
        0 <= i <= v.len(),
        forall|j: int| 0 <= j < i ==> !is_keyed(#[trigger] v[j]),
    ensures
        i < v.len() && is_keyed(v[i]) ==> first_keyed(v) == Some(v[i]),
        i == v.len() ==> first_keyed(v) is None,
    decreases i,
{
    if i > 0 {
        let d = v.drop_first();
        assert forall|j: int| 0 <= j < i - 1 implies !is_keyed(#[trigger] d[j]) by {
            assert(d[j] == v[j + 1]);
        }
        lemma_first_keyed(d, i - 1);
        assert(!is_keyed(v[0]));
        if i < v.len() {
            assert(d[i - 1] == v[i]);
        }
    }
}

fn has_verdict_key(keys: &Vec<String>) -> (b: bool)
    ensures
        b == (string_seqs(keys@).contains("assertions"@) || string_seqs(keys@).contains("transcript"@)),
{
    let ghost ks = string_seqs(keys@);
    let mut i: usize = 0;
    while i < keys.len()
        invariant
            ks == string_seqs(keys@),
            i <= keys@.len(),
            forall|j: int| 0 <= j < i ==> ks[j] != "assertions"@ && ks[j] != "transcript"@,
        decreases keys@.len() - i,
    {
        if str_eq(keys[i].as_str(), "assertions") || str_eq(keys[i].as_str(), "transcript") {
            assert(ks[i as int] == keys@[i as int]@);
            return true;
        }
        i += 1;
    }
    false
}

fn push_if_object(texts: &mut Vec<String>, keyed: &mut Vec<bool>, t: String) -> (added: bool)
    requires
        old(keyed)@.len() == old(texts)@.len(),
        forall|q: int| 0 <= q < old(keyed)@.len() ==> old(keyed)@[q] == is_keyed(#[trigger] old(texts)@[q]@),
    ensures
        final(keyed)@.len() == final(texts)@.len(),
        forall|q: int| 0 <= q < final(keyed)@.len() ==> final(keyed)@[q] == is_keyed(#[trigger] final(texts)@[q]@),
        added == is_object(t@),
        string_seqs(final(texts)@) == string_seqs(old(texts)@) + if added {
            seq![t@]
        } else {
            Seq::<Seq<char>>::empty()
        },
        final(keyed)@ == old(keyed)@ + if added {
            seq![is_keyed(t@)]
        } else {
            Seq::<bool>::empty()
        },
{
    match object_keys(t.as_str()) {
        Some(keys) => {
            let k = has_verdict_key(&keys);
            proof { crate::text::lemma_string_seqs_push(texts@, t); }
            let ghost tv = t@;
            texts.push(t);
            keyed.push(k);
            assert(keyed@ =~= old(keyed)@ + seq![is_keyed(tv)]);
            assert forall|q: int| 0 <= q < keyed@.len() implies keyed@[q] == is_keyed(#[trigger] texts@[q]@) by {
                if q < old(keyed)@.len() {
                    assert(texts@[q] == old(texts)@[q]);
                }
            }
            true
        },
        None => {
            assert(string_seqs(texts@) =~= string_seqs(texts@) + Seq::<Seq<char>>::empty());
            assert(keyed@ =~= keyed@ + Seq::<bool>::empty());
            false
        },
    }
}

/// The text of an agent's JSON verdict in its reply: among every JSON
/// object found (the candidates, then each brace's tail before its repair),
/// the first with an `assertions` or `transcript` member, or else the first;
/// `None` when there is none.
pub fn verdict_text(output: &str) -> (r: Option<String>)
    ensures
        match r {
            Some(t) => chosen(found_objects(output@)) == Some(t@),
            None => chosen(found_objects(output@)) is None,
        },
{
    let mut texts: Vec<String> = Vec::new();
    let mut keyed: Vec<bool> = Vec::new();
    let cands = agent_candidates(output);
    let ghost cs = agent_candidates_spec(output@);
    let mut i: usize = 0;
    assert(cs.take(0) =~= Seq::<Seq<char>>::empty());
    while i < cands.len()
        invariant
            cs == agent_candidates_spec(output@),
            Seq::new(cands@.len(), |q: int| cands@[q]@) == cs,
            i <= cands@.len(),
            string_seqs(texts@) == objects_among(cs.take(i as int)),
            keyed@.len() == texts@.len(),
            forall|q: int| 0 <= q < keyed@.len() ==> keyed@[q] == is_keyed(#[trigger] texts@[q]@),
        decreases cands@.len() - i,
    {
        let ghost before_t = texts@;
        let ghost before_k = keyed@;
        let c = owned(cands[i].as_str());
        assert(c@ == cs[i as int]);
        let added = push_if_object(&mut texts, &mut keyed, c);
        assert(cs.take(i + 1).drop_last() =~= cs.take(i as int));
        assert(cs.take(i + 1).last() == cs[i as int]);
        i += 1;
    }
    assert(cs.take(cands@.len() as int) =~= cs);
    let tails = brace_tails_exec(output);
    let ghost ts = brace_tails(output@, output@.len() as int);
    let ghost head = objects_among(cs);
    let mut j: usize = 0;
    assert(head + tail_objects(ts.take(0)) =~= head);
    while j < tails.len()
        invariant
            ts == brace_tails(output@, output@.len() as int),
            head == objects_among(cs),
            tails@.len() == ts.len(),
            forall|q: int| 0 <= q < tails@.len() ==> {
                &&& (#[trigger] tails@[q]).0@ == ts[q].0
                &&& match tails@[q].1 {
                    Some(x) => ts[q].1 == Some(x@),
                    None => ts[q].1 is None,
                }
            },
            j <= tails@.len(),
            string_seqs(texts@) == head + tail_objects(ts.take(j as int)),
            keyed@.len() == texts@.len(),
            forall|q: int| 0 <= q < keyed@.len() ==> keyed@[q] == is_keyed(#[trigger] texts@[q]@),
        decreases tails@.len() - j,
    {
        let ghost before_t = texts@;
        let ghost before_k = keyed@;
        let ghost item = ts[j as int];
        assert(tails@[j as int].0@ == item.0);
        let whole = owned(tails[j].0.as_str());
        let added = push_if_object(&mut texts, &mut keyed, whole);
        if !added {
            match &tails[j].1 {
                Some(rep) => {
                    let r2 = owned(rep.as_str());
                    push_if_object(&mut texts, &mut keyed, r2);
                },
                None => {},
            }
        }
        assert(ts.take(j + 1).drop_last() =~= ts.take(j as int));
        assert(ts.take(j + 1).last() == item);
        assert(string_seqs(texts@) =~= head + tail_objects(ts.take(j + 1)));
        j += 1;
    }
    assert(ts.take(tails@.len() as int) =~= ts);
    let ghost v = string_seqs(texts@);
    assert(v == found_objects(output@));
    match preferred_object(keyed.as_slice()) {
        Some(k) => {
            proof {
                if keyed@[k as int] {
                    lemma_first_keyed(v, k as int);
                } else {
                    lemma_first_keyed(v, v.len() as int);
                }
            }
            Some(owned(texts[k].as_str()))
        },
        None => {
            proof { lemma_first_keyed(v, 0); }
            None
        },
    }
}

/// The recipe context a prompt quotes, from its JSON text and the same JSON
/// marked `truncated`: the text when it fits in `MAX_PROMPT_CONTEXT_CHARS`
/// bytes, else the marked text when that fits, else the marked text cut to
/// that many bytes with `... [truncated]` after it.
pub open spec fn prompt_context_spec(full: Seq<char>, marked: Seq<char>) -> Seq<char> {
    if utf8_len(full) <= MAX_PROMPT_CONTEXT_CHARS {
        full
    } else if utf8_len(marked) <= MAX_PROMPT_CONTEXT_CHARS {
        marked
    } else {
        within_bytes(marked, MAX_PROMPT_CONTEXT_CHARS as nat) + "... [truncated]"@
    }
}

/// The recipe context a prompt quotes. The cut falls on a character
/// boundary where the marked text is cut at all.
pub fn prompt_context(full: &str, marked: &str) -> (r: String)
    requires
        utf8_len(full@) > MAX_PROMPT_CONTEXT_CHARS && utf8_len(marked@) > MAX_PROMPT_CONTEXT_CHARS ==> exists|k: int|
            0 <= k <= marked@.len() && #[trigger] utf8_len(marked@.take(k)) == MAX_PROMPT_CONTEXT_CHARS,
    ensures
        r@ == prompt_context_spec(full@, marked@),
{
    if utf8_len_exec(full) <= MAX_PROMPT_CONTEXT_CHARS {
        return owned(full);
    }
    if utf8_len_exec(marked) <= MAX_PROMPT_CONTEXT_CHARS {
        return owned(marked);
    }
    let mut cut = prefix_within(marked, MAX_PROMPT_CONTEXT_CHARS);
    push_str(&mut cut, "... [truncated]");
    cut
}

/// Bytes in the UTF-8 encoding of `s`, saturating at `usize::MAX`.
fn utf8_len_exec(s: &str) -> (n: usize)
    ensures
        n == if utf8_len(s@) <= usize::MAX { utf8_len(s@) as usize } else { usize::MAX },
{
    let chars = chars_of(s);
    let mut n: usize = 0;
    let mut i: usize = 0;
    while i < chars.len()
        invariant
            i <= chars@.len(),
            chars@ == s@,
            n == if utf8_len(chars@.take(i as int)) <= usize::MAX { utf8_len(chars@.take(i as int)) as usize } else { usize::MAX },
        decreases chars@.len() - i,
    {
        assert(chars@.take(i + 1).drop_last() =~= chars@.take(i as int));
        let w = utf8_width_exec(chars[i]);
        if n > usize::MAX - w {
            n = usize::MAX;
        } else {
            n = n + w;
        }
        i += 1;
    }
    assert(chars@.take(chars@.len() as int) =~= chars@);
    n
}

/// The longest leading part of `s` that fits in `max` bytes.
fn prefix_within(s: &str, max: usize) -> (r: String)
    ensures
        r@ == within_bytes(s@, max as nat),
{
    let chars = chars_of(s);
    let mut used: usize = 0;
    let mut k: usize = 0;
    let mut full = false;
    while k < chars.len() && !full
        invariant
            k <= chars@.len(),
            used == utf8_len(chars@.take(k as int)),
            used <= max,
            full ==> k < chars@.len() && utf8_len(chars@.take(k + 1)) > max,
        decreases chars@.len() - k + (if full { 0int } else { 1int }),
    {
        let w = utf8_width_exec(chars[k]);
        assert(chars@.take(k + 1).drop_last() =~= chars@.take(k as int));
        if w > max || used > max - w {
            full = true;
        } else {
            used = used + w;
            k += 1;
        }
    }
    proof {
        lemma_within_bytes(chars@, max as nat, k as int);
    }
    let cut = slice_chars(chars.as_slice(), 0, k);
    assert(cut@ =~= chars@.take(k as int));
    string_of(cut.as_slice())
}

/// What `serde_json::from_str` into a `Value` gives for `text`, as the
/// library's document; `None` when it does not parse.
pub uninterp spec fn json_document(text: Seq<char>) -> Option<crate::config::JsonView>;

/// `serde_json::from_str` into a `Value`, as the library's document.
/// Trusted to depend on the text alone.
#[verifier::external_body]
fn parse_json(text: &str) -> (r: Option<crate::config::Json>)
    ensures
        match r {
            Some(j) => json_document(text@) == Some(crate::config::json_view(j)),
            None => json_document(text@) is None,
        },
{
    serde_json::from_str::<serde_json::Value>(text).ok().map(|v| crate::config::json_of_value(&v))
}

/// What an agent's reply says.
#[derive(Debug, PartialEq, Eq)]
pub struct ParsedAgentOutput {
    /// Check name to verdict, in the verdict's order.
    pub assertions: Vec<(String, bool)>,
    /// What the agent observed.
    pub transcript: String,
    /// Every other member of the verdict, in its order.
    pub metadata: Vec<(String, crate::config::Json)>,
}

/// What a reply says, as values.
pub struct ParsedView {
    pub assertions: Seq<(Seq<char>, bool)>,
    pub transcript: Seq<char>,
    pub metadata: Seq<(Seq<char>, crate::config::JsonView)>,
}

/// The checks of an `assertions` object: each member with its verdict, a
/// member that is not `true` or `false` counting as `false`.
pub open spec fn check_verdicts(ms: Seq<(Seq<char>, crate::config::JsonView)>) -> Seq<(Seq<char>, bool)> {
    Seq::new(ms.len(), |i: int| (ms[i].0, ms[i].1 == crate::config::JsonView::Bool(true)))
}

/// The members other than `assertions` and `transcript`, in order.
pub open spec fn other_members(ms: Seq<(Seq<char>, crate::config::JsonView)>) -> Seq<(Seq<char>, crate::config::JsonView)> {
    ms.filter(|m: (Seq<char>, crate::config::JsonView)| m.0 != "assertions"@ && m.0 != "transcript"@)
}

/// What a reply's verdict object with members `ms` says, the bounded reply
/// `bounded` standing in for a missing transcript.
pub open spec fn verdict_fields(ms: Seq<(Seq<char>, crate::config::JsonView)>, bounded: Seq<char>) -> ParsedView {
    let v = crate::config::JsonView::Object(ms);
    ParsedView {
        assertions: match crate::report::field_of(v, "assertions"@) {
            Some(crate::config::JsonView::Object(cs)) => check_verdicts(cs),
            _ => Seq::empty(),
        },
        transcript: match crate::report::field_of(v, "transcript"@) {
            Some(crate::config::JsonView::Str(t)) => t,
            _ => bounded,
        },
        metadata: other_members(ms),
    }
}

/// What an agent's reply says: the reply is read up to
/// `MAX_AGENT_OUTPUT_BYTES`; its verdict text, when there is one and it is a
/// JSON object, gives the checks, the transcript and the rest; otherwise the
/// bounded reply is the transcript and nothing else is said.
pub open spec fn parsed_spec(output: Seq<char>) -> ParsedView {
    let bounded = within_bytes(output, MAX_AGENT_OUTPUT_BYTES as nat);
    match chosen(found_objects(bounded)) {
        Some(t) => match json_document(t) {
            Some(crate::config::JsonView::Object(ms)) => verdict_fields(ms, bounded),
            _ => ParsedView { assertions: Seq::empty(), transcript: bounded, metadata: Seq::empty() },
        },
        None => ParsedView { assertions: Seq::empty(), transcript: bounded, metadata: Seq::empty() },
    }
}

/// A reply as values.
pub open spec fn parsed_view(p: ParsedAgentOutput) -> ParsedView {
    ParsedView {
        assertions: Seq::new(p.assertions@.len(), |i: int| (p.assertions@[i].0@, p.assertions@[i].1)),
        transcript: p.transcript@,
        metadata: crate::config::members_view(p.metadata@),
    }
}

fn check_verdicts_exec(cs: &Vec<(String, crate::config::Json)>) -> (r: Vec<(String, bool)>)
    ensures
        Seq::new(r@.len(), |i: int| (r@[i].0@, r@[i].1)) == check_verdicts(crate::config::members_view(cs@)),
{
    proof { crate::config::lemma_members_view(cs@); }
    let ghost want = check_verdicts(crate::config::members_view(cs@));
    let mut out: Vec<(String, bool)> = Vec::new();
    let mut i: usize = 0;
    while i < cs.len()
        invariant
            i <= cs@.len(),
            want == check_verdicts(crate::config::members_view(cs@)),
            crate::config::members_view(cs@).len() == cs@.len(),
            forall|q: int| 0 <= q < cs@.len() ==> #[trigger] crate::config::members_view(cs@)[q] == (
                cs@[q].0@,
                crate::config::json_view(cs@[q].1),
            ),
            Seq::new(out@.len(), |q: int| (out@[q].0@, out@[q].1)) == want.take(i as int),
        decreases cs@.len() - i,
    {
        let b = match &cs[i].1 {
            crate::config::Json::Bool(true) => true,
            _ => false,
        };
        let ghost before = out@;
        let item = (owned(cs[i].0.as_str()), b);
        out.push(item);
        assert(out@ == before.push(item));
        assert(want.take(i + 1) =~= want.take(i as int).push(want[i as int]));
        assert(Seq::new(out@.len(), |q: int| (out@[q].0@, out@[q].1)) =~= Seq::new(
            before.len(),
            |q: int| (before[q].0@, before[q].1),
        ).push((item.0@, item.1)));
        i += 1;
    }
    assert(want.take(cs@.len() as int) =~= want);
    out
}

fn other_members_exec(ms: Vec<(String, crate::config::Json)>) -> (r: Vec<(String, crate::config::Json)>)
    ensures
        crate::config::members_view(r@) == other_members(crate::config::members_view(ms@)),
{
    let ghost all = crate::config::members_view(ms@);
    let ghost keep = |m: (Seq<char>, crate::config::JsonView)| m.0 != "assertions"@ && m.0 != "transcript"@;
    proof {
        crate::config::lemma_members_view(ms@);
        reveal(Seq::filter);
    }
    let mut out: Vec<(String, crate::config::Json)> = Vec::new();
    let mut rest = ms;
    let ghost orig = rest@;
    let n0: usize = rest.len();
    assert(orig.len() == n0);
    let mut taken: usize = 0;
    assert(all.take(0) =~= Seq::<(Seq<char>, crate::config::JsonView)>::empty());
    assert(crate::config::members_view(out@) =~= all.take(0).filter(keep));
    while rest.len() > 0
        invariant
            all == crate::config::members_view(orig),
            all.len() == orig.len(),
            forall|q: int| 0 <= q < orig.len() ==> #[trigger] all[q] == (orig[q].0@, crate::config::json_view(orig[q].1)),
            keep == (|m: (Seq<char>, crate::config::JsonView)| m.0 != "assertions"@ && m.0 != "transcript"@),
            orig.len() <= usize::MAX,
            taken <= orig.len(),
            taken + rest@.len() == orig.len(),
            rest@ == orig.skip(taken as int),
            crate::config::members_view(out@) == all.take(taken as int).filter(keep),
        decreases rest@.len(),
    {
        let m = rest.remove(0);
        let ghost mv = (m.0@, crate::config::json_view(m.1));
        assert(m == orig[taken as int]);
        let ghost t = all.take(taken + 1);
        assert(t.drop_last() =~= all.take(taken as int));
        assert(t.last() == mv);
        proof { reveal(Seq::filter); }
        assert(t.filter(keep) == if keep(t.last()) {
            t.drop_last().filter(keep).push(t.last())
        } else {
            t.drop_last().filter(keep)
        });
        let drop = crate::text::str_eq(m.0.as_str(), "assertions") || crate::text::str_eq(m.0.as_str(), "transcript");
        assert(keep(mv) == !drop);
        if !drop {
            let ghost before = out@;
            out.push(m);
            proof { lemma_members_view_push(before, m); }
        }
        taken += 1;
    }
    assert(all.take(orig.len() as int) =~= all);
    out
}

proof fn lemma_members_view_push(v: Seq<(String, crate::config::Json)>, m: (String, crate::config::Json))
    ensures
        crate::config::members_view(v.push(m)) == crate::config::members_view(v).push((m.0@, crate::config::json_view(m.1))),
{
    assert(v.push(m).subrange(0, v.len() as int) =~= v);
}

/// Read an agent's reply: at most `MAX_AGENT_OUTPUT_BYTES`, its verdict
/// where one is found, the reply itself as the transcript otherwise.
pub fn parse_agent_output(output: &str) -> (p: ParsedAgentOutput)
    ensures
        parsed_view(p) == parsed_spec(output@),
{
    let bounded = bounded_reply(output);
    let ghost b = bounded@;
    let empty = |t: String| -> (e: ParsedAgentOutput)
        ensures
            parsed_view(e) == (ParsedView { assertions: Seq::empty(), transcript: t@, metadata: Seq::empty() }),
        {
            let e = ParsedAgentOutput { assertions: Vec::new(), transcript: t, metadata: Vec::new() };
            assert(parsed_view(e).assertions =~= Seq::<(Seq<char>, bool)>::empty());
            assert(parsed_view(e).metadata =~= Seq::<(Seq<char>, crate::config::JsonView)>::empty());
            e
        };
    let text = match verdict_text(bounded.as_str()) {
        Some(t) => t,
        None => return empty(bounded),
    };
    let members = match parse_json(text.as_str()) {
        Some(crate::config::Json::Object(ms)) => ms,
        _ => return empty(bounded),
    };
    let whole = crate::config::Json::Object(members);
    let ghost wv = crate::config::json_view(whole);
    let assertions = match crate::report::field_exec(&whole, "assertions") {
        Some(crate::config::Json::Object(cs)) => check_verdicts_exec(cs),
        _ => Vec::new(),
    };
    let transcript = match crate::report::field_exec(&whole, "transcript") {
        Some(crate::config::Json::Str(t)) => owned(t.as_str()),
        _ => owned(bounded.as_str()),
    };
    let metadata = match whole {
        crate::config::Json::Object(ms) => other_members_exec(ms),
        _ => Vec::new(),
    };
    let p = ParsedAgentOutput { assertions, transcript, metadata };
    assert(parsed_view(p).assertions =~= parsed_spec(output@).assertions);
    p
}

} // verus!
