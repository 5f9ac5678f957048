//! The built-in steps as they act on a session, with the evidence each one
//! reports.
//!
//! A step's detail quotes text the way Python's `repr` does. `wait_for_regex`
//! searches the screen and the raw output independently, never across a
//! synthetic boundary between them, and reports what it matched: the named
//! groups (an unmatched one as `None`), the positional groups as a Python
//! tuple, and the whole match.
use vstd::prelude::*;
use std::time::Duration;
use crate::pyregex::CompiledPattern;
use crate::pyrepr::{repr_str, repr_str_spec, repr_tuple, repr_tuple_spec};
use crate::result::StepResult;
use crate::session::{deadline_from, deadline_passed, lemma_polled_none, lemma_polled_once_more, no_wait, poll_slice, polled_times, shows, Session};
use crate::text::{
    decimal, join, join_chars, lemma_string_seqs_push, lemma_views_push, owned, push_decimal,
    push_str, string_of, string_seqs, views, chars_of,
};

verus! {

broadcast use vstd::string::group_string_axioms;

// ---------------------------------------------------------------------------
// What a search found
// ---------------------------------------------------------------------------

/// What one search of a compiled pattern found: the whole match, every
/// named group in the order the pattern names them (`None` where it did not
/// take part), and every group by position (named ones included).
#[derive(Debug, Clone, PartialEq, Eq)]
pub struct Found {
    /// The whole match.
    pub full: String,
    /// Named groups, in pattern order.
    pub named: Vec<(String, Option<String>)>,
    /// Groups 1.. by position.
    pub groups: Vec<Option<String>>,
}

/// What a search found, as character sequences.
pub struct FoundView {
    pub full: Seq<char>,
    pub named: Seq<(Seq<char>, Option<Seq<char>>)>,
    pub groups: Seq<Option<Seq<char>>>,
}

/// The text of an optional group.
pub open spec fn opt_text(o: Option<String>) -> Option<Seq<char>> {
    match o {
        Some(s) => Some(s@),
        None => None,
    }
}

impl View for Found {
    type V = FoundView;

    open spec fn view(&self) -> FoundView {
        FoundView {
            full: self.full@,
            named: Seq::new(self.named@.len(), |i: int| (self.named@[i].0@, opt_text(self.named@[i].1))),
            groups: Seq::new(self.groups@.len(), |i: int| opt_text(self.groups@[i])),
        }
    }
}

/// The view of an optional search result.
pub open spec fn found_view(r: Option<Found>) -> Option<FoundView> {
    match r {
        Some(f) => Some(f@),
        None => None,
    }
}

/// What `fancy_regex` finds searching `text` with the pattern compiled from
/// `source`: the first match, or `None` when there is none or the engine
/// gives up.
pub uninterp spec fn fancy_search(source: Seq<char>, text: Seq<char>) -> Option<FoundView>;

/// `fancy_regex::Regex::captures`, read through `capture_names`,
/// `Captures::name`, `Captures::get` and `Captures::len`. Trusted to depend
/// on the compiled pattern's source and the text alone; an engine error
/// reads as no match.
#[verifier::external_body]
fn search(pattern: &CompiledPattern, text: &str) -> (r: Option<Found>)
    ensures
        found_view(r) == fancy_search(pattern.source(), text@),
{
    let re = pattern.regex();
    let caps = re.captures(text).ok().flatten()?;
    let owned_text = |m: fancy_regex::Match| m.as_str().to_string();
    Some(Found {
        full: caps.get(0).map(owned_text).unwrap_or_default(),
        named: re.capture_names().flatten().map(|n| (n.to_string(), caps.name(n).map(owned_text))).collect(),
        groups: (1..caps.len()).map(|i| caps.get(i).map(owned_text)).collect(),
    })
}

// ---------------------------------------------------------------------------
// The evidence of a match
// ---------------------------------------------------------------------------

/// An optional group as Python prints it: quoted, or `None`.
pub open spec fn opt_repr(o: Option<Seq<char>>) -> Seq<char> {
    match o {
        Some(s) => repr_str_spec(s),
        None => "None"@,
    }
}

/// `name=value, name=value` for the named groups.
pub open spec fn named_part(named: Seq<(Seq<char>, Option<Seq<char>>)>) -> Seq<char> {
    join(Seq::new(named.len(), |i: int| named[i].0 + "="@ + opt_repr(named[i].1)), ", "@)
}

/// `groups=(...)` for the positional groups.
pub open spec fn groups_part(groups: Seq<Option<Seq<char>>>) -> Seq<char> {
    "groups="@ + repr_tuple_spec(Seq::new(groups.len(), |i: int| opt_repr(groups[i])))
}

/// The detail of a match of `pattern`: the named groups, then the positional
/// ones, separated by `; `, then the whole match; just the whole match when
/// the pattern has no groups.
pub open spec fn match_detail_spec(pattern: Seq<char>, f: FoundView) -> Seq<char> {
    let parts = (if f.named.len() > 0 {
        seq![named_part(f.named)]
    } else {
        Seq::empty()
    }) + (if f.groups.len() > 0 {
        seq![groups_part(f.groups)]
    } else {
        Seq::empty()
    });
    if parts.len() == 0 {
        "matched "@ + repr_str_spec(pattern) + " -> match="@ + repr_str_spec(f.full)
    } else {
        "matched "@ + repr_str_spec(pattern) + " -> "@ + join(parts, "; "@) + " (full: "@
            + repr_str_spec(f.full) + ")"@
    }
}

fn opt_repr_exec(o: &Option<String>) -> (r: String)
    ensures
        r@ == opt_repr(opt_text(*o)),
{
    match o {
        Some(s) => repr_str(s.as_str()),
        None => owned("None"),
    }
}

/// The detail `wait_for_regex` reports for a match of `pattern`.
pub fn match_detail(pattern: &str, found: &Found) -> (d: String)
    ensures
        d@ == match_detail_spec(pattern@, found@),
{
    let ghost f = found@;
    let mut parts: Vec<Vec<char>> = Vec::new();
    if found.named.len() > 0 {
        let ghost want = Seq::new(f.named.len(), |i: int| f.named[i].0 + "="@ + opt_repr(f.named[i].1));
        let mut pieces: Vec<Vec<char>> = Vec::new();
        let mut k: usize = 0;
        while k < found.named.len()
            invariant
                k <= found.named@.len(),
                f == found@,
                want == Seq::new(f.named.len(), |i: int| f.named[i].0 + "="@ + opt_repr(f.named[i].1)),
                views(pieces@) == want.take(k as int),
            decreases found.named@.len() - k,
        {
            let mut piece = String::new();
            push_str(&mut piece, found.named[k].0.as_str());
            push_str(&mut piece, "=");
            let value = opt_repr_exec(&found.named[k].1);
            push_str(&mut piece, value.as_str());
            let piece_chars = chars_of(piece.as_str());
            proof {
                lemma_views_push(pieces@, piece_chars);
            }
            pieces.push(piece_chars);
            assert(views(pieces@) =~= want.take(k + 1));
            k = k + 1;
        }
        assert(want.take(f.named.len() as int) =~= want);
        let sep = chars_of(", ");
        let joined = join_chars(&pieces, sep.as_slice());
        proof {
            lemma_views_push(parts@, joined);
        }
        parts.push(joined);
    }
    if found.groups.len() > 0 {
        let ghost want = Seq::new(f.groups.len(), |i: int| opt_repr(f.groups[i]));
        let mut items: Vec<String> = Vec::new();
        let mut k: usize = 0;
        while k < found.groups.len()
            invariant
                k <= found.groups@.len(),
                f == found@,
                want == Seq::new(f.groups.len(), |i: int| opt_repr(f.groups[i])),
                string_seqs(items@) == want.take(k as int),
            decreases found.groups@.len() - k,
        {
            let item = opt_repr_exec(&found.groups[k]);
            proof {
                lemma_string_seqs_push(items@, item);
            }
            items.push(item);
            assert(string_seqs(items@) =~= want.take(k + 1));
            k = k + 1;
        }
        assert(want.take(f.groups.len() as int) =~= want);
        let tuple = repr_tuple(items.as_slice());
        let mut g = String::new();
        push_str(&mut g, "groups=");
        push_str(&mut g, tuple.as_str());
        let g_chars = chars_of(g.as_str());
        proof {
            lemma_views_push(parts@, g_chars);
        }
        parts.push(g_chars);
    }
    let ghost part_seq = (if f.named.len() > 0 {
        seq![named_part(f.named)]
    } else {
        Seq::empty()
    }) + (if f.groups.len() > 0 {
        seq![groups_part(f.groups)]
    } else {
        Seq::empty()
    });
    assert(views(parts@) =~= part_seq);
    let mut d = String::new();
    push_str(&mut d, "matched ");
    let quoted = repr_str(pattern);
    push_str(&mut d, quoted.as_str());
    let full = repr_str(found.full.as_str());
    if parts.len() == 0 {
        push_str(&mut d, " -> match=");
        push_str(&mut d, full.as_str());
    } else {
        push_str(&mut d, " -> ");
        let sep = chars_of("; ");
        let joined = join_chars(&parts, sep.as_slice());
        let joined_text = string_of(joined.as_slice());
        push_str(&mut d, joined_text.as_str());
        push_str(&mut d, " (full: ");
        push_str(&mut d, full.as_str());
        push_str(&mut d, ")");
    }
    d
}

// ---------------------------------------------------------------------------
// Matching a screen
// ---------------------------------------------------------------------------

/// The first match on the screen, or failing that in the raw output; an
/// empty text is not searched.
pub open spec fn match_found(source: Seq<char>, screen: Seq<char>, raw: Seq<char>) -> Option<FoundView> {
    let on_screen = if screen.len() > 0 {
        fancy_search(source, screen)
    } else {
        None
    };
    if on_screen is Some {
        on_screen
    } else if raw.len() > 0 {
        fancy_search(source, raw)
    } else {
        None
    }
}

/// The passing step a match produces: named `name`, with the match's detail,
/// carrying the screen it was found with.
pub open spec fn matched_step(
    r: StepResult,
    name: Seq<char>,
    pattern: Seq<char>,
    f: FoundView,
    screen: Seq<char>,
) -> bool {
    &&& r.name@ == name
    &&& r.passed
    &&& r.detail@ == match_detail_spec(pattern, f)
    &&& r.screen@ == screen
}

/// Search the screen, then the raw output, for `pattern` (written as
/// `pattern_str`); on a match, the passing step it produces.
pub fn try_match(
    pattern: &CompiledPattern,
    pattern_str: &str,
    name: &str,
    screen_text: &str,
    raw_text: &str,
) -> (r: Option<StepResult>)
    ensures
        match match_found(pattern.source(), screen_text@, raw_text@) {
            None => r is None,
            Some(f) => r matches Some(res) && matched_step(res, name@, pattern_str@, f, screen_text@),
        },
{
    let mut found: Option<Found> = None;
    if !screen_text.is_empty() {
        found = search(pattern, screen_text);
    }
    if found.is_none() && !raw_text.is_empty() {
        found = search(pattern, raw_text);
    }
    match found {
        Some(f) => {
            let detail = match_detail(pattern_str, &f);
            Some(StepResult {
                name: owned(name),
                passed: true,
                detail,
                screen: owned(screen_text),
            })
        },
        None => None,
    }
}

/// Poll `session` until `pattern` matches or the deadline passes: the
/// passing step of the match, or `None` on a timeout. Once the target has
/// exited, one last poll decides. The session is polled at least once and
/// only polled, and the answer is what the state it is left in gives:
/// whatever the clock says, a match there is never reported as a timeout.
pub fn watch_for_match<S: Session>(
    session: &mut S,
    pattern: &CompiledPattern,
    pattern_str: &str,
    name: &str,
    timeout: Duration,
) -> (r: Option<StepResult>)
    ensures
        match match_found(pattern.source(), final(session).screen_view(), final(session).raw_view()) {
            None => r is None,
            Some(f) => r matches Some(res) && matched_step(res, name@, pattern_str@, f, final(session).screen_view()),
        },
        exists|n: nat| n > 0 && #[trigger] polled_times(*old(session), *final(session), n),
{
    let ghost start = *session;
    let ghost mut n: nat = 0;
    proof {
        lemma_polled_none(start);
    }
    let deadline = deadline_from(timeout);
    let mut polls: u64 = 0;
    while polls < u64::MAX
        invariant
            start == *old(session),
            polled_times(start, *session, n),
            polls > 0 ==> n > 0,
            polls > 0 ==> match_found(pattern.source(), session.screen_view(), session.raw_view()) is None,
        decreases u64::MAX - polls,
    {
        let ghost pre = *session;
        session.read_available(poll_slice());
        proof {
            lemma_polled_once_more(start, pre, *session, n);
            n = n + 1;
        }
        let screen = session.screen();
        let found = try_match(pattern, pattern_str, name, screen.as_str(), session.raw_output());
        if found.is_some() {
            return found;
        }
        if deadline_passed(&deadline) {
            return None;
        }
        if !session.is_alive() {
            let ghost pre2 = *session;
            session.read_available(no_wait());
            proof {
                lemma_polled_once_more(start, pre2, *session, n);
                n = n + 1;
            }
            let last = session.screen();
            return try_match(pattern, pattern_str, name, last.as_str(), session.raw_output());
        }
        polls = polls + 1;
    }
    None
}

// ---------------------------------------------------------------------------
// The other steps
// ---------------------------------------------------------------------------

/// A step's display name: its own `name`, or `{index}:{action}`.
pub open spec fn display_name_spec(name: Option<Seq<char>>, index: nat, action: Seq<char>) -> Seq<char> {
    match name {
        Some(n) => n,
        None => decimal(index) + ":"@ + action,
    }
}

/// A step's display name: its own `name`, or `{index}:{action}`.
pub fn display_name(name: Option<&str>, index: u64, action: &str) -> (s: String)
    ensures
        s@ == display_name_spec(
            match name {
                Some(n) => Some(n@),
                None => None,
            },
            index as nat,
            action@,
        ),
{
    match name {
        Some(n) => owned(n),
        None => {
            let mut v: Vec<char> = Vec::new();
            push_decimal(&mut v, index);
            let mut s = string_of(v.as_slice());
            push_str(&mut s, ":");
            push_str(&mut s, action);
            s
        },
    }
}

/// `wait_for_text`: wait for `text` on the screen or in the raw output.
pub fn wait_for_text_step<S: Session>(session: &mut S, name: &str, text: &str, timeout: Duration) -> (r:
    StepResult)
    ensures
        r.name@ == name@,
        r.passed ==> shows(final(session).screen_view(), final(session).raw_view(), text@),
        !r.passed ==> !shows(final(session).screen_view(), final(session).raw_view(), text@) || *final(session)
            == *old(session),
        exists|n: nat| #[trigger] polled_times(*old(session), *final(session), n),
        r.detail@ == if r.passed {
            "found "@ + repr_str_spec(text@)
        } else {
            "timed out waiting for "@ + repr_str_spec(text@)
        },
        r.screen@ == final(session).screen_view(),
{
    let passed = session.wait_for_text(text, timeout);
    let quoted = repr_str(text);
    let mut detail = String::new();
    if passed {
        push_str(&mut detail, "found ");
    } else {
        push_str(&mut detail, "timed out waiting for ");
    }
    push_str(&mut detail, quoted.as_str());
    StepResult { name: owned(name), passed, detail, screen: session.screen() }
}

/// `wait_for_idle`: wait for the screen to settle for `stable`; the detail
/// quotes the window as `stable_text` seconds.
pub fn wait_for_idle_step<S: Session>(
    session: &mut S,
    name: &str,
    stable: Duration,
    timeout: Duration,
    stable_text: &str,
) -> (r: StepResult)
    ensures
        r.name@ == name@,
        exists|n: nat| #[trigger] polled_times(*old(session), *final(session), n),
        r.passed ==> exists|n: nat| n > 0 && #[trigger] polled_times(*old(session), *final(session), n),
        r.detail@ == if r.passed {
            "stable for "@ + stable_text@ + "s"@
        } else {
            "timed out waiting for idle"@
        },
        r.screen@ == final(session).screen_view(),
{
    let passed = session.wait_for_idle(stable, timeout);
    let mut detail = String::new();
    if passed {
        push_str(&mut detail, "stable for ");
        push_str(&mut detail, stable_text);
        push_str(&mut detail, "s");
    } else {
        push_str(&mut detail, "timed out waiting for idle");
    }
    StepResult { name: owned(name), passed, detail, screen: session.screen() }
}

/// `send_text`: send `text` as it stands.
pub fn send_text_step<S: Session>(session: &mut S, name: &str, text: &str) -> (r: StepResult)
    ensures
        r.name@ == name@,
        r.passed ==> r.detail@ == "sent text"@,
        r.screen@ == final(session).screen_view(),
{
    match session.send_text(text) {
        Ok(()) => StepResult {
            name: owned(name),
            passed: true,
            detail: owned("sent text"),
            screen: session.screen(),
        },
        Err(e) => StepResult { name: owned(name), passed: false, detail: e, screen: session.screen() },
    }
}

/// `send_line`: send `text` and a carriage return.
pub fn send_line_step<S: Session>(session: &mut S, name: &str, text: &str) -> (r: StepResult)
    ensures
        r.name@ == name@,
        r.passed ==> r.detail@ == "sent line"@,
        r.screen@ == final(session).screen_view(),
{
    match session.send_line(text) {
        Ok(()) => StepResult {
            name: owned(name),
            passed: true,
            detail: owned("sent line"),
            screen: session.screen(),
        },
        Err(e) => StepResult { name: owned(name), passed: false, detail: e, screen: session.screen() },
    }
}

/// Steps run in order and stop after the first that fails: a run's results
/// are passing steps, except perhaps the last.
pub open spec fn stops_at_first_failure(results: Seq<StepResult>) -> bool {
    forall|i: int| 0 <= i < results.len() - 1 ==> (#[trigger] results[i]).passed
}

/// Keep the result of the step just run, and say whether the run goes on:
/// it goes on after a passing step and stops after a failing one, so the
/// results kept always stop at the first failure.
pub fn record_step(results: &mut Vec<StepResult>, r: StepResult) -> (go_on: bool)
    requires
        forall|i: int| 0 <= i < old(results)@.len() ==> (#[trigger] old(results)@[i]).passed,
    ensures
        final(results)@ == old(results)@.push(r),
        go_on == r.passed,
        stops_at_first_failure(final(results)@),
        go_on ==> forall|i: int| 0 <= i < final(results)@.len() ==> (#[trigger] final(results)@[i]).passed,
{
    let go_on = r.passed;
    results.push(r);
    go_on
}

// ---------------------------------------------------------------------------
// Routing a step written as JSON
// ---------------------------------------------------------------------------

/// The built-in step actions.
#[derive(Debug, Clone, Copy, PartialEq, Eq)]
pub enum StepAction {
    WaitForText,
    WaitForIdle,
    SendText,
    SendLine,
    Press,
    Sleep,
    WaitForRegex,
}

/// The name a recipe gives an action.
pub open spec fn action_name(a: StepAction) -> Seq<char> {
    match a {
        StepAction::WaitForText => "wait_for_text"@,
        StepAction::WaitForIdle => "wait_for_idle"@,
        StepAction::SendText => "send_text"@,
        StepAction::SendLine => "send_line"@,
        StepAction::Press => "press"@,
        StepAction::Sleep => "sleep"@,
        StepAction::WaitForRegex => "wait_for_regex"@,
    }
}

/// A step's own `name`, when it is a string.
pub open spec fn step_name(step: crate::config::JsonView) -> Option<Seq<char>> {
    match crate::report::field_of(step, "name"@) {
        Some(crate::config::JsonView::Str(n)) => Some(n),
        _ => None,
    }
}

/// How a step is routed: the action it names, or the failing step's
/// display name and detail. A step whose `action` is not a string is
/// `{index}:unknown`; one naming no built-in action reports it.
pub open spec fn routing_spec(step: crate::config::JsonView, index: nat) -> Result<StepAction, (Seq<char>, Seq<char>)> {
    match crate::report::field_of(step, "action"@) {
        Some(crate::config::JsonView::Str(a)) => if exists|k: StepAction| action_name(k) == a {
            Ok(choose|k: StepAction| action_name(k) == a)
        } else {
            Err((display_name_spec(step_name(step), index, a), "unknown step action: "@ + a))
        },
        _ => Err((display_name_spec(step_name(step), index, "unknown"@), "step 'action' must be a string"@)),
    }
}

proof fn lemma_action_names_distinct(a: StepAction, b: StepAction)
    requires
        action_name(a) == action_name(b),
    ensures
        a == b,
{
    reveal_strlit("wait_for_text");
    reveal_strlit("wait_for_idle");
    reveal_strlit("send_text");
    reveal_strlit("send_line");
    reveal_strlit("press");
    reveal_strlit("sleep");
    reveal_strlit("wait_for_regex");
    if a != b {
        let x = action_name(a);
        let y = action_name(b);
        assert(x.len() != y.len() || x[0] != y[0] || x[5] != y[5] || x[9] != y[9]);
    }
}

fn action_named(a: &str) -> (r: Option<StepAction>)
    ensures
        match r {
            Some(k) => action_name(k) == a@,
            None => forall|k: StepAction| action_name(k) != a@,
        },
{
    proof {
        reveal_strlit("wait_for_text");
        reveal_strlit("wait_for_idle");
        reveal_strlit("send_text");
        reveal_strlit("send_line");
        reveal_strlit("press");
        reveal_strlit("sleep");
        reveal_strlit("wait_for_regex");
    }
    if crate::text::str_eq(a, "wait_for_text") {
        Some(StepAction::WaitForText)
    } else if crate::text::str_eq(a, "wait_for_idle") {
        Some(StepAction::WaitForIdle)
    } else if crate::text::str_eq(a, "send_text") {
        Some(StepAction::SendText)
    } else if crate::text::str_eq(a, "send_line") {
        Some(StepAction::SendLine)
    } else if crate::text::str_eq(a, "press") {
        Some(StepAction::Press)
    } else if crate::text::str_eq(a, "sleep") {
        Some(StepAction::Sleep)
    } else if crate::text::str_eq(a, "wait_for_regex") {
        Some(StepAction::WaitForRegex)
    } else {
        proof {
            assert forall|k: StepAction| action_name(k) != a@ by {
                match k {
                    StepAction::WaitForText => {},
                    StepAction::WaitForIdle => {},
                    StepAction::SendText => {},
                    StepAction::SendLine => {},
                    StepAction::Press => {},
                    StepAction::Sleep => {},
                    StepAction::WaitForRegex => {},
                }
            }
        }
        None
    }
}

/// A step's display name: its own `name` when that is a string, else
/// `{index}:{action}`.
pub fn step_display_name(step: &crate::config::Json, index: u64, action: &str) -> (s: String)
    ensures
        s@ == display_name_spec(step_name(crate::config::json_view(*step)), index as nat, action@),
{
    match crate::report::field_exec(step, "name") {
        Some(crate::config::Json::Str(n)) => display_name(Some(n.as_str()), index, action),
        _ => display_name(None, index, action),
    }
}

/// Route a step by its `action`: the built-in action it names, or the
/// failing step's display name and detail.
pub fn route_step(step: &crate::config::Json, index: u64) -> (r: Result<StepAction, (String, String)>)
    ensures
        match routing_spec(crate::config::json_view(*step), index as nat) {
            Ok(k) => r == Ok::<StepAction, (String, String)>(k),
            Err((n, d)) => r matches Err(e) && e.0@ == n && e.1@ == d,
        },
{
    match crate::report::field_exec(step, "action") {
        Some(crate::config::Json::Str(a)) => match action_named(a.as_str()) {
            Some(k) => {
                proof {
                    let c = choose|k: StepAction| action_name(k) == a@;
                    lemma_action_names_distinct(c, k);
                }
                Ok(k)
            },
            None => {
                let mut detail = owned("unknown step action: ");
                push_str(&mut detail, a.as_str());
                Err((step_display_name(step, index, a.as_str()), detail))
            },
        },
        _ => Err((step_display_name(step, index, "unknown"), owned("step 'action' must be a string"))),
    }
}

/// A step field that must be a string: its text, or `{action} '{key}' must
/// be a string`.
pub fn required_step_text(step: &crate::config::Json, action: &str, key: &str) -> (r: Result<String, String>)
    ensures
        match crate::report::field_of(crate::config::json_view(*step), key@) {
            Some(crate::config::JsonView::Str(t)) => r matches Ok(x) && x@ == t,
            _ => r matches Err(e) && e@ == action@ + " "@ + repr_str_spec(key@) + " must be a string"@,
        },
{
    match crate::report::field_exec(step, key) {
        Some(crate::config::Json::Str(t)) => Ok(owned(t.as_str())),
        _ => {
            let mut e = owned(action);
            push_str(&mut e, " ");
            push_str(&mut e, repr_str(key).as_str());
            push_str(&mut e, " must be a string");
            Err(e)
        },
    }
}

} // verus!
