//! The terminal session the built-in steps drive, and a deterministic
//! stand-in for tests.
//!
//! A step sees a session only through [`Session`]: the rendered screen and
//! the raw output, which are searched independently and never joined across
//! a synthetic boundary; whether the target is still alive; a poll that
//! waits a little for new output; and input. The two waits poll against a
//! wall-clock deadline, so whether they succeed depends on timing; what they
//! promise is that a reported success was seen.
use vstd::prelude::*;
use std::time::{Duration, Instant};
use crate::text::{contains, push_char, push_str, str_contains, str_eq, string_seqs};

verus! {

broadcast use vstd::string::group_string_axioms;

#[verifier::external_type_specification]
#[verifier::external_body]
pub struct ExInstant(Instant);

/// `Instant::now` (std): the current reading of the monotonic clock.
#[verifier::external_body]
fn clock_now() -> Instant {
    Instant::now()
}

/// `Instant::checked_add` (std): `at` moved forward by `span`, or `None`
/// where the platform's clock cannot express the result.
#[verifier::external_body]
fn instant_after(at: Instant, span: Duration) -> Option<Instant> {
    at.checked_add(span)
}

/// `>=` on `Instant` (std): whether `now` is at or past `deadline`.
#[verifier::external_body]
fn instant_reached(now: &Instant, deadline: &Instant) -> bool {
    *now >= *deadline
}

/// `Instant::elapsed` (std): the time since `since` on the monotonic clock.
#[verifier::external_body]
fn elapsed_since(since: &Instant) -> Duration {
    since.elapsed()
}

/// `>=` on `Duration` (std).
#[verifier::external_body]
fn duration_at_least(span: Duration, bound: Duration) -> bool {
    span >= bound
}

/// `Duration::from_millis` (std): a span of `ms` milliseconds.
#[verifier::external_body]
pub(crate) fn millis(ms: u64) -> Duration {
    Duration::from_millis(ms)
}

/// How long one poll of a wait may block, in milliseconds.
pub const POLL_MILLIS: u64 = 50;

/// The span one poll of a wait may block.
pub(crate) fn poll_slice() -> Duration {
    millis(POLL_MILLIS)
}

/// `Duration::ZERO` (std): a poll that does not wait.
#[verifier::external_body]
pub(crate) fn no_wait() -> Duration {
    Duration::ZERO
}

/// Whether a deadline has passed; a deadline the clock cannot express never
/// passes. For one it can, the answer is the clock's.
pub(crate) fn deadline_passed(deadline: &Option<Instant>) -> (passed: bool)
    ensures
        deadline is None ==> !passed,
{
    match deadline {
        Some(d) => {
            let now = clock_now();
            instant_reached(&now, d)
        },
        None => false,
    }
}

/// The deadline `timeout` from now, if the clock can express it.
pub(crate) fn deadline_from(timeout: Duration) -> Option<Instant> {
    let now = clock_now();
    instant_after(now, timeout)
}

/// Whether `needle` occurs in the screen or, separately, in the raw output.
pub open spec fn shows(screen: Seq<char>, raw: Seq<char>, needle: Seq<char>) -> bool {
    contains(screen, needle) || contains(raw, needle)
}

/// A send's outcome, with the error's text.
pub open spec fn outcome_view(r: Result<(), String>) -> Result<(), Seq<char>> {
    match r {
        Ok(()) => Ok(()),
        Err(e) => Err(e@),
    }
}

/// What one poll may do to a session's state.
pub trait Polled: Sized {
    /// Whether one poll may take the session from this state to `after`.
    spec fn polls_to(&self, after: Self) -> bool;
}

/// Whether the poll from the `i`-th state of `path` to the next is one that
/// may happen.
pub open spec fn poll_step<S: Polled>(path: Seq<S>, i: int) -> bool {
    path[i].polls_to(path[i + 1])
}

/// `to` is `from` after `n` polls in a row.
pub open spec fn polled_times<S: Polled>(from: S, to: S, n: nat) -> bool {
    exists|path: Seq<S>|
        #![trigger path.len(), path[0]]
        path.len() == n + 1 && path[0] == from && path[n as int] == to && forall|i: int|
            0 <= i < n ==> #[trigger] poll_step(path, i)
}

/// No poll leaves the state as it is.
pub proof fn lemma_polled_none<S: Polled>(s: S)
    ensures
        polled_times(s, s, 0),
{
    let path = seq![s];
    assert(path.len() == 0 + 1 && path[0] == s);
}

/// One more poll after `n` polls makes `n + 1`.
pub proof fn lemma_polled_once_more<S: Polled>(from: S, mid: S, to: S, n: nat)
    requires
        polled_times(from, mid, n),
        mid.polls_to(to),
    ensures
        polled_times(from, to, n + 1),
{
    let path = choose|path: Seq<S>|
        #![trigger path.len(), path[0]]
        path.len() == n + 1 && path[0] == from && path[n as int] == mid && forall|i: int|
            0 <= i < n ==> #[trigger] poll_step(path, i);
    let longer = path.push(to);
    assert forall|i: int| 0 <= i < n + 1 implies #[trigger] poll_step(longer, i) by {
        if i < n {
            assert(poll_step(path, i));
        }
    }
    assert(longer.len() == (n + 1) + 1 && longer[0] == from && longer[(n + 1) as int] == to);
}

/// The contract every terminal backend shares with the steps.
pub trait Session: Polled {
    /// The screen text as the session renders it now.
    spec fn screen_view(&self) -> Seq<char>;

    /// The raw output received so far.
    spec fn raw_view(&self) -> Seq<char>;

    /// Whether the target is still running.
    spec fn alive_view(&self) -> bool;

    /// Whether sending `text` from this state may leave the session as
    /// `after`, with outcome `r`.
    spec fn sends(&self, text: Seq<char>, after: Self, r: Result<(), Seq<char>>) -> bool;

    /// Current screen text, each line right-trimmed, no trailing blank lines.
    fn screen(&self) -> (s: String)
        ensures
            s@ == self.screen_view(),
    ;

    /// Uncooked output received so far.
    fn raw_output(&self) -> (s: &str)
        ensures
            s@ == self.raw_view(),
    ;

    /// Whether the target is still running.
    fn is_alive(&self) -> (b: bool)
        ensures
            b == self.alive_view(),
    ;

    /// Poll for new output, waiting up to `timeout`.
    fn read_available(&mut self, timeout: Duration)
        ensures
            old(self).polls_to(*final(self)),
    ;

    /// Send `text` to the target as it stands.
    fn send_text(&mut self, text: &str) -> (r: Result<(), String>)
        ensures
            old(self).sends(text@, *final(self), outcome_view(r)),
    ;

    /// Send `text` followed by a carriage return: exactly what sending the
    /// longer text does.
    fn send_line(&mut self, text: &str) -> (r: Result<(), String>)
        ensures
            old(self).sends(text@ + seq!['\r'], *final(self), outcome_view(r)),
    {
        let mut line = String::new();
        push_str(&mut line, text);
        push_char(&mut line, '\r');
        assert(line@ =~= text@ + seq!['\r']);
        self.send_text(line.as_str())
    }

    /// Poll until `needle` shows on the screen or in the raw output, or the
    /// deadline passes. Once the target has exited, one last poll decides.
    /// The session is only polled; the answer is whether the needle shows in
    /// the state it is left in, except that a deadline already passed before
    /// the first poll answers `false` with the session untouched.
    fn wait_for_text(&mut self, needle: &str, timeout: Duration) -> (found: bool)
        ensures
            found ==> shows(final(self).screen_view(), final(self).raw_view(), needle@),
            !found ==> !shows(final(self).screen_view(), final(self).raw_view(), needle@) || *final(self)
                == *old(self),
            exists|n: nat| #[trigger] polled_times(*old(self), *final(self), n),
    {
        let ghost start = *self;
        let ghost mut n: nat = 0;
        proof {
            lemma_polled_none(start);
        }
        let deadline = deadline_from(timeout);
        let mut polls: u64 = 0;
        while polls < u64::MAX && !deadline_passed(&deadline)
            invariant
                start == *old(self),
                polled_times(start, *self, n),
                polls == 0 ==> *self == start,
                polls > 0 ==> !shows(self.screen_view(), self.raw_view(), needle@),
            decreases u64::MAX - polls,
        {
            let ghost pre = *self;
            self.read_available(poll_slice());
            proof {
                lemma_polled_once_more(start, pre, *self, n);
                n = n + 1;
            }
            let screen = self.screen();
            if str_contains(screen.as_str(), needle) || str_contains(self.raw_output(), needle) {
                return true;
            }
            if !self.is_alive() {
                let ghost pre2 = *self;
                self.read_available(no_wait());
                proof {
                    lemma_polled_once_more(start, pre2, *self, n);
                    n = n + 1;
                }
                let last = self.screen();
                return str_contains(last.as_str(), needle) || str_contains(
                    self.raw_output(),
                    needle,
                );
            }
            polls = polls + 1;
        }
        false
    }

    /// Poll until the screen has not changed for `stable`, or the deadline
    /// passes. A target that exits satisfies the wait. Whether it settles in
    /// time is the clock's to say; the session is only polled, and a
    /// settled answer comes after at least one poll.
    fn wait_for_idle(&mut self, stable: Duration, timeout: Duration) -> (settled: bool)
        ensures
            exists|n: nat| #[trigger] polled_times(*old(self), *final(self), n),
            settled ==> exists|n: nat| n > 0 && #[trigger] polled_times(*old(self), *final(self), n),
    {
        let ghost start = *self;
        let ghost mut n: nat = 0;
        proof {
            lemma_polled_none(start);
        }
        let deadline = deadline_from(timeout);
        let mut last = self.screen();
        let mut stable_since = clock_now();
        let mut polls: u64 = 0;
        while polls < u64::MAX && !deadline_passed(&deadline)
            invariant
                start == *old(self),
                polled_times(start, *self, n),
            decreases u64::MAX - polls,
        {
            let ghost pre = *self;
            self.read_available(poll_slice());
            proof {
                lemma_polled_once_more(start, pre, *self, n);
                n = n + 1;
            }
            let current = self.screen();
            if !str_eq(current.as_str(), last.as_str()) {
                last = current;
                stable_since = clock_now();
            }
            if duration_at_least(elapsed_since(&stable_since), stable) {
                return true;
            }
            if !self.is_alive() {
                let ghost pre2 = *self;
                self.read_available(no_wait());
                proof {
                    lemma_polled_once_more(start, pre2, *self, n);
                    n = n + 1;
                }
                return true;
            }
            polls = polls + 1;
        }
        false
    }
}

/// A scripted session: the screen and raw output are set by the test, and
/// each queued delta arrives after its own number of polls.
#[derive(Debug)]
pub struct MockSession {
    screen_text: String,
    raw: String,
    alive: bool,
    sent: Vec<String>,
    queued: Vec<(String, String, usize)>,
}

/// What a scripted session holds: each queued delta is a screen part, a raw
/// part and the number of polls it still waits.
pub struct MockView {
    pub screen: Seq<char>,
    pub raw: Seq<char>,
    pub alive: bool,
    pub sent: Seq<Seq<char>>,
    pub queued: Seq<(Seq<char>, Seq<char>, nat)>,
}

/// The views of queued deltas.
pub open spec fn delta_views(q: Seq<(String, String, usize)>) -> Seq<(Seq<char>, Seq<char>, nat)> {
    Seq::new(q.len(), |i: int| (q[i].0@, q[i].1@, q[i].2 as nat))
}

impl View for MockSession {
    type V = MockView;

    closed spec fn view(&self) -> MockView {
        MockView {
            screen: self.screen_text@,
            raw: self.raw@,
            alive: self.alive,
            sent: string_seqs(self.sent@),
            queued: delta_views(self.queued@),
        }
    }
}

/// A delta waiting `count` more polls arrives at the next one: a count of 0
/// or 1.
pub open spec fn due(count: nat) -> bool {
    count <= 1
}

/// The screen parts of the deltas arriving at the next poll, in queue order.
pub open spec fn arriving_screen(q: Seq<(Seq<char>, Seq<char>, nat)>) -> Seq<char>
    decreases q.len(),
{
    if q.len() == 0 {
        Seq::empty()
    } else {
        arriving_screen(q.drop_last()) + if due(q.last().2) {
            q.last().0
        } else {
            Seq::empty()
        }
    }
}

/// The raw parts of the deltas arriving at the next poll, in queue order.
pub open spec fn arriving_raw(q: Seq<(Seq<char>, Seq<char>, nat)>) -> Seq<char>
    decreases q.len(),
{
    if q.len() == 0 {
        Seq::empty()
    } else {
        arriving_raw(q.drop_last()) + if due(q.last().2) {
            q.last().1
        } else {
            Seq::empty()
        }
    }
}

/// The deltas still waiting after the next poll, each one poll nearer.
pub open spec fn still_waiting(q: Seq<(Seq<char>, Seq<char>, nat)>) -> Seq<(Seq<char>, Seq<char>, nat)>
    decreases q.len(),
{
    if q.len() == 0 {
        Seq::empty()
    } else {
        still_waiting(q.drop_last()) + if due(q.last().2) {
            Seq::empty()
        } else {
            seq![(q.last().0, q.last().1, (q.last().2 - 1) as nat)]
        }
    }
}

/// One poll of a scripted session: every delta whose countdown runs out is
/// appended, in queue order, and the others move one poll nearer.
pub open spec fn tick(v: MockView) -> MockView {
    MockView {
        screen: v.screen + arriving_screen(v.queued),
        raw: v.raw + arriving_raw(v.queued),
        queued: still_waiting(v.queued),
        ..v
    }
}

/// `n` polls in a row.
pub open spec fn ticks(v: MockView, n: nat) -> MockView
    decreases n,
{
    if n == 0 {
        v
    } else {
        ticks(tick(v), (n - 1) as nat)
    }
}

/// The poll at which a delta queued with `count` arrives: the `count`-th,
/// or the first for a count of 0.
pub open spec fn arrival(count: nat) -> nat {
    if count == 0 {
        1
    } else {
        count
    }
}

/// The deltas of `q` still waiting after `n` polls, with what is left of
/// their counts.
pub open spec fn waiting_after(q: Seq<(Seq<char>, Seq<char>, nat)>, n: nat) -> Seq<(Seq<char>, Seq<char>, nat)>
    decreases q.len(),
{
    if q.len() == 0 {
        Seq::empty()
    } else {
        waiting_after(q.drop_last(), n) + if arrival(q.last().2) > n {
            seq![(q.last().0, q.last().1, (q.last().2 - n) as nat)]
        } else {
            Seq::empty()
        }
    }
}

/// The screen parts of the deltas of `q` arriving at poll `t`, in queue order.
pub open spec fn screen_at(q: Seq<(Seq<char>, Seq<char>, nat)>, t: nat) -> Seq<char>
    decreases q.len(),
{
    if q.len() == 0 {
        Seq::empty()
    } else {
        screen_at(q.drop_last(), t) + if arrival(q.last().2) == t {
            q.last().0
        } else {
            Seq::empty()
        }
    }
}

/// The raw parts of the deltas of `q` arriving at poll `t`, in queue order.
pub open spec fn raw_at(q: Seq<(Seq<char>, Seq<char>, nat)>, t: nat) -> Seq<char>
    decreases q.len(),
{
    if q.len() == 0 {
        Seq::empty()
    } else {
        raw_at(q.drop_last(), t) + if arrival(q.last().2) == t {
            q.last().1
        } else {
            Seq::empty()
        }
    }
}

/// The screen parts arriving over the first `n` polls: poll by poll, and
/// within a poll in queue order.
pub open spec fn screen_by(q: Seq<(Seq<char>, Seq<char>, nat)>, n: nat) -> Seq<char>
    decreases n,
{
    if n == 0 {
        Seq::empty()
    } else {
        screen_by(q, (n - 1) as nat) + screen_at(q, n)
    }
}

/// The raw parts arriving over the first `n` polls.
pub open spec fn raw_by(q: Seq<(Seq<char>, Seq<char>, nat)>, n: nat) -> Seq<char>
    decreases n,
{
    if n == 0 {
        Seq::empty()
    } else {
        raw_by(q, (n - 1) as nat) + raw_at(q, n)
    }
}

proof fn lemma_ticks_last(v: MockView, n: nat)
    ensures
        ticks(v, n + 1) == tick(ticks(v, n)),
    decreases n,
{
    if n > 0 {
        lemma_ticks_last(tick(v), (n - 1) as nat);
        assert(ticks(v, n) == ticks(tick(v), (n - 1) as nat));
        assert(ticks(v, n + 1) == ticks(tick(v), n));
    } else {
        assert(ticks(tick(v), 0) == tick(v));
        assert(ticks(v, 1) == ticks(tick(v), 0));
    }
}

proof fn lemma_next_poll_of_waiting(q: Seq<(Seq<char>, Seq<char>, nat)>, n: nat)
    ensures
        arriving_screen(waiting_after(q, n)) == screen_at(q, n + 1),
        arriving_raw(waiting_after(q, n)) == raw_at(q, n + 1),
        still_waiting(waiting_after(q, n)) == waiting_after(q, n + 1),
    decreases q.len(),
{
    if q.len() > 0 {
        let init = q.drop_last();
        let e = q.last();
        lemma_next_poll_of_waiting(init, n);
        let w = waiting_after(init, n);
        if arrival(e.2) > n {
            let e2 = (e.0, e.1, (e.2 - n) as nat);
            let wq = w + seq![e2];
            assert(wq.drop_last() =~= w);
            assert(wq.last() == e2);
        } else {
            assert(w + Seq::<(Seq<char>, Seq<char>, nat)>::empty() =~= w);
        }
        assert(screen_at(q, n + 1) == screen_at(init, n + 1) + if arrival(e.2) == n + 1 {
            e.0
        } else {
            Seq::empty()
        });
        assert(arriving_screen(waiting_after(q, n)) =~= screen_at(q, n + 1));
        assert(arriving_raw(waiting_after(q, n)) =~= raw_at(q, n + 1));
        assert(still_waiting(waiting_after(q, n)) =~= waiting_after(q, n + 1));
    }
}

proof fn lemma_nothing_waits_after_no_polls(q: Seq<(Seq<char>, Seq<char>, nat)>)
    ensures
        waiting_after(q, 0) == q,
    decreases q.len(),
{
    if q.len() > 0 {
        lemma_nothing_waits_after_no_polls(q.drop_last());
        assert(q.drop_last().push(q.last()) =~= q);
        assert(q.drop_last() + seq![(q.last().0, q.last().1, (q.last().2 - 0) as nat)] =~= q);
    }
}

/// Each queued delta arrives after its own number of polls: after `n`
/// polls, the deltas whose counts have run out have been appended, poll by
/// poll and within a poll in queue order, and every other delta still waits
/// with `n` polls fewer to go.
pub proof fn lemma_each_delta_arrives_after_its_own_count(v: MockView, n: nat)
    ensures
        ticks(v, n) == (MockView {
            screen: v.screen + screen_by(v.queued, n),
            raw: v.raw + raw_by(v.queued, n),
            queued: waiting_after(v.queued, n),
            ..v
        }),
    decreases n,
{
    if n == 0 {
        lemma_nothing_waits_after_no_polls(v.queued);
        assert(v.screen + screen_by(v.queued, 0) =~= v.screen);
        assert(v.raw + raw_by(v.queued, 0) =~= v.raw);
    } else {
        let m = (n - 1) as nat;
        lemma_each_delta_arrives_after_its_own_count(v, m);
        lemma_ticks_last(v, m);
        lemma_next_poll_of_waiting(v.queued, m);
        assert(v.screen + screen_by(v.queued, n) =~= v.screen + screen_by(v.queued, m) + screen_at(v.queued, n));
        assert(v.raw + raw_by(v.queued, n) =~= v.raw + raw_by(v.queued, m) + raw_at(v.queued, n));
    }
}

/// With nothing queued, polling changes nothing.
pub proof fn lemma_idle_polls_change_nothing(v: MockView, n: nat)
    requires
        v.queued.len() == 0,
    ensures
        ticks(v, n) == v,
    decreases n,
{
    if n > 0 {
        assert(tick(v) == v) by {
            assert(v.screen + arriving_screen(v.queued) =~= v.screen);
            assert(v.raw + arriving_raw(v.queued) =~= v.raw);
            assert(still_waiting(v.queued) =~= v.queued);
        }
        lemma_idle_polls_change_nothing(tick(v), (n - 1) as nat);
    }
}

impl MockSession {
    /// A live session showing `screen`, having received `raw`, with nothing
    /// sent and nothing queued.
    pub fn new(screen: &str, raw: &str) -> (s: Self)
        ensures
            s@.screen == screen@,
            s@.raw == raw@,
            s@.alive,
            s@.sent == Seq::<Seq<char>>::empty(),
            s@.queued == Seq::<(Seq<char>, Seq<char>, nat)>::empty(),
    {
        let mut screen_text = String::new();
        push_str(&mut screen_text, screen);
        let mut raw_text = String::new();
        push_str(&mut raw_text, raw);
        let s = MockSession {
            screen_text,
            raw: raw_text,
            alive: true,
            sent: Vec::new(),
            queued: Vec::new(),
        };
        assert(s@.sent =~= Seq::<Seq<char>>::empty());
        assert(s@.queued =~= Seq::<(Seq<char>, Seq<char>, nat)>::empty());
        s
    }

    /// Mark the target as running or exited.
    pub fn set_alive(&mut self, alive: bool)
        ensures
            final(self)@ == (MockView { alive, ..old(self)@ }),
    {
        self.alive = alive;
    }

    /// Queue a screen and a raw delta that arrives after `ticks` polls, its
    /// own countdown; one queued with 0 arrives at the next poll.
    pub fn enqueue(&mut self, screen_delta: &str, raw_delta: &str, ticks: usize)
        ensures
            final(self)@ == (MockView {
                queued: old(self)@.queued.push((screen_delta@, raw_delta@, ticks as nat)),
                ..old(self)@
            }),
    {
        let mut a = String::new();
        push_str(&mut a, screen_delta);
        let mut b = String::new();
        push_str(&mut b, raw_delta);
        let ghost before = self.queued@;
        self.queued.push((a, b, ticks));
        assert(delta_views(self.queued@) =~= delta_views(before).push((screen_delta@, raw_delta@, ticks as nat)));
    }

    /// Replace the screen text.
    pub fn set_screen(&mut self, s: &str)
        ensures
            final(self)@ == (MockView { screen: s@, ..old(self)@ }),
    {
        let mut t = String::new();
        push_str(&mut t, s);
        self.screen_text = t;
    }

    /// Replace the raw output.
    pub fn set_raw(&mut self, r: &str)
        ensures
            final(self)@ == (MockView { raw: r@, ..old(self)@ }),
    {
        let mut t = String::new();
        push_str(&mut t, r);
        self.raw = t;
    }

    /// Everything sent so far, in order.
    pub fn sent(&self) -> (r: &[String])
        ensures
            string_seqs(r@) == self@.sent,
    {
        self.sent.as_slice()
    }
}

impl Polled for MockSession {
    open spec fn polls_to(&self, after: Self) -> bool {
        after@ == tick(self@)
    }
}

impl Session for MockSession {
    open spec fn screen_view(&self) -> Seq<char> {
        self@.screen
    }

    open spec fn raw_view(&self) -> Seq<char> {
        self@.raw
    }

    open spec fn alive_view(&self) -> bool {
        self@.alive
    }

    open spec fn sends(&self, text: Seq<char>, after: Self, r: Result<(), Seq<char>>) -> bool {
        if self@.alive {
            r == Ok::<(), Seq<char>>(()) && after@ == (MockView { sent: self@.sent.push(text), ..self@ })
        } else {
            r == Err::<(), Seq<char>>("session not alive"@) && after@ == self@
        }
    }

    fn screen(&self) -> (s: String) {
        let mut s = String::new();
        push_str(&mut s, self.screen_text.as_str());
        s
    }

    fn raw_output(&self) -> (s: &str) {
        self.raw.as_str()
    }

    fn is_alive(&self) -> (b: bool) {
        let alive = self.alive;
        assert(alive == self.alive_view());
        alive
    }

    fn read_available(&mut self, timeout: Duration)
        ensures
            final(self)@ == tick(old(self)@),
    {
        let mut queued: Vec<(String, String, usize)> = Vec::new();
        std::mem::swap(&mut queued, &mut self.queued);
        let mut screen_text = String::new();
        std::mem::swap(&mut screen_text, &mut self.screen_text);
        let mut raw = String::new();
        std::mem::swap(&mut raw, &mut self.raw);
        let ghost q = delta_views(queued@);
        let ghost screen0 = screen_text@;
        let ghost raw0 = raw@;
        let mut kept: Vec<(String, String, usize)> = Vec::new();
        let mut i: usize = 0;
        proof {
            assert(q.take(0) =~= Seq::<(Seq<char>, Seq<char>, nat)>::empty());
            assert(screen0 + arriving_screen(q.take(0)) =~= screen0);
            assert(raw0 + arriving_raw(q.take(0)) =~= raw0);
            assert(delta_views(kept@) =~= still_waiting(q.take(0)));
        }
        while i < queued.len()
            invariant
                i <= queued@.len(),
                q == delta_views(queued@),
                screen_text@ == screen0 + arriving_screen(q.take(i as int)),
                raw@ == raw0 + arriving_raw(q.take(i as int)),
                delta_views(kept@) == still_waiting(q.take(i as int)),
            decreases queued@.len() - i,
        {
            let ghost pre = q.take(i as int);
            let ghost now = q.take(i + 1);
            assert(now.drop_last() =~= pre);
            assert(now.last() == q[i as int]);
            let count = queued[i].2;
            if count <= 1 {
                push_str(&mut screen_text, queued[i].0.as_str());
                push_str(&mut raw, queued[i].1.as_str());
                assert(screen_text@ =~= screen0 + arriving_screen(now));
                assert(raw@ =~= raw0 + arriving_raw(now));
                assert(still_waiting(now) =~= still_waiting(pre));
            } else {
                let mut a = String::new();
                push_str(&mut a, queued[i].0.as_str());
                let mut b = String::new();
                push_str(&mut b, queued[i].1.as_str());
                let ghost before = kept@;
                kept.push((a, b, count - 1));
                assert(delta_views(kept@) =~= delta_views(before).push((q[i as int].0, q[i as int].1, (count - 1) as nat)));
                assert(screen0 + arriving_screen(now) =~= screen0 + arriving_screen(pre));
                assert(raw0 + arriving_raw(now) =~= raw0 + arriving_raw(pre));
                assert(delta_views(kept@) =~= still_waiting(now));
            }
            i = i + 1;
        }
        assert(q.take(queued@.len() as int) =~= q);
        self.screen_text = screen_text;
        self.raw = raw;
        self.queued = kept;
    }

    fn send_text(&mut self, text: &str) -> (r: Result<(), String>)
        ensures
            r is Ok <==> old(self)@.alive,
            r is Ok ==> final(self)@ == (MockView { sent: old(self)@.sent.push(text@), ..old(self)@ }),
            r is Err ==> final(self)@ == old(self)@,
            r matches Err(e) ==> e@ == "session not alive"@,
    {
        if !self.alive {
            return Err(String::from_str("session not alive"));
        }
        let mut t = String::new();
        push_str(&mut t, text);
        proof {
            crate::text::lemma_string_seqs_push(self.sent@, t);
        }
        self.sent.push(t);
        Ok(())
    }
}

impl Default for MockSession {
    /// An exited session with empty buffers and nothing queued.
    fn default() -> (s: Self)
        ensures
            s@.screen == Seq::<char>::empty(),
            s@.raw == Seq::<char>::empty(),
            !s@.alive,
            s@.sent == Seq::<Seq<char>>::empty(),
            s@.queued == Seq::<(Seq<char>, Seq<char>, nat)>::empty(),
    {
        let s = MockSession {
            screen_text: String::new(),
            raw: String::new(),
            alive: false,
            sent: Vec::new(),
            queued: Vec::new(),
        };
        assert(s@.sent =~= Seq::<Seq<char>>::empty());
        assert(s@.queued =~= Seq::<(Seq<char>, Seq<char>, nat)>::empty());
        s
    }
}

} // verus!
