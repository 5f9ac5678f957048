//! Publishing evidence somewhere a reader can open it.
//!
//! Uploads are best-effort by design: a failure yields `None`, not an error,
//! so a flaky store never fails a run that otherwise produced its evidence.
//! Where things go is the caller's business, behind [`ArtifactUploader`];
//! this module owns the fallback composition.
use vstd::prelude::*;
use crate::text::{string_seqs, lemma_string_seqs_push};
use crate::text::{chars_of, join, join_chars, push_str, string_of, trim, trim_chars, views};

verus! {

broadcast use vstd::string::group_string_axioms;

/// The longest error message kept, in bytes.
pub const MAX_ERROR_LENGTH: usize = 500;

/// Bytes in the UTF-8 encoding of `c`.
pub open spec fn utf8_width(c: char) -> nat {
    if (c as u32) < 0x80 {
        1
    } else if (c as u32) < 0x800 {
        2
    } else if (c as u32) < 0x10000 {
        3
    } else {
        4
    }
}

/// Bytes in the UTF-8 encoding of `s`.
pub open spec fn utf8_len(s: Seq<char>) -> nat
    decreases s.len(),
{
    if s.len() == 0 {
        0
    } else {
        utf8_len(s.drop_last()) + utf8_width(s.last())
    }
}

/// How many leading characters of `s`, from at least `k`, are kept when it
/// is cut: the most that start within the first 497 bytes, leaving room for
/// `...`.
pub open spec fn kept_chars(s: Seq<char>, k: int) -> int
    decreases s.len() - k,
{
    if 0 <= k && k + 1 < s.len() && utf8_len(s.take(k + 1)) <= 497 {
        kept_chars(s, k + 1)
    } else {
        k
    }
}

/// `value` trimmed, and cut on a character boundary with `...` appended when
/// its UTF-8 encoding is longer than 500 bytes.
pub open spec fn clip_spec(value: Seq<char>) -> Seq<char> {
    let compact = trim(value);
    if utf8_len(compact) <= 500 {
        compact
    } else {
        compact.take(kept_chars(compact, 0)) + seq!['.', '.', '.']
    }
}

pub(crate) fn utf8_width_exec(c: char) -> (n: usize)
    ensures
        n == utf8_width(c),
{
    let code: u32 = c as u32;
    if code < 0x80 {
        1
    } else if code < 0x800 {
        2
    } else if code < 0x10000 {
        3
    } else {
        4
    }
}

proof fn lemma_kept_chars_bounds(s: Seq<char>, k: int)
    requires
        0 <= k < s.len(),
        utf8_len(s.take(k)) <= 497,
    ensures
        k <= kept_chars(s, k) < s.len(),
        utf8_len(s.take(kept_chars(s, k))) <= 497,
    decreases s.len() - k,
{
    if k + 1 < s.len() && utf8_len(s.take(k + 1)) <= 497 {
        lemma_kept_chars_bounds(s, k + 1);
    }
}

/// Trim `value` and cap its UTF-8 encoding at 500 bytes, cutting on a
/// character boundary and appending `...` if cut. The result never encodes
/// to more than 500 bytes.
pub fn clip(value: &str) -> (r: String)
    ensures
        r@ == clip_spec(value@),
        utf8_len(r@) <= 500,
{
    let all = chars_of(value);
    let compact = trim_chars(all.as_slice());
    let n: usize = compact.len();
    let mut total: usize = 0;
    let mut i: usize = 0;
    assert(compact@.take(0) =~= Seq::<char>::empty());
    while i < n && total <= 500
        invariant
            n == compact@.len(),
            i <= n,
            total == utf8_len(compact@.take(i as int)),
            total <= 504,
        decreases n - i,
    {
        assert(compact@.take(i + 1).drop_last() =~= compact@.take(i as int));
        total += utf8_width_exec(compact[i]);
        i += 1;
    }
    if total <= 500 {
        assert(compact@.take(n as int) =~= compact@);
        return string_of(compact.as_slice());
    }
    proof {
        if utf8_len(compact@) <= 500 {
            lemma_utf8_len_prefix(compact@, i as int);
            assert(false);
        }
    }
    let mut k: usize = 0;
    let mut off: usize = 0;
    while k + 1 < n && off + utf8_width_exec(compact[k]) <= 497
        invariant
            n == compact@.len(),
            n >= 1,
            k < n,
            off == utf8_len(compact@.take(k as int)),
            off <= 497,
            kept_chars(compact@, 0) == kept_chars(compact@, k as int),
        decreases n - k,
    {
        assert(compact@.take(k + 1).drop_last() =~= compact@.take(k as int));
        off += utf8_width_exec(compact[k]);
        k += 1;
    }
    if k + 1 < n {
        assert(compact@.take(k + 1).drop_last() =~= compact@.take(k as int));
    }
    let mut out: Vec<char> = Vec::new();
    let mut j: usize = 0;
    while j < k
        invariant
            k < n,
            n == compact@.len(),
            j <= k,
            out@ == compact@.take(j as int),
        decreases k - j,
    {
        out.push(compact[j]);
        assert(compact@.take(j as int).push(compact@[j as int]) =~= compact@.take(j + 1));
        j += 1;
    }
    out.push('.');
    out.push('.');
    out.push('.');
    assert(out@ =~= compact@.take(k as int) + seq!['.', '.', '.']);
    proof {
        lemma_utf8_len_append(compact@.take(k as int), seq!['.', '.', '.']);
        reveal_with_fuel(utf8_len, 4);
    }
    string_of(out.as_slice())
}

pub(crate) proof fn lemma_utf8_len_prefix(s: Seq<char>, i: int)
    requires
        0 <= i <= s.len(),
    ensures
        utf8_len(s.take(i)) <= utf8_len(s),
    decreases s.len() - i,
{
    if i < s.len() {
        lemma_utf8_len_prefix(s, i + 1);
        assert(s.take(i + 1).drop_last() =~= s.take(i));
    } else {
        assert(s.take(i) =~= s);
    }
}

proof fn lemma_utf8_len_append(a: Seq<char>, b: Seq<char>)
    ensures
        utf8_len(a + b) == utf8_len(a) + utf8_len(b),
    decreases b.len(),
{
    if b.len() == 0 {
        assert(a + b =~= a);
    } else {
        lemma_utf8_len_append(a, b.drop_last());
        assert((a + b).drop_last() =~= a + b.drop_last());
    }
}

/// Something that can upload a local artifact and yield a shareable URL.
/// Implemented by the caller for each store.
pub trait ArtifactUploader {
    /// Whether uploading `path` from this state may answer `url`. An
    /// uploader that does not say may answer anything.
    open spec fn answers(&self, path: Seq<char>, url: Option<Seq<char>>) -> bool {
        true
    }

    /// Whether `error` may be the failure message reported in this state. An
    /// uploader that does not say may report anything.
    open spec fn reports(&self, error: Option<Seq<char>>) -> bool {
        true
    }

    /// Upload `path`; return its URL, or `None` on failure (see
    /// `last_error`).
    fn upload(&mut self, path: &str) -> (r: Option<String>)
        ensures
            old(self).answers(path@, opt_view(r)),
    ;

    /// The last failure message, if the most recent `upload` returned `None`.
    fn last_error(&self) -> (e: Option<&str>)
        ensures
            self.reports(match e {
                Some(m) => Some(m@),
                None => None,
            }),
    ;
}

/// The non-empty messages among `errs`, in order.
pub open spec fn nonempty_messages(errs: Seq<Option<Seq<char>>>) -> Seq<Seq<char>>
    decreases errs.len(),
{
    if errs.len() == 0 {
        Seq::empty()
    } else {
        nonempty_messages(errs.drop_last()) + match errs.last() {
            Some(m) => if m.len() > 0 {
                seq![m]
            } else {
                Seq::empty()
            },
            None => Seq::empty(),
        }
    }
}

/// The first `errs.len()` uploaders of `before`, each handed `path`,
/// answered no URL, and as left in `after` each reported its entry of `errs`.
pub open spec fn failed_through(
    before: Seq<Box<dyn ArtifactUploader>>,
    after: Seq<Box<dyn ArtifactUploader>>,
    path: Seq<char>,
    errs: Seq<Option<Seq<char>>>,
) -> bool {
    forall|i: int| 0 <= i < errs.len() ==> #[trigger] before[i].answers(path, None) && after[i].reports(errs[i])
}

/// One upload through the chain: uploaders are handed `path` in order until
/// the first answers a URL, which is the answer (no URL when none did); the
/// uploaders after it are not called; and the record settles over the
/// non-empty failure messages of the uploaders tried before it (all of them
/// on a failure).
pub open spec fn chain_upload(old: FallbackView, path: Seq<char>, new: FallbackView, url: Option<Seq<char>>) -> bool {
    let n = old.uploaders.len() as int;
    exists|errs: Seq<Option<Seq<char>>>|
        {
            &&& errs.len() <= n
            &&& new.uploaders.len() == n
            &&& #[trigger] failed_through(old.uploaders, new.uploaders, path, errs)
            &&& forall|j: int| errs.len() < j < n ==> new.uploaders[j] == old.uploaders[j]
            &&& url is None ==> errs.len() == n
            &&& url is Some ==> errs.len() < n && old.uploaders[errs.len() as int].answers(path, url)
            &&& new == settle(FallbackView { uploaders: new.uploaders, ..old }, url, nonempty_messages(errs))
        }
}

/// What a fallback chain has recorded.
pub struct FallbackView {
    /// The uploaders the chain tries, in order.
    pub uploaders: Seq<Box<dyn ArtifactUploader>>,
    /// The failure of the most recent upload, if it failed.
    pub last_error: Option<Seq<char>>,
    /// Distinct failure modes survived by falling back, in the order first
    /// seen.
    pub degraded: Seq<Seq<char>>,
}

/// The characters of an optional string.
pub open spec fn opt_view(s: Option<String>) -> Option<Seq<char>> {
    match s {
        Some(v) => Some(v@),
        None => None,
    }
}

/// The message for a failed upload: the uploaders' errors joined with `; `,
/// or a fixed message when none gave one.
pub open spec fn failure_message(errors: Seq<Seq<char>>) -> Seq<char> {
    if errors.len() == 0 {
        "all uploaders returned no URL"@
    } else {
        join(errors, "; "@)
    }
}

/// The state after an upload that came back with `url`, the uploaders before
/// it having failed with `errors` (the non-empty ones). A success clears the
/// last error and records the joined errors as a degradation once per
/// distinct message; a failure records the message and leaves the
/// degradations alone.
pub open spec fn settle(s: FallbackView, url: Option<Seq<char>>, errors: Seq<Seq<char>>) -> FallbackView {
    if url is Some {
        let message = join(errors, "; "@);
        FallbackView {
            last_error: None,
            degraded: if errors.len() > 0 && !s.degraded.contains(message) {
                s.degraded.push(message)
            } else {
                s.degraded
            },
            ..s
        }
    } else {
        FallbackView { last_error: Some(failure_message(errors)), ..s }
    }
}

/// Tries uploaders in order and returns the first URL.
pub struct FallbackUploader {
    uploaders: Vec<Box<dyn ArtifactUploader>>,
    last_error: Option<String>,
    degraded: Vec<String>,
}

impl View for FallbackUploader {
    type V = FallbackView;

    closed spec fn view(&self) -> FallbackView {
        FallbackView {
            uploaders: self.uploaders@,
            last_error: match &self.last_error {
                Some(e) => Some(e@),
                None => None,
            },
            degraded: string_seqs(self.degraded@),
        }
    }
}

impl FallbackUploader {
    /// Each failure mode is recorded once.
    #[verifier::type_invariant]
    closed spec fn distinct_degradations(&self) -> bool {
        string_seqs(self.degraded@).no_duplicates()
    }

    /// Compose `uploaders` into a chain, tried in the order given.
    pub fn new(uploaders: Vec<Box<dyn ArtifactUploader>>) -> (f: Self)
        ensures
            f@.uploaders == uploaders@,
            f@.last_error is None,
            f@.degraded == Seq::<Seq<char>>::empty(),
    {
        let f = FallbackUploader { uploaders, last_error: None, degraded: Vec::new() };
        assert(f@.degraded =~= Seq::<Seq<char>>::empty());
        f
    }

    /// Distinct failure modes that were survived by falling back.
    pub fn degraded(&self) -> (d: &[String])
        ensures
            string_seqs(d@) == self@.degraded,
            self@.degraded.no_duplicates(),
    {
        proof { use_type_invariant(self); }
        self.degraded.as_slice()
    }

    fn record_degraded(&mut self, message: String)
        ensures
            final(self)@ == (FallbackView {
                degraded: if old(self)@.degraded.contains(message@) {
                    old(self)@.degraded
                } else {
                    old(self)@.degraded.push(message@)
                },
                ..old(self)@
            }),
    {
        proof { use_type_invariant(&*self); }
        let ghost d = string_seqs(self.degraded@);
        let mut i: usize = 0;
        while i < self.degraded.len()
            invariant
                d == string_seqs(self.degraded@),
                i <= d.len(),
                forall|j: int| 0 <= j < i ==> d[j] != message@,
            decreases d.len() - i,
        {
            if self.degraded[i] == message {
                assert(d[i as int] == message@);
                return;
            }
            i += 1;
        }
        assert(!d.contains(message@));
        let mut kept: Vec<String> = Vec::new();
        std::mem::swap(&mut kept, &mut self.degraded);
        proof {
            assert(string_seqs(kept@.push(message)) =~= d.push(message@));
        }
        kept.push(message);
        self.degraded = kept;
    }

    fn settle_upload(&mut self, url: Option<String>, errors: Vec<String>) -> (r: Option<String>)
        requires
            forall|i: int| 0 <= i < errors@.len() ==> (#[trigger] errors@[i])@.len() > 0,
        ensures
            final(self)@ == settle(old(self)@, opt_view(url), string_seqs(errors@)),
            r == url,
    {
        proof { use_type_invariant(&*self); }
        let mut pieces: Vec<Vec<char>> = Vec::new();
        let mut i: usize = 0;
        while i < errors.len()
            invariant
                i <= errors@.len(),
                views(pieces@) == string_seqs(errors@).take(i as int),
            decreases errors@.len() - i,
        {
            let p = chars_of(errors[i].as_str());
            proof { crate::text::lemma_views_push(pieces@, p); }
            pieces.push(p);
            assert(string_seqs(errors@).take(i as int).push(errors@[i as int]@) =~= string_seqs(
                errors@,
            ).take(i + 1));
            i += 1;
        }
        assert(string_seqs(errors@).take(errors@.len() as int) =~= string_seqs(errors@));
        let sep = chars_of("; ");
        let joined = string_of(join_chars(&pieces, sep.as_slice()).as_slice());
        match url {
            Some(u) => {
                self.last_error = None;
                if errors.len() > 0 {
                    self.record_degraded(joined);
                }
                Some(u)
            },
            None => {
                if errors.len() == 0 {
                    self.last_error = Some("all uploaders returned no URL".to_owned());
                } else {
                    self.last_error = Some(joined);
                }
                None
            },
        }
    }
}

impl ArtifactUploader for FallbackUploader {
    open spec fn answers(&self, path: Seq<char>, url: Option<Seq<char>>) -> bool {
        exists|after: FallbackView| #[trigger] chain_upload(self@, path, after, url)
    }

    open spec fn reports(&self, error: Option<Seq<char>>) -> bool {
        error == self@.last_error
    }

    /// Try each uploader in order until one returns a URL. What each uploader
    /// answers is its own business; the chain hands each the same path, stops
    /// at the first URL, and settles as [`settle`] says over the non-empty
    /// messages of the uploaders that failed before it (or of all of them).
    fn upload(&mut self, path: &str) -> (r: Option<String>)
        ensures
            chain_upload(old(self)@, path@, final(self)@, opt_view(r)),
            final(self)@.degraded.no_duplicates(),
    {
        proof { use_type_invariant(&*self); }
        let ghost start = self@;
        self.last_error = None;
        let mut errors: Vec<String> = Vec::new();
        let mut uploaded: Option<String> = None;
        let mut chain: Vec<Box<dyn ArtifactUploader>> = Vec::new();
        std::mem::swap(&mut chain, &mut self.uploaders);
        let ghost orig = chain@;
        let ghost mut errs: Seq<Option<Seq<char>>> = Seq::empty();
        let n: usize = chain.len();
        let mut i: usize = 0;
        assert(string_seqs(errors@) =~= nonempty_messages(errs));
        while i < n && uploaded.is_none()
            invariant
                orig == start.uploaders,
                n == chain@.len(),
                n == orig.len(),
                i <= n,
                forall|j: int| 0 <= j < errors@.len() ==> (#[trigger] errors@[j])@.len() > 0,
                forall|j: int| i <= j < n ==> chain@[j] == orig[j],
                failed_through(orig, chain@, path@, errs),
                string_seqs(errors@) == nonempty_messages(errs),
                uploaded is None ==> errs.len() == i,
                uploaded is Some ==> i > 0 && errs.len() == i - 1 && orig[i - 1].answers(path@, opt_view(uploaded)),
            decreases n - i,
        {
            let ghost before = chain@;
            uploaded = chain[i].upload(path);
            assert forall|j: int| 0 <= j < errs.len() implies #[trigger] orig[j].answers(path@, None) && chain@[j].reports(errs[j]) by {
                assert(chain@[j] == before[j]);
                assert(failed_through(orig, before, path@, errs));
            }
            if uploaded.is_none() {
                let reported = chain[i].last_error();
                let ghost e = match reported {
                    Some(m) => Some(m@),
                    None => None,
                };
                match reported {
                    Some(m) => {
                        if !m.is_empty() {
                            let owned_e = crate::text::owned(m);
                            proof { crate::text::lemma_string_seqs_push(errors@, owned_e); }
                            errors.push(owned_e);
                        }
                    },
                    None => {},
                }
                proof {
                    let ne = errs.push(e);
                    assert(ne.drop_last() =~= errs);
                    assert(string_seqs(errors@) =~= nonempty_messages(ne));
                    assert forall|j: int| 0 <= j < ne.len() implies #[trigger] orig[j].answers(path@, None) && chain@[j].reports(ne[j]) by {
                        if j < errs.len() {
                            assert(ne[j] == errs[j]);
                        }
                    }
                    errs = ne;
                }
            }
            i += 1;
        }
        let ghost fin = chain@;
        self.uploaders = chain;
        assert(self@ == (FallbackView { uploaders: fin, last_error: None, ..start }));
        let r = self.settle_upload(uploaded, errors);
        proof {
            use_type_invariant(&*self);
            assert(failed_through(start.uploaders, fin, path@, errs));
            assert(chain_upload(start, path@, self@, opt_view(r)));
        }
        r
    }

    fn last_error(&self) -> (e: Option<&str>)
        ensures
            match e {
                Some(s) => self@.last_error == Some(s@),
                None => self@.last_error is None,
            },
    {
        match &self.last_error {
            Some(s) => Some(s.as_str()),
            None => None,
        }
    }
}


/// A process's output as one text: stdout, then stderr, each only when it
/// holds more than whitespace, joined by a newline.
pub open spec fn combined_spec(stdout: Seq<char>, stderr: Seq<char>) -> Seq<char> {
    let parts = (if trim(stdout).len() > 0 {
        seq![stdout]
    } else {
        Seq::<Seq<char>>::empty()
    }) + (if trim(stderr).len() > 0 {
        seq![stderr]
    } else {
        Seq::<Seq<char>>::empty()
    });
    join(parts, seq!['\n'])
}

/// A process's stdout and stderr combined into one text.
pub fn combined_output(stdout: &str, stderr: &str) -> (r: String)
    ensures
        r@ == combined_spec(stdout@, stderr@),
{
    let out = chars_of(stdout);
    let err = chars_of(stderr);
    let mut parts: Vec<Vec<char>> = Vec::new();
    if trim_chars(out.as_slice()).len() > 0 {
        let mut c: Vec<char> = Vec::new();
        c.extend_from_slice(out.as_slice());
        assert(c@ =~= stdout@);
        proof { crate::text::lemma_views_push(parts@, c); }
        parts.push(c);
    }
    if trim_chars(err.as_slice()).len() > 0 {
        let mut c: Vec<char> = Vec::new();
        c.extend_from_slice(err.as_slice());
        assert(c@ =~= stderr@);
        proof { crate::text::lemma_views_push(parts@, c); }
        parts.push(c);
    }
    let ghost want = (if trim(stdout@).len() > 0 {
        seq![stdout@]
    } else {
        Seq::<Seq<char>>::empty()
    }) + (if trim(stderr@).len() > 0 {
        seq![stderr@]
    } else {
        Seq::<Seq<char>>::empty()
    });
    assert(views(parts@) =~= want);
    let joined = join_chars(&parts, &['\n']);
    assert(['\n']@ =~= seq!['\n']);
    string_of(joined.as_slice())
}

/// The message for an upload tool that exited unsuccessfully: its name, its
/// exit code, and its output clipped.
pub fn tool_failure(executable: &str, code: i32, combined: &str) -> (m: String)
    ensures
        m@ == executable@ + " exited "@ + crate::junit::int_text(code as int) + ": "@ + clip_spec(combined@),
{
    let mut m = crate::text::owned(executable);
    push_str(&mut m, " exited ");
    push_str(&mut m, crate::assertions::int_string(code).as_str());
    push_str(&mut m, ": ");
    push_str(&mut m, clip(combined).as_str());
    m
}

} // verus!
