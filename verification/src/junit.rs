//! What a JUnit report says of each run: one test case per run, named after
//! the recipe (and the renderer, unless it is `default`), classed by its
//! execution mode, with the step, assertion and artifact summary as its
//! output, and, for a run that failed, a failure whose description repeats
//! the run's particulars ahead of the same summary. Characters that XML 1.0
//! forbids are dropped from everything the report writes.
use vstd::prelude::*;
use crate::report::mark;
use crate::result::RunRecord;
use crate::text::{chars_of, decimal, join, join_chars, lemma_views_push, push_decimal, string_of, views};

verus! {

broadcast use vstd::string::group_string_axioms;

/// A character XML 1.0 allows: tab, newline, carriage return and the
/// ordinary ranges, less the noncharacters.
pub open spec fn xml_allowed(c: char) -> bool {
    &&& (c == '\t' || c == '\n' || c == '\r' || ('\u{20}' <= c && c <= '\u{D7FF}') || ('\u{E000}' <= c
        && c <= '\u{FFFD}') || ('\u{10000}' <= c && c <= '\u{10FFFF}'))
    &&& !(('\u{FDD0}' <= c && c <= '\u{FDEF}') || c == '\u{FFFE}' || c == '\u{FFFF}')
}

/// `s` without the characters XML 1.0 forbids.
pub open spec fn xml_clean(s: Seq<char>) -> Seq<char>
    decreases s.len(),
{
    if s.len() == 0 {
        Seq::empty()
    } else {
        xml_clean(s.drop_last()) + if xml_allowed(s.last()) {
            seq![s.last()]
        } else {
            Seq::empty()
        }
    }
}

fn xml_allowed_exec(c: char) -> (b: bool)
    ensures
        b == xml_allowed(c),
{
    (c == '\t' || c == '\n' || c == '\r' || ('\u{20}' <= c && c <= '\u{D7FF}') || ('\u{E000}' <= c
        && c <= '\u{FFFD}') || ('\u{10000}' <= c && c <= '\u{10FFFF}')) && !(('\u{FDD0}' <= c && c
        <= '\u{FDEF}') || c == '\u{FFFE}' || c == '\u{FFFF}')
}

fn clean_chars(s: &[char]) -> (r: Vec<char>)
    ensures
        r@ == xml_clean(s@),
{
    let mut r: Vec<char> = Vec::new();
    let mut i: usize = 0;
    while i < s.len()
        invariant
            i <= s@.len(),
            r@ == xml_clean(s@.take(i as int)),
        decreases s@.len() - i,
    {
        assert(s@.take(i + 1).drop_last() =~= s@.take(i as int));
        if xml_allowed_exec(s[i]) {
            r.push(s[i]);
        }
        assert(r@ =~= xml_clean(s@.take(i + 1)));
        i = i + 1;
    }
    assert(s@.take(s@.len() as int) =~= s@);
    r
}

/// Drop the characters XML 1.0 forbids (control characters, surrogates,
/// noncharacters).
pub fn xml_sanitize(text: &str) -> (r: String)
    ensures
        r@ == xml_clean(text@),
{
    let c = chars_of(text);
    let r = clean_chars(c.as_slice());
    string_of(r.as_slice())
}

/// A failed test case's failure.
#[derive(Debug, Clone, PartialEq, Eq)]
pub struct JunitFailure {
    /// `{recipe} failed (score {score})`.
    pub message: String,
    /// The run's particulars, then the summary.
    pub description: String,
}

/// One test case of the report.
#[derive(Debug, Clone, PartialEq, Eq)]
pub struct JunitCase {
    /// Test case name.
    pub name: String,
    /// Class name: the execution mode.
    pub classname: String,
    /// The step, assertion and artifact summary.
    pub system_out: String,
    /// The failure, for a run that did not pass.
    pub failure: Option<JunitFailure>,
}

/// `  MARK name: detail`, cleaned.
pub open spec fn result_line(passed: bool, name: Seq<char>, detail: Seq<char>) -> Seq<char> {
    "  "@ + mark(passed) + " "@ + xml_clean(name) + ": "@ + xml_clean(detail)
}

/// The summary of a run: its steps, its assertions (set off by a blank line
/// after the steps), its artifacts (after a blank line), each section only
/// when it has entries.
pub open spec fn summary_lines(r: RunRecord) -> Seq<Seq<char>> {
    let steps = if r.steps@.len() > 0 {
        seq!["Steps:"@] + Seq::new(
            r.steps@.len(),
            |i: int| result_line(r.steps@[i].passed, r.steps@[i].name@, r.steps@[i].detail@),
        )
    } else {
        Seq::empty()
    };
    let assertions = if r.assertions@.len() > 0 {
        (if steps.len() > 0 {
            seq![Seq::<char>::empty()]
        } else {
            Seq::empty()
        }) + seq!["Assertions:"@] + Seq::new(
            r.assertions@.len(),
            |i: int|
                result_line(
                    r.assertions@[i].passed,
                    r.assertions@[i].name@,
                    r.assertions@[i].detail@,
                ),
        )
    } else {
        Seq::empty()
    };
    let artifacts = if r.artifacts@.len() > 0 {
        seq![Seq::<char>::empty(), "Artifacts:"@] + Seq::new(
            r.artifacts@.len(),
            |i: int| "  "@ + xml_clean(r.artifacts@[i].0@) + ": "@ + xml_clean(r.artifacts@[i].1@),
        )
    } else {
        Seq::empty()
    };
    steps + assertions + artifacts
}

/// An integer as Rust's `Debug` writes it.
pub open spec fn int_text(n: int) -> Seq<char> {
    if n < 0 {
        "-"@ + decimal((-n) as nat)
    } else {
        decimal(n as nat)
    }
}

/// An optional exit code as Rust's `Debug` writes it: `Some(0)` or `None`.
pub open spec fn exit_code_text(c: Option<i32>) -> Seq<char> {
    match c {
        Some(n) => "Some("@ + int_text(n as int) + ")"@,
        None => "None"@,
    }
}

/// The particulars a failure's description starts with.
pub open spec fn failure_header(r: RunRecord) -> Seq<Seq<char>> {
    seq![
        "Recipe: "@ + xml_clean(r.recipe_name@),
        "Renderer: "@ + xml_clean(r.renderer@),
        "Priority: "@ + xml_clean(r.priority@),
        "Execution: "@ + xml_clean(r.execution@),
        "Score: "@ + r.score_text@,
        "Exit code: "@ + exit_code_text(r.exit_code),
        Seq::<char>::empty(),
    ]
}

/// The test case name: the recipe, with the renderer in brackets unless it
/// is `default`.
pub open spec fn case_name(r: RunRecord) -> Seq<char> {
    if r.renderer@ != "default"@ {
        r.recipe_name@ + " ["@ + r.renderer@ + "]"@
    } else {
        r.recipe_name@
    }
}

/// The test case the report holds for `r`.
pub open spec fn case_matches(c: JunitCase, r: RunRecord) -> bool {
    &&& c.name@ == case_name(r)
    &&& c.classname@ == xml_clean(r.execution@)
    &&& c.system_out@ == xml_clean(join(summary_lines(r), "\n"@))
    &&& if r.passed {
        c.failure is None
    } else {
        c.failure matches Some(f) && f.message@ == xml_clean(
            r.recipe_name@ + " failed (score "@ + r.score_text@ + ")"@,
        ) && f.description@ == xml_clean(join(failure_header(r) + summary_lines(r), "\n"@))
    }
}

fn append_text(v: &mut Vec<char>, s: &str)
    ensures
        final(v)@ == old(v)@ + s@,
{
    let mut c = chars_of(s);
    let ghost a = v@;
    let ghost b = c@;
    v.append(&mut c);
    assert(v@ =~= a + b);
}

fn append_clean(v: &mut Vec<char>, s: &str)
    ensures
        final(v)@ == old(v)@ + xml_clean(s@),
{
    let c = chars_of(s);
    let mut d = clean_chars(c.as_slice());
    let ghost a = v@;
    let ghost b = d@;
    v.append(&mut d);
    assert(v@ =~= a + b);
}

fn result_text(passed: bool, name: &str, detail: &str) -> (t: Vec<char>)
    ensures
        t@ == result_line(passed, name@, detail@),
{
    let mut v: Vec<char> = Vec::new();
    append_text(&mut v, "  ");
    append_text(&mut v, if passed { "PASS" } else { "FAIL" });
    append_text(&mut v, " ");
    append_clean(&mut v, name);
    append_text(&mut v, ": ");
    append_clean(&mut v, detail);
    v
}

fn push_line(lines: &mut Vec<Vec<char>>, line: Vec<char>)
    ensures
        views(final(lines)@) == views(old(lines)@).push(line@),
{
    proof {
        lemma_views_push(lines@, line);
    }
    lines.push(line);
}

fn summary(r: &RunRecord) -> (lines: Vec<Vec<char>>)
    ensures
        views(lines@) == summary_lines(*r),
{
    let mut lines: Vec<Vec<char>> = Vec::new();
    let ghost steps_part = if r.steps@.len() > 0 {
        seq!["Steps:"@] + Seq::new(
            r.steps@.len(),
            |i: int| result_line(r.steps@[i].passed, r.steps@[i].name@, r.steps@[i].detail@),
        )
    } else {
        Seq::<Seq<char>>::empty()
    };
    assert(views(lines@) =~= Seq::<Seq<char>>::empty());
    if r.steps.len() > 0 {
        push_line(&mut lines, chars_of("Steps:"));
        let ghost items = Seq::new(
            r.steps@.len(),
            |i: int| result_line(r.steps@[i].passed, r.steps@[i].name@, r.steps@[i].detail@),
        );
        let mut k: usize = 0;
        while k < r.steps.len()
            invariant
                k <= r.steps@.len(),
                items == Seq::new(
                    r.steps@.len(),
                    |i: int| result_line(r.steps@[i].passed, r.steps@[i].name@, r.steps@[i].detail@),
                ),
                views(lines@) == seq!["Steps:"@] + items.take(k as int),
            decreases r.steps@.len() - k,
        {
            let s = &r.steps[k];
            push_line(&mut lines, result_text(s.passed, s.name.as_str(), s.detail.as_str()));
            assert(views(lines@) =~= seq!["Steps:"@] + items.take(k + 1));
            k = k + 1;
        }
        assert(items.take(r.steps@.len() as int) =~= items);
    }
    assert(views(lines@) =~= steps_part);
    let ghost after_steps = views(lines@);
    let ghost assertions_part = if r.assertions@.len() > 0 {
        (if steps_part.len() > 0 {
            seq![Seq::<char>::empty()]
        } else {
            Seq::empty()
        }) + seq!["Assertions:"@] + Seq::new(
            r.assertions@.len(),
            |i: int|
                result_line(
                    r.assertions@[i].passed,
                    r.assertions@[i].name@,
                    r.assertions@[i].detail@,
                ),
        )
    } else {
        Seq::<Seq<char>>::empty()
    };
    if r.assertions.len() > 0 {
        if lines.len() > 0 {
            push_line(&mut lines, Vec::new());
        }
        push_line(&mut lines, chars_of("Assertions:"));
        let ghost start = views(lines@);
        let ghost items = Seq::new(
            r.assertions@.len(),
            |i: int|
                result_line(
                    r.assertions@[i].passed,
                    r.assertions@[i].name@,
                    r.assertions@[i].detail@,
                ),
        );
        let mut k: usize = 0;
        while k < r.assertions.len()
            invariant
                k <= r.assertions@.len(),
                items == Seq::new(
                    r.assertions@.len(),
                    |i: int|
                        result_line(
                            r.assertions@[i].passed,
                            r.assertions@[i].name@,
                            r.assertions@[i].detail@,
                        ),
                ),
                views(lines@) == start + items.take(k as int),
            decreases r.assertions@.len() - k,
        {
            let a = &r.assertions[k];
            push_line(&mut lines, result_text(a.passed, a.name.as_str(), a.detail.as_str()));
            assert(views(lines@) =~= start + items.take(k + 1));
            k = k + 1;
        }
        assert(items.take(r.assertions@.len() as int) =~= items);
    }
    assert(views(lines@) =~= steps_part + assertions_part);
    let ghost before_artifacts = views(lines@);
    if r.artifacts.len() > 0 {
        push_line(&mut lines, Vec::new());
        push_line(&mut lines, chars_of("Artifacts:"));
        let ghost start = views(lines@);
        let ghost items = Seq::new(
            r.artifacts@.len(),
            |i: int| "  "@ + xml_clean(r.artifacts@[i].0@) + ": "@ + xml_clean(r.artifacts@[i].1@),
        );
        let mut k: usize = 0;
        while k < r.artifacts.len()
            invariant
                k <= r.artifacts@.len(),
                items == Seq::new(
                    r.artifacts@.len(),
                    |i: int| "  "@ + xml_clean(r.artifacts@[i].0@) + ": "@ + xml_clean(
                        r.artifacts@[i].1@,
                    ),
                ),
                views(lines@) == start + items.take(k as int),
            decreases r.artifacts@.len() - k,
        {
            let mut line: Vec<char> = Vec::new();
            append_text(&mut line, "  ");
            append_clean(&mut line, r.artifacts[k].0.as_str());
            append_text(&mut line, ": ");
            append_clean(&mut line, r.artifacts[k].1.as_str());
            push_line(&mut lines, line);
            assert(views(lines@) =~= start + items.take(k + 1));
            k = k + 1;
        }
        assert(items.take(r.artifacts@.len() as int) =~= items);
    }
    assert(views(lines@) =~= summary_lines(*r));
    lines
}

fn int_chars(n: i32) -> (t: Vec<char>)
    ensures
        t@ == int_text(n as int),
{
    let mut v: Vec<char> = Vec::new();
    if n < 0 {
        append_text(&mut v, "-");
        let magnitude: i64 = -(n as i64);
        push_decimal(&mut v, magnitude as u64);
    } else {
        push_decimal(&mut v, n as u64);
    }
    v
}

/// The test case the JUnit report holds for a run.
pub fn junit_case(r: &RunRecord) -> (c: JunitCase)
    ensures
        case_matches(c, *r),
{
    let mut name: Vec<char> = Vec::new();
    append_text(&mut name, r.recipe_name.as_str());
    if !crate::text::str_eq(r.renderer.as_str(), "default") {
        append_text(&mut name, " [");
        append_text(&mut name, r.renderer.as_str());
        append_text(&mut name, "]");
    }
    let lines = summary(r);
    let sep = chars_of("\n");
    let joined = join_chars(&lines, sep.as_slice());
    let system_out = clean_chars(joined.as_slice());
    let failure = if r.passed {
        None
    } else {
        let mut message: Vec<char> = Vec::new();
        append_text(&mut message, r.recipe_name.as_str());
        append_text(&mut message, " failed (score ");
        append_text(&mut message, r.score_text.as_str());
        append_text(&mut message, ")");
        let mut header: Vec<Vec<char>> = Vec::new();
        let mut line: Vec<char> = Vec::new();
        append_text(&mut line, "Recipe: ");
        append_clean(&mut line, r.recipe_name.as_str());
        push_line(&mut header, line);
        let mut line: Vec<char> = Vec::new();
        append_text(&mut line, "Renderer: ");
        append_clean(&mut line, r.renderer.as_str());
        push_line(&mut header, line);
        let mut line: Vec<char> = Vec::new();
        append_text(&mut line, "Priority: ");
        append_clean(&mut line, r.priority.as_str());
        push_line(&mut header, line);
        let mut line: Vec<char> = Vec::new();
        append_text(&mut line, "Execution: ");
        append_clean(&mut line, r.execution.as_str());
        push_line(&mut header, line);
        let mut line: Vec<char> = Vec::new();
        append_text(&mut line, "Score: ");
        append_text(&mut line, r.score_text.as_str());
        push_line(&mut header, line);
        let mut line: Vec<char> = Vec::new();
        append_text(&mut line, "Exit code: ");
        match r.exit_code {
            Some(code) => {
                append_text(&mut line, "Some(");
                let mut digits = int_chars(code);
                line.append(&mut digits);
                append_text(&mut line, ")");
            },
            None => append_text(&mut line, "None"),
        }
        assert(line@ =~= "Exit code: "@ + exit_code_text(r.exit_code));
        push_line(&mut header, line);
        let blank: Vec<char> = Vec::new();
        push_line(&mut header, blank);
        assert(views(header@) =~= failure_header(*r));
        let ghost head = views(header@);
        let mut k: usize = 0;
        while k < lines.len()
            invariant
                k <= lines@.len(),
                views(header@) == head + views(lines@).take(k as int),
            decreases lines@.len() - k,
        {
            let mut copy: Vec<char> = Vec::new();
            let mut j: usize = 0;
            while j < lines[k].len()
                invariant
                    k < lines@.len(),
                    j <= lines@[k as int]@.len(),
                    copy@ == lines@[k as int]@.take(j as int),
                decreases lines@[k as int]@.len() - j,
            {
                copy.push(lines[k][j]);
                assert(copy@ =~= lines@[k as int]@.take(j + 1));
                j = j + 1;
            }
            assert(copy@ =~= lines@[k as int]@);
            push_line(&mut header, copy);
            assert(views(header@) =~= head + views(lines@).take(k + 1));
            k = k + 1;
        }
        assert(views(lines@).take(lines@.len() as int) =~= views(lines@));
        let described = join_chars(&header, sep.as_slice());
        let description = clean_chars(described.as_slice());
        let cleaned_message = clean_chars(message.as_slice());
        Some(
            JunitFailure {
                message: string_of(cleaned_message.as_slice()),
                description: string_of(description.as_slice()),
            },
        )
    };
    let classname = xml_sanitize(r.execution.as_str());
    JunitCase {
        name: string_of(name.as_slice()),
        classname,
        system_out: string_of(system_out.as_slice()),
        failure,
    }
}

} // verus!
