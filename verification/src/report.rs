//! The Markdown report of a set of runs, and the one-line CLI summary.
//!
//! The report opens with a pass count and a table with one row per run,
//! followed by one collapsible section per run listing its assertions and
//! steps. A run's evidence column links the artifacts it produced, in a fixed
//! order, or shows `-` when there are none.
use vstd::prelude::*;
use crate::result::{AssertionResult, RunRecord, StepResult};
use crate::text::{chars_of, decimal, join, join_chars, lemma_views_push, push_decimal, string_of, views};
use crate::config::{index_of_key, json_view, lemma_members_view, member_index, Json, JsonView};
use crate::text::{lemma_string_seqs_push, owned, push_str, str_eq, string_seqs};

verus! {

broadcast use vstd::string::group_string_axioms;

/// `PASS` or `FAIL`.
pub open spec fn mark(passed: bool) -> Seq<char> {
    if passed {
        "PASS"@
    } else {
        "FAIL"@
    }
}

/// The artifacts as (name, path) texts.
pub open spec fn artifact_texts(a: Seq<(String, String)>) -> Seq<(Seq<char>, Seq<char>)> {
    Seq::new(a.len(), |i: int| (a[i].0@, a[i].1@))
}

/// The path of the first artifact named `k`.
pub open spec fn artifact_path(a: Seq<(Seq<char>, Seq<char>)>, k: Seq<char>) -> Option<Seq<char>>
    decreases a.len(),
{
    if a.len() == 0 {
        None
    } else if a[0].0 == k {
        Some(a[0].1)
    } else {
        artifact_path(a.drop_first(), k)
    }
}

/// The artifact names the evidence column links, in order.
pub open spec fn evidence_order() -> Seq<Seq<char>> {
    seq![
        "screenshot"@,
        "visual_diff"@,
        "visual_baseline"@,
        "video"@,
        "cast"@,
        "screen_text"@,
        "step_screenshots"@,
    ]
}

/// `[name](path)` for each of `keys` that has an artifact.
pub open spec fn links_for(keys: Seq<Seq<char>>, a: Seq<(Seq<char>, Seq<char>)>) -> Seq<Seq<char>>
    decreases keys.len(),
{
    if keys.len() == 0 {
        Seq::empty()
    } else {
        let rest = links_for(keys.drop_last(), a);
        match artifact_path(a, keys.last()) {
            Some(p) => rest.push("["@ + keys.last() + "]("@ + p + ")"@),
            None => rest,
        }
    }
}

/// The evidence column: the links joined by ` / `, or `-`.
pub open spec fn evidence_spec(a: Seq<(Seq<char>, Seq<char>)>) -> Seq<char> {
    let links = links_for(evidence_order(), a);
    if links.len() == 0 {
        "-"@
    } else {
        join(links, " / "@)
    }
}

fn artifact_path_exec<'a>(a: &'a [(String, String)], k: &str) -> (r: Option<&'a String>)
    ensures
        match artifact_path(artifact_texts(a@), k@) {
            Some(p) => r matches Some(s) && s@ == p,
            None => r is None,
        },
{
    let ghost all = artifact_texts(a@);
    let mut i: usize = 0;
    assert(all.skip(0) =~= all);
    while i < a.len()
        invariant
            i <= a@.len(),
            all == artifact_texts(a@),
            artifact_path(all, k@) == artifact_path(all.skip(i as int), k@),
        decreases a@.len() - i,
    {
        if crate::text::str_eq(a[i].0.as_str(), k) {
            return Some(&a[i].1);
        }
        assert(all.skip(i as int).drop_first() =~= all.skip(i + 1));
        i = i + 1;
    }
    None
}

fn append_text(v: &mut Vec<char>, s: &str)
    ensures
        final(v)@ == old(v)@ + s@,
{
    let mut c = chars_of(s);
    let ghost a = v@;
    let ghost b = c@;
    v.append(&mut c);
    assert(v@ =~= a + b);
}

/// The evidence column for a run's artifacts.
pub fn evidence_links(artifacts: &[(String, String)]) -> (s: String)
    ensures
        s@ == evidence_spec(artifact_texts(artifacts@)),
{
    let order: [&str; 7] = [
        "screenshot",
        "visual_diff",
        "visual_baseline",
        "video",
        "cast",
        "screen_text",
        "step_screenshots",
    ];
    let ghost keys = evidence_order();
    let ghost a = artifact_texts(artifacts@);
    assert(order@.len() == 7);
    assert(forall|i: int| 0 <= i < 7 ==> #[trigger] order@[i]@ == keys[i]);
    let mut links: Vec<Vec<char>> = Vec::new();
    let mut k: usize = 0;
    while k < 7
        invariant
            k <= 7,
            order@.len() == 7,
            keys == evidence_order(),
            a == artifact_texts(artifacts@),
            forall|i: int| 0 <= i < 7 ==> #[trigger] order@[i]@ == keys[i],
            views(links@) == links_for(keys.take(k as int), a),
        decreases 7 - k,
    {
        let key = order[k];
        assert(keys.take(k + 1).drop_last() =~= keys.take(k as int));
        assert(keys.take(k + 1).last() == key@);
        match artifact_path_exec(artifacts, key) {
            Some(p) => {
                let mut link: Vec<char> = Vec::new();
                append_text(&mut link, "[");
                append_text(&mut link, key);
                append_text(&mut link, "](");
                append_text(&mut link, p.as_str());
                append_text(&mut link, ")");
                proof {
                    lemma_views_push(links@, link);
                }
                links.push(link);
            },
            None => {},
        }
        k = k + 1;
    }
    assert(keys.take(7) =~= keys);
    if links.len() == 0 {
        return string_of(chars_of("-").as_slice());
    }
    let sep = chars_of(" / ");
    let joined = join_chars(&links, sep.as_slice());
    string_of(joined.as_slice())
}

/// `- MARK `name` - detail` for an assertion.
pub open spec fn assertion_item(a: AssertionResult) -> Seq<char> {
    "- "@ + mark(a.passed) + " `"@ + a.name@ + "` - "@ + a.detail@
}

/// `- MARK `name` - detail` for a step.
pub open spec fn step_item(s: StepResult) -> Seq<char> {
    "- "@ + mark(s.passed) + " `"@ + s.name@ + "` - "@ + s.detail@
}

/// A run's collapsible section: its assertions, then its steps.
pub open spec fn detail_spec(r: RunRecord) -> Seq<char> {
    join(
        seq![
            "<details><summary>"@ + mark(r.passed) + " "@ + r.recipe_name@ + " ["@ + r.renderer@
                + "]</summary>"@,
            Seq::<char>::empty(),
            "### Assertions"@,
            Seq::<char>::empty(),
        ] + Seq::new(r.assertions@.len(), |i: int| assertion_item(r.assertions@[i])) + seq![
            Seq::<char>::empty(),
            "### Steps"@,
            Seq::<char>::empty(),
        ] + Seq::new(r.steps@.len(), |i: int| step_item(r.steps@[i])) + seq![
            Seq::<char>::empty(),
            "</details>"@,
        ],
        "\n"@,
    )
}

/// A run's row in the summary table.
pub open spec fn row_spec(r: RunRecord) -> Seq<char> {
    "| `"@ + r.recipe_name@ + "` | `"@ + r.renderer@ + "` | `"@ + r.priority@ + "` | `"@
        + r.execution@ + "` | "@ + mark(r.passed) + " | "@ + r.score_text@ + " | "@
        + evidence_spec(artifact_texts(r.artifacts@)) + " |"@
}

/// How many of the runs passed.
pub open spec fn passed_count(rs: Seq<RunRecord>) -> nat
    decreases rs.len(),
{
    if rs.len() == 0 {
        0
    } else {
        passed_count(rs.drop_last()) + if rs.last().passed {
            1nat
        } else {
            0nat
        }
    }
}

/// The Markdown report: the pass count, the table, then each run's section,
/// ending with a newline.
pub open spec fn markdown_spec(rs: Seq<RunRecord>) -> Seq<char> {
    join(
        seq![
            "# TUI Verification - "@ + decimal(passed_count(rs)) + "/"@ + decimal(rs.len())
                + " Passed"@,
            Seq::<char>::empty(),
            "| Recipe | Renderer | Priority | Execution | Result | Score | Evidence |"@,
            "| --- | --- | --- | --- | --- | --- | --- |"@,
        ] + Seq::new(rs.len(), |i: int| row_spec(rs[i])) + Seq::new(
            rs.len(),
            |i: int| seq![Seq::<char>::empty(), detail_spec(rs[i])],
        ).flatten(),
        "\n"@,
    ) + "\n"@
}

fn item_text(passed: bool, name: &str, detail: &str) -> (t: Vec<char>)
    ensures
        t@ == "- "@ + mark(passed) + " `"@ + name@ + "` - "@ + detail@,
{
    let mut v: Vec<char> = Vec::new();
    append_text(&mut v, "- ");
    append_text(&mut v, if passed { "PASS" } else { "FAIL" });
    append_text(&mut v, " `");
    append_text(&mut v, name);
    append_text(&mut v, "` - ");
    append_text(&mut v, detail);
    v
}

fn detail_markdown(r: &RunRecord) -> (s: Vec<char>)
    ensures
        s@ == detail_spec(*r),
{
    let mut lines: Vec<Vec<char>> = Vec::new();
    let mut summary: Vec<char> = Vec::new();
    append_text(&mut summary, "<details><summary>");
    append_text(&mut summary, if r.passed { "PASS" } else { "FAIL" });
    append_text(&mut summary, " ");
    append_text(&mut summary, r.recipe_name.as_str());
    append_text(&mut summary, " [");
    append_text(&mut summary, r.renderer.as_str());
    append_text(&mut summary, "]</summary>");
    lines.push(summary);
    lines.push(Vec::new());
    lines.push(chars_of("### Assertions"));
    lines.push(Vec::new());
    let ghost head = seq![
        "<details><summary>"@ + mark(r.passed) + " "@ + r.recipe_name@ + " ["@ + r.renderer@
            + "]</summary>"@,
        Seq::<char>::empty(),
        "### Assertions"@,
        Seq::<char>::empty(),
    ];
    assert(views(lines@) =~= head);
    let ghost items = Seq::new(r.assertions@.len(), |i: int| assertion_item(r.assertions@[i]));
    let mut k: usize = 0;
    while k < r.assertions.len()
        invariant
            k <= r.assertions@.len(),
            items == Seq::new(r.assertions@.len(), |i: int| assertion_item(r.assertions@[i])),
            views(lines@) == head + items.take(k as int),
        decreases r.assertions@.len() - k,
    {
        let a = &r.assertions[k];
        let line = item_text(a.passed, a.name.as_str(), a.detail.as_str());
        proof {
            lemma_views_push(lines@, line);
        }
        lines.push(line);
        assert(views(lines@) =~= head + items.take(k + 1));
        k = k + 1;
    }
    assert(items.take(r.assertions@.len() as int) =~= items);
    lines.push(Vec::new());
    lines.push(chars_of("### Steps"));
    lines.push(Vec::new());
    let ghost middle = head + items + seq![Seq::<char>::empty(), "### Steps"@, Seq::<char>::empty()];
    assert(views(lines@) =~= middle);
    let ghost steps = Seq::new(r.steps@.len(), |i: int| step_item(r.steps@[i]));
    let mut k: usize = 0;
    while k < r.steps.len()
        invariant
            k <= r.steps@.len(),
            steps == Seq::new(r.steps@.len(), |i: int| step_item(r.steps@[i])),
            views(lines@) == middle + steps.take(k as int),
        decreases r.steps@.len() - k,
    {
        let st = &r.steps[k];
        let line = item_text(st.passed, st.name.as_str(), st.detail.as_str());
        proof {
            lemma_views_push(lines@, line);
        }
        lines.push(line);
        assert(views(lines@) =~= middle + steps.take(k + 1));
        k = k + 1;
    }
    assert(steps.take(r.steps@.len() as int) =~= steps);
    lines.push(Vec::new());
    lines.push(chars_of("</details>"));
    assert(views(lines@) =~= middle + steps + seq![Seq::<char>::empty(), "</details>"@]);
    let sep = chars_of("\n");
    join_chars(&lines, sep.as_slice())
}

fn row_markdown(r: &RunRecord) -> (s: Vec<char>)
    ensures
        s@ == row_spec(*r),
{
    let mut v: Vec<char> = Vec::new();
    append_text(&mut v, "| `");
    append_text(&mut v, r.recipe_name.as_str());
    append_text(&mut v, "` | `");
    append_text(&mut v, r.renderer.as_str());
    append_text(&mut v, "` | `");
    append_text(&mut v, r.priority.as_str());
    append_text(&mut v, "` | `");
    append_text(&mut v, r.execution.as_str());
    append_text(&mut v, "` | ");
    append_text(&mut v, if r.passed { "PASS" } else { "FAIL" });
    append_text(&mut v, " | ");
    append_text(&mut v, r.score_text.as_str());
    append_text(&mut v, " | ");
    let evidence = evidence_links(r.artifacts.as_slice());
    append_text(&mut v, evidence.as_str());
    append_text(&mut v, " |");
    v
}

fn count_passed(rs: &[RunRecord]) -> (n: u64)
    ensures
        n == passed_count(rs@),
{
    let mut n: u64 = 0;
    let mut i: usize = 0;
    while i < rs.len()
        invariant
            i <= rs@.len(),
            n == passed_count(rs@.take(i as int)),
            n <= i,
        decreases rs@.len() - i,
    {
        assert(rs@.take(i + 1).drop_last() =~= rs@.take(i as int));
        if rs[i].passed {
            n = n + 1;
        }
        i = i + 1;
    }
    assert(rs@.take(rs@.len() as int) =~= rs@);
    n
}

/// The Markdown report of `results`: a pass count, a table with one row per
/// run, then each run's section listing its assertions and steps.
pub fn generate_markdown(results: &[RunRecord]) -> (s: String)
    ensures
        s@ == markdown_spec(results@),
{
    let mut lines: Vec<Vec<char>> = Vec::new();
    let mut title: Vec<char> = Vec::new();
    append_text(&mut title, "# TUI Verification - ");
    push_decimal(&mut title, count_passed(results));
    append_text(&mut title, "/");
    push_decimal(&mut title, results.len() as u64);
    append_text(&mut title, " Passed");
    lines.push(title);
    lines.push(Vec::new());
    lines.push(chars_of("| Recipe | Renderer | Priority | Execution | Result | Score | Evidence |"));
    lines.push(chars_of("| --- | --- | --- | --- | --- | --- | --- |"));
    let ghost rs = results@;
    let ghost head = seq![
        "# TUI Verification - "@ + decimal(passed_count(rs)) + "/"@ + decimal(rs.len())
            + " Passed"@,
        Seq::<char>::empty(),
        "| Recipe | Renderer | Priority | Execution | Result | Score | Evidence |"@,
        "| --- | --- | --- | --- | --- | --- | --- |"@,
    ];
    assert(views(lines@) =~= head);
    let ghost rows = Seq::new(rs.len(), |i: int| row_spec(rs[i]));
    let mut k: usize = 0;
    while k < results.len()
        invariant
            k <= rs.len(),
            rs == results@,
            rows == Seq::new(rs.len(), |i: int| row_spec(rs[i])),
            views(lines@) == head + rows.take(k as int),
        decreases rs.len() - k,
    {
        let line = row_markdown(&results[k]);
        proof {
            lemma_views_push(lines@, line);
        }
        lines.push(line);
        assert(views(lines@) =~= head + rows.take(k + 1));
        k = k + 1;
    }
    assert(rows.take(rs.len() as int) =~= rows);
    let ghost sections = Seq::new(rs.len(), |i: int| seq![Seq::<char>::empty(), detail_spec(rs[i])]);
    let mut k: usize = 0;
    while k < results.len()
        invariant
            k <= rs.len(),
            rs == results@,
            sections == Seq::new(rs.len(), |i: int| seq![Seq::<char>::empty(), detail_spec(rs[i])]),
            views(lines@) == head + rows + sections.take(k as int).flatten(),
        decreases rs.len() - k,
    {
        let section = detail_markdown(&results[k]);
        let blank: Vec<char> = Vec::new();
        proof {
            lemma_views_push(lines@, blank);
        }
        lines.push(blank);
        proof {
            lemma_views_push(lines@, section);
            sections.take(k as int).lemma_flatten_push(sections[k as int]);
            assert(sections.take(k + 1) =~= sections.take(k as int).push(sections[k as int]));
        }
        lines.push(section);
        assert(views(lines@) =~= head + rows + sections.take(k + 1).flatten());
        k = k + 1;
    }
    assert(sections.take(rs.len() as int) =~= sections);
    let sep = chars_of("\n");
    let mut out = join_chars(&lines, sep.as_slice());
    append_text(&mut out, "\n");
    string_of(out.as_slice())
}

/// The report of a single run.
pub fn generate_markdown_single(result: &RunRecord) -> (s: String)
    ensures
        s@ == markdown_spec(seq![*result]),
{
    let one = std::slice::from_ref(result);
    assert(one@ =~= seq![*result]);
    generate_markdown(one)
}

/// `core::slice::from_ref` (std): a slice of length one holding `s`, without
/// copying it.
pub assume_specification<T>[ core::slice::from_ref::<T> ](s: &T) -> (r: &[T])
    ensures
        r@ == seq![*s],
;

/// `X/Y passed`.
pub fn cli_summary(results: &[RunRecord]) -> (s: String)
    ensures
        s@ == decimal(passed_count(results@)) + "/"@ + decimal(results@.len()) + " passed"@,
{
    let mut v: Vec<char> = Vec::new();
    push_decimal(&mut v, count_passed(results));
    append_text(&mut v, "/");
    push_decimal(&mut v, results.len() as u64);
    append_text(&mut v, " passed");
    string_of(v.as_slice())
}

/// What a recipe's `timeout_seconds` reads as. The test on the number is
/// made by the caller, since the library holds no floating-point value: no
/// number there, a positive finite number, or any other number together with
/// the text it is shown by.
pub enum TimeoutReading {
    NoNumber,
    Positive,
    NotPositive(String),
}

/// The member `k` of `j`, when `j` is an object that has one.
pub open spec fn field_of(j: JsonView, k: Seq<char>) -> Option<JsonView> {
    match j {
        JsonView::Object(ms) => if member_index(ms, k) >= 0 {
            Some(ms[member_index(ms, k)].1)
        } else {
            None
        },
        _ => None,
    }
}

/// `msg` alone when `b` holds, else nothing.
pub open spec fn one_if(b: bool, msg: Seq<char>) -> Seq<Seq<char>> {
    if b {
        seq![msg]
    } else {
        Seq::empty()
    }
}

/// A count given as the number zero. A JSON number reads as the unsigned
/// integer 0 exactly when its text is `0`: a zero written with a fraction or
/// an exponent, or with a sign, is held as a floating-point number and shown
/// as `0.0` or `-0.0`.
pub open spec fn is_zero_count(f: Option<JsonView>) -> bool {
    f == Some(JsonView::Number("0"@))
}

/// The problems of a recipe document, in order: `name` not a string,
/// `command` missing or its `argv` not an array, a `timeout_seconds` that is
/// not positive, and `cols` or `rows` given as zero.
pub open spec fn recipe_json_errors(value: JsonView, timeout: TimeoutReading) -> Seq<Seq<char>> {
    one_if(!(field_of(value, "name"@) matches Some(JsonView::Str(_))), "missing required field: name"@)
        + match field_of(value, "command"@) {
        None => seq!["missing required field: command"@],
        Some(c) => one_if(
            !(field_of(c, "argv"@) matches Some(JsonView::Array(_))),
            "missing required field: command.argv"@,
        ),
    } + match timeout {
        TimeoutReading::NotPositive(v) => seq!["timeout_seconds must be > 0, got "@ + v@],
        _ => Seq::empty(),
    } + one_if(is_zero_count(field_of(value, "cols"@)), "cols must be > 0"@) + one_if(
        is_zero_count(field_of(value, "rows"@)),
        "rows must be > 0"@,
    )
}

pub(crate) fn field_exec<'a>(j: &'a Json, k: &str) -> (r: Option<&'a Json>)
    ensures
        match r {
            Some(x) => field_of(json_view(*j), k@) == Some(json_view(*x)),
            None => field_of(json_view(*j), k@) is None,
        },
{
    match j {
        Json::Object(members) => {
            proof {
                lemma_members_view(members@);
            }
            match index_of_key(members, k) {
                Some(i) => Some(&members[i].1),
                None => None,
            }
        },
        _ => None,
    }
}

fn is_zero_count_exec(f: Option<&Json>) -> (r: bool)
    ensures
        r == is_zero_count(match f {
            Some(x) => Some(json_view(*x)),
            None => None,
        }),
{
    match f {
        Some(Json::Number(t)) => str_eq(t.as_str(), "0"),
        _ => false,
    }
}

fn push_error(out: &mut Vec<String>, msg: String)
    ensures
        string_seqs(final(out)@) == string_seqs(old(out)@).push(msg@),
{
    proof {
        lemma_string_seqs_push(out@, msg);
    }
    out.push(msg);
}

/// The problems of a recipe document, one message each; empty when it has a
/// string `name`, a `command` whose `argv` is an array, and no count or
/// timeout out of range.
pub fn validate_recipe_json(value: &Json, timeout: &TimeoutReading) -> (errors: Vec<String>)
    ensures
        string_seqs(errors@) == recipe_json_errors(json_view(*value), *timeout),
{
    let ghost v = json_view(*value);
    let mut out: Vec<String> = Vec::new();
    assert(string_seqs(out@) =~= Seq::<Seq<char>>::empty());
    let name_ok = match field_exec(value, "name") {
        Some(Json::Str(_)) => true,
        _ => false,
    };
    if !name_ok {
        push_error(&mut out, owned("missing required field: name"));
    }
    let ghost e1 = string_seqs(out@);
    assert(e1 =~= one_if(!(field_of(v, "name"@) matches Some(JsonView::Str(_))), "missing required field: name"@));
    match field_exec(value, "command") {
        None => {
            push_error(&mut out, owned("missing required field: command"));
        },
        Some(cmd) => {
            let argv_ok = match field_exec(cmd, "argv") {
                Some(Json::Array(_)) => true,
                _ => false,
            };
            if !argv_ok {
                push_error(&mut out, owned("missing required field: command.argv"));
            }
        },
    }
    let ghost e2 = string_seqs(out@);
    assert(e2 =~= e1 + match field_of(v, "command"@) {
        None => seq!["missing required field: command"@],
        Some(c) => one_if(
            !(field_of(c, "argv"@) matches Some(JsonView::Array(_))),
            "missing required field: command.argv"@,
        ),
    });
    match timeout {
        TimeoutReading::NotPositive(shown) => {
            let mut m = owned("timeout_seconds must be > 0, got ");
            push_str(&mut m, shown.as_str());
            push_error(&mut out, m);
        },
        _ => {},
    }
    let ghost e3 = string_seqs(out@);
    assert(e3 =~= e2 + match *timeout {
        TimeoutReading::NotPositive(s) => seq!["timeout_seconds must be > 0, got "@ + s@],
        _ => Seq::<Seq<char>>::empty(),
    });
    if is_zero_count_exec(field_exec(value, "cols")) {
        push_error(&mut out, owned("cols must be > 0"));
    }
    let ghost e4 = string_seqs(out@);
    assert(e4 =~= e3 + one_if(is_zero_count(field_of(v, "cols"@)), "cols must be > 0"@));
    if is_zero_count_exec(field_exec(value, "rows")) {
        push_error(&mut out, owned("rows must be > 0"));
    }
    assert(string_seqs(out@) =~= e4 + one_if(is_zero_count(field_of(v, "rows"@)), "rows must be > 0"@));
    out
}

proof fn lemma_join_concat(a: Seq<Seq<char>>, b: Seq<Seq<char>>, sep: Seq<char>)
    requires
        a.len() > 0,
        b.len() > 0,
    ensures
        join(a + b, sep) == join(a, sep) + sep + join(b, sep),
    decreases b.len(),
{
    if b.len() == 1 {
        assert((a + b).drop_last() =~= a);
        assert((a + b).last() == b[0]);
    } else {
        lemma_join_concat(a, b.drop_last(), sep);
        assert((a + b).drop_last() =~= a + b.drop_last());
        assert((a + b).last() == b.last());
        assert(join(a, sep) + sep + join(b.drop_last(), sep) + sep + b.last() =~= join(a, sep) + sep + (
        join(b.drop_last(), sep) + sep + b.last()));
    }
}

/// The report opens with its table, one row per run in the order given: the
/// title with the pass count, a blank line, the header and its rule, then for
/// the i-th run a row with its recipe name, renderer, priority, execution,
/// PASS or FAIL mark, score and evidence links; the run sections follow.
pub proof fn lemma_the_table_has_one_row_per_run_in_order(rs: Seq<RunRecord>)
    ensures
        join(
            seq![
                "# TUI Verification - "@ + decimal(passed_count(rs)) + "/"@ + decimal(rs.len())
                    + " Passed"@,
                Seq::<char>::empty(),
                "| Recipe | Renderer | Priority | Execution | Result | Score | Evidence |"@,
                "| --- | --- | --- | --- | --- | --- | --- |"@,
            ] + Seq::new(
                rs.len(),
                |i: int|
                    "| `"@ + rs[i].recipe_name@ + "` | `"@ + rs[i].renderer@ + "` | `"@
                        + rs[i].priority@ + "` | `"@ + rs[i].execution@ + "` | "@ + (if rs[i].passed {
                        "PASS"@
                    } else {
                        "FAIL"@
                    }) + " | "@ + rs[i].score_text@ + " | "@ + evidence_spec(artifact_texts(rs[i].artifacts@))
                        + " |"@,
            ),
            "\n"@,
        ).is_prefix_of(markdown_spec(rs)),
{
    let head = seq![
        "# TUI Verification - "@ + decimal(passed_count(rs)) + "/"@ + decimal(rs.len()) + " Passed"@,
        Seq::<char>::empty(),
        "| Recipe | Renderer | Priority | Execution | Result | Score | Evidence |"@,
        "| --- | --- | --- | --- | --- | --- | --- |"@,
    ];
    let rows = Seq::new(rs.len(), |i: int| row_spec(rs[i]));
    let spelled = Seq::new(
        rs.len(),
        |i: int|
            "| `"@ + rs[i].recipe_name@ + "` | `"@ + rs[i].renderer@ + "` | `"@ + rs[i].priority@
                + "` | `"@ + rs[i].execution@ + "` | "@ + (if rs[i].passed {
                "PASS"@
            } else {
                "FAIL"@
            }) + " | "@ + rs[i].score_text@ + " | "@ + evidence_spec(artifact_texts(rs[i].artifacts@))
                + " |"@,
    );
    assert(rows =~= spelled);
    let details = Seq::new(rs.len(), |i: int| seq![Seq::<char>::empty(), detail_spec(rs[i])]).flatten();
    let table = join(head + rows, "\n"@);
    if rs.len() == 0 {
        assert(details =~= Seq::<Seq<char>>::empty()) by {
            assert(Seq::new(rs.len(), |i: int| seq![Seq::<char>::empty(), detail_spec(rs[i])])
                =~= Seq::<Seq<Seq<char>>>::empty());
        }
        assert(head + rows + details =~= head + rows);
        assert(markdown_spec(rs) == table + "\n"@);
    } else {
        let parts = Seq::new(rs.len(), |i: int| seq![Seq::<char>::empty(), detail_spec(rs[i])]);
        assert(details == parts.first() + parts.drop_first().flatten());
        assert(parts.first().len() == 2);
        assert(details.len() > 0);
        assert(head + rows + details =~= (head + rows) + details);
        lemma_join_concat(head + rows, details, "\n"@);
        assert(markdown_spec(rs) == table + ("\n"@ + join(details, "\n"@) + "\n"@));
    }
}

} // verus!
