//! Rendering of verification, explain, lint and cost reports.
//!
//! The renderers here produce the human-readable formats.  The JSON formats
//! serialise the report types themselves and are produced outside this
//! library; for them the dispatchers return `None`.
use vstd::prelude::*;
use crate::spec_core::report::{
    Evidence, LintDiagnostic, LintReport, ScenarioResult, Severity, StepVerdict, Verdict,
    VerificationReport, VerificationSummary,
};
use crate::text::{
    concat_map, contains, decimal, digit, infix, item_lines, join, lemma_concat_map_all, lemma_concat_map_step,
    push_char, push_decimal, push_item_lines, push_u64, push_usize, views,
};

verus! {

/// Output format.
#[derive(Debug, Clone, Copy, PartialEq, Eq, Structural)]
pub enum OutputFormat {
    Text,
    Json,
    Markdown,
    Compact,
    Diagnostic,
}

/// `{:.2}` of a value given in hundredths.
pub open spec fn hundredths_text(h: nat) -> Seq<char> {
    decimal(h / 100) + seq!['.', digit((h % 100) / 10), digit(h % 10)]
}

/// `{}` of a bool.
pub open spec fn bool_text(b: bool) -> Seq<char> {
    if b { "true"@ } else { "false"@ }
}

/// A line `pre value post` when the value is present.
pub open spec fn opt_line(pre: Seq<char>, o: Option<String>, post: Seq<char>) -> Seq<char> {
    match o {
        Some(v) => pre + v@ + post,
        None => seq![],
    }
}

fn digit_char(d: u128) -> (c: char)
    requires
        d < 10,
    ensures
        c == digit(d as nat),
{
    if d == 0 { '0' }
    else if d == 1 { '1' }
    else if d == 2 { '2' }
    else if d == 3 { '3' }
    else if d == 4 { '4' }
    else if d == 5 { '5' }
    else if d == 6 { '6' }
    else if d == 7 { '7' }
    else if d == 8 { '8' }
    else { '9' }
}

fn push_hundredths(out: &mut String, h: u64)
    ensures
        final(out)@ == old(out)@ + hundredths_text(h as nat),
{
    push_decimal(out, (h / 100) as u128);
    push_char(out, '.');
    push_char(out, digit_char(((h % 100) / 10) as u128));
    push_char(out, digit_char((h % 10) as u128));
    assert(out@ =~= old(out)@ + hundredths_text(h as nat));
}

fn push_bool(out: &mut String, b: bool)
    ensures
        final(out)@ == old(out)@ + bool_text(b),
{
    if b {
        out.append("true");
    } else {
        out.append("false");
    }
}

fn push_opt_line(out: &mut String, pre: &str, o: &Option<String>, post: &str)
    ensures
        final(out)@ == old(out)@ + opt_line(pre@, *o, post@),
{
    match o {
        Some(v) => {
            out.append(pre);
            out.append(v.as_str());
            out.append(post);
        },
        None => {},
    }
}

// === Verification text ===

/// The scenario verdict marker of the text formats.
pub open spec fn verdict_tag(v: Verdict) -> Seq<char> {
    match v {
        Verdict::Pass => "[PASS]"@,
        Verdict::Fail => "[FAIL]"@,
        Verdict::Skip => "[SKIP]"@,
        Verdict::Uncertain => "[????]"@,
        Verdict::PendingReview => "[REVIEW]"@,
    }
}

fn verdict_tag_exec(v: Verdict) -> (s: &'static str)
    ensures
        s@ == verdict_tag(v),
{
    match v {
        Verdict::Pass => "[PASS]",
        Verdict::Fail => "[FAIL]",
        Verdict::Skip => "[SKIP]",
        Verdict::Uncertain => "[????]",
        Verdict::PendingReview => "[REVIEW]",
    }
}

/// The step verdict marker of the text format.
pub open spec fn step_mark(v: Verdict) -> Seq<char> {
    match v {
        Verdict::Pass => "+"@,
        Verdict::Fail => "x"@,
        Verdict::Skip => "-"@,
        Verdict::Uncertain => "?"@,
        Verdict::PendingReview => "R"@,
    }
}

fn step_mark_exec(v: Verdict) -> (s: &'static str)
    ensures
        s@ == step_mark(v),
{
    match v {
        Verdict::Pass => "+",
        Verdict::Fail => "x",
        Verdict::Skip => "-",
        Verdict::Uncertain => "?",
        Verdict::PendingReview => "R",
    }
}

/// One step in the text format; failed steps give their reason.
pub open spec fn step_text(s: StepVerdict) -> Seq<char> {
    "    "@ + step_mark(s.verdict) + " "@ + s.step_text@ + "\n"@ + (if s.verdict == Verdict::Fail {
        "      reason: "@ + s.reason@ + "\n"@
    } else {
        seq![]
    })
}

/// One piece of evidence in the text format.
pub open spec fn evidence_text(e: Evidence) -> Seq<char> {
    match e {
        Evidence::CodeSnippet { file, line, content } => "    > "@ + file@ + ":"@ + decimal(line as nat) + ": "@ + content@ + "\n"@,
        Evidence::PatternMatch { pattern, matched, locations } => "    > pattern '"@ + pattern@ + "': matched="@ + bool_text(matched)
            + ", locations="@ + join(views(locations@), ", "@) + "\n"@,
        Evidence::TestOutput { test_name, passed, package, level, test_double, targets, .. } => "    > test '"@ + test_name@
            + "': passed="@ + bool_text(passed) + "\n"@ + opt_line("      package="@, package, "\n"@) + opt_line(
            "      level="@,
            level,
            "\n"@,
        ) + opt_line("      test_double="@, test_double, "\n"@) + opt_line("      targets="@, targets, "\n"@),
        Evidence::AiAnalysis { model, confidence, reasoning } => "    > ai '"@ + model@ + "': confidence="@ + hundredths_text(
            confidence as nat,
        ) + ", reasoning="@ + reasoning@ + "\n"@,
    }
}

/// One scenario result in the text format.
pub open spec fn result_text(r: ScenarioResult) -> Seq<char> {
    "  "@ + verdict_tag(r.verdict) + " "@ + r.scenario_name@ + "\n"@ + concat_map(
        r.step_results@,
        |s: StepVerdict| step_text(s),
    ) + concat_map(r.evidence@, |e: Evidence| evidence_text(e)) + "\n"@
}

/// The counts line of the text format.
pub open spec fn counts_text(s: VerificationSummary) -> Seq<char> {
    "Results: "@ + decimal(s.total as nat) + " total, "@ + decimal(s.passed as nat) + " passed, "@ + decimal(
        s.failed as nat,
    ) + " failed, "@ + decimal(s.skipped as nat) + " skipped, "@ + decimal(s.uncertain as nat)
        + " uncertain, "@ + decimal(s.pending_review as nat) + " pending_review\n\n"@
}

/// The text format of a verification report.
pub open spec fn verification_text(r: VerificationReport, rate: Seq<char>) -> Seq<char> {
    "Spec: "@ + r.spec_name@ + "\n"@ + counts_text(r.summary) + concat_map(
        r.results@,
        |x: ScenarioResult| result_text(x),
    ) + "Pass rate: "@ + rate + "%\n"@
}

fn push_step_text(out: &mut String, s: &StepVerdict)
    ensures
        final(out)@ == old(out)@ + step_text(*s),
{
    out.append("    ");
    out.append(step_mark_exec(s.verdict));
    out.append(" ");
    out.append(s.step_text.as_str());
    out.append("\n");
    if s.verdict == Verdict::Fail {
        out.append("      reason: ");
        out.append(s.reason.as_str());
        out.append("\n");
    }
}

fn push_joined(out: &mut String, items: &Vec<String>, sep: &str)
    ensures
        final(out)@ == old(out)@ + join(views(items@), sep@),
{
    let ghost vs = views(items@);
    let ghost o0 = out@;
    let mut i: usize = 0;
    while i < items.len()
        invariant
            vs == views(items@),
            0 <= i <= items@.len(),
            out@ == o0 + join(vs.take(i as int), sep@),
        decreases items@.len() - i,
    {
        if i > 0 {
            out.append(sep);
        }
        out.append(items[i].as_str());
        i += 1;
        proof {
            assert(vs.take(i as int).drop_last() =~= vs.take(i - 1));
            if i == 1 {
                assert(vs.take(0) =~= Seq::<Seq<char>>::empty());
            }
        }
    }
    assert(vs.take(items@.len() as int) =~= vs);
}

fn push_evidence_text(out: &mut String, e: &Evidence)
    ensures
        final(out)@ == old(out)@ + evidence_text(*e),
{
    match e {
        Evidence::CodeSnippet { file, line, content } => {
            out.append("    > ");
            out.append(file.as_str());
            out.append(":");
            push_usize(out, *line);
            out.append(": ");
            out.append(content.as_str());
            out.append("\n");
        },
        Evidence::PatternMatch { pattern, matched, locations } => {
            out.append("    > pattern '");
            out.append(pattern.as_str());
            out.append("': matched=");
            push_bool(out, *matched);
            out.append(", locations=");
            push_joined(out, locations, ", ");
            out.append("\n");
        },
        Evidence::TestOutput { test_name, passed, package, level, test_double, targets, .. } => {
            out.append("    > test '");
            out.append(test_name.as_str());
            out.append("': passed=");
            push_bool(out, *passed);
            out.append("\n");
            push_opt_line(out, "      package=", package, "\n");
            push_opt_line(out, "      level=", level, "\n");
            push_opt_line(out, "      test_double=", test_double, "\n");
            push_opt_line(out, "      targets=", targets, "\n");
        },
        Evidence::AiAnalysis { model, confidence, reasoning } => {
            out.append("    > ai '");
            out.append(model.as_str());
            out.append("': confidence=");
            push_hundredths(out, *confidence);
            out.append(", reasoning=");
            out.append(reasoning.as_str());
            out.append("\n");
        },
    }
}

fn push_steps_text(out: &mut String, steps: &Vec<StepVerdict>)
    ensures
        final(out)@ == old(out)@ + concat_map(steps@, |s: StepVerdict| step_text(s)),
{
    let ghost f = |s: StepVerdict| step_text(s);
    let ghost o0 = out@;
    let mut i: usize = 0;
    while i < steps.len()
        invariant
            0 <= i <= steps@.len(),
            f == (|s: StepVerdict| step_text(s)),
            out@ == o0 + concat_map(steps@.take(i as int), f),
        decreases steps@.len() - i,
    {
        push_step_text(out, &steps[i]);
        proof { lemma_concat_map_step(steps@, f, i as int); }
        i += 1;
    }
    proof { lemma_concat_map_all(steps@, f); }
}

fn push_evidences_text(out: &mut String, evs: &Vec<Evidence>)
    ensures
        final(out)@ == old(out)@ + concat_map(evs@, |e: Evidence| evidence_text(e)),
{
    let ghost f = |e: Evidence| evidence_text(e);
    let ghost o0 = out@;
    let mut i: usize = 0;
    while i < evs.len()
        invariant
            0 <= i <= evs@.len(),
            f == (|e: Evidence| evidence_text(e)),
            out@ == o0 + concat_map(evs@.take(i as int), f),
        decreases evs@.len() - i,
    {
        push_evidence_text(out, &evs[i]);
        proof { lemma_concat_map_step(evs@, f, i as int); }
        i += 1;
    }
    proof { lemma_concat_map_all(evs@, f); }
}

fn push_result_text(out: &mut String, r: &ScenarioResult)
    ensures
        final(out)@ == old(out)@ + result_text(*r),
{
    out.append("  ");
    out.append(verdict_tag_exec(r.verdict));
    out.append(" ");
    out.append(r.scenario_name.as_str());
    out.append("\n");
    push_steps_text(out, &r.step_results);
    push_evidences_text(out, &r.evidence);
    out.append("\n");
}

fn push_counts_text(out: &mut String, s: &VerificationSummary)
    ensures
        final(out)@ == old(out)@ + counts_text(*s),
{
    out.append("Results: ");
    push_usize(out, s.total);
    out.append(" total, ");
    push_usize(out, s.passed);
    out.append(" passed, ");
    push_usize(out, s.failed);
    out.append(" failed, ");
    push_usize(out, s.skipped);
    out.append(" skipped, ");
    push_usize(out, s.uncertain);
    out.append(" uncertain, ");
    push_usize(out, s.pending_review);
    out.append(" pending_review\n\n");
}

/// The text format of a verification report.  `rate` is the pass rate in
/// percent as `{:.1}` prints `passed / total * 100` in floating point; the
/// caller renders it, floating point being outside this library.
pub fn format_verification_text(report: &VerificationReport, rate: &str) -> (s: String)
    ensures
        s@ == verification_text(*report, rate@),
{
    let mut out = String::new();
    out.append("Spec: ");
    out.append(report.spec_name.as_str());
    out.append("\n");
    push_counts_text(&mut out, &report.summary);
    let ghost f = |x: ScenarioResult| result_text(x);
    let ghost o0 = out@;
    let mut i: usize = 0;
    while i < report.results.len()
        invariant
            0 <= i <= report.results@.len(),
            f == (|x: ScenarioResult| result_text(x)),
            out@ == o0 + concat_map(report.results@.take(i as int), f),
        decreases report.results@.len() - i,
    {
        push_result_text(&mut out, &report.results[i]);
        proof { lemma_concat_map_step(report.results@, f, i as int); }
        i += 1;
    }
    proof { lemma_concat_map_all(report.results@, f); }
    out.append("Pass rate: ");
    out.append(rate);
    out.append("%\n");
    out
}


// === Compact and Markdown verification formats ===

/// The scenario marker of the compact format.
pub open spec fn compact_mark(v: Verdict) -> Seq<char> {
    match v {
        Verdict::Pass => "\u{2713}"@,
        Verdict::Fail => "\u{2717}"@,
        Verdict::Skip => "\u{2298}"@,
        Verdict::Uncertain => "?"@,
        Verdict::PendingReview => "\u{2299}"@,
    }
}

fn compact_mark_exec(v: Verdict) -> (s: &'static str)
    ensures
        s@ == compact_mark(v),
{
    match v {
        Verdict::Pass => "\u{2713}",
        Verdict::Fail => "\u{2717}",
        Verdict::Skip => "\u{2298}",
        Verdict::Uncertain => "?",
        Verdict::PendingReview => "\u{2299}",
    }
}

/// The counts of the compact format: `P/T pass, F fail, S skip`.
pub open spec fn compact_counts(s: VerificationSummary) -> Seq<char> {
    decimal(s.passed as nat) + "/"@ + decimal(s.total as nat) + " pass, "@ + decimal(s.failed as nat) + " fail, "@
        + decimal(s.skipped as nat) + " skip"@
}

/// Single-line compact summary:
/// `✓ Scenario1  ✗ Scenario2  ⊘ Scenario3  | 1/3 pass, 1 fail, 1 skip`.
pub open spec fn verification_compact(r: VerificationReport) -> Seq<char> {
    join(
        r.results@.map_values(|x: ScenarioResult| compact_mark(x.verdict) + " "@ + x.scenario_name@),
        "  "@,
    ) + "  | "@ + compact_counts(r.summary)
}

/// `s` holds no line break.
pub open spec fn single_line(s: Seq<char>) -> bool {
    forall|i: int| 0 <= i < s.len() ==> s[i] != '\n'
}

proof fn lemma_single_line_concat(a: Seq<char>, b: Seq<char>)
    requires
        single_line(a),
        single_line(b),
    ensures
        single_line(a + b),
{
    assert forall|i: int| 0 <= i < (a + b).len() implies (a + b)[i] != '\n' by {
        if i >= a.len() {
            assert((a + b)[i] == b[i - a.len()]);
        }
    }
}

proof fn lemma_decimal_single_line(n: nat)
    ensures
        single_line(decimal(n)),
    decreases n,
{
    if n >= 10 {
        lemma_decimal_single_line(n / 10);
        lemma_single_line_concat(decimal(n / 10), seq![digit(n % 10)]);
    }
}

proof fn lemma_join_single_line(parts: Seq<Seq<char>>, sep: Seq<char>)
    requires
        single_line(sep),
        forall|k: int| 0 <= k < parts.len() ==> single_line(#[trigger] parts[k]),
    ensures
        single_line(join(parts, sep)),
    decreases parts.len(),
{
    if parts.len() > 1 {
        lemma_join_single_line(parts.drop_last(), sep);
        lemma_single_line_concat(join(parts.drop_last(), sep), sep);
        lemma_single_line_concat(join(parts.drop_last(), sep) + sep, parts.last());
    } else if parts.len() == 1 {
        assert(single_line(parts[0]));
    }
}

/// The compact format is one line: it holds no line break as long as no
/// scenario name holds one.
pub proof fn law_compact_is_single_line(r: VerificationReport)
    requires
        forall|k: int| 0 <= k < r.results@.len() ==> single_line(#[trigger] r.results@[k].scenario_name@),
    ensures
        single_line(verification_compact(r)),
{
    reveal_strlit("\u{2713}");
    reveal_strlit("\u{2717}");
    reveal_strlit("\u{2298}");
    reveal_strlit("?");
    reveal_strlit("\u{2299}");
    reveal_strlit(" ");
    reveal_strlit("  ");
    reveal_strlit("  | ");
    reveal_strlit("/");
    reveal_strlit(" pass, ");
    reveal_strlit(" fail, ");
    reveal_strlit(" skip");
    let parts = r.results@.map_values(|x: ScenarioResult| compact_mark(x.verdict) + " "@ + x.scenario_name@);
    assert forall|k: int| 0 <= k < parts.len() implies single_line(#[trigger] parts[k]) by {
        let x = r.results@[k];
        assert(single_line(compact_mark(x.verdict)));
        lemma_single_line_concat(compact_mark(x.verdict), " "@);
        lemma_single_line_concat(compact_mark(x.verdict) + " "@, x.scenario_name@);
    }
    lemma_join_single_line(parts, "  "@);
    let sm = r.summary;
    lemma_decimal_single_line(sm.passed as nat);
    lemma_decimal_single_line(sm.total as nat);
    lemma_decimal_single_line(sm.failed as nat);
    lemma_decimal_single_line(sm.skipped as nat);
    let c1 = decimal(sm.passed as nat) + "/"@;
    lemma_single_line_concat(decimal(sm.passed as nat), "/"@);
    let c2 = c1 + decimal(sm.total as nat);
    lemma_single_line_concat(c1, decimal(sm.total as nat));
    let c3 = c2 + " pass, "@;
    lemma_single_line_concat(c2, " pass, "@);
    let c4 = c3 + decimal(sm.failed as nat);
    lemma_single_line_concat(c3, decimal(sm.failed as nat));
    let c5 = c4 + " fail, "@;
    lemma_single_line_concat(c4, " fail, "@);
    let c6 = c5 + decimal(sm.skipped as nat);
    lemma_single_line_concat(c5, decimal(sm.skipped as nat));
    lemma_single_line_concat(c6, " skip"@);
    assert(compact_counts(sm) == c6 + " skip"@);
    let j = join(parts, "  "@);
    lemma_single_line_concat(j, "  | "@);
    lemma_single_line_concat(j + "  | "@, compact_counts(sm));
}

/// Single-line compact summary of a verification report.
pub fn format_verification_compact(report: &VerificationReport) -> (s: String)
    ensures
        s@ == verification_compact(*report),
{
    let ghost parts = report.results@.map_values(|x: ScenarioResult| compact_mark(x.verdict) + " "@ + x.scenario_name@);
    let mut out = String::new();
    let mut i: usize = 0;
    while i < report.results.len()
        invariant
            parts == report.results@.map_values(|x: ScenarioResult| compact_mark(x.verdict) + " "@ + x.scenario_name@),
            0 <= i <= report.results@.len(),
            out@ == join(parts.take(i as int), "  "@),
        decreases report.results@.len() - i,
    {
        if i > 0 {
            out.append("  ");
        }
        let r = &report.results[i];
        out.append(compact_mark_exec(r.verdict));
        out.append(" ");
        out.append(r.scenario_name.as_str());
        i += 1;
        proof {
            assert(parts.take(i as int).drop_last() =~= parts.take(i - 1));
            if i == 1 {
                assert(parts.take(0) =~= Seq::<Seq<char>>::empty());
            }
        }
    }
    assert(parts.take(report.results@.len() as int) =~= parts);
    out.append("  | ");
    let ghost before = out@;
    push_usize(&mut out, report.summary.passed);
    out.append("/");
    push_usize(&mut out, report.summary.total);
    out.append(" pass, ");
    push_usize(&mut out, report.summary.failed);
    out.append(" fail, ");
    push_usize(&mut out, report.summary.skipped);
    out.append(" skip");
    assert(out@ =~= before + compact_counts(report.summary));
    out
}

/// The verdict marker of the Markdown formats.
pub open spec fn md_mark(v: Verdict) -> Seq<char> {
    match v {
        Verdict::Pass => "✅"@,
        Verdict::Fail => "❌"@,
        Verdict::Skip => "⏭️"@,
        Verdict::Uncertain => "❓"@,
        Verdict::PendingReview => "👁️"@,
    }
}

fn md_mark_exec(v: Verdict) -> (s: &'static str)
    ensures
        s@ == md_mark(v),
{
    match v {
        Verdict::Pass => "✅",
        Verdict::Fail => "❌",
        Verdict::Skip => "⏭️",
        Verdict::Uncertain => "❓",
        Verdict::PendingReview => "👁️",
    }
}

/// The summary table of the Markdown formats.
pub open spec fn md_summary_table(s: VerificationSummary, rate: Seq<char>) -> Seq<char> {
    "| Total | Passed | Failed | Skipped | Uncertain | Pass Rate |\n"@ + "| --- | --- | --- | --- | --- | --- |\n"@
        + "| "@ + decimal(s.total as nat) + " | "@ + decimal(s.passed as nat) + " | "@ + decimal(s.failed as nat)
        + " | "@ + decimal(s.skipped as nat) + " | "@ + decimal(s.uncertain as nat) + " | "@ + rate
        + "% |\n\n"@
}

fn push_md_summary_table(out: &mut String, s: &VerificationSummary, rate: &str)
    ensures
        final(out)@ == old(out)@ + md_summary_table(*s, rate@),
{
    out.append("| Total | Passed | Failed | Skipped | Uncertain | Pass Rate |\n");
    out.append("| --- | --- | --- | --- | --- | --- |\n");
    out.append("| ");
    push_usize(out, s.total);
    out.append(" | ");
    push_usize(out, s.passed);
    out.append(" | ");
    push_usize(out, s.failed);
    out.append(" | ");
    push_usize(out, s.skipped);
    out.append(" | ");
    push_usize(out, s.uncertain);
    out.append(" | ");
    out.append(rate);
    out.append("% |\n\n");
}

/// One scenario in the Markdown verification format.
pub open spec fn md_result(r: ScenarioResult) -> Seq<char> {
    "### "@ + md_mark(r.verdict) + " "@ + r.scenario_name@ + "\n\n"@ + concat_map(
        r.step_results@,
        |s: StepVerdict| "- "@ + md_mark(s.verdict) + " "@ + s.step_text@ + "\n"@,
    ) + "\n"@
}

/// The Markdown format of a verification report.
pub open spec fn verification_md(r: VerificationReport, rate: Seq<char>) -> Seq<char> {
    "# Verification: "@ + r.spec_name@ + "\n\n"@ + md_summary_table(r.summary, rate) + "## Scenarios\n\n"@ + concat_map(
        r.results@,
        |x: ScenarioResult| md_result(x),
    )
}

fn push_md_result(out: &mut String, r: &ScenarioResult)
    ensures
        final(out)@ == old(out)@ + md_result(*r),
{
    out.append("### ");
    out.append(md_mark_exec(r.verdict));
    out.append(" ");
    out.append(r.scenario_name.as_str());
    out.append("\n\n");
    let ghost f = |s: StepVerdict| "- "@ + md_mark(s.verdict) + " "@ + s.step_text@ + "\n"@;
    let ghost o0 = out@;
    let steps = &r.step_results;
    let mut i: usize = 0;
    while i < steps.len()
        invariant
            0 <= i <= steps@.len(),
            f == (|s: StepVerdict| "- "@ + md_mark(s.verdict) + " "@ + s.step_text@ + "\n"@),
            out@ == o0 + concat_map(steps@.take(i as int), f),
        decreases steps@.len() - i,
    {
        out.append("- ");
        out.append(md_mark_exec(steps[i].verdict));
        out.append(" ");
        out.append(steps[i].step_text.as_str());
        out.append("\n");
        proof { lemma_concat_map_step(steps@, f, i as int); }
        i += 1;
    }
    proof { lemma_concat_map_all(steps@, f); }
    out.append("\n");
}

/// The Markdown format of a verification report; `rate` as for the text format.
pub fn format_verification_md(report: &VerificationReport, rate: &str) -> (s: String)
    ensures
        s@ == verification_md(*report, rate@),
{
    let mut out = String::new();
    out.append("# Verification: ");
    out.append(report.spec_name.as_str());
    out.append("\n\n");
    push_md_summary_table(&mut out, &report.summary, rate);
    out.append("## Scenarios\n\n");
    let ghost f = |x: ScenarioResult| md_result(x);
    let ghost o0 = out@;
    let mut i: usize = 0;
    while i < report.results.len()
        invariant
            0 <= i <= report.results@.len(),
            f == (|x: ScenarioResult| md_result(x)),
            out@ == o0 + concat_map(report.results@.take(i as int), f),
        decreases report.results@.len() - i,
    {
        push_md_result(&mut out, &report.results[i]);
        proof { lemma_concat_map_step(report.results@, f, i as int); }
        i += 1;
    }
    proof { lemma_concat_map_all(report.results@, f); }
    out
}

/// Format a verification report, with the pass rate `rate` rendered by the
/// caller; `None` for the JSON formats (`Json`, `Diagnostic`), which
/// serialise the report itself.
pub fn format_verification(report: &VerificationReport, format: &OutputFormat, rate: &str) -> (s: Option<String>)
    ensures
        match *format {
            OutputFormat::Text => s matches Some(t) && t@ == verification_text(*report, rate@),
            OutputFormat::Markdown => s matches Some(t) && t@ == verification_md(*report, rate@),
            OutputFormat::Compact => s matches Some(t) && t@ == verification_compact(*report),
            OutputFormat::Json | OutputFormat::Diagnostic => s is None,
        },
{
    match format {
        OutputFormat::Text => Some(format_verification_text(report, rate)),
        OutputFormat::Markdown => Some(format_verification_md(report, rate)),
        OutputFormat::Compact => Some(format_verification_compact(report)),
        OutputFormat::Json | OutputFormat::Diagnostic => None,
    }
}


// === Lint formats ===

/// The severity marker of the lint text format.
pub open spec fn severity_tag(s: Severity) -> Seq<char> {
    match s {
        Severity::Error => "ERROR"@,
        Severity::Warning => "WARN "@,
        Severity::Info => "INFO "@,
    }
}

fn severity_tag_exec(s: Severity) -> (r: &'static str)
    ensures
        r@ == severity_tag(s),
{
    match s {
        Severity::Error => "ERROR",
        Severity::Warning => "WARN ",
        Severity::Info => "INFO ",
    }
}

/// The severity label of the lint Markdown format.
pub open spec fn severity_md(s: Severity) -> Seq<char> {
    match s {
        Severity::Error => "🔴 Error"@,
        Severity::Warning => "🟡 Warning"@,
        Severity::Info => "🔵 Info"@,
    }
}

fn severity_md_exec(s: Severity) -> (r: &'static str)
    ensures
        r@ == severity_md(s),
{
    match s {
        Severity::Error => "🔴 Error",
        Severity::Warning => "🟡 Warning",
        Severity::Info => "🔵 Info",
    }
}

/// One diagnostic in the lint text format.
pub open spec fn diag_text(d: LintDiagnostic) -> Seq<char> {
    "  ["@ + severity_tag(d.severity) + "] line "@ + decimal(d.span.start_line as nat) + ": ["@ + d.rule@ + "] "@
        + d.message@ + "\n"@ + opt_line("         suggestion: "@, d.suggestion, "\n"@)
}

/// The lint text format.
pub open spec fn lint_text(r: LintReport) -> Seq<char> {
    let q = r.quality_score;
    "Spec: "@ + r.spec_name@ + "\n"@ + "Quality: "@ + decimal(q.overall as nat) + "% (determinism: "@ + decimal(
        q.determinism as nat,
    ) + "%, testability: "@ + decimal(q.testability as nat) + "%, coverage: "@ + decimal(q.coverage as nat)
        + "%)\n\n"@ + (if r.diagnostics@.len() == 0 {
        "  No issues found.\n"@
    } else {
        concat_map(r.diagnostics@, |d: LintDiagnostic| diag_text(d))
    })
}

/// One diagnostic in the lint Markdown format.
pub open spec fn diag_md(d: LintDiagnostic) -> Seq<char> {
    "| "@ + severity_md(d.severity) + " | "@ + d.rule@ + " | "@ + decimal(d.span.start_line as nat) + " | "@
        + d.message@ + " |\n"@
}

/// The lint Markdown format.
pub open spec fn lint_md(r: LintReport) -> Seq<char> {
    let q = r.quality_score;
    "# Lint: "@ + r.spec_name@ + "\n\n"@ + "**Quality Score: "@ + decimal(q.overall as nat) + "%** (determinism: "@
        + decimal(q.determinism as nat) + "%, testability: "@ + decimal(q.testability as nat) + "%, coverage: "@
        + decimal(q.coverage as nat) + "%)\n\n"@ + (if r.diagnostics@.len() == 0 {
        "No issues found.\n"@
    } else {
        "| Severity | Rule | Line | Message |\n"@ + "| --- | --- | --- | --- |\n"@ + concat_map(
            r.diagnostics@,
            |d: LintDiagnostic| diag_md(d),
        )
    })
}

fn push_diag_text(out: &mut String, d: &LintDiagnostic)
    ensures
        final(out)@ == old(out)@ + diag_text(*d),
{
    out.append("  [");
    out.append(severity_tag_exec(d.severity));
    out.append("] line ");
    push_usize(out, d.span.start_line);
    out.append(": [");
    out.append(d.rule.as_str());
    out.append("] ");
    out.append(d.message.as_str());
    out.append("\n");
    push_opt_line(out, "         suggestion: ", &d.suggestion, "\n");
}

fn push_diag_md(out: &mut String, d: &LintDiagnostic)
    ensures
        final(out)@ == old(out)@ + diag_md(*d),
{
    out.append("| ");
    out.append(severity_md_exec(d.severity));
    out.append(" | ");
    out.append(d.rule.as_str());
    out.append(" | ");
    push_usize(out, d.span.start_line);
    out.append(" | ");
    out.append(d.message.as_str());
    out.append(" |\n");
}

/// The lint text format.
pub fn format_lint_text(report: &LintReport) -> (s: String)
    ensures
        s@ == lint_text(*report),
{
    let q = &report.quality_score;
    let mut out = String::new();
    out.append("Spec: ");
    out.append(report.spec_name.as_str());
    out.append("\n");
    out.append("Quality: ");
    push_u64(&mut out, q.overall);
    out.append("% (determinism: ");
    push_u64(&mut out, q.determinism);
    out.append("%, testability: ");
    push_u64(&mut out, q.testability);
    out.append("%, coverage: ");
    push_u64(&mut out, q.coverage);
    out.append("%)\n\n");
    let diags = &report.diagnostics;
    if diags.len() == 0 {
        out.append("  No issues found.\n");
    } else {
        let ghost f = |d: LintDiagnostic| diag_text(d);
        let ghost o0 = out@;
        let mut i: usize = 0;
        while i < diags.len()
            invariant
                0 <= i <= diags@.len(),
                f == (|d: LintDiagnostic| diag_text(d)),
                out@ == o0 + concat_map(diags@.take(i as int), f),
            decreases diags@.len() - i,
        {
            push_diag_text(&mut out, &diags[i]);
            proof { lemma_concat_map_step(diags@, f, i as int); }
            i += 1;
        }
        proof { lemma_concat_map_all(diags@, f); }
    }
    out
}

/// The lint Markdown format.
pub fn format_lint_md(report: &LintReport) -> (s: String)
    ensures
        s@ == lint_md(*report),
{
    let q = &report.quality_score;
    let mut out = String::new();
    out.append("# Lint: ");
    out.append(report.spec_name.as_str());
    out.append("\n\n");
    out.append("**Quality Score: ");
    push_u64(&mut out, q.overall);
    out.append("%** (determinism: ");
    push_u64(&mut out, q.determinism);
    out.append("%, testability: ");
    push_u64(&mut out, q.testability);
    out.append("%, coverage: ");
    push_u64(&mut out, q.coverage);
    out.append("%)\n\n");
    let diags = &report.diagnostics;
    if diags.len() == 0 {
        out.append("No issues found.\n");
    } else {
        out.append("| Severity | Rule | Line | Message |\n");
        out.append("| --- | --- | --- | --- |\n");
        let ghost f = |d: LintDiagnostic| diag_md(d);
        let ghost o0 = out@;
        let mut i: usize = 0;
        while i < diags.len()
            invariant
                0 <= i <= diags@.len(),
                f == (|d: LintDiagnostic| diag_md(d)),
                out@ == o0 + concat_map(diags@.take(i as int), f),
            decreases diags@.len() - i,
        {
            push_diag_md(&mut out, &diags[i]);
            proof { lemma_concat_map_step(diags@, f, i as int); }
            i += 1;
        }
        proof { lemma_concat_map_all(diags@, f); }
    }
    out
}

/// Format a lint report; `None` for `Json`, which serialises the report itself.
pub fn format_lint(report: &LintReport, format: &OutputFormat) -> (s: Option<String>)
    ensures
        match *format {
            OutputFormat::Text | OutputFormat::Compact | OutputFormat::Diagnostic => s matches Some(t) && t@
                == lint_text(*report),
            OutputFormat::Markdown => s matches Some(t) && t@ == lint_md(*report),
            OutputFormat::Json => s is None,
        },
{
    match format {
        OutputFormat::Text | OutputFormat::Compact | OutputFormat::Diagnostic => Some(format_lint_text(report)),
        OutputFormat::Json => None,
        OutputFormat::Markdown => Some(format_lint_md(report)),
    }
}


// === Explain formats ===

/// Lightweight input for the explain renderer, built by callers from their
/// own task contract.
#[derive(Debug, Clone)]
pub struct ExplainInput {
    pub name: String,
    pub intent: String,
    pub must: Vec<String>,
    pub must_not: Vec<String>,
    pub decisions: Vec<String>,
    pub allowed_changes: Vec<String>,
    pub forbidden: Vec<String>,
    pub out_of_scope: Vec<String>,
}

/// A titled list that is left out when empty.
pub open spec fn list_block(title: Seq<char>, items: Seq<String>, pre: Seq<char>, post: Seq<char>, tail: Seq<char>) -> Seq<char> {
    if items.len() == 0 {
        seq![]
    } else {
        title + item_lines(items, pre, post) + tail
    }
}

fn push_list_block(out: &mut String, title: &str, items: &Vec<String>, pre: &str, post: &str, tail: &str)
    ensures
        final(out)@ == old(out)@ + list_block(title@, items@, pre@, post@, tail@),
{
    if items.len() > 0 {
        out.append(title);
        push_item_lines(out, items, pre, post);
        out.append(tail);
    }
}

/// The test binding of one piece of evidence in the explain text format.
pub open spec fn explain_evidence_text(e: Evidence) -> Seq<char> {
    match e {
        Evidence::TestOutput { test_name, package, level, test_double, targets, .. } => "    test: "@ + test_name@ + "\n"@
            + opt_line("    package: "@, package, "\n"@) + opt_line("    level: "@, level, "\n"@) + opt_line(
            "    test double: "@,
            test_double,
            "\n"@,
        ) + opt_line("    targets: "@, targets, "\n"@),
        _ => seq![],
    }
}

/// One scenario in the explain text format.
pub open spec fn explain_result_text(r: ScenarioResult) -> Seq<char> {
    "  "@ + verdict_tag(r.verdict) + " "@ + r.scenario_name@ + "\n"@ + concat_map(
        r.evidence@,
        |e: Evidence| explain_evidence_text(e),
    )
}

/// The contract part of the explain text format.
pub open spec fn explain_contract_text(i: ExplainInput) -> Seq<char> {
    "=== Contract Review: "@ + i.name@ + " ===\n\n"@ + "Intent\n"@ + "  "@ + i.intent@ + "\n\n"@ + list_block(
        "Decisions\n"@,
        i.decisions@,
        "  - "@,
        "\n"@,
        "\n"@,
    ) + "Boundaries\n"@ + list_block("  Allowed:\n"@, i.allowed_changes@, "    - "@, "\n"@, seq![]) + list_block(
        "  Forbidden:\n"@,
        i.forbidden@,
        "    - "@,
        "\n"@,
        seq![],
    ) + list_block("  Out of Scope:\n"@, i.out_of_scope@, "    - "@, "\n"@, seq![]) + "\n"@
}

/// The explain text format: contract review plus verification summary.
pub open spec fn explain_text(i: ExplainInput, r: VerificationReport, rate: Seq<char>) -> Seq<char> {
    let s = r.summary;
    explain_contract_text(i) + "Verification Summary\n"@ + "  "@ + decimal(s.passed as nat) + "/"@ + decimal(
        s.total as nat,
    ) + " passed, "@ + decimal(s.failed as nat) + " failed, "@ + decimal(s.skipped as nat) + " skipped, "@
        + decimal(s.uncertain as nat) + " uncertain  ("@ + rate + "%)\n"@ + concat_map(
        r.results@,
        |x: ScenarioResult| explain_result_text(x),
    )
}

/// The test binding of one piece of evidence in the explain Markdown format.
pub open spec fn explain_evidence_md(e: Evidence) -> Seq<char> {
    match e {
        Evidence::TestOutput { test_name, package, level, test_double, targets, .. } => "  - test: `"@ + test_name@
            + "`\n"@ + opt_line("    - package: `"@, package, "`\n"@) + opt_line("    - level: `"@, level, "`\n"@)
            + opt_line("    - test double: `"@, test_double, "`\n"@) + opt_line("    - targets: `"@, targets, "`\n"@),
        _ => seq![],
    }
}

/// One scenario in the explain Markdown format.
pub open spec fn explain_result_md(r: ScenarioResult) -> Seq<char> {
    "- "@ + md_mark(r.verdict) + " "@ + r.scenario_name@ + "\n"@ + concat_map(
        r.evidence@,
        |e: Evidence| explain_evidence_md(e),
    )
}

/// The contract part of the explain Markdown format.
pub open spec fn explain_contract_md(i: ExplainInput) -> Seq<char> {
    "# Contract Review: "@ + i.name@ + "\n\n"@ + "## Intent\n\n"@ + i.intent@ + "\n\n"@ + list_block(
        "## Decisions\n\n"@,
        i.decisions@,
        "- "@,
        "\n"@,
        "\n"@,
    ) + "## Boundaries\n\n"@ + list_block("**Allowed:**\n"@, i.allowed_changes@, "- "@, "\n"@, "\n"@) + list_block(
        "**Forbidden:**\n"@,
        i.forbidden@,
        "- "@,
        "\n"@,
        "\n"@,
    ) + list_block("**Out of Scope:**\n"@, i.out_of_scope@, "- "@, "\n"@, "\n"@)
}

/// The explain Markdown format.
pub open spec fn explain_md(i: ExplainInput, r: VerificationReport, rate: Seq<char>) -> Seq<char> {
    explain_contract_md(i) + "## Verification Summary\n\n"@ + md_summary_table(r.summary, rate) + concat_map(
        r.results@,
        |x: ScenarioResult| explain_result_md(x),
    )
}

/// The test binding an evidence item carries: test name, package, level,
/// test double and targets of a test output; nothing for other evidence.
pub open spec fn evidence_bindings(e: Evidence) -> Seq<(Seq<char>, Option<String>, Option<String>, Option<String>, Option<String>)> {
    match e {
        Evidence::TestOutput { test_name, package, level, test_double, targets, .. } => seq![
            (test_name@, package, level, test_double, targets),
        ],
        _ => seq![],
    }
}

/// What the explain formats read of a scenario result: its name, its
/// verdict and the test bindings of its evidence, in order.
pub open spec fn explain_view(r: ScenarioResult) -> (Seq<char>, Verdict, Seq<(Seq<char>, Option<String>, Option<String>, Option<String>, Option<String>)>) {
    (r.scenario_name@, r.verdict, concat_map(r.evidence@, |e: Evidence| evidence_bindings(e)))
}

/// A test binding in the explain text format.
pub open spec fn binding_text(b: (Seq<char>, Option<String>, Option<String>, Option<String>, Option<String>)) -> Seq<char> {
    "    test: "@ + b.0 + "\n"@ + opt_line("    package: "@, b.1, "\n"@) + opt_line("    level: "@, b.2, "\n"@)
        + opt_line("    test double: "@, b.3, "\n"@) + opt_line("    targets: "@, b.4, "\n"@)
}

/// A test binding in the explain Markdown format.
pub open spec fn binding_md(b: (Seq<char>, Option<String>, Option<String>, Option<String>, Option<String>)) -> Seq<char> {
    "  - test: `"@ + b.0 + "`\n"@ + opt_line("    - package: `"@, b.1, "`\n"@) + opt_line("    - level: `"@, b.2, "`\n"@)
        + opt_line("    - test double: `"@, b.3, "`\n"@) + opt_line("    - targets: `"@, b.4, "`\n"@)
}

/// The evidence part of an explain result is the rendering of its test bindings.
proof fn lemma_explain_evidence(ev: Seq<Evidence>)
    ensures
        concat_map(ev, |e: Evidence| explain_evidence_text(e)) == concat_map(
            concat_map(ev, |e: Evidence| evidence_bindings(e)),
            |b: (Seq<char>, Option<String>, Option<String>, Option<String>, Option<String>)| binding_text(b),
        ),
        concat_map(ev, |e: Evidence| explain_evidence_md(e)) == concat_map(
            concat_map(ev, |e: Evidence| evidence_bindings(e)),
            |b: (Seq<char>, Option<String>, Option<String>, Option<String>, Option<String>)| binding_md(b),
        ),
    decreases ev.len(),
{
    let g = |e: Evidence| evidence_bindings(e);
    let bt = |b: (Seq<char>, Option<String>, Option<String>, Option<String>, Option<String>)| binding_text(b);
    let bm = |b: (Seq<char>, Option<String>, Option<String>, Option<String>, Option<String>)| binding_md(b);
    if ev.len() > 0 {
        lemma_explain_evidence(ev.drop_last());
        let front = concat_map(ev.drop_last(), g);
        let last = g(ev.last());
        assert(concat_map(ev, g) == front + last);
        crate::text::lemma_concat_map_add(front, last, bt);
        crate::text::lemma_concat_map_add(front, last, bm);
        match ev.last() {
            Evidence::TestOutput { .. } => {
                assert(concat_map(last, bt) == concat_map(last.drop_last(), bt) + bt(last.last()));
                assert(last.drop_last() =~= Seq::<(Seq<char>, Option<String>, Option<String>, Option<String>, Option<String>)>::empty());
                assert(concat_map(last, bt) =~= binding_text(last[0]));
                assert(concat_map(last, bm) == concat_map(last.drop_last(), bm) + bm(last.last()));
                assert(concat_map(last, bm) =~= binding_md(last[0]));
            },
            _ => {
                assert(concat_map(last, bt) =~= Seq::<char>::empty());
                assert(concat_map(last, bm) =~= Seq::<char>::empty());
            },
        }
    }
}

/// The explain formats read of each scenario only its name, its verdict and
/// its test bindings: two reports with the same summary whose results agree
/// on those explain alike, whatever their steps, durations, other evidence
/// and test output.
pub proof fn law_explain_reads_only_bindings(
    i: ExplainInput,
    r: VerificationReport,
    r2: VerificationReport,
    rate: Seq<char>,
)
    requires
        r.summary == r2.summary,
        r.results@.len() == r2.results@.len(),
        forall|k: int| 0 <= k < r.results@.len() ==> explain_view(#[trigger] r.results@[k]) == explain_view(r2.results@[k]),
    ensures
        explain_text(i, r, rate) == explain_text(i, r2, rate),
        explain_md(i, r, rate) == explain_md(i, r2, rate),
{
    let ft = |x: ScenarioResult| explain_result_text(x);
    let fm = |x: ScenarioResult| explain_result_md(x);
    assert forall|k: int| 0 <= k < r.results@.len() implies ft(#[trigger] r.results@[k]) == ft(r2.results@[k]) && fm(
        r.results@[k],
    ) == fm(r2.results@[k]) by {
        let x = r.results@[k];
        let y = r2.results@[k];
        assert(explain_view(x) == explain_view(y));
        lemma_explain_evidence(x.evidence@);
        lemma_explain_evidence(y.evidence@);
    }
    crate::text::lemma_concat_map_congruent(r.results@, r2.results@, ft);
    crate::text::lemma_concat_map_congruent(r.results@, r2.results@, fm);
}

fn push_explain_evidence_text(out: &mut String, e: &Evidence)
    ensures
        final(out)@ == old(out)@ + explain_evidence_text(*e),
{
    match e {
        Evidence::TestOutput { test_name, package, level, test_double, targets, .. } => {
            out.append("    test: ");
            out.append(test_name.as_str());
            out.append("\n");
            push_opt_line(out, "    package: ", package, "\n");
            push_opt_line(out, "    level: ", level, "\n");
            push_opt_line(out, "    test double: ", test_double, "\n");
            push_opt_line(out, "    targets: ", targets, "\n");
        },
        _ => {},
    }
}

fn push_explain_evidence_md(out: &mut String, e: &Evidence)
    ensures
        final(out)@ == old(out)@ + explain_evidence_md(*e),
{
    match e {
        Evidence::TestOutput { test_name, package, level, test_double, targets, .. } => {
            out.append("  - test: `");
            out.append(test_name.as_str());
            out.append("`\n");
            push_opt_line(out, "    - package: `", package, "`\n");
            push_opt_line(out, "    - level: `", level, "`\n");
            push_opt_line(out, "    - test double: `", test_double, "`\n");
            push_opt_line(out, "    - targets: `", targets, "`\n");
        },
        _ => {},
    }
}

fn push_explain_result_text(out: &mut String, r: &ScenarioResult)
    ensures
        final(out)@ == old(out)@ + explain_result_text(*r),
{
    out.append("  ");
    out.append(verdict_tag_exec(r.verdict));
    out.append(" ");
    out.append(r.scenario_name.as_str());
    out.append("\n");
    let evs = &r.evidence;
    let ghost f = |e: Evidence| explain_evidence_text(e);
    let ghost o0 = out@;
    let mut i: usize = 0;
    while i < evs.len()
        invariant
            0 <= i <= evs@.len(),
            f == (|e: Evidence| explain_evidence_text(e)),
            out@ == o0 + concat_map(evs@.take(i as int), f),
        decreases evs@.len() - i,
    {
        push_explain_evidence_text(out, &evs[i]);
        proof { lemma_concat_map_step(evs@, f, i as int); }
        i += 1;
    }
    proof { lemma_concat_map_all(evs@, f); }
}

fn push_explain_result_md(out: &mut String, r: &ScenarioResult)
    ensures
        final(out)@ == old(out)@ + explain_result_md(*r),
{
    out.append("- ");
    out.append(md_mark_exec(r.verdict));
    out.append(" ");
    out.append(r.scenario_name.as_str());
    out.append("\n");
    let evs = &r.evidence;
    let ghost f = |e: Evidence| explain_evidence_md(e);
    let ghost o0 = out@;
    let mut i: usize = 0;
    while i < evs.len()
        invariant
            0 <= i <= evs@.len(),
            f == (|e: Evidence| explain_evidence_md(e)),
            out@ == o0 + concat_map(evs@.take(i as int), f),
        decreases evs@.len() - i,
    {
        push_explain_evidence_md(out, &evs[i]);
        proof { lemma_concat_map_step(evs@, f, i as int); }
        i += 1;
    }
    proof { lemma_concat_map_all(evs@, f); }
}

fn push_explain_contract_text(out: &mut String, input: &ExplainInput)
    ensures
        final(out)@ == old(out)@ + explain_contract_text(*input),
{
    let ghost o0 = out@;
    let ghost i = *input;
    out.append("=== Contract Review: ");
    out.append(input.name.as_str());
    out.append(" ===\n\n");
    out.append("Intent\n");
    out.append("  ");
    out.append(input.intent.as_str());
    out.append("\n\n");
    let ghost h = "=== Contract Review: "@ + i.name@ + " ===\n\n"@ + "Intent\n"@ + "  "@ + i.intent@ + "\n\n"@;
    assert(out@ =~= o0 + h);
    push_list_block(out, "Decisions\n", &input.decisions, "  - ", "\n", "\n");
    let ghost h1 = h + list_block("Decisions\n"@, i.decisions@, "  - "@, "\n"@, "\n"@);
    assert(out@ =~= o0 + h1);
    out.append("Boundaries\n");
    let ghost h2 = h1 + "Boundaries\n"@;
    assert(out@ =~= o0 + h2);
    proof { assert(""@ =~= Seq::<char>::empty()) by { reveal_strlit(""); } }
    push_list_block(out, "  Allowed:\n", &input.allowed_changes, "    - ", "\n", "");
    let ghost h3 = h2 + list_block("  Allowed:\n"@, i.allowed_changes@, "    - "@, "\n"@, seq![]);
    assert(out@ =~= o0 + h3);
    push_list_block(out, "  Forbidden:\n", &input.forbidden, "    - ", "\n", "");
    let ghost h4 = h3 + list_block("  Forbidden:\n"@, i.forbidden@, "    - "@, "\n"@, seq![]);
    assert(out@ =~= o0 + h4);
    push_list_block(out, "  Out of Scope:\n", &input.out_of_scope, "    - ", "\n", "");
    let ghost h5 = h4 + list_block("  Out of Scope:\n"@, i.out_of_scope@, "    - "@, "\n"@, seq![]);
    assert(out@ =~= o0 + h5);
    out.append("\n");
    assert(out@ =~= o0 + (h5 + "\n"@));
}

fn push_explain_contract_md(out: &mut String, input: &ExplainInput)
    ensures
        final(out)@ == old(out)@ + explain_contract_md(*input),
{
    let ghost o0 = out@;
    let ghost i = *input;
    out.append("# Contract Review: ");
    out.append(input.name.as_str());
    out.append("\n\n");
    out.append("## Intent\n\n");
    out.append(input.intent.as_str());
    out.append("\n\n");
    let ghost h = "# Contract Review: "@ + i.name@ + "\n\n"@ + "## Intent\n\n"@ + i.intent@ + "\n\n"@;
    assert(out@ =~= o0 + h);
    push_list_block(out, "## Decisions\n\n", &input.decisions, "- ", "\n", "\n");
    let ghost h1 = h + list_block("## Decisions\n\n"@, i.decisions@, "- "@, "\n"@, "\n"@);
    assert(out@ =~= o0 + h1);
    out.append("## Boundaries\n\n");
    let ghost h2 = h1 + "## Boundaries\n\n"@;
    assert(out@ =~= o0 + h2);
    push_list_block(out, "**Allowed:**\n", &input.allowed_changes, "- ", "\n", "\n");
    let ghost h3 = h2 + list_block("**Allowed:**\n"@, i.allowed_changes@, "- "@, "\n"@, "\n"@);
    assert(out@ =~= o0 + h3);
    push_list_block(out, "**Forbidden:**\n", &input.forbidden, "- ", "\n", "\n");
    let ghost h4 = h3 + list_block("**Forbidden:**\n"@, i.forbidden@, "- "@, "\n"@, "\n"@);
    assert(out@ =~= o0 + h4);
    push_list_block(out, "**Out of Scope:**\n", &input.out_of_scope, "- ", "\n", "\n");
    assert(out@ =~= o0 + (h4 + list_block("**Out of Scope:**\n"@, i.out_of_scope@, "- "@, "\n"@, "\n"@)));
}

/// The explain text format; `rate` as for the verification text format.
pub fn format_explain_text(input: &ExplainInput, report: &VerificationReport, rate: &str) -> (s: String)
    ensures
        s@ == explain_text(*input, *report, rate@),
{
    let mut out = String::new();
    push_explain_contract_text(&mut out, input);
    out.append("Verification Summary\n");
    let sm = &report.summary;
    out.append("  ");
    push_usize(&mut out, sm.passed);
    out.append("/");
    push_usize(&mut out, sm.total);
    out.append(" passed, ");
    push_usize(&mut out, sm.failed);
    out.append(" failed, ");
    push_usize(&mut out, sm.skipped);
    out.append(" skipped, ");
    push_usize(&mut out, sm.uncertain);
    out.append(" uncertain  (");
    out.append(rate);
    out.append("%)\n");
    let ghost f = |x: ScenarioResult| explain_result_text(x);
    let ghost o0 = out@;
    let mut i: usize = 0;
    while i < report.results.len()
        invariant
            0 <= i <= report.results@.len(),
            f == (|x: ScenarioResult| explain_result_text(x)),
            out@ == o0 + concat_map(report.results@.take(i as int), f),
        decreases report.results@.len() - i,
    {
        push_explain_result_text(&mut out, &report.results[i]);
        proof { lemma_concat_map_step(report.results@, f, i as int); }
        i += 1;
    }
    proof { lemma_concat_map_all(report.results@, f); }
    out
}

/// The explain Markdown format; `rate` as for the verification text format.
pub fn format_explain_md(input: &ExplainInput, report: &VerificationReport, rate: &str) -> (s: String)
    ensures
        s@ == explain_md(*input, *report, rate@),
{
    let mut out = String::new();
    push_explain_contract_md(&mut out, input);
    out.append("## Verification Summary\n\n");
    push_md_summary_table(&mut out, &report.summary, rate);
    let ghost f = |x: ScenarioResult| explain_result_md(x);
    let ghost o0 = out@;
    let mut i: usize = 0;
    while i < report.results.len()
        invariant
            0 <= i <= report.results@.len(),
            f == (|x: ScenarioResult| explain_result_md(x)),
            out@ == o0 + concat_map(report.results@.take(i as int), f),
        decreases report.results@.len() - i,
    {
        push_explain_result_md(&mut out, &report.results[i]);
        proof { lemma_concat_map_step(report.results@, f, i as int); }
        i += 1;
    }
    proof { lemma_concat_map_all(report.results@, f); }
    out
}

/// Format an explain (contract review) summary; `None` for `Json`, which
/// serialises the report itself.
pub fn format_explain(
    input: &ExplainInput,
    report: &VerificationReport,
    format: &OutputFormat,
    rate: &str,
) -> (s: Option<String>)
    ensures
        match *format {
            OutputFormat::Text | OutputFormat::Compact | OutputFormat::Diagnostic => s matches Some(t) && t@
                == explain_text(*input, *report, rate@),
            OutputFormat::Markdown => s matches Some(t) && t@ == explain_md(*input, *report, rate@),
            OutputFormat::Json => s is None,
        },
{
    match format {
        OutputFormat::Text | OutputFormat::Compact | OutputFormat::Diagnostic => Some(
            format_explain_text(input, report, rate),
        ),
        OutputFormat::Json => None,
        OutputFormat::Markdown => Some(format_explain_md(input, report, rate)),
    }
}


// === Cost report ===

/// A single entry in a cost breakdown by verification layer.
#[derive(Debug, Clone)]
pub struct CostEntry {
    pub layer: String,
    pub scenarios_hit: usize,
    pub duration_ms: u64,
    pub token_count: u64,
}

/// Cost report breaking down resources by verification layer.
#[derive(Debug, Clone)]
pub struct CostReport {
    pub spec_name: String,
    pub entries: Vec<CostEntry>,
}

/// The total duration of the entries.
pub open spec fn total_duration(es: Seq<CostEntry>) -> nat
    decreases es.len(),
{
    if es.len() == 0 {
        0
    } else {
        total_duration(es.drop_last()) + (es.last().duration_ms as nat)
    }
}

/// The total token count of the entries.
pub open spec fn total_tokens(es: Seq<CostEntry>) -> nat
    decreases es.len(),
{
    if es.len() == 0 {
        0
    } else {
        total_tokens(es.drop_last()) + (es.last().token_count as nat)
    }
}

/// Totals of a prefix never exceed the totals of the whole.
proof fn lemma_totals_monotone(es: Seq<CostEntry>, i: int)
    requires
        0 <= i <= es.len(),
    ensures
        total_duration(es.take(i)) <= total_duration(es),
        total_tokens(es.take(i)) <= total_tokens(es),
    decreases es.len() - i,
{
    if i < es.len() {
        lemma_totals_monotone(es, i + 1);
        assert(es.take(i + 1).drop_last() =~= es.take(i));
    } else {
        assert(es.take(i) =~= es);
    }
}

/// The total duration and token count of the entries, as `(duration, tokens)`.
pub fn cost_totals(entries: &Vec<CostEntry>) -> (r: (u64, u64))
    requires
        total_duration(entries@) <= u64::MAX,
        total_tokens(entries@) <= u64::MAX,
    ensures
        r.0 == total_duration(entries@),
        r.1 == total_tokens(entries@),
{
    let mut d: u64 = 0;
    let mut t: u64 = 0;
    let mut i: usize = 0;
    while i < entries.len()
        invariant
            0 <= i <= entries@.len(),
            total_duration(entries@) <= u64::MAX,
            total_tokens(entries@) <= u64::MAX,
            d == total_duration(entries@.take(i as int)),
            t == total_tokens(entries@.take(i as int)),
        decreases entries@.len() - i,
    {
        proof {
            lemma_totals_monotone(entries@, i + 1);
            assert(entries@.take(i + 1).drop_last() =~= entries@.take(i as int));
        }
        d = d + entries[i].duration_ms;
        t = t + entries[i].token_count;
        i += 1;
    }
    assert(entries@.take(entries@.len() as int) =~= entries@);
    (d, t)
}

/// The totals, or `None` when one of them does not fit in `u64`.
pub fn cost_totals_checked(entries: &Vec<CostEntry>) -> (r: Option<(u64, u64)>)
    ensures
        r is Some <==> total_duration(entries@) <= u64::MAX && total_tokens(entries@) <= u64::MAX,
        r matches Some(t) ==> t.0 == total_duration(entries@) && t.1 == total_tokens(entries@),
{
    let mut d: u64 = 0;
    let mut t: u64 = 0;
    let mut i: usize = 0;
    while i < entries.len()
        invariant
            0 <= i <= entries@.len(),
            d == total_duration(entries@.take(i as int)),
            t == total_tokens(entries@.take(i as int)),
        decreases entries@.len() - i,
    {
        proof {
            lemma_totals_monotone(entries@, i + 1);
            assert(entries@.take(i + 1).drop_last() =~= entries@.take(i as int));
        }
        match (d.checked_add(entries[i].duration_ms), t.checked_add(entries[i].token_count)) {
            (Some(x), Some(y)) => {
                d = x;
                t = y;
            },
            _ => {
                return None;
            },
        }
        i += 1;
    }
    assert(entries@.take(entries@.len() as int) =~= entries@);
    Some((d, t))
}

/// One layer in the cost text format.
pub open spec fn cost_line_text(e: CostEntry) -> Seq<char> {
    "  ["@ + e.layer@ + "] scenarios="@ + decimal(e.scenarios_hit as nat) + ", duration="@ + decimal(
        e.duration_ms as nat,
    ) + "ms, tokens="@ + decimal(e.token_count as nat) + "\n"@
}

/// The cost text format.
pub open spec fn cost_text(r: CostReport) -> Seq<char> {
    "Cost Report: "@ + r.spec_name@ + "\n\n"@ + concat_map(r.entries@, |e: CostEntry| cost_line_text(e))
        + "\n  Total: duration="@ + decimal(total_duration(r.entries@)) + "ms, tokens="@ + decimal(
        total_tokens(r.entries@),
    ) + "\n"@
}

/// One layer in the cost Markdown format.
pub open spec fn cost_line_md(e: CostEntry) -> Seq<char> {
    "| "@ + e.layer@ + " | "@ + decimal(e.scenarios_hit as nat) + " | "@ + decimal(e.duration_ms as nat) + " | "@
        + decimal(e.token_count as nat) + " |\n"@
}

/// The cost Markdown format.
pub open spec fn cost_md(r: CostReport) -> Seq<char> {
    "# Cost Report: "@ + r.spec_name@ + "\n\n"@ + "| Layer | Scenarios | Duration (ms) | Tokens |\n"@
        + "| --- | --- | --- | --- |\n"@ + concat_map(r.entries@, |e: CostEntry| cost_line_md(e))
        + "| **Total** | | **"@ + decimal(total_duration(r.entries@)) + "** | **"@ + decimal(
        total_tokens(r.entries@),
    ) + "** |\n"@
}

fn push_cost_line_text(out: &mut String, e: &CostEntry)
    ensures
        final(out)@ == old(out)@ + cost_line_text(*e),
{
    out.append("  [");
    out.append(e.layer.as_str());
    out.append("] scenarios=");
    push_usize(out, e.scenarios_hit);
    out.append(", duration=");
    push_u64(out, e.duration_ms);
    out.append("ms, tokens=");
    push_u64(out, e.token_count);
    out.append("\n");
}

fn push_cost_line_md(out: &mut String, e: &CostEntry)
    ensures
        final(out)@ == old(out)@ + cost_line_md(*e),
{
    out.append("| ");
    out.append(e.layer.as_str());
    out.append(" | ");
    push_usize(out, e.scenarios_hit);
    out.append(" | ");
    push_u64(out, e.duration_ms);
    out.append(" | ");
    push_u64(out, e.token_count);
    out.append(" |\n");
}

/// The cost text format.
pub fn format_cost_text(report: &CostReport) -> (s: String)
    requires
        total_duration(report.entries@) <= u64::MAX,
        total_tokens(report.entries@) <= u64::MAX,
    ensures
        s@ == cost_text(*report),
{
    let mut out = String::new();
    out.append("Cost Report: ");
    out.append(report.spec_name.as_str());
    out.append("\n\n");
    let es = &report.entries;
    let ghost f = |e: CostEntry| cost_line_text(e);
    let ghost o0 = out@;
    let mut i: usize = 0;
    while i < es.len()
        invariant
            0 <= i <= es@.len(),
            f == (|e: CostEntry| cost_line_text(e)),
            out@ == o0 + concat_map(es@.take(i as int), f),
        decreases es@.len() - i,
    {
        push_cost_line_text(&mut out, &es[i]);
        proof { lemma_concat_map_step(es@, f, i as int); }
        i += 1;
    }
    proof { lemma_concat_map_all(es@, f); }
    let (total_time, total_tok) = cost_totals(es);
    out.append("\n  Total: duration=");
    push_u64(&mut out, total_time);
    out.append("ms, tokens=");
    push_u64(&mut out, total_tok);
    out.append("\n");
    out
}

/// The cost Markdown format.
pub fn format_cost_md(report: &CostReport) -> (s: String)
    requires
        total_duration(report.entries@) <= u64::MAX,
        total_tokens(report.entries@) <= u64::MAX,
    ensures
        s@ == cost_md(*report),
{
    let mut out = String::new();
    out.append("# Cost Report: ");
    out.append(report.spec_name.as_str());
    out.append("\n\n");
    out.append("| Layer | Scenarios | Duration (ms) | Tokens |\n");
    out.append("| --- | --- | --- | --- |\n");
    let es = &report.entries;
    let ghost f = |e: CostEntry| cost_line_md(e);
    let ghost o0 = out@;
    let mut i: usize = 0;
    while i < es.len()
        invariant
            0 <= i <= es@.len(),
            f == (|e: CostEntry| cost_line_md(e)),
            out@ == o0 + concat_map(es@.take(i as int), f),
        decreases es@.len() - i,
    {
        push_cost_line_md(&mut out, &es[i]);
        proof { lemma_concat_map_step(es@, f, i as int); }
        i += 1;
    }
    proof { lemma_concat_map_all(es@, f); }
    let (total_time, total_tok) = cost_totals(es);
    out.append("| **Total** | | **");
    push_u64(&mut out, total_time);
    out.append("** | **");
    push_u64(&mut out, total_tok);
    out.append("** |\n");
    out
}

/// Format a cost report; `None` for `Json`, which serialises the breakdown.
pub fn format_cost_report(report: &CostReport, format: &OutputFormat) -> (s: Option<String>)
    requires
        total_duration(report.entries@) <= u64::MAX,
        total_tokens(report.entries@) <= u64::MAX,
    ensures
        match *format {
            OutputFormat::Text | OutputFormat::Compact | OutputFormat::Diagnostic => s matches Some(t) && t@
                == cost_text(*report),
            OutputFormat::Markdown => s matches Some(t) && t@ == cost_md(*report),
            OutputFormat::Json => s is None,
        },
{
    match format {
        OutputFormat::Text | OutputFormat::Compact | OutputFormat::Diagnostic => Some(format_cost_text(report)),
        OutputFormat::Json => None,
        OutputFormat::Markdown => Some(format_cost_md(report)),
    }
}

// === Test binding ===

/// The position of the first test output among the evidence of a scenario:
/// the test the scenario is bound to.
pub fn test_binding_index(evidence: &Vec<Evidence>) -> (r: Option<usize>)
    ensures
        match r {
            Some(i) => i < evidence@.len() && evidence@[i as int] is TestOutput && forall|j: int|
                0 <= j < i ==> !(#[trigger] evidence@[j] is TestOutput),
            None => forall|j: int| 0 <= j < evidence@.len() ==> !(#[trigger] evidence@[j] is TestOutput),
        },
{
    let mut i: usize = 0;
    while i < evidence.len()
        invariant
            0 <= i <= evidence@.len(),
            forall|j: int| 0 <= j < i ==> !(#[trigger] evidence@[j] is TestOutput),
        decreases evidence@.len() - i,
    {
        match &evidence[i] {
            Evidence::TestOutput { .. } => {
                return Some(i);
            },
            _ => {},
        }
        i += 1;
    }
    None
}

// === Status file ===

/// The status of one scenario in a status report.
#[derive(Debug, Clone)]
pub struct ScenarioStatus {
    pub name: String,
    pub verdict: String,
    pub duration_ms: u64,
}

/// Machine-readable status report for CI/CD and external agent consumption.
#[derive(Debug, Clone)]
pub struct StatusReport {
    pub spec: String,
    pub outcome: String,
    pub gate_blocked: bool,
    pub scenarios: Vec<ScenarioStatus>,
    pub tests_passing: usize,
    pub tests_failing: usize,
    pub tests_skipped: usize,
    pub timestamp: u64,
    pub notes: String,
}

/// The name of a verdict in status files.
pub open spec fn verdict_name(v: Verdict) -> Seq<char> {
    match v {
        Verdict::Pass => "pass"@,
        Verdict::Fail => "fail"@,
        Verdict::Skip => "skip"@,
        Verdict::Uncertain => "uncertain"@,
        Verdict::PendingReview => "pending_review"@,
    }
}

fn verdict_name_exec(v: Verdict) -> (s: &'static str)
    ensures
        s@ == verdict_name(v),
{
    match v {
        Verdict::Pass => "pass",
        Verdict::Fail => "fail",
        Verdict::Skip => "skip",
        Verdict::Uncertain => "uncertain",
        Verdict::PendingReview => "pending_review",
    }
}

/// Every scenario passed: none failed, was skipped or uncertain, and at least one passed.
pub open spec fn all_pass(s: VerificationSummary) -> bool {
    s.failed == 0 && s.skipped == 0 && s.uncertain == 0 && s.passed > 0
}

/// Nothing passed although something was verified.
pub open spec fn all_fail(s: VerificationSummary) -> bool {
    s.passed == 0 && s.total > 0
}

/// The outcome of a run: a blocked gate first, then success, failure or partial success.
pub open spec fn status_outcome(s: VerificationSummary, gate_blocked: bool) -> Seq<char> {
    if gate_blocked {
        "gate_blocked"@
    } else if all_pass(s) {
        "success"@
    } else if all_fail(s) {
        "fail"@
    } else {
        "partial_success"@
    }
}

/// The human-readable notes of a status report.
pub open spec fn status_notes(s: VerificationSummary) -> Seq<char> {
    decimal(s.passed as nat) + "/"@ + decimal(s.total as nat) + " passed, "@ + decimal(s.failed as nat)
        + " failed, "@ + decimal(s.skipped as nat) + " skipped, "@ + decimal(s.uncertain as nat) + " uncertain, "@
        + decimal(s.pending_review as nat) + " pending_review"@
}

/// `st` reports the scenario result `r`.
pub open spec fn scenario_status_matches(st: ScenarioStatus, r: ScenarioResult) -> bool {
    st.name@ == r.scenario_name@ && st.verdict@ == verdict_name(r.verdict) && st.duration_ms == r.duration_ms
}

/// The status report of `report`: `status_report_at`, stamped with the
/// current time.
pub open spec fn status_report_matches(
    st: StatusReport,
    spec_name: Seq<char>,
    report: VerificationReport,
    gate_blocked: bool,
) -> bool {
    &&& st.spec@ == spec_name
    &&& st.outcome@ == status_outcome(report.summary, gate_blocked)
    &&& st.gate_blocked == gate_blocked
    &&& st.scenarios@.len() == report.results@.len()
    &&& forall|i: int| 0 <= i < report.results@.len() ==> scenario_status_matches(#[trigger] st.scenarios@[i], report.results@[i])
    &&& st.tests_passing == report.summary.passed
    &&& st.tests_failing == report.summary.failed
    &&& st.tests_skipped == report.summary.skipped
    &&& st.notes@ == status_notes(report.summary)
}

/// The seconds since the Unix epoch by the system clock (`SystemTime::now`),
/// 0 when the clock is set before the epoch.  Nothing is stated of the value:
/// it is the time at the call.
#[verifier::external_body]
fn unix_time_secs() -> (t: u64) {
    std::time::SystemTime::now().duration_since(std::time::UNIX_EPOCH).unwrap_or_default().as_secs()
}

/// Build a [`StatusReport`] from a verification report, stamped with the
/// current time.
///
/// `gate_blocked` should be `true` when a critical (gate) scenario has failed;
/// callers that have not yet implemented Goal Gate logic may pass `false`.
pub fn build_status_report(spec_name: &str, report: &VerificationReport, gate_blocked: bool) -> (st: StatusReport)
    ensures
        status_report_matches(st, spec_name@, *report, gate_blocked),
{
    let timestamp = unix_time_secs();
    status_report_at(spec_name, report, gate_blocked, timestamp)
}

/// Build a [`StatusReport`] from a verification report, stamped with `timestamp`
/// (seconds since the Unix epoch).
pub fn status_report_at(
    spec_name: &str,
    report: &VerificationReport,
    gate_blocked: bool,
    timestamp: u64,
) -> (st: StatusReport)
    ensures
        status_report_matches(st, spec_name@, *report, gate_blocked),
        st.timestamp == timestamp,
{
    let s = &report.summary;
    let outcome = if gate_blocked {
        "gate_blocked".to_owned()
    } else if s.failed == 0 && s.skipped == 0 && s.uncertain == 0 && s.passed > 0 {
        "success".to_owned()
    } else if s.passed == 0 && s.total > 0 {
        "fail".to_owned()
    } else {
        "partial_success".to_owned()
    };
    let mut scenarios: Vec<ScenarioStatus> = Vec::new();
    let mut i: usize = 0;
    while i < report.results.len()
        invariant
            0 <= i <= report.results@.len(),
            scenarios@.len() == i,
            forall|k: int| 0 <= k < i ==> scenario_status_matches(#[trigger] scenarios@[k], report.results@[k]),
        decreases report.results@.len() - i,
    {
        let r = &report.results[i];
        scenarios.push(ScenarioStatus {
            name: r.scenario_name.clone(),
            verdict: verdict_name_exec(r.verdict).to_owned(),
            duration_ms: r.duration_ms,
        });
        i += 1;
    }
    let mut notes = String::new();
    push_usize(&mut notes, s.passed);
    notes.append("/");
    push_usize(&mut notes, s.total);
    notes.append(" passed, ");
    push_usize(&mut notes, s.failed);
    notes.append(" failed, ");
    push_usize(&mut notes, s.skipped);
    notes.append(" skipped, ");
    push_usize(&mut notes, s.uncertain);
    notes.append(" uncertain, ");
    push_usize(&mut notes, s.pending_review);
    notes.append(" pending_review");
    StatusReport {
        spec: spec_name.to_owned(),
        outcome,
        gate_blocked,
        scenarios,
        tests_passing: s.passed,
        tests_failing: s.failed,
        tests_skipped: s.skipped,
        timestamp,
        notes,
    }
}

// === Laws of the renderings ===

/// Each verdict has its own marker in every format: no two verdicts share
/// the scenario tag of the text format, the step marker, the compact
/// marker, the Markdown marker or the status-file name; and `[PASS]` is
/// the tag of a passed scenario only.
pub proof fn law_verdict_markers_distinct(v1: Verdict, v2: Verdict)
    ensures
        verdict_tag(v1) == verdict_tag(v2) ==> v1 == v2,
        step_mark(v1) == step_mark(v2) ==> v1 == v2,
        compact_mark(v1) == compact_mark(v2) ==> v1 == v2,
        md_mark(v1) == md_mark(v2) ==> v1 == v2,
        verdict_name(v1) == verdict_name(v2) ==> v1 == v2,
        verdict_tag(v1) == "[PASS]"@ <==> v1 == Verdict::Pass,
        verdict_tag(v1) == "[SKIP]"@ <==> v1 == Verdict::Skip,
        verdict_tag(v1) == "[FAIL]"@ <==> v1 == Verdict::Fail,
{
    reveal_strlit("[PASS]");
    reveal_strlit("[FAIL]");
    reveal_strlit("[SKIP]");
    reveal_strlit("[????]");
    reveal_strlit("[REVIEW]");
    reveal_strlit("+");
    reveal_strlit("x");
    reveal_strlit("-");
    reveal_strlit("?");
    reveal_strlit("R");
    reveal_strlit("\u{2713}");
    reveal_strlit("\u{2717}");
    reveal_strlit("\u{2298}");
    reveal_strlit("\u{2299}");
    reveal_strlit("✅");
    reveal_strlit("❌");
    reveal_strlit("⏭️");
    reveal_strlit("❓");
    reveal_strlit("👁️");
    reveal_strlit("pass");
    reveal_strlit("fail");
    reveal_strlit("skip");
    reveal_strlit("uncertain");
    reveal_strlit("pending_review");
    if v1 != v2 {
        assert(verdict_tag(v1)[1] != verdict_tag(v2)[1]);
        assert(step_mark(v1)[0] != step_mark(v2)[0]);
        assert(compact_mark(v1)[0] != compact_mark(v2)[0]);
        assert(md_mark(v1)[0] != md_mark(v2)[0]);
        assert(verdict_name(v1)[0] != verdict_name(v2)[0] || verdict_name(v1).len() != verdict_name(v2).len());
    }
    if verdict_tag(v1) == "[PASS]"@ {
        assert(verdict_tag(v1)[1] == 'P');
    }
    if verdict_tag(v1) == "[SKIP]"@ {
        assert(verdict_tag(v1)[1] == 'S');
    }
    if verdict_tag(v1) == "[FAIL]"@ {
        assert(verdict_tag(v1)[1] == 'F');
    }
}

/// The text format lists every scenario on a line of its own: its verdict
/// tag, then its name.
pub proof fn law_text_lists_each_result(r: VerificationReport, rate: Seq<char>, k: int)
    requires
        0 <= k < r.results@.len(),
    ensures
        contains(
            verification_text(r, rate),
            "  "@ + verdict_tag(r.results@[k].verdict) + " "@ + r.results@[k].scenario_name@ + "\n"@,
        ),
{
    let x = r.results@[k];
    let line = "  "@ + verdict_tag(x.verdict) + " "@ + x.scenario_name@ + "\n"@;
    let f = |y: ScenarioResult| result_text(y);
    crate::text::lemma_concat_map_infix(r.results@, f, k);
    let rest = concat_map(x.step_results@, |s: StepVerdict| step_text(s)) + concat_map(
        x.evidence@,
        |e: Evidence| evidence_text(e),
    ) + "\n"@;
    assert(result_text(x) =~= Seq::<char>::empty() + line + rest);
    crate::text::lemma_infix_mid(Seq::<char>::empty(), line, rest);
    let body = concat_map(r.results@, f);
    let pre = "Spec: "@ + r.spec_name@ + "\n"@ + counts_text(r.summary);
    let post = "Pass rate: "@ + rate + "%\n"@;
    assert(verification_text(r, rate) =~= pre + body + post);
    crate::text::lemma_infix_mid(pre, body, post);
    crate::text::lemma_infix_trans(verification_text(r, rate), body, result_text(x));
    crate::text::lemma_infix_trans(verification_text(r, rate), result_text(x), line);
    crate::text::lemma_infix_contains(verification_text(r, rate), line);
}

/// How a run ended, as its status report names it. A run stopped before
/// verification is blocked. Any other run ends as `success` if and only if
/// some scenario passed and none failed, none was skipped and none stayed
/// uncertain; as `fail` if and only if there were scenarios and none passed;
/// and as `partial_success` otherwise.
pub proof fn law_status_outcome(s: VerificationSummary, gate_blocked: bool)
    ensures
        status_outcome(s, gate_blocked) == "gate_blocked"@ <==> gate_blocked,
        status_outcome(s, gate_blocked) == "success"@ <==> !gate_blocked && s.failed == 0 && s.skipped == 0
            && s.uncertain == 0 && s.passed > 0,
        status_outcome(s, gate_blocked) == "fail"@ <==> !gate_blocked && s.passed == 0 && s.total > 0,
        status_outcome(s, gate_blocked) == "partial_success"@ <==> !gate_blocked && !(s.failed == 0 && s.skipped
            == 0 && s.uncertain == 0 && s.passed > 0) && !(s.passed == 0 && s.total > 0),
{
    reveal_strlit("gate_blocked");
    reveal_strlit("success");
    reveal_strlit("fail");
    reveal_strlit("partial_success");
    let o = status_outcome(s, gate_blocked);
    assert(o == "gate_blocked"@ || o == "success"@ || o == "fail"@ || o == "partial_success"@);
    if o == "gate_blocked"@ {
        assert(o[0] == 'g');
    }
    if o == "success"@ {
        assert(o[0] == 's');
    }
    if o == "fail"@ {
        assert(o[0] == 'f');
    }
    if o == "partial_success"@ {
        assert(o[0] == 'p');
    }
}

/// Four pieces laid out between others each occur in the whole.
proof fn lemma_four_pieces(
    a: Seq<char>,
    p1: Seq<char>,
    b: Seq<char>,
    p2: Seq<char>,
    c: Seq<char>,
    p3: Seq<char>,
    d: Seq<char>,
    p4: Seq<char>,
    e: Seq<char>,
)
    ensures
        contains(a + p1 + b + p2 + c + p3 + d + p4 + e, p1),
        contains(a + p1 + b + p2 + c + p3 + d + p4 + e, p2),
        contains(a + p1 + b + p2 + c + p3 + d + p4 + e, p3),
        contains(a + p1 + b + p2 + c + p3 + d + p4 + e, p4),
{
    let w = a + p1 + b + p2 + c + p3 + d + p4 + e;
    assert(w =~= a + p1 + (b + p2 + c + p3 + d + p4 + e));
    crate::text::lemma_infix_mid(a, p1, b + p2 + c + p3 + d + p4 + e);
    crate::text::lemma_infix_contains(w, p1);
    assert(w =~= (a + p1 + b) + p2 + (c + p3 + d + p4 + e));
    crate::text::lemma_infix_mid(a + p1 + b, p2, c + p3 + d + p4 + e);
    crate::text::lemma_infix_contains(w, p2);
    assert(w =~= (a + p1 + b + p2 + c) + p3 + (d + p4 + e));
    crate::text::lemma_infix_mid(a + p1 + b + p2 + c, p3, d + p4 + e);
    crate::text::lemma_infix_contains(w, p3);
    assert(w =~= (a + p1 + b + p2 + c + p3 + d) + p4 + e);
    crate::text::lemma_infix_mid(a + p1 + b + p2 + c + p3 + d, p4, e);
    crate::text::lemma_infix_contains(w, p4);
}

/// The literals around the scores of the lint formats, split at their labels.
proof fn lemma_score_literals()
    ensures
        "% (determinism: "@ == "%"@ + " ("@ + "determinism: "@,
        "%** (determinism: "@ == "%"@ + "** ("@ + "determinism: "@,
        "%, testability: "@ == "%"@ + ", "@ + "testability: "@,
        "%, coverage: "@ == "%"@ + ", "@ + "coverage: "@,
        "%)\n\n"@ == "%"@ + ")\n\n"@,
        "**Quality Score: "@ == "**"@ + "Quality Score: "@,
{
    reveal_strlit("% (determinism: ");
    reveal_strlit("%** (determinism: ");
    reveal_strlit("%, testability: ");
    reveal_strlit("%, coverage: ");
    reveal_strlit("%)\n\n");
    reveal_strlit("**Quality Score: ");
    reveal_strlit("%");
    reveal_strlit(" (");
    reveal_strlit("** (");
    reveal_strlit("**");
    reveal_strlit("Quality Score: ");
    reveal_strlit(", ");
    reveal_strlit(")\n\n");
    reveal_strlit("determinism: ");
    reveal_strlit("testability: ");
    reveal_strlit("coverage: ");
    assert("% (determinism: "@ =~= "%"@ + " ("@ + "determinism: "@);
    assert("%** (determinism: "@ =~= "%"@ + "** ("@ + "determinism: "@);
    assert("%, testability: "@ =~= "%"@ + ", "@ + "testability: "@);
    assert("%, coverage: "@ =~= "%"@ + ", "@ + "coverage: "@);
    assert("%)\n\n"@ =~= "%"@ + ")\n\n"@);
    assert("**Quality Score: "@ =~= "**"@ + "Quality Score: "@);
}

/// The lint text reports each quality score under its own label.
pub proof fn law_lint_text_scores(r: LintReport)
    ensures
        contains(lint_text(r), "Quality: "@ + decimal(r.quality_score.overall as nat) + "%"@),
        contains(lint_text(r), "determinism: "@ + decimal(r.quality_score.determinism as nat) + "%"@),
        contains(lint_text(r), "testability: "@ + decimal(r.quality_score.testability as nat) + "%"@),
        contains(lint_text(r), "coverage: "@ + decimal(r.quality_score.coverage as nat) + "%"@),
{
    let q = r.quality_score;
    let tail = if r.diagnostics@.len() == 0 {
        "  No issues found.\n"@
    } else {
        concat_map(r.diagnostics@, |x: LintDiagnostic| diag_text(x))
    };
    lemma_score_literals();
    let p1 = "Quality: "@ + decimal(q.overall as nat) + "%"@;
    let p2 = "determinism: "@ + decimal(q.determinism as nat) + "%"@;
    let p3 = "testability: "@ + decimal(q.testability as nat) + "%"@;
    let p4 = "coverage: "@ + decimal(q.coverage as nat) + "%"@;
    let a = "Spec: "@ + r.spec_name@ + "\n"@;
    assert(lint_text(r) =~= a + p1 + " ("@ + p2 + ", "@ + p3 + ", "@ + p4 + (")\n\n"@ + tail));
    lemma_four_pieces(a, p1, " ("@, p2, ", "@, p3, ", "@, p4, ")\n\n"@ + tail);
}

/// The lint Markdown reports each quality score under its own label.
pub proof fn law_lint_md_scores(r: LintReport)
    ensures
        contains(lint_md(r), "Quality Score: "@ + decimal(r.quality_score.overall as nat) + "%"@),
        contains(lint_md(r), "determinism: "@ + decimal(r.quality_score.determinism as nat) + "%"@),
        contains(lint_md(r), "testability: "@ + decimal(r.quality_score.testability as nat) + "%"@),
        contains(lint_md(r), "coverage: "@ + decimal(r.quality_score.coverage as nat) + "%"@),
{
    let q = r.quality_score;
    let tail = if r.diagnostics@.len() == 0 {
        "No issues found.\n"@
    } else {
        "| Severity | Rule | Line | Message |\n"@ + "| --- | --- | --- | --- |\n"@ + concat_map(
            r.diagnostics@,
            |x: LintDiagnostic| diag_md(x),
        )
    };
    lemma_score_literals();
    let p1 = "Quality Score: "@ + decimal(q.overall as nat) + "%"@;
    let p2 = "determinism: "@ + decimal(q.determinism as nat) + "%"@;
    let p3 = "testability: "@ + decimal(q.testability as nat) + "%"@;
    let p4 = "coverage: "@ + decimal(q.coverage as nat) + "%"@;
    let a = "# Lint: "@ + r.spec_name@ + "\n\n"@ + "**"@;
    assert(lint_md(r) =~= a + p1 + "** ("@ + p2 + ", "@ + p3 + ", "@ + p4 + (")\n\n"@ + tail));
    lemma_four_pieces(a, p1, "** ("@, p2, ", "@, p3, ", "@, p4, ")\n\n"@ + tail);
}

} // verus!
