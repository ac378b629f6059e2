use agent_spec::spec_core::ast::Span;
use agent_spec::spec_core::report::{
    Evidence, LintDiagnostic, LintReport, QualityScore, ScenarioResult, Severity, StepVerdict, Verdict,
    VerificationReport, VerificationSummary,
};
use agent_spec::spec_report::{
    build_status_report, cost_totals, cost_totals_checked, format_cost_report, format_explain, format_lint, format_verification,
    format_verification_compact, status_report_at, test_binding_index, CostEntry, CostReport, ExplainInput, OutputFormat,
};

fn summary(total: usize, passed: usize, failed: usize, skipped: usize, uncertain: usize) -> VerificationSummary {
    VerificationSummary { total, passed, failed, skipped, uncertain, pending_review: 0 }
}

/// The pass rate as the caller renders it: `{:.1}` of the floating-point percentage.
fn rate(s: &VerificationSummary) -> String {
    let r = if s.total == 0 { 0.0 } else { s.passed as f64 / s.total as f64 };
    format!("{:.1}", r * 100.0)
}

fn result(name: &str, verdict: Verdict, duration_ms: u64) -> ScenarioResult {
    ScenarioResult { scenario_name: name.into(), verdict, step_results: vec![], evidence: vec![], duration_ms }
}

#[test]
fn test_format_verification_text() {
    let report = VerificationReport {
        spec_name: "test".into(),
        results: vec![ScenarioResult {
            scenario_name: "test scenario".into(),
            verdict: Verdict::Pass,
            step_results: vec![StepVerdict {
                step_text: "user exists".into(),
                verdict: Verdict::Pass,
                reason: "ok".into(),
            }],
            evidence: vec![],
            duration_ms: 10,
        }],
        summary: summary(1, 1, 0, 0, 0),
    };
    let text = format_verification(&report, &OutputFormat::Text, &rate(&report.summary)).unwrap();
    assert!(text.contains("[PASS]"));
    assert!(text.contains("100.0%"));
}

#[test]
fn test_format_verification_text_includes_ai_analysis_evidence() {
    let report = VerificationReport {
        spec_name: "ai".into(),
        results: vec![ScenarioResult {
            scenario_name: "needs ai".into(),
            verdict: Verdict::Uncertain,
            step_results: vec![StepVerdict {
                step_text: "review code intent".into(),
                verdict: Verdict::Uncertain,
                reason: "manual review required".into(),
            }],
            evidence: vec![Evidence::AiAnalysis {
                model: "stub".into(),
                confidence: 0,
                reasoning: "ai verifier stub enabled".into(),
            }],
            duration_ms: 0,
        }],
        summary: summary(1, 0, 0, 0, 1),
    };

    let text = format_verification(&report, &OutputFormat::Text, &rate(&report.summary)).unwrap();
    assert!(text.contains("ai 'stub'"));
    assert!(text.contains("confidence=0.00"));
    assert!(text.contains("ai verifier stub enabled"));
}

#[test]
fn test_format_verification_text_includes_test_binding_metadata() {
    let report = VerificationReport {
        spec_name: "verify-meta".into(),
        results: vec![ScenarioResult {
            scenario_name: "http path".into(),
            verdict: Verdict::Pass,
            step_results: vec![],
            evidence: vec![Evidence::TestOutput {
                test_name: "test_http_path".into(),
                stdout: String::new(),
                passed: true,
                package: Some("agent-spec".into()),
                level: Some("integration".into()),
                test_double: Some("local_http_stub".into()),
                targets: Some("commands/update".into()),
            }],
            duration_ms: 5,
        }],
        summary: summary(1, 1, 0, 0, 0),
    };

    let text = format_verification(&report, &OutputFormat::Text, &rate(&report.summary)).unwrap();
    assert!(text.contains("package=agent-spec"));
    assert!(text.contains("level=integration"));
    assert!(text.contains("test_double=local_http_stub"));
    assert!(text.contains("targets=commands/update"));
}

fn cost_fixture() -> CostReport {
    CostReport {
        spec_name: "cost test".into(),
        entries: vec![
            CostEntry { layer: "test".into(), scenarios_hit: 3, duration_ms: 150, token_count: 0 },
            CostEntry { layer: "ai".into(), scenarios_hit: 2, duration_ms: 500, token_count: 1200 },
        ],
    }
}

#[test]
fn test_cost_report_breaks_down_tokens_time_and_layers() {
    let report = cost_fixture();

    let text = format_cost_report(&report, &OutputFormat::Text).unwrap();
    assert!(text.contains("[test]"), "should show test layer");
    assert!(text.contains("[ai]"), "should show ai layer");
    assert!(text.contains("duration="), "should show duration");
    assert!(text.contains("tokens="), "should show tokens");
    assert!(text.contains("Total:"), "should show total");

    // The JSON breakdown is serialised outside the library from these values.
    assert!(format_cost_report(&report, &OutputFormat::Json).is_none());
    assert_eq!(report.entries.len(), 2);
    assert_eq!(cost_totals(&report.entries), (650, 1200));
}

fn make_all_pass_report() -> VerificationReport {
    VerificationReport {
        spec_name: "status-test".into(),
        results: vec![result("scenario A", Verdict::Pass, 10), result("scenario B", Verdict::Pass, 20)],
        summary: summary(2, 2, 0, 0, 0),
    }
}

fn make_mixed_report() -> VerificationReport {
    VerificationReport {
        spec_name: "mixed-test".into(),
        results: vec![
            result("pass scenario", Verdict::Pass, 10),
            result("fail scenario", Verdict::Fail, 20),
            result("skip scenario", Verdict::Skip, 0),
        ],
        summary: summary(3, 1, 1, 1, 0),
    }
}

#[test]
fn test_status_file_writes_success_on_all_pass() {
    let report = make_all_pass_report();
    let status = build_status_report("status-test", &report, false);

    assert_eq!(status.outcome, "success");
    assert!(!status.gate_blocked);
    assert_eq!(status.tests_failing, 0);
    assert_eq!(status.tests_passing, 2);
    assert_eq!(status.tests_skipped, 0);
    assert!(status.scenarios.iter().any(|s| s.name == "scenario A"));
    assert!(status.scenarios.iter().any(|s| s.name == "scenario B"));
}

#[test]
fn test_status_file_writes_partial_success_on_mixed() {
    let report = make_mixed_report();
    let status = build_status_report("mixed-test", &report, false);

    assert_eq!(status.outcome, "partial_success");
    assert!(!status.gate_blocked);
    assert!(status.tests_passing > 0, "tests_passing should be > 0");
    assert!(status.tests_failing > 0, "tests_failing should be > 0");
}

#[test]
fn test_status_file_outcome_reflects_gate_blocked() {
    let report = make_mixed_report();
    let status = build_status_report("gate-test", &report, true);

    assert_eq!(status.outcome, "gate_blocked");
    assert!(status.gate_blocked);
}

#[test]
fn test_compact_format_outputs_single_line_summary() {
    let report = make_mixed_report();
    let output = format_verification_compact(&report);

    assert!(output.contains('\u{2713}'), "should contain ✓ for pass");
    assert!(output.contains('\u{2717}'), "should contain ✗ for fail");
    assert!(output.contains('\u{2298}'), "should contain ⊘ for skip");
    assert!(output.contains("1/3 pass"), "should contain pass count summary");
    assert!(output.contains("1 fail"), "should contain the fail count");
    assert!(output.contains("1 skip"), "should contain the skip count");
    let line_count = output.lines().count();
    assert!(line_count <= 3, "compact output should be at most 3 lines, got {line_count}");
}

// === Further cases ===

#[test]
fn compact_format_exact() {
    let report = make_mixed_report();
    assert_eq!(
        format_verification_compact(&report),
        "\u{2713} pass scenario  \u{2717} fail scenario  \u{2298} skip scenario  | 1/3 pass, 1 fail, 1 skip"
    );
    assert_eq!(format_verification(&report, &OutputFormat::Compact, &rate(&report.summary)).unwrap(), format_verification_compact(&report));
}

#[test]
fn verification_text_exact() {
    let report = VerificationReport {
        spec_name: "s".into(),
        results: vec![ScenarioResult {
            scenario_name: "one".into(),
            verdict: Verdict::Fail,
            step_results: vec![StepVerdict { step_text: "it works".into(), verdict: Verdict::Fail, reason: "no".into() }],
            evidence: vec![Evidence::CodeSnippet { file: "a.rs".into(), line: 7, content: "x".into() }],
            duration_ms: 1,
        }],
        summary: summary(3, 2, 1, 0, 0),
    };
    let text = format_verification(&report, &OutputFormat::Text, &rate(&report.summary)).unwrap();
    assert_eq!(
        text,
        "Spec: s\nResults: 3 total, 2 passed, 1 failed, 0 skipped, 0 uncertain, 0 pending_review\n\n  [FAIL] one\n    x it works\n      reason: no\n    > a.rs:7: x\n\nPass rate: 66.7%\n"
    );
}

#[test]
fn pass_rate_text_is_the_callers() {
    let mut report = make_mixed_report();
    report.summary = summary(80, 23, 57, 0, 0);
    // `{:.1}` of the floating-point percentage: 0.2875 is not exact in binary.
    assert_eq!(rate(&report.summary), "28.7");
    assert!(format_verification(&report, &OutputFormat::Text, &rate(&report.summary)).unwrap().contains("Pass rate: 28.7%"));
    report.summary = summary(0, 0, 0, 0, 0);
    assert!(format_verification(&report, &OutputFormat::Text, &rate(&report.summary)).unwrap().contains("Pass rate: 0.0%"));
    let md = format_verification(&report, &OutputFormat::Markdown, "12.5").unwrap();
    assert!(md.contains("| 0 | 0 | 0 | 0 | 0 | 12.5% |"));
}

#[test]
fn json_formats_are_left_to_the_caller() {
    let report = make_mixed_report();
    assert!(format_verification(&report, &OutputFormat::Json, &rate(&report.summary)).is_none());
    assert!(format_verification(&report, &OutputFormat::Diagnostic, &rate(&report.summary)).is_none());
    assert!(format_verification(&report, &OutputFormat::Markdown, &rate(&report.summary)).unwrap().starts_with("# Verification: mixed-test"));
}

#[test]
fn status_outcomes() {
    let mut report = make_mixed_report();
    report.summary = summary(2, 0, 2, 0, 0);
    assert_eq!(build_status_report("f", &report, false).outcome, "fail");
    report.summary = summary(0, 0, 0, 0, 0);
    assert_eq!(build_status_report("e", &report, false).outcome, "partial_success");
    let st = status_report_at("all", &make_all_pass_report(), false, 1_700_000_000);
    assert_eq!(st.timestamp, 1_700_000_000);
    assert_eq!(st.notes, "2/2 passed, 0 failed, 0 skipped, 0 uncertain, 0 pending_review");
    assert_eq!(st.scenarios[1].verdict, "pass");
    assert_eq!(st.scenarios[1].duration_ms, 20);
    assert_eq!(st.spec, "all");
}

#[test]
fn cost_report_formats() {
    let report = cost_fixture();
    assert_eq!(
        format_cost_report(&report, &OutputFormat::Text).unwrap(),
        "Cost Report: cost test\n\n  [test] scenarios=3, duration=150ms, tokens=0\n  [ai] scenarios=2, duration=500ms, tokens=1200\n\n  Total: duration=650ms, tokens=1200\n"
    );
    let md = format_cost_report(&report, &OutputFormat::Markdown).unwrap();
    assert!(md.ends_with("| **Total** | | **650** | **1200** |\n"));
    assert_eq!(
        format_cost_report(&report, &OutputFormat::Compact).unwrap(),
        format_cost_report(&report, &OutputFormat::Text).unwrap()
    );
}

fn lint_fixture() -> LintReport {
    LintReport {
        spec_name: "lint me".into(),
        diagnostics: vec![LintDiagnostic {
            rule: "vague-verb".into(),
            severity: Severity::Warning,
            message: "step is vague".into(),
            span: Span::line(4),
            suggestion: Some("name the observable result".into()),
        }],
        quality_score: QualityScore { overall: 80, determinism: 90, testability: 70, coverage: 100 },
    }
}

#[test]
fn lint_formats() {
    let report = lint_fixture();
    let text = format_lint(&report, &OutputFormat::Text).unwrap();
    assert!(text.contains("vague-verb"));
    assert!(text.contains("step is vague"));
    let md = format_lint(&report, &OutputFormat::Markdown).unwrap();
    assert!(md.starts_with("# Lint: lint me\n\n**Quality Score: 80%** (determinism: 90%, testability: 70%, coverage: 100%)\n\n"));
    assert!(md.contains("| 🟡 Warning | vague-verb | 4 | step is vague |\n"));
    assert!(format_lint(&report, &OutputFormat::Json).is_none());
}

#[test]
fn explain_formats() {
    let input = ExplainInput {
        name: "Explain".into(),
        intent: "Say what the task is".into(),
        must: vec!["Keep it short".into()],
        must_not: vec![],
        decisions: vec!["Use text".into()],
        allowed_changes: vec!["src/**".into()],
        forbidden: vec![],
        out_of_scope: vec![],
    };
    let report = make_all_pass_report();
    let text = format_explain(&input, &report, &OutputFormat::Text, &rate(&report.summary)).unwrap();
    assert!(text.contains("Explain"));
    assert!(text.contains("=== Contract Review: Explain ==="));
    assert!(text.contains("Use text"));
    assert!(text.contains("src/**"));
    let md = format_explain(&input, &report, &OutputFormat::Markdown, &rate(&report.summary)).unwrap();
    assert!(md.contains("Say what the task is"));
    assert!(format_explain(&input, &report, &OutputFormat::Json, &rate(&report.summary)).is_none());
}

#[test]
fn test_binding_is_first_test_output() {
    let ev = vec![
        Evidence::CodeSnippet { file: "a.rs".into(), line: 1, content: "x".into() },
        Evidence::TestOutput {
            test_name: "t1".into(),
            stdout: String::new(),
            passed: true,
            package: None,
            level: None,
            test_double: None,
            targets: None,
        },
        Evidence::TestOutput {
            test_name: "t2".into(),
            stdout: String::new(),
            passed: false,
            package: None,
            level: None,
            test_double: None,
            targets: None,
        },
    ];
    assert_eq!(test_binding_index(&ev), Some(1));
    assert_eq!(test_binding_index(&ev[..1].to_vec()), None);
}

#[test]
fn cost_totals_overflow() {
    let mut report = cost_fixture();
    assert_eq!(cost_totals_checked(&report.entries), Some((650, 1200)));
    report.entries.push(CostEntry { layer: "big".into(), scenarios_hit: 0, duration_ms: u64::MAX, token_count: 0 });
    assert_eq!(cost_totals_checked(&report.entries), None);
}

#[test]
fn explain_ignores_steps_and_other_evidence() {
    let input = ExplainInput {
        name: "E".into(),
        intent: "i".into(),
        must: vec![],
        must_not: vec![],
        decisions: vec![],
        allowed_changes: vec![],
        forbidden: vec![],
        out_of_scope: vec![],
    };
    let a = make_all_pass_report();
    let mut b = make_all_pass_report();
    b.results[0].duration_ms = 999;
    b.results[0].step_results = vec![StepVerdict { step_text: "s".into(), verdict: Verdict::Fail, reason: "r".into() }];
    b.results[0].evidence = vec![Evidence::CodeSnippet { file: "f.rs".into(), line: 3, content: "c".into() }];
    for f in [OutputFormat::Text, OutputFormat::Markdown] {
        assert_eq!(format_explain(&input, &a, &f, "100.0"), format_explain(&input, &b, &f, "100.0"));
    }
}
