use agent_spec::spec_core::ast::{
    Constraint, ConstraintCategory, ResolvedSpec, Section, Span, SpecDocument, SpecLevel, SpecMeta,
};
use agent_spec::spec_verify::complexity::{
    all_constraints, compute_diff_stats, line_ratio_candidates, line_ratio_candidates_in,
    parse_numstat_checked, parse_numstat_output, parse_usize, quality_constraint_candidates, ComplexityVerifier,
};

fn make_resolved_spec(constraints: Vec<Constraint>) -> ResolvedSpec {
    ResolvedSpec {
        task: SpecDocument {
            meta: SpecMeta {
                level: SpecLevel::Task,
                name: "test-complexity".into(),
                inherits: None,
                lang: vec![],
                tags: vec![],
                depends: vec![],
                estimate: None,
            },
            sections: vec![Section::Constraints { items: constraints, span: Span::line(1) }],
            source_path: String::new(),
        },
        inherited_constraints: vec![],
        inherited_decisions: vec![],
        all_scenarios: vec![],
    }
}

fn line_ratio_constraint(ratio: &str) -> Constraint {
    Constraint {
        text: format!("新增代码行数不应超过删除行数的 \"{ratio}\" 倍"),
        category: ConstraintCategory::Must,
        span: Span::line(1),
    }
}

#[test]
fn test_complexity_verifier_silent_without_constraints() {
    let spec = make_resolved_spec(vec![]);
    let verifier = ComplexityVerifier;
    let limits = verifier.line_ratio_limits(&spec, &vec!["some_file.rs".to_string()]);
    assert!(limits.is_empty(), "should produce no results when there are no quality constraints");
}

#[test]
fn test_complexity_verifier_uses_git_diff_stats() {
    let output = "10\t5\tsrc/main.rs\n20\t3\tsrc/lib.rs\n-\t-\timage.png\n";
    let (added, deleted) = parse_numstat_output(output);
    assert_eq!(added, 30, "should sum added lines from text files");
    assert_eq!(deleted, 8, "should sum deleted lines from text files");

    let binary_only = "-\t-\tbinary.dat\n";
    let (a, d) = parse_numstat_output(binary_only);
    assert_eq!(a, 0);
    assert_eq!(d, 0);

    let (a, d) = parse_numstat_output("");
    assert_eq!(a, 0);
    assert_eq!(d, 0);
}

#[test]
fn test_no_constraints_no_change_paths() {
    let spec = make_resolved_spec(vec![line_ratio_constraint("3")]);
    let verifier = ComplexityVerifier;
    let limits = verifier.line_ratio_limits(&spec, &vec![]);
    assert!(limits.is_empty());
}

// === Further cases ===

#[test]
fn verifier_name() {
    assert_eq!(ComplexityVerifier.name(), "complexity");
}

#[test]
fn line_ratio_limits_with_paths() {
    let spec = make_resolved_spec(vec![line_ratio_constraint("3")]);
    let limits = ComplexityVerifier.line_ratio_limits(&spec, &vec!["src/foo.rs".to_string()]);
    assert_eq!(limits, vec![vec!["3".to_string(), String::new()]]);
}

#[test]
fn line_ratio_candidates_chinese() {
    assert_eq!(line_ratio_candidates("新增行数不超过删除行数的 \"3\" 倍"), vec!["3", ""]);
    assert_eq!(line_ratio_candidates("新增代码行数不应超过删除行数的 \"3.5\" 倍"), vec!["3.5", ""]);
    assert_eq!(line_ratio_candidates("新增行数不超过删除行数的“2”倍"), vec!["2", ""]);
    assert_eq!(line_ratio_candidates("新增行数不超过删除行数的 4 倍"), vec!["4"]);
    assert_eq!(line_ratio_candidates("新增行数不超过删除行数的 \" 5 \" 倍"), vec!["5", ""]);
}

#[test]
fn line_ratio_candidates_english() {
    assert_eq!(
        line_ratio_candidates("net lines added must not exceed \"3\" times lines deleted"),
        vec!["3", ""]
    );
    assert_eq!(line_ratio_candidates("Added lines must not EXCEED 2 TIMES lines deleted"), vec!["2"]);
    assert_eq!(line_ratio_candidates("Line ratio <= 2.5 overall"), vec!["2.5"]);
    assert_eq!(line_ratio_candidates("line_ratio <= x"), Vec::<String>::new());
    assert_eq!(line_ratio_candidates("line ratio must stay small"), Vec::<String>::new());
}

#[test]
fn line_ratio_candidates_no_match() {
    assert!(line_ratio_candidates("use clippy for linting").is_empty());
    assert!(line_ratio_candidates("no .unwrap() calls allowed").is_empty());
}

#[test]
fn line_ratio_candidates_with_given_lowercase() {
    // The lowercase form is what the English patterns read.
    assert_eq!(line_ratio_candidates_in("LINE RATIO <= 7", "line ratio <= 7"), vec!["7"]);
    assert!(line_ratio_candidates_in("LINE RATIO <= 7", "LINE RATIO <= 7").is_empty());
}

#[test]
fn quality_constraints_only_must() {
    let mut not_must = line_ratio_constraint("9");
    not_must.category = ConstraintCategory::MustNot;
    let other = Constraint { text: "keep it tidy".into(), category: ConstraintCategory::Must, span: Span::line(2) };
    let mut spec = make_resolved_spec(vec![not_must, other, line_ratio_constraint("2")]);
    spec.inherited_constraints = vec![Constraint {
        text: "line ratio <= 4".into(),
        category: ConstraintCategory::Must,
        span: Span::line(9),
    }];
    assert_eq!(all_constraints(&spec).len(), 4);
    assert_eq!(all_constraints(&spec)[0].text, "line ratio <= 4");
    let q = quality_constraint_candidates(&spec);
    assert_eq!(q, vec![vec!["4".to_string()], vec!["2".to_string(), String::new()]]);
}

#[test]
fn numstat_needs_three_fields() {
    assert_eq!(parse_numstat_output("7\t1\n3\t2\ta.rs\r\nx\t2\tb.rs\n"), (3, 2));
    assert_eq!(parse_usize(&['4', '2']), Some(42));
    assert_eq!(parse_usize(&['+', '4']), Some(4));
    assert_eq!(parse_usize(&[]), None);
    assert_eq!(parse_usize(&['-', '1']), None);
}

#[test]
fn diff_stats_against_head() {
    let paths = vec!["src/a.rs".to_string()];
    assert_eq!(compute_diff_stats(&vec![], Some("1\t1\ta\n")), (0, 0));
    assert_eq!(compute_diff_stats(&paths, Some("5\t6\ta\n")), (5, 6));
    assert_eq!(compute_diff_stats(&paths, None), (0, 0));
}

#[test]
fn numstat_overflow_is_detected() {
    assert_eq!(parse_numstat_checked("1\t2\ta\n3\t4\tb\n"), Some((4, 6)));
    let big = format!("{}\t0\ta\n1\t0\tb\n", usize::MAX);
    assert_eq!(parse_numstat_checked(&big), None);
}

/// The limit of a line-ratio constraint: the first candidate numeral that
/// reads as a number.
fn parse_line_ratio(text: &str) -> Option<f64> {
    line_ratio_candidates(text).iter().find_map(|c| c.parse::<f64>().ok())
}

#[test]
fn test_complexity_verifier_fails_on_line_ratio_exceeded() {
    let spec = make_resolved_spec(vec![line_ratio_constraint("3")]);
    let extracted: Vec<f64> = quality_constraint_candidates(&spec)
        .iter()
        .filter_map(|c| c.iter().find_map(|n| n.parse::<f64>().ok()))
        .collect();
    assert_eq!(extracted.len(), 1);
    assert_eq!(extracted[0], 3.0);

    // 100 added, 10 deleted: ratio 10.0 > 3.0 is over the limit.
    let (added, deleted) = (100_usize, 10_usize);
    let ratio = added as f64 / deleted as f64;
    assert!(ratio > 3.0, "ratio should exceed 3.0");

    let numstat_output = "80\t5\tsrc/foo.rs\n20\t5\tsrc/bar.rs\n";
    let (a, d) = parse_numstat_output(numstat_output);
    assert_eq!(a, 100);
    assert_eq!(d, 10);
    let actual_ratio = a as f64 / d as f64;
    assert!(actual_ratio > 3.0);

    // With a changed path the constraint is enforced.
    let limits = ComplexityVerifier.line_ratio_limits(&spec, &vec!["nonexistent_file_for_test.rs".to_string()]);
    assert!(!limits.is_empty());
}

#[test]
fn test_complexity_verifier_passes_on_acceptable_ratio() {
    let spec = make_resolved_spec(vec![line_ratio_constraint("3")]);
    let extracted: Vec<f64> = quality_constraint_candidates(&spec)
        .iter()
        .filter_map(|c| c.iter().find_map(|n| n.parse::<f64>().ok()))
        .collect();
    assert_eq!(extracted[0], 3.0);

    // 20 added, 10 deleted: ratio 2.0 <= 3.0 passes.
    let numstat_output = "15\t5\tsrc/foo.rs\n5\t5\tsrc/bar.rs\n";
    let (a, d) = parse_numstat_output(numstat_output);
    assert_eq!(a, 20);
    assert_eq!(d, 10);
    let actual_ratio = a as f64 / d as f64;
    assert!(actual_ratio <= 3.0, "ratio should be within limit");

    let limits = ComplexityVerifier.line_ratio_limits(&spec, &vec!["nonexistent_file_for_test.rs".to_string()]);
    assert!(!limits.is_empty());
}

#[test]
fn test_parse_line_ratio_chinese() {
    assert_eq!(parse_line_ratio("新增行数不超过删除行数的 \"3\" 倍"), Some(3.0));
    assert_eq!(parse_line_ratio("新增代码行数不应超过删除行数的 \"5\" 倍"), Some(5.0));
    assert_eq!(parse_line_ratio("新增代码行数不应超过删除行数的 \"3.5\" 倍"), Some(3.5));
}

#[test]
fn test_parse_line_ratio_english() {
    assert_eq!(parse_line_ratio("net lines added must not exceed \"3\" times lines deleted"), Some(3.0));
}

#[test]
fn test_parse_line_ratio_no_match() {
    assert_eq!(parse_line_ratio("use clippy for linting"), None);
    assert_eq!(parse_line_ratio("no .unwrap() calls allowed"), None);
}

#[test]
fn numstat_totals_add_over_outputs() {
    let a = "1\t2\ta.rs\n-\t-\tbin\n";
    let b = "3\t4\tb.rs\n5\t6\tc.rs";
    let (xa, ya) = parse_numstat_output(a);
    let (xb, yb) = parse_numstat_output(b);
    assert_eq!(parse_numstat_output(&format!("{a}{b}")), (xa + xb, ya + yb));
    assert_eq!(parse_numstat_output(&format!("{a}{b}")), (9, 12));
}
