use agent_spec::spec_core::ast::{
    Boundary, BoundaryCategory, ResolvedSpec, ReviewMode, Scenario, ScenarioMode, Section, Span, SpecDocument,
    SpecLevel, SpecMeta, Step, StepKind, TestSelector,
};
use agent_spec::spec_gateway::plan::{
    assemble_codebase_context, build_plan_context, build_task_sketch, collect_allowed_patterns,
    collect_boundary_paths_for_scenarios, entry_action, extract_base_dir, extract_pub_signatures, extract_summary,
    extract_test_functions, format_plan_prompt, format_plan_text, gitignore_rules, is_gitignored, looks_like_path,
    match_segments, normalize_pattern, path_matches_pattern, pattern_base_mentioned, segment_matches, CodebaseContext,
    EntryAction, PatternScan, PlanContext, ScanDepth, ScannedFile,
};
use agent_spec::spec_gateway::TaskContract;

fn make_test_contract() -> TaskContract {
    TaskContract {
        name: "Test Task".into(),
        intent: "Test intent".into(),
        must: vec!["must do X".into()],
        must_not: vec!["must not do Y".into()],
        decisions: vec!["decision A".into()],
        allowed_changes: vec!["src/spec_gateway/**".into()],
        forbidden: vec!["src/spec_parser/**".into()],
        out_of_scope: vec!["AI generation".into()],
        completion_criteria: Vec::new(),
    }
}

fn plain_scenario(name: &str, depends_on: Vec<String>) -> Scenario {
    Scenario {
        name: name.into(),
        steps: vec![],
        test_selector: None,
        tags: Vec::new(),
        review: ReviewMode::Auto,
        mode: ScenarioMode::Standard,
        depends_on,
        span: Span::default(),
    }
}

fn make_spec(name: &str, allow: &str, scenarios: Vec<Scenario>) -> ResolvedSpec {
    ResolvedSpec {
        task: SpecDocument {
            meta: SpecMeta {
                level: SpecLevel::Task,
                name: name.into(),
                inherits: None,
                lang: vec![],
                tags: vec![],
                depends: vec![],
                estimate: None,
            },
            sections: vec![Section::Boundaries {
                items: vec![Boundary { category: BoundaryCategory::Allow, text: allow.into(), span: Span::default() }],
                span: Span::default(),
            }],
            source_path: String::new(),
        },
        inherited_constraints: Vec::new(),
        inherited_decisions: Vec::new(),
        all_scenarios: scenarios,
    }
}

fn make_test_resolved() -> ResolvedSpec {
    let mut a = plain_scenario("scenario A", Vec::new());
    a.steps = vec![Step {
        kind: StepKind::When,
        text: "execute plan".into(),
        params: Vec::new(),
        table: Vec::new(),
        span: Span::default(),
    }];
    a.test_selector = Some(TestSelector {
        filter: "test_a".into(),
        package: Some("agent-spec".into()),
        level: None,
        test_double: None,
        targets: None,
    });
    let b = plain_scenario("scenario B", Vec::new());
    let mut c = plain_scenario("scenario C", vec!["scenario A".into()]);
    c.test_selector = Some(TestSelector {
        filter: "test_c".into(),
        package: Some("agent-spec".into()),
        level: None,
        test_double: None,
        targets: None,
    });
    let d = plain_scenario("scenario D", Vec::new());
    make_spec("Test Task", "src/spec_gateway/**", vec![a, b, c, d])
}

fn file(path: &str, content: &str) -> ScannedFile {
    ScannedFile { rel_path: path.into(), content: content.into() }
}

/// What walking a small project finds under `src/spec_gateway/**`.
fn gateway_files() -> Vec<ScannedFile> {
    vec![
        file("src/spec_gateway/mod.rs", "pub mod brief;\npub mod plan;\n"),
        file(
            "src/spec_gateway/plan.rs",
            "//! Plan context assembly.\nuse std::path::Path;\n\npub fn build_plan_context() {\n}\n\n#[test]\nfn test_plan_includes_contract_section() {\n}\n",
        ),
        file(
            "src/spec_gateway/brief.rs",
            "use serde::Serialize;\n\npub struct TaskContract {\n    pub name: String,\n}\n\n#[test]\nfn test_contract_prompt() {\n}\n",
        ),
    ]
}

/// The codebase context of the plan tests: the allowed patterns of `resolved`
/// scanned as `scans` gives them.
fn context_for(
    resolved: &ResolvedSpec,
    scans: Vec<PatternScan>,
    depth: ScanDepth,
) -> (CodebaseContext, Vec<String>) {
    let allowed = collect_allowed_patterns(&resolved.task.sections);
    assert_eq!(allowed.len(), scans.len());
    let mut warnings = Vec::new();
    let ctx = assemble_codebase_context(&allowed, &scans, depth, &mut warnings);
    (ctx, warnings)
}

fn plan_for(contract: &TaskContract, resolved: &ResolvedSpec, scans: Vec<PatternScan>, depth: ScanDepth) -> PlanContext {
    let (codebase, warnings) = context_for(resolved, scans, depth);
    build_plan_context(contract, resolved, codebase, warnings)
}

#[test]
fn test_plan_includes_contract_section() {
    let contract = make_test_contract();
    let resolved = make_test_resolved();
    let ctx = plan_for(&contract, &resolved, vec![PatternScan::Found { files: gateway_files() }], ScanDepth::Shallow);

    assert_eq!(ctx.contract.name, "Test Task");
    assert_eq!(ctx.contract.intent, "Test intent");
    assert!(!ctx.contract.must.is_empty());
    assert!(!ctx.contract.decisions.is_empty());
    assert!(!ctx.contract.allowed_changes.is_empty());

    let text = format_plan_text(&ctx);
    assert!(text.contains("=== Contract ==="));
    assert!(text.contains("Intent"));
    assert!(text.contains("Boundaries"));
    assert!(text.contains("Completion Criteria") || text.contains("Must"));
}

#[test]
fn test_plan_includes_codebase_context() {
    let contract = make_test_contract();
    let resolved = make_test_resolved();
    let ctx = plan_for(&contract, &resolved, vec![PatternScan::Found { files: gateway_files() }], ScanDepth::Shallow);

    assert!(!ctx.codebase_context.files.is_empty());
    let has_summary = ctx.codebase_context.files.iter().any(|f| !f.summary.is_empty());
    assert!(has_summary);

    let text = format_plan_text(&ctx);
    assert!(text.contains("=== Codebase Context ==="));
}

#[test]
fn test_plan_includes_task_sketch() {
    let contract = make_test_contract();
    let resolved = make_test_resolved();
    let ctx = plan_for(&contract, &resolved, vec![PatternScan::Found { files: gateway_files() }], ScanDepth::Shallow);

    // At least 2 groups: {A, B, D} and {C}
    assert!(ctx.task_sketch.groups.len() >= 2);

    let a_group = ctx.task_sketch.groups.iter().find(|g| g.scenarios.contains(&"scenario A".to_string())).map(|g| g.order);
    let c_group = ctx.task_sketch.groups.iter().find(|g| g.scenarios.contains(&"scenario C".to_string())).map(|g| g.order);

    assert!(a_group.is_some());
    assert!(c_group.is_some());
    assert!(a_group.unwrap() < c_group.unwrap());

    let text = format_plan_text(&ctx);
    assert!(text.contains("=== Task Sketch ==="));
}

/// Walks a directory listing the way the codebase scan does: each entry is
/// `(relative path, is a directory)`, listed after its parent.
fn walk(entries: &[(&str, bool)], pattern: &str, rules: &[String]) -> Vec<String> {
    let mut open_dirs: Vec<String> = vec![String::new()];
    let mut found = Vec::new();
    for (path, is_dir) in entries {
        let parent = match path.rfind('/') {
            Some(i) => path[..i].to_string(),
            None => String::new(),
        };
        if !open_dirs.contains(&parent) {
            continue;
        }
        match entry_action(path, *is_dir, pattern, rules) {
            EntryAction::Descend => open_dirs.push(path.to_string()),
            EntryAction::Take => found.push(path.to_string()),
            EntryAction::Skip => {},
        }
    }
    found
}

#[test]
fn test_plan_respects_gitignore() {
    let contract = TaskContract {
        name: "Test".into(),
        intent: "Test".into(),
        must: Vec::new(),
        must_not: Vec::new(),
        decisions: Vec::new(),
        allowed_changes: vec!["**".into()],
        forbidden: Vec::new(),
        out_of_scope: Vec::new(),
        completion_criteria: Vec::new(),
    };
    let resolved = make_spec("Test", "**", Vec::new());

    let rules = gitignore_rules(Some("target/\n*.swp\n"));
    let listing = [
        ("Cargo.toml", false),
        ("src", true),
        ("src/lib.rs", false),
        ("target", true),
        ("target/debug", true),
        ("target/debug/build.rs", false),
        (".git", true),
        (".git/config", false),
    ];
    let found = walk(&listing, "**", &rules);
    let files: Vec<ScannedFile> = found.iter().map(|p| file(p, "pub fn f() {}\n")).collect();
    let ctx = plan_for(&contract, &resolved, vec![PatternScan::Found { files }], ScanDepth::Shallow);

    assert!(!ctx.codebase_context.files.is_empty());
    for file in &ctx.codebase_context.files {
        assert!(!file.path.starts_with("target/"), "target/ file should be gitignored: {}", file.path);
    }
}

#[test]
fn test_plan_prompt_format_is_self_contained() {
    let mut contract = make_test_contract();
    contract.must.push("inherited constraint from project".into());

    let resolved = make_test_resolved();
    let ctx = plan_for(&contract, &resolved, vec![PatternScan::Found { files: gateway_files() }], ScanDepth::Shallow);

    let prompt = format_plan_prompt(&ctx);

    assert!(prompt.contains("inherited constraint from project"));
    assert!(!prompt.contains("run agent-spec"));
    assert!(!prompt.contains("agent-spec plan"));
    assert!(prompt.contains("implementation plan"));
    assert!(prompt.contains("Verification (MANDATORY)"));
    assert!(prompt.contains("agent-spec lifecycle"));
    assert!(prompt.contains("Two-Stage Review"));
    assert!(prompt.contains("DONE_WITH_CONCERNS"));
    assert!(prompt.contains("BLOCKED"));
}

#[test]
fn test_plan_full_depth_includes_pub_signatures() {
    let contract = make_test_contract();
    let resolved = make_test_resolved();
    let ctx = plan_for(&contract, &resolved, vec![PatternScan::Found { files: gateway_files() }], ScanDepth::Full);

    let has_sigs = ctx.codebase_context.files.iter().any(|f| !f.pub_signatures.is_empty());
    assert!(has_sigs, "full depth should include pub signatures");
}

#[test]
fn test_plan_warns_on_missing_boundary_path() {
    let contract = TaskContract {
        name: "Test".into(),
        intent: "Test".into(),
        must: Vec::new(),
        must_not: Vec::new(),
        decisions: Vec::new(),
        allowed_changes: vec!["src/nonexistent/**".into()],
        forbidden: Vec::new(),
        out_of_scope: Vec::new(),
        completion_criteria: Vec::new(),
    };
    let resolved = make_spec("Test", "src/nonexistent/**", Vec::new());
    let scans = vec![PatternScan::Missing { resolved: "/work/project/src/nonexistent".into() }];
    let ctx = plan_for(&contract, &resolved, scans, ScanDepth::Shallow);

    assert!(!ctx.warnings.is_empty(), "should warn about missing path");
    assert!(ctx.warnings.iter().any(|w| w.contains("nonexistent")), "warning should mention the missing path");
}

#[test]
fn test_plan_lists_existing_test_functions() {
    let contract = make_test_contract();
    let resolved = make_test_resolved();
    let ctx = plan_for(&contract, &resolved, vec![PatternScan::Found { files: gateway_files() }], ScanDepth::Shallow);

    let has_tests = !ctx.codebase_context.test_functions.is_empty();
    assert!(has_tests, "should list test functions from scanned files");
    for entry in &ctx.codebase_context.test_functions {
        assert!(!entry.function_names.is_empty());
    }
}

#[test]
fn test_extract_summary_doc_comment() {
    let lines = vec!["//! Module documentation", "pub struct Foo;"];
    assert_eq!(extract_summary(&lines), "Module documentation");
}

#[test]
fn test_extract_summary_pub_item() {
    let lines = vec!["use std::path::Path;", "", "pub struct MyStruct {"];
    assert_eq!(extract_summary(&lines), "pub struct MyStruct {");
}

#[test]
fn test_extract_test_functions() {
    let lines = vec![
        "#[test]",
        "fn test_basic() {",
        "    assert!(true);",
        "}",
        "#[tokio::test]",
        "async fn test_async() {",
        "}",
    ];
    let fns = extract_test_functions(&lines);
    assert_eq!(fns, vec!["test_basic", "test_async"]);
}

#[test]
fn test_extract_pub_signatures() {
    let lines = vec![
        "pub fn hello(name: &str) -> String {",
        "    format!(\"hello {name}\")",
        "}",
        "pub struct Foo {",
        "    bar: i32,",
        "}",
        "pub enum Color {",
    ];
    let sigs = extract_pub_signatures(&lines);
    assert_eq!(sigs.len(), 3);
    assert!(sigs[0].starts_with("pub fn hello"));
    assert!(sigs[1].starts_with("pub struct Foo"));
    assert!(sigs[2].starts_with("pub enum Color"));
}

#[test]
fn test_is_gitignored() {
    let rules = vec!["target/".into(), ".git/".into(), "node_modules/".into()];
    assert!(is_gitignored("target/debug/build", &rules));
    assert!(is_gitignored(".git/config", &rules));
    assert!(!is_gitignored("src/main.rs", &rules));
}

#[test]
fn test_extract_base_dir() {
    assert_eq!(extract_base_dir("src/spec_gateway/**"), "src/spec_gateway");
    assert_eq!(extract_base_dir("**"), ".");
    assert_eq!(extract_base_dir("src/*.rs"), "src");
}

// === Further cases ===

#[test]
fn summary_takes_doc_comment_only_in_first_five_lines() {
    let lines = vec!["use a;", "use b;", "use c;", "use d;", "use e;", "//! late doc", "pub fn f() {"];
    assert_eq!(extract_summary(&lines), "pub fn f() {");
    let none: Vec<&str> = vec!["fn private() {}", "let x = 1;"];
    assert_eq!(extract_summary(&none), "");
}

#[test]
fn test_functions_need_fn_right_after_marker() {
    // Only the line right after the marker is looked at.
    let lines = vec!["#[test]", "#[should_panic]", "fn test_panics() {", "}", "#[test]", "fn test_ok() {"];
    assert_eq!(extract_test_functions(&lines), vec!["test_ok"]);
}

#[test]
fn gitignore_defaults_without_file() {
    let rules = gitignore_rules(None);
    assert_eq!(rules, vec!["target/", ".git/", "node_modules/"]);
    let parsed = gitignore_rules(Some("# comment\n\n  build/  \n.gitmodules\n"));
    assert_eq!(parsed, vec!["build/", ".gitmodules"]);
    let added = gitignore_rules(Some("dist\n"));
    assert_eq!(added, vec!["dist", ".git/"]);
}

#[test]
fn gitignore_rule_forms() {
    let rules = vec!["dist".to_string(), "*.log".to_string(), "tmp*".to_string()];
    assert!(is_gitignored("dist/app.js", &rules));
    assert!(is_gitignored("web/dist/app.js", &rules));
    assert!(is_gitignored("tmp_files/a", &rules));
    // A rule also ignores any path that contains `/` and the rule.
    assert!(is_gitignored("src/distance.rs", &rules));
    // A leading `*` is not a glob: only a trailing one is.
    assert!(!is_gitignored("app.log", &rules));
    assert!(!is_gitignored("src/main.rs", &rules));
}

#[test]
fn glob_segments() {
    assert!(segment_matches("*.rs", "main.rs"));
    assert!(!segment_matches("*.rs", "main.ts"));
    assert!(segment_matches("a*b*c", "axxbyyc"));
    assert!(!segment_matches("a*b*c", "acb"));
    assert!(segment_matches("plan", "plan"));
    assert!(!segment_matches("plan", "plans"));
    assert!(segment_matches("*", ""));
}

#[test]
fn glob_paths() {
    assert!(path_matches_pattern("**", "any/deep/path.rs"));
    assert!(path_matches_pattern("**", ""));
    assert!(path_matches_pattern("src/spec_gateway/**", "src/spec_gateway/plan.rs"));
    assert!(path_matches_pattern("src/**/*.rs", "src/a/b/c.rs"));
    assert!(path_matches_pattern("src/**/*.rs", "src/c.rs"));
    assert!(!path_matches_pattern("src/*.rs", "src/a/c.rs"));
    assert!(!path_matches_pattern("src/spec_gateway/**", "src/spec_core/ast.rs"));
    assert!(match_segments(&["src", "**"], &["src", "x", "y"]));
    assert!(!match_segments(&["src"], &["src", "x"]));
}

#[test]
fn walk_actions() {
    let rules = gitignore_rules(None);
    assert_eq!(entry_action("target", true, "**", &rules), EntryAction::Skip);
    assert_eq!(entry_action("src", true, "src/*.rs", &rules), EntryAction::Descend);
    assert_eq!(entry_action("src/lib.rs", false, "src/*.rs", &rules), EntryAction::Take);
    assert_eq!(entry_action("src/lib.ts", false, "src/*.rs", &rules), EntryAction::Skip);
}

#[test]
fn boundary_pattern_helpers() {
    assert!(looks_like_path("src/lib.rs"));
    assert!(looks_like_path("  main.py "));
    assert!(!looks_like_path("no unsafe code"));
    assert_eq!(normalize_pattern(" `./src\\spec/**/` "), "src/spec/**");
    assert!(pattern_base_mentioned("edit src/spec_gateway/plan.rs", "src/spec_gateway/**"));
    assert!(!pattern_base_mentioned("edit docs", "src/spec_gateway/**"));
}

#[test]
fn allowed_patterns_keep_path_like_allows() {
    let sections = vec![Section::Boundaries {
        items: vec![
            Boundary { category: BoundaryCategory::Allow, text: "src/a/**".into(), span: Span::default() },
            Boundary { category: BoundaryCategory::Allow, text: "be careful".into(), span: Span::default() },
            Boundary { category: BoundaryCategory::Deny, text: "src/b/**".into(), span: Span::default() },
        ],
        span: Span::default(),
    }];
    assert_eq!(collect_allowed_patterns(&sections), vec!["src/a/**"]);
}

#[test]
fn task_sketch_layers_and_order() {
    // E depends on C and B, C on A: layers {A, B, D}, {C}, {E}.
    let mut scenarios = make_test_resolved().all_scenarios;
    scenarios.push(plain_scenario("scenario E", vec!["scenario C".into(), "scenario B".into()]));
    let sketch = build_task_sketch(&scenarios, &Vec::new());
    assert_eq!(sketch.groups.len(), 3);
    assert_eq!(sketch.groups[0].order, 1);
    assert_eq!(sketch.groups[0].scenarios, vec!["scenario A", "scenario B", "scenario D"]);
    assert_eq!(sketch.groups[1].scenarios, vec!["scenario C"]);
    assert_eq!(sketch.groups[2].scenarios, vec!["scenario E"]);
    assert_eq!(sketch.groups[0].test_selectors, vec!["test_a"]);
    assert_eq!(sketch.groups[1].test_selectors, vec!["test_c"]);
}

#[test]
fn task_sketch_leaves_out_cycles_and_ignores_unknown_deps() {
    let scenarios = vec![
        plain_scenario("self", vec!["self".into()]),
        plain_scenario("x", vec!["y".into()]),
        plain_scenario("y", vec!["x".into()]),
        plain_scenario("free", vec!["missing".into()]),
    ];
    let sketch = build_task_sketch(&scenarios, &Vec::new());
    assert_eq!(sketch.groups.len(), 1);
    assert_eq!(sketch.groups[0].scenarios, vec!["free"]);
    let empty = build_task_sketch(&Vec::new(), &Vec::new());
    assert!(empty.groups.is_empty());
}

#[test]
fn boundary_paths_follow_step_mentions() {
    let resolved = make_test_resolved();
    let mut scenarios = resolved.all_scenarios.clone();
    scenarios[0].steps[0].text = "update src/spec_gateway/plan.rs".into();
    let sections = vec![Section::Boundaries {
        items: vec![
            Boundary { category: BoundaryCategory::Allow, text: "src/spec_gateway/**".into(), span: Span::default() },
            Boundary { category: BoundaryCategory::Allow, text: "docs/**".into(), span: Span::default() },
        ],
        span: Span::default(),
    }];
    let paths = collect_boundary_paths_for_scenarios(&vec![0, 1], &scenarios, &sections);
    assert_eq!(paths, vec!["src/spec_gateway/**"]);
    // Without a mention, every allowed path is relevant.
    let all = collect_boundary_paths_for_scenarios(&vec![1], &scenarios, &sections);
    assert_eq!(all, vec!["src/spec_gateway/**", "docs/**"]);
}

#[test]
fn codebase_context_sorted_deduplicated() {
    let allowed = vec!["src/**".to_string(), "src/b.rs".to_string(), "docs/**".to_string()];
    let scans = vec![
        PatternScan::Found {
            files: vec![file("src/b.rs", "#[test]\nfn t1() {}\n"), file("src/a.rs", "//! A\n")],
        },
        PatternScan::Found { files: vec![file("src/b.rs", "changed\n")] },
        PatternScan::Missing { resolved: "/p/docs".into() },
    ];
    let mut warnings = vec!["earlier".to_string()];
    let ctx = assemble_codebase_context(&allowed, &scans, ScanDepth::Shallow, &mut warnings);
    let paths: Vec<&str> = ctx.files.iter().map(|f| f.path.as_str()).collect();
    assert_eq!(paths, vec!["src/a.rs", "src/b.rs"]);
    assert_eq!(ctx.files[0].summary, "A");
    assert_eq!(ctx.test_functions.len(), 1);
    assert_eq!(ctx.test_functions[0].file, "src/b.rs");
    assert_eq!(ctx.test_functions[0].function_names, vec!["t1"]);
    assert_eq!(
        warnings,
        vec!["earlier".to_string(), "Allowed Changes path not found: docs/** (resolved to /p/docs)".to_string()]
    );
}

#[test]
fn scan_depth_parse() {
    assert_eq!(ScanDepth::parse("full"), ScanDepth::Full);
    assert_eq!(ScanDepth::parse("shallow"), ScanDepth::Shallow);
    assert_eq!(ScanDepth::parse("FULL"), ScanDepth::Shallow);
}

#[test]
fn glob_language_examples() {
    assert!(segment_matches("*.rs", "main.rs"));
    assert!(!segment_matches("*.rs", "main.rsx"));
    assert!(!segment_matches("a*a", "a"));
    assert!(segment_matches("a*a", "aa"));
    assert!(segment_matches("a*b*c", "abc"));
    assert!(segment_matches("*", ""));
    assert!(segment_matches("**", "x"));
}
