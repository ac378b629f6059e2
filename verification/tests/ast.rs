use agent_spec::spec_core::ast::{critical_marked, ReviewMode, Scenario, ScenarioMode, Span, TestSelector};
use agent_spec::spec_gateway::TaskContract;

fn scenario(name: &str, tags: Vec<String>) -> Scenario {
    Scenario {
        name: name.into(),
        steps: vec![],
        test_selector: None,
        tags,
        review: ReviewMode::default(),
        mode: ScenarioMode::default(),
        depends_on: vec![],
        span: Span::default(),
    }
}

#[test]
fn critical_by_tag_or_suffix() {
    assert!(scenario("login", vec!["CRITICAL".into()]).is_critical());
    assert!(scenario("login (critical)", vec![]).is_critical());
    assert!(scenario("login (Critical)", vec![]).is_critical());
    assert!(scenario("用户注册成功（critical）", vec![]).is_critical());
    assert!(!scenario("login", vec!["critical-path".into()]).is_critical());
    assert!(!scenario("login (critical) ", vec![]).is_critical());
    assert!(critical_marked(&vec![], "x (critical)"));
    assert!(!critical_marked(&vec![], "x (CRITICAL)"));
}

#[test]
fn display_name_strips_marker() {
    assert_eq!(scenario("login (critical)", vec![]).display_name(), "login");
    assert_eq!(scenario("login   (CRITICAL)  ", vec![]).display_name(), "login");
    assert_eq!(scenario("用户注册成功（critical）", vec![]).display_name(), "用户注册成功");
    assert_eq!(scenario("login (fast)", vec![]).display_name(), "login (fast)");
    assert_eq!(scenario("plain  ", vec![]).display_name(), "plain");
}

#[test]
fn modes_and_defaults() {
    assert!(ScenarioMode::default().is_standard());
    assert!(!ScenarioMode::Optimize.is_standard());
    assert!(ReviewMode::default().is_auto());
    assert!(!ReviewMode::Human.is_auto());
}

#[test]
fn selector_label() {
    let t = TestSelector::filter_only("test_a");
    assert_eq!(t.label(), "test_a");
    assert!(t.package.is_none() && t.level.is_none() && t.test_double.is_none() && t.targets.is_none());
    let mut p = t.clone();
    p.package = Some("agent-spec".into());
    assert_eq!(p.label(), "agent-spec::test_a");
}

#[test]
fn spans() {
    let s = Span::new(1, 2, 3, 4);
    assert_eq!((s.start_line, s.start_col, s.end_line, s.end_col), (1, 2, 3, 4));
    let l = Span::line(7);
    assert_eq!((l.start_line, l.end_line, l.start_col, l.end_col), (7, 7, 0, 0));
}

#[test]
fn contract_prompt_layout() {
    let c = TaskContract {
        name: "T".into(),
        intent: "Do it".into(),
        must: vec!["a".into()],
        must_not: vec![],
        decisions: vec![],
        allowed_changes: vec!["src/**".into()],
        forbidden: vec![],
        out_of_scope: vec![],
        completion_criteria: vec![],
    };
    assert_eq!(
        c.to_prompt(),
        "# Task Contract: T\n\n## Intent\n\nDo it\n\n## Must\n\n- a\n\n## Boundaries\n\n### Allowed Changes\n\n- src/**\n\n"
    );
}
