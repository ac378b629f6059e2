//! Verification and lint results: the inputs of the report renderers.
use vstd::prelude::*;
use crate::spec_core::ast::Span;

verus! {

/// The outcome of a scenario or step.
#[derive(Debug, Clone, Copy, PartialEq, Eq, Structural)]
pub enum Verdict {
    Pass,
    Fail,
    Skip,
    Uncertain,
    PendingReview,
}

/// The verdict of one step, with the reason behind it.
#[derive(Debug, Clone)]
pub struct StepVerdict {
    pub step_text: String,
    pub verdict: Verdict,
    pub reason: String,
}

/// Evidence gathered while verifying a scenario.
#[derive(Debug, Clone)]
pub enum Evidence {
    CodeSnippet { file: String, line: usize, content: String },
    PatternMatch { pattern: String, matched: bool, locations: Vec<String> },
    TestOutput {
        test_name: String,
        stdout: String,
        passed: bool,
        package: Option<String>,
        level: Option<String>,
        test_double: Option<String>,
        targets: Option<String>,
    },
    /// `confidence` is in hundredths: 0 stands for 0.00, 100 for 1.00.
    AiAnalysis { model: String, confidence: u64, reasoning: String },
}

/// The result of verifying one scenario.
#[derive(Debug, Clone)]
pub struct ScenarioResult {
    pub scenario_name: String,
    pub verdict: Verdict,
    pub step_results: Vec<StepVerdict>,
    pub evidence: Vec<Evidence>,
    pub duration_ms: u64,
}

/// Verdict counts of a verification run.
#[derive(Debug, Clone, Copy, PartialEq, Eq, Structural)]
pub struct VerificationSummary {
    pub total: usize,
    pub passed: usize,
    pub failed: usize,
    pub skipped: usize,
    pub uncertain: usize,
    pub pending_review: usize,
}

/// The outcome of verifying a spec.
#[derive(Debug, Clone)]
pub struct VerificationReport {
    pub spec_name: String,
    pub results: Vec<ScenarioResult>,
    pub summary: VerificationSummary,
}

/// Severity of a lint diagnostic.
#[derive(Debug, Clone, Copy, PartialEq, Eq, Structural)]
pub enum Severity {
    Error,
    Warning,
    Info,
}

/// One finding of the spec linter.
#[derive(Debug, Clone)]
pub struct LintDiagnostic {
    pub rule: String,
    pub severity: Severity,
    pub message: String,
    pub span: Span,
    pub suggestion: Option<String>,
}

/// Quality scores of a spec, each in whole percent.
#[derive(Debug, Clone, Copy, PartialEq, Eq, Structural)]
pub struct QualityScore {
    pub overall: u64,
    pub determinism: u64,
    pub testability: u64,
    pub coverage: u64,
}

/// The outcome of linting a spec.
#[derive(Debug, Clone)]
pub struct LintReport {
    pub spec_name: String,
    pub diagnostics: Vec<LintDiagnostic>,
    pub quality_score: QualityScore,
}

} // verus!
