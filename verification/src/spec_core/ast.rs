//! The parsed model of a spec document.
use vstd::prelude::*;
use crate::text::{
    ascii_lower, chars_eq, chars_of, ends_with, ends_with_exec, eq_ignore_ascii_case, is_whitespace,
    slice_chars, starts_with, trim_end,
};

verus! {

/// Spec hierarchy level.
#[derive(Debug, Clone, Copy, PartialEq, Eq, Structural)]
pub enum SpecLevel {
    Org,
    Project,
    Task,
}

/// Language used in the spec.
#[derive(Debug, Clone, Copy, PartialEq, Eq, Structural)]
pub enum Lang {
    Zh,
    En,
}

/// Front-matter metadata of a spec file.
#[derive(Debug, Clone)]
pub struct SpecMeta {
    pub level: SpecLevel,
    pub name: String,
    pub inherits: Option<String>,
    pub lang: Vec<Lang>,
    pub tags: Vec<String>,
    /// Spec-level dependencies: names of other specs this spec depends on.
    pub depends: Vec<String>,
    /// Estimated effort (e.g., "0.5d", "2d", "1w").
    pub estimate: Option<String>,
}

/// A parsed .spec document.
#[derive(Debug, Clone)]
pub struct SpecDocument {
    pub meta: SpecMeta,
    pub sections: Vec<Section>,
    /// Where the document was read from (not part of its serialized form).
    pub source_path: String,
}

/// A top-level section in the spec body.
#[derive(Debug, Clone)]
pub enum Section {
    Intent { content: String, span: Span },
    Constraints { items: Vec<Constraint>, span: Span },
    Decisions { items: Vec<String>, span: Span },
    Boundaries { items: Vec<Boundary>, span: Span },
    AcceptanceCriteria { scenarios: Vec<Scenario>, span: Span },
    OutOfScope { items: Vec<String>, span: Span },
}

/// A single constraint line.
#[derive(Debug, Clone)]
pub struct Constraint {
    pub text: String,
    pub category: ConstraintCategory,
    pub span: Span,
}

/// Constraint categories matching the DSL sections.
#[derive(Debug, Clone, Copy, PartialEq, Eq, Structural)]
pub enum ConstraintCategory {
    Must,
    MustNot,
    Decided,
    General,
}

/// A task boundary item.
#[derive(Debug, Clone)]
pub struct Boundary {
    pub text: String,
    pub category: BoundaryCategory,
    pub span: Span,
}

/// Boundary categories for task contracts.
#[derive(Debug, Clone, Copy, PartialEq, Eq, Structural)]
pub enum BoundaryCategory {
    Allow,
    Deny,
    General,
}

/// Scenario execution mode.
#[derive(Debug, Clone, Copy, PartialEq, Eq, Structural)]
pub enum ScenarioMode {
    Standard,
    Optimize,
}

impl Default for ScenarioMode {
    fn default() -> (m: Self)
        ensures
            m == ScenarioMode::Standard,
    {
        ScenarioMode::Standard
    }
}

impl ScenarioMode {
    pub fn is_standard(&self) -> (b: bool)
        ensures
            b == (*self == ScenarioMode::Standard),
    {
        *self == ScenarioMode::Standard
    }
}

/// Review mode for a scenario: whether it needs human review after passing.
#[derive(Debug, Clone, Copy, PartialEq, Eq, Structural)]
pub enum ReviewMode {
    Auto,
    Human,
}

impl Default for ReviewMode {
    fn default() -> (m: Self)
        ensures
            m == ReviewMode::Auto,
    {
        ReviewMode::Auto
    }
}

impl ReviewMode {
    pub fn is_auto(&self) -> (b: bool)
        ensures
            b == (*self == ReviewMode::Auto),
    {
        *self == ReviewMode::Auto
    }
}

/// A BDD scenario.
#[derive(Debug, Clone)]
pub struct Scenario {
    pub name: String,
    pub steps: Vec<Step>,
    pub test_selector: Option<TestSelector>,
    pub tags: Vec<String>,
    pub review: ReviewMode,
    pub mode: ScenarioMode,
    pub depends_on: Vec<String>,
    pub span: Span,
}

/// The Unicode lowercase mapping of a text, as `str::to_lowercase` computes it.
pub uninterp spec fn lowercase(s: Seq<char>) -> Seq<char>;

/// `str::to_lowercase`: the Unicode lowercase mapping of `s`.  The contract
/// claims only that the result is `lowercase` of the argument; nothing of
/// the mapping itself is stated.
#[verifier::external_body]
pub(crate) fn to_lowercase(s: &str) -> (r: String)
    ensures
        r@ == lowercase(s@),
{
    s.to_lowercase()
}

/// The index of the last `c` in `s[..end]`.
pub open spec fn last_char_index(s: Seq<char>, c: char, end: int) -> Option<int>
    decreases end,
{
    if end <= 0 || end > s.len() {
        None
    } else if s[end - 1] == c {
        Some(end - 1)
    } else {
        last_char_index(s, c, end - 1)
    }
}

/// The ASCII-parenthesised critical marker.
pub open spec fn critical_suffix() -> Seq<char> {
    "(critical)"@
}

/// The fullwidth-parenthesised critical marker.
pub open spec fn critical_suffix_wide() -> Seq<char> {
    "（critical）"@
}

/// A scenario is critical when a tag equals `critical` ignoring ASCII case,
/// or when its lowercased name ends with `(critical)` or `（critical）`.
pub open spec fn scenario_is_critical(tags: Seq<String>, name: Seq<char>) -> bool {
    ||| exists|i: int| 0 <= i < tags.len() && eq_ignore_ascii_case(#[trigger] tags[i]@, "critical"@)
    ||| ends_with(lowercase(name), critical_suffix())
    ||| ends_with(lowercase(name), critical_suffix_wide())
}

/// Strips a trailing marker `m` (whose opening bracket is `open`) from the
/// already right-trimmed `t`, when the text from the last `open` lowercases to `m`.
pub open spec fn strip_marker(t: Seq<char>, open: char, m: Seq<char>) -> Option<Seq<char>> {
    match last_char_index(t, open, t.len() as int) {
        Some(i) => if lowercase(t.subrange(i, t.len() as int)) == m {
            Some(trim_end(t.subrange(0, i)))
        } else {
            None
        },
        None => None,
    }
}

/// The display name: the right-trimmed name without a trailing critical marker.
pub open spec fn scenario_display_name(name: Seq<char>) -> Seq<char> {
    let t = trim_end(name);
    match strip_marker(t, '(', critical_suffix()) {
        Some(r) => r,
        None => match strip_marker(t, '（', critical_suffix_wide()) {
            Some(r) => r,
            None => t,
        },
    }
}

/// `trim_end(s)` is a prefix of `s`.
proof fn lemma_trim_end_prefix(s: Seq<char>)
    ensures
        trim_end(s).len() <= s.len(),
        trim_end(s) == s.subrange(0, trim_end(s).len() as int),
    decreases s.len(),
{
    if s.len() > 0 && crate::text::is_ws(s.last()) {
        lemma_trim_end_prefix(s.drop_last());
        assert(s.drop_last().subrange(0, trim_end(s).len() as int) =~= s.subrange(0, trim_end(s).len() as int));
    } else {
        assert(s.subrange(0, s.len() as int) =~= s);
    }
}

/// The display name is a start of the name: stripping the critical marker
/// and trailing blanks only ever removes text at the end.
pub proof fn law_display_name_is_prefix(name: Seq<char>)
    ensures
        starts_with(name, scenario_display_name(name)),
{
    let t = trim_end(name);
    lemma_trim_end_prefix(name);
    lemma_last_char_index(t, '(', t.len() as int);
    lemma_last_char_index(t, '（', t.len() as int);
    let d = scenario_display_name(name);
    if d != t {
        let i = if strip_marker(t, '(', critical_suffix()) is Some {
            last_char_index(t, '(', t.len() as int)->0
        } else {
            last_char_index(t, '（', t.len() as int)->0
        };
        assert(d == trim_end(t.subrange(0, i)));
        lemma_trim_end_prefix(t.subrange(0, i));
        assert(d =~= name.subrange(0, d.len() as int));
    } else {
        assert(d =~= name.subrange(0, d.len() as int));
    }
}

/// `str::eq_ignore_ascii_case`.
pub fn eq_ignore_ascii_case_exec(a: &[char], b: &[char]) -> (r: bool)
    ensures
        r == eq_ignore_ascii_case(a@, b@),
{
    if a.len() != b.len() {
        return false;
    }
    let mut i: usize = 0;
    while i < a.len()
        invariant
            a@.len() == b@.len(),
            0 <= i <= a@.len(),
            forall|j: int| 0 <= j < i ==> ascii_lower(a@[j]) == ascii_lower(b@[j]),
        decreases a@.len() - i,
    {
        if ascii_lower_exec(a[i]) != ascii_lower_exec(b[i]) {
            return false;
        }
        i += 1;
    }
    true
}

/// `char::to_ascii_lowercase`.
pub fn ascii_lower_exec(c: char) -> (r: char)
    ensures
        r == ascii_lower(c),
{
    if 'A' <= c && c <= 'Z' {
        let u: u8 = (c as u8) + 32;
        u as char
    } else {
        c
    }
}

/// The index of the last `c` in `s[..end]`.
pub fn last_char_index_exec(s: &[char], c: char, end: usize) -> (r: Option<usize>)
    requires
        end <= s@.len(),
    ensures
        match r {
            Some(k) => last_char_index(s@, c, end as int) == Some(k as int),
            None => last_char_index(s@, c, end as int) is None,
        },
    decreases end,
{
    if end == 0 {
        None
    } else if s[end - 1] == c {
        Some(end - 1)
    } else {
        last_char_index_exec(s, c, end - 1)
    }
}

pub proof fn lemma_last_char_index(s: Seq<char>, c: char, end: int)
    ensures
        match last_char_index(s, c, end) {
            Some(k) => 0 <= k < end && k < s.len() && s[k] == c,
            None => true,
        },
    decreases end,
{
    if 0 < end <= s.len() && s[end - 1] != c {
        lemma_last_char_index(s, c, end - 1);
    }
}

/// Whether a scenario with tags `tags` and lowercased name `lower_name` is
/// marked critical: a tag equal to `critical` ignoring ASCII case, or a
/// `(critical)` / `（critical）` suffix.
pub fn critical_marked(tags: &Vec<String>, lower_name: &str) -> (b: bool)
    ensures
        b == ((exists|i: int| 0 <= i < tags@.len() && eq_ignore_ascii_case(#[trigger] tags@[i]@, "critical"@))
            || ends_with(lower_name@, critical_suffix()) || ends_with(lower_name@, critical_suffix_wide())),
{
    let critical = chars_of("critical");
    let mut i: usize = 0;
    while i < tags.len()
        invariant
            0 <= i <= tags@.len(),
            critical@ == "critical"@,
            forall|j: int| 0 <= j < i ==> !eq_ignore_ascii_case(#[trigger] tags@[j]@, "critical"@),
        decreases tags@.len() - i,
    {
        let t = chars_of(tags[i].as_str());
        if eq_ignore_ascii_case_exec(&t, &critical) {
            return true;
        }
        i += 1;
    }
    let lower_chars = chars_of(lower_name);
    let s1 = chars_of("(critical)");
    let s2 = chars_of("（critical）");
    ends_with_exec(&lower_chars, &s1) || ends_with_exec(&lower_chars, &s2)
}

impl Scenario {
    /// Returns `true` if this scenario is marked as critical — either via a
    /// `critical` tag or a `(critical)` / `（critical）` name suffix (case-insensitive).
    pub fn is_critical(&self) -> (b: bool)
        ensures
            b == scenario_is_critical(self.tags@, self.name@),
    {
        let lower = to_lowercase(self.name.as_str());
        let l = lower.as_str();
        assert(l@ == lowercase(self.name@));
        critical_marked(&self.tags, l)
    }

    /// Returns the scenario name with any trailing `(critical)` / `（critical）`
    /// suffix stripped, suitable for display purposes.
    pub fn display_name(&self) -> (r: &str)
        ensures
            r@ == scenario_display_name(self.name@),
    {
        let name = self.name.as_str();
        let chars = chars_of(name);
        let (z, e) = trim_end_bounds(&chars);
        assert(z == 0);
        let trimmed = name.substring_char(0, e);
        let tc = slice_chars(&chars, 0, e);
        let ghost t = trim_end(self.name@);
        assert(tc@ == t);
        if let Some(idx) = last_char_index_exec(&tc, '(', e) {
            proof { lemma_last_char_index(t, '(', t.len() as int); }
            let suffix = to_lowercase(trimmed.substring_char(idx, e));
            let sc = chars_of(suffix.as_str());
            let m = chars_of("(critical)");
            if chars_eq(&sc, &m) {
                let (z2, e2) = trim_end_bounds_prefix(&tc, idx);
                assert(z2 == 0);
                return name.substring_char(0, e2);
            }
        }
        if let Some(idx) = last_char_index_exec(&tc, '（', e) {
            proof { lemma_last_char_index(t, '（', t.len() as int); }
            let suffix = to_lowercase(trimmed.substring_char(idx, e));
            let sc = chars_of(suffix.as_str());
            let m = chars_of("（critical）");
            if chars_eq(&sc, &m) {
                let (z2, e2) = trim_end_bounds_prefix(&tc, idx);
                assert(z2 == 0);
                return name.substring_char(0, e2);
            }
        }
        trimmed
    }
}

/// Bounds of `trim_end(s)`.
fn trim_end_bounds(s: &[char]) -> (r: (usize, usize))
    ensures
        r.0 == 0,
        r.1 <= s@.len(),
        s@.subrange(0, r.1 as int) == trim_end(s@),
{
    let r = trim_end_bounds_prefix(s, s.len());
    assert(s@.subrange(0, s@.len() as int) =~= s@);
    r
}

/// Bounds of `trim_end(s[..end])`.
pub(crate) fn trim_end_bounds_prefix(s: &[char], end: usize) -> (r: (usize, usize))
    requires
        end <= s@.len(),
    ensures
        r.0 == 0,
        r.1 <= end,
        s@.subrange(0, r.1 as int) == trim_end(s@.subrange(0, end as int)),
{
    let mut b = end;
    while b > 0 && is_whitespace(s[b - 1])
        invariant
            b <= end <= s@.len(),
            trim_end(s@.subrange(0, end as int)) == trim_end(s@.subrange(0, b as int)),
        decreases b,
    {
        assert(s@.subrange(0, b as int).drop_last() =~= s@.subrange(0, b - 1));
        b -= 1;
    }
    (0, b)
}

/// Structured test selector for binding a scenario to test execution.
#[derive(Debug, Clone, PartialEq, Eq)]
pub struct TestSelector {
    pub filter: String,
    pub package: Option<String>,
    pub level: Option<String>,
    pub test_double: Option<String>,
    pub targets: Option<String>,
}

/// The label of a selector: `package::filter`, or the filter alone.
pub open spec fn selector_label(package: Option<String>, filter: Seq<char>) -> Seq<char> {
    match package {
        Some(p) => p@ + "::"@ + filter,
        None => filter,
    }
}

impl TestSelector {
    pub fn filter_only(filter: &str) -> (t: Self)
        ensures
            t.filter@ == filter@,
            t.package is None,
            t.level is None,
            t.test_double is None,
            t.targets is None,
    {
        TestSelector {
            filter: filter.to_owned(),
            package: None,
            level: None,
            test_double: None,
            targets: None,
        }
    }

    pub fn label(&self) -> (s: String)
        ensures
            s@ == selector_label(self.package, self.filter@),
    {
        match &self.package {
            Some(package) => {
                let mut s = package.clone();
                s.append("::");
                s.append(self.filter.as_str());
                s
            },
            None => self.filter.clone(),
        }
    }
}

/// BDD step keyword.
#[derive(Debug, Clone, Copy, PartialEq, Eq, Structural)]
pub enum StepKind {
    Given,
    When,
    Then,
    And,
    But,
}

/// A single Given/When/Then step.
#[derive(Debug, Clone)]
pub struct Step {
    pub kind: StepKind,
    pub text: String,
    pub params: Vec<String>,
    pub table: Vec<Vec<String>>,
    pub span: Span,
}

/// Source location span.
#[derive(Debug, Clone, Copy, PartialEq, Eq, Structural)]
pub struct Span {
    pub start_line: usize,
    pub end_line: usize,
    pub start_col: usize,
    pub end_col: usize,
}

impl Default for Span {
    fn default() -> (s: Self)
        ensures
            s == (Span { start_line: 0, end_line: 0, start_col: 0, end_col: 0 }),
    {
        Span { start_line: 0, end_line: 0, start_col: 0, end_col: 0 }
    }
}

impl Span {
    pub fn new(start_line: usize, start_col: usize, end_line: usize, end_col: usize) -> (s: Self)
        ensures
            s == (Span { start_line, end_line, start_col, end_col }),
    {
        Span { start_line, end_line, start_col, end_col }
    }

    pub fn line(line: usize) -> (s: Self)
        ensures
            s == (Span { start_line: line, end_line: line, start_col: 0, end_col: 0 }),
    {
        Span { start_line: line, end_line: line, start_col: 0, end_col: 0 }
    }
}

/// A resolved spec with inherited constraints merged.
#[derive(Debug, Clone)]
pub struct ResolvedSpec {
    pub task: SpecDocument,
    pub inherited_constraints: Vec<Constraint>,
    pub inherited_decisions: Vec<String>,
    pub all_scenarios: Vec<Scenario>,
}

} // verus!
