//! Plan context: the contract, the code that the task may touch, and the
//! order in which its scenarios can be implemented.
use vstd::prelude::*;
use crate::spec_core::ast::{Boundary, BoundaryCategory, ResolvedSpec, Scenario, Section, Step};
use crate::spec_gateway::brief::{contract_prompt, contract_view, TaskContract};
use crate::text::{
    chars_eq, chars_of, char_index_from, concat_map, contains, contains_exec, ends_with, ends_with_exec,
    find_from, lemma_char_index_from, lemma_find_from_none, lemma_find_from_some, occurs_at, starts_with,
    starts_with_exec, trim_end_char, trim_end_char_exec, before_char, before_char_exec, lines, lines_exec,
    str_lt, str_less, lemma_str_lt_total, lemma_str_lt_trans, decimal, item_lines, push_item_lines,
    push_usize,
    has_char_exec, join, join_exec, lemma_concat_map_all, lemma_concat_map_step,
    replace_char, replace_char_exec, split_char, split_char_exec, string_from_chars, trim,
    trim_char, trim_char_exec, trim_exec, trim_start_matches, trim_start_matches_exec, views,
};

verus! {

/// Complete plan context: contract + codebase + task sketch.
#[derive(Debug, Clone)]
pub struct PlanContext {
    pub contract: TaskContract,
    pub codebase_context: CodebaseContext,
    pub task_sketch: TaskSketch,
    pub warnings: Vec<String>,
}

/// Scanned codebase information.
#[derive(Debug, Clone)]
pub struct CodebaseContext {
    pub files: Vec<FileEntry>,
    pub test_functions: Vec<TestEntry>,
}

/// A single file entry from the codebase scan.
#[derive(Debug, Clone)]
pub struct FileEntry {
    pub path: String,
    pub summary: String,
    pub pub_signatures: Vec<String>,
}

/// Test functions found in a file.
#[derive(Debug, Clone)]
pub struct TestEntry {
    pub file: String,
    pub function_names: Vec<String>,
}

/// Scenario grouping by topological order.
#[derive(Debug, Clone)]
pub struct TaskSketch {
    pub groups: Vec<TaskGroup>,
}

/// A group of scenarios that can be implemented together.
#[derive(Debug, Clone)]
pub struct TaskGroup {
    pub order: usize,
    pub scenarios: Vec<String>,
    pub boundary_paths: Vec<String>,
    pub test_selectors: Vec<String>,
}

/// Depth of codebase scanning.
#[derive(Debug, Clone, Copy, PartialEq, Eq, Structural)]
pub enum ScanDepth {
    Shallow,
    Full,
}

impl ScanDepth {
    /// `"full"` selects a full scan; anything else a shallow one.
    pub fn parse(s: &str) -> (d: Self)
        ensures
            d == (if s@ == "full"@ { ScanDepth::Full } else { ScanDepth::Shallow }),
    {
        let v = chars_of(s);
        let full = chars_of("full");
        if chars_eq(&v, &full) {
            ScanDepth::Full
        } else {
            ScanDepth::Shallow
        }
    }
}

/// A boundary text that names a path: it holds a separator or a glob star,
/// or ends in a common source extension.
pub open spec fn looks_like_path_spec(text: Seq<char>) -> bool {
    let t = trim(text);
    ||| t.contains('/')
    ||| t.contains('\\')
    ||| t.contains('*')
    ||| ends_with(t, ".rs"@)
    ||| ends_with(t, ".ts"@)
    ||| ends_with(t, ".js"@)
    ||| ends_with(t, ".py"@)
}

pub fn looks_like_path(text: &str) -> (b: bool)
    ensures
        b == looks_like_path_spec(text@),
{
    let v = chars_of(text);
    let t = trim_exec(&v);
    has_char_exec(&t, '/') || has_char_exec(&t, '\\') || has_char_exec(&t, '*')
        || ends_with_exec(&t, &chars_of(".rs")) || ends_with_exec(&t, &chars_of(".ts"))
        || ends_with_exec(&t, &chars_of(".js")) || ends_with_exec(&t, &chars_of(".py"))
}

/// A boundary path in canonical form: trimmed, without backticks, with `/`
/// separators, without leading `./` and without surrounding slashes.
pub open spec fn normalize_pattern_spec(p: Seq<char>) -> Seq<char> {
    trim_char(trim_start_matches(replace_char(trim_char(trim(p), '`'), '\\', '/'), "./"@), '/')
}

pub fn normalize_pattern(pattern: &str) -> (r: String)
    ensures
        r@ == normalize_pattern_spec(pattern@),
{
    let v = chars_of(pattern);
    let a = trim_exec(&v);
    let b = trim_char_exec(&a, '`');
    let c = replace_char_exec(&b, '\\', '/');
    let d = trim_start_matches_exec(&c, &chars_of("./"));
    let e = trim_char_exec(&d, '/');
    string_from_chars(&e)
}

/// The pattern an allowed boundary contributes, if it names a path.
pub open spec fn boundary_pattern(b: Boundary) -> Seq<Seq<char>> {
    if b.category == BoundaryCategory::Allow && looks_like_path_spec(b.text@) {
        seq![normalize_pattern_spec(b.text@)]
    } else {
        seq![]
    }
}

/// The patterns of one section: those of its allowed boundaries.
pub open spec fn section_patterns(s: Section) -> Seq<Seq<char>> {
    match s {
        Section::Boundaries { items, .. } => concat_map(items@, |b: Boundary| boundary_pattern(b)),
        _ => seq![],
    }
}

/// The allowed change patterns of a spec, in section and item order.
pub open spec fn allowed_patterns(sections: Seq<Section>) -> Seq<Seq<char>> {
    concat_map(sections, |s: Section| section_patterns(s))
}

/// Extract allowed change patterns from spec boundaries.
pub fn collect_allowed_patterns(sections: &Vec<Section>) -> (r: Vec<String>)
    ensures
        views(r@) == allowed_patterns(sections@),
{
    let ghost fs = |s: Section| section_patterns(s);
    let mut allowed: Vec<String> = Vec::new();
    let mut i: usize = 0;
    while i < sections.len()
        invariant
            0 <= i <= sections@.len(),
            fs == (|s: Section| section_patterns(s)),
            views(allowed@) == concat_map(sections@.take(i as int), fs),
        decreases sections@.len() - i,
    {
        let ghost before = views(allowed@);
        match &sections[i] {
            Section::Boundaries { items, .. } => {
                let ghost fb = |b: Boundary| boundary_pattern(b);
                let mut j: usize = 0;
                while j < items.len()
                    invariant
                        0 <= j <= items@.len(),
                        fb == (|b: Boundary| boundary_pattern(b)),
                        views(allowed@) == before + concat_map(items@.take(j as int), fb),
                    decreases items@.len() - j,
                {
                    let item = &items[j];
                    if item.category == BoundaryCategory::Allow && looks_like_path(item.text.as_str()) {
                        let ghost prev = views(allowed@);
                        let p = normalize_pattern(item.text.as_str());
                        allowed.push(p);
                        assert(views(allowed@) =~= prev.push(normalize_pattern_spec(items@[j as int].text@)));
                    }
                    proof {
                        lemma_concat_map_step(items@, fb, j as int);
                        assert(views(allowed@) =~= before + concat_map(items@.take(j as int), fb) + fb(items@[j as int]));
                    }
                    j += 1;
                }
                proof { lemma_concat_map_all(items@, fb); }
            },
            _ => {},
        }
        proof {
            lemma_concat_map_step(sections@, fs, i as int);
            assert(views(allowed@) =~= before + fs(sections@[i as int]));
        }
        i += 1;
    }
    proof { lemma_concat_map_all(sections@, fs); }
    allowed
}

/// The leading path segments before the first one that holds a `*`.
pub open spec fn static_prefix(parts: Seq<Seq<char>>) -> Seq<Seq<char>>
    decreases parts.len(),
{
    if parts.len() == 0 || parts[0].contains('*') {
        seq![]
    } else {
        seq![parts[0]] + static_prefix(parts.drop_first())
    }
}

/// The static base directory of a glob pattern, or `.` when it has none.
pub open spec fn base_dir_spec(pattern: Seq<char>) -> Seq<char> {
    let base = static_prefix(split_char(pattern, '/'));
    if base.len() == 0 {
        "."@
    } else {
        join(base, "/"@)
    }
}

/// Extract the static base directory from a glob pattern.
/// e.g., "src/spec_gateway/**" -> "src/spec_gateway"
pub fn extract_base_dir(pattern: &str) -> (r: String)
    ensures
        r@ == base_dir_spec(pattern@),
{
    let v = chars_of(pattern);
    let parts = split_char_exec(&v, '/');
    let ghost ps = parts@.map_values(|x: Vec<char>| x@);
    let mut base: Vec<Vec<char>> = Vec::new();
    let mut i: usize = 0;
    assert(ps.subrange(0, ps.len() as int) =~= ps);
    assert(base@.map_values(|x: Vec<char>| x@) + static_prefix(ps) =~= static_prefix(ps));
    while i < parts.len()
        invariant
            ps == parts@.map_values(|x: Vec<char>| x@),
            0 <= i <= parts@.len(),
            static_prefix(ps) == base@.map_values(|x: Vec<char>| x@) + static_prefix(ps.subrange(i as int, ps.len() as int)),
        ensures
            static_prefix(ps) == base@.map_values(|x: Vec<char>| x@),
        decreases parts@.len() - i,
    {
        let ghost rest = ps.subrange(i as int, ps.len() as int);
        if has_char_exec(parts[i].as_slice(), '*') {
            assert(base@.map_values(|x: Vec<char>| x@) + static_prefix(rest) =~= base@.map_values(|x: Vec<char>| x@));
            break;
        }
        let ghost old_base = base@.map_values(|x: Vec<char>| x@);
        let piece = crate::text::slice_chars(parts[i].as_slice(), 0, parts[i].len());
        assert(piece@ =~= ps[i as int]);
        base.push(piece);
        proof {
            assert(rest.drop_first() =~= ps.subrange(i + 1, ps.len() as int));
            assert(base@.map_values(|x: Vec<char>| x@) =~= old_base.push(ps[i as int]));
            assert(old_base + static_prefix(rest) =~= old_base.push(ps[i as int]) + static_prefix(ps.subrange(i + 1, ps.len() as int)));
        }
        i += 1;
        proof {
            if i == parts@.len() {
                let bs = base@.map_values(|x: Vec<char>| x@);
                assert(bs + static_prefix(ps.subrange(i as int, ps.len() as int)) =~= bs);
            }
        }
    }
    if base.len() == 0 {
        "."
            .to_owned()
    } else {
        join_exec(&base, "/")
    }
}

/// Whether `text` mentions the base directory of `pattern`.
pub open spec fn pattern_base_mentioned_spec(text: Seq<char>, pattern: Seq<char>) -> bool {
    let base = base_dir_spec(pattern);
    base != "."@ && contains(text, base)
}

/// Check if a step mentions the base directory of a pattern.
pub fn pattern_base_mentioned(text: &str, pattern: &str) -> (b: bool)
    ensures
        b == pattern_base_mentioned_spec(text@, pattern@),
{
    let base = extract_base_dir(pattern);
    let bc = chars_of(base.as_str());
    if chars_eq(&bc, &chars_of(".")) {
        return false;
    }
    contains_exec(&chars_of(text), &bc)
}

/// Whether `v` holds a string equal to `s`.
pub fn vec_contains_string(v: &Vec<String>, s: &String) -> (b: bool)
    ensures
        b == views(v@).contains(s@),
{
    let mut i: usize = 0;
    while i < v.len()
        invariant
            0 <= i <= v@.len(),
            forall|j: int| 0 <= j < i ==> v@[j]@ != s@,
        decreases v@.len() - i,
    {
        if v[i] == *s {
            assert(views(v@)[i as int] == s@);
            return true;
        }
        i += 1;
    }
    proof {
        if views(v@).contains(s@) {
            let k = choose|k: int| 0 <= k < views(v@).len() && views(v@)[k] == s@;
            assert(v@[k]@ == s@);
        }
    }
    false
}

/// The step texts of the scenarios at `idxs`, in order.
pub open spec fn step_texts(scs: Seq<Scenario>, idxs: Seq<usize>) -> Seq<Seq<char>> {
    concat_map(idxs, |i: usize| scs[i as int].steps@.map_values(|st: Step| st.text@))
}

/// A step text refers to a pattern when it contains the pattern or the
/// pattern's base directory.
pub open spec fn refers_to(text: Seq<char>, p: Seq<char>) -> bool {
    contains(text, p) || pattern_base_mentioned_spec(text, p)
}

/// `acc` extended with each allowed pattern that `text` refers to, unless already there.
pub open spec fn add_referred(acc: Seq<Seq<char>>, text: Seq<char>, allowed: Seq<Seq<char>>) -> Seq<Seq<char>>
    decreases allowed.len(),
{
    if allowed.len() == 0 {
        acc
    } else {
        let a = add_referred(acc, text, allowed.drop_last());
        let p = allowed.last();
        if refers_to(text, p) && !a.contains(p) {
            a.push(p)
        } else {
            a
        }
    }
}

/// The allowed patterns referred to by the texts, first reference first.
pub open spec fn referred_patterns(texts: Seq<Seq<char>>, allowed: Seq<Seq<char>>) -> Seq<Seq<char>>
    decreases texts.len(),
{
    if texts.len() == 0 {
        seq![]
    } else {
        add_referred(referred_patterns(texts.drop_last(), allowed), texts.last(), allowed)
    }
}

/// The boundary paths of a group of scenarios: the allowed patterns their
/// steps refer to, or every allowed pattern when the steps refer to none.
pub open spec fn boundary_paths_spec(scs: Seq<Scenario>, idxs: Seq<usize>, sections: Seq<Section>) -> Seq<Seq<char>> {
    let allowed = allowed_patterns(sections);
    let paths = referred_patterns(step_texts(scs, idxs), allowed);
    if paths.len() == 0 {
        allowed
    } else {
        paths
    }
}

/// Collect boundary paths relevant to a set of scenarios.
pub fn collect_boundary_paths_for_scenarios(
    scenario_indices: &[usize],
    scenarios: &Vec<Scenario>,
    sections: &Vec<Section>,
) -> (r: Vec<String>)
    requires
        forall|k: int| 0 <= k < scenario_indices@.len() ==> scenario_indices@[k] < scenarios@.len(),
    ensures
        views(r@) == boundary_paths_spec(scenarios@, scenario_indices@, sections@),
{
    let allowed = collect_allowed_patterns(sections);
    let ghost al = views(allowed@);
    let ghost scs = scenarios@;
    let ghost idxs = scenario_indices@;
    let ghost f = |i: usize| scs[i as int].steps@.map_values(|st: Step| st.text@);
    let mut paths: Vec<String> = Vec::new();
    let mut k: usize = 0;
    while k < scenario_indices.len()
        invariant
            0 <= k <= idxs.len(),
            idxs == scenario_indices@,
            scs == scenarios@,
            al == views(allowed@),
            forall|q: int| 0 <= q < idxs.len() ==> idxs[q] < scs.len(),
            f == (|i: usize| scs[i as int].steps@.map_values(|st: Step| st.text@)),
            views(paths@) == referred_patterns(concat_map(idxs.take(k as int), f), al),
        decreases idxs.len() - k,
    {
        let scenario = &scenarios[scenario_indices[k]];
        let ghost texts_before = concat_map(idxs.take(k as int), f);
        let ghost st = scenario.steps@.map_values(|x: Step| x.text@);
        let mut s: usize = 0;
        while s < scenario.steps.len()
            invariant
                0 <= s <= scenario.steps@.len(),
                al == views(allowed@),
                st == scenario.steps@.map_values(|x: Step| x.text@),
                views(paths@) == referred_patterns(texts_before + st.take(s as int), al),
            decreases scenario.steps@.len() - s,
        {
            let step = &scenario.steps[s];
            let ghost acc0 = views(paths@);
            let mut j: usize = 0;
            while j < allowed.len()
                invariant
                    0 <= j <= allowed@.len(),
                    al == views(allowed@),
                    views(paths@) == add_referred(acc0, step.text@, al.take(j as int)),
                decreases allowed@.len() - j,
            {
                let pattern = &allowed[j];
                let hit = contains_exec(&chars_of(step.text.as_str()), &chars_of(pattern.as_str()))
                    || pattern_base_mentioned(step.text.as_str(), pattern.as_str());
                proof { assert(al.take(j + 1).drop_last() =~= al.take(j as int)); }
                if hit && !vec_contains_string(&paths, pattern) {
                    let ghost pv = views(paths@);
                    paths.push(pattern.clone());
                    assert(views(paths@) =~= pv.push(al[j as int]));
                }
                j += 1;
            }
            proof {
                assert(al.take(al.len() as int) =~= al);
                let t2 = texts_before + st.take(s + 1);
                assert(t2.drop_last() =~= texts_before + st.take(s as int));
                assert(t2.last() == step.text@);
            }
            s += 1;
        }
        proof {
            assert(st.take(st.len() as int) =~= st);
            lemma_concat_map_step(idxs, f, k as int);
            assert(f(idxs[k as int]) == st);
        }
        k += 1;
    }
    proof { lemma_concat_map_all(idxs, f); }
    if paths.len() == 0 {
        return allowed;
    }
    paths
}

/// The index of the last scenario before `end` named `name`; later
/// scenarios of the same name shadow earlier ones.
pub open spec fn last_named(scs: Seq<Scenario>, name: Seq<char>, end: int) -> Option<usize>
    decreases end,
{
    if end <= 0 || end > scs.len() {
        None
    } else if scs[end - 1].name@ == name {
        Some((end - 1) as usize)
    } else {
        last_named(scs, name, end - 1)
    }
}

/// The scenario indices that a list of dependency names resolves to, one per
/// resolvable name, in order.
pub open spec fn resolved_deps(scs: Seq<Scenario>, ds: Seq<String>) -> Seq<usize> {
    concat_map(
        ds,
        |d: String|
            match last_named(scs, d@, scs.len() as int) {
                Some(j) => seq![j],
                None => seq![],
            },
    )
}

/// The resolved dependencies of scenario `i`.
pub open spec fn deps_of(scs: Seq<Scenario>, i: usize) -> Seq<usize> {
    resolved_deps(scs, scs[i as int].depends_on@)
}

/// `v` is in one of the groups `g`.
pub open spec fn placed(g: Seq<Seq<usize>>, v: usize) -> bool {
    exists|j: int| 0 <= j < g.len() && #[trigger] g[j].contains(v)
}

/// `v` is not yet placed, and every dependency of `v` is.
pub open spec fn ready(scs: Seq<Scenario>, g: Seq<Seq<usize>>, v: usize) -> bool {
    &&& !placed(g, v)
    &&& forall|k: int| 0 <= k < deps_of(scs, v).len() ==> placed(g, #[trigger] deps_of(scs, v)[k])
}

/// `p` is the last position in the latest group `g.last()` that holds a
/// dependency of `v`.
pub open spec fn last_key(scs: Seq<Scenario>, g: Seq<Seq<usize>>, v: usize, p: int) -> bool {
    &&& 0 <= p < g.last().len()
    &&& deps_of(scs, v).contains(g.last()[p])
    &&& forall|q: int| p < q < g.last().len() ==> !deps_of(scs, v).contains(#[trigger] g.last()[q])
}

/// The indices below `n` that satisfy `pred`, ascending.
pub open spec fn range_filter(n: nat, pred: spec_fn(usize) -> bool) -> Seq<usize>
    decreases n,
{
    if n == 0 {
        seq![]
    } else {
        let r = range_filter((n - 1) as nat, pred);
        if pred((n - 1) as usize) {
            r.push((n - 1) as usize)
        } else {
            r
        }
    }
}

/// The ready scenarios whose last dependency in the latest group sits at position `p`.
pub open spec fn keyed_layer(scs: Seq<Scenario>, g: Seq<Seq<usize>>, p: int) -> Seq<usize> {
    range_filter(scs.len(), |v: usize| ready(scs, g, v) && last_key(scs, g, v, p))
}

/// The ready scenarios keyed at positions below `pp`, by key and then index.
pub open spec fn keyed_layers(scs: Seq<Scenario>, g: Seq<Seq<usize>>, pp: nat) -> Seq<usize>
    decreases pp,
{
    if pp == 0 {
        seq![]
    } else {
        keyed_layers(scs, g, (pp - 1) as nat) + keyed_layer(scs, g, pp - 1)
    }
}

/// The scenarios without resolvable dependencies, ascending.
pub open spec fn root_layer(scs: Seq<Scenario>) -> Seq<usize> {
    range_filter(scs.len(), |v: usize| deps_of(scs, v).len() == 0)
}

/// The group that follows the groups `g`.  The first group holds the
/// scenarios without dependencies.  A later group holds the scenarios whose
/// dependencies are all placed, at least one of them in the latest group;
/// they come in the order in which their last such dependency appears in the
/// latest group, and by index among equals.
pub open spec fn next_layer(scs: Seq<Scenario>, g: Seq<Seq<usize>>) -> Seq<usize> {
    if g.len() == 0 {
        root_layer(scs)
    } else {
        keyed_layers(scs, g, g.last().len())
    }
}

/// The groups that follow `g`, until one would be empty or `fuel` runs out.
pub open spec fn layers_from(scs: Seq<Scenario>, g: Seq<Seq<usize>>, fuel: nat) -> Seq<Seq<usize>>
    decreases fuel,
{
    if fuel == 0 {
        g
    } else {
        let l = next_layer(scs, g);
        if l.len() == 0 {
            g
        } else {
            layers_from(scs, g.push(l), (fuel - 1) as nat)
        }
    }
}

/// The topological layers of the scenarios (Kahn's algorithm by layer).
pub open spec fn task_layers(scs: Seq<Scenario>) -> Seq<Seq<usize>> {
    layers_from(scs, seq![], scs.len() + 1)
}

/// The test filters of the scenarios at `idxs` that have a selector.
pub open spec fn selector_filters(scs: Seq<Scenario>, idxs: Seq<usize>) -> Seq<Seq<char>> {
    concat_map(
        idxs,
        |i: usize|
            match scs[i as int].test_selector {
                Some(t) => seq![t.filter@],
                None => seq![],
            },
    )
}

/// `t` is the group at position `order` made of the scenarios at `layer`.
pub open spec fn group_matches(
    scs: Seq<Scenario>,
    sections: Seq<Section>,
    layer: Seq<usize>,
    order: int,
    t: TaskGroup,
) -> bool {
    &&& t.order == order
    &&& views(t.scenarios@) == layer.map_values(|i: usize| scs[i as int].name@)
    &&& views(t.boundary_paths@) == boundary_paths_spec(scs, layer, sections)
    &&& views(t.test_selectors@) == selector_filters(scs, layer)
}

/// `t` holds one group per topological layer, numbered from 1.
pub open spec fn sketch_matches(scs: Seq<Scenario>, sections: Seq<Section>, t: TaskSketch) -> bool {
    let layers = task_layers(scs);
    &&& t.groups@.len() == layers.len()
    &&& forall|k: int| 0 <= k < layers.len() ==> group_matches(scs, sections, #[trigger] layers[k], k + 1, t.groups@[k])
}

pub proof fn lemma_range_filter(n: nat, pred: spec_fn(usize) -> bool)
    ensures
        forall|k: int| 0 <= k < range_filter(n, pred).len() ==> (#[trigger] range_filter(n, pred)[k]) < n && pred(range_filter(n, pred)[k]),
        forall|v: usize| v < n && pred(v) ==> #[trigger] range_filter(n, pred).contains(v),
        forall|v: usize| #[trigger] range_filter(n, pred).contains(v) ==> v < n && pred(v),
    decreases n,
{
    if n > 0 {
        lemma_range_filter((n - 1) as nat, pred);
        let r = range_filter((n - 1) as nat, pred);
        assert forall|v: usize| v < n && pred(v) implies range_filter(n, pred).contains(v) by {
            if v < n - 1 {
                assert(r.contains(v));
                let k = choose|k: int| 0 <= k < r.len() && r[k] == v;
                assert(range_filter(n, pred)[k] == v);
            } else {
                assert(range_filter(n, pred).last() == v);
            }
        }
        assert forall|v: usize| #[trigger] range_filter(n, pred).contains(v) implies v < n && pred(v) by {
            let k = choose|k: int| 0 <= k < range_filter(n, pred).len() && range_filter(n, pred)[k] == v;
            if k < r.len() {
                assert(r[k] == v);
            }
        }
    }
}

/// The index of the last scenario named `name`.
fn resolve_name(scenarios: &Vec<Scenario>, name: &String) -> (r: Option<usize>)
    ensures
        r == last_named(scenarios@, name@, scenarios@.len() as int),
{
    let mut end = scenarios.len();
    while end > 0
        invariant
            end <= scenarios@.len(),
            last_named(scenarios@, name@, scenarios@.len() as int) == last_named(scenarios@, name@, end as int),
        decreases end,
    {
        if scenarios[end - 1].name == *name {
            return Some(end - 1);
        }
        end -= 1;
    }
    None
}

/// The resolved dependencies of scenario `i`.
fn resolve_deps(scenarios: &Vec<Scenario>, i: usize) -> (r: Vec<usize>)
    requires
        i < scenarios@.len(),
    ensures
        r@ == deps_of(scenarios@, i),
        forall|k: int| 0 <= k < r@.len() ==> r@[k] < scenarios@.len(),
{
    let ds = &scenarios[i].depends_on;
    let ghost f = |d: String|
        match last_named(scenarios@, d@, scenarios@.len() as int) {
            Some(j) => seq![j],
            None => seq![],
        };
    let mut r: Vec<usize> = Vec::new();
    let mut k: usize = 0;
    while k < ds.len()
        invariant
            0 <= k <= ds@.len(),
            ds == &scenarios@[i as int].depends_on,
            f == (|d: String|
                match last_named(scenarios@, d@, scenarios@.len() as int) {
                    Some(j) => seq![j],
                    None => seq![],
                }),
            r@ == concat_map(ds@.take(k as int), f),
            forall|q: int| 0 <= q < r@.len() ==> r@[q] < scenarios@.len(),
        decreases ds@.len() - k,
    {
        let res = resolve_name(scenarios, &ds[k]);
        proof { lemma_last_named_bound(scenarios@, ds@[k as int]@, scenarios@.len() as int); }
        match res {
            Some(j) => {
                r.push(j);
            },
            None => {},
        }
        proof {
            lemma_concat_map_step(ds@, f, k as int);
            assert(r@ =~= concat_map(ds@.take(k as int), f) + f(ds@[k as int]));
        }
        k += 1;
    }
    proof { lemma_concat_map_all(ds@, f); }
    r
}

proof fn lemma_last_named_bound(scs: Seq<Scenario>, name: Seq<char>, end: int)
    ensures
        last_named(scs, name, end) matches Some(j) ==> j < scs.len(),
    decreases end,
{
    if 0 < end <= scs.len() && scs[end - 1].name@ != name {
        lemma_last_named_bound(scs, name, end - 1);
    }
}

/// Whether `v` holds `x`.
fn vec_contains_usize(v: &Vec<usize>, x: usize) -> (b: bool)
    ensures
        b == v@.contains(x),
{
    let mut i: usize = 0;
    while i < v.len()
        invariant
            0 <= i <= v@.len(),
            forall|j: int| 0 <= j < i ==> v@[j] != x,
        decreases v@.len() - i,
    {
        if v[i] == x {
            assert(v@[i as int] == x);
            return true;
        }
        i += 1;
    }
    false
}

/// `v` is not placed and all its dependencies are.
fn is_ready(deps_v: &Vec<usize>, placed_vec: &Vec<bool>, v: usize) -> (b: bool)
    requires
        v < placed_vec@.len(),
        forall|k: int| 0 <= k < deps_v@.len() ==> deps_v@[k] < placed_vec@.len(),
    ensures
        b == (!placed_vec@[v as int] && forall|k: int| 0 <= k < deps_v@.len() ==> #[trigger] placed_vec@[deps_v@[k] as int]),
{
    if placed_vec[v] {
        return false;
    }
    let mut k: usize = 0;
    while k < deps_v.len()
        invariant
            0 <= k <= deps_v@.len(),
            forall|q: int| 0 <= q < deps_v@.len() ==> deps_v@[q] < placed_vec@.len(),
            forall|q: int| 0 <= q < k ==> #[trigger] placed_vec@[deps_v@[q] as int],
        decreases deps_v@.len() - k,
    {
        if !placed_vec[deps_v[k]] {
            return false;
        }
        k += 1;
    }
    true
}

/// `p` is the last position of `last` that holds one of `deps_v`.
fn is_last_key(deps_v: &Vec<usize>, last: &Vec<usize>, p: usize) -> (b: bool)
    ensures
        b == (p < last@.len() && deps_v@.contains(last@[p as int]) && forall|q: int|
            p < q < last@.len() ==> !deps_v@.contains(#[trigger] last@[q])),
{
    if p >= last.len() || !vec_contains_usize(deps_v, last[p]) {
        return false;
    }
    let mut q = p + 1;
    while q < last.len()
        invariant
            p < q <= last@.len(),
            forall|r: int| p < r < q ==> !deps_v@.contains(#[trigger] last@[r]),
        decreases last@.len() - q,
    {
        if vec_contains_usize(deps_v, last[q]) {
            return false;
        }
        q += 1;
    }
    true
}

/// The group made of the scenarios at `layer`.
fn make_group(scenarios: &Vec<Scenario>, sections: &Vec<Section>, layer: &Vec<usize>, order: usize) -> (t: TaskGroup)
    requires
        forall|k: int| 0 <= k < layer@.len() ==> layer@[k] < scenarios@.len(),
    ensures
        group_matches(scenarios@, sections@, layer@, order as int, t),
{
    let ghost scs = scenarios@;
    let ghost fsel = |i: usize|
        match scs[i as int].test_selector {
            Some(t) => seq![t.filter@],
            None => seq![],
        };
    let mut names: Vec<String> = Vec::new();
    let mut sels: Vec<String> = Vec::new();
    let mut t: usize = 0;
    while t < layer.len()
        invariant
            scs == scenarios@,
            0 <= t <= layer@.len(),
            forall|k: int| 0 <= k < layer@.len() ==> layer@[k] < scs.len(),
            fsel == (|i: usize|
                match scs[i as int].test_selector {
                    Some(t) => seq![t.filter@],
                    None => seq![],
                }),
            views(names@) == layer@.take(t as int).map_values(|i: usize| scs[i as int].name@),
            views(sels@) == concat_map(layer@.take(t as int), fsel),
        decreases layer@.len() - t,
    {
        let sc = &scenarios[layer[t]];
        let ghost n0 = views(names@);
        let ghost s0 = views(sels@);
        names.push(sc.name.clone());
        match &sc.test_selector {
            Some(s) => {
                sels.push(s.filter.clone());
                assert(views(sels@) =~= s0 + fsel(layer@[t as int]));
            },
            None => {
                assert(views(sels@) =~= s0 + fsel(layer@[t as int]));
            },
        }
        proof {
            lemma_concat_map_step(layer@, fsel, t as int);
            assert(views(names@) =~= n0.push(scs[layer@[t as int] as int].name@));
            assert(layer@.take(t + 1).map_values(|i: usize| scs[i as int].name@) =~= layer@.take(t as int).map_values(|i: usize| scs[i as int].name@).push(scs[layer@[t as int] as int].name@));
        }
        t += 1;
    }
    proof {
        lemma_concat_map_all(layer@, fsel);
        assert(layer@.take(layer@.len() as int) =~= layer@);
    }
    let boundary_paths = collect_boundary_paths_for_scenarios(layer.as_slice(), scenarios, sections);
    TaskGroup { order, scenarios: names, boundary_paths, test_selectors: sels }
}

/// Build a task sketch from scenario dependencies using topological sort.
pub fn build_task_sketch(scenarios: &Vec<Scenario>, sections: &Vec<Section>) -> (t: TaskSketch)
    requires
        scenarios@.len() < usize::MAX,
    ensures
        sketch_matches(scenarios@, sections@, t),
{
    let n = scenarios.len();
    let ghost scs = scenarios@;
    let mut deps: Vec<Vec<usize>> = Vec::new();
    let mut placed_vec: Vec<bool> = Vec::new();
    let mut i: usize = 0;
    while i < n
        invariant
            n == scs.len(),
            scs == scenarios@,
            0 <= i <= n,
            deps@.len() == i,
            placed_vec@.len() == i,
            forall|k: int| 0 <= k < i ==> (#[trigger] deps@[k])@ == deps_of(scs, k as usize),
            forall|k: int, q: int| 0 <= k < i && 0 <= q < deps@[k]@.len() ==> #[trigger] deps@[k]@[q] < n,
            forall|k: int| 0 <= k < i ==> !(#[trigger] placed_vec@[k]),
        decreases n - i,
    {
        deps.push(resolve_deps(scenarios, i));
        placed_vec.push(false);
        i += 1;
    }
    let ghost mut g: Seq<Seq<usize>> = seq![];
    let mut last: Vec<usize> = Vec::new();
    let mut groups: Vec<TaskGroup> = Vec::new();
    let mut remaining: usize = n;
    loop
        invariant_except_break
            g.len() + remaining == n,
            task_layers(scs) == layers_from(scs, g, (remaining + 1) as nat),
        invariant
            n == scs.len(),
            n < usize::MAX,
            scs == scenarios@,
            deps@.len() == n,
            placed_vec@.len() == n,
            forall|k: int| 0 <= k < n ==> (#[trigger] deps@[k])@ == deps_of(scs, k as usize),
            forall|k: int, q: int| 0 <= k < n && 0 <= q < deps@[k]@.len() ==> #[trigger] deps@[k]@[q] < n,
            forall|v: int| 0 <= v < n ==> #[trigger] placed_vec@[v] == placed(g, v as usize),
            g.len() > 0 ==> last@ == g.last(),
            forall|k: int, q: int| 0 <= k < g.len() && 0 <= q < g[k].len() ==> #[trigger] g[k][q] < n,
            groups@.len() == g.len(),
            forall|k: int| 0 <= k < g.len() ==> group_matches(scs, sections@, #[trigger] g[k], k + 1, groups@[k]),
        ensures
            task_layers(scs) == g,
            groups@.len() == g.len(),
            forall|k: int| 0 <= k < g.len() ==> group_matches(scs, sections@, #[trigger] g[k], k + 1, groups@[k]),
        decreases remaining,
    {
        let mut next: Vec<usize> = Vec::new();
        if groups.len() == 0 {
            let ghost pred = |v: usize| deps_of(scs, v).len() == 0;
            let mut v: usize = 0;
            while v < n
                invariant
                    n == scs.len(),
                    deps@.len() == n,
                    forall|k: int| 0 <= k < n ==> (#[trigger] deps@[k])@ == deps_of(scs, k as usize),
                    0 <= v <= n,
                    pred == (|v: usize| deps_of(scs, v).len() == 0),
                    next@ == range_filter(v as nat, pred),
                decreases n - v,
            {
                if deps[v].len() == 0 {
                    next.push(v);
                }
                v += 1;
            }
            assert(next@ == next_layer(scs, g));
        } else {
            let mut p: usize = 0;
            while p < last.len()
                invariant
                    n == scs.len(),
                    g.len() > 0,
                    last@ == g.last(),
                    deps@.len() == n,
                    placed_vec@.len() == n,
                    forall|k: int| 0 <= k < n ==> (#[trigger] deps@[k])@ == deps_of(scs, k as usize),
                    forall|k: int, q: int| 0 <= k < n && 0 <= q < deps@[k]@.len() ==> #[trigger] deps@[k]@[q] < n,
                    forall|v: int| 0 <= v < n ==> #[trigger] placed_vec@[v] == placed(g, v as usize),
                    0 <= p <= last@.len(),
                    next@ == keyed_layers(scs, g, p as nat),
                decreases last@.len() - p,
            {
                let ghost pred = |v: usize| ready(scs, g, v) && last_key(scs, g, v, p as int);
                let ghost base = next@;
                let mut v: usize = 0;
                while v < n
                    invariant
                        n == scs.len(),
                        g.len() > 0,
                        last@ == g.last(),
                        deps@.len() == n,
                        placed_vec@.len() == n,
                        forall|k: int| 0 <= k < n ==> (#[trigger] deps@[k])@ == deps_of(scs, k as usize),
                        forall|k: int, q: int| 0 <= k < n && 0 <= q < deps@[k]@.len() ==> #[trigger] deps@[k]@[q] < n,
                        forall|w: int| 0 <= w < n ==> #[trigger] placed_vec@[w] == placed(g, w as usize),
                        0 <= v <= n,
                        p < last@.len(),
                        pred == (|v: usize| ready(scs, g, v) && last_key(scs, g, v, p as int)),
                        next@ == base + range_filter(v as nat, pred),
                    decreases n - v,
                {
                    let r = is_ready(&deps[v], &placed_vec, v);
                    let lk = is_last_key(&deps[v], &last, p);
                    proof {
                        let ds = deps_of(scs, v);
                        assert(deps@[v as int]@ == ds);
                        if r {
                            assert forall|k: int| 0 <= k < ds.len() implies placed(g, #[trigger] ds[k]) by {
                                assert(placed_vec@[ds[k] as int]);
                            }
                        } else {
                            if !placed(g, v) {
                                let k = choose|k: int| 0 <= k < ds.len() && !(#[trigger] placed_vec@[ds[k] as int]);
                                assert(!placed(g, ds[k]));
                            }
                        }
                        assert(r == ready(scs, g, v));
                        assert(lk == last_key(scs, g, v, p as int));
                    }
                    if r && lk {
                        next.push(v);
                    }
                    v += 1;
                }
                proof {
                    assert(keyed_layer(scs, g, p as int) == range_filter(n as nat, pred));
                }
                p += 1;
            }
            assert(next@ == next_layer(scs, g));
        }
        if next.len() == 0 {
            assert(layers_from(scs, g, (remaining + 1) as nat) == g);
            break;
        }
        proof {
            lemma_range_filter(n as nat, |v: usize| deps_of(scs, v).len() == 0);
            lemma_next_layer_bound(scs, g);
        }
        let group = make_group(scenarios, sections, &next, groups.len() + 1);
        groups.push(group);
        let ghost g_old = g;
        let mut t: usize = 0;
        while t < next.len()
            invariant
                n == scs.len(),
                placed_vec@.len() == n,
                0 <= t <= next@.len(),
                forall|k: int| 0 <= k < next@.len() ==> next@[k] < n,
                forall|w: int| 0 <= w < n ==> #[trigger] placed_vec@[w] == (placed(g_old, w as usize) || next@.take(t as int).contains(w as usize)),
            decreases next@.len() - t,
        {
            let w = next[t];
            placed_vec.set(w, true);
            proof {
                assert forall|x: int| 0 <= x < n implies #[trigger] placed_vec@[x] == (placed(g_old, x as usize) || next@.take(t + 1).contains(x as usize)) by {
                    assert(next@.take(t + 1) =~= next@.take(t as int).push(w));
                    if x == w as int {
                        assert(next@.take(t + 1)[t as int] == w);
                    }
                }
            }
            t += 1;
        }
        proof {
            g = g.push(next@);
            assert(layers_from(scs, g_old, (remaining + 1) as nat) == layers_from(scs, g, remaining as nat));
            assert(next@.take(next@.len() as int) =~= next@);
            assert forall|w: int| 0 <= w < n implies #[trigger] placed_vec@[w] == placed(g, w as usize) by {
                if placed(g_old, w as usize) {
                    let j = choose|j: int| 0 <= j < g_old.len() && #[trigger] g_old[j].contains(w as usize);
                    assert(g[j] == g_old[j]);
                }
                if next@.contains(w as usize) {
                    assert(g[g.len() - 1] == next@);
                }
                if placed(g, w as usize) {
                    let j = choose|j: int| 0 <= j < g.len() && #[trigger] g[j].contains(w as usize);
                    if j < g_old.len() {
                        assert(g_old[j] == g[j]);
                    }
                }
            }
            assert forall|k: int| 0 <= k < g.len() implies group_matches(scs, sections@, #[trigger] g[k], k + 1, groups@[k]) by {
                if k < g_old.len() {
                    assert(g[k] == g_old[k]);
                }
            }
        }
        last = next;
        if remaining == 0 {
            break;
        }
        remaining -= 1;
    }
    TaskSketch { groups }
}

/// The elements of the next layer are scenario indices.
proof fn lemma_next_layer_bound(scs: Seq<Scenario>, g: Seq<Seq<usize>>)
    ensures
        forall|k: int| 0 <= k < next_layer(scs, g).len() ==> #[trigger] next_layer(scs, g)[k] < scs.len(),
{
    if g.len() == 0 {
        lemma_range_filter(scs.len(), |v: usize| deps_of(scs, v).len() == 0);
    } else {
        lemma_keyed_layers_bound(scs, g, g.last().len());
    }
}

proof fn lemma_keyed_layers_bound(scs: Seq<Scenario>, g: Seq<Seq<usize>>, pp: nat)
    ensures
        forall|k: int| 0 <= k < keyed_layers(scs, g, pp).len() ==> #[trigger] keyed_layers(scs, g, pp)[k] < scs.len(),
    decreases pp,
{
    if pp > 0 {
        lemma_keyed_layers_bound(scs, g, (pp - 1) as nat);
        lemma_range_filter(scs.len(), |v: usize| ready(scs, g, v) && last_key(scs, g, v, pp - 1));
        let a = keyed_layers(scs, g, (pp - 1) as nat);
        let b = keyed_layer(scs, g, pp - 1);
        assert forall|k: int| 0 <= k < keyed_layers(scs, g, pp).len() implies #[trigger] keyed_layers(scs, g, pp)[k] < scs.len() by {
            if k < a.len() {
                assert(keyed_layers(scs, g, pp)[k] == a[k]);
            } else {
                assert(keyed_layers(scs, g, pp)[k] == b[k - a.len()]);
            }
        }
    }
}

/// The parts `qs` occur in `s` in order, without overlap, inside `s[lo..hi]`.
pub open spec fn fits(qs: Seq<Seq<char>>, s: Seq<char>, lo: int, hi: int) -> bool
    decreases qs.len(),
{
    if qs.len() == 0 {
        lo <= hi
    } else {
        exists|i: int|
            lo <= i && i + qs[0].len() <= hi && #[trigger] occurs_at(s, qs[0], i) && fits(
                qs.drop_first(),
                s,
                i + qs[0].len(),
                hi,
            )
    }
}

/// Glob matching of one path segment, where `*` stands for any run of
/// characters: with `P0*P1*...*Pm` the literal parts of the pattern, the
/// segment starts with `P0`, ends with `Pm`, and holds `P1..P(m-1)` in
/// order, without overlap, between them.  A pattern without `*` matches only
/// itself.
pub open spec fn segment_glob(p: Seq<char>, s: Seq<char>) -> bool {
    let parts = split_char(p, '*');
    if parts.len() <= 1 {
        s == p
    } else {
        let first = parts[0];
        let last = parts.last();
        &&& starts_with(s, first)
        &&& ends_with(s, last)
        &&& first.len() + last.len() <= s.len()
        &&& fits(parts.subrange(1, parts.len() - 1), s, first.len() as int, s.len() - last.len())
    }
}

/// Membership of `s` in the glob language of `p`: each `*` of `p` stands
/// for any run of characters (possibly empty), every other character for
/// itself.
pub open spec fn glob_lang(p: Seq<char>, s: Seq<char>) -> bool
    decreases p.len(), s.len(),
{
    if p.len() == 0 {
        s.len() == 0
    } else if p[0] == '*' {
        glob_lang(p.drop_first(), s) || (s.len() > 0 && glob_lang(p, s.drop_first()))
    } else {
        s.len() > 0 && s[0] == p[0] && glob_lang(p.drop_first(), s.drop_first())
    }
}

/// A literal start of the pattern matches the same start of the text.
proof fn lemma_glob_literal_prefix(l: Seq<char>, r: Seq<char>, s: Seq<char>)
    requires
        !l.contains('*'),
    ensures
        glob_lang(l + r, s) == (starts_with(s, l) && glob_lang(r, s.subrange(l.len() as int, s.len() as int))),
    decreases l.len(),
{
    if l.len() == 0 {
        assert(l + r =~= r);
        assert(s.subrange(0, s.len() as int) =~= s);
        assert(s.subrange(0, 0) =~= l);
    } else {
        let p = l + r;
        assert(p[0] == l[0]);
        assert(l[0] != '*') by {
            assert(l.contains(l[0]));
        }
        assert(p.drop_first() =~= l.drop_first() + r);
        assert(!l.drop_first().contains('*')) by {
            if l.drop_first().contains('*') {
                let k = choose|k: int| 0 <= k < l.drop_first().len() && l.drop_first()[k] == '*';
                assert(l[k + 1] == '*');
            }
        }
        if s.len() > 0 {
            lemma_glob_literal_prefix(l.drop_first(), r, s.drop_first());
            if l.len() <= s.len() {
                assert(s.drop_first().subrange(l.len() - 1, s.len() - 1) =~= s.subrange(l.len() as int, s.len() as int));
            }
            if starts_with(s, l) {
                assert(s.drop_first().subrange(0, l.len() - 1) =~= l.drop_first()) by {
                    assert(s.subrange(0, l.len() as int) == l);
                    assert forall|k: int| 0 <= k < l.len() - 1 implies s.drop_first().subrange(0, l.len() - 1)[k]
                        == l.drop_first()[k] by {
                        assert(s.subrange(0, l.len() as int)[k + 1] == l[k + 1]);
                    }
                }
                assert(s[0] == s.subrange(0, l.len() as int)[0]);
            }
            if s[0] == l[0] && starts_with(s.drop_first(), l.drop_first()) {
                assert(s.subrange(0, l.len() as int) =~= l) by {
                    assert forall|k: int| 0 <= k < l.len() implies s.subrange(0, l.len() as int)[k] == l[k] by {
                        if k > 0 {
                            assert(s.drop_first().subrange(0, l.len() - 1)[k - 1] == l.drop_first()[k - 1]);
                        }
                    }
                }
            }
        }
    }
}

/// A leading `*` matches any start of the text.
proof fn lemma_glob_star(r: Seq<char>, s: Seq<char>)
    ensures
        glob_lang(seq!['*'] + r, s) == exists|i: int|
            0 <= i <= s.len() && #[trigger] glob_lang(r, s.subrange(i, s.len() as int)),
    decreases s.len(),
{
    let p = seq!['*'] + r;
    assert(p[0] == '*');
    assert(p.drop_first() =~= r);
    assert(s.subrange(0, s.len() as int) =~= s);
    if glob_lang(r, s) {
        assert(glob_lang(r, s.subrange(0, s.len() as int)));
    }
    if s.len() > 0 {
        lemma_glob_star(r, s.drop_first());
        if glob_lang(p, s.drop_first()) {
            let i = choose|i: int|
                0 <= i <= s.drop_first().len() && #[trigger] glob_lang(r, s.drop_first().subrange(i, s.drop_first().len() as int));
            assert(s.drop_first().subrange(i, s.drop_first().len() as int) =~= s.subrange(i + 1, s.len() as int));
            assert(glob_lang(r, s.subrange(i + 1, s.len() as int)));
        }
        if exists|i: int| 0 <= i <= s.len() && #[trigger] glob_lang(r, s.subrange(i, s.len() as int)) {
            let i = choose|i: int| 0 <= i <= s.len() && #[trigger] glob_lang(r, s.subrange(i, s.len() as int));
            if i > 0 {
                assert(s.drop_first().subrange(i - 1, s.drop_first().len() as int) =~= s.subrange(i, s.len() as int));
                assert(glob_lang(r, s.drop_first().subrange(i - 1, s.drop_first().len() as int)));
            }
        }
    } else {
        if exists|i: int| 0 <= i <= s.len() && #[trigger] glob_lang(r, s.subrange(i, s.len() as int)) {
            let i = choose|i: int| 0 <= i <= s.len() && #[trigger] glob_lang(r, s.subrange(i, s.len() as int));
            assert(i == 0);
        }
    }
}

/// Membership in `q0*q1*...*qm` given its literal parts `qs`.
pub open spec fn parts_lang(qs: Seq<Seq<char>>, s: Seq<char>) -> bool
    decreases qs.len(),
{
    if qs.len() <= 1 {
        qs.len() == 1 && s == qs[0]
    } else {
        starts_with(s, qs[0]) && exists|i: int|
            qs[0].len() <= i <= s.len() && parts_lang(qs.drop_first(), #[trigger] s.subrange(i, s.len() as int))
    }
}

/// The glob language of a pattern, read through its literal parts.
proof fn lemma_glob_parts(p: Seq<char>, s: Seq<char>)
    ensures
        glob_lang(p, s) == parts_lang(split_char(p, '*'), s),
    decreases p.len(),
{
    lemma_char_index_from(p, '*', 0);
    match char_index_from(p, '*', 0) {
        None => {
            assert(!p.contains('*'));
            assert(split_char(p, '*') == seq![p]);
            let e = Seq::<char>::empty();
            assert(p + e =~= p);
            lemma_glob_literal_prefix(p, e, s);
            if starts_with(s, p) && s.len() == p.len() {
                assert(s =~= s.subrange(0, p.len() as int));
            }
            if s == p {
                assert(s.subrange(0, p.len() as int) =~= p);
                assert(s.subrange(p.len() as int, s.len() as int).len() == 0);
            }
            if glob_lang(p, s) {
                assert(glob_lang(e, s.subrange(p.len() as int, s.len() as int)));
                assert(s.subrange(p.len() as int, s.len() as int).len() == 0);
                assert(s =~= s.subrange(0, p.len() as int));
            }
        },
        Some(k) => {
            let l = p.subrange(0, k);
            let q = p.subrange(k + 1, p.len() as int);
            assert(!l.contains('*'));
            assert(p =~= l + (seq!['*'] + q));
            assert(split_char(p, '*') == seq![l] + split_char(q, '*'));
            lemma_split_shape(q, '*');
            let qs = split_char(p, '*');
            assert(qs.len() >= 2);
            assert(qs[0] == l);
            assert(qs.drop_first() =~= split_char(q, '*'));
            assert(l.len() == k);
            lemma_glob_literal_prefix(l, seq!['*'] + q, s);
            if starts_with(s, l) {
                let t = s.subrange(k, s.len() as int);
                lemma_glob_star(q, t);
                if glob_lang(p, s) {
                    let i = choose|i: int| 0 <= i <= t.len() && #[trigger] glob_lang(q, t.subrange(i, t.len() as int));
                    lemma_glob_parts(q, t.subrange(i, t.len() as int));
                    assert(t.subrange(i, t.len() as int) =~= s.subrange(k + i, s.len() as int));
                    assert(parts_lang(qs.drop_first(), s.subrange(k + i, s.len() as int)));
                }
                if parts_lang(qs, s) {
                    let j = choose|j: int|
                        qs[0].len() <= j <= s.len() && parts_lang(qs.drop_first(), #[trigger] s.subrange(j, s.len() as int));
                    assert(t.subrange(j - k, t.len() as int) =~= s.subrange(j, s.len() as int));
                    lemma_glob_parts(q, s.subrange(j, s.len() as int));
                    assert(glob_lang(q, t.subrange(j - k, t.len() as int)));
                }
            }
        },
    }
}

/// The parts placed from some `j >= lo` on: the last part ends the text and
/// the others fit, in order, between `lo` and it.
pub open spec fn parts_fit_from(qs: Seq<Seq<char>>, s: Seq<char>, lo: int) -> bool {
    &&& ends_with(s, qs.last())
    &&& lo + qs.last().len() <= s.len()
    &&& fits(qs.drop_last(), s, lo, s.len() - qs.last().len())
}

proof fn lemma_parts_lang_fit(qs: Seq<Seq<char>>, s: Seq<char>, lo: int, j: int)
    requires
        qs.len() >= 1,
        0 <= lo <= j <= s.len(),
        parts_lang(qs, s.subrange(j, s.len() as int)),
    ensures
        parts_fit_from(qs, s, lo),
    decreases qs.len(),
{
    let t = s.subrange(j, s.len() as int);
    let last = qs.last();
    if qs.len() == 1 {
        assert(t == qs[0]);
        assert(s.subrange(s.len() - last.len(), s.len() as int) =~= t);
        assert(qs.drop_last() =~= Seq::<Seq<char>>::empty());
    } else {
        let q0 = qs[0];
        let rest = qs.drop_first();
        let i = choose|i: int| q0.len() <= i <= t.len() && parts_lang(rest, #[trigger] t.subrange(i, t.len() as int));
        assert(t.subrange(i, t.len() as int) =~= s.subrange(j + i, s.len() as int));
        lemma_parts_lang_fit(rest, s, j + q0.len(), j + i);
        assert(rest.last() == last);
        let hi = s.len() - last.len();
        let d = qs.drop_last();
        assert(d[0] == q0);
        assert(d.drop_first() =~= rest.drop_last());
        assert(s.subrange(j, j + q0.len()) =~= t.subrange(0, q0.len() as int));
        assert(occurs_at(s, d[0], j));
        assert(fits(d.drop_first(), s, j + d[0].len(), hi));
    }
}

proof fn lemma_fit_parts_lang(qs: Seq<Seq<char>>, s: Seq<char>, lo: int) -> (j: int)
    requires
        qs.len() >= 1,
        0 <= lo,
        parts_fit_from(qs, s, lo),
    ensures
        lo <= j <= s.len(),
        parts_lang(qs, s.subrange(j, s.len() as int)),
    decreases qs.len(),
{
    let last = qs.last();
    let hi = s.len() - last.len();
    if qs.len() == 1 {
        assert(s.subrange(hi, s.len() as int) == qs[0]);
        hi
    } else {
        let d = qs.drop_last();
        let q0 = qs[0];
        let rest = qs.drop_first();
        assert(d[0] == q0);
        assert(d.drop_first() =~= rest.drop_last());
        let i0 = choose|i: int|
            lo <= i && i + d[0].len() <= hi && #[trigger] occurs_at(s, d[0], i) && fits(d.drop_first(), s, i + d[0].len(), hi);
        assert(rest.last() == last);
        let j2 = lemma_fit_parts_lang(rest, s, i0 + q0.len());
        let t = s.subrange(i0, s.len() as int);
        assert(t.subrange(0, q0.len() as int) =~= s.subrange(i0, i0 + q0.len()));
        assert(starts_with(t, q0));
        assert(t.subrange(j2 - i0, t.len() as int) =~= s.subrange(j2, s.len() as int));
        assert(parts_lang(rest, t.subrange(j2 - i0, t.len() as int)));
        i0
    }
}

/// `segment_matches` decides membership in the glob language: the
/// literal-parts reading `segment_glob` holds exactly when each `*` of the
/// pattern can stand for some run of characters, possibly empty, and every
/// other character for itself.
pub proof fn law_segment_glob_is_glob_language(p: Seq<char>, s: Seq<char>)
    ensures
        segment_glob(p, s) == glob_lang(p, s),
{
    lemma_glob_parts(p, s);
    lemma_split_shape(p, '*');
    let parts = split_char(p, '*');
    if parts.len() <= 1 {
        assert(parts == seq![p]);
    } else {
        let first = parts[0];
        let rest = parts.drop_first();
        let last = parts.last();
        assert(rest.last() == last);
        assert(parts.subrange(1, parts.len() - 1) =~= rest.drop_last());
        if glob_lang(p, s) {
            let j = choose|j: int| first.len() <= j <= s.len() && parts_lang(rest, #[trigger] s.subrange(j, s.len() as int));
            lemma_parts_lang_fit(rest, s, first.len() as int, j);
        }
        if segment_glob(p, s) {
            let j = lemma_fit_parts_lang(rest, s, first.len() as int);
            assert(parts_lang(parts, s));
        }
    }
}

/// Leftmost placement of the parts from cursor `c`: the cursor after the last.
pub open spec fn greedy(qs: Seq<Seq<char>>, s: Seq<char>, c: int) -> Option<int>
    decreases qs.len(),
{
    if qs.len() == 0 {
        Some(c)
    } else if qs[0].len() == 0 {
        greedy(qs.drop_first(), s, c)
    } else {
        match find_from(s, qs[0], c) {
            Some(f) => greedy(qs.drop_first(), s, f + qs[0].len()),
            None => None,
        }
    }
}

proof fn lemma_fits_lower(qs: Seq<Seq<char>>, s: Seq<char>, lo: int, lo2: int, hi: int)
    requires
        fits(qs, s, lo, hi),
        lo2 <= lo,
    ensures
        fits(qs, s, lo2, hi),
    decreases qs.len(),
{
    if qs.len() > 0 {
        let i = choose|i: int|
            lo <= i && i + qs[0].len() <= hi && #[trigger] occurs_at(s, qs[0], i) && fits(
                qs.drop_first(),
                s,
                i + qs[0].len(),
                hi,
            );
        assert(lo2 <= i && occurs_at(s, qs[0], i));
    }
}

proof fn lemma_greedy_sound(qs: Seq<Seq<char>>, s: Seq<char>, c: int, hi: int)
    requires
        0 <= c <= s.len(),
        greedy(qs, s, c) matches Some(e) && e <= hi,
    ensures
        fits(qs, s, c, hi),
        greedy(qs, s, c) matches Some(e) && c <= e,
    decreases qs.len(),
{
    if qs.len() > 0 {
        if qs[0].len() == 0 {
            lemma_greedy_sound(qs.drop_first(), s, c, hi);
            assert(qs[0] =~= s.subrange(c, c));
            assert(occurs_at(s, qs[0], c));
            let e = greedy(qs, s, c)->0;
            assert(c + qs[0].len() <= hi);
        } else {
            lemma_find_from_some(s, qs[0], c);
            let f = find_from(s, qs[0], c)->0;
            lemma_greedy_sound(qs.drop_first(), s, f + qs[0].len(), hi);
            assert(occurs_at(s, qs[0], f));
        }
    }
}

proof fn lemma_greedy_complete(qs: Seq<Seq<char>>, s: Seq<char>, c: int, hi: int)
    requires
        0 <= c <= s.len(),
        fits(qs, s, c, hi),
    ensures
        greedy(qs, s, c) matches Some(e) && e <= hi,
    decreases qs.len(),
{
    if qs.len() > 0 {
        let i = choose|i: int|
            c <= i && i + qs[0].len() <= hi && #[trigger] occurs_at(s, qs[0], i) && fits(
                qs.drop_first(),
                s,
                i + qs[0].len(),
                hi,
            );
        if qs[0].len() == 0 {
            lemma_fits_lower(qs.drop_first(), s, i, c, hi);
            lemma_greedy_complete(qs.drop_first(), s, c, hi);
        } else {
            if find_from(s, qs[0], c) is None {
                lemma_find_from_none(s, qs[0], c);
            }
            lemma_find_from_some(s, qs[0], c);
            let f = find_from(s, qs[0], c)->0;
            assert(f <= i);
            lemma_fits_lower(qs.drop_first(), s, i + qs[0].len(), f + qs[0].len(), hi);
            lemma_greedy_complete(qs.drop_first(), s, f + qs[0].len(), hi);
        }
    }
}

proof fn lemma_split_shape(p: Seq<char>, c: char)
    ensures
        split_char(p, c).len() >= 1,
        !p.contains(c) ==> split_char(p, c) == seq![p],
        p.contains(c) ==> split_char(p, c).len() >= 2,
        p.len() > 0 ==> (split_char(p, c)[0].len() == 0 <==> p[0] == c),
        p.len() > 0 ==> (split_char(p, c).last().len() == 0 <==> p.last() == c),
        p.len() == 0 ==> split_char(p, c) == seq![p],
    decreases p.len(),
{
    lemma_char_index_from(p, c, 0);
    match char_index_from(p, c, 0) {
        Some(i) => {
            let rest = p.subrange(i + 1, p.len() as int);
            lemma_split_shape(rest, c);
            assert(p.contains(c));
            if rest.len() > 0 {
                assert(rest.last() == p.last());
            } else {
                assert(p.last() == p[i]);
            }
        },
        None => {
            if p.contains(c) {
                let k = choose|k: int| 0 <= k < p.len() && p[k] == c;
            }
        },
    }
}

/// Glob matching of one path segment: `*` alone matches anything, a pattern
/// without `*` matches only itself.
pub fn segment_matches(pattern: &str, segment: &str) -> (b: bool)
    ensures
        b == segment_glob(pattern@, segment@),
{
    glob_chars(&chars_of(pattern), &chars_of(segment))
}

/// `segment_matches` on characters.
fn glob_chars(p: &Vec<char>, s: &Vec<char>) -> (b: bool)
    ensures
        b == segment_glob(p@, s@),
{
    let pattern = p;
    let segment = s;
    proof { lemma_split_shape(p@, '*'); }
    if chars_eq(&p, &chars_of("*")) {
        proof {
            let parts = split_char(p@, '*');
            reveal_strlit("*");
            assert(p@ =~= seq!['*']);
            let e = p@.subrange(1, 1);
            assert(char_index_from(p@, '*', 0) == Some(0int));
            assert(char_index_from(e, '*', 0) is None);
            assert(split_char(e, '*') == seq![e]);
            assert(parts =~= seq![p@.subrange(0, 0), e]);
            assert(s@.subrange(0, 0) =~= parts[0]);
            assert(s@.subrange(s@.len() as int, s@.len() as int) =~= parts.last());
            assert(parts.subrange(1, parts.len() - 1).len() == 0);
        }
        return true;
    }
    if !has_char_exec(&p, '*') {
        let r = chars_eq(&p, &s);
        return r;
    }
    let parts = split_char_exec(&p, '*');
    let ghost ps = parts@.map_values(|v: Vec<char>| v@);
    let m = parts.len() - 1;
    let first = &parts[0];
    let last = &parts[m];
    assert(ps[0] == first@ && ps.last() == last@);
    if !starts_with_exec(&s, first) {
        return false;
    }
    let ghost mids = ps.subrange(1, m as int);
    assert(split_char(p@, '*') == ps);
    assert(p@.contains('*'));
    let mut cursor: usize = first.len();
    let mut j: usize = 1;
    assert(mids.subrange(0, mids.len() as int) =~= mids);
    while j < m
        invariant
            ps == parts@.map_values(|v: Vec<char>| v@),
            m + 1 == parts@.len(),
            mids == ps.subrange(1, m as int),
            split_char(p@, '*') == ps,
            p@.contains('*'),
            p@ == pattern@,
            s@ == segment@,
            first@ == ps[0],
            last@ == ps.last(),
            ps.len() >= 2,
            1 <= j <= m,
            first@.len() <= cursor <= s@.len(),
            greedy(mids, s@, first@.len() as int) == greedy(mids.subrange(j - 1, mids.len() as int), s@, cursor as int),
        decreases m - j,
    {
        let part = &parts[j];
        let ghost rest = mids.subrange(j - 1, mids.len() as int);
        assert(rest[0] == part@);
        assert(rest.drop_first() =~= mids.subrange(j as int, mids.len() as int));
        if part.len() > 0 {
            match crate::text::find_exec(&s, part, cursor) {
                Some(f) => {
                    proof { lemma_find_from_some(s@, part@, cursor as int); }
                    assert(f + part@.len() <= s@.len());
                    assert(s@.len() == s.len());
                    cursor = f + part.len();
                },
                None => {
                    proof {
                        assert(greedy(rest, s@, cursor as int) is None);
                        if segment_glob(p@, s@) {
                            lemma_greedy_complete(mids, s@, first@.len() as int, s@.len() - last@.len());
                        }
                    }
                    return false;
                },
            }
        }
        j += 1;
    }
    assert(mids.subrange(m - 1, mids.len() as int).len() == 0);
    let ghost c1 = cursor as int;
    assert(greedy(mids, s@, first@.len() as int) == Some(c1));
    proof {
        lemma_greedy_sound(mids, s@, first@.len() as int, c1);
    }
    if last.len() > 0 {
        let found = crate::text::find_exec(&s, last, cursor);
        if found.is_none() {
            proof {
                lemma_find_from_none(s@, last@, c1);
                if segment_glob(p@, s@) {
                    let q = s@.len() - last@.len();
                    lemma_greedy_complete(mids, s@, first@.len() as int, q);
                    assert(occurs_at(s@, last@, q));
                }
            }
            return false;
        }
        let e = ends_with_exec(&s, last);
        proof {
            lemma_find_from_some(s@, last@, c1);
            if e {
                let q = s@.len() - last@.len();
                assert(q >= c1);
                lemma_greedy_sound(mids, s@, first@.len() as int, q);
            }
        }
        e
    } else {
        proof {
            assert(last@.len() == 0);
            assert(s@.subrange(s@.len() as int, s@.len() as int) =~= last@);
            lemma_greedy_sound(mids, s@, first@.len() as int, s@.len() as int);
        }
        true
    }
}

/// Matching of a path, as segments, against a pattern of segment globs,
/// where a `**` segment stands for any number of path segments.
pub open spec fn segments_match(pat: Seq<Seq<char>>, path: Seq<Seq<char>>) -> bool
    decreases pat.len(), path.len(),
{
    if pat.len() == 0 {
        path.len() == 0
    } else if pat[0] == "**"@ {
        segments_match(pat.drop_first(), path) || (path.len() > 0 && segments_match(pat, path.drop_first()))
    } else {
        path.len() > 0 && segment_glob(pat[0], path[0]) && segments_match(pat.drop_first(), path.drop_first())
    }
}

/// The non-empty `/`-separated segments of a path.
pub open spec fn path_segments(s: Seq<char>) -> Seq<Seq<char>> {
    split_char(s, '/').filter(|x: Seq<char>| x.len() > 0)
}

/// Whether `path` matches the glob `pattern`, segment by segment.
pub open spec fn path_matches_spec(pattern: Seq<char>, path: Seq<char>) -> bool {
    segments_match(path_segments(pattern), path_segments(path))
}

/// The character views of a sequence of character vectors.
pub open spec fn char_views(v: Seq<Vec<char>>) -> Seq<Seq<char>> {
    v.map_values(|x: Vec<char>| x@)
}

fn segments_match_from(pat: &Vec<Vec<char>>, pi: usize, path: &Vec<Vec<char>>, qi: usize) -> (b: bool)
    requires
        pi <= pat@.len(),
        qi <= path@.len(),
    ensures
        b == segments_match(
            char_views(pat@).subrange(pi as int, pat@.len() as int),
            char_views(path@).subrange(qi as int, path@.len() as int),
        ),
    decreases pat@.len() - pi, path@.len() - qi,
{
    let ghost ps = char_views(pat@).subrange(pi as int, pat@.len() as int);
    let ghost qs = char_views(path@).subrange(qi as int, path@.len() as int);
    if pi == pat.len() {
        return qi == path.len();
    }
    assert(ps[0] == pat@[pi as int]@);
    assert(ps.drop_first() =~= char_views(pat@).subrange(pi + 1, pat@.len() as int));
    if chars_eq(&pat[pi], &chars_of("**")) {
        assert(ps[0] == "**"@);
        if segments_match_from(pat, pi + 1, path, qi) {
            return true;
        }
        if qi == path.len() {
            return false;
        }
        assert(qs.drop_first() =~= char_views(path@).subrange(qi + 1, path@.len() as int));
        return segments_match_from(pat, pi, path, qi + 1);
    }
    if qi == path.len() {
        return false;
    }
    assert(qs[0] == path@[qi as int]@);
    assert(qs.drop_first() =~= char_views(path@).subrange(qi + 1, path@.len() as int));
    glob_chars(&pat[pi], &path[qi]) && segments_match_from(pat, pi + 1, path, qi + 1)
}

/// Matches path segments against pattern segments (`**` spans any number of segments).
pub fn match_segments(pattern: &[&str], path: &[&str]) -> (b: bool)
    ensures
        b == segments_match(pattern@.map_values(|s: &str| s@), path@.map_values(|s: &str| s@)),
{
    let pv = str_chars(pattern);
    let qv = str_chars(path);
    assert(char_views(pv@).subrange(0, pv@.len() as int) =~= pattern@.map_values(|s: &str| s@));
    assert(char_views(qv@).subrange(0, qv@.len() as int) =~= path@.map_values(|s: &str| s@));
    segments_match_from(&pv, 0, &qv, 0)
}

/// The characters of each string.
fn str_chars(v: &[&str]) -> (r: Vec<Vec<char>>)
    ensures
        char_views(r@) == str_views(v@),
{
    let mut r: Vec<Vec<char>> = Vec::new();
    let mut i: usize = 0;
    while i < v.len()
        invariant
            0 <= i <= v@.len(),
            char_views(r@) == v@.take(i as int).map_values(|s: &str| s@),
        decreases v@.len() - i,
    {
        let ghost before = char_views(r@);
        r.push(chars_of(v[i]));
        assert(char_views(r@) =~= before.push(v@[i as int]@));
        assert(v@.take(i + 1).map_values(|s: &str| s@) =~= v@.take(i as int).map_values(|s: &str| s@).push(v@[i as int]@));
        i += 1;
    }
    assert(v@.take(v@.len() as int) =~= v@);
    r
}

/// The non-empty pieces of `v`, in order.
fn non_empty(v: Vec<Vec<char>>) -> (r: Vec<Vec<char>>)
    ensures
        char_views(r@) == char_views(v@).filter(|x: Seq<char>| x.len() > 0),
{
    let ghost pred = |x: Seq<char>| x.len() > 0;
    let mut r: Vec<Vec<char>> = Vec::new();
    let mut i: usize = 0;
    while i < v.len()
        invariant
            0 <= i <= v@.len(),
            pred == (|x: Seq<char>| x.len() > 0),
            char_views(r@) == char_views(v@).take(i as int).filter(pred),
        decreases v@.len() - i,
    {
        let ghost before = char_views(r@);
        proof {
            let t = char_views(v@).take(i + 1);
            assert(t.drop_last() =~= char_views(v@).take(i as int));
            reveal_with_fuel(Seq::filter, 1);
        }
        if v[i].len() > 0 {
            r.push(crate::text::slice_chars(v[i].as_slice(), 0, v[i].len()));
            assert(v@[i as int]@.subrange(0, v@[i as int]@.len() as int) =~= v@[i as int]@);
            assert(char_views(r@) =~= before.push(char_views(v@)[i as int]));
        }
        i += 1;
    }
    assert(char_views(v@).take(v@.len() as int) =~= char_views(v@));
    r
}

/// Glob pattern matching of a `/`-separated path.
pub fn path_matches_pattern(pattern: &str, path: &str) -> (b: bool)
    ensures
        b == path_matches_spec(pattern@, path@),
{
    let pv = non_empty(split_char_exec(&chars_of(pattern), '/'));
    let qv = non_empty(split_char_exec(&chars_of(path), '/'));
    assert(char_views(pv@).subrange(0, pv@.len() as int) =~= char_views(pv@));
    assert(char_views(qv@).subrange(0, qv@.len() as int) =~= char_views(qv@));
    segments_match_from(&pv, 0, &qv, 0)
}

/// The static prefix is a prefix of the parts, free of `*`.
proof fn lemma_static_prefix(parts: Seq<Seq<char>>)
    ensures
        static_prefix(parts).len() <= parts.len(),
        static_prefix(parts) == parts.take(static_prefix(parts).len() as int),
        forall|k: int| 0 <= k < static_prefix(parts).len() ==> !(#[trigger] static_prefix(parts)[k]).contains('*'),
    decreases parts.len(),
{
    if parts.len() > 0 && !parts[0].contains('*') {
        let t = static_prefix(parts.drop_first());
        lemma_static_prefix(parts.drop_first());
        assert(static_prefix(parts) == seq![parts[0]] + t);
        assert(static_prefix(parts) =~= parts.take(t.len() as int + 1));
        assert forall|k: int| 0 <= k < static_prefix(parts).len() implies !(#[trigger] static_prefix(parts)[k]).contains('*') by {
            if k > 0 {
                assert(static_prefix(parts)[k] == t[k - 1]);
            }
        }
    } else {
        assert(static_prefix(parts) =~= parts.take(0));
    }
}

/// Segments without `*` match only themselves, one for one.
proof fn lemma_literal_segments_match(b: Seq<Seq<char>>, rest: Seq<Seq<char>>, q: Seq<Seq<char>>)
    requires
        forall|k: int| 0 <= k < b.len() ==> !(#[trigger] b[k]).contains('*'),
        segments_match(b + rest, q),
    ensures
        b.len() <= q.len(),
        q.take(b.len() as int) == b,
    decreases b.len(),
{
    if b.len() == 0 {
        assert(q.take(0) =~= b);
    } else {
        reveal_strlit("**");
        let pat = b + rest;
        assert(pat[0] == b[0]);
        assert(!b[0].contains('*'));
        if b[0] == "**"@ {
            assert(b[0][0] == '*');
            assert(b[0].contains('*'));
        }
        lemma_split_shape(b[0], '*');
        assert(q.len() > 0 && segment_glob(b[0], q[0]));
        assert(q[0] == b[0]);
        assert(pat.drop_first() =~= b.drop_first() + rest);
        assert forall|k: int| 0 <= k < b.drop_first().len() implies !(#[trigger] b.drop_first()[k]).contains('*') by {
            assert(b.drop_first()[k] == b[k + 1]);
        }
        lemma_literal_segments_match(b.drop_first(), rest, q.drop_first());
        assert(q.take(b.len() as int) =~= seq![q[0]] + q.drop_first().take(b.len() - 1));
        assert(b =~= seq![b[0]] + b.drop_first());
    }
}

/// Every path that a pattern matches lies below the pattern's base
/// directory: the non-empty segments of the static prefix, which
/// `extract_base_dir` joins, start the path's segments.  Walking the base
/// directory therefore reaches every matching file.
pub proof fn law_matching_paths_under_base(pattern: Seq<char>, path: Seq<char>)
    requires
        path_matches_spec(pattern, path),
    ensures
        static_prefix(split_char(pattern, '/')).filter(|x: Seq<char>| x.len() > 0).len() <= path_segments(path).len(),
        path_segments(path).take(static_prefix(split_char(pattern, '/')).filter(|x: Seq<char>| x.len() > 0).len() as int)
            == static_prefix(split_char(pattern, '/')).filter(|x: Seq<char>| x.len() > 0),
{
    let nz = |x: Seq<char>| x.len() > 0;
    let parts = split_char(pattern, '/');
    let st = static_prefix(parts);
    lemma_static_prefix(parts);
    let r = parts.skip(st.len() as int);
    assert(parts =~= st + r);
    Seq::filter_distributes_over_add(st, r, nz);
    let b = st.filter(nz);
    assert(path_segments(pattern) == b + r.filter(nz));
    assert forall|k: int| 0 <= k < b.len() implies !(#[trigger] b[k]).contains('*') by {
        assert(b.contains(b[k]));
        st.lemma_filter_contains_rev(nz, b[k]);
        let j = choose|j: int| 0 <= j < st.len() && st[j] == b[k];
        assert(!st[j].contains('*'));
    }
    lemma_literal_segments_match(b, r.filter(nz), path_segments(path));
}

/// What the codebase walk does with one directory entry.
#[derive(Debug, Clone, Copy, PartialEq, Eq, Structural)]
pub enum EntryAction {
    /// Ignored by a gitignore rule, or a file that the pattern does not match.
    Skip,
    /// A directory to walk into.
    Descend,
    /// A file to scan.
    Take,
}

/// The action for the entry at `rel_path` (relative to the code directory,
/// `/`-separated): ignored entries are skipped, directories walked into, and
/// files taken when they match `pattern`.
pub open spec fn entry_action_spec(rel_path: Seq<char>, is_dir: bool, pattern: Seq<char>, rules: Seq<String>) -> EntryAction {
    if gitignored(rel_path, rules) {
        EntryAction::Skip
    } else if is_dir {
        EntryAction::Descend
    } else if path_matches_spec(pattern, rel_path) {
        EntryAction::Take
    } else {
        EntryAction::Skip
    }
}

/// Decide what the codebase walk does with one directory entry.
pub fn entry_action(rel_path: &str, is_dir: bool, pattern: &str, rules: &[String]) -> (a: EntryAction)
    ensures
        a == entry_action_spec(rel_path@, is_dir, pattern@, rules@),
{
    if is_gitignored(rel_path, rules) {
        EntryAction::Skip
    } else if is_dir {
        EntryAction::Descend
    } else if path_matches_pattern(pattern, rel_path) {
        EntryAction::Take
    } else {
        EntryAction::Skip
    }
}

/// A single `**` segment matches any list of segments.
proof fn lemma_double_star_segments(q: Seq<Seq<char>>)
    ensures
        segments_match(seq!["**"@], q),
    decreases q.len(),
{
    let pat = seq!["**"@];
    assert(pat[0] == "**"@);
    assert(pat.drop_first() =~= Seq::<Seq<char>>::empty());
    if q.len() > 0 {
        lemma_double_star_segments(q.drop_first());
    } else {
        assert(segments_match(Seq::<Seq<char>>::empty(), q));
    }
}

/// The pattern `**` matches every path.
pub proof fn law_double_star_matches_every_path(path: Seq<char>)
    ensures
        path_matches_spec("**"@, path),
{
    reveal_strlit("**");
    let s = "**"@;
    assert(s.len() == 2 && s[0] == '*' && s[1] == '*');
    assert(char_index_from(s, '/', 2) == None::<int>);
    assert(char_index_from(s, '/', 1) == None::<int>);
    assert(char_index_from(s, '/', 0) == None::<int>);
    assert(split_char(s, '/') == seq![s]);
    assert(path_segments(s) == seq![s]) by {
        reveal_with_fuel(Seq::filter, 2);
        assert(seq![s].drop_last() =~= Seq::<Seq<char>>::empty());
    }
    lemma_double_star_segments(path_segments(path));
}

/// A trailing `**` segment extends a match to everything below: when the
/// segments `q` match `pat`, the segments `q + r` match `pat` followed by `**`.
pub proof fn law_trailing_double_star(pat: Seq<Seq<char>>, q: Seq<Seq<char>>, r: Seq<Seq<char>>)
    requires
        segments_match(pat, q),
    ensures
        segments_match(pat.push("**"@), q + r),
    decreases pat.len(), q.len(),
{
    let pp = pat.push("**"@);
    if pat.len() == 0 {
        assert(q.len() == 0);
        assert(q + r =~= r);
        assert(pp =~= seq!["**"@]);
        lemma_double_star_segments(r);
    } else {
        assert(pp[0] == pat[0]);
        assert(pp.drop_first() =~= pat.drop_first().push("**"@));
        if pat[0] == "**"@ {
            if segments_match(pat.drop_first(), q) {
                law_trailing_double_star(pat.drop_first(), q, r);
            } else {
                law_trailing_double_star(pat, q.drop_first(), r);
                assert((q + r).drop_first() =~= q.drop_first() + r);
            }
        } else {
            law_trailing_double_star(pat.drop_first(), q.drop_first(), r);
            assert((q + r).drop_first() =~= q.drop_first() + r);
            assert((q + r)[0] == q[0]);
        }
    }
}

/// Whether one gitignore rule ignores `path`: the path starts with the rule
/// (trailing slashes removed), contains it as a path component, or the rule
/// ends in `*` and the path starts with what precedes it.
pub open spec fn rule_ignores(path: Seq<char>, rule: Seq<char>) -> bool {
    let r = trim_end_char(rule, '/');
    ||| starts_with(path, r)
    ||| contains(path, seq!['/'] + r + seq!['/'])
    ||| contains(path, seq!['/'] + r)
    ||| (r.len() > 0 && r.last() == '*' && starts_with(path, r.drop_last()))
}

/// Whether some rule ignores `path`.
pub open spec fn gitignored(path: Seq<char>, rules: Seq<String>) -> bool {
    exists|i: int| 0 <= i < rules.len() && rule_ignores(path, #[trigger] rules[i]@)
}

/// Check if a relative path should be ignored based on gitignore rules.
pub fn is_gitignored(rel_path: &str, rules: &[String]) -> (b: bool)
    ensures
        b == gitignored(rel_path@, rules@),
{
    let path = chars_of(rel_path);
    let mut i: usize = 0;
    while i < rules.len()
        invariant
            path@ == rel_path@,
            0 <= i <= rules@.len(),
            forall|j: int| 0 <= j < i ==> !rule_ignores(rel_path@, #[trigger] rules@[j]@),
        decreases rules@.len() - i,
    {
        let r = trim_end_char_exec(&chars_of(rules[i].as_str()), '/');
        let mut slashed: Vec<char> = Vec::new();
        slashed.push('/');
        let mut k: usize = 0;
        while k < r.len()
            invariant
                0 <= k <= r@.len(),
                slashed@ == seq!['/'] + r@.take(k as int),
            decreases r@.len() - k,
        {
            slashed.push(r[k]);
            k += 1;
            assert(slashed@ =~= seq!['/'] + r@.take(k as int));
        }
        assert(r@.take(r@.len() as int) =~= r@);
        let hit_a = contains_exec(&path, &slashed);
        let ghost s1 = slashed@;
        slashed.push('/');
        assert(slashed@ =~= seq!['/'] + r@ + seq!['/']);
        let hit_b = contains_exec(&path, &slashed);
        if starts_with_exec(&path, &r) || hit_b || hit_a {
            return true;
        }
        if r.len() > 0 && r[r.len() - 1] == '*' {
            let prefix = crate::text::slice_chars(&r, 0, r.len() - 1);
            assert(prefix@ =~= r@.drop_last());
            if starts_with_exec(&path, &prefix) {
                return true;
            }
        }
        i += 1;
    }
    false
}

/// A line whose trimmed text starts a public item.
pub open spec fn is_pub_item(t: Seq<char>) -> bool {
    ||| starts_with(t, "pub fn "@)
    ||| starts_with(t, "pub struct "@)
    ||| starts_with(t, "pub enum "@)
    ||| starts_with(t, "pub trait "@)
}

/// The first module doc comment (`//!`) among `lines[i..n]`, without its marker.
pub open spec fn first_doc(lines: Seq<Seq<char>>, i: int, n: int) -> Option<Seq<char>>
    decreases n - i,
{
    if i < 0 || i >= n || i >= lines.len() {
        None
    } else if starts_with(trim(lines[i]), "//!"@) {
        Some(trim(trim_start_matches(trim(lines[i]), "//!"@)))
    } else {
        first_doc(lines, i + 1, n)
    }
}

/// The first trimmed public item line among `lines[i..n]`.
pub open spec fn first_item(lines: Seq<Seq<char>>, i: int, n: int) -> Option<Seq<char>>
    decreases n - i,
{
    if i < 0 || i >= n || i >= lines.len() {
        None
    } else if is_pub_item(trim(lines[i])) {
        Some(trim(lines[i]))
    } else {
        first_item(lines, i + 1, n)
    }
}

/// A one-line summary: a module doc comment among the first 5 lines, else
/// the first public item among the first 20 lines, else nothing.
pub open spec fn summary_spec(lines: Seq<Seq<char>>) -> Seq<char> {
    match first_doc(lines, 0, 5) {
        Some(d) => d,
        None => match first_item(lines, 0, 20) {
            Some(t) => t,
            None => seq![],
        },
    }
}

/// The character views of string slices.
pub open spec fn str_views(lines: Seq<&str>) -> Seq<Seq<char>> {
    lines.map_values(|s: &str| s@)
}

/// Extract a one-line summary from the file.
/// Prefers `//!` doc comments, then first `pub fn/struct/enum/trait` line.
pub fn extract_summary(lines: &[&str]) -> (r: String)
    ensures
        r@ == summary_spec(str_views(lines@)),
{
    summary_of_lines(&str_chars(lines))
}

fn summary_of_lines(lines: &Vec<Vec<char>>) -> (r: String)
    ensures
        r@ == summary_spec(char_views(lines@)),
{
    let ghost ls = char_views(lines@);
    let marker = chars_of("//!");
    let mut i: usize = 0;
    while i < lines.len() && i < 5
        invariant
            ls == char_views(lines@),
            marker@ == "//!"@,
            0 <= i <= lines@.len(),
            first_doc(ls, 0, 5) == first_doc(ls, i as int, 5),
        decreases lines@.len() - i,
    {
        let t = trim_exec(lines[i].as_slice());
        assert(ls[i as int] == lines@[i as int]@);
        if starts_with_exec(&t, &marker) {
            let d = trim_exec(&trim_start_matches_exec(&t, &marker));
            return string_from_chars(&d);
        }
        i += 1;
    }
    assert(first_doc(ls, 0, 5) is None);
    let mut i: usize = 0;
    while i < lines.len() && i < 20
        invariant
            ls == char_views(lines@),
            0 <= i <= lines@.len(),
            first_item(ls, 0, 20) == first_item(ls, i as int, 20),
            first_doc(ls, 0, 5) is None,
        decreases lines@.len() - i,
    {
        let t = trim_exec(lines[i].as_slice());
        assert(ls[i as int] == lines@[i as int]@);
        if starts_with_exec(&t, &chars_of("pub fn ")) || starts_with_exec(&t, &chars_of("pub struct "))
            || starts_with_exec(&t, &chars_of("pub enum ")) || starts_with_exec(&t, &chars_of("pub trait "))
        {
            return string_from_chars(&t);
        }
        i += 1;
    }
    String::new()
}

/// A line whose trimmed text starts a public signature.
pub open spec fn is_sig_line(t: Seq<char>) -> bool {
    is_pub_item(t) || starts_with(t, "pub type "@) || starts_with(t, "pub const "@)
}

/// The signature part of a trimmed line: the text before `{`, trimmed.
pub open spec fn sig_of(t: Seq<char>) -> Seq<char> {
    trim(trim_end_char(trim(before_char(t, '{')), '{'))
}

/// The distinct signatures of the public items among `lines`, first
/// occurrence first.
pub open spec fn pub_sigs(lines: Seq<Seq<char>>) -> Seq<Seq<char>>
    decreases lines.len(),
{
    if lines.len() == 0 {
        seq![]
    } else {
        let acc = pub_sigs(lines.drop_last());
        let t = trim(lines.last());
        if is_sig_line(t) && !acc.contains(sig_of(t)) {
            acc.push(sig_of(t))
        } else {
            acc
        }
    }
}

/// Extract all pub fn/struct/enum/trait signatures.
pub fn extract_pub_signatures(lines: &[&str]) -> (r: Vec<String>)
    ensures
        views(r@) == pub_sigs(str_views(lines@)),
{
    pub_sigs_of_lines(&str_chars(lines))
}

fn pub_sigs_of_lines(lines: &Vec<Vec<char>>) -> (r: Vec<String>)
    ensures
        views(r@) == pub_sigs(char_views(lines@)),
{
    let ghost ls = char_views(lines@);
    let mut sigs: Vec<String> = Vec::new();
    let mut i: usize = 0;
    while i < lines.len()
        invariant
            ls == char_views(lines@),
            0 <= i <= lines@.len(),
            views(sigs@) == pub_sigs(ls.take(i as int)),
        decreases lines@.len() - i,
    {
        let t = trim_exec(lines[i].as_slice());
        proof {
            assert(ls.take(i + 1).drop_last() =~= ls.take(i as int));
            assert(ls.take(i + 1).last() == lines@[i as int]@);
        }
        if starts_with_exec(&t, &chars_of("pub fn ")) || starts_with_exec(&t, &chars_of("pub struct "))
            || starts_with_exec(&t, &chars_of("pub enum ")) || starts_with_exec(&t, &chars_of("pub trait "))
            || starts_with_exec(&t, &chars_of("pub type ")) || starts_with_exec(&t, &chars_of("pub const "))
        {
            let a = before_char_exec(&t, '{');
            let b = trim_exec(&a);
            let c = trim_end_char_exec(&b, '{');
            let d = trim_exec(&c);
            let sig = string_from_chars(&d);
            if !vec_contains_string(&sigs, &sig) {
                let ghost before = views(sigs@);
                sigs.push(sig);
                assert(views(sigs@) =~= before.push(d@));
            }
        }
        i += 1;
    }
    assert(ls.take(lines@.len() as int) =~= ls);
    sigs
}

/// A line that marks the next function as a test.
pub open spec fn is_test_attr(t: Seq<char>) -> bool {
    starts_with(t, "#[test]"@) || starts_with(t, "#[tokio::test]"@)
}

/// The function name in a trimmed `fn`/`async fn` line.
pub open spec fn test_name(t: Seq<char>) -> Seq<char> {
    trim(before_char(trim_start_matches(trim_start_matches(t, "async "@), "fn "@), '('))
}

/// The test function names among `lines[i..]`; `armed` when the previous
/// line was a test attribute.
pub open spec fn test_fns_from(lines: Seq<Seq<char>>, i: int, armed: bool) -> Seq<Seq<char>>
    decreases lines.len() - i,
{
    if i < 0 || i >= lines.len() {
        seq![]
    } else {
        let t = trim(lines[i]);
        if is_test_attr(t) {
            test_fns_from(lines, i + 1, true)
        } else if armed && (starts_with(t, "fn "@) || starts_with(t, "async fn "@)) && test_name(t).len() > 0 {
            seq![test_name(t)] + test_fns_from(lines, i + 1, false)
        } else {
            test_fns_from(lines, i + 1, false)
        }
    }
}

/// Extract test function names from a file.
pub fn extract_test_functions(lines: &[&str]) -> (r: Vec<String>)
    ensures
        views(r@) == test_fns_from(str_views(lines@), 0, false),
{
    test_fns_of_lines(&str_chars(lines))
}

fn test_fns_of_lines(lines: &Vec<Vec<char>>) -> (r: Vec<String>)
    ensures
        views(r@) == test_fns_from(char_views(lines@), 0, false),
{
    let ghost ls = char_views(lines@);
    let mut test_fns: Vec<String> = Vec::new();
    let mut next_is_test = false;
    let mut i: usize = 0;
    while i < lines.len()
        invariant
            ls == char_views(lines@),
            0 <= i <= lines@.len(),
            test_fns_from(ls, 0, false) == views(test_fns@) + test_fns_from(ls, i as int, next_is_test),
        decreases lines@.len() - i,
    {
        let t = trim_exec(lines[i].as_slice());
        assert(ls[i as int] == lines@[i as int]@);
        if starts_with_exec(&t, &chars_of("#[test]")) || starts_with_exec(&t, &chars_of("#[tokio::test]")) {
            next_is_test = true;
            i += 1;
            continue;
        }
        if next_is_test {
            if starts_with_exec(&t, &chars_of("fn ")) || starts_with_exec(&t, &chars_of("async fn ")) {
                let a = trim_start_matches_exec(&t, &chars_of("async "));
                let b = trim_start_matches_exec(&a, &chars_of("fn "));
                let c = before_char_exec(&b, '(');
                let d = trim_exec(&c);
                if d.len() > 0 {
                    let ghost before = views(test_fns@);
                    test_fns.push(string_from_chars(&d));
                    assert(views(test_fns@) =~= before.push(d@));
                    assert(before + seq![d@] + test_fns_from(ls, i + 1, false) =~= before.push(d@) + test_fns_from(ls, i + 1, false));
                }
            }
            next_is_test = false;
        }
        i += 1;
    }
    assert(views(test_fns@) + seq![] =~= views(test_fns@));
    test_fns
}

/// A file found under an allowed pattern: its path relative to the code
/// directory, with `/` separators, and its text (empty when unreadable).
#[derive(Debug, Clone)]
pub struct ScannedFile {
    pub rel_path: String,
    pub content: String,
}

/// What the scan of one allowed pattern found.
#[derive(Debug, Clone)]
pub enum PatternScan {
    /// The pattern's base directory does not exist; `resolved` is where it was looked for.
    Missing { resolved: String },
    /// The files under the base directory that match the pattern and are not ignored.
    Found { files: Vec<ScannedFile> },
}

/// The plain value of a scanned file: (relative path, text).
pub open spec fn file_model(f: ScannedFile) -> (Seq<char>, Seq<char>) {
    (f.rel_path@, f.content@)
}

pub open spec fn file_models(v: Seq<ScannedFile>) -> Seq<(Seq<char>, Seq<char>)> {
    v.map_values(|f: ScannedFile| file_model(f))
}

/// The warning for an allowed pattern whose directory does not exist.
pub open spec fn missing_warning(pattern: Seq<char>, resolved: Seq<char>) -> Seq<char> {
    "Allowed Changes path not found: "@ + pattern + " (resolved to "@ + resolved + ")"@
}

/// The warnings of the first `n` scans, in order.
pub open spec fn scan_warnings(allowed: Seq<Seq<char>>, scans: Seq<PatternScan>, n: nat) -> Seq<Seq<char>>
    decreases n,
{
    if n == 0 {
        seq![]
    } else {
        scan_warnings(allowed, scans, (n - 1) as nat) + match scans[n - 1] {
            PatternScan::Missing { resolved } => seq![missing_warning(allowed[n - 1], resolved@)],
            PatternScan::Found { .. } => seq![],
        }
    }
}

/// The files found by the scans, in scan order.
pub open spec fn found_models(scans: Seq<PatternScan>) -> Seq<(Seq<char>, Seq<char>)> {
    concat_map(
        scans,
        |sc: PatternScan|
            match sc {
                PatternScan::Found { files } => file_models(files@),
                PatternScan::Missing { .. } => seq![],
            },
    )
}

/// `ms` with every file after the first of the same path left out.
pub open spec fn first_by_path(ms: Seq<(Seq<char>, Seq<char>)>) -> Seq<(Seq<char>, Seq<char>)>
    decreases ms.len(),
{
    if ms.len() == 0 {
        seq![]
    } else {
        let acc = first_by_path(ms.drop_last());
        if exists|k: int| 0 <= k < acc.len() && (#[trigger] acc[k]).0 == ms.last().0 {
            acc
        } else {
            acc.push(ms.last())
        }
    }
}

/// `s` holds the files of `u`, ordered by strictly increasing path.
pub open spec fn sorted_permutation(s: Seq<(Seq<char>, Seq<char>)>, u: Seq<(Seq<char>, Seq<char>)>) -> bool {
    &&& s.len() == u.len()
    &&& forall|i: int, j: int| 0 <= i < j < s.len() ==> str_lt(s[i].0, s[j].0)
    &&& forall|x: (Seq<char>, Seq<char>)| s.contains(x) <==> u.contains(x)
}

/// The entry of one file: its path, summary and, in a full scan, its signatures.
pub open spec fn file_entry_matches(e: FileEntry, m: (Seq<char>, Seq<char>), depth: ScanDepth) -> bool {
    &&& e.path@ == m.0
    &&& e.summary@ == summary_spec(lines(m.1))
    &&& views(e.pub_signatures@) == (if depth == ScanDepth::Full { pub_sigs(lines(m.1)) } else { seq![] })
}

/// The test entries of the files: one per file that has test functions.
pub open spec fn test_entries(s: Seq<(Seq<char>, Seq<char>)>) -> Seq<(Seq<char>, Seq<Seq<char>>)> {
    concat_map(
        s,
        |m: (Seq<char>, Seq<char>)|
            if test_fns_from(lines(m.1), 0, false).len() > 0 {
                seq![(m.0, test_fns_from(lines(m.1), 0, false))]
            } else {
                seq![]
            },
    )
}

/// The plain value of a test entry.
pub open spec fn test_model(t: TestEntry) -> (Seq<char>, Seq<Seq<char>>) {
    (t.file@, views(t.function_names@))
}

/// `c` describes the files `s`, in that order.
pub open spec fn codebase_matches(c: CodebaseContext, s: Seq<(Seq<char>, Seq<char>)>, depth: ScanDepth) -> bool {
    &&& c.files@.len() == s.len()
    &&& forall|i: int| 0 <= i < s.len() ==> file_entry_matches(#[trigger] c.files@[i], s[i], depth)
    &&& c.test_functions@.map_values(|t: TestEntry| test_model(t)) == test_entries(s)
}

fn copy_file(f: &ScannedFile) -> (r: ScannedFile)
    ensures
        file_model(r) == file_model(*f),
{
    ScannedFile { rel_path: f.rel_path.clone(), content: f.content.clone() }
}

fn has_path(v: &Vec<ScannedFile>, path: &String) -> (b: bool)
    ensures
        b == exists|k: int| 0 <= k < v@.len() && (#[trigger] file_models(v@)[k]).0 == path@,
{
    let mut i: usize = 0;
    while i < v.len()
        invariant
            0 <= i <= v@.len(),
            forall|k: int| 0 <= k < i ==> (#[trigger] file_models(v@)[k]).0 != path@,
        decreases v@.len() - i,
    {
        if v[i].rel_path == *path {
            assert(file_models(v@)[i as int].0 == path@);
            return true;
        }
        i += 1;
    }
    false
}

/// Assembles the codebase context from what the scans of the allowed
/// patterns found: a warning per missing directory, each file once (first
/// occurrence), ordered by path, with its summary, signatures (full scans
/// only) and test functions.
pub fn assemble_codebase_context(
    allowed: &Vec<String>,
    scans: &Vec<PatternScan>,
    depth: ScanDepth,
    warnings: &mut Vec<String>,
) -> (c: CodebaseContext)
    requires
        scans@.len() == allowed@.len(),
    ensures
        views(final(warnings)@) == views(old(warnings)@) + scan_warnings(views(allowed@), scans@, scans@.len()),
        exists|s: Seq<(Seq<char>, Seq<char>)>|
            sorted_permutation(s, first_by_path(found_models(scans@))) && codebase_matches(c, s, depth),
{
    let ghost al = views(allowed@);
    let ghost w0 = views(warnings@);
    let ghost fsc = |sc: PatternScan|
        match sc {
            PatternScan::Found { files } => file_models(files@),
            PatternScan::Missing { .. } => seq![],
        };
    let mut unique: Vec<ScannedFile> = Vec::new();
    let mut i: usize = 0;
    while i < scans.len()
        invariant
            scans@.len() == allowed@.len(),
            al == views(allowed@),
            0 <= i <= scans@.len(),
            fsc == (|sc: PatternScan|
                match sc {
                    PatternScan::Found { files } => file_models(files@),
                    PatternScan::Missing { .. } => seq![],
                }),
            views(warnings@) == w0 + scan_warnings(al, scans@, i as nat),
            file_models(unique@) == first_by_path(concat_map(scans@.take(i as int), fsc)),
        decreases scans@.len() - i,
    {
        let ghost flat0 = concat_map(scans@.take(i as int), fsc);
        match &scans[i] {
            PatternScan::Missing { resolved } => {
                let mut w = String::new();
                w.append("Allowed Changes path not found: ");
                w.append(allowed[i].as_str());
                w.append(" (resolved to ");
                w.append(resolved.as_str());
                w.append(")");
                let ghost wb = views(warnings@);
                warnings.push(w);
                assert(views(warnings@) =~= wb.push(missing_warning(al[i as int], resolved@)));
                proof {
                    lemma_concat_map_step(scans@, fsc, i as int);
                    assert(concat_map(scans@.take(i + 1), fsc) =~= flat0);
                }
            },
            PatternScan::Found { files } => {
                let mut j: usize = 0;
                while j < files.len()
                    invariant
                        0 <= j <= files@.len(),
                        file_models(unique@) == first_by_path(flat0 + file_models(files@).take(j as int)),
                    decreases files@.len() - j,
                {
                    let f = &files[j];
                    let ghost ms = flat0 + file_models(files@).take(j as int);
                    let ghost ms2 = flat0 + file_models(files@).take(j + 1);
                    assert(ms2.drop_last() =~= ms);
                    assert(ms2.last() == file_model(*f));
                    if !has_path(&unique, &f.rel_path) {
                        let ghost before = file_models(unique@);
                        unique.push(copy_file(f));
                        assert(file_models(unique@) =~= before.push(file_model(*f)));
                    }
                    j += 1;
                }
                proof {
                    assert(file_models(files@).take(files@.len() as int) =~= file_models(files@));
                    lemma_concat_map_step(scans@, fsc, i as int);
                }
            },
        }
        i += 1;
    }
    proof { lemma_concat_map_all(scans@, fsc); }
    let ghost u = file_models(unique@);
    proof { lemma_first_by_path_distinct(found_models(scans@)); }
    let sorted = sort_by_path(unique);
    build_context(&sorted, depth)
}

proof fn lemma_first_by_path_distinct(ms: Seq<(Seq<char>, Seq<char>)>)
    ensures
        forall|i: int, j: int| 0 <= i < j < first_by_path(ms).len() ==> first_by_path(ms)[i].0 != first_by_path(ms)[j].0,
    decreases ms.len(),
{
    if ms.len() > 0 {
        lemma_first_by_path_distinct(ms.drop_last());
        let acc = first_by_path(ms.drop_last());
        if !(exists|k: int| 0 <= k < acc.len() && (#[trigger] acc[k]).0 == ms.last().0) {
            let r = acc.push(ms.last());
            assert forall|i: int, j: int| 0 <= i < j < r.len() implies r[i].0 != r[j].0 by {
                if j == acc.len() {
                    assert(r[i] == acc[i]);
                }
            }
        }
    }
}

/// Sorts files with distinct paths by path.
fn sort_by_path(unique: Vec<ScannedFile>) -> (r: Vec<ScannedFile>)
    requires
        forall|i: int, j: int| 0 <= i < j < unique@.len() ==> file_models(unique@)[i].0 != file_models(unique@)[j].0,
    ensures
        sorted_permutation(file_models(r@), file_models(unique@)),
{
    let ghost u = file_models(unique@);
    let mut sorted: Vec<ScannedFile> = Vec::new();
    let mut k: usize = 0;
    while k < unique.len()
        invariant
            u == file_models(unique@),
            forall|i: int, j: int| 0 <= i < j < u.len() ==> u[i].0 != u[j].0,
            0 <= k <= u.len(),
            sorted@.len() == k,
            forall|i: int, j: int| 0 <= i < j < sorted@.len() ==> str_lt(file_models(sorted@)[i].0, file_models(sorted@)[j].0),
            forall|x: (Seq<char>, Seq<char>)| file_models(sorted@).contains(x) <==> u.take(k as int).contains(x),
        decreases u.len() - k,
    {
        let x = copy_file(&unique[k]);
        let ghost xm = file_model(x);
        let ghost s0 = file_models(sorted@);
        let xp = chars_of(x.rel_path.as_str());
        let mut p: usize = 0;
        while p < sorted.len() && str_less(&chars_of(sorted[p].rel_path.as_str()), &xp)
            invariant
                s0 == file_models(sorted@),
                xp@ == xm.0,
                0 <= p <= sorted@.len(),
                forall|q: int| 0 <= q < p ==> str_lt(s0[q].0, xm.0),
            decreases sorted@.len() - p,
        {
            p += 1;
        }
        proof {
            // x's path is new, so it sorts before everything from p on.
            assert forall|q: int| p <= q < s0.len() implies str_lt(xm.0, s0[q].0) by {
                assert(s0.contains(s0[q]));
                assert(u.take(k as int).contains(s0[q]));
                let t = choose|t: int| 0 <= t < k && u.take(k as int)[t] == s0[q];
                assert(u[t] == s0[q]);
                assert(u[k as int] == xm);
                assert(s0[q].0 != xm.0);
                if q > p {
                    lemma_str_lt_total(s0[p as int].0, xm.0);
                    assert(s0.contains(s0[p as int]));
                    let t2 = choose|t2: int| 0 <= t2 < k && u.take(k as int)[t2] == s0[p as int];
                    assert(u[t2] == s0[p as int]);
                    lemma_str_lt_trans(xm.0, s0[p as int].0, s0[q].0);
                }
                lemma_str_lt_total(s0[q].0, xm.0);
            }
        }
        sorted.insert(p, x);
        proof {
            let s1 = file_models(sorted@);
            assert(s1 =~= s0.insert(p as int, xm));
            assert(u.take(k + 1) =~= u.take(k as int).push(xm));
            assert forall|y: (Seq<char>, Seq<char>)| s1.contains(y) <==> u.take(k + 1).contains(y) by {
                let uk = u.take(k + 1);
                let u0 = u.take(k as int);
                assert(uk[k as int] == xm);
                if s1.contains(y) {
                    let t = choose|t: int| 0 <= t < s1.len() && s1[t] == y;
                    if t == p {
                        assert(uk[k as int] == y);
                    } else {
                        let yy = if t < p { s0[t] } else { s0[t - 1] };
                        assert(yy == y);
                        assert(s0.contains(y));
                        assert(u0.contains(y));
                        let t2 = choose|t2: int| 0 <= t2 < u0.len() && u0[t2] == y;
                        assert(uk[t2] == y);
                    }
                }
                if uk.contains(y) {
                    let t = choose|t: int| 0 <= t < uk.len() && uk[t] == y;
                    if t < k {
                        assert(u0[t] == y);
                        assert(u0.contains(y));
                        assert(s0.contains(y));
                        let q = choose|q: int| 0 <= q < s0.len() && s0[q] == y;
                        if q < p {
                            assert(s1[q] == y);
                        } else {
                            assert(s1[q + 1] == y);
                        }
                    } else {
                        assert(s1[p as int] == y);
                    }
                }
            }
            assert forall|i: int, j: int| 0 <= i < j < s1.len() implies str_lt(s1[i].0, s1[j].0) by {
                if j < p {
                } else if i < p && j == p {
                } else if i < p && j > p {
                    assert(s1[j] == s0[j - 1]);
                    lemma_str_lt_trans(s0[i].0, xm.0, s0[j - 1].0);
                } else if i == p {
                    assert(s1[j] == s0[j - 1]);
                } else {
                    assert(s1[i] == s0[i - 1]);
                    assert(s1[j] == s0[j - 1]);
                }
            }
        }
        k += 1;
    }
    assert(u.take(u.len() as int) =~= u);
    sorted
}

/// The entries of the files `sorted`, in order.
fn build_context(sorted: &Vec<ScannedFile>, depth: ScanDepth) -> (c: CodebaseContext)
    ensures
        codebase_matches(c, file_models(sorted@), depth),
{
    let ghost s = file_models(sorted@);
    let ghost ft = |m: (Seq<char>, Seq<char>)|
        if test_fns_from(lines(m.1), 0, false).len() > 0 {
            seq![(m.0, test_fns_from(lines(m.1), 0, false))]
        } else {
            seq![]
        };
    let mut files: Vec<FileEntry> = Vec::new();
    let mut tests: Vec<TestEntry> = Vec::new();
    let mut i: usize = 0;
    while i < sorted.len()
        invariant
            s == file_models(sorted@),
            0 <= i <= s.len(),
            ft == (|m: (Seq<char>, Seq<char>)|
                if test_fns_from(lines(m.1), 0, false).len() > 0 {
                    seq![(m.0, test_fns_from(lines(m.1), 0, false))]
                } else {
                    seq![]
                }),
            files@.len() == i,
            forall|k: int| 0 <= k < i ==> file_entry_matches(#[trigger] files@[k], s[k], depth),
            tests@.map_values(|t: TestEntry| test_model(t)) == concat_map(s.take(i as int), ft),
        decreases s.len() - i,
    {
        let f = &sorted[i];
        let ls = lines_exec(&chars_of(f.content.as_str()));
        let summary = summary_of_lines(&ls);
        let sigs = if depth == ScanDepth::Full {
            pub_sigs_of_lines(&ls)
        } else {
            let e: Vec<String> = Vec::new();
            assert(views(e@) =~= Seq::<Seq<char>>::empty());
            e
        };
        let names = test_fns_of_lines(&ls);
        files.push(FileEntry { path: f.rel_path.clone(), summary, pub_signatures: sigs });
        let ghost t0 = tests@.map_values(|t: TestEntry| test_model(t));
        if names.len() > 0 {
            tests.push(TestEntry { file: f.rel_path.clone(), function_names: names });
            assert(tests@.map_values(|t: TestEntry| test_model(t)) =~= t0 + ft(s[i as int]));
        } else {
            assert(tests@.map_values(|t: TestEntry| test_model(t)) =~= t0 + ft(s[i as int]));
        }
        proof {
            lemma_concat_map_step(s, ft, i as int);
        }
        i += 1;
    }
    proof { lemma_concat_map_all(s, ft); }
    CodebaseContext { files, test_functions: tests }
}

/// The ignore rules of a code directory.  Without a readable `.gitignore`
/// they are `target/`, `.git/` and `node_modules/`; otherwise its trimmed,
/// non-empty, non-comment lines, plus `.git/` unless a rule already starts
/// with `.git`.
pub open spec fn gitignore_rules_spec(content: Option<Seq<char>>) -> Seq<Seq<char>> {
    match content {
        None => seq!["target/"@, ".git/"@, "node_modules/"@],
        Some(c) => {
            let rules = lines(c).map_values(|l: Seq<char>| trim(l)).filter(
                |l: Seq<char>| l.len() > 0 && !starts_with(l, "#"@),
            );
            if exists|k: int| 0 <= k < rules.len() && starts_with(#[trigger] rules[k], ".git"@) {
                rules
            } else {
                rules.push(".git/"@)
            }
        },
    }
}

/// Whatever the `.gitignore` holds, or when there is none, some rule
/// starts with `.git`.
pub proof fn law_git_rule_always_present(content: Option<Seq<char>>)
    ensures
        exists|k: int|
            0 <= k < gitignore_rules_spec(content).len() && starts_with(#[trigger] gitignore_rules_spec(content)[k], ".git"@),
{
    reveal_strlit(".git/");
    reveal_strlit(".git");
    let r = gitignore_rules_spec(content);
    match content {
        None => {
            assert(r[1] == ".git/"@);
            assert(r[1].subrange(0, 4) =~= ".git"@);
        },
        Some(c) => {
            let rules = lines(c).map_values(|l: Seq<char>| trim(l)).filter(
                |l: Seq<char>| l.len() > 0 && !starts_with(l, "#"@),
            );
            if !exists|k: int| 0 <= k < rules.len() && starts_with(#[trigger] rules[k], ".git"@) {
                assert(r[rules.len() as int] == ".git/"@);
                assert(r[rules.len() as int].subrange(0, 4) =~= ".git"@);
            }
        },
    }
}

/// The warning for a missing allowed path names the pattern.
pub proof fn law_missing_warning_names_pattern(pattern: Seq<char>, resolved: Seq<char>)
    ensures
        contains(missing_warning(pattern, resolved), pattern),
{
    let pre = "Allowed Changes path not found: "@;
    let w = missing_warning(pattern, resolved);
    let k = pre.len() as int;
    assert(w.subrange(k, k + pattern.len()) =~= pattern);
    assert(occurs_at(w, pattern, k));
    if find_from(w, pattern, 0) is None {
        crate::text::lemma_find_from_none(w, pattern, 0);
    }
}

/// The ignore rules from the text of `.gitignore`, or `None` when it could not be read.
pub fn gitignore_rules(content: Option<&str>) -> (r: Vec<String>)
    ensures
        views(r@) == gitignore_rules_spec(match content { Some(c) => Some(c@), None => None }),
{
    match content {
        None => {
            let mut r: Vec<String> = Vec::new();
            r.push("target/".to_owned());
            r.push(".git/".to_owned());
            r.push("node_modules/".to_owned());
            assert(views(r@) =~= seq!["target/"@, ".git/"@, "node_modules/"@]);
            r
        },
        Some(c) => {
            let ls = lines_exec(&chars_of(c));
            let ghost tl = lines(c@).map_values(|l: Seq<char>| trim(l));
            let ghost pred = |l: Seq<char>| l.len() > 0 && !starts_with(l, "#"@);
            let hash = chars_of("#");
            let git = chars_of(".git");
            let mut rules: Vec<String> = Vec::new();
            let mut has_git = false;
            let mut i: usize = 0;
            while i < ls.len()
                invariant
                    char_views(ls@) == lines(c@),
                    tl == lines(c@).map_values(|l: Seq<char>| trim(l)),
                    pred == (|l: Seq<char>| l.len() > 0 && !starts_with(l, "#"@)),
                    hash@ == "#"@,
                    git@ == ".git"@,
                    0 <= i <= ls@.len(),
                    views(rules@) == tl.take(i as int).filter(pred),
                    has_git == exists|k: int| 0 <= k < rules@.len() && starts_with(#[trigger] views(rules@)[k], ".git"@),
                decreases ls@.len() - i,
            {
                let t = trim_exec(ls[i].as_slice());
                proof {
                    assert(char_views(ls@)[i as int] == ls@[i as int]@);
                    assert(tl[i as int] == t@);
                    assert(tl.take(i + 1).drop_last() =~= tl.take(i as int));
                    reveal_with_fuel(Seq::filter, 1);
                }
                if t.len() > 0 && !starts_with_exec(&t, &hash) {
                    let g = starts_with_exec(&t, &git);
                    let ghost before = views(rules@);
                    rules.push(string_from_chars(&t));
                    assert(views(rules@) =~= before.push(t@));
                    proof {
                        if g {
                            assert(starts_with(views(rules@)[before.len() as int], ".git"@));
                        }
                        if has_git {
                            let k = choose|k: int| 0 <= k < before.len() && starts_with(#[trigger] before[k], ".git"@);
                            assert(views(rules@)[k] == before[k]);
                        }
                        if !has_git && !g {
                            assert forall|k: int| 0 <= k < views(rules@).len() implies !starts_with(#[trigger] views(rules@)[k], ".git"@) by {
                                if k < before.len() {
                                    assert(views(rules@)[k] == before[k]);
                                }
                            }
                        }
                    }
                    has_git = has_git || g;
                }
                i += 1;
            }
            proof {
                assert(tl.take(ls@.len() as int) =~= tl);
                assert(tl.len() == lines(c@).len());
            }
            if !has_git {
                let ghost before = views(rules@);
                rules.push(".git/".to_owned());
                assert(views(rules@) =~= before.push(".git/"@));
            }
            rules
        },
    }
}


/// Build a complete PlanContext from a resolved spec and the scan of its
/// allowed change paths.
pub fn build_plan_context(
    contract: &TaskContract,
    resolved: &ResolvedSpec,
    codebase_context: CodebaseContext,
    warnings: Vec<String>,
) -> (r: PlanContext)
    requires
        resolved.all_scenarios@.len() < usize::MAX,
    ensures
        contract_view(r.contract) == contract_view(*contract),
        r.codebase_context == codebase_context,
        r.warnings == warnings,
        sketch_matches(resolved.all_scenarios@, resolved.task.sections@, r.task_sketch),
{
    let task_sketch = build_task_sketch(&resolved.all_scenarios, &resolved.task.sections);
    PlanContext { contract: contract.copy(), codebase_context, task_sketch, warnings }
}


/// A titled list that is left out when empty.
pub open spec fn titled_list(title: Seq<char>, items: Seq<String>, pre: Seq<char>, post: Seq<char>) -> Seq<char> {
    if items.len() == 0 {
        seq![]
    } else {
        title + item_lines(items, pre, post)
    }
}

fn push_titled_list(out: &mut String, title: &str, items: &Vec<String>, pre: &str, post: &str)
    ensures
        final(out)@ == old(out)@ + titled_list(title@, items@, pre@, post@),
{
    if items.len() > 0 {
        out.append(title);
        push_item_lines(out, items, pre, post);
    }
}

/// One file in the text plan.
pub open spec fn file_text(f: FileEntry) -> Seq<char> {
    (if f.summary@.len() == 0 {
        "  - "@ + f.path@ + "\n"@
    } else {
        "  - "@ + f.path@ + " — "@ + f.summary@ + "\n"@
    }) + item_lines(f.pub_signatures@, "      "@, "\n"@)
}

/// One test entry in the text plan.
pub open spec fn test_text(t: TestEntry) -> Seq<char> {
    "  "@ + t.file@ + ":\n"@ + item_lines(t.function_names@, "    - "@, "\n"@)
}

/// One group in the text plan.
pub open spec fn group_text(g: TaskGroup) -> Seq<char> {
    "Group "@ + decimal(g.order as nat) + " (order "@ + decimal(g.order as nat) + "):\n"@
        + "  Scenarios:\n"@ + item_lines(g.scenarios@, "    - "@, "\n"@)
        + titled_list("  Boundary paths:\n"@, g.boundary_paths@, "    - "@, "\n"@)
        + titled_list("  Test selectors:\n"@, g.test_selectors@, "    - "@, "\n"@)
        + "\n"@
}

/// The file list of the text plan.
pub open spec fn files_text(files: Seq<FileEntry>) -> Seq<char> {
    if files.len() == 0 {
        "(no matching files found)\n"@
    } else {
        "Files ("@ + decimal(files.len()) + "):\n"@ + concat_map(files, |f: FileEntry| file_text(f))
    }
}

/// The test list of the text plan.
pub open spec fn tests_text(tests: Seq<TestEntry>) -> Seq<char> {
    if tests.len() == 0 {
        seq![]
    } else {
        "\nTest functions ("@ + decimal(tests.len()) + "):\n"@ + concat_map(tests, |t: TestEntry| test_text(t))
    }
}

/// The group list of the text plan.
pub open spec fn groups_text(groups: Seq<TaskGroup>) -> Seq<char> {
    if groups.len() == 0 {
        "(no scenarios found)\n"@
    } else {
        concat_map(groups, |g: TaskGroup| group_text(g))
    }
}

/// The text plan: contract, codebase context, task sketch and warnings.
pub open spec fn plan_text(ctx: PlanContext) -> Seq<char> {
    "=== Contract ===\n\n"@ + contract_prompt(ctx.contract)
        + "=== Codebase Context ===\n\n"@
        + files_text(ctx.codebase_context.files@)
        + tests_text(ctx.codebase_context.test_functions@)
        + "\n"@
        + "=== Task Sketch ===\n\n"@
        + groups_text(ctx.task_sketch.groups@)
        + titled_list("=== Warnings ===\n\n"@, ctx.warnings@, "  - "@, "\n"@)
}

fn push_file_text(out: &mut String, f: &FileEntry)
    ensures
        final(out)@ == old(out)@ + file_text(*f),
{
    out.append("  - ");
    out.append(f.path.as_str());
    if !f.summary.as_str().is_empty() {
        out.append(" — ");
        out.append(f.summary.as_str());
    }
    out.append("\n");
    push_item_lines(out, &f.pub_signatures, "      ", "\n");
}

fn push_test_text(out: &mut String, t: &TestEntry)
    ensures
        final(out)@ == old(out)@ + test_text(*t),
{
    out.append("  ");
    out.append(t.file.as_str());
    out.append(":\n");
    push_item_lines(out, &t.function_names, "    - ", "\n");
}

fn push_group_text(out: &mut String, g: &TaskGroup)
    ensures
        final(out)@ == old(out)@ + group_text(*g),
{
    out.append("Group ");
    push_usize(out, g.order);
    out.append(" (order ");
    push_usize(out, g.order);
    out.append("):\n");
    out.append("  Scenarios:\n");
    push_item_lines(out, &g.scenarios, "    - ", "\n");
    push_titled_list(out, "  Boundary paths:\n", &g.boundary_paths, "    - ", "\n");
    push_titled_list(out, "  Test selectors:\n", &g.test_selectors, "    - ", "\n");
    out.append("\n");
}

fn push_files_text(out: &mut String, files: &Vec<FileEntry>)
    ensures
        final(out)@ == old(out)@ + files_text(files@),
{
    if files.len() == 0 {
        out.append("(no matching files found)\n");
    } else {
        out.append("Files (");
        push_usize(out, files.len());
        out.append("):\n");
        let ghost f = |x: FileEntry| file_text(x);
        let ghost o0 = out@;
        let mut i: usize = 0;
        while i < files.len()
            invariant
                0 <= i <= files@.len(),
                f == (|x: FileEntry| file_text(x)),
                out@ == o0 + concat_map(files@.take(i as int), f),
            decreases files@.len() - i,
        {
            push_file_text(out, &files[i]);
            proof { lemma_concat_map_step(files@, f, i as int); }
            i += 1;
        }
        proof { lemma_concat_map_all(files@, f); }
    }
}

fn push_tests_text(out: &mut String, tests: &Vec<TestEntry>)
    ensures
        final(out)@ == old(out)@ + tests_text(tests@),
{
    if tests.len() > 0 {
        out.append("\nTest functions (");
        push_usize(out, tests.len());
        out.append("):\n");
        let ghost f = |x: TestEntry| test_text(x);
        let ghost o0 = out@;
        let mut i: usize = 0;
        while i < tests.len()
            invariant
                0 <= i <= tests@.len(),
                f == (|x: TestEntry| test_text(x)),
                out@ == o0 + concat_map(tests@.take(i as int), f),
            decreases tests@.len() - i,
        {
            push_test_text(out, &tests[i]);
            proof { lemma_concat_map_step(tests@, f, i as int); }
            i += 1;
        }
        proof { lemma_concat_map_all(tests@, f); }
    }
}

fn push_groups_text(out: &mut String, groups: &Vec<TaskGroup>)
    ensures
        final(out)@ == old(out)@ + groups_text(groups@),
{
    if groups.len() == 0 {
        out.append("(no scenarios found)\n");
    } else {
        let ghost f = |x: TaskGroup| group_text(x);
        let ghost o0 = out@;
        let mut i: usize = 0;
        while i < groups.len()
            invariant
                0 <= i <= groups@.len(),
                f == (|x: TaskGroup| group_text(x)),
                out@ == o0 + concat_map(groups@.take(i as int), f),
            decreases groups@.len() - i,
        {
            push_group_text(out, &groups[i]);
            proof { lemma_concat_map_step(groups@, f, i as int); }
            i += 1;
        }
        proof { lemma_concat_map_all(groups@, f); }
    }
}

/// Format PlanContext as human-readable text.
pub fn format_plan_text(ctx: &PlanContext) -> (s: String)
    ensures
        s@ == plan_text(*ctx),
{
    let mut out = String::new();
    out.append("=== Contract ===\n\n");
    let prompt = ctx.contract.to_prompt();
    out.append(prompt.as_str());
    out.append("=== Codebase Context ===\n\n");
    push_files_text(&mut out, &ctx.codebase_context.files);
    push_tests_text(&mut out, &ctx.codebase_context.test_functions);
    out.append("\n");
    out.append("=== Task Sketch ===\n\n");
    push_groups_text(&mut out, &ctx.task_sketch.groups);
    push_titled_list(&mut out, "=== Warnings ===\n\n", &ctx.warnings, "  - ", "\n");
    out
}


/// One file in the prompt plan.
pub open spec fn prompt_file(f: FileEntry) -> Seq<char> {
    (if f.summary@.len() == 0 {
        "- `"@ + f.path@ + "`\n"@
    } else {
        "- `"@ + f.path@ + "` — "@ + f.summary@ + "\n"@
    }) + item_lines(f.pub_signatures@, "  - `"@, "`\n"@)
}

/// One test entry in the prompt plan.
pub open spec fn prompt_test(t: TestEntry) -> Seq<char> {
    "- `"@ + t.file@ + "`:\n"@ + item_lines(t.function_names@, "  - `"@, "`\n"@)
}

/// One group (phase) in the prompt plan.
pub open spec fn prompt_group(g: TaskGroup) -> Seq<char> {
    "## Phase "@ + decimal(g.order as nat) + "\n\n"@ + "Scenarios:\n"@ + item_lines(g.scenarios@, "- "@, "\n"@)
        + titled_list("\nTest selectors:\n"@, g.test_selectors@, "- `"@, "`\n"@) + "\n"@
}

/// The codebase part of the prompt plan.
pub open spec fn prompt_codebase(files: Seq<FileEntry>, tests: Seq<TestEntry>) -> Seq<char> {
    "# Codebase Context\n\n"@
        + (if files.len() == 0 {
            "No matching files found in the allowed change paths.\n\n"@
        } else {
            "## Existing Files\n\n"@ + concat_map(files, |f: FileEntry| prompt_file(f)) + "\n"@
        })
        + (if tests.len() == 0 {
            seq![]
        } else {
            "## Existing Tests\n\n"@ + concat_map(tests, |t: TestEntry| prompt_test(t)) + "\n"@
        })
}

/// The implementation-order part of the prompt plan.
pub open spec fn prompt_order(groups: Seq<TaskGroup>) -> Seq<char> {
    "# Suggested Implementation Order\n\n"@
        + (if groups.len() == 0 {
            "No scenario dependencies detected.\n\n"@
        } else {
            concat_map(groups, |g: TaskGroup| prompt_group(g))
        })
}

/// The warnings part of the prompt plan.
pub open spec fn prompt_warnings(w: Seq<String>) -> Seq<char> {
    if w.len() == 0 {
        seq![]
    } else {
        "---\n\n"@ + "# Warnings\n\n"@ + item_lines(w, "- "@, "\n"@) + "\n"@
    }
}

/// The closing request of the prompt, and the verification it asks for.
pub open spec fn footer_verification() -> Seq<char> {
    "---\n\n"@
        + "Based on the contract, codebase context, and suggested order above, "@
        + "generate a detailed implementation plan with specific file changes, "@
        + "code snippets, and verification steps for each scenario group.\n\n"@
        + "## Verification (MANDATORY)\n\n"@
        + "After implementation, you MUST run:\n"@
        + "```bash\nagent-spec lifecycle <spec> --code . --format json\n```\n"@
        + "Do NOT claim completion until all scenarios show \"pass\".\n\n"@
}

/// The review each scenario group goes through.
pub open spec fn footer_review() -> Seq<char> {
    "## Execution Protocol\n\n"@
        + "### Two-Stage Review\n"@
        + "After implementing each scenario group:\n"@
        + "1. **Spec compliance**: Execute `agent-spec lifecycle` with that group's test selectors. All must show `pass`.\n"@
        + "2. **Code quality**: Review for dead code, `.unwrap()` in production paths, boundary violations, unnecessary complexity.\n\n"@
        + "Do NOT proceed to the next group until both stages pass for the current group.\n\n"@
}

/// How progress is reported.
pub open spec fn footer_status() -> Seq<char> {
    "### Status Reporting\n"@
        + "After each scenario group, report your status:\n"@
        + "- **DONE** — All scenarios in this group pass lifecycle verification\n"@
        + "- **DONE_WITH_CONCERNS** — Scenarios pass but you have doubts (explain what and why)\n"@
        + "- **NEEDS_CONTEXT** — You need information not provided in the contract or codebase context\n"@
        + "- **BLOCKED** — You cannot complete this group (explain the blocker)\n\n"@
        + "If BLOCKED: do not attempt workarounds. Report the blocker and wait for guidance.\n"@
}

/// The closing part of the prompt.
pub open spec fn prompt_footer() -> Seq<char> {
    footer_verification() + footer_review() + footer_status()
}

/// The self-contained prompt plan.
pub open spec fn plan_prompt(ctx: PlanContext) -> Seq<char> {
    "You are implementing the following spec. Generate an implementation plan.\n\n"@
        + "---\n\n"@
        + contract_prompt(ctx.contract)
        + "---\n\n"@
        + prompt_codebase(ctx.codebase_context.files@, ctx.codebase_context.test_functions@)
        + "---\n\n"@
        + prompt_order(ctx.task_sketch.groups@)
        + prompt_warnings(ctx.warnings@)
        + prompt_footer()
}

fn push_prompt_file(out: &mut String, f: &FileEntry)
    ensures
        final(out)@ == old(out)@ + prompt_file(*f),
{
    out.append("- `");
    out.append(f.path.as_str());
    if f.summary.as_str().is_empty() {
        out.append("`\n");
    } else {
        out.append("` — ");
        out.append(f.summary.as_str());
        out.append("\n");
    }
    push_item_lines(out, &f.pub_signatures, "  - `", "`\n");
}

fn push_prompt_test(out: &mut String, t: &TestEntry)
    ensures
        final(out)@ == old(out)@ + prompt_test(*t),
{
    out.append("- `");
    out.append(t.file.as_str());
    out.append("`:\n");
    push_item_lines(out, &t.function_names, "  - `", "`\n");
}

fn push_prompt_group(out: &mut String, g: &TaskGroup)
    ensures
        final(out)@ == old(out)@ + prompt_group(*g),
{
    out.append("## Phase ");
    push_usize(out, g.order);
    out.append("\n\n");
    out.append("Scenarios:\n");
    push_item_lines(out, &g.scenarios, "- ", "\n");
    push_titled_list(out, "\nTest selectors:\n", &g.test_selectors, "- `", "`\n");
    out.append("\n");
}

fn push_prompt_codebase(out: &mut String, files: &Vec<FileEntry>, tests: &Vec<TestEntry>)
    ensures
        final(out)@ == old(out)@ + prompt_codebase(files@, tests@),
{
    out.append("# Codebase Context\n\n");
    if files.len() == 0 {
        out.append("No matching files found in the allowed change paths.\n\n");
    } else {
        out.append("## Existing Files\n\n");
        let ghost f = |x: FileEntry| prompt_file(x);
        let ghost o0 = out@;
        let mut i: usize = 0;
        while i < files.len()
            invariant
                0 <= i <= files@.len(),
                f == (|x: FileEntry| prompt_file(x)),
                out@ == o0 + concat_map(files@.take(i as int), f),
            decreases files@.len() - i,
        {
            push_prompt_file(out, &files[i]);
            proof { lemma_concat_map_step(files@, f, i as int); }
            i += 1;
        }
        proof { lemma_concat_map_all(files@, f); }
        out.append("\n");
    }
    if tests.len() > 0 {
        out.append("## Existing Tests\n\n");
        let ghost f = |x: TestEntry| prompt_test(x);
        let ghost o0 = out@;
        let mut i: usize = 0;
        while i < tests.len()
            invariant
                0 <= i <= tests@.len(),
                f == (|x: TestEntry| prompt_test(x)),
                out@ == o0 + concat_map(tests@.take(i as int), f),
            decreases tests@.len() - i,
        {
            push_prompt_test(out, &tests[i]);
            proof { lemma_concat_map_step(tests@, f, i as int); }
            i += 1;
        }
        proof { lemma_concat_map_all(tests@, f); }
        out.append("\n");
    }
}

fn push_prompt_order(out: &mut String, groups: &Vec<TaskGroup>)
    ensures
        final(out)@ == old(out)@ + prompt_order(groups@),
{
    out.append("# Suggested Implementation Order\n\n");
    if groups.len() == 0 {
        out.append("No scenario dependencies detected.\n\n");
    } else {
        let ghost f = |x: TaskGroup| prompt_group(x);
        let ghost o0 = out@;
        let mut i: usize = 0;
        while i < groups.len()
            invariant
                0 <= i <= groups@.len(),
                f == (|x: TaskGroup| prompt_group(x)),
                out@ == o0 + concat_map(groups@.take(i as int), f),
            decreases groups@.len() - i,
        {
            push_prompt_group(out, &groups[i]);
            proof { lemma_concat_map_step(groups@, f, i as int); }
            i += 1;
        }
        proof { lemma_concat_map_all(groups@, f); }
    }
}

fn push_footer_verification(out: &mut String)
    ensures
        final(out)@ == old(out)@ + footer_verification(),
{
    out.append("---\n\n");
    out.append("Based on the contract, codebase context, and suggested order above, ");
    out.append("generate a detailed implementation plan with specific file changes, ");
    out.append("code snippets, and verification steps for each scenario group.\n\n");
    out.append("## Verification (MANDATORY)\n\n");
    out.append("After implementation, you MUST run:\n");
    out.append("```bash\nagent-spec lifecycle <spec> --code . --format json\n```\n");
    out.append("Do NOT claim completion until all scenarios show \"pass\".\n\n");
}

fn push_footer_review(out: &mut String)
    ensures
        final(out)@ == old(out)@ + footer_review(),
{
    out.append("## Execution Protocol\n\n");
    out.append("### Two-Stage Review\n");
    out.append("After implementing each scenario group:\n");
    out.append("1. **Spec compliance**: Execute `agent-spec lifecycle` with that group's test selectors. All must show `pass`.\n");
    out.append("2. **Code quality**: Review for dead code, `.unwrap()` in production paths, boundary violations, unnecessary complexity.\n\n");
    out.append("Do NOT proceed to the next group until both stages pass for the current group.\n\n");
}

fn push_footer_status(out: &mut String)
    ensures
        final(out)@ == old(out)@ + footer_status(),
{
    out.append("### Status Reporting\n");
    out.append("After each scenario group, report your status:\n");
    out.append("- **DONE** — All scenarios in this group pass lifecycle verification\n");
    out.append("- **DONE_WITH_CONCERNS** — Scenarios pass but you have doubts (explain what and why)\n");
    out.append("- **NEEDS_CONTEXT** — You need information not provided in the contract or codebase context\n");
    out.append("- **BLOCKED** — You cannot complete this group (explain the blocker)\n\n");
    out.append("If BLOCKED: do not attempt workarounds. Report the blocker and wait for guidance.\n");
}

fn push_prompt_footer(out: &mut String)
    ensures
        final(out)@ == old(out)@ + prompt_footer(),
{
    let ghost o0 = out@;
    push_footer_verification(out);
    push_footer_review(out);
    push_footer_status(out);
    assert(out@ =~= o0 + prompt_footer());
}

/// Format PlanContext as a self-contained AI prompt.
pub fn format_plan_prompt(ctx: &PlanContext) -> (s: String)
    ensures
        s@ == plan_prompt(*ctx),
{
    let mut out = String::new();
    out.append("You are implementing the following spec. Generate an implementation plan.\n\n");
    out.append("---\n\n");
    let prompt = ctx.contract.to_prompt();
    out.append(prompt.as_str());
    out.append("---\n\n");
    push_prompt_codebase(&mut out, &ctx.codebase_context.files, &ctx.codebase_context.test_functions);
    out.append("---\n\n");
    push_prompt_order(&mut out, &ctx.task_sketch.groups);
    if ctx.warnings.len() > 0 {
        out.append("---\n\n");
        out.append("# Warnings\n\n");
        push_item_lines(&mut out, &ctx.warnings, "- ", "\n");
        out.append("\n");
    }
    push_prompt_footer(&mut out);
    out
}


// === Laws of the prompt plan ===

/// The Phase block of a group lists each of its test selectors, each on a
/// line of its own in backquotes after `- `.
pub proof fn law_phase_lists_test_selectors(g: TaskGroup, k: int)
    requires
        0 <= k < g.test_selectors@.len(),
    ensures
        contains(prompt_group(g), "- `"@ + g.test_selectors@[k]@ + "`\n"@),
{
    let sels = g.test_selectors@;
    let line = |x: String| "- `"@ + x@ + "`\n"@;
    crate::text::lemma_concat_map_infix(sels, line, k);
    let items = item_lines(sels, "- `"@, "`\n"@);
    assert(items == concat_map(sels, line));
    let tl = titled_list("\nTest selectors:\n"@, sels, "- `"@, "`\n"@);
    assert(tl == "\nTest selectors:\n"@ + items);
    let head = "## Phase "@ + decimal(g.order as nat) + "\n\n"@ + "Scenarios:\n"@ + item_lines(g.scenarios@, "- "@, "\n"@);
    assert(prompt_group(g) =~= (head + "\nTest selectors:\n"@) + items + "\n"@);
    crate::text::lemma_infix_mid(head + "\nTest selectors:\n"@, items, "\n"@);
    crate::text::lemma_infix_trans(prompt_group(g), items, line(sels[k]));
    crate::text::lemma_infix_contains(prompt_group(g), line(sels[k]));
}

/// The prompt plan holds the Phase block of every group of the task sketch,
/// and with it each group's test selectors.
pub proof fn law_prompt_holds_every_phase(ctx: PlanContext, k: int, j: int)
    requires
        0 <= k < ctx.task_sketch.groups@.len(),
    ensures
        contains(plan_prompt(ctx), prompt_group(ctx.task_sketch.groups@[k])),
        (0 <= j < ctx.task_sketch.groups@[k].test_selectors@.len()) ==> contains(
            plan_prompt(ctx),
            ("- `"@ + ctx.task_sketch.groups@[k].test_selectors@[j]@ + "`\n"@),
        ),
{
    let groups = ctx.task_sketch.groups@;
    let g = groups[k];
    let f = |x: TaskGroup| prompt_group(x);
    crate::text::lemma_concat_map_infix(groups, f, k);
    let order = prompt_order(groups);
    let body = concat_map(groups, f);
    assert(order == "# Suggested Implementation Order\n\n"@ + body);
    crate::text::lemma_infix_mid("# Suggested Implementation Order\n\n"@, body, Seq::<char>::empty());
    assert("# Suggested Implementation Order\n\n"@ + body + Seq::<char>::empty() =~= order);
    crate::text::lemma_infix_trans(order, body, prompt_group(g));
    let pre = "You are implementing the following spec. Generate an implementation plan.\n\n"@ + "---\n\n"@
        + contract_prompt(ctx.contract) + "---\n\n"@ + prompt_codebase(
        ctx.codebase_context.files@,
        ctx.codebase_context.test_functions@,
    ) + "---\n\n"@;
    let post = prompt_warnings(ctx.warnings@) + prompt_footer();
    assert(plan_prompt(ctx) =~= pre + order + post);
    crate::text::lemma_infix_mid(pre, order, post);
    crate::text::lemma_infix_trans(plan_prompt(ctx), order, prompt_group(g));
    crate::text::lemma_infix_contains(plan_prompt(ctx), prompt_group(g));
    if 0 <= j < g.test_selectors@.len() {
        let line = "- `"@ + g.test_selectors@[j]@ + "`\n"@;
        let sels = g.test_selectors@;
        let lf = |x: String| "- `"@ + x@ + "`\n"@;
        crate::text::lemma_concat_map_infix(sels, lf, j);
        let items = item_lines(sels, "- `"@, "`\n"@);
        let head = "## Phase "@ + decimal(g.order as nat) + "\n\n"@ + "Scenarios:\n"@ + item_lines(g.scenarios@, "- "@, "\n"@);
        assert(prompt_group(g) =~= (head + "\nTest selectors:\n"@) + items + "\n"@);
        crate::text::lemma_infix_mid(head + "\nTest selectors:\n"@, items, "\n"@);
        crate::text::lemma_infix_trans(prompt_group(g), items, line);
        crate::text::lemma_infix_trans(plan_prompt(ctx), prompt_group(g), line);
        crate::text::lemma_infix_contains(plan_prompt(ctx), line);
    }
}

/// The text plan holds the block of every group of the task sketch, and
/// each block lists the group's boundary paths and test selectors, each on
/// a line of its own.
pub proof fn law_text_plan_lists_group_paths_and_selectors(ctx: PlanContext, k: int, j: int)
    requires
        0 <= k < ctx.task_sketch.groups@.len(),
    ensures
        contains(plan_text(ctx), group_text(ctx.task_sketch.groups@[k])),
        (0 <= j < ctx.task_sketch.groups@[k].test_selectors@.len()) ==> contains(
            group_text(ctx.task_sketch.groups@[k]),
            ("  Test selectors:\n"@ + item_lines(ctx.task_sketch.groups@[k].test_selectors@, "    - "@, "\n"@)),
        ),
        (0 <= j < ctx.task_sketch.groups@[k].test_selectors@.len()) ==> contains(
            plan_text(ctx),
            ("    - "@ + ctx.task_sketch.groups@[k].test_selectors@[j]@ + "\n"@),
        ),
        (0 <= j < ctx.task_sketch.groups@[k].boundary_paths@.len()) ==> contains(
            plan_text(ctx),
            ("    - "@ + ctx.task_sketch.groups@[k].boundary_paths@[j]@ + "\n"@),
        ),
{
    let groups = ctx.task_sketch.groups@;
    let g = groups[k];
    let f = |x: TaskGroup| group_text(x);
    crate::text::lemma_concat_map_infix(groups, f, k);
    let gt = groups_text(groups);
    assert(gt == concat_map(groups, f));
    let pre = "=== Contract ===\n\n"@ + contract_prompt(ctx.contract) + "=== Codebase Context ===\n\n"@ + files_text(
        ctx.codebase_context.files@,
    ) + tests_text(ctx.codebase_context.test_functions@) + "\n"@ + "=== Task Sketch ===\n\n"@;
    let post = titled_list("=== Warnings ===\n\n"@, ctx.warnings@, "  - "@, "\n"@);
    assert(plan_text(ctx) =~= pre + gt + post);
    crate::text::lemma_infix_mid(pre, gt, post);
    crate::text::lemma_infix_trans(plan_text(ctx), gt, group_text(g));
    crate::text::lemma_infix_contains(plan_text(ctx), group_text(g));
    let head = "Group "@ + decimal(g.order as nat) + " (order "@ + decimal(g.order as nat) + "):\n"@ + "  Scenarios:\n"@
        + item_lines(g.scenarios@, "    - "@, "\n"@);
    let bl = titled_list("  Boundary paths:\n"@, g.boundary_paths@, "    - "@, "\n"@);
    let tl = titled_list("  Test selectors:\n"@, g.test_selectors@, "    - "@, "\n"@);
    assert(group_text(g) =~= head + bl + tl + "\n"@);
    let lf = |x: String| "    - "@ + x@ + "\n"@;
    if 0 <= j < g.test_selectors@.len() {
        let items = item_lines(g.test_selectors@, "    - "@, "\n"@);
        assert(tl == "  Test selectors:\n"@ + items);
        crate::text::lemma_infix_mid(head + bl, tl, "\n"@);
        crate::text::lemma_infix_contains(group_text(g), tl);
        crate::text::lemma_concat_map_infix(g.test_selectors@, lf, j);
        assert(items == concat_map(g.test_selectors@, lf));
        crate::text::lemma_infix_mid("  Test selectors:\n"@, items, Seq::<char>::empty());
        assert("  Test selectors:\n"@ + items + Seq::<char>::empty() =~= tl);
        crate::text::lemma_infix_trans(tl, items, lf(g.test_selectors@[j]));
        crate::text::lemma_infix_trans(group_text(g), tl, lf(g.test_selectors@[j]));
        crate::text::lemma_infix_trans(plan_text(ctx), group_text(g), lf(g.test_selectors@[j]));
        crate::text::lemma_infix_contains(plan_text(ctx), lf(g.test_selectors@[j]));
    }
    if 0 <= j < g.boundary_paths@.len() {
        let items = item_lines(g.boundary_paths@, "    - "@, "\n"@);
        assert(bl == "  Boundary paths:\n"@ + items);
        assert(group_text(g) =~= (head + "  Boundary paths:\n"@) + items + (tl + "\n"@));
        crate::text::lemma_infix_mid(head + "  Boundary paths:\n"@, items, tl + "\n"@);
        crate::text::lemma_concat_map_infix(g.boundary_paths@, lf, j);
        assert(items == concat_map(g.boundary_paths@, lf));
        crate::text::lemma_infix_trans(group_text(g), items, lf(g.boundary_paths@[j]));
        crate::text::lemma_infix_trans(plan_text(ctx), group_text(g), lf(g.boundary_paths@[j]));
        crate::text::lemma_infix_contains(plan_text(ctx), lf(g.boundary_paths@[j]));
    }
}

// === Laws of the task sketch ===

/// Some position of the latest group `g.last()` holds a dependency of `v`.
pub open spec fn dep_in_last(scs: Seq<Scenario>, g: Seq<Seq<usize>>, v: usize) -> bool {
    exists|p: int| 0 <= p < g.last().len() && deps_of(scs, v).contains(#[trigger] g.last()[p])
}

/// `x` is in one of the first `a` groups of `g`.
pub open spec fn placed_before(g: Seq<Seq<usize>>, a: int, x: usize) -> bool {
    exists|b: int| 0 <= b < a && #[trigger] g[b].contains(x)
}

/// `g` are well-formed layers: indices of scenarios, each dependency in an
/// earlier layer, no scenario twice, no empty layer, the roots first, each
/// later layer one step after the layer before it, and no scenario left
/// ready behind the latest layer.
pub open spec fn layers_ok(scs: Seq<Scenario>, g: Seq<Seq<usize>>) -> bool {
    &&& forall|a: int, i: int| 0 <= a < g.len() && 0 <= i < g[a].len() ==> #[trigger] g[a][i] < scs.len()
    &&& forall|a: int, i: int, k: int|
        0 <= a < g.len() && 0 <= i < g[a].len() && 0 <= k < deps_of(scs, g[a][i]).len()
            ==> #[trigger] placed_before(g, a, deps_of(scs, g[a][i])[k])
    &&& forall|a: int, b: int, i: int, j: int|
        0 <= a < g.len() && 0 <= b < g.len() && 0 <= i < g[a].len() && 0 <= j < g[b].len() && #[trigger] g[a][i]
            == #[trigger] g[b][j] ==> a == b && i == j
    &&& forall|a: int| 0 <= a < g.len() ==> (#[trigger] g[a]).len() > 0
    &&& g.len() > 0 ==> g[0] == root_layer(scs)
    &&& forall|a: int, i: int|
        0 < a < g.len() && 0 <= i < g[a].len() ==> #[trigger] dep_in_last(scs, g.take(a), g[a][i])
    &&& g.len() > 0 ==> forall|v: usize| v < scs.len() && #[trigger] ready(scs, g, v) ==> dep_in_last(scs, g, v)
}

proof fn lemma_range_filter_sorted(n: nat, pred: spec_fn(usize) -> bool)
    requires
        n <= usize::MAX,
    ensures
        forall|i: int, j: int| 0 <= i < j < range_filter(n, pred).len() ==> range_filter(n, pred)[i] < range_filter(n, pred)[j],
    decreases n,
{
    if n > 0 {
        lemma_range_filter_sorted((n - 1) as nat, pred);
        lemma_range_filter((n - 1) as nat, pred);
        let r = range_filter((n - 1) as nat, pred);
        let s = range_filter(n, pred);
        if pred((n - 1) as usize) {
            assert(s == r.push((n - 1) as usize));
            assert forall|i: int, j: int| 0 <= i < j < s.len() implies s[i] < s[j] by {
                if j < r.len() {
                    assert(s[i] == r[i] && s[j] == r[j]);
                } else {
                    assert(s[i] == r[i]);
                    assert(r[i] < n - 1);
                }
            }
        } else {
            assert(s == r);
        }
    }
}

proof fn lemma_last_key_unique(scs: Seq<Scenario>, g: Seq<Seq<usize>>, v: usize, p: int, q: int)
    requires
        last_key(scs, g, v, p),
        last_key(scs, g, v, q),
    ensures
        p == q,
{
    if p < q {
        assert(!deps_of(scs, v).contains(g.last()[q]));
    } else if q < p {
        assert(!deps_of(scs, v).contains(g.last()[p]));
    }
}

/// A dependency at position `p` of the latest group gives a last such position.
proof fn lemma_last_key_exists(scs: Seq<Scenario>, g: Seq<Seq<usize>>, v: usize, p: int)
    requires
        0 <= p < g.last().len(),
        deps_of(scs, v).contains(g.last()[p]),
    ensures
        exists|q: int| last_key(scs, g, v, q),
    decreases g.last().len() - p,
{
    if forall|q: int| p < q < g.last().len() ==> !deps_of(scs, v).contains(#[trigger] g.last()[q]) {
        assert(last_key(scs, g, v, p));
    } else {
        let q = choose|q: int| p < q < g.last().len() && deps_of(scs, v).contains(#[trigger] g.last()[q]);
        lemma_last_key_exists(scs, g, v, q);
    }
}

/// What one keyed layer holds, `keyed_layers` holds.
proof fn lemma_keyed_layers_contains(scs: Seq<Scenario>, g: Seq<Seq<usize>>, pp: nat, q: int, v: usize)
    requires
        0 <= q < pp,
        keyed_layer(scs, g, q).contains(v),
    ensures
        keyed_layers(scs, g, pp).contains(v),
    decreases pp,
{
    let a = keyed_layers(scs, g, (pp - 1) as nat);
    let b = keyed_layer(scs, g, pp - 1);
    assert(keyed_layers(scs, g, pp) == a + b);
    if q < pp - 1 {
        lemma_keyed_layers_contains(scs, g, (pp - 1) as nat, q, v);
        let t = choose|t: int| 0 <= t < a.len() && a[t] == v;
        assert((a + b)[t] == v);
    } else {
        let t = choose|t: int| 0 <= t < b.len() && b[t] == v;
        assert((a + b)[a.len() + t] == v);
    }
}

/// Every element of `keyed_layers(pp)` is ready and keyed below `pp`, and
/// none occurs twice.
proof fn lemma_keyed_layers(scs: Seq<Scenario>, g: Seq<Seq<usize>>, pp: nat)
    requires
        scs.len() <= usize::MAX,
        g.len() > 0,
    ensures
        forall|t: int| 0 <= t < keyed_layers(scs, g, pp).len() ==> {
            let v = #[trigger] keyed_layers(scs, g, pp)[t];
            &&& v < scs.len()
            &&& ready(scs, g, v)
            &&& exists|p: int| 0 <= p < pp && last_key(scs, g, v, p)
        },
        forall|s: int, t: int| 0 <= s < t < keyed_layers(scs, g, pp).len() ==> keyed_layers(scs, g, pp)[s] != keyed_layers(scs, g, pp)[t],
    decreases pp,
{
    if pp > 0 {
        let p = pp - 1;
        lemma_keyed_layers(scs, g, (pp - 1) as nat);
        let pred = |v: usize| ready(scs, g, v) && last_key(scs, g, v, p);
        lemma_range_filter(scs.len(), pred);
        lemma_range_filter_sorted(scs.len(), pred);
        let a = keyed_layers(scs, g, (pp - 1) as nat);
        let b = keyed_layer(scs, g, p);
        let all = keyed_layers(scs, g, pp);
        assert(all == a + b);
        assert forall|t: int| 0 <= t < all.len() implies {
            let v = #[trigger] all[t];
            &&& v < scs.len()
            &&& ready(scs, g, v)
            &&& exists|q: int| 0 <= q < pp && last_key(scs, g, v, q)
        } by {
            if t < a.len() {
                assert(all[t] == a[t]);
                let q = choose|q: int| 0 <= q < pp - 1 && last_key(scs, g, a[t], q);
            } else {
                assert(all[t] == b[t - a.len()]);
                assert(pred(b[t - a.len()]));
            }
        }
        assert forall|s: int, t: int| 0 <= s < t < all.len() implies all[s] != all[t] by {
            if t < a.len() {
                assert(all[s] == a[s] && all[t] == a[t]);
            } else if s >= a.len() {
                assert(all[s] == b[s - a.len()] && all[t] == b[t - a.len()]);
            } else {
                assert(all[s] == a[s] && all[t] == b[t - a.len()]);
                if all[s] == all[t] {
                    let q = choose|q: int| 0 <= q < pp - 1 && last_key(scs, g, a[s], q);
                    assert(pred(b[t - a.len()]));
                    lemma_last_key_unique(scs, g, all[s], q, p);
                }
            }
        }
    }
}

/// The next layer consists of new, distinct scenario indices whose
/// dependencies are all placed, each with one in the latest group; and it
/// takes in every scenario that is ready with a dependency in the latest group.
proof fn lemma_next_layer(scs: Seq<Scenario>, g: Seq<Seq<usize>>)
    requires
        scs.len() <= usize::MAX,
    ensures
        forall|t: int| 0 <= t < next_layer(scs, g).len() ==> {
            let v = #[trigger] next_layer(scs, g)[t];
            &&& v < scs.len()
            &&& !placed(g, v)
            &&& forall|k: int| 0 <= k < deps_of(scs, v).len() ==> placed(g, #[trigger] deps_of(scs, v)[k])
            &&& g.len() > 0 ==> dep_in_last(scs, g, v)
        },
        forall|s: int, t: int| 0 <= s < t < next_layer(scs, g).len() ==> next_layer(scs, g)[s] != next_layer(scs, g)[t],
        g.len() > 0 ==> forall|v: usize|
            v < scs.len() && ready(scs, g, v) && dep_in_last(scs, g, v) ==> #[trigger] next_layer(scs, g).contains(v),
{
    if g.len() == 0 {
        let pred = |v: usize| deps_of(scs, v).len() == 0;
        lemma_range_filter(scs.len(), pred);
        lemma_range_filter_sorted(scs.len(), pred);
        assert forall|t: int| 0 <= t < next_layer(scs, g).len() implies {
            let v = #[trigger] next_layer(scs, g)[t];
            &&& v < scs.len()
            &&& !placed(g, v)
            &&& forall|k: int| 0 <= k < deps_of(scs, v).len() ==> placed(g, #[trigger] deps_of(scs, v)[k])
            &&& g.len() > 0 ==> dep_in_last(scs, g, v)
        } by {
            assert(pred(next_layer(scs, g)[t]));
        }
    } else {
        let pp = g.last().len();
        lemma_keyed_layers(scs, g, pp);
        assert forall|t: int| 0 <= t < next_layer(scs, g).len() implies {
            let v = #[trigger] next_layer(scs, g)[t];
            &&& v < scs.len()
            &&& !placed(g, v)
            &&& forall|k: int| 0 <= k < deps_of(scs, v).len() ==> placed(g, #[trigger] deps_of(scs, v)[k])
            &&& g.len() > 0 ==> dep_in_last(scs, g, v)
        } by {
            let v = next_layer(scs, g)[t];
            let p = choose|p: int| 0 <= p < pp && last_key(scs, g, v, p);
            assert(deps_of(scs, v).contains(g.last()[p]));
        }
        assert forall|v: usize| v < scs.len() && ready(scs, g, v) && dep_in_last(scs, g, v) implies #[trigger] next_layer(
            scs,
            g,
        ).contains(v) by {
            let p = choose|p: int| 0 <= p < g.last().len() && deps_of(scs, v).contains(#[trigger] g.last()[p]);
            lemma_last_key_exists(scs, g, v, p);
            let q = choose|q: int| last_key(scs, g, v, q);
            let pred = |w: usize| ready(scs, g, w) && last_key(scs, g, w, q);
            lemma_range_filter(scs.len(), pred);
            assert(pred(v));
            lemma_keyed_layers_contains(scs, g, pp, q, v);
        }
    }
}

/// Extending well-formed layers by the next one keeps them well formed.
proof fn lemma_push_layer_ok(scs: Seq<Scenario>, g: Seq<Seq<usize>>)
    requires
        scs.len() <= usize::MAX,
        layers_ok(scs, g),
        next_layer(scs, g).len() > 0,
    ensures
        layers_ok(scs, g.push(next_layer(scs, g))),
{
    let l = next_layer(scs, g);
    lemma_next_layer(scs, g);
    let g2 = g.push(l);
    assert forall|a: int, i: int| 0 <= a < g2.len() && 0 <= i < g2[a].len() implies #[trigger] g2[a][i] < scs.len() by {
        if a < g.len() {
            assert(g2[a] == g[a]);
        }
    }
    assert forall|a: int, i: int, k: int|
        0 <= a < g2.len() && 0 <= i < g2[a].len() && 0 <= k < deps_of(scs, g2[a][i]).len()
            implies #[trigger] placed_before(g2, a, deps_of(scs, g2[a][i])[k]) by {
        if a < g.len() {
            assert(g2[a] == g[a]);
            assert(placed_before(g, a, deps_of(scs, g[a][i])[k]));
            let b = choose|b: int| 0 <= b < a && #[trigger] g[b].contains(deps_of(scs, g[a][i])[k]);
            assert(g2[b] == g[b]);
        } else {
            let v = l[i];
            assert(g2[a][i] == v);
            assert(placed(g, deps_of(scs, v)[k]));
            let b = choose|b: int| 0 <= b < g.len() && #[trigger] g[b].contains(deps_of(scs, v)[k]);
            assert(g2[b] == g[b]);
        }
    }
    assert forall|a: int, b: int, i: int, j: int|
        0 <= a < g2.len() && 0 <= b < g2.len() && 0 <= i < g2[a].len() && 0 <= j < g2[b].len() && #[trigger] g2[a][i]
            == #[trigger] g2[b][j] implies a == b && i == j by {
        if a < g.len() && b < g.len() {
            assert(g2[a] == g[a] && g2[b] == g[b]);
        } else if a == g.len() && b == g.len() {
            if i != j {
                if i < j {
                    assert(l[i] != l[j]);
                } else {
                    assert(l[j] != l[i]);
                }
            }
        } else if a == g.len() {
            assert(g2[b] == g[b]);
            assert(!placed(g, l[i]));
            assert(g[b].contains(g2[b][j]));
        } else {
            assert(g2[a] == g[a]);
            assert(!placed(g, l[j]));
            assert(g[a].contains(g2[a][i]));
        }
    }
    assert forall|a: int| 0 <= a < g2.len() implies (#[trigger] g2[a]).len() > 0 by {
        if a < g.len() {
            assert(g2[a] == g[a]);
        }
    }
    assert(g2.len() > 0 ==> g2[0] == root_layer(scs)) by {
        if g.len() > 0 {
            assert(g2[0] == g[0]);
        }
    }
    assert forall|a: int, i: int| 0 < a < g2.len() && 0 <= i < g2[a].len() implies #[trigger] dep_in_last(scs, g2.take(a), g2[a][i]) by {
        if a < g.len() {
            assert(g2.take(a) =~= g.take(a));
            assert(g2[a] == g[a]);
        } else {
            assert(g2.take(a) =~= g);
            assert(g2[a][i] == l[i]);
        }
    }
    assert forall|v: usize| v < scs.len() && #[trigger] ready(scs, g2, v) implies dep_in_last(scs, g2, v) by {
        assert(g2.last() == l);
        if !dep_in_last(scs, g2, v) {
            let ds = deps_of(scs, v);
            assert forall|k: int| 0 <= k < ds.len() implies placed(g, #[trigger] ds[k]) by {
                assert(placed(g2, ds[k]));
                let j = choose|j: int| 0 <= j < g2.len() && #[trigger] g2[j].contains(ds[k]);
                if j == g.len() {
                    let p = choose|p: int| 0 <= p < l.len() && l[p] == ds[k];
                    assert(ds.contains(g2.last()[p]));
                } else {
                    assert(g2[j] == g[j]);
                }
            }
            if placed(g, v) {
                let j = choose|j: int| 0 <= j < g.len() && #[trigger] g[j].contains(v);
                assert(g2[j] == g[j]);
            }
            assert(ready(scs, g, v));
            if g.len() == 0 {
                let pred = |w: usize| deps_of(scs, w).len() == 0;
                lemma_range_filter(scs.len(), pred);
                if ds.len() > 0 {
                    assert(placed(g, ds[0]));
                }
                assert(l.contains(v));
            } else {
                assert(l.contains(v));
            }
            assert(g2[g.len() as int] == l);
            assert(placed(g2, v));
        }
    }
}

/// Extending well-formed layers until the next one is empty keeps them well formed.
proof fn lemma_layers_from_ok(scs: Seq<Scenario>, g: Seq<Seq<usize>>, fuel: nat)
    requires
        scs.len() <= usize::MAX,
        layers_ok(scs, g),
    ensures
        layers_ok(scs, layers_from(scs, g, fuel)),
    decreases fuel,
{
    if fuel > 0 {
        let l = next_layer(scs, g);
        if l.len() > 0 {
            lemma_push_layer_ok(scs, g);
            lemma_layers_from_ok(scs, g.push(l), (fuel - 1) as nat);
        }
    }
}

/// The topological layers are well formed.
proof fn lemma_task_layers_ok(scs: Seq<Scenario>)
    requires
        scs.len() <= usize::MAX,
    ensures
        layers_ok(scs, task_layers(scs)),
{
    lemma_layers_from_ok(scs, seq![], scs.len() + 1);
}

/// The scenario indices placed in the layers `g`.
pub open spec fn placed_set(scs: Seq<Scenario>, g: Seq<Seq<usize>>) -> Set<int> {
    Set::new(|v: int| 0 <= v < scs.len() && placed(g, v as usize))
}

/// At most every scenario is placed, and one more layer places one more.
proof fn lemma_placed_set_grows(scs: Seq<Scenario>, g: Seq<Seq<usize>>)
    requires
        scs.len() <= usize::MAX,
        layers_ok(scs, g),
        next_layer(scs, g).len() > 0,
    ensures
        placed_set(scs, g).finite(),
        placed_set(scs, g).len() <= scs.len(),
        placed_set(scs, g.push(next_layer(scs, g))).len() >= placed_set(scs, g).len() + 1,
{
    let l = next_layer(scs, g);
    let g2 = g.push(l);
    let s1 = placed_set(scs, g);
    let s2 = placed_set(scs, g2);
    vstd::set_lib::lemma_int_range(0, scs.len() as int);
    let all = vstd::set_lib::set_int_range(0, scs.len() as int);
    assert(s1.subset_of(all));
    assert(s2.subset_of(all));
    vstd::set_lib::lemma_len_subset(s1, all);
    vstd::set_lib::lemma_len_subset(s2, all);
    lemma_next_layer(scs, g);
    let w = l[0];
    assert(!placed(g, w));
    assert(g2[g.len() as int] == l);
    assert(l.contains(w));
    assert(placed(g2, w));
    assert(!s1.contains(w as int));
    assert forall|v: int| #[trigger] s1.insert(w as int).contains(v) implies s2.contains(v) by {
        if v != w as int {
            let j = choose|j: int| 0 <= j < g.len() && #[trigger] g[j].contains(v as usize);
            assert(g2[j] == g[j]);
        }
    }
    assert(s1.insert(w as int).subset_of(s2));
    vstd::set_lib::lemma_len_subset(s1.insert(w as int), s2);
}

/// With enough fuel the layers run until the next layer is empty.
proof fn lemma_layers_from_exhausts(scs: Seq<Scenario>, g: Seq<Seq<usize>>, fuel: nat)
    requires
        scs.len() <= usize::MAX,
        layers_ok(scs, g),
        placed_set(scs, g).finite(),
        fuel + placed_set(scs, g).len() > scs.len(),
    ensures
        next_layer(scs, layers_from(scs, g, fuel)).len() == 0,
    decreases fuel,
{
    let l = next_layer(scs, g);
    if l.len() > 0 {
        lemma_placed_set_grows(scs, g);
        lemma_push_layer_ok(scs, g);
        let g2 = g.push(l);
        vstd::set_lib::lemma_int_range(0, scs.len() as int);
        vstd::set_lib::lemma_len_subset(placed_set(scs, g2), vstd::set_lib::set_int_range(0, scs.len() as int));
        lemma_layers_from_exhausts(scs, g2, (fuel - 1) as nat);
    }
}

/// After the last layer, no scenario is ready: every scenario is placed or
/// waits on a dependency that is not.
proof fn lemma_task_layers_closed(scs: Seq<Scenario>, v: usize)
    requires
        scs.len() <= usize::MAX,
        v < scs.len(),
    ensures
        !ready(scs, task_layers(scs), v),
{
    let g0: Seq<Seq<usize>> = seq![];
    assert(placed_set(scs, g0) =~= Set::empty());
    lemma_layers_from_exhausts(scs, g0, scs.len() + 1);
    lemma_task_layers_ok(scs);
    let r = task_layers(scs);
    lemma_next_layer(scs, r);
    if ready(scs, r, v) {
        if r.len() == 0 {
            let pred = |w: usize| deps_of(scs, w).len() == 0;
            lemma_range_filter(scs.len(), pred);
            let ds = deps_of(scs, v);
            if ds.len() > 0 {
                assert(placed(r, ds[0]));
            }
            assert(next_layer(scs, r).contains(v));
        } else {
            assert(next_layer(scs, r).contains(v));
        }
    }
}

/// Dependencies first: a scenario's resolved dependencies all sit in earlier
/// groups of the task sketch than the scenario itself.
pub proof fn law_dependencies_precede(scs: Seq<Scenario>, a: int, i: int, k: int)
    requires
        scs.len() <= usize::MAX,
        0 <= a < task_layers(scs).len(),
        0 <= i < task_layers(scs)[a].len(),
        0 <= k < deps_of(scs, task_layers(scs)[a][i]).len(),
    ensures
        exists|b: int| 0 <= b < a && #[trigger] task_layers(scs)[b].contains(deps_of(scs, task_layers(scs)[a][i])[k]),
{
    lemma_task_layers_ok(scs);
    assert(placed_before(task_layers(scs), a, deps_of(scs, task_layers(scs)[a][i])[k]));
}

/// Layer by layer: a scenario in a group after the first has a dependency
/// in the group just before it.
pub proof fn law_one_layer_after_a_dependency(scs: Seq<Scenario>, a: int, i: int)
    requires
        scs.len() <= usize::MAX,
        0 < a < task_layers(scs).len(),
        0 <= i < task_layers(scs)[a].len(),
    ensures
        exists|p: int|
            0 <= p < task_layers(scs)[a - 1].len() && deps_of(scs, task_layers(scs)[a][i]).contains(
                #[trigger] task_layers(scs)[a - 1][p],
            ),
{
    lemma_task_layers_ok(scs);
    let g = task_layers(scs);
    assert(dep_in_last(scs, g.take(a), g[a][i]));
    assert(g.take(a).last() == g[a - 1]);
}

/// Each scenario is in at most one group of the task sketch, and at most once there.
pub proof fn law_scenario_in_one_group(scs: Seq<Scenario>, a: int, i: int, b: int, j: int)
    requires
        scs.len() <= usize::MAX,
        0 <= a < task_layers(scs).len(),
        0 <= b < task_layers(scs).len(),
        0 <= i < task_layers(scs)[a].len(),
        0 <= j < task_layers(scs)[b].len(),
        task_layers(scs)[a][i] == task_layers(scs)[b][j],
    ensures
        a == b && i == j,
{
    lemma_task_layers_ok(scs);
}

/// Scenarios without resolvable dependencies form the first group.
pub proof fn law_roots_first(scs: Seq<Scenario>, v: usize)
    requires
        scs.len() <= usize::MAX,
        v < scs.len(),
        deps_of(scs, v).len() == 0,
    ensures
        task_layers(scs).len() > 0,
        task_layers(scs)[0].contains(v),
{
    lemma_task_layers_ok(scs);
    let pred = |x: usize| deps_of(scs, x).len() == 0;
    lemma_range_filter(scs.len(), pred);
    assert(root_layer(scs).contains(v));
    assert(next_layer(scs, seq![]) == root_layer(scs));
    assert(layers_from(scs, seq![], scs.len() + 1) == layers_from(scs, seq![root_layer(scs)], scs.len()));
    lemma_layers_from_prefix(scs, seq![root_layer(scs)], scs.len());
}

/// Without a dependency cycle every scenario is in the task sketch: when
/// `rank` strictly grows along each resolved dependency, every scenario is
/// placed in some group.
pub proof fn law_acyclic_all_placed(scs: Seq<Scenario>, rank: spec_fn(usize) -> nat, v: usize)
    requires
        scs.len() <= usize::MAX,
        v < scs.len(),
        forall|u: usize, k: int|
            u < scs.len() && 0 <= k < deps_of(scs, u).len() ==> rank(#[trigger] deps_of(scs, u)[k]) < rank(u),
    ensures
        placed(task_layers(scs), v),
    decreases rank(v),
{
    let ds = deps_of(scs, v);
    lemma_deps_bound(scs, v);
    assert forall|k: int| 0 <= k < ds.len() implies placed(task_layers(scs), #[trigger] ds[k]) by {
        law_acyclic_all_placed(scs, rank, ds[k]);
    }
    lemma_task_layers_closed(scs, v);
}

/// A scenario that depends on itself is in no group of the task sketch.
pub proof fn law_self_dependency_unplaced(scs: Seq<Scenario>, v: usize)
    requires
        scs.len() <= usize::MAX,
        deps_of(scs, v).contains(v),
    ensures
        !placed(task_layers(scs), v),
{
    let g = task_layers(scs);
    if placed(g, v) {
        lemma_task_layers_ok(scs);
        let a = choose|a: int| 0 <= a < g.len() && #[trigger] g[a].contains(v);
        let i = choose|i: int| 0 <= i < g[a].len() && g[a][i] == v;
        let k = choose|k: int| 0 <= k < deps_of(scs, v).len() && deps_of(scs, v)[k] == v;
        assert(placed_before(g, a, deps_of(scs, g[a][i])[k]));
        let b = choose|b: int| 0 <= b < a && #[trigger] g[b].contains(v);
        let j = choose|j: int| 0 <= j < g[b].len() && g[b][j] == v;
        assert(g[a][i] == g[b][j]);
    }
}

/// Resolved dependencies are scenario indices.
proof fn lemma_deps_bound(scs: Seq<Scenario>, v: usize)
    requires
        v < scs.len(),
    ensures
        forall|k: int| 0 <= k < deps_of(scs, v).len() ==> #[trigger] deps_of(scs, v)[k] < scs.len(),
{
    lemma_resolved_deps_bound(scs, scs[v as int].depends_on@);
}

/// Resolved dependency lists hold scenario indices.
proof fn lemma_resolved_deps_bound(scs: Seq<Scenario>, ds: Seq<String>)
    ensures
        forall|k: int| 0 <= k < resolved_deps(scs, ds).len() ==> #[trigger] resolved_deps(scs, ds)[k] < scs.len(),
    decreases ds.len(),
{
    if ds.len() > 0 {
        let f = |d: String|
            match last_named(scs, d@, scs.len() as int) {
                Some(j) => seq![j],
                None => seq![],
            };
        lemma_resolved_deps_bound(scs, ds.drop_last());
        lemma_last_named_bound(scs, ds.last()@, scs.len() as int);
        let a = resolved_deps(scs, ds.drop_last());
        assert(resolved_deps(scs, ds) == a + f(ds.last()));
        assert forall|k: int| 0 <= k < resolved_deps(scs, ds).len() implies #[trigger] resolved_deps(scs, ds)[k] < scs.len() by {
            if k < a.len() {
                assert(resolved_deps(scs, ds)[k] == a[k]);
            }
        }
    }
}

/// `layers_from` only extends the layers it starts from.
proof fn lemma_layers_from_prefix(scs: Seq<Scenario>, g: Seq<Seq<usize>>, fuel: nat)
    ensures
        layers_from(scs, g, fuel).len() >= g.len(),
        forall|a: int| 0 <= a < g.len() ==> #[trigger] layers_from(scs, g, fuel)[a] == g[a],
    decreases fuel,
{
    if fuel > 0 {
        let l = next_layer(scs, g);
        if l.len() > 0 {
            lemma_layers_from_prefix(scs, g.push(l), (fuel - 1) as nat);
            assert forall|a: int| 0 <= a < g.len() implies #[trigger] layers_from(scs, g, fuel)[a] == g[a] by {
                assert(g.push(l)[a] == g[a]);
            }
        }
    }
}

} // verus!
