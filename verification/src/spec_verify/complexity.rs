//! Code-quality limits: constraints on how much a change may grow the code.
use vstd::prelude::*;
use crate::spec_core::ast::{
    lowercase, to_lowercase, trim_end_bounds_prefix, Constraint, ConstraintCategory, ResolvedSpec, Section, Span,
};
use crate::text::{
    char_index_exec, char_index_from, chars_of, concat_map, contains, contains_exec, find, find_exec,
    lemma_concat_map_all, lemma_concat_map_step, lines, lines_exec, slice_chars, split_char, split_char_exec,
    string_from_chars, trim, trim_end, trim_exec, views,
};

verus! {

/// Verifier that enforces code quality constraints such as line-ratio limits.
#[derive(Debug, Clone, Copy)]
pub struct ComplexityVerifier;

impl ComplexityVerifier {
    /// The name of this verification layer.
    pub fn name(&self) -> (s: &'static str)
        ensures
            s@ == "complexity"@,
    {
        "complexity"
    }
}

/// The plain value of a constraint.
pub open spec fn constraint_model(c: Constraint) -> (Seq<char>, ConstraintCategory, Span) {
    (c.text@, c.category, c.span)
}

pub open spec fn constraint_models(cs: Seq<Constraint>) -> Seq<(Seq<char>, ConstraintCategory, Span)> {
    cs.map_values(|c: Constraint| constraint_model(c))
}

/// The constraints a section contributes.
pub open spec fn section_constraints(s: Section) -> Seq<(Seq<char>, ConstraintCategory, Span)> {
    match s {
        Section::Constraints { items, .. } => constraint_models(items@),
        _ => seq![],
    }
}

/// All constraints of a resolved spec: the inherited ones, then the task's own.
pub open spec fn all_constraints_spec(spec: ResolvedSpec) -> Seq<(Seq<char>, ConstraintCategory, Span)> {
    constraint_models(spec.inherited_constraints@) + concat_map(
        spec.task.sections@,
        |s: Section| section_constraints(s),
    )
}

fn copy_constraint(c: &Constraint) -> (r: Constraint)
    ensures
        constraint_model(r) == constraint_model(*c),
{
    Constraint { text: c.text.clone(), category: c.category, span: c.span }
}

/// Collect all constraints (inherited + task-level) from a resolved spec.
pub fn all_constraints(spec: &ResolvedSpec) -> (r: Vec<Constraint>)
    ensures
        constraint_models(r@) == all_constraints_spec(*spec),
{
    let mut result: Vec<Constraint> = Vec::new();
    let mut i: usize = 0;
    while i < spec.inherited_constraints.len()
        invariant
            0 <= i <= spec.inherited_constraints@.len(),
            constraint_models(result@) == constraint_models(spec.inherited_constraints@.take(i as int)),
        decreases spec.inherited_constraints@.len() - i,
    {
        let ghost before = constraint_models(result@);
        result.push(copy_constraint(&spec.inherited_constraints[i]));
        assert(constraint_models(result@) =~= before.push(constraint_model(spec.inherited_constraints@[i as int])));
        assert(constraint_models(spec.inherited_constraints@.take(i + 1)) =~= constraint_models(
            spec.inherited_constraints@.take(i as int),
        ).push(constraint_model(spec.inherited_constraints@[i as int])));
        i += 1;
    }
    assert(spec.inherited_constraints@.take(spec.inherited_constraints@.len() as int) =~= spec.inherited_constraints@);
    let ghost base = constraint_models(result@);
    let ghost f = |s: Section| section_constraints(s);
    let sections = &spec.task.sections;
    let mut k: usize = 0;
    while k < sections.len()
        invariant
            0 <= k <= sections@.len(),
            f == (|s: Section| section_constraints(s)),
            constraint_models(result@) == base + concat_map(sections@.take(k as int), f),
        decreases sections@.len() - k,
    {
        let ghost b0 = constraint_models(result@);
        match &sections[k] {
            Section::Constraints { items, .. } => {
                let mut j: usize = 0;
                while j < items.len()
                    invariant
                        0 <= j <= items@.len(),
                        constraint_models(result@) == b0 + constraint_models(items@.take(j as int)),
                    decreases items@.len() - j,
                {
                    let ghost b1 = constraint_models(result@);
                    result.push(copy_constraint(&items[j]));
                    assert(constraint_models(result@) =~= b1.push(constraint_model(items@[j as int])));
                    assert(constraint_models(items@.take(j + 1)) =~= constraint_models(items@.take(j as int)).push(
                        constraint_model(items@[j as int]),
                    ));
                    j += 1;
                }
                assert(items@.take(items@.len() as int) =~= items@);
            },
            _ => {
                assert(constraint_models(result@) =~= b0 + f(sections@[k as int]));
            },
        }
        proof { lemma_concat_map_step(sections@, f, k as int); }
        k += 1;
    }
    proof { lemma_concat_map_all(sections@, f); }
    result
}

/// An ASCII decimal digit.
pub open spec fn is_digit(c: char) -> bool {
    '0' <= c && c <= '9'
}

/// Every character is an ASCII decimal digit.
pub open spec fn all_digits(d: Seq<char>) -> bool {
    forall|i: int| 0 <= i < d.len() ==> is_digit(#[trigger] d[i])
}

/// The value of a decimal digit.
pub open spec fn digit_value(c: char) -> nat {
    ((c as u32) - ('0' as u32)) as nat
}

/// The value of a run of decimal digits.
pub open spec fn digits_value(d: Seq<char>) -> nat
    decreases d.len(),
{
    if d.len() == 0 {
        0
    } else {
        digits_value(d.drop_last()) * 10 + digit_value(d.last())
    }
}

/// `str::parse::<usize>`: an optional `+`, then one or more ASCII digits
/// whose value fits in `usize`.
pub open spec fn parse_usize_spec(s: Seq<char>) -> Option<nat> {
    let d = if s.len() > 0 && s[0] == '+' { s.drop_first() } else { s };
    if d.len() == 0 || !all_digits(d) {
        None
    } else if digits_value(d) > usize::MAX {
        None
    } else {
        Some(digits_value(d))
    }
}

proof fn lemma_digits_value_take(d: Seq<char>, i: int)
    requires
        0 <= i < d.len(),
    ensures
        digits_value(d.take(i + 1)) == digits_value(d.take(i)) * 10 + digit_value(d[i]),
{
    assert(d.take(i + 1).drop_last() =~= d.take(i));
}

proof fn lemma_digits_value_monotone(d: Seq<char>, i: int)
    requires
        0 <= i <= d.len(),
        all_digits(d),
    ensures
        digits_value(d.take(i)) <= digits_value(d),
    decreases d.len() - i,
{
    if i < d.len() {
        lemma_digits_value_monotone(d, i + 1);
        lemma_digits_value_take(d, i);
    } else {
        assert(d.take(i) =~= d);
    }
}

/// `str::parse::<usize>`.
pub fn parse_usize(s: &[char]) -> (r: Option<usize>)
    ensures
        match r {
            Some(v) => parse_usize_spec(s@) == Some(v as nat),
            None => parse_usize_spec(s@) is None,
        },
{
    let start: usize = if s.len() > 0 && s[0] == '+' { 1 } else { 0 };
    let ghost d = if s@.len() > 0 && s@[0] == '+' { s@.drop_first() } else { s@ };
    assert(d =~= s@.subrange(start as int, s@.len() as int));
    if start == s.len() {
        return None;
    }
    let mut k = start;
    while k < s.len()
        invariant
            start <= k <= s@.len(),
            d == s@.subrange(start as int, s@.len() as int),
            d == (if s@.len() > 0 && s@[0] == '+' { s@.drop_first() } else { s@ }),
            forall|q: int| start <= q < k ==> is_digit(#[trigger] s@[q]),
        decreases s@.len() - k,
    {
        if !('0' <= s[k] && s[k] <= '9') {
            assert(!is_digit(d[k - start]));
            return None;
        }
        k += 1;
    }
    assert forall|q: int| 0 <= q < d.len() implies is_digit(#[trigger] d[q]) by {
        assert(d[q] == s@[start + q]);
    }
    let mut v: u128 = 0;
    let mut i = start;
    while i < s.len()
        invariant
            start <= i <= s@.len(),
            d == s@.subrange(start as int, s@.len() as int),
            d == (if s@.len() > 0 && s@[0] == '+' { s@.drop_first() } else { s@ }),
            all_digits(d),
            v == digits_value(d.take(i - start)),
            v <= usize::MAX,
        decreases s@.len() - i,
    {
        proof { lemma_digits_value_take(d, i - start); }
        assert(d[i - start] == s@[i as int]);
        let digit = ((s[i] as u32) - ('0' as u32)) as u128;
        assert(digit == digit_value(d[i - start]));
        let next = v * 10 + digit;
        if next > usize::MAX as u128 {
            proof {
                lemma_digits_value_monotone(d, i - start + 1);
            }
            return None;
        }
        v = next;
        i += 1;
    }
    assert(d.take(d.len() as int) =~= d);
    Some(v as usize)
}

// === Line-ratio constraints ===
//
// A line-ratio constraint names its limit as a decimal numeral.  Where the
// numeral sits depends on how the constraint is phrased; the candidates
// below are the texts that may hold it, most likely first.  The limit is
// the first candidate that reads as a number.

/// An ASCII digit or a decimal point.
pub open spec fn is_num_char(c: char) -> bool {
    ('0' <= c && c <= '9') || c == '.'
}

/// The text between the first `open` and the next `close`, trimmed.
pub open spec fn quoted_inside(t: Seq<char>, open: char, close: char) -> Option<Seq<char>> {
    match char_index_from(t, open, 0) {
        Some(st) => {
            let rest = t.subrange(st + 1, t.len() as int);
            match char_index_from(rest, close, 0) {
                Some(e) => Some(trim(rest.subrange(0, e))),
                None => None,
            }
        },
        None => None,
    }
}

/// The longest run of digits and points that ends `s`.
pub open spec fn trailing_number(s: Seq<char>) -> Seq<char>
    decreases s.len(),
{
    if s.len() > 0 && is_num_char(s.last()) {
        trailing_number(s.drop_last()).push(s.last())
    } else {
        seq![]
    }
}

/// The longest run of digits and points that starts `s`.
pub open spec fn leading_number(s: Seq<char>) -> Seq<char>
    decreases s.len(),
{
    if s.len() > 0 && is_num_char(s[0]) {
        seq![s[0]] + leading_number(s.drop_first())
    } else {
        seq![]
    }
}

/// The numeral just before the first `keyword`, blanks between them skipped.
pub open spec fn number_before(t: Seq<char>, keyword: Seq<char>) -> Option<Seq<char>> {
    match find(t, keyword) {
        Some(i) => Some(trailing_number(trim_end(t.subrange(0, i)))),
        None => None,
    }
}

/// The numeral that starts `s` once it is trimmed, if there is one.
pub open spec fn first_number(s: Seq<char>) -> Option<Seq<char>> {
    let c = leading_number(trim(s));
    if c.len() == 0 {
        None
    } else {
        Some(c)
    }
}

/// An optional text as a list of zero or one texts.
pub open spec fn opt_seq(o: Option<Seq<char>>) -> Seq<Seq<char>> {
    match o {
        Some(x) => seq![x],
        None => seq![],
    }
}

/// The quoted numerals of `t`: in ASCII quotes, then in curly quotes.
pub open spec fn quoted_candidates(t: Seq<char>) -> Seq<Seq<char>> {
    opt_seq(quoted_inside(t, '"', '"')) + opt_seq(quoted_inside(t, '\u{201C}', '\u{201D}'))
}

/// The candidate numerals of a line-ratio constraint `t`, whose lowercase
/// form is `lower`:
/// - `… 不超过/不应超过 … 删除 … "N" 倍`: the quoted numerals, then the one before `倍`;
/// - `… exceed "N" times … deleted`: the quoted numerals, then the one before `times`;
/// - `line ratio <= N` (or `line_ratio`): the numeral after the first `<=`;
/// - anything else: none.
pub open spec fn line_ratio_candidates_spec(t: Seq<char>, lower: Seq<char>) -> Seq<Seq<char>> {
    if (contains(t, "不超过"@) || contains(t, "不应超过"@)) && contains(t, "删除"@) && contains(t, "倍"@) {
        quoted_candidates(t) + opt_seq(number_before(t, "倍"@))
    } else if contains(lower, "exceed"@) && contains(lower, "times"@) && contains(lower, "deleted"@) {
        quoted_candidates(t) + opt_seq(number_before(lower, "times"@))
    } else if contains(lower, "line ratio"@) || contains(lower, "line_ratio"@) {
        match find(lower, "<="@) {
            Some(i) => opt_seq(first_number(lower.subrange(i + 2, lower.len() as int))),
            None => seq![],
        }
    } else {
        seq![]
    }
}

/// `t` ends `s`, holds only ASCII digits and points, and is the longest
/// such end: the character before it, if any, is neither.
pub open spec fn longest_numeric_suffix(s: Seq<char>, t: Seq<char>) -> bool {
    &&& t.len() <= s.len()
    &&& t == s.subrange(s.len() - t.len(), s.len() as int)
    &&& forall|i: int| 0 <= i < t.len() ==> ('0' <= #[trigger] t[i] && t[i] <= '9') || t[i] == '.'
    &&& t.len() < s.len() ==> !(('0' <= s[s.len() - t.len() - 1] && s[s.len() - t.len() - 1] <= '9') || s[s.len()
        - t.len() - 1] == '.')
}

/// `t` starts `s`, holds only ASCII digits and points, and is the longest
/// such start: the character after it, if any, is neither.
pub open spec fn longest_numeric_prefix(s: Seq<char>, t: Seq<char>) -> bool {
    &&& t.len() <= s.len()
    &&& t == s.subrange(0, t.len() as int)
    &&& forall|i: int| 0 <= i < t.len() ==> ('0' <= #[trigger] t[i] && t[i] <= '9') || t[i] == '.'
    &&& t.len() < s.len() ==> !(('0' <= s[t.len() as int] && s[t.len() as int] <= '9') || s[t.len() as int] == '.')
}

/// The numeral read at the end of a text is its longest end made of ASCII
/// digits and points, so `2.5` is read whole, not as `5`.
pub proof fn law_trailing_number_is_longest(s: Seq<char>)
    ensures
        longest_numeric_suffix(s, trailing_number(s)),
    decreases s.len(),
{
    if s.len() > 0 && is_num_char(s.last()) {
        law_trailing_number_is_longest(s.drop_last());
        let t0 = trailing_number(s.drop_last());
        let t = trailing_number(s);
        assert(t == t0.push(s.last()));
        assert(s.drop_last().subrange(s.len() - 1 - t0.len(), s.len() - 1) =~= s.subrange(
            s.len() - t.len(),
            s.len() - 1,
        ));
        assert(t =~= s.subrange(s.len() - t.len(), s.len() as int));
        assert forall|i: int| 0 <= i < t.len() implies ('0' <= #[trigger] t[i] && t[i] <= '9') || t[i] == '.' by {
            if i < t0.len() {
                assert(t[i] == t0[i]);
            }
        }
        if t.len() < s.len() {
            assert(s[s.len() - t.len() - 1] == s.drop_last()[s.drop_last().len() - t0.len() - 1]);
        }
    } else {
        assert(trailing_number(s) =~= s.subrange(s.len() as int, s.len() as int));
    }
}

/// The numeral read at the start of a text is its longest start made of
/// ASCII digits and points.
pub proof fn law_leading_number_is_longest(s: Seq<char>)
    ensures
        longest_numeric_prefix(s, leading_number(s)),
    decreases s.len(),
{
    if s.len() > 0 && is_num_char(s[0]) {
        law_leading_number_is_longest(s.drop_first());
        let t0 = leading_number(s.drop_first());
        let t = leading_number(s);
        assert(t == seq![s[0]] + t0);
        assert(t =~= s.subrange(0, t.len() as int)) by {
            assert forall|i: int| 0 <= i < t.len() implies t[i] == s[i] by {
                if i > 0 {
                    assert(t[i] == t0[i - 1]);
                    assert(t0[i - 1] == s.drop_first().subrange(0, t0.len() as int)[i - 1]);
                }
            }
        }
        assert forall|i: int| 0 <= i < t.len() implies ('0' <= #[trigger] t[i] && t[i] <= '9') || t[i] == '.' by {
            if i > 0 {
                assert(t[i] == t0[i - 1]);
            }
        }
        if t.len() < s.len() {
            assert(s[t.len() as int] == s.drop_first()[t0.len() as int]);
        }
    } else {
        assert(leading_number(s) =~= s.subrange(0, 0));
    }
}

/// The limit before a keyword is the longest end of the text before the
/// keyword's first occurrence, blanks trimmed, made of ASCII digits and points.
pub proof fn law_number_before_keyword(t: Seq<char>, keyword: Seq<char>)
    ensures
        match number_before(t, keyword) {
            Some(x) => find(t, keyword) matches Some(i) && longest_numeric_suffix(trim_end(t.subrange(0, i)), x),
            None => find(t, keyword) is None,
        },
{
    match find(t, keyword) {
        Some(i) => law_trailing_number_is_longest(trim_end(t.subrange(0, i))),
        None => {},
    }
}

/// A constraint phrased as "… 不超过/不应超过 … 删除 … N 倍" offers, as its last
/// candidate, the numeral just before the first `倍`: the longest run of
/// ASCII digits and points ending the trimmed text before it.
pub proof fn law_chinese_ratio_last_candidate(t: Seq<char>, lower: Seq<char>)
    requires
        contains(t, "不超过"@) || contains(t, "不应超过"@),
        contains(t, "删除"@),
        contains(t, "倍"@),
    ensures
        line_ratio_candidates_spec(t, lower).len() > 0,
        find(t, "倍"@) matches Some(i) && longest_numeric_suffix(
            trim_end(t.subrange(0, i)),
            line_ratio_candidates_spec(t, lower).last(),
        ),
{
    law_number_before_keyword(t, "倍"@);
    let c = line_ratio_candidates_spec(t, lower);
    let x = number_before(t, "倍"@)->0;
    assert(c == quoted_candidates(t) + seq![x]);
    assert(c.last() == x);
}

/// A constraint phrased in English as "… exceed … N times … deleted" (any
/// case) and not in the Chinese form offers, as its last candidate, the
/// numeral just before the first `times` of its lowercase form.
pub proof fn law_english_ratio_last_candidate(t: Seq<char>, lower: Seq<char>)
    requires
        !((contains(t, "不超过"@) || contains(t, "不应超过"@)) && contains(t, "删除"@) && contains(t, "倍"@)),
        contains(lower, "exceed"@),
        contains(lower, "times"@),
        contains(lower, "deleted"@),
    ensures
        line_ratio_candidates_spec(t, lower).len() > 0,
        find(lower, "times"@) matches Some(i) && longest_numeric_suffix(
            trim_end(lower.subrange(0, i)),
            line_ratio_candidates_spec(t, lower).last(),
        ),
{
    law_number_before_keyword(lower, "times"@);
    let c = line_ratio_candidates_spec(t, lower);
    let x = number_before(lower, "times"@)->0;
    assert(c == quoted_candidates(t) + seq![x]);
    assert(c.last() == x);
}

fn is_num_char_exec(c: char) -> (b: bool)
    ensures
        b == is_num_char(c),
{
    ('0' <= c && c <= '9') || c == '.'
}

fn quoted_inside_exec(t: &[char], open: char, close: char) -> (r: Option<Vec<char>>)
    ensures
        match r {
            Some(v) => quoted_inside(t@, open, close) == Some(v@),
            None => quoted_inside(t@, open, close) is None,
        },
{
    match char_index_exec(t, open, 0) {
        Some(st) => {
            proof { crate::text::lemma_char_index_from(t@, open, 0); }
            let n = t.len();
            assert(st < n);
            let rest = slice_chars(t, st + 1, n);
            match char_index_exec(rest.as_slice(), close, 0) {
                Some(e) => {
                    proof { crate::text::lemma_char_index_from(rest@, close, 0); }
                    let inside = slice_chars(rest.as_slice(), 0, e);
                    Some(trim_exec(inside.as_slice()))
                },
                None => None,
            }
        },
        None => None,
    }
}

fn trailing_number_exec(s: &[char]) -> (r: Vec<char>)
    ensures
        r@ == trailing_number(s@),
{
    let mut k = s.len();
    assert(s@.subrange(0, s@.len() as int) =~= s@);
    assert(trailing_number(s@) + s@.subrange(s@.len() as int, s@.len() as int) =~= trailing_number(s@));
    while k > 0 && is_num_char_exec(s[k - 1])
        invariant
            k <= s@.len(),
            trailing_number(s@) == trailing_number(s@.subrange(0, k as int)) + s@.subrange(k as int, s@.len() as int),
        decreases k,
    {
        let ghost a = s@.subrange(0, k as int);
        assert(a.drop_last() =~= s@.subrange(0, k - 1));
        assert(trailing_number(a) == trailing_number(s@.subrange(0, k - 1)).push(s@[k - 1]));
        assert(trailing_number(s@.subrange(0, k - 1)).push(s@[k - 1]) + s@.subrange(k as int, s@.len() as int)
            =~= trailing_number(s@.subrange(0, k - 1)) + s@.subrange(k - 1, s@.len() as int));
        k -= 1;
    }
    proof {
        assert(trailing_number(s@.subrange(0, k as int)) =~= Seq::<char>::empty());
        assert(Seq::<char>::empty() + s@.subrange(k as int, s@.len() as int) =~= s@.subrange(k as int, s@.len() as int));
    }
    slice_chars(s, k, s.len())
}

fn leading_number_exec(s: &[char]) -> (r: Vec<char>)
    ensures
        r@ == leading_number(s@),
{
    let mut k: usize = 0;
    assert(s@.subrange(0, s@.len() as int) =~= s@);
    assert(s@.subrange(0, 0) + leading_number(s@) =~= leading_number(s@));
    while k < s.len() && is_num_char_exec(s[k])
        invariant
            k <= s@.len(),
            leading_number(s@) == s@.subrange(0, k as int) + leading_number(s@.subrange(k as int, s@.len() as int)),
        decreases s@.len() - k,
    {
        let ghost b = s@.subrange(k as int, s@.len() as int);
        assert(b.drop_first() =~= s@.subrange(k + 1, s@.len() as int));
        assert(leading_number(b) == seq![s@[k as int]] + leading_number(s@.subrange(k + 1, s@.len() as int)));
        assert(s@.subrange(0, k as int) + (seq![s@[k as int]] + leading_number(s@.subrange(k + 1, s@.len() as int)))
            =~= s@.subrange(0, k + 1) + leading_number(s@.subrange(k + 1, s@.len() as int)));
        k += 1;
    }
    proof {
        assert(leading_number(s@.subrange(k as int, s@.len() as int)) =~= Seq::<char>::empty());
        assert(s@.subrange(0, k as int) + Seq::<char>::empty() =~= s@.subrange(0, k as int));
    }
    slice_chars(s, 0, k)
}

fn number_before_exec(t: &[char], keyword: &[char]) -> (r: Option<Vec<char>>)
    ensures
        match r {
            Some(v) => number_before(t@, keyword@) == Some(v@),
            None => number_before(t@, keyword@) is None,
        },
{
    match find_exec(t, keyword, 0) {
        Some(i) => {
            proof { crate::text::lemma_find_from_some(t@, keyword@, 0); }
            let (_, b) = trim_end_bounds_prefix(t, i);
            let before = slice_chars(t, 0, b);
            Some(trailing_number_exec(before.as_slice()))
        },
        None => None,
    }
}

fn first_number_exec(s: &[char]) -> (r: Option<Vec<char>>)
    ensures
        match r {
            Some(v) => first_number(s@) == Some(v@),
            None => first_number(s@) is None,
        },
{
    let t = trim_exec(s);
    let c = leading_number_exec(t.as_slice());
    if c.len() == 0 {
        None
    } else {
        Some(c)
    }
}

fn push_opt(out: &mut Vec<String>, o: Option<Vec<char>>)
    ensures
        views(final(out)@) == views(old(out)@) + match o {
            Some(v) => seq![v@],
            None => Seq::<Seq<char>>::empty(),
        },
{
    let ghost before = views(out@);
    match o {
        Some(v) => {
            out.push(string_from_chars(v.as_slice()));
            assert(views(out@) =~= before + seq![v@]);
        },
        None => {
            assert(views(out@) =~= before + Seq::<Seq<char>>::empty());
        },
    }
}

/// The candidate numerals of a line-ratio constraint `text`, given its
/// lowercase form `lower`.
pub fn line_ratio_candidates_in(text: &str, lower: &str) -> (r: Vec<String>)
    ensures
        views(r@) == line_ratio_candidates_spec(text@, lower@),
{
    let t = chars_of(text);
    let mut out: Vec<String> = Vec::new();
    let first = (contains_exec(&t, &chars_of("不超过")) || contains_exec(&t, &chars_of("不应超过")))
        && contains_exec(&t, &chars_of("删除")) && contains_exec(&t, &chars_of("倍"));
    if first {
        push_opt(&mut out, quoted_inside_exec(&t, '"', '"'));
        push_opt(&mut out, quoted_inside_exec(&t, '\u{201C}', '\u{201D}'));
        push_opt(&mut out, number_before_exec(&t, &chars_of("倍")));
        return out;
    }
    let l = chars_of(lower);
    if contains_exec(&l, &chars_of("exceed")) && contains_exec(&l, &chars_of("times")) && contains_exec(
        &l,
        &chars_of("deleted"),
    ) {
        push_opt(&mut out, quoted_inside_exec(&t, '"', '"'));
        push_opt(&mut out, quoted_inside_exec(&t, '\u{201C}', '\u{201D}'));
        push_opt(&mut out, number_before_exec(&l, &chars_of("times")));
        return out;
    }
    if contains_exec(&l, &chars_of("line ratio")) || contains_exec(&l, &chars_of("line_ratio")) {
        let le = chars_of("<=");
        match find_exec(&l, &le, 0) {
            Some(i) => {
                proof {
                    reveal_strlit("<=");
                    crate::text::lemma_find_from_some(l@, "<="@, 0);
                }
                let n = l.len();
                assert(i + 2 <= n);
                let after = slice_chars(&l, i + 2, n);
                push_opt(&mut out, first_number_exec(after.as_slice()));
            },
            None => {},
        }
    }
    out
}

/// The candidate numerals of a line-ratio constraint `text`.
pub fn line_ratio_candidates(text: &str) -> (r: Vec<String>)
    ensures
        views(r@) == line_ratio_candidates_spec(text@, lowercase(text@)),
{
    let lower = to_lowercase(text);
    line_ratio_candidates_in(text, lower.as_str())
}

/// The candidate lists of the line-ratio constraints among the `Must`
/// constraints `cs`: one list per constraint that has candidates.
pub open spec fn quality_candidates_spec(cs: Seq<(Seq<char>, ConstraintCategory, Span)>) -> Seq<Seq<Seq<char>>> {
    concat_map(
        cs,
        |c: (Seq<char>, ConstraintCategory, Span)|
            if c.1 == ConstraintCategory::Must && line_ratio_candidates_spec(c.0, lowercase(c.0)).len() > 0 {
                seq![line_ratio_candidates_spec(c.0, lowercase(c.0))]
            } else {
                seq![]
            },
    )
}

/// The line-ratio constraints of a resolved spec, each as its candidate
/// numerals, in the order of `all_constraints`.
pub fn quality_constraint_candidates(spec: &ResolvedSpec) -> (r: Vec<Vec<String>>)
    ensures
        r@.map_values(|v: Vec<String>| views(v@)) == quality_candidates_spec(all_constraints_spec(*spec)),
{
    let cs = all_constraints(spec);
    let ghost cm = constraint_models(cs@);
    let ghost f = |c: (Seq<char>, ConstraintCategory, Span)|
        if c.1 == ConstraintCategory::Must && line_ratio_candidates_spec(c.0, lowercase(c.0)).len() > 0 {
            seq![line_ratio_candidates_spec(c.0, lowercase(c.0))]
        } else {
            seq![]
        };
    let mut r: Vec<Vec<String>> = Vec::new();
    let mut i: usize = 0;
    while i < cs.len()
        invariant
            0 <= i <= cs@.len(),
            cm == constraint_models(cs@),
            f == (|c: (Seq<char>, ConstraintCategory, Span)|
                if c.1 == ConstraintCategory::Must && line_ratio_candidates_spec(c.0, lowercase(c.0)).len() > 0 {
                    seq![line_ratio_candidates_spec(c.0, lowercase(c.0))]
                } else {
                    seq![]
                }),
            r@.map_values(|v: Vec<String>| views(v@)) == concat_map(cm.take(i as int), f),
        decreases cs@.len() - i,
    {
        let ghost before = r@.map_values(|v: Vec<String>| views(v@));
        assert(cm[i as int] == constraint_model(cs@[i as int]));
        if cs[i].category == ConstraintCategory::Must {
            let k = line_ratio_candidates(cs[i].text.as_str());
            if k.len() > 0 {
                r.push(k);
                assert(r@.map_values(|v: Vec<String>| views(v@)) =~= before + f(cm[i as int]));
            } else {
                assert(r@.map_values(|v: Vec<String>| views(v@)) =~= before + f(cm[i as int]));
            }
        } else {
            assert(r@.map_values(|v: Vec<String>| views(v@)) =~= before + f(cm[i as int]));
        }
        proof { lemma_concat_map_step(cm, f, i as int); }
        i += 1;
    }
    proof { lemma_concat_map_all(cm, f); }
    r
}

/// Without a line-ratio constraint among the `Must` constraints there is
/// no limit to enforce, and nothing is reported.
pub proof fn law_no_ratio_constraint_no_limits(cs: Seq<(Seq<char>, ConstraintCategory, Span)>)
    requires
        forall|k: int|
            0 <= k < cs.len() && (#[trigger] cs[k]).1 == ConstraintCategory::Must ==> line_ratio_candidates_spec(
                cs[k].0,
                lowercase(cs[k].0),
            ).len() == 0,
    ensures
        quality_candidates_spec(cs) == Seq::<Seq<Seq<char>>>::empty(),
    decreases cs.len(),
{
    if cs.len() > 0 {
        let c = cs.last();
        assert(c == cs[cs.len() - 1]);
        assert forall|k: int|
            0 <= k < cs.drop_last().len() && (#[trigger] cs.drop_last()[k]).1 == ConstraintCategory::Must implies line_ratio_candidates_spec(
                cs.drop_last()[k].0,
                lowercase(cs.drop_last()[k].0),
            ).len() == 0 by {
            assert(cs.drop_last()[k] == cs[k]);
        }
        law_no_ratio_constraint_no_limits(cs.drop_last());
    }
}

impl ComplexityVerifier {
    /// The line-ratio limits that apply to a set of changed paths: the
    /// candidate numerals of each line-ratio constraint of `spec`, or none
    /// when no path changed.
    pub fn line_ratio_limits(&self, spec: &ResolvedSpec, change_paths: &Vec<String>) -> (r: Vec<Vec<String>>)
        ensures
            r@.map_values(|v: Vec<String>| views(v@)) == (if change_paths@.len() == 0 {
                Seq::<Seq<Seq<char>>>::empty()
            } else {
                quality_candidates_spec(all_constraints_spec(*spec))
            }),
    {
        if change_paths.len() == 0 {
            let r: Vec<Vec<String>> = Vec::new();
            assert(r@.map_values(|v: Vec<String>| views(v@)) =~= Seq::<Seq<Seq<char>>>::empty());
            return r;
        }
        quality_constraint_candidates(spec)
    }
}

/// The added and deleted counts of one `git diff --numstat` line, when it
/// has at least three tab-separated fields and both counts parse.
pub open spec fn numstat_line(l: Seq<char>) -> Option<(nat, nat)> {
    let parts = split_char(l, '\t');
    if parts.len() < 3 {
        None
    } else {
        match (parse_usize_spec(parts[0]), parse_usize_spec(parts[1])) {
            (Some(a), Some(d)) => Some((a, d)),
            _ => None,
        }
    }
}

/// The summed counts of the first `n` lines.
pub open spec fn numstat_totals(ls: Seq<Seq<char>>, n: int) -> (nat, nat)
    decreases n,
{
    if n <= 0 || n > ls.len() {
        (0, 0)
    } else {
        let t = numstat_totals(ls, n - 1);
        match numstat_line(ls[n - 1]) {
            Some((a, d)) => (t.0 + a, t.1 + d),
            None => t,
        }
    }
}

/// The totals of a whole `git diff --numstat` output.
pub open spec fn numstat_spec(output: Seq<char>) -> (nat, nat) {
    numstat_totals(lines(output), lines(output).len() as int)
}

/// Parse `git diff --numstat` output.
///
/// Each line has the format: `<added>\t<deleted>\t<path>`.
/// Binary files show `-` for both counts; those lines are skipped.
pub fn parse_numstat_output(output: &str) -> (r: (usize, usize))
    requires
        numstat_spec(output@).0 <= usize::MAX,
        numstat_spec(output@).1 <= usize::MAX,
    ensures
        r.0 == numstat_spec(output@).0,
        r.1 == numstat_spec(output@).1,
{
    let ls = lines_exec(&chars_of(output));
    let ghost lv = ls@.map_values(|v: Vec<char>| v@);
    let mut total_added: usize = 0;
    let mut total_deleted: usize = 0;
    let mut i: usize = 0;
    while i < ls.len()
        invariant
            lv == ls@.map_values(|v: Vec<char>| v@),
            lv == lines(output@),
            0 <= i <= ls@.len(),
            numstat_totals(lv, lv.len() as int).0 <= usize::MAX,
            numstat_totals(lv, lv.len() as int).1 <= usize::MAX,
            total_added == numstat_totals(lv, i as int).0,
            total_deleted == numstat_totals(lv, i as int).1,
        decreases ls@.len() - i,
    {
        let parts = split_char_exec(ls[i].as_slice(), '\t');
        assert(lv[i as int] == ls@[i as int]@);
        proof { lemma_numstat_monotone(lv, i as int + 1); }
        if parts.len() >= 3 {
            let ghost pv = parts@.map_values(|v: Vec<char>| v@);
            assert(pv[0] == parts@[0]@ && pv[1] == parts@[1]@);
            let a = parse_usize(parts[0].as_slice());
            let d = parse_usize(parts[1].as_slice());
            match (a, d) {
                (Some(a), Some(d)) => {
                    total_added = total_added + a;
                    total_deleted = total_deleted + d;
                },
                _ => {},
            }
        }
        i += 1;
    }
    (total_added, total_deleted)
}

/// Parse `git diff --numstat` output; `None` when a total does not fit in `usize`.
pub fn parse_numstat_checked(output: &str) -> (r: Option<(usize, usize)>)
    ensures
        r is Some <==> numstat_spec(output@).0 <= usize::MAX && numstat_spec(output@).1 <= usize::MAX,
        r matches Some(t) ==> t.0 == numstat_spec(output@).0 && t.1 == numstat_spec(output@).1,
{
    let ls = lines_exec(&chars_of(output));
    let ghost lv = ls@.map_values(|v: Vec<char>| v@);
    let mut total_added: usize = 0;
    let mut total_deleted: usize = 0;
    let mut i: usize = 0;
    while i < ls.len()
        invariant
            lv == ls@.map_values(|v: Vec<char>| v@),
            lv == lines(output@),
            0 <= i <= ls@.len(),
            total_added == numstat_totals(lv, i as int).0,
            total_deleted == numstat_totals(lv, i as int).1,
        decreases ls@.len() - i,
    {
        let parts = split_char_exec(ls[i].as_slice(), '\t');
        assert(lv[i as int] == ls@[i as int]@);
        proof { lemma_numstat_monotone(lv, i as int + 1); }
        if parts.len() >= 3 {
            let ghost pv = parts@.map_values(|v: Vec<char>| v@);
            assert(pv[0] == parts@[0]@ && pv[1] == parts@[1]@);
            let a = parse_usize(parts[0].as_slice());
            let d = parse_usize(parts[1].as_slice());
            match (a, d) {
                (Some(a), Some(d)) => {
                    match (total_added.checked_add(a), total_deleted.checked_add(d)) {
                        (Some(x), Some(y)) => {
                            total_added = x;
                            total_deleted = y;
                        },
                        _ => {
                            return None;
                        },
                    }
                },
                _ => {},
            }
        }
        i += 1;
    }
    Some((total_added, total_deleted))
}

/// Totals over the first lines of `la + lb`: those of `la`, then those of `lb` added.
proof fn lemma_numstat_totals_add(la: Seq<Seq<char>>, lb: Seq<Seq<char>>, n: int)
    requires
        0 <= n <= la.len() + lb.len(),
    ensures
        n <= la.len() ==> numstat_totals(la + lb, n) == numstat_totals(la, n),
        n >= la.len() ==> numstat_totals(la + lb, n).0 == numstat_totals(la, la.len() as int).0 + numstat_totals(
            lb,
            n - la.len(),
        ).0,
        n >= la.len() ==> numstat_totals(la + lb, n).1 == numstat_totals(la, la.len() as int).1 + numstat_totals(
            lb,
            n - la.len(),
        ).1,
    decreases n,
{
    if n > 0 {
        lemma_numstat_totals_add(la, lb, n - 1);
        if n <= la.len() {
            assert((la + lb)[n - 1] == la[n - 1]);
        } else {
            assert((la + lb)[n - 1] == lb[n - 1 - la.len()]);
        }
    }
}

/// Numstat totals add up over concatenated outputs: when `a` is empty or
/// ends with a line break, the totals of `a + b` are those of `a` plus
/// those of `b`.
pub proof fn law_numstat_additive(a: Seq<char>, b: Seq<char>)
    requires
        a.len() == 0 || a.last() == '\n',
    ensures
        numstat_spec(a + b).0 == numstat_spec(a).0 + numstat_spec(b).0,
        numstat_spec(a + b).1 == numstat_spec(a).1 + numstat_spec(b).1,
{
    crate::text::lemma_lines_append(a, b);
    let la = lines(a);
    let lb = lines(b);
    lemma_numstat_totals_add(la, lb, (la.len() + lb.len()) as int);
}

/// The totals only grow with more lines.
proof fn lemma_numstat_monotone(ls: Seq<Seq<char>>, n: int)
    requires
        0 <= n <= ls.len(),
    ensures
        numstat_totals(ls, n).0 <= numstat_totals(ls, ls.len() as int).0,
        numstat_totals(ls, n).1 <= numstat_totals(ls, ls.len() as int).1,
    decreases ls.len() - n,
{
    if n < ls.len() {
        lemma_numstat_monotone(ls, n + 1);
    }
}

/// The diff statistics of a change set from the output of
/// `git diff HEAD --numstat -- <paths>` (`head`, `None` when git could not
/// run or failed): nothing without paths, else the totals of that output,
/// else nothing.
pub open spec fn diff_stats_spec(has_paths: bool, head: Option<Seq<char>>) -> (nat, nat) {
    if !has_paths {
        (0, 0)
    } else {
        match head {
            Some(o) => numstat_spec(o),
            None => (0, 0),
        }
    }
}

/// The view of an optional text.
pub open spec fn opt_view(o: Option<&str>) -> Option<Seq<char>> {
    match o {
        Some(t) => Some(t@),
        None => None,
    }
}

/// Compute diff statistics (added lines, deleted lines) for a change set
/// against `HEAD`, from the output of `git diff HEAD --numstat`; (0, 0)
/// when git is not available or fails.
pub fn compute_diff_stats(change_paths: &Vec<String>, head: Option<&str>) -> (r: (usize, usize))
    requires
        change_paths@.len() > 0 ==> (head matches Some(o) ==> numstat_spec(o@).0 <= usize::MAX
            && numstat_spec(o@).1 <= usize::MAX),
    ensures
        r.0 == diff_stats_spec(change_paths@.len() > 0, opt_view(head)).0,
        r.1 == diff_stats_spec(change_paths@.len() > 0, opt_view(head)).1,
{
    if change_paths.len() == 0 {
        return (0, 0);
    }
    match head {
        Some(o) => parse_numstat_output(o),
        None => (0, 0),
    }
}

} // verus!
