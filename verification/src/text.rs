//! Character-level text helpers with their mathematical models.
//!
//! Text is modelled as `Seq<char>`, the view that vstd gives `str` and
//! `String`.  Each model here is the definition that the standard library
//! documents for the operation of the same name on `str`.
use vstd::prelude::*;

verus! {

/// `char::is_whitespace`: the Unicode `White_Space` property.
pub open spec fn is_ws(c: char) -> bool {
    ||| ('\u{9}' <= c && c <= '\u{d}')
    ||| c == ' '
    ||| c == '\u{85}'
    ||| c == '\u{a0}'
    ||| c == '\u{1680}'
    ||| ('\u{2000}' <= c && c <= '\u{200a}')
    ||| c == '\u{2028}'
    ||| c == '\u{2029}'
    ||| c == '\u{202f}'
    ||| c == '\u{205f}'
    ||| c == '\u{3000}'
}

pub fn is_whitespace(c: char) -> (b: bool)
    ensures
        b == is_ws(c),
{
    ('\u{9}' <= c && c <= '\u{d}') || c == ' ' || c == '\u{85}' || c == '\u{a0}' || c == '\u{1680}'
        || ('\u{2000}' <= c && c <= '\u{200a}') || c == '\u{2028}' || c == '\u{2029}' || c
        == '\u{202f}' || c == '\u{205f}' || c == '\u{3000}'
}

/// `str::trim_start`.
pub open spec fn trim_start(s: Seq<char>) -> Seq<char>
    decreases s.len(),
{
    if s.len() > 0 && is_ws(s[0]) {
        trim_start(s.drop_first())
    } else {
        s
    }
}

/// `str::trim_end`.
pub open spec fn trim_end(s: Seq<char>) -> Seq<char>
    decreases s.len(),
{
    if s.len() > 0 && is_ws(s.last()) {
        trim_end(s.drop_last())
    } else {
        s
    }
}

/// `str::trim`.
pub open spec fn trim(s: Seq<char>) -> Seq<char> {
    trim_end(trim_start(s))
}

/// `str::starts_with` for a string pattern.
pub open spec fn starts_with(s: Seq<char>, p: Seq<char>) -> bool {
    p.len() <= s.len() && s.subrange(0, p.len() as int) == p
}

/// `str::ends_with` for a string pattern.
pub open spec fn ends_with(s: Seq<char>, p: Seq<char>) -> bool {
    p.len() <= s.len() && s.subrange(s.len() - p.len(), s.len() as int) == p
}

/// `p` occurs in `s` at index `i`.
pub open spec fn occurs_at(s: Seq<char>, p: Seq<char>, i: int) -> bool {
    0 <= i && i + p.len() <= s.len() && s.subrange(i, i + p.len()) == p
}

/// The first index at or after `i` where `p` occurs in `s`.
pub open spec fn find_from(s: Seq<char>, p: Seq<char>, i: int) -> Option<int>
    decreases s.len() - i,
{
    if i < 0 || i + p.len() > s.len() {
        None
    } else if occurs_at(s, p, i) {
        Some(i)
    } else if i >= s.len() {
        None
    } else {
        find_from(s, p, i + 1)
    }
}

/// `str::find` (in characters rather than bytes).
pub open spec fn find(s: Seq<char>, p: Seq<char>) -> Option<int> {
    find_from(s, p, 0)
}

/// `str::contains` for a string pattern.
pub open spec fn contains(s: Seq<char>, p: Seq<char>) -> bool {
    find(s, p) is Some
}

/// `str::trim_start_matches` for a non-empty string pattern.
pub open spec fn trim_start_matches(s: Seq<char>, p: Seq<char>) -> Seq<char>
    decreases s.len(),
{
    if p.len() > 0 && starts_with(s, p) {
        trim_start_matches(s.subrange(p.len() as int, s.len() as int), p)
    } else {
        s
    }
}

/// `str::trim_end_matches` for a char pattern.
pub open spec fn trim_end_char(s: Seq<char>, c: char) -> Seq<char>
    decreases s.len(),
{
    if s.len() > 0 && s.last() == c {
        trim_end_char(s.drop_last(), c)
    } else {
        s
    }
}

/// `str::trim_start_matches` for a char pattern.
pub open spec fn trim_start_char(s: Seq<char>, c: char) -> Seq<char>
    decreases s.len(),
{
    if s.len() > 0 && s[0] == c {
        trim_start_char(s.drop_first(), c)
    } else {
        s
    }
}

/// `str::trim_matches` for a char pattern.
pub open spec fn trim_char(s: Seq<char>, c: char) -> Seq<char> {
    trim_end_char(trim_start_char(s, c), c)
}

/// The index of the first `c` in `s`, if any.
pub open spec fn char_index_from(s: Seq<char>, c: char, i: int) -> Option<int>
    decreases s.len() - i,
{
    if i < 0 || i >= s.len() {
        None
    } else if s[i] == c {
        Some(i)
    } else {
        char_index_from(s, c, i + 1)
    }
}

/// `s.split(c).next()`: the text before the first `c`, or all of `s`.
pub open spec fn before_char(s: Seq<char>, c: char) -> Seq<char> {
    match char_index_from(s, c, 0) {
        Some(i) => s.subrange(0, i),
        None => s,
    }
}

/// `str::split` by a char: the pieces between the separators.
pub open spec fn split_char(s: Seq<char>, c: char) -> Seq<Seq<char>>
    decreases s.len(),
{
    match char_index_from(s, c, 0) {
        Some(i) => {
            proof { lemma_char_index_from(s, c, 0); }
            seq![s.subrange(0, i)] + split_char(s.subrange(i + 1, s.len() as int), c)
        },
        None => seq![s],
    }
}

/// `str::lines`: lines end at `\n`; a `\r` directly before the `\n` is
/// removed; a final line ending is optional and an empty text has no lines.
pub open spec fn lines(s: Seq<char>) -> Seq<Seq<char>>
    decreases s.len(),
{
    if s.len() == 0 {
        seq![]
    } else {
        match char_index_from(s, '\n', 0) {
            Some(i) => {
                proof { lemma_char_index_from(s, '\n', 0); }
                seq![strip_cr(s.subrange(0, i))] + lines(s.subrange(i + 1, s.len() as int))
            },
            None => seq![s],
        }
    }
}

/// Removes one trailing `\r`.
pub open spec fn strip_cr(s: Seq<char>) -> Seq<char> {
    if s.len() > 0 && s.last() == '\r' {
        s.drop_last()
    } else {
        s
    }
}

/// `char::to_ascii_lowercase`.
pub open spec fn ascii_lower(c: char) -> char {
    if 'A' <= c && c <= 'Z' {
        ((c as u32) + 32) as char
    } else {
        c
    }
}

/// `str::eq_ignore_ascii_case`.
pub open spec fn eq_ignore_ascii_case(a: Seq<char>, b: Seq<char>) -> bool {
    a.len() == b.len() && forall|i: int| 0 <= i < a.len() ==> ascii_lower(a[i]) == ascii_lower(b[i])
}

/// Decimal digit of `d < 10`.
pub open spec fn digit(d: nat) -> char {
    if d == 0 { '0' }
    else if d == 1 { '1' }
    else if d == 2 { '2' }
    else if d == 3 { '3' }
    else if d == 4 { '4' }
    else if d == 5 { '5' }
    else if d == 6 { '6' }
    else if d == 7 { '7' }
    else if d == 8 { '8' }
    else { '9' }
}

/// The decimal rendering of `n`, as `{}` prints an unsigned integer.
pub open spec fn decimal(n: nat) -> Seq<char>
    decreases n,
{
    if n < 10 {
        seq![digit(n)]
    } else {
        decimal(n / 10) + seq![digit(n % 10)]
    }
}

/// Concatenation of `f` applied to each element, in order.
pub open spec fn concat_map<T, U>(s: Seq<T>, f: spec_fn(T) -> Seq<U>) -> Seq<U>
    decreases s.len(),
{
    if s.len() == 0 {
        seq![]
    } else {
        concat_map(s.drop_last(), f) + f(s.last())
    }
}

pub proof fn lemma_concat_map_step<T, U>(s: Seq<T>, f: spec_fn(T) -> Seq<U>, i: int)
    requires
        0 <= i < s.len(),
    ensures
        concat_map(s.take(i + 1), f) == concat_map(s.take(i), f) + f(s[i]),
{
    assert(s.take(i + 1).drop_last() =~= s.take(i));
}

pub proof fn lemma_concat_map_all<T, U>(s: Seq<T>, f: spec_fn(T) -> Seq<U>)
    ensures
        concat_map(s.take(s.len() as int), f) == concat_map(s, f),
{
    assert(s.take(s.len() as int) =~= s);
}

/// The views of a sequence of strings.
pub open spec fn views(v: Seq<String>) -> Seq<Seq<char>> {
    v.map_values(|s: String| s@)
}

/// `sep`-separated concatenation (`[T]::join`).
pub open spec fn join(parts: Seq<Seq<char>>, sep: Seq<char>) -> Seq<char>
    decreases parts.len(),
{
    if parts.len() == 0 {
        seq![]
    } else if parts.len() == 1 {
        parts[0]
    } else {
        join(parts.drop_last(), sep) + sep + parts.last()
    }
}

/// Appends one character with `String::push`: the contract claims that the
/// string's characters afterwards are the old ones followed by `c`.
#[verifier::external_body]
pub(crate) fn push_char(s: &mut String, c: char)
    ensures
        final(s)@ == old(s)@.push(c),
{
    s.push(c);
}

/// Builds a `String` with `String::from_iter` over `&char`: the contract
/// claims that its characters are those of `v`, in order.
#[verifier::external_body]
pub(crate) fn string_from_chars(v: &[char]) -> (s: String)
    ensures
        s@ == v@,
{
    String::from_iter(v)
}

/// The characters of a string slice.
pub fn chars_of(s: &str) -> (v: Vec<char>)
    ensures
        v@ == s@,
{
    let mut v: Vec<char> = Vec::new();
    for c in it: s.chars()
        invariant
            v@ == it.seq().take(it.index() as int),
    {
        v.push(c);
    }
    v
}

/// Appends the characters of `v`.
pub fn push_chars(out: &mut String, v: &[char])
    ensures
        final(out)@ == old(out)@ + v@,
{
    let mut i: usize = 0;
    while i < v.len()
        invariant
            0 <= i <= v@.len(),
            out@ == old(out)@ + v@.take(i as int),
        decreases v@.len() - i,
    {
        push_char(out, v[i]);
        i += 1;
        assert(v@.take(i as int) =~= v@.take(i - 1).push(v@[i - 1]));
    }
    assert(v@.take(v@.len() as int) =~= v@);
}

fn digit_char(d: u128) -> (c: char)
    requires
        d < 10,
    ensures
        c == digit(d as nat),
{
    if d == 0 { '0' }
    else if d == 1 { '1' }
    else if d == 2 { '2' }
    else if d == 3 { '3' }
    else if d == 4 { '4' }
    else if d == 5 { '5' }
    else if d == 6 { '6' }
    else if d == 7 { '7' }
    else if d == 8 { '8' }
    else { '9' }
}

/// Appends the decimal rendering of `n`.
pub fn push_decimal(out: &mut String, n: u128)
    ensures
        final(out)@ == old(out)@ + decimal(n as nat),
    decreases n,
{
    if n >= 10 {
        push_decimal(out, n / 10);
        push_char(out, digit_char(n % 10));
    } else {
        push_char(out, digit_char(n));
    }
}

/// Appends the decimal rendering of `n`.
pub fn push_u64(out: &mut String, n: u64)
    ensures
        final(out)@ == old(out)@ + decimal(n as nat),
{
    push_decimal(out, n as u128);
}

/// Appends the decimal rendering of `n`.
pub fn push_usize(out: &mut String, n: usize)
    ensures
        final(out)@ == old(out)@ + decimal(n as nat),
{
    push_decimal(out, n as u128);
}

/// Copies `v[a..b]`.
pub fn slice_chars(v: &[char], a: usize, b: usize) -> (r: Vec<char>)
    requires
        a <= b <= v@.len(),
    ensures
        r@ == v@.subrange(a as int, b as int),
{
    let mut r: Vec<char> = Vec::new();
    let mut i = a;
    while i < b
        invariant
            a <= i <= b <= v@.len(),
            r@ == v@.subrange(a as int, i as int),
        decreases b - i,
    {
        r.push(v[i]);
        i += 1;
        assert(r@ =~= v@.subrange(a as int, i as int));
    }
    r
}

/// Whether `p` occurs in `s` at index `i`.
pub fn occurs_at_exec(s: &[char], p: &[char], i: usize) -> (b: bool)
    ensures
        b == occurs_at(s@, p@, i as int),
{
    if i > s.len() || p.len() > s.len() - i {
        return false;
    }
    let n = s.len();
    let mut k: usize = 0;
    while k < p.len()
        invariant
            n == s@.len(),
            i + p@.len() <= s@.len(),
            0 <= k <= p@.len(),
            forall|j: int| 0 <= j < k ==> s@[i + j] == p@[j],
        decreases p@.len() - k,
    {
        assert(i + k < s@.len());
        if s[i + k] != p[k] {
            assert(s@.subrange(i as int, i + p@.len())[k as int] != p@[k as int]);
            return false;
        }
        k += 1;
    }
    assert(s@.subrange(i as int, i + p@.len()) =~= p@);
    true
}

pub proof fn lemma_find_from_none(s: Seq<char>, p: Seq<char>, i: int)
    requires
        0 <= i,
        find_from(s, p, i) is None,
    ensures
        forall|j: int| i <= j ==> !occurs_at(s, p, j),
    decreases s.len() - i,
{
    if i + p.len() <= s.len() && i < s.len() && !occurs_at(s, p, i) {
        lemma_find_from_none(s, p, i + 1);
    }
}

pub proof fn lemma_find_from_some(s: Seq<char>, p: Seq<char>, i: int)
    requires
        0 <= i,
        find_from(s, p, i) is Some,
    ensures
        occurs_at(s, p, find_from(s, p, i)->0),
        i <= find_from(s, p, i)->0,
        forall|j: int| i <= j < find_from(s, p, i)->0 ==> !occurs_at(s, p, j),
    decreases s.len() - i,
{
    if !occurs_at(s, p, i) && i < s.len() {
        lemma_find_from_some(s, p, i + 1);
    }
}

/// `find_from` is the least occurrence at or after `i`.
pub proof fn lemma_find_from_least(s: Seq<char>, p: Seq<char>, i: int, k: int)
    requires
        0 <= i <= k,
        occurs_at(s, p, k),
        forall|j: int| i <= j < k ==> !occurs_at(s, p, j),
    ensures
        find_from(s, p, i) == Some(k),
    decreases k - i,
{
    if i < k {
        lemma_find_from_least(s, p, i + 1, k);
    }
}

/// The first index at or after `from` where `p` occurs in `s`.
pub fn find_exec(s: &[char], p: &[char], from: usize) -> (r: Option<usize>)
    ensures
        match r {
            Some(k) => find_from(s@, p@, from as int) == Some(k as int),
            None => find_from(s@, p@, from as int) is None,
        },
{
    if from > s.len() {
        return None;
    }
    let mut i = from;
    loop
        invariant
            from <= i <= s@.len(),
            forall|j: int| from <= j < i ==> !occurs_at(s@, p@, j),
        decreases s@.len() - i,
    {
        if p.len() > s.len() - i {
            proof {
                assert forall|j: int| from <= j implies !occurs_at(s@, p@, j) by {}
                lemma_find_none_from_all(s@, p@, from as int);
            }
            return None;
        }
        if occurs_at_exec(s, p, i) {
            proof { lemma_find_from_least(s@, p@, from as int, i as int); }
            return Some(i);
        }
        if i == s.len() {
            proof {
                assert forall|j: int| from <= j implies !occurs_at(s@, p@, j) by {}
                lemma_find_none_from_all(s@, p@, from as int);
            }
            return None;
        }
        i += 1;
    }
}

pub proof fn lemma_find_none_from_all(s: Seq<char>, p: Seq<char>, i: int)
    requires
        0 <= i,
        forall|j: int| i <= j ==> !occurs_at(s, p, j),
    ensures
        find_from(s, p, i) is None,
    decreases s.len() - i,
{
    if i + p.len() <= s.len() && i < s.len() {
        lemma_find_none_from_all(s, p, i + 1);
    }
}

/// Whether `p` occurs in `s` (`str::contains`).
pub fn contains_exec(s: &[char], p: &[char]) -> (b: bool)
    ensures
        b == contains(s@, p@),
{
    find_exec(s, p, 0).is_some()
}

/// `str::starts_with`.
pub fn starts_with_exec(s: &[char], p: &[char]) -> (b: bool)
    ensures
        b == starts_with(s@, p@),
{
    occurs_at_exec(s, p, 0)
}

/// `str::ends_with`.
pub fn ends_with_exec(s: &[char], p: &[char]) -> (b: bool)
    ensures
        b == ends_with(s@, p@),
{
    if p.len() > s.len() {
        false
    } else {
        occurs_at_exec(s, p, s.len() - p.len())
    }
}

/// Whether the two sequences are equal.
pub fn chars_eq(a: &[char], b: &[char]) -> (r: bool)
    ensures
        r == (a@ == b@),
{
    if a.len() != b.len() {
        return false;
    }
    let r = occurs_at_exec(a, b, 0);
    proof {
        if r {
            assert(a@.subrange(0, a@.len() as int) =~= a@);
        } else {
            assert(a@ != b@) by {
                if a@ == b@ {
                    assert(a@.subrange(0, a@.len() as int) =~= b@);
                }
            }
        }
    }
    r
}

/// The index of the first `c` at or after `from`.
pub fn char_index_exec(s: &[char], c: char, from: usize) -> (r: Option<usize>)
    ensures
        match r {
            Some(k) => char_index_from(s@, c, from as int) == Some(k as int),
            None => char_index_from(s@, c, from as int) is None,
        },
    decreases s@.len() - from,
{
    if from >= s.len() {
        None
    } else if s[from] == c {
        Some(from)
    } else {
        char_index_exec(s, c, from + 1)
    }
}

pub proof fn lemma_char_index_from(s: Seq<char>, c: char, i: int)
    requires
        0 <= i,
    ensures
        match char_index_from(s, c, i) {
            Some(k) => i <= k < s.len() && s[k] == c && forall|j: int| i <= j < k ==> s[j] != c,
            None => forall|j: int| i <= j < s.len() ==> s[j] != c,
        },
    decreases s.len() - i,
{
    if i < s.len() && s[i] != c {
        lemma_char_index_from(s, c, i + 1);
    }
}

/// The first `c` at or after `i` is the one `char_index_from` finds.
pub proof fn lemma_char_index_least(s: Seq<char>, c: char, i: int, k: int)
    requires
        0 <= i <= k < s.len(),
        s[k] == c,
        forall|j: int| i <= j < k ==> s[j] != c,
    ensures
        char_index_from(s, c, i) == Some(k),
    decreases k - i,
{
    if i < k {
        lemma_char_index_least(s, c, i + 1, k);
    }
}

/// `concat_map` distributes over concatenation.
pub proof fn lemma_concat_map_add<T, U>(a: Seq<T>, b: Seq<T>, f: spec_fn(T) -> Seq<U>)
    ensures
        concat_map(a + b, f) == concat_map(a, f) + concat_map(b, f),
    decreases b.len(),
{
    if b.len() == 0 {
        assert(a + b =~= a);
        assert(concat_map(a, f) + concat_map(b, f) =~= concat_map(a, f));
    } else {
        lemma_concat_map_add(a, b.drop_last(), f);
        assert((a + b).drop_last() =~= a + b.drop_last());
        assert((a + b).last() == b.last());
        assert(concat_map(a, f) + concat_map(b.drop_last(), f) + f(b.last()) =~= concat_map(a, f) + (concat_map(
            b.drop_last(),
            f,
        ) + f(b.last())));
    }
}

/// `concat_map` over sequences whose elements map to the same pieces gives the same result.
pub proof fn lemma_concat_map_congruent<T, U>(a: Seq<T>, b: Seq<T>, f: spec_fn(T) -> Seq<U>)
    requires
        a.len() == b.len(),
        forall|k: int| 0 <= k < a.len() ==> f(#[trigger] a[k]) == f(b[k]),
    ensures
        concat_map(a, f) == concat_map(b, f),
    decreases a.len(),
{
    if a.len() > 0 {
        assert forall|k: int| 0 <= k < a.drop_last().len() implies f(#[trigger] a.drop_last()[k]) == f(
            b.drop_last()[k],
        ) by {
            assert(a.drop_last()[k] == a[k] && b.drop_last()[k] == b[k]);
        }
        lemma_concat_map_congruent(a.drop_last(), b.drop_last(), f);
        assert(f(a.last()) == f(b.last()));
    }
}

/// The lines of a text that ends with a line break (or is empty) and the
/// lines of what follows it are the lines of the whole.
pub proof fn lemma_lines_append(a: Seq<char>, b: Seq<char>)
    requires
        a.len() == 0 || a.last() == '\n',
    ensures
        lines(a + b) == lines(a) + lines(b),
    decreases a.len(),
{
    if a.len() == 0 {
        assert(a + b =~= b);
        assert(lines(a) =~= Seq::<Seq<char>>::empty());
        assert(lines(a) + lines(b) =~= lines(b));
    } else {
        lemma_char_index_from(a, '\n', 0);
        if char_index_from(a, '\n', 0) is None {
            assert(a[a.len() - 1] != '\n');
        }
        let i = char_index_from(a, '\n', 0)->0;
        let ab = a + b;
        assert(ab[i] == '\n');
        assert forall|j: int| 0 <= j < i implies ab[j] != '\n' by {
            assert(ab[j] == a[j]);
        }
        lemma_char_index_least(ab, '\n', 0, i);
        let rest = a.subrange(i + 1, a.len() as int);
        assert(ab.subrange(0, i) =~= a.subrange(0, i));
        assert(ab.subrange(i + 1, ab.len() as int) =~= rest + b);
        if rest.len() > 0 {
            assert(rest.last() == a.last());
        }
        lemma_lines_append(rest, b);
        assert(lines(ab) == seq![strip_cr(a.subrange(0, i))] + lines(rest + b));
        assert(lines(a) == seq![strip_cr(a.subrange(0, i))] + lines(rest));
        assert(seq![strip_cr(a.subrange(0, i))] + (lines(rest) + lines(b)) =~= seq![strip_cr(a.subrange(0, i))]
            + lines(rest) + lines(b));
    }
}

/// `p` occurs somewhere in `s`, as a contiguous piece.
pub open spec fn infix(s: Seq<char>, p: Seq<char>) -> bool {
    exists|x: Seq<char>, y: Seq<char>| s == x + p + y
}

/// A piece between two others occurs in their concatenation.
pub proof fn lemma_infix_mid(x: Seq<char>, p: Seq<char>, y: Seq<char>)
    ensures
        infix(x + p + y, p),
{
    assert((x + p + y) == x + p + y);
}

/// What occurs in a piece of `s` occurs in `s`.
pub proof fn lemma_infix_trans(s: Seq<char>, q: Seq<char>, p: Seq<char>)
    requires
        infix(s, q),
        infix(q, p),
    ensures
        infix(s, p),
{
    let (x, y) = choose|x: Seq<char>, y: Seq<char>| s == x + q + y;
    let (u, v) = choose|u: Seq<char>, v: Seq<char>| q == u + p + v;
    assert(s =~= (x + u) + p + (v + y));
}

/// What occurs as a piece is found by `str::contains`.
pub proof fn lemma_infix_contains(s: Seq<char>, p: Seq<char>)
    requires
        infix(s, p),
    ensures
        contains(s, p),
{
    let (x, y) = choose|x: Seq<char>, y: Seq<char>| s == x + p + y;
    let k = x.len() as int;
    assert(s.subrange(k, k + p.len()) =~= p);
    assert(occurs_at(s, p, k));
    if find_from(s, p, 0) is None {
        lemma_find_from_none(s, p, 0);
    }
}

/// The piece an element maps to occurs in `concat_map`.
pub proof fn lemma_concat_map_infix<T>(s: Seq<T>, f: spec_fn(T) -> Seq<char>, k: int)
    requires
        0 <= k < s.len(),
    ensures
        infix(concat_map(s, f), f(s[k])),
{
    let a = s.take(k);
    let b = s.skip(k);
    assert(s =~= a + b);
    lemma_concat_map_add(a, b, f);
    let one = seq![s[k]];
    let rest = s.skip(k + 1);
    assert(b =~= one + rest);
    lemma_concat_map_add(one, rest, f);
    assert(one.drop_last() =~= Seq::<T>::empty());
    assert(concat_map(one.drop_last(), f) == concat_map(Seq::<T>::empty(), f));
    assert(concat_map(Seq::<T>::empty(), f) =~= Seq::<char>::empty());
    assert(concat_map(one, f) == concat_map(one.drop_last(), f) + f(one.last()));
    assert(concat_map(one, f) =~= f(s[k]));
    assert(concat_map(s, f) =~= concat_map(a, f) + f(s[k]) + concat_map(rest, f));
    lemma_infix_mid(concat_map(a, f), f(s[k]), concat_map(rest, f));
}

/// Bounds `[a, b)` of `trim(s[lo..hi])` inside `s`.
pub fn trim_bounds(s: &[char], lo: usize, hi: usize) -> (r: (usize, usize))
    requires
        lo <= hi <= s@.len(),
    ensures
        lo <= r.0 <= r.1 <= hi,
        s@.subrange(r.0 as int, r.1 as int) == trim(s@.subrange(lo as int, hi as int)),
{
    let mut a = lo;
    while a < hi && is_whitespace(s[a])
        invariant
            lo <= a <= hi <= s@.len(),
            trim_start(s@.subrange(lo as int, hi as int)) == trim_start(s@.subrange(a as int, hi as int)),
        decreases hi - a,
    {
        assert(s@.subrange(a as int, hi as int).drop_first() =~= s@.subrange(a + 1, hi as int));
        a += 1;
    }
    let mut b = hi;
    while b > a && is_whitespace(s[b - 1])
        invariant
            lo <= a <= b <= hi <= s@.len(),
            trim_end(s@.subrange(a as int, hi as int)) == trim_end(s@.subrange(a as int, b as int)),
        decreases b - a,
    {
        assert(s@.subrange(a as int, b as int).drop_last() =~= s@.subrange(a as int, b - 1));
        b -= 1;
    }
    (a, b)
}

/// `str::trim` on characters.
pub fn trim_exec(s: &[char]) -> (r: Vec<char>)
    ensures
        r@ == trim(s@),
{
    let (a, b) = trim_bounds(s, 0, s.len());
    assert(s@.subrange(0, s@.len() as int) =~= s@);
    slice_chars(s, a, b)
}


/// `str::replace` of one char by another.
pub open spec fn replace_char(s: Seq<char>, a: char, b: char) -> Seq<char> {
    s.map_values(|x: char| if x == a { b } else { x })
}

pub fn replace_char_exec(s: &[char], a: char, b: char) -> (r: Vec<char>)
    ensures
        r@ == replace_char(s@, a, b),
{
    let mut r: Vec<char> = Vec::new();
    let mut i: usize = 0;
    while i < s.len()
        invariant
            0 <= i <= s@.len(),
            r@ == replace_char(s@.take(i as int), a, b),
        decreases s@.len() - i,
    {
        if s[i] == a {
            r.push(b);
        } else {
            r.push(s[i]);
        }
        i += 1;
        assert(r@ =~= replace_char(s@.take(i as int), a, b));
    }
    assert(s@.take(s@.len() as int) =~= s@);
    r
}

/// `str::trim_start_matches` for a char pattern.
pub fn trim_start_char_exec(s: &[char], c: char) -> (r: Vec<char>)
    ensures
        r@ == trim_start_char(s@, c),
{
    let mut a: usize = 0;
    assert(s@.subrange(0, s@.len() as int) =~= s@);
    while a < s.len() && s[a] == c
        invariant
            a <= s@.len(),
            trim_start_char(s@, c) == trim_start_char(s@.subrange(a as int, s@.len() as int), c),
        decreases s@.len() - a,
    {
        assert(s@.subrange(a as int, s@.len() as int).drop_first() =~= s@.subrange(a + 1, s@.len() as int));
        a += 1;
    }
    slice_chars(s, a, s.len())
}

/// `str::trim_end_matches` for a char pattern.
pub fn trim_end_char_exec(s: &[char], c: char) -> (r: Vec<char>)
    ensures
        r@ == trim_end_char(s@, c),
{
    let mut b: usize = s.len();
    assert(s@.subrange(0, b as int) =~= s@);
    while b > 0 && s[b - 1] == c
        invariant
            b <= s@.len(),
            trim_end_char(s@, c) == trim_end_char(s@.subrange(0, b as int), c),
        decreases b,
    {
        assert(s@.subrange(0, b as int).drop_last() =~= s@.subrange(0, b - 1));
        b -= 1;
    }
    slice_chars(s, 0, b)
}

/// `str::trim_matches` for a char pattern.
pub fn trim_char_exec(s: &[char], c: char) -> (r: Vec<char>)
    ensures
        r@ == trim_char(s@, c),
{
    let t = trim_start_char_exec(s, c);
    trim_end_char_exec(&t, c)
}

/// `str::trim_start_matches` for a non-empty string pattern.
pub fn trim_start_matches_exec(s: &[char], p: &[char]) -> (r: Vec<char>)
    ensures
        r@ == trim_start_matches(s@, p@),
{
    if p.len() == 0 {
        return slice_chars(s, 0, s.len());
    }
    let n = s.len();
    let mut a: usize = 0;
    assert(s@.subrange(0, s@.len() as int) =~= s@);
    loop
        invariant
            n == s@.len(),
            p@.len() > 0,
            a <= s@.len(),
            trim_start_matches(s@, p@) == trim_start_matches(s@.subrange(a as int, s@.len() as int), p@),
        decreases s@.len() - a,
    {
        if occurs_at_exec(s, p, a) {
            let ghost rest = s@.subrange(a as int, s@.len() as int);
            assert(rest.subrange(0, p@.len() as int) =~= s@.subrange(a as int, a + p@.len()));
            assert(rest.subrange(p@.len() as int, rest.len() as int) =~= s@.subrange(a + p@.len(), s@.len() as int));
            a = a + p.len();
        } else {
            proof {
                let rest = s@.subrange(a as int, s@.len() as int);
                if starts_with(rest, p@) {
                    assert(rest.subrange(0, p@.len() as int) =~= s@.subrange(a as int, a + p@.len()));
                }
            }
            return slice_chars(s, a, s.len());
        }
    }
}

/// `s.split(c).next()`: the text before the first `c`.
pub fn before_char_exec(s: &[char], c: char) -> (r: Vec<char>)
    ensures
        r@ == before_char(s@, c),
{
    proof { lemma_char_index_from(s@, c, 0); }
    match char_index_exec(s, c, 0) {
        Some(i) => slice_chars(s, 0, i),
        None => slice_chars(s, 0, s.len()),
    }
}

/// `str::split` by a char.
pub fn split_char_exec(s: &[char], c: char) -> (r: Vec<Vec<char>>)
    ensures
        r@.map_values(|v: Vec<char>| v@) == split_char(s@, c),
{
    let n = s.len();
    let mut r: Vec<Vec<char>> = Vec::new();
    let mut a: usize = 0;
    assert(s@.subrange(0, s@.len() as int) =~= s@);
    loop
        invariant
            n == s@.len(),
            a <= s@.len(),
            split_char(s@, c) == r@.map_values(|v: Vec<char>| v@) + split_char(s@.subrange(a as int, s@.len() as int), c),
        decreases s@.len() - a,
    {
        let ghost rest = s@.subrange(a as int, s@.len() as int);
        proof { lemma_char_index_from(s@, c, a as int); lemma_char_index_shift(s@, c, a as int); }
        match char_index_exec(s, c, a) {
            Some(i) => {
                let piece = slice_chars(s, a, i);
                proof {
                    assert(piece@ =~= rest.subrange(0, i - a));
                    assert(rest.subrange(i - a + 1, rest.len() as int) =~= s@.subrange(i + 1, s@.len() as int));
                }
                let ghost old_r = r@.map_values(|v: Vec<char>| v@);
                r.push(piece);
                assert(r@.map_values(|v: Vec<char>| v@) =~= old_r.push(piece@));
                a = i + 1;
            },
            None => {
                let piece = slice_chars(s, a, s.len());
                let ghost old_r = r@.map_values(|v: Vec<char>| v@);
                r.push(piece);
                assert(r@.map_values(|v: Vec<char>| v@) =~= old_r.push(piece@));
                return r;
            },
        }
    }
}

/// `char_index_from` on a suffix, in the suffix's indices.
pub proof fn lemma_char_index_shift(s: Seq<char>, c: char, a: int)
    requires
        0 <= a <= s.len(),
    ensures
        match char_index_from(s, c, a) {
            Some(k) => char_index_from(s.subrange(a, s.len() as int), c, 0) == Some(k - a),
            None => char_index_from(s.subrange(a, s.len() as int), c, 0) is None,
        },
{
    lemma_char_index_shift_from(s, c, a, a);
}

proof fn lemma_char_index_shift_from(s: Seq<char>, c: char, a: int, i: int)
    requires
        0 <= a <= i,
        a <= s.len(),
    ensures
        match char_index_from(s, c, i) {
            Some(k) => char_index_from(s.subrange(a, s.len() as int), c, i - a) == Some(k - a),
            None => char_index_from(s.subrange(a, s.len() as int), c, i - a) is None,
        },
    decreases s.len() - i,
{
    if i < s.len() && s[i] != c {
        lemma_char_index_shift_from(s, c, a, i + 1);
    }
}

/// `str::lines`.
pub fn lines_exec(s: &[char]) -> (r: Vec<Vec<char>>)
    ensures
        r@.map_values(|v: Vec<char>| v@) == lines(s@),
{
    let n = s.len();
    let mut r: Vec<Vec<char>> = Vec::new();
    let mut a: usize = 0;
    assert(s@.subrange(0, s@.len() as int) =~= s@);
    loop
        invariant
            n == s@.len(),
            a <= s@.len(),
            lines(s@) == r@.map_values(|v: Vec<char>| v@) + lines(s@.subrange(a as int, s@.len() as int)),
        decreases s@.len() - a,
    {
        let ghost rest = s@.subrange(a as int, s@.len() as int);
        if a == s.len() {
            assert(rest.len() == 0);
            assert(r@.map_values(|v: Vec<char>| v@) + lines(rest) =~= r@.map_values(|v: Vec<char>| v@));
            return r;
        }
        proof { lemma_char_index_from(s@, '\n', a as int); lemma_char_index_shift(s@, '\n', a as int); }
        match char_index_exec(s, '\n', a) {
            Some(i) => {
                let mut e = i;
                if e > a && s[e - 1] == '\r' {
                    e = e - 1;
                }
                let piece = slice_chars(s, a, e);
                proof {
                    assert(piece@ =~= strip_cr(rest.subrange(0, i - a)));
                    assert(rest.subrange(i - a + 1, rest.len() as int) =~= s@.subrange(i + 1, s@.len() as int));
                }
                let ghost old_r = r@.map_values(|v: Vec<char>| v@);
                r.push(piece);
                assert(r@.map_values(|v: Vec<char>| v@) =~= old_r.push(piece@));
                a = i + 1;
            },
            None => {
                let piece = slice_chars(s, a, s.len());
                let ghost old_r = r@.map_values(|v: Vec<char>| v@);
                r.push(piece);
                assert(r@.map_values(|v: Vec<char>| v@) =~= old_r.push(piece@));
                return r;
            },
        }
    }
}

/// `[..].join(sep)`.
pub fn join_exec(parts: &Vec<Vec<char>>, sep: &str) -> (r: String)
    ensures
        r@ == join(parts@.map_values(|v: Vec<char>| v@), sep@),
{
    let ghost ps = parts@.map_values(|v: Vec<char>| v@);
    let mut r = String::new();
    let mut i: usize = 0;
    while i < parts.len()
        invariant
            ps == parts@.map_values(|v: Vec<char>| v@),
            0 <= i <= parts@.len(),
            r@ == join(ps.take(i as int), sep@),
        decreases parts@.len() - i,
    {
        if i > 0 {
            r.append(sep);
        }
        push_chars(&mut r, parts[i].as_slice());
        i += 1;
        proof {
            assert(ps.take(i as int).drop_last() =~= ps.take(i - 1));
            if i == 1 {
                assert(ps.take(0) =~= Seq::<Seq<char>>::empty());
            }
        }
    }
    assert(ps.take(parts@.len() as int) =~= ps);
    r
}


/// Each item between `pre` and `post`, concatenated in order.
pub open spec fn item_lines(items: Seq<String>, pre: Seq<char>, post: Seq<char>) -> Seq<char> {
    concat_map(items, |s: String| pre + s@ + post)
}

/// Appends each item between `pre` and `post`.
pub fn push_item_lines(out: &mut String, items: &Vec<String>, pre: &str, post: &str)
    ensures
        final(out)@ == old(out)@ + item_lines(items@, pre@, post@),
{
    let ghost f = |s: String| pre@ + s@ + post@;
    let mut i: usize = 0;
    while i < items.len()
        invariant
            0 <= i <= items@.len(),
            f == (|s: String| pre@ + s@ + post@),
            out@ == old(out)@ + concat_map(items@.take(i as int), f),
        decreases items@.len() - i,
    {
        out.append(pre);
        out.append(items[i].as_str());
        out.append(post);
        proof { lemma_concat_map_step(items@, f, i as int); }
        i += 1;
    }
    proof { lemma_concat_map_all(items@, f); }
}


/// Whether `c` occurs in `s`.
pub fn has_char_exec(s: &[char], c: char) -> (b: bool)
    ensures
        b == s@.contains(c),
{
    let mut i: usize = 0;
    while i < s.len()
        invariant
            0 <= i <= s@.len(),
            forall|j: int| 0 <= j < i ==> s@[j] != c,
        decreases s@.len() - i,
    {
        if s[i] == c {
            assert(s@[i as int] == c);
            return true;
        }
        i += 1;
    }
    false
}

/// Lexicographic order of texts by code point, which is the byte order of
/// their UTF-8 encodings (`Ord` for `str`).
pub open spec fn str_lt(a: Seq<char>, b: Seq<char>) -> bool
    decreases a.len(),
{
    if a.len() == 0 {
        b.len() > 0
    } else if b.len() == 0 {
        false
    } else if a[0] != b[0] {
        a[0] < b[0]
    } else {
        str_lt(a.drop_first(), b.drop_first())
    }
}

pub proof fn lemma_str_lt_irrefl(a: Seq<char>)
    ensures
        !str_lt(a, a),
    decreases a.len(),
{
    if a.len() > 0 {
        lemma_str_lt_irrefl(a.drop_first());
    }
}

pub proof fn lemma_str_lt_trans(a: Seq<char>, b: Seq<char>, c: Seq<char>)
    requires
        str_lt(a, b),
        str_lt(b, c),
    ensures
        str_lt(a, c),
    decreases a.len(),
{
    if a.len() > 0 && b.len() > 0 && c.len() > 0 && a[0] == b[0] && b[0] == c[0] {
        lemma_str_lt_trans(a.drop_first(), b.drop_first(), c.drop_first());
    }
}

pub proof fn lemma_str_lt_total(a: Seq<char>, b: Seq<char>)
    ensures
        a == b || str_lt(a, b) || str_lt(b, a),
    decreases a.len(),
{
    if a.len() > 0 && b.len() > 0 {
        if a[0] == b[0] {
            lemma_str_lt_total(a.drop_first(), b.drop_first());
            if a.drop_first() == b.drop_first() {
                assert(a =~= seq![a[0]] + a.drop_first());
                assert(b =~= seq![b[0]] + b.drop_first());
            }
        }
    } else if a.len() == 0 && b.len() == 0 {
        assert(a =~= b);
    }
}

/// Whether `a` sorts before `b` (`str < str`).
pub fn str_less(a: &[char], b: &[char]) -> (r: bool)
    ensures
        r == str_lt(a@, b@),
{
    let mut i: usize = 0;
    assert(a@.subrange(0, a@.len() as int) =~= a@);
    assert(b@.subrange(0, b@.len() as int) =~= b@);
    while i < a.len() && i < b.len() && a[i] == b[i]
        invariant
            0 <= i <= a@.len(),
            i <= b@.len(),
            str_lt(a@, b@) == str_lt(a@.subrange(i as int, a@.len() as int), b@.subrange(i as int, b@.len() as int)),
        decreases a@.len() - i,
    {
        proof {
            let x = a@.subrange(i as int, a@.len() as int);
            let y = b@.subrange(i as int, b@.len() as int);
            assert(x.drop_first() =~= a@.subrange(i + 1, a@.len() as int));
            assert(y.drop_first() =~= b@.subrange(i + 1, b@.len() as int));
        }
        i += 1;
    }
    proof {
        assert(a@.subrange(0, a@.len() as int) =~= a@);
        assert(b@.subrange(0, b@.len() as int) =~= b@);
    }
    if i == a.len() {
        i < b.len()
    } else if i == b.len() {
        false
    } else {
        a[i] < b[i]
    }
}

} // verus!
