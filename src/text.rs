//! Searching sequences of characters: the first or last position that meets a
//! condition, literal substrings, whitespace trimming.
use vstd::prelude::*;

verus! {

/// The least position `i` with `from <= i < n` at which `f` holds.
pub open spec fn first_from(n: int, from: int, f: spec_fn(int) -> bool) -> Option<int>
    decreases n - from,
{
    if from < 0 || from >= n {
        None
    } else if f(from) {
        Some(from)
    } else {
        first_from(n, from + 1, f)
    }
}

/// The greatest position `i` with `0 <= i < n` at which `f` holds.
pub open spec fn last_below(n: int, f: spec_fn(int) -> bool) -> Option<int>
    decreases n,
{
    if n <= 0 {
        None
    } else if f(n - 1) {
        Some(n - 1)
    } else {
        last_below(n - 1, f)
    }
}

/// `p` stands in `s` starting at position `i`.
pub open spec fn occurs_at(s: Seq<char>, i: int, p: Seq<char>) -> bool {
    0 <= i && i + p.len() <= s.len() && s.subrange(i, i + p.len()) == p
}

/// The first position at or after `from` where `p` stands in `s`.
pub open spec fn find_from(s: Seq<char>, p: Seq<char>, from: int) -> Option<int> {
    first_from(s.len() as int, from, |i: int| occurs_at(s, i, p))
}

/// `p` stands somewhere in `s`.
pub open spec fn contains(s: Seq<char>, p: Seq<char>) -> bool {
    find_from(s, p, 0) is Some
}

/// An `Option<usize>` read as an optional integer.
pub open spec fn opt_int(r: Option<usize>) -> Option<int> {
    match r {
        Some(k) => Some(k as int),
        None => None,
    }
}

/// Skipping positions where `f` fails does not change the first position where it holds.
pub proof fn lemma_first_from_skip(n: int, from: int, to: int, f: spec_fn(int) -> bool)
    requires
        0 <= from <= to,
        forall|j: int| from <= j < to && j < n ==> !#[trigger] f(j),
    ensures
        first_from(n, from, f) == first_from(n, to, f),
    decreases to - from,
{
    if from < to && from < n {
        lemma_first_from_skip(n, from + 1, to, f);
    }
}

/// Conditions that agree on the range searched have the same first position.
pub proof fn lemma_first_from_agree(n: int, from: int, f: spec_fn(int) -> bool, g: spec_fn(int) -> bool)
    requires
        forall|j: int| from <= j < n ==> #[trigger] f(j) == g(j),
    ensures
        first_from(n, from, f) == first_from(n, from, g),
    decreases n - from,
{
    if 0 <= from < n {
        lemma_first_from_agree(n, from + 1, f, g);
    }
}

/// What the first position found is.
pub proof fn lemma_first_from_props(n: int, from: int, f: spec_fn(int) -> bool)
    ensures
        first_from(n, from, f) matches Some(i) ==> from <= i < n && f(i) && forall|j: int|
            from <= j < i ==> !#[trigger] f(j),
        first_from(n, from, f) is None ==> forall|j: int| from <= j < n && 0 <= from ==> !#[trigger] f(j),
    decreases n - from,
{
    if 0 <= from < n && !f(from) {
        lemma_first_from_props(n, from + 1, f);
    }
}

/// What the last position found is.
pub proof fn lemma_last_below_props(n: int, f: spec_fn(int) -> bool)
    ensures
        last_below(n, f) matches Some(i) ==> 0 <= i < n && f(i) && forall|j: int|
            i < j < n ==> !#[trigger] f(j),
        last_below(n, f) is None ==> forall|j: int| 0 <= j < n ==> !#[trigger] f(j),
    decreases n,
{
    if n > 0 && !f(n - 1) {
        lemma_last_below_props(n - 1, f);
    }
}

/// Skipping positions at the top where `f` fails does not change the last position where it holds.
pub proof fn lemma_last_below_skip(n: int, m: int, f: spec_fn(int) -> bool)
    requires
        0 <= m <= n,
        forall|j: int| m <= j < n ==> !#[trigger] f(j),
    ensures
        last_below(n, f) == last_below(m, f),
    decreases n - m,
{
    if m < n {
        lemma_last_below_skip(n - 1, m, f);
    }
}

/// A character with the Unicode `White_Space` property, as `char::is_whitespace` reads it.
pub open spec fn is_white(c: char) -> bool {
    ('\u{9}' <= c && c <= '\u{d}') || c == ' ' || c == '\u{85}' || c == '\u{a0}' || c
        == '\u{1680}' || ('\u{2000}' <= c && c <= '\u{200a}') || c == '\u{2028}' || c
        == '\u{2029}' || c == '\u{202f}' || c == '\u{205f}' || c == '\u{3000}'
}

/// `s` without the whitespace at either end.
pub open spec fn trim(s: Seq<char>) -> Seq<char> {
    let solid = |i: int| !is_white(s[i]);
    match first_from(s.len() as int, 0, solid) {
        Some(a) => match last_below(s.len() as int, solid) {
            Some(b) => s.subrange(a, b + 1),
            None => Seq::empty(),
        },
        None => Seq::empty(),
    }
}

/// `s` with each newline turned into a space.
pub open spec fn newlines_to_spaces(s: Seq<char>) -> Seq<char> {
    s.map_values(|c: char| if c == '\n' { ' ' } else { c })
}

/// `s` with each pair of spaces, read from the left without overlap, turned into one space.
pub open spec fn halve_double_spaces(s: Seq<char>) -> Seq<char>
    decreases s.len(),
{
    if s.len() < 2 {
        s
    } else if s[0] == ' ' && s[1] == ' ' {
        seq![' '] + halve_double_spaces(s.subrange(2, s.len() as int))
    } else {
        seq![s[0]] + halve_double_spaces(s.subrange(1, s.len() as int))
    }
}

/// Relies on `String::push`, which appends one character.
pub assume_specification[ std::string::String::push ](s: &mut std::string::String, ch: char)
    ensures
        final(s)@ == old(s)@.push(ch),
;

/// Whether `c` is whitespace.
pub fn is_white_char(c: char) -> (r: bool)
    ensures
        r == is_white(c),
{
    ('\u{9}' <= c && c <= '\u{d}') || c == ' ' || c == '\u{85}' || c == '\u{a0}' || c
        == '\u{1680}' || ('\u{2000}' <= c && c <= '\u{200a}') || c == '\u{2028}' || c
        == '\u{2029}' || c == '\u{202f}' || c == '\u{205f}' || c == '\u{3000}'
}

/// Whether `p` stands in `s` at position `i`.
pub fn matches_at(s: &Vec<char>, i: usize, p: &Vec<char>) -> (r: bool)
    ensures
        r == occurs_at(s@, i as int, p@),
{
    if i > s.len() || p.len() > s.len() - i {
        return false;
    }
    let mut k: usize = 0;
    while k < p.len()
        invariant
            k <= p.len(),
            i + p.len() <= s.len(),
            forall|j: int| 0 <= j < k ==> s@[i + j] == p@[j],
        decreases p.len() - k,
    {
        if s[i + k] != p[k] {
            assert(s@.subrange(i as int, i + p.len())[k as int] != p@[k as int]);
            return false;
        }
        k += 1;
    }
    assert(s@.subrange(i as int, i + p.len()) =~= p@);
    true
}

/// The first position at or after `from` where `p` stands in `s`.
pub fn find_in(s: &Vec<char>, p: &Vec<char>, from: usize) -> (r: Option<usize>)
    ensures
        opt_int(r) == find_from(s@, p@, from as int),
        r matches Some(k) ==> from <= k && k + p.len() <= s.len() && occurs_at(s@, k as int, p@),
{
    let mut i = from;
    while i < s.len()
        invariant
            from <= i,
            forall|j: int| from <= j < i ==> !#[trigger] occurs_at(s@, j, p@),
        decreases s.len() - i,
    {
        if matches_at(s, i, p) {
            proof {
                lemma_first_from_skip(s@.len() as int, from as int, i as int, |j: int| occurs_at(s@, j, p@));
            }
            return Some(i);
        }
        i += 1;
    }
    proof {
        lemma_first_from_skip(s@.len() as int, from as int, i as int, |j: int| occurs_at(s@, j, p@));
    }
    None
}

/// Whether two sequences of characters are equal.
pub fn same_chars(a: &Vec<char>, b: &Vec<char>) -> (r: bool)
    ensures
        r == (a@ == b@),
{
    if a.len() != b.len() {
        return false;
    }
    let mut i: usize = 0;
    while i < a.len()
        invariant
            a.len() == b.len(),
            i <= a.len(),
            forall|j: int| 0 <= j < i ==> a@[j] == b@[j],
        decreases a.len() - i,
    {
        if a[i] != b[i] {
            return false;
        }
        i += 1;
    }
    assert(a@ =~= b@);
    true
}

/// `a` followed by `b`.
pub fn chars_concat(a: &Vec<char>, b: &Vec<char>) -> (r: Vec<char>)
    ensures
        r@ == a@ + b@,
{
    let mut r: Vec<char> = Vec::new();
    let mut i: usize = 0;
    while i < a.len()
        invariant
            i <= a.len(),
            r@ == a@.take(i as int),
        decreases a.len() - i,
    {
        r.push(a[i]);
        assert(r@ =~= a@.take(i + 1));
        i += 1;
    }
    let mut j: usize = 0;
    while j < b.len()
        invariant
            j <= b.len(),
            r@ == a@ + b@.take(j as int),
        decreases b.len() - j,
    {
        r.push(b[j]);
        assert(r@ =~= a@ + b@.take(j + 1));
        j += 1;
    }
    assert(b@.take(b.len() as int) =~= b@);
    assert(a@.take(a.len() as int) =~= a@);
    r
}

/// The characters of `s` from position `a` up to `b`, as a string.
pub fn string_of(s: &Vec<char>, a: usize, b: usize) -> (r: String)
    requires
        a <= b <= s.len(),
    ensures
        r@ == s@.subrange(a as int, b as int),
{
    let mut r = String::new();
    let mut i = a;
    while i < b
        invariant
            a <= i <= b <= s.len(),
            r@ == s@.subrange(a as int, i as int),
        decreases b - i,
    {
        r.push(s[i]);
        assert(r@ =~= s@.subrange(a as int, i + 1));
        i += 1;
    }
    r
}

/// The characters of `s` from position `a` up to `b`.
pub fn slice_of(s: &Vec<char>, a: usize, b: usize) -> (r: Vec<char>)
    requires
        a <= b <= s.len(),
    ensures
        r@ == s@.subrange(a as int, b as int),
{
    let mut r: Vec<char> = Vec::new();
    let mut i = a;
    while i < b
        invariant
            a <= i <= b <= s.len(),
            r@ == s@.subrange(a as int, i as int),
        decreases b - i,
    {
        r.push(s[i]);
        assert(r@ =~= s@.subrange(a as int, i + 1));
        i += 1;
    }
    r
}

/// `s` without the whitespace at either end.
pub fn trim_chars(s: &Vec<char>) -> (r: Vec<char>)
    ensures
        r@ == trim(s@),
{
    let ghost solid = |i: int| !is_white(s@[i]);
    let mut a: usize = 0;
    while a < s.len() && is_white_char(s[a])
        invariant
            a <= s.len(),
            forall|j: int| 0 <= j < a ==> #[trigger] is_white(s@[j]),
        decreases s.len() - a,
    {
        a += 1;
    }
    proof {
        lemma_first_from_skip(s@.len() as int, 0, a as int, solid);
    }
    if a == s.len() {
        return Vec::new();
    }
    let mut b: usize = s.len();
    while b > a && is_white_char(s[b - 1])
        invariant
            a < s.len(),
            !is_white(s@[a as int]),
            a <= b <= s.len(),
            forall|j: int| b <= j < s.len() ==> #[trigger] is_white(s@[j]),
        decreases b,
    {
        b -= 1;
    }
    proof {
        lemma_last_below_skip(s@.len() as int, b as int, solid);
    }
    slice_of(s, a, b)
}

/// `s` with each newline turned into a space, then each pair of spaces, read from
/// the left without overlap, turned into one space.
pub fn collapse_newlines(s: &Vec<char>) -> (r: Vec<char>)
    ensures
        r@ == halve_double_spaces(newlines_to_spaces(s@)),
{
    let ghost t = newlines_to_spaces(s@);
    let mut r: Vec<char> = Vec::new();
    assert(t.subrange(0, t.len() as int) =~= t);
    let mut i: usize = 0;
    while i < s.len()
        invariant
            i <= s.len(),
            t == newlines_to_spaces(s@),
            r@ + halve_double_spaces(t.subrange(i as int, t.len() as int)) == halve_double_spaces(t),
        decreases s.len() - i,
    {
        let c = if s[i] == '\n' { ' ' } else { s[i] };
        let ghost rest = t.subrange(i as int, t.len() as int);
        if c == ' ' && i + 1 < s.len() && (s[i + 1] == ' ' || s[i + 1] == '\n') {
            assert(rest.subrange(2, rest.len() as int) =~= t.subrange(i + 2, t.len() as int));
            r.push(' ');
            i += 2;
        } else {
            assert(rest.subrange(1, rest.len() as int) =~= t.subrange(i + 1, t.len() as int));
            r.push(c);
            i += 1;
        }
    }
    assert(t.subrange(i as int, t.len() as int) =~= Seq::<char>::empty());
    r
}

/// The characters of a string slice.
pub fn to_chars(s: &str) -> (r: Vec<char>)
    ensures
        r@ == s@,
{
    let mut r: Vec<char> = Vec::new();
    for c in it: s.chars()
        invariant
            r@ == it.seq().take(it.index() as int),
    {
        r.push(c);
    }
    r
}

} // verus!
