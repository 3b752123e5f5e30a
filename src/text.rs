//! Character-level helpers shared by the scanners: views of strings as
//! character sequences, matching at a position and searching by class.
use vstd::prelude::*;
use vstd::std_specs::iter::IteratorSpec;

verus! {

broadcast use vstd::string::group_string_axioms;

/// A set of characters that a scan looks for (or skips over).
#[derive(Clone, Copy)]
pub enum Class {
    Is(char),
    Space,
    Digit,
    UrlStop,
    /// any Unicode whitespace, line breaks included (what a regex `\s` matches)
    Blank,
}

/// Horizontal whitespace inside a line.
pub open spec fn is_space(c: char) -> bool {
    c == ' ' || c == '\t' || c == '\r'
}

/// The characters of Unicode's `White_Space` property.
pub open spec fn is_white(c: char) -> bool {
    ('\u{9}' <= c && c <= '\u{d}') || c == ' ' || c == '\u{85}' || c == '\u{a0}' || c == '\u{1680}'
        || ('\u{2000}' <= c && c <= '\u{200a}') || c == '\u{2028}' || c == '\u{2029}' || c
        == '\u{202f}' || c == '\u{205f}' || c == '\u{3000}'
}

pub open spec fn is_digit(c: char) -> bool {
    '0' <= c && c <= '9'
}

/// Letters, digits and the underscore (ASCII).
pub open spec fn is_word(c: char) -> bool {
    ('a' <= c && c <= 'z') || ('A' <= c && c <= 'Z') || is_digit(c) || c == '_'
}

pub open spec fn in_class(k: Class, c: char) -> bool {
    match k {
        Class::Is(d) => c == d,
        Class::Space => is_space(c),
        Class::Digit => is_digit(c),
        Class::UrlStop => is_space(c) || c == '\n' || c == '<' || c == '>' || c == '"',
        Class::Blank => is_white(c),
    }
}

pub fn class_has(k: Class, c: char) -> (r: bool)
    ensures
        r == in_class(k, c),
{
    match k {
        Class::Is(d) => c == d,
        Class::Space => c == ' ' || c == '\t' || c == '\r',
        Class::Digit => '0' <= c && c <= '9',
        Class::UrlStop => c == ' ' || c == '\t' || c == '\r' || c == '\n' || c == '<' || c == '>'
            || c == '"',
        Class::Blank => ('\u{9}' <= c && c <= '\u{d}') || c == ' ' || c == '\u{85}' || c
            == '\u{a0}' || c == '\u{1680}' || ('\u{2000}' <= c && c <= '\u{200a}') || c
            == '\u{2028}' || c == '\u{2029}' || c == '\u{202f}' || c == '\u{205f}' || c
            == '\u{3000}',
    }
}

pub fn word_char(c: char) -> (r: bool)
    ensures
        r == is_word(c),
{
    ('a' <= c && c <= 'z') || ('A' <= c && c <= 'Z') || ('0' <= c && c <= '9') || c == '_'
}

/// The first index at or after `from` whose character is (`want`) or is not
/// (`!want`) in class `k`; the length of `t` when there is none.
pub open spec fn scan(t: Seq<char>, from: int, k: Class, want: bool) -> int
    decreases t.len() - from,
{
    if from >= t.len() {
        t.len() as int
    } else if in_class(k, t[from]) == want {
        from
    } else {
        scan(t, from + 1, k, want)
    }
}

pub proof fn lemma_scan(t: Seq<char>, from: int, k: Class, want: bool)
    requires
        0 <= from <= t.len(),
    ensures
        from <= scan(t, from, k, want) <= t.len(),
        scan(t, from, k, want) < t.len() ==> in_class(k, t[scan(t, from, k, want)]) == want,
        forall|j: int| from <= j < scan(t, from, k, want) ==> in_class(k, #[trigger] t[j]) != want,
    decreases t.len() - from,
{
    if from < t.len() && in_class(k, t[from]) != want {
        lemma_scan(t, from + 1, k, want);
    }
}

pub fn scan_exec(t: &Vec<char>, from: usize, k: Class, want: bool) -> (r: usize)
    requires
        from <= t@.len(),
    ensures
        r == scan(t@, from as int, k, want),
        from <= r <= t@.len(),
{
    let mut i = from;
    while i < t.len() && class_has(k, t[i]) != want
        invariant
            from <= i <= t@.len(),
            scan(t@, from as int, k, want) == scan(t@, i as int, k, want),
        decreases t@.len() - i,
    {
        i = i + 1;
    }
    i
}

/// The character sequences of a vector of character vectors.
pub open spec fn vecs_view(v: Seq<Vec<char>>) -> Seq<Seq<char>> {
    v.map_values(|l: Vec<char>| l@)
}

/// Runs a step function from index `i` to the end of `t`, appending each
/// piece to `acc`. A step returns the piece and the index to go on from.
pub open spec fn run(
    t: Seq<char>,
    i: int,
    acc: Seq<char>,
    step: spec_fn(Seq<char>, int) -> (Seq<char>, int),
) -> Seq<char>
    decreases t.len() - i,
{
    if i < 0 || i >= t.len() {
        acc
    } else {
        let (piece, n) = step(t, i);
        if n <= i || n > t.len() {
            acc
        } else {
            run(t, n, acc + piece, step)
        }
    }
}

/// `p` occurs in `t` at index `i`.
pub open spec fn has_at(t: Seq<char>, i: int, p: Seq<char>) -> bool {
    0 <= i && i + p.len() <= t.len() && t.subrange(i, i + p.len()) == p
}

pub fn matches_at(t: &Vec<char>, i: usize, p: &str) -> (r: bool)
    ensures
        r == has_at(t@, i as int, p@),
{
    let pv = chars_of(p);
    if i > t.len() || pv.len() > t.len() - i {
        return false;
    }
    let tl = t.len();
    let mut k: usize = 0;
    while k < pv.len()
        invariant
            tl == t@.len(),
            k <= pv@.len(),
            pv@ == p@,
            i <= t@.len(),
            pv@.len() <= t@.len() - i,
            forall|j: int| 0 <= j < k ==> t@[i + j] == pv@[j],
        decreases pv@.len() - k,
    {
        if t[i + k] != pv[k] {
            assert(t@.subrange(i as int, i + pv@.len())[k as int] != p@[k as int]);
            return false;
        }
        k = k + 1;
    }
    assert(t@.subrange(i as int, i + pv@.len()) =~= p@);
    true
}

/// The first index at or after `from` where `p` occurs; the length of `t`
/// when there is none.
pub open spec fn find_seq(t: Seq<char>, from: int, p: Seq<char>) -> int
    decreases t.len() - from,
{
    if from >= t.len() {
        t.len() as int
    } else if has_at(t, from, p) {
        from
    } else {
        find_seq(t, from + 1, p)
    }
}

pub proof fn lemma_find_seq(t: Seq<char>, from: int, p: Seq<char>)
    requires
        0 <= from <= t.len(),
    ensures
        from <= find_seq(t, from, p) <= t.len(),
        find_seq(t, from, p) < t.len() ==> has_at(t, find_seq(t, from, p), p),
    decreases t.len() - from,
{
    if from < t.len() && !has_at(t, from, p) {
        lemma_find_seq(t, from + 1, p);
    }
}

pub fn find_seq_exec(t: &Vec<char>, from: usize, p: &str) -> (r: usize)
    requires
        from <= t@.len(),
    ensures
        r == find_seq(t@, from as int, p@),
        from <= r <= t@.len(),
{
    let mut i = from;
    while i < t.len() && !matches_at(t, i, p)
        invariant
            from <= i <= t@.len(),
            find_seq(t@, from as int, p@) == find_seq(t@, i as int, p@),
        decreases t@.len() - i,
    {
        i = i + 1;
    }
    i
}

/// Copies the characters of a string slice into a vector.
pub fn chars_of(s: &str) -> (r: Vec<char>)
    ensures
        r@ == s@,
{
    let mut it = s.chars();
    let mut r: Vec<char> = Vec::new();
    loop
        invariant
            it.remaining() == s@.skip(r@.len() as int),
            r@.len() <= s@.len(),
            r@ == s@.take(r@.len() as int),
        ensures
            r@ == s@,
        decreases s@.len() - r@.len(),
    {
        match it.next() {
            Some(c) => {
                assert(s@.take(r@.len() + 1 as int) =~= s@.take(r@.len() as int).push(c));
                r.push(c);
            },
            None => {
                assert(s@.take(r@.len() as int) =~= s@);
                break;
            },
        }
    }
    r
}

/// Appends the characters of `s` to `out`.
pub fn push_str(out: &mut Vec<char>, s: &str)
    ensures
        final(out)@ == old(out)@ + s@,
{
    let v = chars_of(s);
    push_range(out, &v, 0, v.len());
    assert(v@.subrange(0, v@.len() as int) =~= s@);
}

/// Appends `t[a..b]` to `out`.
pub fn push_range(out: &mut Vec<char>, t: &Vec<char>, a: usize, b: usize)
    requires
        a <= b <= t@.len(),
    ensures
        final(out)@ == old(out)@ + t@.subrange(a as int, b as int),
{
    let ghost start = out@;
    let mut k = a;
    while k < b
        invariant
            a <= k <= b <= t@.len(),
            out@ == start + t@.subrange(a as int, k as int),
        decreases b - k,
    {
        out.push(t[k]);
        k = k + 1;
        assert(out@ =~= start + t@.subrange(a as int, k as int));
    }
}

/// Appends all of `t` to `out`.
pub fn push_all(out: &mut Vec<char>, t: &Vec<char>)
    ensures
        final(out)@ == old(out)@ + t@,
{
    push_range(out, t, 0, t.len());
    assert(t@.subrange(0, t@.len() as int) =~= t@);
}

/// Relies on `String`'s `FromIterator<&char>`: the string holds exactly the
/// given characters, in order.
#[verifier::external_body]
pub(crate) fn string_of(v: &Vec<char>) -> (r: String)
    ensures
        r@ == v@,
{
    v.iter().collect()
}

} // verus!
