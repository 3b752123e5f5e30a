//! The inline pipeline: a fixed sequence of left-to-right passes over a
//! run of text, each replacing one kind of span markup by HTML.
use vstd::prelude::*;
use crate::text::{
    Class, is_word, scan, lemma_scan, scan_exec, has_at, matches_at, find_seq,
    lemma_find_seq, push_str, push_range, word_char, run,
};
use crate::refs::{RefDef, defs_view, lookup, lookup_exec, lower_of, fold_key};

verus! {

broadcast use vstd::string::group_string_axioms;

/// One pass of the inline pipeline.
#[derive(Clone, Copy)]
pub enum Pass {
    /// `![alt](src "title")`
    Image,
    /// `[text](url)`
    Link,
    /// `[text][key]`
    RefLink,
    /// bare `http://` and `https://` addresses
    Auto,
    /// a doubled delimiter: `**`, `__` (strong) or `~~` (deleted)
    Pair(char),
    /// a single `*` or `_` (emphasis)
    Em(char),
    /// `` `code` ``
    Code,
}

/// A character taken over as it is.
pub open spec fn keep(t: Seq<char>, i: int) -> (Seq<char>, int) {
    (seq![t[i]], i + 1)
}

pub open spec fn image_step(t: Seq<char>, i: int) -> (Seq<char>, int) {
    let a = scan(t, i + 2, Class::Is(']'), true);
    let b = scan(t, a + 2, Class::UrlStop, true);
    let b2 = scan(t, a + 2, Class::Is(')'), true);
    let e = if b < b2 { b } else { b2 };
    let c = scan(t, e + 2, Class::Is('"'), true);
    if !(has_at(t, i, "!["@) && a + 1 < t.len() && t[a + 1] == '(' && e > a + 2 && e < t.len()) {
        keep(t, i)
    } else if t[e] == ')' {
        (
            "<img alt=\""@ + t.subrange(i + 2, a) + "\" src=\""@ + t.subrange(a + 2, e) + "\">"@,
            e + 1,
        )
    } else if t[e] == ' ' && e + 1 < t.len() && t[e + 1] == '"' && c + 1 < t.len() && t[c + 1]
        == ')' {
        (
            "<img alt=\""@ + t.subrange(i + 2, a) + "\" src=\""@ + t.subrange(a + 2, e)
                + "\" title=\""@ + t.subrange(e + 2, c) + "\">"@,
            c + 2,
        )
    } else {
        keep(t, i)
    }
}

pub open spec fn link_step(t: Seq<char>, i: int) -> (Seq<char>, int) {
    let a = scan(t, i + 1, Class::Is(']'), true);
    let b = scan(t, a + 2, Class::Is(')'), true);
    if t[i] == '[' && a > i + 1 && a + 1 < t.len() && t[a + 1] == '(' && b > a + 2 && b < t.len() {
        ("<a href=\""@ + t.subrange(a + 2, b) + "\">"@ + t.subrange(i + 1, a) + "</a>"@, b + 1)
    } else {
        keep(t, i)
    }
}

pub open spec fn ref_step(t: Seq<char>, i: int, defs: Seq<(Seq<char>, Seq<char>)>) -> (
    Seq<char>,
    int,
) {
    let a = scan(t, i + 1, Class::Is(']'), true);
    let b = scan(t, a + 2, Class::Is(']'), true);
    if t[i] == '[' && a > i + 1 && a + 1 < t.len() && t[a + 1] == '[' && b > a + 2 && b < t.len() {
        match lookup(defs, lower_of(t.subrange(a + 2, b))) {
            Some(url) => ("<a href=\""@ + url + "\">"@ + t.subrange(i + 1, a) + "</a>"@, b + 1),
            None => (t.subrange(i, b + 1), b + 1),
        }
    } else {
        keep(t, i)
    }
}

/// An address starts here and is not the value of an attribute.
pub open spec fn auto_starts(t: Seq<char>, i: int) -> bool {
    (has_at(t, i, "http://"@) || has_at(t, i, "https://"@)) && (i == 0 || (t[i - 1] != '"' && t[i
        - 1] != '='))
}

pub open spec fn auto_step(t: Seq<char>, i: int) -> (Seq<char>, int) {
    let e = scan(t, i, Class::UrlStop, true);
    if auto_starts(t, i) {
        let u = t.subrange(i, e);
        ("<a href=\""@ + u + "\">"@ + u + "</a>"@, e)
    } else {
        keep(t, i)
    }
}

pub open spec fn pair_tag(d: char) -> Seq<char> {
    if d == '~' {
        "del"@
    } else {
        "strong"@
    }
}

pub open spec fn pair_step(t: Seq<char>, i: int, d: char) -> (Seq<char>, int) {
    let k = find_seq(t, i + 3, seq![d, d]);
    if has_at(t, i, seq![d, d]) && i + 3 <= t.len() && k < t.len() {
        (
            "<"@ + pair_tag(d) + ">"@ + t.subrange(i + 2, k) + "</"@ + pair_tag(d) + ">"@,
            k + 2,
        )
    } else {
        keep(t, i)
    }
}

/// A marker `c` at `k` may close emphasis: it is not doubled and no word
/// character follows it.
pub open spec fn em_closes(t: Seq<char>, k: int, c: char) -> bool {
    t[k] == c && t[k - 1] != c && (k + 1 == t.len() || (t[k + 1] != c && !is_word(t[k + 1])))
}

pub open spec fn em_close(t: Seq<char>, from: int, c: char) -> int
    decreases t.len() - from,
{
    if from >= t.len() {
        t.len() as int
    } else if em_closes(t, from, c) {
        from
    } else {
        em_close(t, from + 1, c)
    }
}

/// A marker `c` at `i` may open emphasis: no marker or word character
/// precedes it and it is not doubled.
pub open spec fn em_opens(t: Seq<char>, i: int, c: char) -> bool {
    t[i] == c && (i == 0 || (t[i - 1] != c && !is_word(t[i - 1]))) && i + 1 < t.len() && t[i + 1]
        != c
}

pub open spec fn em_step(t: Seq<char>, i: int, c: char) -> (Seq<char>, int) {
    let k = em_close(t, i + 2, c);
    if em_opens(t, i, c) && k < t.len() {
        ("<em>"@ + t.subrange(i + 1, k) + "</em>"@, k + 1)
    } else {
        keep(t, i)
    }
}

pub open spec fn code_step(t: Seq<char>, i: int) -> (Seq<char>, int) {
    let k = scan(t, i + 1, Class::Is('`'), true);
    if t[i] == '`' && k > i + 1 && k < t.len() {
        ("<code>"@ + t.subrange(i + 1, k) + "</code>"@, k + 1)
    } else {
        keep(t, i)
    }
}

pub open spec fn step_spec(p: Pass, defs: Seq<(Seq<char>, Seq<char>)>, t: Seq<char>, i: int) -> (
    Seq<char>,
    int,
) {
    match p {
        Pass::Image => image_step(t, i),
        Pass::Link => link_step(t, i),
        Pass::RefLink => ref_step(t, i, defs),
        Pass::Auto => auto_step(t, i),
        Pass::Pair(d) => pair_step(t, i, d),
        Pass::Em(c) => em_step(t, i, c),
        Pass::Code => code_step(t, i),
    }
}

pub open spec fn step_of(p: Pass, defs: Seq<(Seq<char>, Seq<char>)>) -> spec_fn(Seq<char>, int) -> (
    Seq<char>,
    int,
) {
    |t: Seq<char>, i: int| step_spec(p, defs, t, i)
}

/// The text after one pass.
pub open spec fn pass_spec(p: Pass, defs: Seq<(Seq<char>, Seq<char>)>, t: Seq<char>) -> Seq<char> {
    run(t, 0, seq![], step_of(p, defs))
}

/// The whole inline pipeline, in its fixed order: images, links, reference
/// links, addresses, strong, emphasis, deleted text, code.
pub open spec fn inline_spec(t: Seq<char>, defs: Seq<(Seq<char>, Seq<char>)>) -> Seq<char> {
    let t1 = pass_spec(Pass::Image, defs, t);
    let t2 = pass_spec(Pass::Link, defs, t1);
    let t3 = pass_spec(Pass::RefLink, defs, t2);
    let t4 = pass_spec(Pass::Auto, defs, t3);
    let t5 = pass_spec(Pass::Pair('*'), defs, t4);
    let t6 = pass_spec(Pass::Pair('_'), defs, t5);
    let t7 = pass_spec(Pass::Em('*'), defs, t6);
    let t8 = pass_spec(Pass::Em('_'), defs, t7);
    let t9 = pass_spec(Pass::Pair('~'), defs, t8);
    pass_spec(Pass::Code, defs, t9)
}

fn keep_exec(t: &Vec<char>, i: usize, out: &mut Vec<char>) -> (n: usize)
    requires
        i < t@.len(),
    ensures
        final(out)@ == old(out)@ + keep(t@, i as int).0,
        n == keep(t@, i as int).1,
{
    let len = t.len();
    out.push(t[i]);
    assert(final(out)@ =~= old(out)@ + seq![t@[i as int]]);
    i + 1
}

fn image_exec(t: &Vec<char>, i: usize, out: &mut Vec<char>) -> (n: usize)
    requires
        i < t@.len(),
    ensures
        final(out)@ == old(out)@ + image_step(t@, i as int).0,
        n == image_step(t@, i as int).1,
{
    let ghost s = t@;
    let len = t.len();
    if !matches_at(t, i, "![") {
        return keep_exec(t, i, out);
    }
    proof {
        reveal_strlit("![");
    }
    let a = scan_exec(t, i + 2, Class::Is(']'), true);
    if a >= len - 1 || t[a + 1] != '(' {
        return keep_exec(t, i, out);
    }
    let b = scan_exec(t, a + 2, Class::UrlStop, true);
    let b2 = scan_exec(t, a + 2, Class::Is(')'), true);
    let e = if b < b2 {
        b
    } else {
        b2
    };
    if e <= a + 2 || e >= len {
        return keep_exec(t, i, out);
    }
    proof {
        lemma_scan(s, a + 2, Class::UrlStop, true);
        lemma_scan(s, a + 2, Class::Is(')'), true);
    }
    if t[e] == ')' {
        push_str(out, "<img alt=\"");
        push_range(out, t, i + 2, a);
        push_str(out, "\" src=\"");
        push_range(out, t, a + 2, e);
        push_str(out, "\">");
        assert(final(out)@ =~= old(out)@ + image_step(s, i as int).0);
        return e + 1;
    }
    if t[e] != ' ' || e + 1 >= len || t[e + 1] != '"' {
        return keep_exec(t, i, out);
    }
    let c = scan_exec(t, e + 2, Class::Is('"'), true);
    if c >= len - 1 || t[c + 1] != ')' {
        return keep_exec(t, i, out);
    }
    push_str(out, "<img alt=\"");
    push_range(out, t, i + 2, a);
    push_str(out, "\" src=\"");
    push_range(out, t, a + 2, e);
    push_str(out, "\" title=\"");
    push_range(out, t, e + 2, c);
    push_str(out, "\">");
    assert(final(out)@ =~= old(out)@ + image_step(s, i as int).0);
    c + 2
}

fn link_exec(t: &Vec<char>, i: usize, out: &mut Vec<char>) -> (n: usize)
    requires
        i < t@.len(),
    ensures
        final(out)@ == old(out)@ + link_step(t@, i as int).0,
        n == link_step(t@, i as int).1,
{
    let len = t.len();
    if t[i] != '[' {
        return keep_exec(t, i, out);
    }
    let a = scan_exec(t, i + 1, Class::Is(']'), true);
    if a <= i + 1 || a >= len - 1 || t[a + 1] != '(' {
        return keep_exec(t, i, out);
    }
    let b = scan_exec(t, a + 2, Class::Is(')'), true);
    if b <= a + 2 || b >= len {
        return keep_exec(t, i, out);
    }
    push_str(out, "<a href=\"");
    push_range(out, t, a + 2, b);
    push_str(out, "\">");
    push_range(out, t, i + 1, a);
    push_str(out, "</a>");
    assert(final(out)@ =~= old(out)@ + link_step(t@, i as int).0);
    b + 1
}

fn ref_exec(t: &Vec<char>, i: usize, defs: &Vec<RefDef>, out: &mut Vec<char>) -> (n: usize)
    requires
        i < t@.len(),
    ensures
        final(out)@ == old(out)@ + ref_step(t@, i as int, defs_view(defs@)).0,
        n == ref_step(t@, i as int, defs_view(defs@)).1,
{
    let len = t.len();
    if t[i] != '[' {
        return keep_exec(t, i, out);
    }
    let a = scan_exec(t, i + 1, Class::Is(']'), true);
    if a <= i + 1 || a >= len - 1 || t[a + 1] != '[' {
        return keep_exec(t, i, out);
    }
    let b = scan_exec(t, a + 2, Class::Is(']'), true);
    if b <= a + 2 || b >= len {
        return keep_exec(t, i, out);
    }
    let mut key: Vec<char> = Vec::new();
    push_range(&mut key, t, a + 2, b);
    assert(key@ =~= t@.subrange(a + 2, b as int));
    let folded = fold_key(&key);
    match lookup_exec(defs, &folded) {
        Some(url) => {
            push_str(out, "<a href=\"");
            push_range(out, &url, 0, url.len());
            push_str(out, "\">");
            push_range(out, t, i + 1, a);
            push_str(out, "</a>");
            assert(url@.subrange(0, url@.len() as int) =~= url@);
        },
        None => {
            push_range(out, t, i, b + 1);
        },
    }
    assert(final(out)@ =~= old(out)@ + ref_step(t@, i as int, defs_view(defs@)).0);
    b + 1
}

fn auto_exec(t: &Vec<char>, i: usize, out: &mut Vec<char>) -> (n: usize)
    requires
        i < t@.len(),
    ensures
        final(out)@ == old(out)@ + auto_step(t@, i as int).0,
        n == auto_step(t@, i as int).1,
{
    let starts = (matches_at(t, i, "http://") || matches_at(t, i, "https://")) && (i == 0 || (t[i
        - 1] != '"' && t[i - 1] != '='));
    if !starts {
        return keep_exec(t, i, out);
    }
    let e = scan_exec(t, i, Class::UrlStop, true);
    push_str(out, "<a href=\"");
    push_range(out, t, i, e);
    push_str(out, "\">");
    push_range(out, t, i, e);
    push_str(out, "</a>");
    assert(final(out)@ =~= old(out)@ + auto_step(t@, i as int).0);
    e
}

fn pair_exec(t: &Vec<char>, i: usize, d: char, out: &mut Vec<char>) -> (n: usize)
    requires
        i < t@.len(),
    ensures
        final(out)@ == old(out)@ + pair_step(t@, i as int, d).0,
        n == pair_step(t@, i as int, d).1,
{
    let len = t.len();
    if len < 3 || i > len - 3 || t[i] != d || t[i + 1] != d {
        assert(!has_at(t@, i as int, seq![d, d]) || i + 3 > t@.len()) by {
            if has_at(t@, i as int, seq![d, d]) {
                assert(t@.subrange(i as int, i + 2)[0] == d);
                assert(t@.subrange(i as int, i + 2)[1] == d);
            }
        }
        return keep_exec(t, i, out);
    }
    assert(t@.subrange(i as int, i + 2) =~= seq![d, d]);
    let mut k = i + 3;
    while k < len && !(t[k] == d && k + 1 < len && t[k + 1] == d)
        invariant
            i + 3 <= k <= len,
            len == t@.len(),
            find_seq(t@, i + 3, seq![d, d]) == find_seq(t@, k as int, seq![d, d]),
        decreases len - k,
    {
        assert(!has_at(t@, k as int, seq![d, d])) by {
            if has_at(t@, k as int, seq![d, d]) {
                assert(t@.subrange(k as int, k + 2)[0] == d);
                assert(t@.subrange(k as int, k + 2)[1] == d);
            }
        }
        k = k + 1;
    }
    if k >= len {
        return keep_exec(t, i, out);
    }
    assert(t@.subrange(k as int, k + 2) =~= seq![d, d]);
    let tag = if d == '~' {
        "del"
    } else {
        "strong"
    };
    push_str(out, "<");
    push_str(out, tag);
    push_str(out, ">");
    push_range(out, t, i + 2, k);
    push_str(out, "</");
    push_str(out, tag);
    push_str(out, ">");
    assert(final(out)@ =~= old(out)@ + pair_step(t@, i as int, d).0);
    k + 2
}

fn em_close_exec(t: &Vec<char>, from: usize, c: char) -> (r: usize)
    requires
        1 <= from <= t@.len(),
    ensures
        r == em_close(t@, from as int, c),
        from <= r <= t@.len(),
{
    let len = t.len();
    let mut k = from;
    while k < len && !(t[k] == c && t[k - 1] != c && (k + 1 == len || (t[k + 1] != c
        && !word_char(t[k + 1]))))
        invariant
            1 <= from <= k <= len,
            len == t@.len(),
            em_close(t@, from as int, c) == em_close(t@, k as int, c),
        decreases len - k,
    {
        k = k + 1;
    }
    k
}

fn em_exec(t: &Vec<char>, i: usize, c: char, out: &mut Vec<char>) -> (n: usize)
    requires
        i < t@.len(),
    ensures
        final(out)@ == old(out)@ + em_step(t@, i as int, c).0,
        n == em_step(t@, i as int, c).1,
{
    let len = t.len();
    let opens = t[i] == c && (i == 0 || (t[i - 1] != c && !word_char(t[i - 1]))) && i + 1 < len
        && t[i + 1] != c;
    if !opens {
        return keep_exec(t, i, out);
    }
    let k = em_close_exec(t, i + 2, c);
    if k >= len {
        return keep_exec(t, i, out);
    }
    push_str(out, "<em>");
    push_range(out, t, i + 1, k);
    push_str(out, "</em>");
    assert(final(out)@ =~= old(out)@ + em_step(t@, i as int, c).0);
    k + 1
}

fn code_exec(t: &Vec<char>, i: usize, out: &mut Vec<char>) -> (n: usize)
    requires
        i < t@.len(),
    ensures
        final(out)@ == old(out)@ + code_step(t@, i as int).0,
        n == code_step(t@, i as int).1,
{
    let len = t.len();
    if t[i] != '`' {
        return keep_exec(t, i, out);
    }
    let k = scan_exec(t, i + 1, Class::Is('`'), true);
    if k <= i + 1 || k >= len {
        return keep_exec(t, i, out);
    }
    push_str(out, "<code>");
    push_range(out, t, i + 1, k);
    push_str(out, "</code>");
    assert(final(out)@ =~= old(out)@ + code_step(t@, i as int).0);
    k + 1
}

fn step_exec(p: Pass, t: &Vec<char>, i: usize, defs: &Vec<RefDef>, out: &mut Vec<char>) -> (n:
    usize)
    requires
        i < t@.len(),
    ensures
        final(out)@ == old(out)@ + step_spec(p, defs_view(defs@), t@, i as int).0,
        n == step_spec(p, defs_view(defs@), t@, i as int).1,
        i < n <= t@.len(),
{
    proof {
        reveal_strlit("http://");
        reveal_strlit("https://");
    }
    let n = match p {
        Pass::Image => image_exec(t, i, out),
        Pass::Link => link_exec(t, i, out),
        Pass::RefLink => ref_exec(t, i, defs, out),
        Pass::Auto => auto_exec(t, i, out),
        Pass::Pair(d) => pair_exec(t, i, d, out),
        Pass::Em(c) => em_exec(t, i, c, out),
        Pass::Code => code_exec(t, i, out),
    };
    proof {
        lemma_step_advances(p, defs_view(defs@), t@, i as int);
    }
    n
}

/// Every step moves forward and stays within the text.
pub proof fn lemma_step_advances(p: Pass, defs: Seq<(Seq<char>, Seq<char>)>, t: Seq<char>, i: int)
    requires
        0 <= i < t.len(),
    ensures
        i < step_spec(p, defs, t, i).1 <= t.len(),
{
    reveal_strlit("http://");
    reveal_strlit("https://");
    reveal_strlit("![");
    match p {
        Pass::Image => {
            let a = scan(t, i + 2, Class::Is(']'), true);
            if has_at(t, i, "!["@) {
                lemma_scan(t, i + 2, Class::Is(']'), true);
                if a + 1 < t.len() {
                    lemma_scan(t, a + 2, Class::UrlStop, true);
                    lemma_scan(t, a + 2, Class::Is(')'), true);
                    let b = scan(t, a + 2, Class::UrlStop, true);
                    let b2 = scan(t, a + 2, Class::Is(')'), true);
                    let e = if b < b2 { b } else { b2 };
                    if e + 1 < t.len() {
                        lemma_scan(t, e + 2, Class::Is('"'), true);
                    }
                }
            }
        },
        Pass::Link => {
            lemma_scan(t, i + 1, Class::Is(']'), true);
            let a = scan(t, i + 1, Class::Is(']'), true);
            if a + 1 < t.len() {
                lemma_scan(t, a + 2, Class::Is(')'), true);
            }
        },
        Pass::RefLink => {
            lemma_scan(t, i + 1, Class::Is(']'), true);
            let a = scan(t, i + 1, Class::Is(']'), true);
            if a + 1 < t.len() {
                lemma_scan(t, a + 2, Class::Is(']'), true);
            }
        },
        Pass::Auto => {
            lemma_scan(t, i, Class::UrlStop, true);
            if auto_starts(t, i) {
                assert(t[i] == 'h') by {
                    if has_at(t, i, "http://"@) {
                        assert(t.subrange(i, i + 7)[0] == 'h');
                    } else {
                        assert(t.subrange(i, i + 8)[0] == 'h');
                    }
                }
            }
        },
        Pass::Pair(d) => {
            if i + 3 <= t.len() {
                lemma_find_seq(t, i + 3, seq![d, d]);
            }
        },
        Pass::Em(c) => {
            if i + 2 <= t.len() {
                lemma_em_close(t, i + 2, c);
            }
        },
        Pass::Code => {
            lemma_scan(t, i + 1, Class::Is('`'), true);
        },
    }
}

pub proof fn lemma_em_close(t: Seq<char>, from: int, c: char)
    requires
        0 <= from <= t.len(),
    ensures
        from <= em_close(t, from, c) <= t.len(),
    decreases t.len() - from,
{
    if from < t.len() && !em_closes(t, from, c) {
        lemma_em_close(t, from + 1, c);
    }
}

/// Runs one pass over `t`.
pub fn run_pass(p: Pass, t: &Vec<char>, defs: &Vec<RefDef>) -> (r: Vec<char>)
    ensures
        r@ == pass_spec(p, defs_view(defs@), t@),
{
    let ghost step = step_of(p, defs_view(defs@));
    let mut out: Vec<char> = Vec::new();
    let mut i: usize = 0;
    while i < t.len()
        invariant
            i <= t@.len(),
            step == step_of(p, defs_view(defs@)),
            run(t@, i as int, out@, step) == pass_spec(p, defs_view(defs@), t@),
        decreases t@.len() - i,
    {
        let ghost before = out@;
        let n = step_exec(p, t, i, defs, &mut out);
        assert(step(t@, i as int) == step_spec(p, defs_view(defs@), t@, i as int));
        assert(run(t@, i as int, before, step) == run(t@, n as int, out@, step));
        i = n;
    }
    out
}

/// Renders the span markup of a run of text.
pub fn inline_exec(t: &Vec<char>, defs: &Vec<RefDef>) -> (r: Vec<char>)
    ensures
        r@ == inline_spec(t@, defs_view(defs@)),
{
    let t1 = run_pass(Pass::Image, t, defs);
    let t2 = run_pass(Pass::Link, &t1, defs);
    let t3 = run_pass(Pass::RefLink, &t2, defs);
    let t4 = run_pass(Pass::Auto, &t3, defs);
    let t5 = run_pass(Pass::Pair('*'), &t4, defs);
    let t6 = run_pass(Pass::Pair('_'), &t5, defs);
    let t7 = run_pass(Pass::Em('*'), &t6, defs);
    let t8 = run_pass(Pass::Em('_'), &t7, defs);
    let t9 = run_pass(Pass::Pair('~'), &t8, defs);
    run_pass(Pass::Code, &t9, defs)
}

/// Text that holds none of the characters that begin inline markup and no
/// web address.
pub open spec fn plain(t: Seq<char>) -> bool {
    &&& forall|j: int|
        0 <= j < t.len() ==> #[trigger] t[j] != '!' && t[j] != '[' && t[j] != '*' && t[j] != '_'
            && t[j] != '~' && t[j] != '`'
    &&& forall|j: int| !#[trigger] has_at(t, j, "http://"@) && !has_at(t, j, "https://"@)
}

proof fn lemma_run_keeps(
    t: Seq<char>,
    i: int,
    acc: Seq<char>,
    step: spec_fn(Seq<char>, int) -> (Seq<char>, int),
)
    requires
        0 <= i <= t.len(),
        forall|j: int| i <= j < t.len() ==> #[trigger] step(t, j) == keep(t, j),
    ensures
        run(t, i, acc, step) == acc + t.subrange(i, t.len() as int),
    decreases t.len() - i,
{
    if i < t.len() {
        assert(step(t, i) == keep(t, i));
        lemma_run_keeps(t, i + 1, acc + seq![t[i]], step);
        assert(acc + seq![t[i]] + t.subrange(i + 1, t.len() as int) =~= acc + t.subrange(
            i,
            t.len() as int,
        ));
    } else {
        assert(acc + t.subrange(i, t.len() as int) =~= acc);
    }
}

proof fn lemma_pass_keeps_plain(p: Pass, defs: Seq<(Seq<char>, Seq<char>)>, t: Seq<char>)
    requires
        plain(t),
        match p {
            Pass::Pair(d) => d == '*' || d == '_' || d == '~',
            Pass::Em(c) => c == '*' || c == '_',
            _ => true,
        },
    ensures
        pass_spec(p, defs, t) == t,
{
    reveal_strlit("![");
    assert forall|j: int| 0 <= j < t.len() implies #[trigger] step_of(p, defs)(t, j) == keep(
        t,
        j,
    ) by {
        assert(t[j] != '!' && t[j] != '[');
        match p {
            Pass::Image => {
                if has_at(t, j, "!["@) {
                    assert(t.subrange(j, j + 2)[0] == t[j]);
                }
            },
            Pass::Pair(d) => {
                if has_at(t, j, seq![d, d]) {
                    assert(t.subrange(j, j + 2)[0] == t[j]);
                }
            },
            Pass::Auto => {
                assert(!has_at(t, j, "http://"@));
            },
            _ => {},
        }
    }
    lemma_run_keeps(t, 0, seq![], step_of(p, defs));
    assert(Seq::<char>::empty() + t.subrange(0, t.len() as int) =~= t);
}

/// Plain text comes out of the inline pipeline as it went in.
pub proof fn plain_text_unchanged(t: Seq<char>, defs: Seq<(Seq<char>, Seq<char>)>)
    requires
        plain(t),
    ensures
        inline_spec(t, defs) == t,
{
    lemma_pass_keeps_plain(Pass::Image, defs, t);
    lemma_pass_keeps_plain(Pass::Link, defs, t);
    lemma_pass_keeps_plain(Pass::RefLink, defs, t);
    lemma_pass_keeps_plain(Pass::Auto, defs, t);
    lemma_pass_keeps_plain(Pass::Pair('*'), defs, t);
    lemma_pass_keeps_plain(Pass::Pair('_'), defs, t);
    lemma_pass_keeps_plain(Pass::Em('*'), defs, t);
    lemma_pass_keeps_plain(Pass::Em('_'), defs, t);
    lemma_pass_keeps_plain(Pass::Pair('~'), defs, t);
    lemma_pass_keeps_plain(Pass::Code, defs, t);
}

} // verus!
