//! Whitespace in finished HTML, for editors that keep line breaks literally.
use vstd::prelude::*;
use crate::text::{
    run, Class, scan, scan_exec, has_at, matches_at, find_seq, lemma_find_seq,
    find_seq_exec, chars_of, push_str, push_range, push_all, string_of,
};

verus! {

broadcast use vstd::string::group_string_axioms;

/// Whitespace between a `>` and the next `<` goes.
pub open spec fn collapse_step(t: Seq<char>, i: int) -> (Seq<char>, int) {
    let j = scan(t, i + 1, Class::Blank, false);
    if t[i] == '>' && j > i + 1 && j < t.len() && t[j] == '<' {
        (seq!['>'], j)
    } else {
        (seq![t[i]], i + 1)
    }
}

/// A line break becomes a space.
pub open spec fn newline_step(t: Seq<char>, i: int) -> (Seq<char>, int) {
    if t[i] == '\n' {
        (seq![' '], i + 1)
    } else {
        (seq![t[i]], i + 1)
    }
}

pub open spec fn collapse_fn() -> spec_fn(Seq<char>, int) -> (Seq<char>, int) {
    |t: Seq<char>, i: int| collapse_step(t, i)
}

pub open spec fn newline_fn() -> spec_fn(Seq<char>, int) -> (Seq<char>, int) {
    |t: Seq<char>, i: int| newline_step(t, i)
}

/// The HTML with the whitespace between tags removed, then every remaining
/// line break turned into a space.
pub open spec fn normalized(t: Seq<char>) -> Seq<char> {
    run(run(t, 0, seq![], collapse_fn()), 0, seq![], newline_fn())
}

fn collapse(t: &Vec<char>) -> (r: Vec<char>)
    ensures
        r@ == run(t@, 0, seq![], collapse_fn()),
{
    let mut out: Vec<char> = Vec::new();
    let mut i: usize = 0;
    let len = t.len();
    while i < len
        invariant
            i <= len,
            len == t@.len(),
            run(t@, i as int, out@, collapse_fn()) == run(t@, 0, seq![], collapse_fn()),
        decreases len - i,
    {
        let ghost before = out@;
        let j = scan_exec(t, i + 1, Class::Blank, false);
        let n = if t[i] == '>' && j > i + 1 && j < len && t[j] == '<' {
            out.push('>');
            j
        } else {
            out.push(t[i]);
            i + 1
        };
        assert(collapse_fn()(t@, i as int) == collapse_step(t@, i as int));
        assert(out@ =~= before + collapse_step(t@, i as int).0);
        i = n;
    }
    out
}

/// Removes whitespace between tags and turns the remaining line breaks of
/// the text into spaces.
pub fn normalize_whitespace(html: &str) -> (r: String)
    ensures
        r@ == normalized(html@),
{
    let t = collapse(&chars_of(html));
    let mut out: Vec<char> = Vec::new();
    let mut i: usize = 0;
    while i < t.len()
        invariant
            i <= t@.len(),
            run(t@, i as int, out@, newline_fn()) == run(t@, 0, seq![], newline_fn()),
        decreases t@.len() - i,
    {
        let ghost before = out@;
        if t[i] == '\n' {
            out.push(' ');
        } else {
            out.push(t[i]);
        }
        assert(newline_fn()(t@, i as int) == newline_step(t@, i as int));
        assert(out@ =~= before + newline_step(t@, i as int).0);
        i = i + 1;
    }
    string_of(&out)
}

/// `s` with each line break written as `<br>`.
pub open spec fn br_go(s: Seq<char>, k: int, acc: Seq<char>) -> Seq<char>
    decreases s.len() - k,
{
    if k < 0 || k >= s.len() {
        acc
    } else if s[k] == '\n' {
        br_go(s, k + 1, acc + "<br>"@)
    } else {
        br_go(s, k + 1, acc.push(s[k]))
    }
}

pub open spec fn with_br(s: Seq<char>) -> Seq<char> {
    br_go(s, 0, seq![])
}

/// A code block at `i`: `<pre...>` directly followed by `<code...>`, its
/// content, and `</code></pre>`. Gives the end of the opening tags and the
/// start of the closing ones.
pub open spec fn code_block_at(t: Seq<char>, i: int) -> Option<(int, int)> {
    let a = scan(t, i + 4, Class::Is('>'), true);
    let b = scan(t, a + 6, Class::Is('>'), true);
    let c = find_seq(t, b + 1, "</code></pre>"@);
    if has_at(t, i, "<pre"@) && a < t.len() && has_at(t, a + 1, "<code"@) && b < t.len() && c
        < t.len() {
        Some((b + 1, c))
    } else {
        None
    }
}

/// Content that ends in `<br></span>` loses that last `<br>`: the break
/// that the closing fence leaves inside a highlighted span.
pub open spec fn drop_final_br(s: Seq<char>) -> Seq<char> {
    if s.len() >= 11 && s.subrange(s.len() - 11, s.len() as int) == "<br></span>"@ {
        s.subrange(0, s.len() - 11) + "</span>"@
    } else {
        s
    }
}

pub open spec fn code_br_step(t: Seq<char>, i: int) -> (Seq<char>, int) {
    match code_block_at(t, i) {
        Some((s, c)) => (
            t.subrange(i, s) + drop_final_br(with_br(t.subrange(s, c))) + "</code></pre>"@,
            c + 13,
        ),
        None => (seq![t[i]], i + 1),
    }
}

pub open spec fn code_br_fn() -> spec_fn(Seq<char>, int) -> (Seq<char>, int) {
    |t: Seq<char>, i: int| code_br_step(t, i)
}

/// The HTML with the line breaks inside code blocks written as `<br>`,
/// less a final `<br>` directly before a closing `</span>`.
pub open spec fn code_br(t: Seq<char>) -> Seq<char> {
    run(t, 0, seq![], code_br_fn())
}

fn push_with_br(out: &mut Vec<char>, t: &Vec<char>, a: usize, b: usize)
    requires
        a <= b <= t@.len(),
    ensures
        final(out)@ == old(out)@ + with_br(t@.subrange(a as int, b as int)),
{
    let ghost s = t@.subrange(a as int, b as int);
    let ghost start = out@;
    let mut k = a;
    proof {
        lemma_br_acc(s, 0, seq![], start);
        assert(start + Seq::<char>::empty() =~= start);
    }
    while k < b
        invariant
            a <= k <= b <= t@.len(),
            s == t@.subrange(a as int, b as int),
            start + br_go(s, 0, seq![]) == br_go(s, k - a, out@),
        decreases b - k,
    {
        assert(s[k - a] == t@[k as int]);
        if t[k] == '\n' {
            push_str(out, "<br>");
        } else {
            out.push(t[k]);
        }
        k = k + 1;
    }
}

proof fn lemma_br_acc(s: Seq<char>, k: int, acc: Seq<char>, pre: Seq<char>)
    requires
        0 <= k <= s.len(),
    ensures
        br_go(s, k, pre + acc) == pre + br_go(s, k, acc),
    decreases s.len() - k,
{
    if k < s.len() {
        if s[k] == '\n' {
            lemma_br_acc(s, k + 1, acc + "<br>"@, pre);
            assert(pre + acc + "<br>"@ =~= pre + (acc + "<br>"@));
        } else {
            lemma_br_acc(s, k + 1, acc.push(s[k]), pre);
            assert((pre + acc).push(s[k]) =~= pre + acc.push(s[k]));
        }
    }
}

fn code_br_exec(t: &Vec<char>, i: usize, out: &mut Vec<char>) -> (n: usize)
    requires
        i < t@.len(),
    ensures
        final(out)@ == old(out)@ + code_br_step(t@, i as int).0,
        n == code_br_step(t@, i as int).1,
        i < n <= t@.len(),
{
    let len = t.len();
    proof {
        reveal_strlit("<pre");
        reveal_strlit("<code");
        reveal_strlit("</code></pre>");
    }
    if matches_at(t, i, "<pre") {
        let a = scan_exec(t, i + 4, Class::Is('>'), true);
        if a < len && matches_at(t, a + 1, "<code") {
            let b = scan_exec(t, a + 6, Class::Is('>'), true);
            if b < len {
                let c = find_seq_exec(t, b + 1, "</code></pre>");
                if c < len {
                    proof {
                        lemma_find_seq(t@, b + 1, "</code></pre>"@);
                    }
                    push_range(out, t, i, b + 1);
                    let mut body: Vec<char> = Vec::new();
                    push_with_br(&mut body, t, b + 1, c);
                    assert(body@ =~= with_br(t@.subrange(b + 1, c as int)));
                    let m = body.len();
                    proof {
                        reveal_strlit("<br></span>");
                    }
                    if m >= 11 && matches_at(&body, m - 11, "<br></span>") {
                        push_range(out, &body, 0, m - 11);
                        push_str(out, "</span>");
                    } else {
                        push_all(out, &body);
                    }
                    push_str(out, "</code></pre>");
                    assert(final(out)@ =~= old(out)@ + code_br_step(t@, i as int).0);
                    return c + 13;
                }
            }
        }
    }
    out.push(t[i]);
    assert(final(out)@ =~= old(out)@ + code_br_step(t@, i as int).0);
    i + 1
}

/// Writes the line breaks inside code blocks as `<br>`, so that editors
/// that drop plain line breaks keep the lines of the code apart; a `<br>`
/// left directly before a closing `</span>` at the end of a block goes.
pub fn convert_code_block_newlines(html: &str) -> (r: String)
    ensures
        r@ == code_br(html@),
{
    let t = chars_of(html);
    let mut out: Vec<char> = Vec::new();
    let mut i: usize = 0;
    while i < t.len()
        invariant
            i <= t@.len(),
            t@ == html@,
            run(t@, i as int, out@, code_br_fn()) == code_br(html@),
        decreases t@.len() - i,
    {
        let n = code_br_exec(&t, i, &mut out);
        assert(code_br_fn()(t@, i as int) == code_br_step(t@, i as int));
        i = n;
    }
    string_of(&out)
}

} // verus!
