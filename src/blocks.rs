//! The block pipeline: fixed passes over the lines of a document, each
//! turning the lines it recognises into finished HTML blocks.
use vstd::prelude::*;
use crate::text::{
    Class, is_space, scan, scan_exec, has_at, matches_at, push_str, push_range,
    push_all, vecs_view,
};
use crate::refs::{RefDef, defs_view};
use crate::inline::{inline_spec, inline_exec};

verus! {

broadcast use vstd::string::group_string_axioms;

/// A line of the document, or a block that a pass has already rendered.
pub struct Item {
    pub done: bool,
    pub text: Vec<char>,
}

pub open spec fn items_view(v: Seq<Item>) -> Seq<(bool, Seq<char>)> {
    v.map_values(|x: Item| (x.done, x.text@))
}

/// The length of `t[..j]` without its trailing spaces.
pub open spec fn trim_end_len(t: Seq<char>, j: int) -> int
    decreases j,
{
    if j <= 0 {
        0
    } else if is_space(t[j - 1]) {
        trim_end_len(t, j - 1)
    } else {
        j
    }
}

/// `t` without leading and trailing spaces.
pub open spec fn trim(t: Seq<char>) -> Seq<char> {
    let a = scan(t, 0, Class::Space, false);
    let b = trim_end_len(t, t.len() as int);
    if b <= a {
        seq![]
    } else {
        t.subrange(a, b)
    }
}

pub proof fn lemma_trim_end_len(t: Seq<char>, j: int)
    requires
        0 <= j <= t.len(),
    ensures
        0 <= trim_end_len(t, j) <= j,
        trim_end_len(t, j) > 0 ==> !is_space(t[trim_end_len(t, j) - 1]),
    decreases j,
{
    if j > 0 && is_space(t[j - 1]) {
        lemma_trim_end_len(t, j - 1);
    }
}

pub fn trim_exec(t: &Vec<char>) -> (r: Vec<char>)
    ensures
        r@ == trim(t@),
{
    let a = scan_exec(t, 0, Class::Space, false);
    let mut b = t.len();
    while b > 0 && (t[b - 1] == ' ' || t[b - 1] == '\t' || t[b - 1] == '\r')
        invariant
            b <= t@.len(),
            trim_end_len(t@, t@.len() as int) == trim_end_len(t@, b as int),
        decreases b,
    {
        b = b - 1;
    }
    let mut r: Vec<char> = Vec::new();
    if b > a {
        push_range(&mut r, t, a, b);
    }
    r
}

/// The pieces of `t` between separators `sep`, from index `i` on; `cur` is
/// the piece being gathered.
pub open spec fn split_go(t: Seq<char>, sep: char, i: int, cur: Seq<char>, acc: Seq<Seq<char>>) -> Seq<
    Seq<char>,
>
    decreases t.len() - i,
{
    if i < 0 || i >= t.len() {
        acc.push(cur)
    } else if t[i] == sep {
        split_go(t, sep, i + 1, seq![], acc.push(cur))
    } else {
        split_go(t, sep, i + 1, cur.push(t[i]), acc)
    }
}

pub open spec fn split(t: Seq<char>, sep: char) -> Seq<Seq<char>> {
    split_go(t, sep, 0, seq![], seq![])
}

pub fn split_exec(t: &Vec<char>, sep: char) -> (r: Vec<Vec<char>>)
    ensures
        vecs_view(r@) == split(t@, sep),
{
    let mut acc: Vec<Vec<char>> = Vec::new();
    let mut cur: Vec<char> = Vec::new();
    let mut i: usize = 0;
    assert(vecs_view(acc@) =~= seq![]);
    while i < t.len()
        invariant
            i <= t@.len(),
            split_go(t@, sep, i as int, cur@, vecs_view(acc@)) == split(t@, sep),
        decreases t@.len() - i,
    {
        if t[i] == sep {
            let ghost before = acc@;
            let piece = cur;
            cur = Vec::new();
            acc.push(piece);
            assert(vecs_view(acc@) =~= vecs_view(before).push(piece@));
            assert(cur@ =~= seq![]);
        } else {
            cur.push(t[i]);
        }
        i = i + 1;
    }
    let ghost before = acc@;
    let last = cur;
    acc.push(last);
    assert(vecs_view(acc@) =~= vecs_view(before).push(last@));
    acc
}

/// A quoted line without its `>` and one space after it.
pub open spec fn unquote(t: Seq<char>) -> Seq<char> {
    if t.len() > 1 && t[1] == ' ' {
        t.subrange(2, t.len() as int)
    } else if t.len() > 0 {
        t.subrange(1, t.len() as int)
    } else {
        t
    }
}

/// The texts of items `a..b`, unquoted when `quoted`, joined by `sep`.
pub open spec fn join(l: Seq<(bool, Seq<char>)>, a: int, b: int, sep: char, quoted: bool) -> Seq<char>
    decreases b - a,
{
    let last = if quoted {
        unquote(l[b - 1].1)
    } else {
        l[b - 1].1
    };
    if b <= a {
        seq![]
    } else if b == a + 1 {
        last
    } else {
        join(l, a, b - 1, sep, quoted).push(sep) + last
    }
}

fn unquote_exec(t: &Vec<char>) -> (r: Vec<char>)
    ensures
        r@ == unquote(t@),
{
    let mut r: Vec<char> = Vec::new();
    if t.len() > 1 && t[1] == ' ' {
        push_range(&mut r, t, 2, t.len());
    } else if t.len() > 0 {
        push_range(&mut r, t, 1, t.len());
    } else {
        push_all(&mut r, t);
    }
    assert(r@ =~= unquote(t@));
    r
}

pub fn join_exec(items: &Vec<Item>, a: usize, b: usize, sep: char, quoted: bool) -> (r: Vec<char>)
    requires
        a < b <= items@.len(),
    ensures
        r@ == join(items_view(items@), a as int, b as int, sep, quoted),
{
    let ghost l = items_view(items@);
    let mut r: Vec<char> = Vec::new();
    let mut k = a;
    while k < b
        invariant
            a <= k <= b <= items@.len(),
            l == items_view(items@),
            k > a ==> r@ == join(l, a as int, k as int, sep, quoted),
            k == a ==> r@ == Seq::<char>::empty(),
        decreases b - k,
    {
        if k > a {
            r.push(sep);
        }
        let piece = if quoted {
            unquote_exec(&items[k].text)
        } else {
            let mut c: Vec<char> = Vec::new();
            push_all(&mut c, &items[k].text);
            c
        };
        push_all(&mut r, &piece);
        assert(l[k as int] == (items@[k as int].done, items@[k as int].text@));
        k = k + 1;
        assert(r@ =~= join(l, a as int, k as int, sep, quoted));
    }
    r
}

/// Which kind of item a scan over items looks for.
#[derive(Clone, Copy)]
pub enum Want {
    /// a line that closes a fence
    FenceLine,
    /// a line of a block quote
    QuoteLine,
    /// a line of a table
    TableLine,
    /// a line that joins a paragraph
    ParaLine,
}

pub open spec fn is_blank(t: Seq<char>) -> bool {
    scan(t, 0, Class::Space, false) == t.len()
}

pub open spec fn is_fence(t: Seq<char>) -> bool {
    has_at(t, scan(t, 0, Class::Space, false), "```"@)
}

pub open spec fn has_char(t: Seq<char>, c: char) -> bool {
    scan(t, 0, Class::Is(c), true) < t.len()
}

pub open spec fn item_is(w: Want, x: (bool, Seq<char>)) -> bool {
    !x.0 && match w {
        Want::FenceLine => is_fence(x.1),
        Want::QuoteLine => x.1.len() > 0 && x.1[0] == '>',
        Want::TableLine => has_char(x.1, '|'),
        Want::ParaLine => !is_blank(x.1) && !(x.1.len() > 0 && x.1[0] == '<'),
    }
}

fn is_fence_exec(t: &Vec<char>) -> (r: bool)
    ensures
        r == is_fence(t@),
{
    let p = scan_exec(t, 0, Class::Space, false);
    matches_at(t, p, "```")
}

fn has_char_exec(t: &Vec<char>, c: char) -> (r: bool)
    ensures
        r == has_char(t@, c),
{
    scan_exec(t, 0, Class::Is(c), true) < t.len()
}

fn is_blank_exec(t: &Vec<char>) -> (r: bool)
    ensures
        r == is_blank(t@),
{
    scan_exec(t, 0, Class::Space, false) == t.len()
}

fn item_is_exec(w: Want, x: &Item) -> (r: bool)
    ensures
        r == item_is(w, (x.done, x.text@)),
{
    if x.done {
        return false;
    }
    let t = &x.text;
    match w {
        Want::FenceLine => is_fence_exec(t),
        Want::QuoteLine => t.len() > 0 && t[0] == '>',
        Want::TableLine => has_char_exec(t, '|'),
        Want::ParaLine => !is_blank_exec(t) && !(t.len() > 0 && t[0] == '<'),
    }
}

/// The first index at or after `from` whose item is (`want`) or is not of
/// kind `w`; the length when there is none.
pub open spec fn iscan(l: Seq<(bool, Seq<char>)>, from: int, w: Want, want: bool) -> int
    decreases l.len() - from,
{
    if from >= l.len() {
        l.len() as int
    } else if item_is(w, l[from]) == want {
        from
    } else {
        iscan(l, from + 1, w, want)
    }
}

pub proof fn lemma_iscan(l: Seq<(bool, Seq<char>)>, from: int, w: Want, want: bool)
    requires
        0 <= from <= l.len(),
    ensures
        from <= iscan(l, from, w, want) <= l.len(),
    decreases l.len() - from,
{
    if from < l.len() && item_is(w, l[from]) != want {
        lemma_iscan(l, from + 1, w, want);
    }
}

fn iscan_exec(items: &Vec<Item>, from: usize, w: Want, want: bool) -> (r: usize)
    requires
        from <= items@.len(),
    ensures
        r == iscan(items_view(items@), from as int, w, want),
        from <= r <= items@.len(),
{
    let ghost l = items_view(items@);
    let mut k = from;
    while k < items.len() && item_is_exec(w, &items[k]) != want
        invariant
            from <= k <= items@.len(),
            l == items_view(items@),
            iscan(l, from as int, w, want) == iscan(l, k as int, w, want),
        decreases items@.len() - k,
    {
        assert(l[k as int] == (items@[k as int].done, items@[k as int].text@));
        k = k + 1;
    }
    proof {
        if k < items@.len() {
            assert(l[k as int] == (items@[k as int].done, items@[k as int].text@));
        }
    }
    k
}

/// A rendered block.
pub open spec fn done(h: Seq<char>) -> (bool, Seq<char>) {
    (true, h)
}

pub open spec fn keep_item(l: Seq<(bool, Seq<char>)>, i: int) -> (Seq<(bool, Seq<char>)>, int) {
    (seq![l[i]], i + 1)
}

pub open spec fn code_html(tag: Seq<char>, body: Seq<char>) -> Seq<char> {
    (if tag.len() == 0 {
        "<pre><code>"@
    } else {
        "<pre><code class=\"language-"@ + tag + "\">"@
    }) + body + "</code></pre>"@
}

/// A fence, its content, and a closing fence become one code block; a fence
/// that is never closed is left as it is.
pub open spec fn fence_step(l: Seq<(bool, Seq<char>)>, i: int) -> (Seq<(bool, Seq<char>)>, int) {
    let t = l[i].1;
    let j = iscan(l, i + 1, Want::FenceLine, true);
    let tag = trim(t.subrange(scan(t, 0, Class::Space, false) + 3, t.len() as int));
    let body = if j > i + 1 {
        join(l, i + 1, j, '\n', false)
    } else {
        seq![]
    };
    if item_is(Want::FenceLine, l[i]) && j < l.len() {
        (seq![done(code_html(tag, body))], j + 1)
    } else {
        keep_item(l, i)
    }
}

/// A run of lines that begin with `>` becomes one quoted paragraph.
pub open spec fn quote_step(l: Seq<(bool, Seq<char>)>, i: int, defs: Seq<(Seq<char>, Seq<char>)>) -> (
    Seq<(bool, Seq<char>)>,
    int,
) {
    let j = iscan(l, i, Want::QuoteLine, false);
    if item_is(Want::QuoteLine, l[i]) {
        (
            seq![
                done(
                    "<blockquote><p>"@ + inline_spec(join(l, i, j, ' ', true), defs)
                        + "</p></blockquote>"@,
                ),
            ],
            j,
        )
    } else {
        keep_item(l, i)
    }
}

pub open spec fn digit(k: int) -> char {
    if k == 1 {
        '1'
    } else if k == 2 {
        '2'
    } else if k == 3 {
        '3'
    } else if k == 4 {
        '4'
    } else if k == 5 {
        '5'
    } else {
        '6'
    }
}

pub open spec fn h_open(k: int) -> Seq<char> {
    "<h"@ + seq![digit(k)] + ">"@
}

pub open spec fn h_close(k: int) -> Seq<char> {
    "</h"@ + seq![digit(k)] + ">"@
}

/// A run of one to six `#`, one space and text becomes a header.
pub open spec fn header_step(l: Seq<(bool, Seq<char>)>, i: int, defs: Seq<(Seq<char>, Seq<char>)>) -> (
    Seq<(bool, Seq<char>)>,
    int,
) {
    let t = l[i].1;
    let k = scan(t, 0, Class::Is('#'), false);
    if !l[i].0 && 1 <= k <= 6 && k < t.len() && t[k] == ' ' {
        (
            seq![done(h_open(k) + inline_spec(t.subrange(k + 1, t.len() as int), defs) + h_close(k))],
            i + 1,
        )
    } else {
        keep_item(l, i)
    }
}

/// Three or more of one of `-`, `*`, `_`, and nothing else.
pub open spec fn is_rule(t: Seq<char>) -> bool {
    t.len() >= 3 && (t[0] == '-' || t[0] == '*' || t[0] == '_') && scan(t, 0, Class::Is(t[0]), false)
        == t.len()
}

pub open spec fn rule_step(l: Seq<(bool, Seq<char>)>, i: int) -> (Seq<(bool, Seq<char>)>, int) {
    if !l[i].0 && is_rule(l[i].1) {
        (seq![done("<hr>"@)], i + 1)
    } else {
        keep_item(l, i)
    }
}

/// The cells of a table row: the pieces between `|`, without the empty
/// ones that the outer delimiters leave.
pub open spec fn cells(t: Seq<char>) -> Seq<Seq<char>> {
    let p = split(t, '|');
    let a: int = if p.len() > 0 && trim(p[0]).len() == 0 {
        1
    } else {
        0
    };
    let b: int = if p.len() > a && trim(p[p.len() - 1]).len() == 0 {
        p.len() - 1
    } else {
        p.len() as int
    };
    p.subrange(a, b)
}

/// The alignment that a separator cell asks for: 1 centre (a colon at
/// both ends), 2 right (a colon at the end only), 0 none.
pub open spec fn align_of(c: Seq<char>) -> u8 {
    let u = trim(c);
    if u.len() >= 2 && u[0] == ':' && u[u.len() - 1] == ':' {
        1
    } else if u.len() >= 1 && u[u.len() - 1] == ':' {
        2
    } else {
        0
    }
}

pub open spec fn align_at(sep: Seq<Seq<char>>, k: int) -> u8 {
    if 0 <= k < sep.len() {
        align_of(sep[k])
    } else {
        0
    }
}

pub open spec fn cell_open(al: u8, head: bool) -> Seq<char> {
    (if head {
        "<th"@
    } else {
        "<td"@
    }) + (if al == 1 {
        " style=\"text-align:center\""@
    } else if al == 2 {
        " style=\"text-align:right\""@
    } else {
        Seq::<char>::empty()
    }) + ">"@
}

pub open spec fn cell_close(head: bool) -> Seq<char> {
    if head {
        "</th>"@
    } else {
        "</td>"@
    }
}

pub open spec fn cells_html(
    cs: Seq<Seq<char>>,
    n: int,
    sep: Seq<Seq<char>>,
    head: bool,
    defs: Seq<(Seq<char>, Seq<char>)>,
) -> Seq<char>
    decreases n,
{
    if n <= 0 {
        seq![]
    } else {
        cells_html(cs, n - 1, sep, head, defs) + cell_open(align_at(sep, n - 1), head) + inline_spec(
            trim(cs[n - 1]),
            defs,
        ) + cell_close(head)
    }
}

pub open spec fn row_html(
    t: Seq<char>,
    sep: Seq<Seq<char>>,
    head: bool,
    defs: Seq<(Seq<char>, Seq<char>)>,
) -> Seq<char> {
    let cs = cells(t);
    "<tr>"@ + cells_html(cs, cs.len() as int, sep, head, defs) + "</tr>"@
}

pub open spec fn rows_html(
    l: Seq<(bool, Seq<char>)>,
    a: int,
    b: int,
    sep: Seq<Seq<char>>,
    defs: Seq<(Seq<char>, Seq<char>)>,
) -> Seq<char>
    decreases b - a,
{
    if b <= a {
        seq![]
    } else {
        rows_html(l, a, b - 1, sep, defs) + row_html(l[b - 1].1, sep, false, defs)
    }
}

/// A line with `|` followed by a line with `|` and `-` starts a table.
pub open spec fn table_starts(l: Seq<(bool, Seq<char>)>, i: int) -> bool {
    !l[i].0 && has_char(l[i].1, '|') && i + 1 < l.len() && !l[i + 1].0 && has_char(l[i + 1].1, '|')
        && has_char(l[i + 1].1, '-')
}

pub open spec fn table_html(
    l: Seq<(bool, Seq<char>)>,
    i: int,
    j: int,
    defs: Seq<(Seq<char>, Seq<char>)>,
) -> Seq<char> {
    let sep = cells(l[i + 1].1);
    "<table><thead>"@ + row_html(l[i].1, sep, true, defs) + "</thead><tbody>"@ + rows_html(
        l,
        i + 2,
        j,
        sep,
        defs,
    ) + "</tbody></table>"@
}

pub open spec fn table_step(l: Seq<(bool, Seq<char>)>, i: int, defs: Seq<(Seq<char>, Seq<char>)>) -> (
    Seq<(bool, Seq<char>)>,
    int,
) {
    let j = iscan(l, i + 2, Want::TableLine, false);
    if table_starts(l, i) {
        (seq![done(table_html(l, i, j, defs))], j)
    } else {
        keep_item(l, i)
    }
}

/// Blank lines and lines that begin with `<` stand alone; a run of other
/// lines becomes one paragraph.
pub open spec fn para_step(l: Seq<(bool, Seq<char>)>, i: int, defs: Seq<(Seq<char>, Seq<char>)>) -> (
    Seq<(bool, Seq<char>)>,
    int,
) {
    let t = l[i].1;
    let j = iscan(l, i, Want::ParaLine, false);
    if l[i].0 {
        keep_item(l, i)
    } else if is_blank(t) {
        (seq![done(t)], i + 1)
    } else if t[0] == '<' {
        (seq![done(inline_spec(t, defs))], i + 1)
    } else {
        (seq![done("<p>"@ + inline_spec(join(l, i, j, ' ', false), defs) + "</p>"@)], j)
    }
}

/// One of the passes of the block pipeline that go item by item.
#[derive(Clone, Copy)]
pub enum Stage {
    Fence,
    Quote,
    Header,
    Rule,
    Table,
    Para,
}

pub open spec fn bstep(s: Stage, defs: Seq<(Seq<char>, Seq<char>)>, l: Seq<(bool, Seq<char>)>, i: int) -> (
    Seq<(bool, Seq<char>)>,
    int,
) {
    match s {
        Stage::Fence => fence_step(l, i),
        Stage::Quote => quote_step(l, i, defs),
        Stage::Header => header_step(l, i, defs),
        Stage::Rule => rule_step(l, i),
        Stage::Table => table_step(l, i, defs),
        Stage::Para => para_step(l, i, defs),
    }
}

pub open spec fn brun(
    l: Seq<(bool, Seq<char>)>,
    i: int,
    acc: Seq<(bool, Seq<char>)>,
    step: spec_fn(Seq<(bool, Seq<char>)>, int) -> (Seq<(bool, Seq<char>)>, int),
) -> Seq<(bool, Seq<char>)>
    decreases l.len() - i,
{
    if i < 0 || i >= l.len() {
        acc
    } else {
        let (piece, n) = step(l, i);
        if n <= i || n > l.len() {
            acc
        } else {
            brun(l, n, acc + piece, step)
        }
    }
}

pub open spec fn bstep_of(s: Stage, defs: Seq<(Seq<char>, Seq<char>)>) -> spec_fn(
    Seq<(bool, Seq<char>)>,
    int,
) -> (Seq<(bool, Seq<char>)>, int) {
    |l: Seq<(bool, Seq<char>)>, i: int| bstep(s, defs, l, i)
}

pub open spec fn stage_spec(
    s: Stage,
    defs: Seq<(Seq<char>, Seq<char>)>,
    l: Seq<(bool, Seq<char>)>,
) -> Seq<(bool, Seq<char>)> {
    brun(l, 0, seq![], bstep_of(s, defs))
}

fn push_item(out: &mut Vec<Item>, done: bool, text: Vec<char>)
    ensures
        items_view(final(out)@) == items_view(old(out)@) + seq![(done, text@)],
{
    let ghost t = text@;
    out.push(Item { done, text });
    assert(items_view(final(out)@) =~= items_view(old(out)@) + seq![(done, t)]);
}

fn keep_item_exec(items: &Vec<Item>, i: usize, out: &mut Vec<Item>) -> (n: usize)
    requires
        i < items@.len(),
    ensures
        items_view(final(out)@) == items_view(old(out)@) + keep_item(items_view(items@), i as int).0,
        n == keep_item(items_view(items@), i as int).1,
{
    let len = items.len();
    let mut c: Vec<char> = Vec::new();
    push_all(&mut c, &items[i].text);
    push_item(out, items[i].done, c);
    assert(items_view(items@)[i as int] == (items@[i as int].done, items@[i as int].text@));
    i + 1
}

fn fence_exec(items: &Vec<Item>, i: usize, out: &mut Vec<Item>) -> (n: usize)
    requires
        i < items@.len(),
    ensures
        items_view(final(out)@) == items_view(old(out)@) + fence_step(items_view(items@), i as int).0,
        n == fence_step(items_view(items@), i as int).1,
{
    let ghost l = items_view(items@);
    let len = items.len();
    assert(l[i as int] == (items@[i as int].done, items@[i as int].text@));
    if !item_is_exec(Want::FenceLine, &items[i]) {
        return keep_item_exec(items, i, out);
    }
    let j = iscan_exec(items, i + 1, Want::FenceLine, true);
    if j >= items.len() {
        return keep_item_exec(items, i, out);
    }
    let t = &items[i].text;
    let tl = t.len();
    let p = scan_exec(t, 0, Class::Space, false);
    proof {
        reveal_strlit("```");
    }
    let mut rest: Vec<char> = Vec::new();
    push_range(&mut rest, t, p + 3, t.len());
    let tag = trim_exec(&rest);
    let mut h: Vec<char> = Vec::new();
    if tag.len() == 0 {
        push_str(&mut h, "<pre><code>");
    } else {
        push_str(&mut h, "<pre><code class=\"language-");
        push_all(&mut h, &tag);
        push_str(&mut h, "\">");
    }
    if j > i + 1 {
        let body = join_exec(items, i + 1, j, '\n', false);
        push_all(&mut h, &body);
    }
    push_str(&mut h, "</code></pre>");
    proof {
        let tg = trim(t@.subrange(scan(t@, 0, Class::Space, false) + 3, t@.len() as int));
        let body = if j > i + 1 {
            join(l, i + 1, j as int, '\n', false)
        } else {
            seq![]
        };
        assert(h@ =~= code_html(tg, body));
    }
    push_item(out, true, h);
    j + 1
}

fn quote_exec(items: &Vec<Item>, i: usize, defs: &Vec<RefDef>, out: &mut Vec<Item>) -> (n: usize)
    requires
        i < items@.len(),
    ensures
        items_view(final(out)@) == items_view(old(out)@) + quote_step(
            items_view(items@),
            i as int,
            defs_view(defs@),
        ).0,
        n == quote_step(items_view(items@), i as int, defs_view(defs@)).1,
{
    let ghost l = items_view(items@);
    let len = items.len();
    assert(l[i as int] == (items@[i as int].done, items@[i as int].text@));
    if !item_is_exec(Want::QuoteLine, &items[i]) {
        return keep_item_exec(items, i, out);
    }
    let j = iscan_exec(items, i, Want::QuoteLine, false);
    proof {
        lemma_iscan(l, i + 1, Want::QuoteLine, false);
    }
    let body = join_exec(items, i, j, ' ', true);
    let body = inline_exec(&body, defs);
    let mut h: Vec<char> = Vec::new();
    push_str(&mut h, "<blockquote><p>");
    push_all(&mut h, &body);
    push_str(&mut h, "</p></blockquote>");
    push_item(out, true, h);
    j
}

fn header_exec(items: &Vec<Item>, i: usize, defs: &Vec<RefDef>, out: &mut Vec<Item>) -> (n: usize)
    requires
        i < items@.len(),
    ensures
        items_view(final(out)@) == items_view(old(out)@) + header_step(
            items_view(items@),
            i as int,
            defs_view(defs@),
        ).0,
        n == header_step(items_view(items@), i as int, defs_view(defs@)).1,
{
    let ghost l = items_view(items@);
    let len = items.len();
    assert(l[i as int] == (items@[i as int].done, items@[i as int].text@));
    let t = &items[i].text;
    let k = scan_exec(t, 0, Class::Is('#'), false);
    if items[i].done || k < 1 || k > 6 || k >= t.len() || t[k] != ' ' {
        return keep_item_exec(items, i, out);
    }
    let d = if k == 1 {
        '1'
    } else if k == 2 {
        '2'
    } else if k == 3 {
        '3'
    } else if k == 4 {
        '4'
    } else if k == 5 {
        '5'
    } else {
        '6'
    };
    let mut rest: Vec<char> = Vec::new();
    push_range(&mut rest, t, k + 1, t.len());
    let body = inline_exec(&rest, defs);
    let mut h: Vec<char> = Vec::new();
    push_str(&mut h, "<h");
    h.push(d);
    push_str(&mut h, ">");
    push_all(&mut h, &body);
    push_str(&mut h, "</h");
    h.push(d);
    push_str(&mut h, ">");
    assert(h@ =~= h_open(k as int) + inline_spec(t@.subrange(k + 1, t@.len() as int), defs_view(defs@))
        + h_close(k as int));
    push_item(out, true, h);
    i + 1
}

fn rule_exec(items: &Vec<Item>, i: usize, out: &mut Vec<Item>) -> (n: usize)
    requires
        i < items@.len(),
    ensures
        items_view(final(out)@) == items_view(old(out)@) + rule_step(items_view(items@), i as int).0,
        n == rule_step(items_view(items@), i as int).1,
{
    let ghost l = items_view(items@);
    let len = items.len();
    assert(l[i as int] == (items@[i as int].done, items@[i as int].text@));
    let t = &items[i].text;
    if items[i].done || t.len() < 3 || !(t[0] == '-' || t[0] == '*' || t[0] == '_') {
        return keep_item_exec(items, i, out);
    }
    if scan_exec(t, 0, Class::Is(t[0]), false) != t.len() {
        return keep_item_exec(items, i, out);
    }
    let mut h: Vec<char> = Vec::new();
    push_str(&mut h, "<hr>");
    push_item(out, true, h);
    i + 1
}

fn para_exec(items: &Vec<Item>, i: usize, defs: &Vec<RefDef>, out: &mut Vec<Item>) -> (n: usize)
    requires
        i < items@.len(),
    ensures
        items_view(final(out)@) == items_view(old(out)@) + para_step(
            items_view(items@),
            i as int,
            defs_view(defs@),
        ).0,
        n == para_step(items_view(items@), i as int, defs_view(defs@)).1,
{
    let ghost l = items_view(items@);
    let len = items.len();
    assert(l[i as int] == (items@[i as int].done, items@[i as int].text@));
    if items[i].done {
        return keep_item_exec(items, i, out);
    }
    let t = &items[i].text;
    if is_blank_exec(t) {
        let mut h: Vec<char> = Vec::new();
        push_all(&mut h, t);
        push_item(out, true, h);
        return i + 1;
    }
    if t[0] == '<' {
        let h = inline_exec(t, defs);
        push_item(out, true, h);
        return i + 1;
    }
    let j = iscan_exec(items, i, Want::ParaLine, false);
    proof {
        lemma_iscan(l, i + 1, Want::ParaLine, false);
    }
    let body = join_exec(items, i, j, ' ', false);
    let body = inline_exec(&body, defs);
    let mut h: Vec<char> = Vec::new();
    push_str(&mut h, "<p>");
    push_all(&mut h, &body);
    push_str(&mut h, "</p>");
    push_item(out, true, h);
    j
}

fn copy_vec(v: &Vec<char>) -> (r: Vec<char>)
    ensures
        r@ == v@,
{
    let mut r: Vec<char> = Vec::new();
    push_all(&mut r, v);
    r
}

pub fn cells_exec(t: &Vec<char>) -> (r: Vec<Vec<char>>)
    ensures
        vecs_view(r@) == cells(t@),
{
    let p = split_exec(t, '|');
    let ghost pv = vecs_view(p@);
    let n = p.len();
    let a: usize = if n > 0 && trim_exec(&p[0]).len() == 0 {
        1
    } else {
        0
    };
    let b: usize = if n > a && trim_exec(&p[n - 1]).len() == 0 {
        n - 1
    } else {
        n
    };
    proof {
        if n > 0 {
            assert(pv[0] == p@[0]@);
            assert(pv[n - 1] == p@[n - 1]@);
        }
    }
    let mut r: Vec<Vec<char>> = Vec::new();
    let mut k = a;
    while k < b
        invariant
            a <= k <= b <= n,
            n == p@.len(),
            pv == vecs_view(p@),
            vecs_view(r@) == pv.subrange(a as int, k as int),
        decreases b - k,
    {
        let ghost before = r@;
        let c = copy_vec(&p[k]);
        r.push(c);
        assert(vecs_view(r@) =~= vecs_view(before).push(pv[k as int]));
        k = k + 1;
        assert(vecs_view(r@) =~= pv.subrange(a as int, k as int));
    }
    assert(vecs_view(r@) =~= cells(t@));
    r
}

fn align_exec(sep: &Vec<Vec<char>>, k: usize) -> (r: u8)
    ensures
        r == align_at(vecs_view(sep@), k as int),
{
    if k >= sep.len() {
        return 0;
    }
    assert(vecs_view(sep@)[k as int] == sep@[k as int]@);
    let u = trim_exec(&sep[k]);
    let m = u.len();
    if m >= 2 && u[0] == ':' && u[m - 1] == ':' {
        1
    } else if m >= 1 && u[m - 1] == ':' {
        2
    } else {
        0
    }
}

fn cell_exec(out: &mut Vec<char>, c: &Vec<char>, al: u8, head: bool, defs: &Vec<RefDef>)
    ensures
        final(out)@ == old(out)@ + cell_open(al, head) + inline_spec(trim(c@), defs_view(defs@))
            + cell_close(head),
{
    let ghost start = out@;
    if head {
        push_str(out, "<th");
    } else {
        push_str(out, "<td");
    }
    if al == 1 {
        push_str(out, " style=\"text-align:center\"");
    } else if al == 2 {
        push_str(out, " style=\"text-align:right\"");
    }
    push_str(out, ">");
    assert(out@ =~= start + cell_open(al, head));
    let ghost mid = out@;
    let u = trim_exec(c);
    let body = inline_exec(&u, defs);
    push_all(out, &body);
    if head {
        push_str(out, "</th>");
    } else {
        push_str(out, "</td>");
    }
    assert(out@ =~= mid + inline_spec(trim(c@), defs_view(defs@)) + cell_close(head));
}

fn row_exec(t: &Vec<char>, sep: &Vec<Vec<char>>, head: bool, defs: &Vec<RefDef>) -> (r: Vec<char>)
    ensures
        r@ == row_html(t@, vecs_view(sep@), head, defs_view(defs@)),
{
    let cs = cells_exec(t);
    let ghost cv = vecs_view(cs@);
    let mut r: Vec<char> = Vec::new();
    push_str(&mut r, "<tr>");
    let ghost start = r@;
    let mut k: usize = 0;
    while k < cs.len()
        invariant
            k <= cs@.len(),
            cv == vecs_view(cs@),
            cv == cells(t@),
            r@ == start + cells_html(cv, k as int, vecs_view(sep@), head, defs_view(defs@)),
        decreases cs@.len() - k,
    {
        let al = align_exec(sep, k);
        cell_exec(&mut r, &cs[k], al, head, defs);
        assert(cv[k as int] == cs@[k as int]@);
        k = k + 1;
        assert(r@ =~= start + cells_html(cv, k as int, vecs_view(sep@), head, defs_view(defs@)));
    }
    push_str(&mut r, "</tr>");
    r
}

fn table_exec(items: &Vec<Item>, i: usize, defs: &Vec<RefDef>, out: &mut Vec<Item>) -> (n: usize)
    requires
        i < items@.len(),
    ensures
        items_view(final(out)@) == items_view(old(out)@) + table_step(
            items_view(items@),
            i as int,
            defs_view(defs@),
        ).0,
        n == table_step(items_view(items@), i as int, defs_view(defs@)).1,
{
    let ghost l = items_view(items@);
    let len = items.len();
    assert(l[i as int] == (items@[i as int].done, items@[i as int].text@));
    if items[i].done || !has_char_exec(&items[i].text, '|') || i + 1 >= len || items[i + 1].done
        || !has_char_exec(&items[i + 1].text, '|') || !has_char_exec(&items[i + 1].text, '-') {
        proof {
            if i + 1 < len {
                assert(l[i + 1] == (items@[i + 1].done, items@[i + 1].text@));
            }
        }
        return keep_item_exec(items, i, out);
    }
    assert(l[i + 1] == (items@[i + 1].done, items@[i + 1].text@));
    let j = iscan_exec(items, i + 2, Want::TableLine, false);
    let sep = cells_exec(&items[i + 1].text);
    let ghost sv = vecs_view(sep@);
    let mut h: Vec<char> = Vec::new();
    push_str(&mut h, "<table><thead>");
    let head = row_exec(&items[i].text, &sep, true, defs);
    push_all(&mut h, &head);
    push_str(&mut h, "</thead><tbody>");
    let ghost start = h@;
    let mut k = i + 2;
    while k < j
        invariant
            i + 2 <= k <= j <= items@.len(),
            l == items_view(items@),
            sv == vecs_view(sep@),
            h@ == start + rows_html(l, i + 2, k as int, sv, defs_view(defs@)),
        decreases j - k,
    {
        let row = row_exec(&items[k].text, &sep, false, defs);
        push_all(&mut h, &row);
        assert(l[k as int] == (items@[k as int].done, items@[k as int].text@));
        k = k + 1;
        assert(h@ =~= start + rows_html(l, i + 2, k as int, sv, defs_view(defs@)));
    }
    push_str(&mut h, "</tbody></table>");
    assert(h@ =~= table_html(l, i as int, j as int, defs_view(defs@)));
    push_item(out, true, h);
    proof {
        lemma_iscan(l, i + 2, Want::TableLine, false);
    }
    j
}

fn bstep_exec(s: Stage, items: &Vec<Item>, i: usize, defs: &Vec<RefDef>, out: &mut Vec<Item>) -> (n:
    usize)
    requires
        i < items@.len(),
    ensures
        items_view(final(out)@) == items_view(old(out)@) + bstep(
            s,
            defs_view(defs@),
            items_view(items@),
            i as int,
        ).0,
        n == bstep(s, defs_view(defs@), items_view(items@), i as int).1,
        i < n <= items@.len(),
{
    let n = match s {
        Stage::Fence => fence_exec(items, i, out),
        Stage::Quote => quote_exec(items, i, defs, out),
        Stage::Header => header_exec(items, i, defs, out),
        Stage::Rule => rule_exec(items, i, out),
        Stage::Table => table_exec(items, i, defs, out),
        Stage::Para => para_exec(items, i, defs, out),
    };
    proof {
        lemma_bstep_advances(s, defs_view(defs@), items_view(items@), i as int);
    }
    n
}

/// Every block step moves forward and stays within the items.
pub proof fn lemma_bstep_advances(
    s: Stage,
    defs: Seq<(Seq<char>, Seq<char>)>,
    l: Seq<(bool, Seq<char>)>,
    i: int,
)
    requires
        0 <= i < l.len(),
    ensures
        i < bstep(s, defs, l, i).1 <= l.len(),
{
    match s {
        Stage::Fence => {
            lemma_iscan(l, i + 1, Want::FenceLine, true);
        },
        Stage::Quote => {
            if item_is(Want::QuoteLine, l[i]) {
                lemma_iscan(l, i + 1, Want::QuoteLine, false);
            }
        },
        Stage::Table => {
            if i + 2 <= l.len() {
                lemma_iscan(l, i + 2, Want::TableLine, false);
            }
        },
        Stage::Para => {
            if item_is(Want::ParaLine, l[i]) {
                lemma_iscan(l, i + 1, Want::ParaLine, false);
            }
        },
        _ => {},
    }
}

/// Runs one block stage over the items.
pub fn run_stage(s: Stage, items: &Vec<Item>, defs: &Vec<RefDef>) -> (r: Vec<Item>)
    ensures
        items_view(r@) == stage_spec(s, defs_view(defs@), items_view(items@)),
{
    let ghost step = bstep_of(s, defs_view(defs@));
    let ghost l = items_view(items@);
    let mut out: Vec<Item> = Vec::new();
    let mut i: usize = 0;
    assert(items_view(out@) =~= seq![]);
    while i < items.len()
        invariant
            i <= items@.len(),
            l == items_view(items@),
            l.len() == items@.len(),
            step == bstep_of(s, defs_view(defs@)),
            brun(l, i as int, items_view(out@), step) == stage_spec(s, defs_view(defs@), l),
        decreases items@.len() - i,
    {
        let ghost before = items_view(out@);
        let n = bstep_exec(s, items, i, defs, &mut out);
        assert(step(l, i as int) == bstep(s, defs_view(defs@), l, i as int));
        assert(brun(l, i as int, before, step) == brun(l, n as int, items_view(out@), step));
        i = n;
    }
    out
}

} // verus!
