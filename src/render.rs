//! The whole renderer: definitions out, the block passes in their fixed
//! order, and the blocks joined into one HTML fragment.
use vstd::prelude::*;
use crate::text::{Class, is_space, scan, lemma_scan, has_at, chars_of, push_all, string_of, vecs_view};
use crate::refs::{defs_of, defs_go, extract_refs, is_def, kept_go, kept_lines};
use crate::blocks::{
    Item, Stage, Want, bstep, bstep_of, brun, digit, done, h_close, h_open, is_fence, items_view, iscan,
    item_is, join, run_stage, split, split_go, split_exec, stage_spec, trim, trim_end_len,
    lemma_trim_end_len,
};
use crate::lists::{classify, list_go, list_item, lists_exec, lists_spec};
use crate::inline::{inline_spec, plain, plain_text_unchanged};
use crate::html::{code_br, convert_code_block_newlines, normalize_whitespace, normalized};

verus! {

/// Each line as an item that no pass has rendered yet.
pub open spec fn items_of(lines: Seq<Seq<char>>) -> Seq<(bool, Seq<char>)> {
    lines.map_values(|l: Seq<char>| (false, l))
}

/// The block pipeline: fenced code, block quotes, headers, rules, tables,
/// lists, paragraphs.
pub open spec fn blocks_spec(l: Seq<(bool, Seq<char>)>, defs: Seq<(Seq<char>, Seq<char>)>) -> Seq<
    (bool, Seq<char>),
> {
    let l1 = stage_spec(Stage::Fence, defs, l);
    let l2 = stage_spec(Stage::Quote, defs, l1);
    let l3 = stage_spec(Stage::Header, defs, l2);
    let l4 = stage_spec(Stage::Rule, defs, l3);
    let l5 = stage_spec(Stage::Table, defs, l4);
    let l6 = lists_spec(l5, defs);
    stage_spec(Stage::Para, defs, l6)
}

/// The texts of items `i..` appended to `acc`.
pub open spec fn concat_go(l: Seq<(bool, Seq<char>)>, i: int, acc: Seq<char>) -> Seq<char>
    decreases l.len() - i,
{
    if i < 0 || i >= l.len() {
        acc
    } else {
        concat_go(l, i + 1, acc + l[i].1)
    }
}

pub open spec fn concat(l: Seq<(bool, Seq<char>)>) -> Seq<char> {
    concat_go(l, 0, seq![])
}

/// The HTML fragment for a Markdown document.
pub open spec fn render(md: Seq<char>) -> Seq<char> {
    let lines = split(md, '\n');
    concat(blocks_spec(items_of(kept_lines(lines)), defs_of(lines)))
}

/// Converts Markdown to an HTML fragment. Never fails: markup that is not
/// recognised stays in the output as text.
pub fn convert(markdown: &str) -> (html: String)
    ensures
        html@ == render(markdown@),
{
    let md = chars_of(markdown);
    let lines = split_exec(&md, '\n');
    let (kept, defs) = extract_refs(&lines);
    let ghost kv = vecs_view(kept@);
    let mut items: Vec<Item> = Vec::new();
    let mut i: usize = 0;
    while i < kept.len()
        invariant
            i <= kept@.len(),
            kv == vecs_view(kept@),
            kv.len() == kept@.len(),
            items_view(items@) == items_of(kv).take(i as int),
        decreases kept@.len() - i,
    {
        let mut c: Vec<char> = Vec::new();
        push_all(&mut c, &kept[i]);
        let ghost before = items_view(items@);
        items.push(Item { done: false, text: c });
        assert(kv[i as int] == kept@[i as int]@);
        assert(items_view(items@) =~= before.push((false, kv[i as int])));
        assert(items_view(items@) =~= items_of(kv).take(i + 1 as int));
        i = i + 1;
    }
    assert(items_of(kv).take(kept@.len() as int) =~= items_of(kv));
    let l1 = run_stage(Stage::Fence, &items, &defs);
    let l2 = run_stage(Stage::Quote, &l1, &defs);
    let l3 = run_stage(Stage::Header, &l2, &defs);
    let l4 = run_stage(Stage::Rule, &l3, &defs);
    let l5 = run_stage(Stage::Table, &l4, &defs);
    let l6 = lists_exec(&l5, &defs);
    let l7 = run_stage(Stage::Para, &l6, &defs);
    let ghost lv = items_view(l7@);
    let mut out: Vec<char> = Vec::new();
    let mut k: usize = 0;
    while k < l7.len()
        invariant
            k <= l7@.len(),
            lv == items_view(l7@),
            concat_go(lv, k as int, out@) == concat(lv),
        decreases l7@.len() - k,
    {
        assert(lv[k as int] == (l7@[k as int].done, l7@[k as int].text@));
        push_all(&mut out, &l7[k].text);
        k = k + 1;
    }
    string_of(&out)
}

/// `k` copies of `#`.
pub open spec fn hashes(k: int) -> Seq<char> {
    Seq::new(k as nat, |j: int| '#')
}

pub open spec fn no_newline(t: Seq<char>) -> bool {
    forall|j: int| 0 <= j < t.len() ==> t[j] != '\n'
}

proof fn lemma_split_no_newline(t: Seq<char>, i: int, cur: Seq<char>, acc: Seq<Seq<char>>)
    requires
        0 <= i <= t.len(),
        no_newline(t),
    ensures
        split_go(t, '\n', i, cur, acc) == acc.push(cur + t.subrange(i, t.len() as int)),
    decreases t.len() - i,
{
    if i < t.len() {
        lemma_split_no_newline(t, i + 1, cur.push(t[i]), acc);
        assert(cur.push(t[i]) + t.subrange(i + 1, t.len() as int) =~= cur + t.subrange(
            i,
            t.len() as int,
        ));
    } else {
        assert(cur + t.subrange(i, t.len() as int) =~= cur);
    }
}

/// A text without line breaks is one line, and one item.
proof fn lemma_one_line(t: Seq<char>)
    requires
        no_newline(t),
        t.len() > 0,
        t[0] != '[' && !is_space(t[0]),
    ensures
        split(t, '\n') == seq![t],
        kept_lines(seq![t]) == seq![t],
        defs_of(seq![t]) == Seq::<(Seq<char>, Seq<char>)>::empty(),
        items_of(kept_lines(split(t, '\n'))) == seq![(false, t)],
{
    lemma_split_no_newline(t, 0, seq![], seq![]);
    assert(Seq::<char>::empty() + t.subrange(0, t.len() as int) =~= t);
    assert(scan(t, 0, Class::Space, false) == 0);
    assert(!is_def(t));
    let l = seq![t];
    assert(l[0] == t);
    assert(kept_go(l, 1, seq![t]) == seq![t]);
    assert(defs_go(l, 1, seq![]) == Seq::<(Seq<char>, Seq<char>)>::empty());
    assert(items_of(seq![t]) =~= seq![(false, t)]);
}

/// A stage whose step leaves a single item as it is leaves the item.
proof fn lemma_stage_keeps(s: Stage, defs: Seq<(Seq<char>, Seq<char>)>, x: (bool, Seq<char>))
    requires
        bstep(s, defs, seq![x], 0) == (seq![x], 1int),
    ensures
        stage_spec(s, defs, seq![x]) == seq![x],
{
    let l = seq![x];
    let f = bstep_of(s, defs);
    assert(f(l, 0) == bstep(s, defs, l, 0));
    assert(brun(l, 1, Seq::empty() + seq![x], f) == Seq::empty() + seq![x]);
    assert(Seq::<(bool, Seq<char>)>::empty() + seq![x] =~= seq![x]);
}

/// A stage whose step turns a single item into another gives that item.
proof fn lemma_stage_one(
    s: Stage,
    defs: Seq<(Seq<char>, Seq<char>)>,
    x: (bool, Seq<char>),
    y: (bool, Seq<char>),
)
    requires
        bstep(s, defs, seq![x], 0) == (seq![y], 1int),
    ensures
        stage_spec(s, defs, seq![x]) == seq![y],
{
    let l = seq![x];
    let f = bstep_of(s, defs);
    assert(f(l, 0) == bstep(s, defs, l, 0));
    assert(brun(l, 1, Seq::empty() + seq![y], f) == Seq::empty() + seq![y]);
    assert(Seq::<(bool, Seq<char>)>::empty() + seq![y] =~= seq![y]);
}

/// The list pass leaves a single item that it does not take for a list line.
proof fn lemma_lists_keep(x: (bool, Seq<char>), defs: Seq<(Seq<char>, Seq<char>)>)
    requires
        classify(x) is None,
    ensures
        lists_spec(seq![x], defs) == seq![x],
{
    let l = seq![x];
    assert(l[0] == x);
    assert(list_go(l, 1, seq![], Seq::empty().push(x), defs) == Seq::empty().push(x));
    assert(Seq::<(bool, Seq<char>)>::empty().push(x) =~= seq![x]);
}

/// The later stages leave a rendered block alone.
proof fn lemma_done_stays(h: Seq<char>, defs: Seq<(Seq<char>, Seq<char>)>)
    ensures
        stage_spec(Stage::Rule, defs, seq![done(h)]) == seq![done(h)],
        stage_spec(Stage::Table, defs, seq![done(h)]) == seq![done(h)],
        lists_spec(seq![done(h)], defs) == seq![done(h)],
        stage_spec(Stage::Para, defs, seq![done(h)]) == seq![done(h)],
{
    let l = seq![done(h)];
    assert(l[0] == done(h));
    lemma_stage_keeps(Stage::Rule, defs, done(h));
    lemma_stage_keeps(Stage::Table, defs, done(h));
    lemma_lists_keep(done(h), defs);
    lemma_stage_keeps(Stage::Para, defs, done(h));
}

proof fn lemma_concat_one(h: Seq<char>)
    ensures
        concat(seq![done(h)]) == h,
{
    let l = seq![done(h)];
    assert(concat_go(l, 1, Seq::empty() + h) == Seq::empty() + h);
    assert(Seq::<char>::empty() + h =~= h);
}

/// A line of `k` `#` (one to six), a space and a text `t` on one line
/// renders as a header of level `k` holding the inline rendering of `t`.
pub proof fn header_renders(k: int, t: Seq<char>)
    requires
        1 <= k <= 6,
        no_newline(t),
    ensures
        render(hashes(k) + seq![' '] + t) == h_open(k) + inline_spec(t, seq![]) + h_close(k),
{
    let md = hashes(k) + seq![' '] + t;
    let defs = Seq::<(Seq<char>, Seq<char>)>::empty();
    assert(md[0] == '#');
    assert(no_newline(md)) by {
        assert forall|j: int| 0 <= j < md.len() implies md[j] != '\n' by {
            if j > k {
                assert(md[j] == t[j - k - 1]);
            }
        }
    }
    lemma_one_line(md);
    let x = (false, md);
    let l = seq![x];
    assert(l[0] == x);
    reveal_strlit("```");
    assert(!is_fence(md)) by {
        assert(scan(md, 0, Class::Space, false) == 0);
        if has_at(md, 0, "```"@) {
            assert(md.subrange(0, 3)[0] == '`');
        }
    }
    assert(iscan(l, 1, Want::FenceLine, true) == 1);
    lemma_stage_keeps(Stage::Fence, defs, x);
    lemma_stage_keeps(Stage::Quote, defs, x);
    lemma_scan(md, 0, Class::Is('#'), false);
    assert(md[k] == ' ');
    assert(scan(md, 0, Class::Is('#'), false) == k);
    let h = h_open(k) + inline_spec(md.subrange(k + 1, md.len() as int), defs) + h_close(k);
    assert(md.subrange(k + 1, md.len() as int) =~= t);
    lemma_stage_one(Stage::Header, defs, x, done(h));
    lemma_done_stays(h, defs);
    lemma_concat_one(h);
}

proof fn lemma_trim_keeps_first(t: Seq<char>, j: int)
    requires
        1 <= j <= t.len(),
        !is_space(t[0]),
    ensures
        trim_end_len(t, j) >= 1,
    decreases j,
{
    if is_space(t[j - 1]) {
        lemma_trim_keeps_first(t, j - 1);
    }
}

/// A run of `k` `#` (one to six) followed by anything but a space (or by
/// nothing) on one line is no header: it renders as a paragraph.
pub proof fn hashes_without_space_render_as_paragraph(k: int, t: Seq<char>)
    requires
        1 <= k <= 6,
        no_newline(t),
        t.len() == 0 || (t[0] != ' ' && t[0] != '#'),
    ensures
        render(hashes(k) + t) == "<p>"@ + inline_spec(hashes(k) + t, seq![]) + "</p>"@,
{
    let md = hashes(k) + t;
    let defs = Seq::<(Seq<char>, Seq<char>)>::empty();
    assert(md[0] == '#');
    assert(no_newline(md)) by {
        assert forall|j: int| 0 <= j < md.len() implies md[j] != '\n' by {
            if j >= k {
                assert(md[j] == t[j - k]);
            }
        }
    }
    lemma_one_line(md);
    let x = (false, md);
    let l = seq![x];
    assert(l[0] == x);
    reveal_strlit("```");
    assert(scan(md, 0, Class::Space, false) == 0);
    assert(!is_fence(md)) by {
        if has_at(md, 0, "```"@) {
            assert(md.subrange(0, 3)[0] == '`');
        }
    }
    assert(iscan(l, 1, Want::FenceLine, true) == 1);
    lemma_stage_keeps(Stage::Fence, defs, x);
    lemma_stage_keeps(Stage::Quote, defs, x);
    lemma_scan(md, 0, Class::Is('#'), false);
    if k < md.len() {
        assert(md[k] == t[0]);
    }
    assert(scan(md, 0, Class::Is('#'), false) == k);
    lemma_stage_keeps(Stage::Header, defs, x);
    lemma_stage_keeps(Stage::Rule, defs, x);
    lemma_stage_keeps(Stage::Table, defs, x);
    lemma_trim_keeps_first(md, md.len() as int);
    lemma_trim_end_len(md, md.len() as int);
    let u = trim(md);
    assert(u[0] == '#');
    assert(scan(u, 0, Class::Digit, false) == 0);
    assert(list_item(md) is None);
    lemma_lists_keep(x, defs);
    assert(item_is(Want::ParaLine, x));
    assert(iscan(l, 1, Want::ParaLine, false) == 1);
    assert(iscan(l, 0, Want::ParaLine, false) == 1);
    assert(join(l, 0, 1, ' ', false) == md);
    let h = "<p>"@ + inline_spec(md, defs) + "</p>"@;
    lemma_stage_one(Stage::Para, defs, x, done(h));
    lemma_concat_one(h);
}

/// Converts Markdown to the HTML that goes to the clipboard: the fragment,
/// with the line breaks of code blocks written as `<br>` and the other
/// whitespace between and inside tags normalised.
pub fn convert_for_clipboard(markdown: &str) -> (html: String)
    ensures
        html@ == normalized(code_br(render(markdown@))),
{
    let h = convert(markdown);
    let h = convert_code_block_newlines(h.as_str());
    normalize_whitespace(h.as_str())
}

/// A line of `k` `#` (one to six), a space and a plain text `t` renders as
/// exactly `<hk>t</hk>`.
pub proof fn plain_header_renders(k: int, t: Seq<char>)
    requires
        1 <= k <= 6,
        no_newline(t),
        plain(t),
    ensures
        render(hashes(k) + seq![' '] + t) == "<h"@ + seq![digit(k)] + ">"@ + t + "</h"@ + seq![
            digit(k),
        ] + ">"@,
{
    header_renders(k, t);
    plain_text_unchanged(t, seq![]);
}

proof fn lemma_hashes_has_at(k: int, t: Seq<char>, j: int, p: Seq<char>)
    requires
        0 <= k,
        p.len() > 0,
        p[0] == 'h',
        has_at(hashes(k) + t, j, p),
    ensures
        j >= k,
        has_at(t, j - k, p),
{
    let md = hashes(k) + t;
    assert(md.subrange(j, j + p.len())[0] == md[j]);
    if j >= k {
        assert(t.subrange(j - k, j - k + p.len()) =~= md.subrange(j, j + p.len()));
    }
}

proof fn lemma_hashes_plain(k: int, t: Seq<char>)
    requires
        0 <= k,
        plain(t),
    ensures
        plain(hashes(k) + t),
{
    let md = hashes(k) + t;
    reveal_strlit("http://");
    reveal_strlit("https://");
    assert forall|j: int| 0 <= j < md.len() implies #[trigger] md[j] != '!' && md[j] != '[' && md[j]
        != '*' && md[j] != '_' && md[j] != '~' && md[j] != '`' by {
        if j >= k {
            assert(md[j] == t[j - k]);
        }
    }
    assert forall|j: int| !#[trigger] has_at(md, j, "http://"@) && !has_at(md, j, "https://"@) by {
        if has_at(md, j, "http://"@) {
            lemma_hashes_has_at(k, t, j, "http://"@);
        }
        if has_at(md, j, "https://"@) {
            lemma_hashes_has_at(k, t, j, "https://"@);
        }
    }
}

proof fn lemma_paragraph_has_no_header_tag(m: Seq<char>)
    requires
        forall|j: int| 0 <= j < m.len() ==> m[j] != '<',
    ensures
        forall|j: int| !has_at("<p>"@ + m + "</p>"@, j, "<h"@),
{
    reveal_strlit("<p>");
    reveal_strlit("</p>");
    reveal_strlit("<h");
    let r = "<p>"@ + m + "</p>"@;
    assert forall|j: int| !has_at(r, j, "<h"@) by {
        if has_at(r, j, "<h"@) {
            assert(r.subrange(j, j + 2)[0] == r[j]);
            assert(r.subrange(j, j + 2)[1] == r[j + 1]);
            if 3 <= j < 3 + m.len() {
                assert(r[j] == m[j - 3]);
            } else if j == 0 {
                assert(r[1] == 'p');
            } else if j == 3 + m.len() {
                assert(r[j + 1] == '/');
            } else {
                assert(r[j] != '<');
            }
        }
    }
}

/// A run of `k` `#` (one to six) followed by a plain text that does not
/// begin with a space or `#` and holds no `<` renders as a paragraph, and
/// no header tag appears in the output.
pub proof fn plain_hashes_make_no_header(k: int, t: Seq<char>)
    requires
        1 <= k <= 6,
        no_newline(t),
        plain(t),
        t.len() == 0 || (t[0] != ' ' && t[0] != '#'),
        forall|j: int| 0 <= j < t.len() ==> t[j] != '<',
    ensures
        render(hashes(k) + t) == "<p>"@ + hashes(k) + t + "</p>"@,
        forall|j: int| !has_at(render(hashes(k) + t), j, "<h"@),
{
    let md = hashes(k) + t;
    lemma_hashes_plain(k, t);
    hashes_without_space_render_as_paragraph(k, t);
    plain_text_unchanged(md, seq![]);
    assert forall|j: int| 0 <= j < md.len() implies md[j] != '<' by {
        if j >= k {
            assert(md[j] == t[j - k]);
        }
    }
    lemma_paragraph_has_no_header_tag(md);
}

} // verus!
