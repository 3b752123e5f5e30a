//! The list pass: a scan over the lines that keeps a stack of open lists,
//! ordered from the outermost to the innermost, each with its indentation.
use vstd::prelude::*;
use crate::text::{Class, scan, scan_exec, push_str, push_range, push_all};
use crate::refs::{RefDef, defs_view};
use crate::inline::{inline_spec, inline_exec};
use crate::blocks::{Item, items_view, trim, trim_exec, done};

verus! {

broadcast use vstd::string::group_string_axioms;

pub open spec fn open_tag(ordered: bool) -> Seq<char> {
    if ordered {
        "<ol>"@
    } else {
        "<ul>"@
    }
}

pub open spec fn close_tag(ordered: bool) -> Seq<char> {
    if ordered {
        "</ol>"@
    } else {
        "</ul>"@
    }
}

/// The tags that close every open list, innermost first.
pub open spec fn close_all(st: Seq<(bool, usize)>) -> Seq<char>
    decreases st.len(),
{
    if st.len() == 0 {
        seq![]
    } else {
        close_tag(st.last().0) + close_all(st.drop_last())
    }
}

/// Closes the lists indented deeper than `ind`: the stack that is left and
/// the tags that close them.
pub open spec fn pop_deeper(st: Seq<(bool, usize)>, ind: usize) -> (Seq<(bool, usize)>, Seq<char>)
    decreases st.len(),
{
    if st.len() > 0 && st.last().1 > ind {
        let r = pop_deeper(st.drop_last(), ind);
        (r.0, close_tag(st.last().0) + r.1)
    } else {
        (st, seq![])
    }
}

/// What a list line holds: whether the list is ordered, the ballot box of a
/// task item (or nothing), and the item's text.
pub open spec fn list_item(t: Seq<char>) -> Option<(bool, Seq<char>, Seq<char>)> {
    let u = trim(t);
    let p = scan(u, 1, Class::Space, false);
    let q = scan(u, p + 3, Class::Space, false);
    let d = scan(u, 0, Class::Digit, false);
    let r = scan(u, d + 1, Class::Space, false);
    if u.len() > 0 && (u[0] == '-' || u[0] == '*' || u[0] == '+') && p > 1 && p < u.len() {
        if p + 2 < u.len() && u[p] == '[' && (u[p + 1] == ' ' || u[p + 1] == 'x' || u[p + 1] == 'X')
            && u[p + 2] == ']' && q > p + 3 && q < u.len() {
            Some(
                (
                    false,
                    if u[p + 1] == ' ' {
                        "\u{2610} "@
                    } else {
                        "\u{2611} "@
                    },
                    u.subrange(q, u.len() as int),
                ),
            )
        } else {
            Some((false, seq![], u.subrange(p, u.len() as int)))
        }
    } else if d > 0 && d < u.len() && u[d] == '.' && r > d + 1 && r < u.len() {
        Some((true, seq![], u.subrange(r, u.len() as int)))
    } else {
        None
    }
}

/// The stack after a list line indented by `ind`, and the HTML it emits:
/// the tags that close deeper lists, the tag that opens a new list where
/// one begins, and the item.
pub open spec fn li_html(st: Seq<(bool, usize)>, ind: usize, ord: bool, item: Seq<char>) -> (
    Seq<(bool, usize)>,
    Seq<char>,
) {
    let (st1, closes) = pop_deeper(st, ind);
    if st1.len() == 0 || st1.last().1 < ind {
        (st1.push((ord, ind)), closes + open_tag(ord) + item)
    } else if st1.last().0 != ord {
        (st1.drop_last().push((ord, ind)), closes + close_tag(st1.last().0) + open_tag(ord) + item)
    } else {
        (st1, closes + item)
    }
}

/// The open lists are indented strictly deeper from the outermost to the
/// innermost.
pub open spec fn stack_ok(st: Seq<(bool, usize)>) -> bool {
    forall|a: int, b: int| 0 <= a < b < st.len() ==> #[trigger] st[a].1 < #[trigger] st[b].1
}

proof fn lemma_pop_deeper_ok(st: Seq<(bool, usize)>, ind: usize)
    requires
        stack_ok(st),
    ensures
        stack_ok(pop_deeper(st, ind).0),
        pop_deeper(st, ind).0.len() > 0 ==> pop_deeper(st, ind).0.last().1 <= ind,
    decreases st.len(),
{
    if st.len() > 0 && st.last().1 > ind {
        assert(stack_ok(st.drop_last())) by {
            assert forall|a: int, b: int| 0 <= a < b < st.drop_last().len() implies #[trigger] st.drop_last()[a].1
                < #[trigger] st.drop_last()[b].1 by {
                assert(st.drop_last()[a] == st[a]);
                assert(st.drop_last()[b] == st[b]);
            }
        }
        lemma_pop_deeper_ok(st.drop_last(), ind);
    }
}

/// A list line keeps the open lists strictly deeper from the outermost to
/// the innermost.
pub proof fn li_html_keeps_order(st: Seq<(bool, usize)>, ind: usize, ord: bool, item: Seq<char>)
    requires
        stack_ok(st),
    ensures
        stack_ok(li_html(st, ind, ord, item).0),
{
    lemma_pop_deeper_ok(st, ind);
    let st1 = pop_deeper(st, ind).0;
    let r = li_html(st, ind, ord, item).0;
    if st1.len() == 0 || st1.last().1 < ind {
        assert forall|a: int, b: int| 0 <= a < b < r.len() implies #[trigger] r[a].1 < #[trigger] r[b].1 by {
            if b == st1.len() {
                assert(r[a] == st1[a]);
                if a < st1.len() - 1 {
                    assert(st1[a].1 < st1[st1.len() - 1].1);
                }
            } else {
                assert(r[a] == st1[a]);
                assert(r[b] == st1[b]);
            }
        }
    } else if st1.last().0 != ord {
        assert forall|a: int, b: int| 0 <= a < b < r.len() implies #[trigger] r[a].1 < #[trigger] r[b].1 by {
            assert(r[a] == st1[a]);
            if b < st1.len() - 1 {
                assert(r[b] == st1[b]);
            } else {
                assert(st1[a].1 < st1[st1.len() - 1].1);
            }
        }
    }
}

pub open spec fn indent(t: Seq<char>) -> usize {
    scan(t, 0, Class::Space, false) as usize
}

pub open spec fn classify(x: (bool, Seq<char>)) -> Option<(bool, Seq<char>, Seq<char>)> {
    if x.0 {
        None
    } else {
        list_item(x.1)
    }
}

pub open spec fn list_go(
    l: Seq<(bool, Seq<char>)>,
    i: int,
    st: Seq<(bool, usize)>,
    acc: Seq<(bool, Seq<char>)>,
    defs: Seq<(Seq<char>, Seq<char>)>,
) -> Seq<(bool, Seq<char>)>
    decreases l.len() - i,
{
    if i < 0 || i >= l.len() {
        if st.len() > 0 {
            acc.push(done(close_all(st)))
        } else {
            acc
        }
    } else {
        match classify(l[i]) {
            Some((ord, pre, content)) => {
                let (st2, h) = li_html(
                    st,
                    indent(l[i].1),
                    ord,
                    "<li>"@ + pre + inline_spec(content, defs) + "</li>"@,
                );
                list_go(l, i + 1, st2, acc.push(done(h)), defs)
            },
            None => {
                let acc2 = if st.len() > 0 {
                    acc.push(done(close_all(st)))
                } else {
                    acc
                };
                list_go(l, i + 1, seq![], acc2.push(l[i]), defs)
            },
        }
    }
}

/// The list pass over all items.
pub open spec fn lists_spec(l: Seq<(bool, Seq<char>)>, defs: Seq<(Seq<char>, Seq<char>)>) -> Seq<
    (bool, Seq<char>),
> {
    list_go(l, 0, seq![], seq![], defs)
}

fn close_all_exec(st: &mut Vec<(bool, usize)>, out: &mut Vec<char>)
    ensures
        final(out)@ == old(out)@ + close_all(old(st)@),
        final(st)@.len() == 0,
{
    let ghost st0 = st@;
    let ghost out0 = out@;
    while st.len() > 0
        invariant
            out0 + close_all(st0) == out@ + close_all(st@),
        decreases st@.len(),
    {
        let ghost before = st@;
        let ghost ob = out@;
        let top = st.pop().unwrap();
        assert(before.drop_last() =~= st@);
        if top.0 {
            push_str(out, "</ol>");
        } else {
            push_str(out, "</ul>");
        }
        assert(ob + close_all(before) =~= out@ + close_all(st@));
    }
    assert(close_all(st@) =~= seq![]);
    assert(out@ =~= out0 + close_all(st0));
}

fn pop_deeper_exec(st: &mut Vec<(bool, usize)>, ind: usize, out: &mut Vec<char>)
    ensures
        final(st)@ == pop_deeper(old(st)@, ind).0,
        final(out)@ == old(out)@ + pop_deeper(old(st)@, ind).1,
{
    let ghost st0 = st@;
    let ghost out0 = out@;
    while st.len() > 0 && st[st.len() - 1].1 > ind
        invariant
            pop_deeper(st0, ind).0 == pop_deeper(st@, ind).0,
            out0 + pop_deeper(st0, ind).1 == out@ + pop_deeper(st@, ind).1,
        decreases st@.len(),
    {
        let ghost before = st@;
        let ghost ob = out@;
        let top = st.pop().unwrap();
        assert(before.drop_last() =~= st@);
        if top.0 {
            push_str(out, "</ol>");
        } else {
            push_str(out, "</ul>");
        }
        assert(ob + pop_deeper(before, ind).1 =~= out@ + pop_deeper(st@, ind).1);
    }
    assert(out@ + pop_deeper(st@, ind).1 =~= out@);
}

/// Recognises a list line; see `list_item`.
pub fn list_item_exec(t: &Vec<char>) -> (r: Option<(bool, Vec<char>, Vec<char>)>)
    ensures
        r matches Some(x) ==> list_item(t@) == Some((x.0, x.1@, x.2@)),
        r is None ==> list_item(t@) is None,
{
    let u = trim_exec(t);
    let n = u.len();
    if n > 0 && (u[0] == '-' || u[0] == '*' || u[0] == '+') {
        let p = scan_exec(&u, 1, Class::Space, false);
        if p > 1 && p < n {
            if p < n - 2 && u[p] == '[' && (u[p + 1] == ' ' || u[p + 1] == 'x' || u[p + 1] == 'X')
                && u[p + 2] == ']' {
                let q = scan_exec(&u, p + 3, Class::Space, false);
                if q > p + 3 && q < n {
                    let mut pre: Vec<char> = Vec::new();
                    if u[p + 1] == ' ' {
                        push_str(&mut pre, "\u{2610} ");
                    } else {
                        push_str(&mut pre, "\u{2611} ");
                    }
                    let mut c: Vec<char> = Vec::new();
                    push_range(&mut c, &u, q, n);
                    return Some((false, pre, c));
                }
            }
            let mut c: Vec<char> = Vec::new();
            push_range(&mut c, &u, p, n);
            return Some((false, Vec::new(), c));
        }
        return None;
    }
    let d = scan_exec(&u, 0, Class::Digit, false);
    if d > 0 && d < n && u[d] == '.' {
        let r = scan_exec(&u, d + 1, Class::Space, false);
        if r > d + 1 && r < n {
            let mut c: Vec<char> = Vec::new();
            push_range(&mut c, &u, r, n);
            return Some((true, Vec::new(), c));
        }
    }
    None
}

/// Runs the list pass over the items.
pub fn lists_exec(items: &Vec<Item>, defs: &Vec<RefDef>) -> (r: Vec<Item>)
    ensures
        items_view(r@) == lists_spec(items_view(items@), defs_view(defs@)),
{
    let ghost l = items_view(items@);
    let ghost dv = defs_view(defs@);
    let mut out: Vec<Item> = Vec::new();
    let mut st: Vec<(bool, usize)> = Vec::new();
    let mut i: usize = 0;
    assert(items_view(out@) =~= seq![]);
    assert(st@ =~= seq![]);
    while i < items.len()
        invariant
            i <= items@.len(),
            l == items_view(items@),
            dv == defs_view(defs@),
            stack_ok(st@),
            list_go(l, i as int, st@, items_view(out@), dv) == lists_spec(l, dv),
        decreases items@.len() - i,
    {
        assert(l[i as int] == (items@[i as int].done, items@[i as int].text@));
        let cls = if items[i].done {
            None
        } else {
            list_item_exec(&items[i].text)
        };
        let ghost acc0 = items_view(out@);
        let ghost st0 = st@;
        match cls {
            Some((ord, pre, content)) => {
                let t = &items[i].text;
                let ind = scan_exec(t, 0, Class::Space, false);
                let mut h: Vec<char> = Vec::new();
                pop_deeper_exec(&mut st, ind, &mut h);
                let n = st.len();
                if n == 0 || st[n - 1].1 < ind {
                    push_str(&mut h, if ord {
                        "<ol>"
                    } else {
                        "<ul>"
                    });
                    st.push((ord, ind));
                } else if st[n - 1].0 != ord {
                    push_str(&mut h, if st[n - 1].0 {
                        "</ol>"
                    } else {
                        "</ul>"
                    });
                    push_str(&mut h, if ord {
                        "<ol>"
                    } else {
                        "<ul>"
                    });
                    st.pop();
                    st.push((ord, ind));
                }
                let ghost h2 = h@;
                push_str(&mut h, "<li>");
                push_all(&mut h, &pre);
                let body = inline_exec(&content, defs);
                push_all(&mut h, &body);
                push_str(&mut h, "</li>");
                let ghost item = "<li>"@ + pre@ + inline_spec(content@, dv) + "</li>"@;
                assert(h@ =~= h2 + item);
                let ghost li = li_html(st0, indent(t@), ord, item);
                assert(ind as int == scan(t@, 0, Class::Space, false));
                assert(st@ =~= li.0);
                proof {
                    li_html_keeps_order(st0, indent(t@), ord, item);
                }
                assert(h@ =~= li.1);
                let ghost hv = h@;
                out.push(Item { done: true, text: h });
                assert(items_view(out@) =~= acc0.push(done(hv)));
            },
            None => {
                if st.len() > 0 {
                    let mut h: Vec<char> = Vec::new();
                    close_all_exec(&mut st, &mut h);
                    let ghost ob = items_view(out@);
                    out.push(Item { done: true, text: h });
                    assert(items_view(out@) =~= ob.push(done(close_all(st0))));
                }
                st = Vec::new();
                assert(st@ =~= seq![]);
                let mut c: Vec<char> = Vec::new();
                push_all(&mut c, &items[i].text);
                let ghost ob = items_view(out@);
                out.push(Item { done: items[i].done, text: c });
                assert(items_view(out@) =~= ob.push(l[i as int]));
            },
        }
        i = i + 1;
    }
    if st.len() > 0 {
        let ghost st0 = st@;
        let mut h: Vec<char> = Vec::new();
        close_all_exec(&mut st, &mut h);
        let ghost ob = items_view(out@);
        out.push(Item { done: true, text: h });
        assert(items_view(out@) =~= ob.push(done(close_all(st0))));
    }
    out
}

} // verus!
