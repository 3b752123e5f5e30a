//! Link-reference definitions: recognising `[key]: url` lines, taking them
//! out of the document, and the lookup table they form.
use vstd::prelude::*;
use crate::text::{Class, scan, scan_exec, push_range, vecs_view};

verus! {

/// What `str::to_lowercase` makes of a string.
pub uninterp spec fn lower_of(s: Seq<char>) -> Seq<char>;

/// Relies on `str::to_lowercase`: the result depends on the characters alone.
#[verifier::external_body]
pub(crate) fn fold_key(k: &Vec<char>) -> (r: Vec<char>)
    ensures
        r@ == lower_of(k@),
{
    k.iter().collect::<String>().to_lowercase().chars().collect()
}

/// One definition: its case-folded key and its URL.
pub struct RefDef {
    pub key: Vec<char>,
    pub url: Vec<char>,
}

pub open spec fn defs_view(v: Seq<RefDef>) -> Seq<(Seq<char>, Seq<char>)> {
    v.map_values(|d: RefDef| (d.key@, d.url@))
}

/// The URL of the first definition, from index `k` on, whose key is `key`.
pub open spec fn lookup_from(defs: Seq<(Seq<char>, Seq<char>)>, k: int, key: Seq<char>) -> Option<
    Seq<char>,
>
    decreases defs.len() - k,
{
    if k < 0 || k >= defs.len() {
        None
    } else if defs[k].0 == key {
        Some(defs[k].1)
    } else {
        lookup_from(defs, k + 1, key)
    }
}

/// The URL of the earliest definition of `key`.
pub open spec fn lookup(defs: Seq<(Seq<char>, Seq<char>)>, key: Seq<char>) -> Option<Seq<char>> {
    lookup_from(defs, 0, key)
}

fn same_chars(a: &Vec<char>, b: &Vec<char>) -> (r: bool)
    ensures
        r == (a@ == b@),
{
    if a.len() != b.len() {
        return false;
    }
    let mut k: usize = 0;
    while k < a.len()
        invariant
            a@.len() == b@.len(),
            k <= a@.len(),
            forall|j: int| 0 <= j < k ==> a@[j] == b@[j],
        decreases a@.len() - k,
    {
        if a[k] != b[k] {
            return false;
        }
        k = k + 1;
    }
    assert(a@ =~= b@);
    true
}

/// Finds the URL of the earliest definition whose key is `key`.
pub fn lookup_exec(defs: &Vec<RefDef>, key: &Vec<char>) -> (r: Option<Vec<char>>)
    ensures
        r matches Some(u) ==> lookup(defs_view(defs@), key@) == Some(u@),
        r is None ==> lookup(defs_view(defs@), key@) is None,
{
    let ghost dv = defs_view(defs@);
    let mut k: usize = 0;
    while k < defs.len()
        invariant
            k <= defs@.len(),
            dv == defs_view(defs@),
            dv.len() == defs@.len(),
            lookup(dv, key@) == lookup_from(dv, k as int, key@),
        decreases defs@.len() - k,
    {
        assert(dv[k as int] == (defs@[k as int].key@, defs@[k as int].url@));
        if same_chars(&defs[k].key, key) {
            return Some(defs[k].url.clone());
        }
        k = k + 1;
    }
    None
}

/// The parts of a definition line: the index of `[`, of `]`, and where the
/// URL starts. The line is optional spaces, `[`, a key without `]`, `]:`,
/// at least one space, and a URL that runs to the end of the line.
pub open spec fn def_parts(t: Seq<char>) -> Option<(int, int, int)> {
    let p = scan(t, 0, Class::Space, false);
    let a = scan(t, p + 1, Class::Is(']'), true);
    let q = scan(t, a + 2, Class::Space, false);
    if p < t.len() && t[p] == '[' && a > p + 1 && a + 1 < t.len() && t[a + 1] == ':' && q > a + 2
        && q < t.len() {
        Some((p, a, q))
    } else {
        None
    }
}

pub open spec fn is_def(t: Seq<char>) -> bool {
    def_parts(t) is Some
}

pub open spec fn def_key(t: Seq<char>) -> Seq<char> {
    let (p, a, q) = def_parts(t)->0;
    t.subrange(p + 1, a)
}

pub open spec fn def_url(t: Seq<char>) -> Seq<char> {
    let (p, a, q) = def_parts(t)->0;
    t.subrange(q, t.len() as int)
}

/// Recognises a definition line; returns the indices of `def_parts`.
pub fn parse_def(t: &Vec<char>) -> (r: Option<(usize, usize, usize)>)
    ensures
        r matches Some(x) ==> def_parts(t@) == Some((x.0 as int, x.1 as int, x.2 as int)),
        r is None ==> def_parts(t@) is None,
{
    let p = scan_exec(t, 0, Class::Space, false);
    if p >= t.len() || t[p] != '[' {
        return None;
    }
    let a = scan_exec(t, p + 1, Class::Is(']'), true);
    if a <= p + 1 || a >= t.len() - 1 || t[a + 1] != ':' {
        return None;
    }
    let q = scan_exec(t, a + 2, Class::Space, false);
    if q <= a + 2 || q >= t.len() {
        return None;
    }
    Some((p, a, q))
}

/// The lines that are not definitions, in order.
pub open spec fn kept_go(lines: Seq<Seq<char>>, i: int, acc: Seq<Seq<char>>) -> Seq<Seq<char>>
    decreases lines.len() - i,
{
    if i < 0 || i >= lines.len() {
        acc
    } else if is_def(lines[i]) {
        kept_go(lines, i + 1, acc)
    } else {
        kept_go(lines, i + 1, acc.push(lines[i]))
    }
}

pub open spec fn kept_lines(lines: Seq<Seq<char>>) -> Seq<Seq<char>> {
    kept_go(lines, 0, seq![])
}

/// The definitions, in document order: folded key and URL.
pub open spec fn defs_go(lines: Seq<Seq<char>>, i: int, acc: Seq<(Seq<char>, Seq<char>)>) -> Seq<
    (Seq<char>, Seq<char>),
>
    decreases lines.len() - i,
{
    if i < 0 || i >= lines.len() {
        acc
    } else if is_def(lines[i]) {
        defs_go(lines, i + 1, acc.push((lower_of(def_key(lines[i])), def_url(lines[i]))))
    } else {
        defs_go(lines, i + 1, acc)
    }
}

pub open spec fn defs_of(lines: Seq<Seq<char>>) -> Seq<(Seq<char>, Seq<char>)> {
    defs_go(lines, 0, seq![])
}

/// Splits the lines of a document into the lines that stay and the table
/// of definitions; on a repeated key the earliest definition is found first.
pub fn extract_refs(lines: &Vec<Vec<char>>) -> (r: (Vec<Vec<char>>, Vec<RefDef>))
    ensures
        vecs_view(r.0@) == kept_lines(vecs_view(lines@)),
        defs_view(r.1@) == defs_of(vecs_view(lines@)),
{
    let ghost lv = vecs_view(lines@);
    let mut kept: Vec<Vec<char>> = Vec::new();
    let mut defs: Vec<RefDef> = Vec::new();
    let mut i: usize = 0;
    assert(vecs_view(kept@) =~= seq![]);
    assert(defs_view(defs@) =~= seq![]);
    while i < lines.len()
        invariant
            i <= lines@.len(),
            lv == vecs_view(lines@),
            lv.len() == lines@.len(),
            kept_go(lv, i as int, vecs_view(kept@)) == kept_lines(lv),
            defs_go(lv, i as int, defs_view(defs@)) == defs_of(lv),
        decreases lines@.len() - i,
    {
        let line = &lines[i];
        assert(lv[i as int] == line@);
        match parse_def(line) {
            Some((p, a, q)) => {
                let mut key: Vec<char> = Vec::new();
                push_range(&mut key, line, p + 1, a);
                let mut url: Vec<char> = Vec::new();
                push_range(&mut url, line, q, line.len());
                let folded = fold_key(&key);
                let ghost before = defs@;
                defs.push(RefDef { key: folded, url });
                assert(defs_view(defs@) =~= defs_view(before).push(
                    (lower_of(def_key(lv[i as int])), def_url(lv[i as int]))));
            },
            None => {
                let ghost before = kept@;
                let copy = line.clone();
                assert(copy@ =~= line@);
                kept.push(copy);
                assert(vecs_view(kept@) =~= vecs_view(before).push(lv[i as int]));
            },
        }
        i = i + 1;
    }
    (kept, defs)
}

proof fn lemma_defs_acc(lines: Seq<Seq<char>>, m: int, acc: Seq<(Seq<char>, Seq<char>)>)
    requires
        0 <= m <= lines.len(),
    ensures
        defs_go(lines, m, acc) == acc + defs_go(lines, m, seq![]),
    decreases lines.len() - m,
{
    if m < lines.len() {
        if is_def(lines[m]) {
            let e = (lower_of(def_key(lines[m])), def_url(lines[m]));
            lemma_defs_acc(lines, m + 1, acc.push(e));
            lemma_defs_acc(lines, m + 1, seq![e]);
            assert(Seq::<(Seq<char>, Seq<char>)>::empty().push(e) =~= seq![e]);
            assert(acc.push(e) + defs_go(lines, m + 1, seq![]) =~= acc + (seq![e] + defs_go(
                lines,
                m + 1,
                seq![],
            )));
        } else {
            lemma_defs_acc(lines, m + 1, acc);
        }
    } else {
        assert(acc + Seq::<(Seq<char>, Seq<char>)>::empty() =~= acc);
    }
}

proof fn lemma_lookup_at(defs: Seq<(Seq<char>, Seq<char>)>, k: int, n: int, key: Seq<char>)
    requires
        0 <= k <= n < defs.len(),
        defs[n].0 == key,
        forall|j: int| k <= j < n ==> #[trigger] defs[j].0 != key,
    ensures
        lookup_from(defs, k, key) == Some(defs[n].1),
    decreases n - k,
{
    if k < n {
        lemma_lookup_at(defs, k + 1, n, key);
    }
}

proof fn lemma_earliest(lines: Seq<Seq<char>>, m: int, i: int, acc: Seq<(Seq<char>, Seq<char>)>)
    requires
        0 <= m <= i < lines.len(),
        is_def(lines[i]),
        forall|j: int| 0 <= j < acc.len() ==> #[trigger] acc[j].0 != lower_of(def_key(lines[i])),
        forall|n: int|
            m <= n < i && is_def(#[trigger] lines[n]) ==> lower_of(def_key(lines[n])) != lower_of(
                def_key(lines[i]),
            ),
    ensures
        lookup(defs_go(lines, m, acc), lower_of(def_key(lines[i]))) == Some(def_url(lines[i])),
    decreases i - m,
{
    let key = lower_of(def_key(lines[i]));
    if m == i {
        let e = (key, def_url(lines[i]));
        lemma_defs_acc(lines, i + 1, acc.push(e));
        let d = acc.push(e) + defs_go(lines, i + 1, seq![]);
        assert(d[acc.len() as int] == e);
        assert forall|j: int| 0 <= j < acc.len() implies #[trigger] d[j].0 != key by {
            assert(d[j] == acc[j]);
        }
        lemma_lookup_at(d, 0, acc.len() as int, key);
    } else if is_def(lines[m]) {
        let e = (lower_of(def_key(lines[m])), def_url(lines[m]));
        assert forall|j: int| 0 <= j < acc.push(e).len() implies #[trigger] acc.push(e)[j].0
            != key by {
            if j < acc.len() {
                assert(acc.push(e)[j] == acc[j]);
            }
        }
        lemma_earliest(lines, m + 1, i, acc.push(e));
    } else {
        lemma_earliest(lines, m + 1, i, acc);
    }
}

/// Where a key is defined more than once, the definition that comes first
/// in the document is the one a reference finds: if line `i` defines a key
/// that no earlier definition folds to, looking that key up gives the URL
/// of line `i`, whatever later lines define.
pub proof fn earliest_definition_wins(lines: Seq<Seq<char>>, i: int)
    requires
        0 <= i < lines.len(),
        is_def(lines[i]),
        forall|n: int|
            0 <= n < i && is_def(#[trigger] lines[n]) ==> lower_of(def_key(lines[n])) != lower_of(
                def_key(lines[i]),
            ),
    ensures
        lookup(defs_of(lines), lower_of(def_key(lines[i]))) == Some(def_url(lines[i])),
{
    lemma_earliest(lines, 0, i, seq![]);
}

/// Of two definitions of keys that fold alike, the earlier one is found:
/// a later definition never replaces it.
pub proof fn later_definition_is_ignored(lines: Seq<Seq<char>>, i: int, j: int)
    requires
        0 <= i < j < lines.len(),
        is_def(lines[i]),
        is_def(lines[j]),
        lower_of(def_key(lines[i])) == lower_of(def_key(lines[j])),
        forall|n: int|
            0 <= n < i && is_def(#[trigger] lines[n]) ==> lower_of(def_key(lines[n])) != lower_of(
                def_key(lines[i]),
            ),
    ensures
        lookup(defs_of(lines), lower_of(def_key(lines[j]))) == Some(def_url(lines[i])),
{
    earliest_definition_wins(lines, i);
}

} // verus!
