//! Image references in an HTML fragment: finding the sources of `<img>`
//! tags, and putting data URIs in their place.
use vstd::prelude::*;
use crate::text::{
    run, Class, in_class, class_has, scan, scan_exec, has_at, matches_at, chars_of, push_str,
    push_range, push_all, string_of,
};
use base64::Engine;

verus! {

broadcast use vstd::string::group_string_axioms;

/// A whitespace character at `k`, then `src="`, a non-empty source up to
/// the next `"`, and later a `>`: where an `<img` tag's source may begin.
pub open spec fn src_fits(t: Seq<char>, k: int) -> bool {
    let q = scan(t, k + 6, Class::Is('"'), true);
    let e = scan(t, q + 1, Class::Is('>'), true);
    in_class(Class::Blank, t[k]) && has_at(t, k + 1, "src=\""@) && q > k + 6 && q < t.len() && e
        < t.len()
}

/// The last index in `lo..hi` where a source fits; `lo - 1` if none.
pub open spec fn src_back(t: Seq<char>, lo: int, hi: int) -> int
    decreases hi - lo,
{
    if hi <= lo {
        lo - 1
    } else if src_fits(t, hi - 1) {
        hi - 1
    } else {
        src_back(t, lo, hi - 1)
    }
}

pub proof fn lemma_src_back(t: Seq<char>, lo: int, hi: int)
    requires
        lo <= hi,
    ensures
        lo - 1 <= src_back(t, lo, hi) < hi,
        src_back(t, lo, hi) >= lo ==> src_fits(t, src_back(t, lo, hi)),
    decreases hi - lo,
{
    if hi > lo && !src_fits(t, hi - 1) {
        lemma_src_back(t, lo, hi - 1);
    }
}

/// An `<img` tag at `i`, as the pattern `<img([^>]*)\ssrc="([^"]+)"([^>]*)>`
/// matches it: the whitespace before `src="` (the last one, before the
/// first `>`, from which the match completes), the quote that ends the
/// source, and the `>` that ends the tag.
pub open spec fn img_match(t: Seq<char>, i: int) -> Option<(int, int, int)> {
    let g = scan(t, i + 4, Class::Is('>'), true);
    let k = src_back(t, i + 4, g);
    let q = scan(t, k + 6, Class::Is('"'), true);
    let e = scan(t, q + 1, Class::Is('>'), true);
    if has_at(t, i, "<img"@) && k >= i + 4 {
        Some((k, q, e))
    } else {
        None
    }
}

pub open spec fn is_data(src: Seq<char>) -> bool {
    has_at(src, 0, "data:"@)
}

/// The data URI fetched for `src`, if any: the first pair whose source is `src`.
pub open spec fn uri_for(f: Seq<(String, String)>, src: Seq<char>, k: int) -> Option<Seq<char>>
    decreases f.len() - k,
{
    if k < 0 || k >= f.len() {
        None
    } else if f[k].0@ == src {
        Some(f[k].1@)
    } else {
        uri_for(f, src, k + 1)
    }
}

pub open spec fn img_step(t: Seq<char>, i: int, f: Seq<(String, String)>) -> (Seq<char>, int) {
    match img_match(t, i) {
        Some((k, q, e)) => {
            let src = t.subrange(k + 6, q);
            if is_data(src) {
                (t.subrange(i, e + 1), e + 1)
            } else {
                let uri = match uri_for(f, src, 0) {
                    Some(u) => u,
                    None => src,
                };
                (
                    "<img"@ + t.subrange(i + 4, k) + " src=\""@ + uri + "\""@ + t.subrange(q + 1, e)
                        + ">"@,
                    e + 1,
                )
            }
        },
        None => (seq![t[i]], i + 1),
    }
}

pub open spec fn img_step_of(f: Seq<(String, String)>) -> spec_fn(Seq<char>, int) -> (
    Seq<char>,
    int,
) {
    |t: Seq<char>, i: int| img_step(t, i, f)
}

/// The fragment with the source of each `<img>` tag that is not already a
/// data URI replaced by the URI fetched for it; a tag whose source was not
/// fetched keeps it.
pub open spec fn inlined(t: Seq<char>, f: Seq<(String, String)>) -> Seq<char> {
    run(t, 0, seq![], img_step_of(f))
}

/// The sources of the `<img>` tags from index `i` on that are not data URIs.
pub open spec fn sources_go(t: Seq<char>, i: int, acc: Seq<Seq<char>>) -> Seq<Seq<char>>
    decreases t.len() - i,
{
    if i < 0 || i >= t.len() {
        acc
    } else {
        match img_match(t, i) {
            Some((k, q, e)) => {
                let src = t.subrange(k + 6, q);
                if e < i || e >= t.len() {
                    acc
                } else {
                    sources_go(t, e + 1, if is_data(src) { acc } else { acc.push(src) })
                }
            },
            None => sources_go(t, i + 1, acc),
        }
    }
}

pub open spec fn sources(t: Seq<char>) -> Seq<Seq<char>> {
    sources_go(t, 0, seq![])
}

fn src_fits_exec(t: &Vec<char>, k: usize) -> (r: bool)
    requires
        k < t@.len(),
    ensures
        r == src_fits(t@, k as int),
{
    let len = t.len();
    proof {
        reveal_strlit("src=\"");
    }
    if !class_has(Class::Blank, t[k]) || !matches_at(t, k + 1, "src=\"") {
        return false;
    }
    let q = scan_exec(t, k + 6, Class::Is('"'), true);
    if q <= k + 6 || q >= len {
        return false;
    }
    let e = scan_exec(t, q + 1, Class::Is('>'), true);
    e < len
}

fn img_match_exec(t: &Vec<char>, i: usize) -> (r: Option<(usize, usize, usize)>)
    requires
        i < t@.len(),
    ensures
        r matches Some(x) ==> img_match(t@, i as int) == Some((x.0 as int, x.1 as int, x.2 as int)),
        r is None ==> img_match(t@, i as int) is None,
        r matches Some(x) ==> i + 4 <= x.0 && x.0 + 6 < x.1 && x.1 < x.2 && x.2 < t@.len(),
{
    let len = t.len();
    proof {
        reveal_strlit("<img");
        reveal_strlit("src=\"");
    }
    if !matches_at(t, i, "<img") {
        return None;
    }
    let g = scan_exec(t, i + 4, Class::Is('>'), true);
    let mut h = g;
    while h > i + 4 && !src_fits_exec(t, h - 1)
        invariant
            i + 4 <= h <= g <= len,
            len == t@.len(),
            src_back(t@, i + 4, g as int) == src_back(t@, i + 4, h as int),
        decreases h,
    {
        h = h - 1;
    }
    if h <= i + 4 {
        return None;
    }
    let k = h - 1;
    proof {
        lemma_src_back(t@, i + 4, g as int);
    }
    let q = scan_exec(t, k + 6, Class::Is('"'), true);
    let e = scan_exec(t, q + 1, Class::Is('>'), true);
    Some((k, q, e))
}

fn uri_for_exec(f: &Vec<(String, String)>, src: &Vec<char>) -> (r: Option<Vec<char>>)
    ensures
        r matches Some(u) ==> uri_for(f@, src@, 0) == Some(u@),
        r is None ==> uri_for(f@, src@, 0) is None,
{
    let mut k: usize = 0;
    while k < f.len()
        invariant
            k <= f@.len(),
            uri_for(f@, src@, 0) == uri_for(f@, src@, k as int),
        decreases f@.len() - k,
    {
        let s = chars_of(f[k].0.as_str());
        if same(&s, src) {
            return Some(chars_of(f[k].1.as_str()));
        }
        k = k + 1;
    }
    None
}

fn same(a: &Vec<char>, b: &Vec<char>) -> (r: bool)
    ensures
        r == (a@ == b@),
{
    if a.len() != b.len() {
        return false;
    }
    let mut k: usize = 0;
    while k < a.len()
        invariant
            a@.len() == b@.len(),
            k <= a@.len(),
            forall|j: int| 0 <= j < k ==> a@[j] == b@[j],
        decreases a@.len() - k,
    {
        if a[k] != b[k] {
            return false;
        }
        k = k + 1;
    }
    assert(a@ =~= b@);
    true
}

fn img_step_exec(t: &Vec<char>, i: usize, f: &Vec<(String, String)>, out: &mut Vec<char>) -> (n:
    usize)
    requires
        i < t@.len(),
    ensures
        final(out)@ == old(out)@ + img_step(t@, i as int, f@).0,
        n == img_step(t@, i as int, f@).1,
        i < n <= t@.len(),
{
    let len = t.len();
    match img_match_exec(t, i) {
        Some((k, q, e)) => {
            let mut src: Vec<char> = Vec::new();
            push_range(&mut src, t, k + 6, q);
            if matches_at(&src, 0, "data:") {
                push_range(out, t, i, e + 1);
                return e + 1;
            }
            let uri = match uri_for_exec(f, &src) {
                Some(u) => u,
                None => src,
            };
            push_str(out, "<img");
            push_range(out, t, i + 4, k);
            push_str(out, " src=\"");
            push_all(out, &uri);
            push_str(out, "\"");
            push_range(out, t, q + 1, e);
            push_str(out, ">");
            assert(final(out)@ =~= old(out)@ + img_step(t@, i as int, f@).0);
            e + 1
        },
        None => {
            out.push(t[i]);
            assert(final(out)@ =~= old(out)@ + img_step(t@, i as int, f@).0);
            i + 1
        },
    }
}

/// Puts the fetched data URIs in place of the image sources of `html`.
/// `fetched` pairs a source with the data URI fetched for it; sources that
/// are already data URIs, or that were not fetched, stay as they are.
pub fn inline_images(html: &str, fetched: &Vec<(String, String)>) -> (r: String)
    ensures
        r@ == inlined(html@, fetched@),
{
    let t = chars_of(html);
    let ghost step = img_step_of(fetched@);
    let mut out: Vec<char> = Vec::new();
    let mut i: usize = 0;
    while i < t.len()
        invariant
            i <= t@.len(),
            t@ == html@,
            step == img_step_of(fetched@),
            run(t@, i as int, out@, step) == inlined(html@, fetched@),
        decreases t@.len() - i,
    {
        let ghost before = out@;
        let n = img_step_exec(&t, i, fetched, &mut out);
        assert(step(t@, i as int) == img_step(t@, i as int, fetched@));
        assert(run(t@, i as int, before, step) == run(t@, n as int, out@, step));
        i = n;
    }
    string_of(&out)
}

/// The sources that `inline_images` would replace, in order of appearance.
pub fn image_sources(html: &str) -> (r: Vec<String>)
    ensures
        r@.map_values(|s: String| s@) == sources(html@),
{
    let t = chars_of(html);
    let mut acc: Vec<String> = Vec::new();
    let mut i: usize = 0;
    assert(acc@.map_values(|s: String| s@) =~= seq![]);
    while i < t.len()
        invariant
            i <= t@.len(),
            t@ == html@,
            sources_go(t@, i as int, acc@.map_values(|s: String| s@)) == sources(html@),
        decreases t@.len() - i,
    {
        let len = t.len();
        match img_match_exec(&t, i) {
            Some((k, q, e)) => {
                let mut src: Vec<char> = Vec::new();
                push_range(&mut src, &t, k + 6, q);
                if !matches_at(&src, 0, "data:") {
                    let ghost before = acc@.map_values(|s: String| s@);
                    let s = string_of(&src);
                    acc.push(s);
                    assert(acc@.map_values(|s: String| s@) =~= before.push(src@));
                }
                i = e + 1;
            },
            None => {
                i = i + 1;
            },
        }
    }
    acc
}

/// Whether a source is fetched over the network rather than read from disk.
pub fn is_remote_source(src: &str) -> (r: bool)
    ensures
        r == (has_at(src@, 0, "http://"@) || has_at(src@, 0, "https://"@)),
{
    let t = chars_of(src);
    matches_at(&t, 0, "http://") || matches_at(&t, 0, "https://")
}

/// What `base64`'s standard engine makes of the bytes.
pub uninterp spec fn base64_of(b: Seq<u8>) -> Seq<char>;

/// Relies on `base64::engine::general_purpose::STANDARD.encode`: the padded
/// standard encoding, a function of the bytes alone; no bytes give no text.
/// It panics only where the encoded length overflows, which a vector no
/// longer than an allocation can hold never reaches.
#[verifier::external_body]
fn base64_encode(b: &Vec<u8>) -> (r: String)
    requires
        b@.len() <= usize::MAX / 2,
    ensures
        r@ == base64_of(b@),
        b@.len() == 0 ==> r@.len() == 0,
{
    base64::engine::general_purpose::STANDARD.encode(b)
}

/// A data URI holding the bytes, of the given media type.
pub fn data_uri(content_type: &str, bytes: &Vec<u8>) -> (r: String)
    requires
        bytes@.len() <= usize::MAX / 2,
    ensures
        r@ == "data:"@ + content_type@ + ";base64,"@ + base64_of(bytes@),
{
    let enc = base64_encode(bytes);
    let mut out: Vec<char> = Vec::new();
    push_str(&mut out, "data:");
    push_str(&mut out, content_type);
    push_str(&mut out, ";base64,");
    push_str(&mut out, enc.as_str());
    string_of(&out)
}

/// What `Path::extension` gives for a path, as text.
pub uninterp spec fn extension_of(p: Seq<char>) -> Option<Seq<char>>;

/// Relies on `std::path::Path::extension`: the extension of the file name,
/// a function of the path alone.
#[verifier::external_body]
fn path_extension(path: &str) -> (r: Option<String>)
    ensures
        r matches Some(e) ==> extension_of(path@) == Some(e@),
        r is None ==> extension_of(path@) is None,
{
    match std::path::Path::new(path).extension() {
        Some(e) => Some(e.to_string_lossy().into_owned()),
        None => None,
    }
}

/// The media type for a file extension; PNG where it is not known.
pub open spec fn mime_for(ext: Option<Seq<char>>) -> Seq<char> {
    match ext {
        Some(e) => if e == "png"@ {
            "image/png"@
        } else if e == "jpg"@ || e == "jpeg"@ {
            "image/jpeg"@
        } else if e == "gif"@ {
            "image/gif"@
        } else if e == "webp"@ {
            "image/webp"@
        } else if e == "svg"@ {
            "image/svg+xml"@
        } else if e == "ico"@ {
            "image/x-icon"@
        } else if e == "bmp"@ {
            "image/bmp"@
        } else {
            "image/png"@
        },
        None => "image/png"@,
    }
}

fn is_word_of(a: &Vec<char>, lit: &str) -> (r: bool)
    ensures
        r == (a@ == lit@),
{
    let b = chars_of(lit);
    same(a, &b)
}

/// Guesses the media type of an image file from its extension.
pub fn guess_mime_type(path: &str) -> (r: &'static str)
    ensures
        r@ == mime_for(extension_of(path@)),
{
    match path_extension(path) {
        Some(e) => {
            let v = chars_of(e.as_str());
            if is_word_of(&v, "png") {
                "image/png"
            } else if is_word_of(&v, "jpg") || is_word_of(&v, "jpeg") {
                "image/jpeg"
            } else if is_word_of(&v, "gif") {
                "image/gif"
            } else if is_word_of(&v, "webp") {
                "image/webp"
            } else if is_word_of(&v, "svg") {
                "image/svg+xml"
            } else if is_word_of(&v, "ico") {
                "image/x-icon"
            } else if is_word_of(&v, "bmp") {
                "image/bmp"
            } else {
                "image/png"
            }
        },
        None => "image/png",
    }
}

/// An image rendered from vector markup: its PNG data in base64, and the
/// size at which it is meant to be shown.
pub struct SvgRenderResult {
    pub png_base64: String,
    pub display_width: u32,
    pub display_height: u32,
}

} // verus!
