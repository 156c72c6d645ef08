//! The page template and its two placeholders.
use vstd::prelude::*;

verus! {

/// The placeholder for the page title: `{{ title }}`.
pub open spec fn title_token() -> Seq<u8> {
    // `{`, `{`, ` `, `t`, `i`, `t`, `l`, `e`, ` `, `}`, `}`
    seq![123u8, 123, 32, 116, 105, 116, 108, 101, 32, 125, 125]
}

/// The placeholder for the file's escaped contents: `{{ contents }}`.
pub open spec fn contents_token() -> Seq<u8> {
    // `{`, `{`, ` `, `c`, `o`, `n`, `t`, `e`, `n`, `t`, `s`, ` `, `}`, `}`
    seq![123u8, 123, 32, 99, 111, 110, 116, 101, 110, 116, 115, 32, 125, 125]
}

/// `p` stands in `s` starting at position `k`.
pub open spec fn occurs_at(s: Seq<u8>, p: Seq<u8>, k: int) -> bool {
    0 <= k && k + p.len() <= s.len() && s.subrange(k, k + p.len()) == p
}

/// The first position at or after `k` where `p` stands in `s`.
pub open spec fn find_from(s: Seq<u8>, p: Seq<u8>, k: int) -> Option<int>
    decreases s.len() + 1 - k,
{
    if k < 0 || k + p.len() > s.len() {
        None
    } else if occurs_at(s, p, k) {
        Some(k)
    } else {
        find_from(s, p, k + 1)
    }
}

/// The position of the first occurrence of `p` in `s`.
pub open spec fn first_occurrence(s: Seq<u8>, p: Seq<u8>) -> Option<int> {
    find_from(s, p, 0)
}

/// `s` with the `n` bytes at position `k` replaced by `r`.
pub open spec fn splice(s: Seq<u8>, k: int, n: int, r: Seq<u8>) -> Seq<u8> {
    s.subrange(0, k) + r + s.subrange(k + n, s.len() as int)
}

/// The template with the first `{{ title }}` replaced by `title` and the first
/// `{{ contents }}` replaced by `contents`. Both are found in the template
/// itself, so text brought in by one replacement is never taken for a
/// placeholder; the later one is replaced first so that the earlier position
/// still holds.
pub open spec fn render_spec(tpl: Seq<u8>, title: Seq<u8>, contents: Seq<u8>) -> Seq<u8> {
    let nt = title_token().len() as int;
    let nc = contents_token().len() as int;
    match (first_occurrence(tpl, title_token()), first_occurrence(tpl, contents_token())) {
        (None, None) => tpl,
        (Some(i), None) => splice(tpl, i, nt, title),
        (None, Some(j)) => splice(tpl, j, nc, contents),
        (Some(i), Some(j)) => if i < j {
            splice(splice(tpl, j, nc, contents), i, nt, title)
        } else {
            splice(splice(tpl, i, nt, title), j, nc, contents)
        },
    }
}

/// Whether `pat` stands in `hay` at position `k`.
fn matches_at(hay: &[u8], pat: &[u8], k: usize) -> (r: bool)
    ensures
        r == occurs_at(hay@, pat@, k as int),
{
    if pat.len() > hay.len() || k > hay.len() - pat.len() {
        return false;
    }
    let mut j: usize = 0;
    while j < pat.len()
        invariant
            j <= pat@.len(),
            k + pat@.len() <= hay@.len(),
            hay@.len() == hay.len(),
            pat@.len() == pat.len(),
            forall|m: int| 0 <= m < j ==> hay@[k + m] == pat@[m],
        decreases pat@.len() - j,
    {
        if hay[k + j] != pat[j] {
            assert(hay@.subrange(k as int, k + pat@.len())[j as int] != pat@[j as int]);
            return false;
        }
        j = j + 1;
    }
    assert(hay@.subrange(k as int, k + pat@.len()) =~= pat@);
    true
}

/// The position of the first occurrence of `pat` in `hay`.
pub fn find(hay: &[u8], pat: &[u8]) -> (r: Option<usize>)
    ensures
        match r {
            Some(k) => first_occurrence(hay@, pat@) == Some(k as int),
            None => first_occurrence(hay@, pat@) is None,
        },
{
    if pat.len() > hay.len() {
        return None;
    }
    let last = hay.len() - pat.len();
    let mut k: usize = 0;
    while k <= last
        invariant
            last + pat@.len() == hay@.len(),
            first_occurrence(hay@, pat@) == find_from(hay@, pat@, k as int),
        decreases last + 1 - k,
    {
        if matches_at(hay, pat, k) {
            return Some(k);
        }
        if k == last {
            assert(find_from(hay@, pat@, k + 1) is None);
            return None;
        }
        k = k + 1;
    }
    None
}

/// The two placeholders never overlap: each begins with `{{` and neither holds
/// that pair anywhere else.
pub proof fn lemma_placeholders_apart(s: Seq<u8>, i: int, j: int)
    requires
        occurs_at(s, title_token(), i),
        occurs_at(s, contents_token(), j),
    ensures
        i + title_token().len() <= j || j + contents_token().len() <= i,
{
    let t = title_token();
    let c = contents_token();
    if i <= j && j < i + t.len() {
        let d = j - i;
        assert(s[j] == c[0] && s[j + 1] == c[1]) by {
            assert(s.subrange(j, j + c.len())[0] == s[j]);
            assert(s.subrange(j, j + c.len())[1] == s[j + 1]);
        }
        assert(s[j] == t[d]) by {
            assert(s.subrange(i, i + t.len())[d] == s[j]);
        }
        if d + 1 < t.len() {
            assert(s[j + 1] == t[d + 1]) by {
                assert(s.subrange(i, i + t.len())[d + 1] == s[j + 1]);
            }
        }
        if d == 0 {
            assert(s[i + 3] == t[3]) by {
                assert(s.subrange(i, i + t.len())[3] == s[i + 3]);
            }
            assert(s[j + 3] == c[3]) by {
                assert(s.subrange(j, j + c.len())[3] == s[j + 3]);
            }
        }
    } else if j < i && i < j + c.len() {
        let e = i - j;
        assert(s[i] == t[0] && s[i + 1] == t[1]) by {
            assert(s.subrange(i, i + t.len())[0] == s[i]);
            assert(s.subrange(i, i + t.len())[1] == s[i + 1]);
        }
        assert(s[i] == c[e]) by {
            assert(s.subrange(j, j + c.len())[e] == s[i]);
        }
        if e + 1 < c.len() {
            assert(s[i + 1] == c[e + 1]) by {
                assert(s.subrange(j, j + c.len())[e + 1] == s[i + 1]);
            }
        }
    }
}

/// Appends the bytes `src[lo..hi]` to `out`.
pub(crate) fn push_range(out: &mut Vec<u8>, src: &[u8], lo: usize, hi: usize)
    requires
        lo <= hi <= src@.len(),
    ensures
        final(out)@ == old(out)@ + src@.subrange(lo as int, hi as int),
{
    let mut k: usize = lo;
    while k < hi
        invariant
            lo <= k <= hi,
            hi <= src@.len(),
            out@ == old(out)@ + src@.subrange(lo as int, k as int),
        decreases hi - k,
    {
        out.push(src[k]);
        assert(src@.subrange(lo as int, k + 1) =~= src@.subrange(lo as int, k as int) + seq![src@[k as int]]);
        k = k + 1;
    }
}

/// The bytes of `{{ title }}`.
fn title_placeholder() -> (r: Vec<u8>)
    ensures
        r@ == title_token(),
{
    let r = vec![123u8, 123, 32, 116, 105, 116, 108, 101, 32, 125, 125];
    assert(r@ =~= title_token());
    r
}

/// The bytes of `{{ contents }}`.
fn contents_placeholder() -> (r: Vec<u8>)
    ensures
        r@ == contents_token(),
{
    let r = vec![123u8, 123, 32, 99, 111, 110, 116, 101, 110, 116, 115, 32, 125, 125];
    assert(r@ =~= contents_token());
    r
}

/// `s` with the `n` bytes at position `k` replaced by `r`.
fn splice_bytes(s: &[u8], k: usize, n: usize, r: &[u8]) -> (out: Vec<u8>)
    requires
        k + n <= s@.len(),
    ensures
        out@ == splice(s@, k as int, n as int, r@),
{
    let len = s.len();
    let mut out: Vec<u8> = Vec::new();
    push_range(&mut out, s, 0, k);
    push_range(&mut out, r, 0, r.len());
    push_range(&mut out, s, k + n, len);
    assert(r@.subrange(0, r@.len() as int) =~= r@);
    out
}

/// Fills the template: the first `{{ title }}` becomes `title` and the first
/// `{{ contents }}` becomes `contents`, both taken literally.
pub fn render(template: &[u8], title: &[u8], contents: &[u8]) -> (r: Vec<u8>)
    ensures
        r@ == render_spec(template@, title@, contents@),
{
    let tt = title_placeholder();
    let ct = contents_placeholder();
    let nt = tt.len();
    let nc = ct.len();
    let ti = find(template, tt.as_slice());
    let ci = find(template, ct.as_slice());
    let ghost tpl = template@;
    match (ti, ci) {
        (None, None) => {
            let mut out: Vec<u8> = Vec::new();
            push_range(&mut out, template, 0, template.len());
            assert(out@ =~= tpl);
            out
        },
        (Some(i), None) => {
            proof {
                lemma_first_occurrence_occurs(tpl, title_token(), i as int);
            }
            splice_bytes(template, i, nt, title)
        },
        (None, Some(j)) => {
            proof {
                lemma_first_occurrence_occurs(tpl, contents_token(), j as int);
            }
            splice_bytes(template, j, nc, contents)
        },
        (Some(i), Some(j)) => {
            proof {
                lemma_first_occurrence_occurs(tpl, title_token(), i as int);
                lemma_first_occurrence_occurs(tpl, contents_token(), j as int);
                lemma_placeholders_apart(tpl, i as int, j as int);
            }
            if i < j {
                let inner = splice_bytes(template, j, nc, contents);
                splice_bytes(inner.as_slice(), i, nt, title)
            } else {
                let inner = splice_bytes(template, i, nt, title);
                splice_bytes(inner.as_slice(), j, nc, contents)
            }
        },
    }
}

/// What `find_from` returns is an occurrence.
pub proof fn lemma_find_from_occurs(s: Seq<u8>, p: Seq<u8>, k: int, m: int)
    requires
        find_from(s, p, k) == Some(m),
    ensures
        occurs_at(s, p, m),
        k <= m,
    decreases s.len() + 1 - k,
{
    if !(k < 0 || k + p.len() > s.len()) && !occurs_at(s, p, k) {
        lemma_find_from_occurs(s, p, k + 1, m);
    }
}

/// The first occurrence is an occurrence.
pub proof fn lemma_first_occurrence_occurs(s: Seq<u8>, p: Seq<u8>, m: int)
    requires
        first_occurrence(s, p) == Some(m),
    ensures
        occurs_at(s, p, m),
{
    lemma_find_from_occurs(s, p, 0, m);
}

/// A pattern that occurs somewhere is found from any earlier position.
pub proof fn lemma_find_from_finds(s: Seq<u8>, p: Seq<u8>, m: int, k: int)
    requires
        occurs_at(s, p, k),
        0 <= m <= k,
    ensures
        find_from(s, p, m) is Some,
    decreases k - m,
{
    if m < k && !occurs_at(s, p, m) {
        lemma_find_from_finds(s, p, m + 1, k);
    }
}

/// A pattern that occurs somewhere has a first occurrence.
pub proof fn lemma_occurrence_found(s: Seq<u8>, p: Seq<u8>, k: int)
    requires
        occurs_at(s, p, k),
    ensures
        first_occurrence(s, p) is Some,
{
    lemma_find_from_finds(s, p, 0, k);
}

/// What a rendered page holds before the contents: the template up to its
/// contents placeholder, with the title filled in if it comes first.
pub open spec fn embed_prefix(tpl: Seq<u8>, title: Seq<u8>) -> Seq<u8> {
    let nt = title_token().len() as int;
    match (first_occurrence(tpl, title_token()), first_occurrence(tpl, contents_token())) {
        (Some(i), Some(j)) => if i < j {
            tpl.subrange(0, i) + title + tpl.subrange(i + nt, j)
        } else {
            tpl.subrange(0, j)
        },
        (None, Some(j)) => tpl.subrange(0, j),
        (_, None) => tpl,
    }
}

/// What a rendered page holds after the contents: the template after its
/// contents placeholder, with the title filled in if it comes later.
pub open spec fn embed_suffix(tpl: Seq<u8>, title: Seq<u8>) -> Seq<u8> {
    let nt = title_token().len() as int;
    let nc = contents_token().len() as int;
    match (first_occurrence(tpl, title_token()), first_occurrence(tpl, contents_token())) {
        (Some(i), Some(j)) => if i < j {
            tpl.subrange(j + nc, tpl.len() as int)
        } else {
            tpl.subrange(j + nc, i) + title + tpl.subrange(i + nt, tpl.len() as int)
        },
        (None, Some(j)) => tpl.subrange(j + nc, tpl.len() as int),
        (_, None) => Seq::empty(),
    }
}

/// In a template with a contents placeholder, the contents land in one piece
/// between a prefix and a suffix that depend on the template and title alone.
pub proof fn lemma_render_embeds(tpl: Seq<u8>, title: Seq<u8>, contents: Seq<u8>)
    requires
        first_occurrence(tpl, contents_token()) is Some,
    ensures
        render_spec(tpl, title, contents) == embed_prefix(tpl, title) + contents + embed_suffix(
            tpl,
            title,
        ),
{
    let nt = title_token().len() as int;
    let nc = contents_token().len() as int;
    let j = first_occurrence(tpl, contents_token())->Some_0;
    lemma_first_occurrence_occurs(tpl, contents_token(), j);
    match first_occurrence(tpl, title_token()) {
        Some(i) => {
            lemma_first_occurrence_occurs(tpl, title_token(), i);
            lemma_placeholders_apart(tpl, i, j);
            if i < j {
                let inner = splice(tpl, j, nc, contents);
                assert(inner.subrange(0, i) =~= tpl.subrange(0, i));
                assert(inner.subrange(i + nt, inner.len() as int) =~= tpl.subrange(i + nt, j)
                    + contents + tpl.subrange(j + nc, tpl.len() as int));
                assert(render_spec(tpl, title, contents) =~= embed_prefix(tpl, title) + contents
                    + embed_suffix(tpl, title));
            } else {
                let inner = splice(tpl, i, nt, title);
                assert(inner.subrange(0, j) =~= tpl.subrange(0, j));
                assert(inner.subrange(j + nc, inner.len() as int) =~= tpl.subrange(j + nc, i)
                    + title + tpl.subrange(i + nt, tpl.len() as int));
                assert(render_spec(tpl, title, contents) =~= embed_prefix(tpl, title) + contents
                    + embed_suffix(tpl, title));
            }
        },
        None => {
            assert(render_spec(tpl, title, contents) =~= embed_prefix(tpl, title) + contents
                + embed_suffix(tpl, title));
        },
    }
}

} // verus!
