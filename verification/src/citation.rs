//! Citation keys made from URLs, and the sorted, duplicate-free lists of cited URLs.
use vstd::prelude::*;
use crate::fragments::utf8_len;
use crate::text::{alphanumeric, first_match, last_match, lower, strip_leading, strip_trailing};
use crate::words::sviews;

verus! {

broadcast use vstd::string::group_string_axioms;

/// The text before the first `c` (all of `s` when it has none): `s.split(c).next()`.
pub open spec fn before_first(s: Seq<char>, c: char) -> Seq<char> {
    let k = first_match(s, seq![c], 0);
    if k >= 0 {
        s.subrange(0, k)
    } else {
        s
    }
}

/// The text after the last `c` (all of `s` when it has none): `s.split(c).last()`.
pub open spec fn after_last(s: Seq<char>, c: char) -> Seq<char> {
    let k = last_match(s, seq![c], s.len() - 1);
    if k >= 0 {
        s.subrange(k + 1, s.len() as int)
    } else {
        s
    }
}

/// `s` without the copies of `c` at either end (`str::trim_matches(c)`).
pub open spec fn trim_char(s: Seq<char>, c: char) -> Seq<char> {
    strip_trailing(strip_leading(s, seq![c]), c)
}

/// The end of `s[..j]` once trailing copies of `p` are dropped.
pub open spec fn strip_back_text(s: Seq<char>, j: int, p: Seq<char>) -> int
    decreases j,
{
    if p.len() > 0 && p.len() <= j <= s.len() && s.subrange(j - p.len(), j) == p {
        strip_back_text(s, j - p.len(), p)
    } else {
        j
    }
}

/// `s` without trailing copies of `p` (`str::trim_end_matches(p)`).
pub open spec fn strip_suffix_text(s: Seq<char>, p: Seq<char>) -> Seq<char> {
    s.subrange(0, strip_back_text(s, s.len() as int, p))
}

/// The characters of a slug: letters, digits, `-`, `_` and `.`.
pub open spec fn slug_char(c: char) -> bool {
    alphanumeric(c) || c == '-' || c == '_' || c == '.'
}

/// The slug characters of `s`, in order.
pub open spec fn slug_chars(s: Seq<char>) -> Seq<char>
    decreases s.len(),
{
    if s.len() == 0 {
        s
    } else if slug_char(s.last()) {
        slug_chars(s.drop_last()).push(s.last())
    } else {
        slug_chars(s.drop_last())
    }
}

/// A URL without its `https://` and `http://` prefixes.
pub open spec fn after_scheme(url: Seq<char>) -> Seq<char> {
    strip_leading(strip_leading(url, "https://"@), "http://"@)
}

/// The host of a URL: what comes before the first `/` after the scheme.
pub open spec fn url_domain(url: Seq<char>) -> Seq<char> {
    before_first(after_scheme(url), '/')
}

/// The first label of the host, without a leading `www.`.
pub open spec fn key_prefix(url: Seq<char>) -> Seq<char> {
    before_first(strip_leading(url_domain(url), "www."@), '.')
}

/// The slug of a URL: the last segment of its path, without trailing `.pdf`, `.html` and
/// `.htm`, kept to slug characters, trimmed of `-` and lower-cased.
pub open spec fn url_slug(url: Seq<char>) -> Seq<char> {
    let u = after_scheme(url);
    let path = trim_char(strip_leading(u, url_domain(url)), '/');
    let seg = after_last(path, '/');
    let base = strip_suffix_text(strip_suffix_text(strip_suffix_text(seg, ".pdf"@), ".html"@), ".htm"@);
    lower(trim_char(slug_chars(base), '-'))
}

/// The first 12 characters of a slug, when it is longer.
pub open spec fn short_slug(slug: Seq<char>) -> Seq<char> {
    if slug.len() > 12 {
        slug.subrange(0, 12)
    } else {
        slug
    }
}

/// The citation key of a URL from its host's first label and its slug: the prefix alone
/// when the slug has fewer than three bytes, else `"<prefix>_<slug>"`.
pub open spec fn key_from(prefix: Seq<char>, slug: Seq<char>) -> Seq<char> {
    if slug.len() == 0 || utf8_len(slug) < 3 {
        prefix
    } else {
        prefix + "_"@ + slug
    }
}

/// The citation key of a URL: its prefix (see `key_prefix`) and its slug (see `url_slug`)
/// cut to 12 characters.
pub open spec fn url_key(url: Seq<char>) -> Seq<char> {
    key_from(key_prefix(url), short_slug(url_slug(url)))
}

/// The index of the first `c` in `s`, or the length.
fn find_char(s: &Vec<char>, c: char) -> (r: usize)
    ensures
        r <= s@.len(),
        first_match(s@, seq![c], 0) >= 0 ==> r == first_match(s@, seq![c], 0),
        first_match(s@, seq![c], 0) < 0 ==> r == s@.len(),
{
    let mut p: Vec<char> = Vec::new();
    p.push(c);
    assert(p@ =~= seq![c]);
    match crate::text::find_from(s, &p, 0) {
        Some(k) => {
            proof {
                crate::text::lemma_first_match(s@, p@, 0);
            }
            k
        },
        None => s.len(),
    }
}

/// The text after the last `c` (see `after_last`).
fn after_last_char(s: &Vec<char>, c: char) -> (r: Vec<char>)
    ensures
        r@ == after_last(s@, c),
{
    let mut p: Vec<char> = Vec::new();
    p.push(c);
    assert(p@ =~= seq![c]);
    match crate::text::rfind(s, &p) {
        Some(k) => {
            proof {
                crate::text::lemma_last_match(s@, p@, s@.len() - 1);
                assert(crate::text::matches_at(s@, k as int, p@));
            }
            let n = s.len();
            assert(k + 1 <= n);
            crate::text::slice_chars(s, k + 1, n)
        },
        None => crate::fragments::copy_chars(s),
    }
}

/// `s` without copies of `c` at either end (see `trim_char`).
fn trim_char_of(s: &Vec<char>, c: char) -> (r: Vec<char>)
    ensures
        r@ == trim_char(s@, c),
{
    let mut p: Vec<char> = Vec::new();
    p.push(c);
    assert(p@ =~= seq![c]);
    let a = crate::text::strip_leading_from(s, 0, &p);
    let front = crate::text::slice_chars(s, a, s.len());
    let b = crate::text::strip_trailing_from(&front, front.len(), c);
    crate::text::slice_chars(&front, 0, b)
}

/// `s` without trailing copies of `p` (see `strip_suffix_text`).
fn strip_suffix_of(s: &Vec<char>, p: &str) -> (r: Vec<char>)
    ensures
        r@ == strip_suffix_text(s@, p@),
{
    let q = crate::text::pattern(p);
    let mut j: usize = s.len();
    if q.len() > 0 {
        while q.len() <= j && crate::text::match_at(s, j - q.len(), &q)
            invariant
                j <= s@.len(),
                q@ == p@,
                q@.len() > 0,
                strip_back_text(s@, s@.len() as int, p@) == strip_back_text(s@, j as int, p@),
            decreases j,
        {
            proof {
                assert(s@.subrange(j - q@.len(), j - q@.len() + q@.len()) == q@);
            }
            j = j - q.len();
        }
        proof {
            if q@.len() <= j && s@.subrange(j - q@.len(), j as int) == q@ {
                assert(crate::text::matches_at(s@, j - q@.len(), q@));
            }
        }
    }
    crate::text::slice_chars(s, 0, j)
}

/// The slug characters of `s` (see `slug_chars`).
fn keep_slug_chars(s: &Vec<char>) -> (r: Vec<char>)
    ensures
        r@ == slug_chars(s@),
{
    let mut r: Vec<char> = Vec::new();
    let mut i: usize = 0;
    while i < s.len()
        invariant
            i <= s@.len(),
            r@ == slug_chars(s@.subrange(0, i as int)),
        decreases s@.len() - i,
    {
        proof {
            assert(s@.subrange(0, i + 1).drop_last() =~= s@.subrange(0, i as int));
        }
        let c = s[i];
        if crate::text::is_alphanumeric_char(c) || c == '-' || c == '_' || c == '.' {
            r.push(c);
        }
        i = i + 1;
    }
    assert(s@.subrange(0, s@.len() as int) =~= s@);
    r
}

/// The two parts of a URL's citation key: the host's first label and the slug.
fn key_parts(url: &str) -> (r: (Vec<char>, Vec<char>))
    ensures
        r.0@ == key_prefix(url@),
        r.1@ == url_slug(url@),
{
    let v = crate::text::chars_of(url);
    let https = crate::text::pattern("https://");
    let http = crate::text::pattern("http://");
    let a = crate::text::strip_leading_from(&v, 0, &https);
    let v1 = crate::text::slice_chars(&v, a, v.len());
    let b = crate::text::strip_leading_from(&v1, 0, &http);
    let u = crate::text::slice_chars(&v1, b, v1.len());
    assert(u@ == after_scheme(url@));
    let d_end = find_char(&u, '/');
    let domain = crate::text::slice_chars(&u, 0, d_end);
    assert(domain@ == url_domain(url@));
    let www = crate::text::pattern("www.");
    let w = crate::text::strip_leading_from(&domain, 0, &www);
    let host = crate::text::slice_chars(&domain, w, domain.len());
    let p_end = find_char(&host, '.');
    let prefix = crate::text::slice_chars(&host, 0, p_end);
    assert(prefix@ == key_prefix(url@));
    let c = crate::text::strip_leading_from(&u, 0, &domain);
    let rest = crate::text::slice_chars(&u, c, u.len());
    let path = trim_char_of(&rest, '/');
    let seg = after_last_char(&path, '/');
    let s1 = strip_suffix_of(&seg, ".pdf");
    let s2 = strip_suffix_of(&s1, ".html");
    let s3 = strip_suffix_of(&s2, ".htm");
    let kept = keep_slug_chars(&s3);
    let trimmed = trim_char_of(&kept, '-');
    let slug = crate::fragments::lower_chars(&trimmed);
    (prefix, slug)
}

/// The citation key of a URL (see `url_key`): the same key for the writer's key table
/// and for the bibliography.
pub fn citation_key(url: &str) -> (r: String)
    ensures
        r@ == url_key(url@),
{
    let (prefix, slug) = key_parts(url);
    let slug = if slug.len() > 12 {
        crate::text::slice_chars(&slug, 0, 12)
    } else {
        slug
    };
    let m = crate::words::byte_len(&slug);
    if slug.len() == 0 || m < 3 {
        crate::text::string_from(&prefix)
    } else {
        let mut r = crate::text::string_from(&prefix);
        crate::text::push_char(&mut r, '_');
        let tail = crate::text::string_from(&slug);
        crate::words::push_str(&mut r, tail.as_str());
        proof {
            reveal_strlit("_");
            assert(r@ =~= prefix@ + "_"@ + slug@);
        }
        r
    }
}

/// Whether `a` comes before `b` in the order of `String` (by code point, a prefix first).
pub open spec fn text_less(a: Seq<char>, b: Seq<char>) -> bool
    decreases a.len(),
{
    if a.len() == 0 {
        b.len() > 0
    } else if b.len() == 0 {
        false
    } else if a[0] != b[0] {
        (a[0] as u32) < (b[0] as u32)
    } else {
        text_less(a.drop_first(), b.drop_first())
    }
}

/// Two different texts are ordered one way or the other.
pub proof fn lemma_text_less_total(a: Seq<char>, b: Seq<char>)
    requires
        a != b,
    ensures
        text_less(a, b) || text_less(b, a),
    decreases a.len(),
{
    if a.len() == 0 && b.len() == 0 {
        assert(a =~= b);
    } else if a.len() == 0 || b.len() == 0 {
    } else if a[0] != b[0] {
        if (a[0] as u32) == (b[0] as u32) {
            vstd::utf8::char_u32_cast(a[0], a[0] as u32);
            vstd::utf8::char_u32_cast(b[0], b[0] as u32);
        }
    } else {
        if a.drop_first() == b.drop_first() {
            assert(a =~= seq![a[0]] + a.drop_first());
            assert(b =~= seq![b[0]] + b.drop_first());
        }
        lemma_text_less_total(a.drop_first(), b.drop_first());
    }
}

/// Whether `a` comes before `b` (see `text_less`).
pub fn is_text_less(a: &Vec<char>, b: &Vec<char>) -> (r: bool)
    ensures
        r == text_less(a@, b@),
{
    let mut i: usize = 0;
    assert(a@.subrange(0, a@.len() as int) =~= a@);
    assert(b@.subrange(0, b@.len() as int) =~= b@);
    while i < a.len() && i < b.len() && a[i] == b[i]
        invariant
            i <= a@.len(),
            i <= b@.len(),
            text_less(a@, b@) == text_less(a@.subrange(i as int, a@.len() as int), b@.subrange(i as int, b@.len() as int)),
        decreases a@.len() - i,
    {
        assert(a@.subrange(i as int, a@.len() as int).drop_first() =~= a@.subrange(i + 1, a@.len() as int));
        assert(b@.subrange(i as int, b@.len() as int).drop_first() =~= b@.subrange(i + 1, b@.len() as int));
        i = i + 1;
    }
    if i == a.len() {
        i < b.len()
    } else if i == b.len() {
        false
    } else {
        (a[i] as u32) < (b[i] as u32)
    }
}

/// `v` is in strictly increasing order.
pub open spec fn strictly_sorted(v: Seq<Seq<char>>) -> bool {
    forall|i: int| 0 <= i < v.len() - 1 ==> text_less(#[trigger] v[i], v[i + 1])
}

/// No text occurs twice in `v`.
pub open spec fn distinct(v: Seq<Seq<char>>) -> bool {
    forall|i: int, j: int| 0 <= i < j < v.len() ==> v[i] != v[j]
}

/// The distinct texts of `v`, in increasing order (`sort` then `dedup`).
pub fn sorted_unique(v: &Vec<String>) -> (r: Vec<String>)
    ensures
        strictly_sorted(sviews(r@)),
        distinct(sviews(r@)),
        forall|x: Seq<char>| sviews(r@).contains(x) <==> sviews(v@).contains(x),
{
    let mut r: Vec<String> = Vec::new();
    let mut i: usize = 0;
    while i < v.len()
        invariant
            i <= v@.len(),
            strictly_sorted(sviews(r@)),
            distinct(sviews(r@)),
            forall|x: Seq<char>| sviews(r@).contains(x) <==> sviews(v@).subrange(0, i as int).contains(x),
        decreases v@.len() - i,
    {
        let x = &v[i];
        let ghost xs = x@;
        proof {
            assert(sviews(v@).subrange(0, i + 1) =~= sviews(v@).subrange(0, i as int).push(xs));
        }
        if !crate::orchestrator::holds_text(&r, x.as_str()) {
            let xc = crate::text::chars_of(x.as_str());
            let mut p: usize = 0;
            while p < r.len() && !is_text_less(&xc, &crate::text::chars_of(r[p].as_str()))
                invariant
                    p <= r@.len(),
                    xc@ == xs,
                    !sviews(r@).contains(xs),
                    forall|k: int| 0 <= k < p ==> text_less(#[trigger] sviews(r@)[k], xs),
                decreases r@.len() - p,
            {
                proof {
                    assert(sviews(r@)[p as int] != xs);
                    lemma_text_less_total(sviews(r@)[p as int], xs);
                }
                p = p + 1;
            }
            let ghost before = sviews(r@);
            r.insert(p, x.clone());
            proof {
                assert(sviews(r@) =~= before.insert(p as int, xs));
                assert forall|k: int| 0 <= k < sviews(r@).len() - 1 implies text_less(#[trigger] sviews(r@)[k], sviews(r@)[k + 1]) by {
                    if k + 1 < p {
                        assert(sviews(r@)[k] == before[k]);
                        assert(sviews(r@)[k + 1] == before[k + 1]);
                    } else if k + 1 == p {
                        assert(sviews(r@)[k] == before[k]);
                    } else if k == p {
                        assert(sviews(r@)[k + 1] == before[p as int]);
                    } else {
                        assert(sviews(r@)[k] == before[k - 1]);
                        assert(sviews(r@)[k + 1] == before[k]);
                    }
                }
                assert forall|a: int, b: int| 0 <= a < b < sviews(r@).len() implies sviews(r@)[a] != sviews(r@)[b] by {
                    if a == p as int {
                        assert(before.contains(sviews(r@)[b]));
                    } else if b == p as int {
                        assert(before.contains(sviews(r@)[a]));
                    } else {
                        let a0 = if a < p { a } else { a - 1 };
                        let b0 = if b < p { b } else { b - 1 };
                        assert(sviews(r@)[a] == before[a0]);
                        assert(sviews(r@)[b] == before[b0]);
                    }
                }
                assert forall|y: Seq<char>| sviews(r@).contains(y) <==> sviews(v@).subrange(0, i + 1).contains(y) by {
                    let pre = sviews(v@).subrange(0, i as int);
                    let pre1 = sviews(v@).subrange(0, i + 1);
                    if sviews(r@).contains(y) {
                        let k = choose|k: int| 0 <= k < sviews(r@).len() && #[trigger] sviews(r@)[k] == y;
                        if k == p {
                            assert(pre1[i as int] == y);
                        } else {
                            let k0 = if k < p { k } else { k - 1 };
                            assert(before[k0] == y);
                            assert(before.contains(y));
                            assert(pre.contains(y));
                            let m = choose|m: int| 0 <= m < pre.len() && #[trigger] pre[m] == y;
                            assert(pre1[m] == y);
                        }
                    }
                    if pre1.contains(y) {
                        if y == xs {
                            assert(sviews(r@)[p as int] == xs);
                        } else {
                            let k = choose|k: int| 0 <= k < pre1.len() && #[trigger] pre1[k] == y;
                            assert(pre[k] == y);
                            assert(pre.contains(y));
                            assert(before.contains(y));
                            let m = choose|m: int| 0 <= m < before.len() && #[trigger] before[m] == y;
                            let m1 = if m < p { m } else { m + 1 };
                            assert(sviews(r@)[m1] == y);
                        }
                    }
                }
            }
        } else {
            proof {
                assert forall|y: Seq<char>| sviews(r@).contains(y) <==> sviews(v@).subrange(0, i + 1).contains(y) by {
                    if sviews(v@).subrange(0, i + 1).contains(y) && y != xs {
                        let k = choose|k: int| 0 <= k < i + 1 && #[trigger] sviews(v@).subrange(0, i + 1)[k] == y;
                        assert(sviews(v@).subrange(0, i as int)[k] == y);
                    }
                    if sviews(v@).subrange(0, i as int).contains(y) {
                        let k = choose|k: int| 0 <= k < i && #[trigger] sviews(v@).subrange(0, i as int)[k] == y;
                        assert(sviews(v@).subrange(0, i + 1)[k] == y);
                    }
                    if y == xs {
                        assert(sviews(v@).subrange(0, i + 1)[i as int] == xs);
                    }
                }
            }
        }
        i = i + 1;
    }
    assert(sviews(v@).subrange(0, v@.len() as int) =~= sviews(v@));
    r
}

} // verus!
