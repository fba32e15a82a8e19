//! Search-result handling: URL normalisation, de-duplication, keyword extraction and
//! relevance filtering, and the merge of several engines' answers.
use vstd::prelude::*;
use crate::model::{Error, SearchConfig, SearchResult};
use crate::words::{joined, owned, push_str, sviews};
use crate::text::{
    alphabetic, chars_of, contains_chars, contains_seq, find_from, first_match,
    is_alphabetic_char, is_ascii_alnum, is_ascii_alnum_char, is_whitespace_char, is_ws, lower,
    str_eq, string_from, string_from_range, strip_back, strip_trailing, strip_trailing_from, to_lower,
    trim, trim_bounds,
};

verus! {

/// The key under which two URLs count as the same page: trimmed, trailing `/` and `#`
/// dropped, a fragment cut off (and the `/` before it), lower-cased.
pub open spec fn normalized_url(url: Seq<char>) -> Seq<char> {
    let u = strip_trailing(strip_trailing(trim(url), '/'), '#');
    let h = first_match(u, seq!['#'], 0);
    if h >= 0 {
        lower(strip_trailing(u.subrange(0, h), '/'))
    } else {
        lower(u)
    }
}

/// Normalises a URL for comparison (see `normalized_url`).
pub fn normalize_url(url: &str) -> (r: String)
    ensures
        r@ == normalized_url(url@),
{
    let v = chars_of(url);
    let (a, b) = trim_bounds(&v);
    let t = crate::text::slice_chars(&v, a, b);
    let e1 = strip_trailing_from(&t, t.len(), '/');
    let e2 = strip_trailing_from(&t, e1, '#');
    let u = crate::text::slice_chars(&t, 0, e2);
    proof {
        assert(t@.subrange(0, e1 as int).subrange(0, e2 as int) =~= t@.subrange(0, e2 as int));
        assert(strip_back(t@.subrange(0, e1 as int), e1 as int, '#') == strip_back(t@, e1 as int, '#')) by {
            lemma_strip_back_prefix(t@, e1 as int, e1 as int, '#');
        }
    }
    let mut hash: Vec<char> = Vec::new();
    hash.push('#');
    assert(hash@ =~= seq!['#']);
    match find_from(&u, &hash, 0) {
        Some(h) => {
            proof {
                crate::text::lemma_first_match(u@, hash@, 0);
            }
            let e3 = strip_trailing_from(&u, h, '/');
            let cut = string_from_range(&u, 0, e3);
            proof {
                lemma_strip_back_prefix(u@, h as int, h as int, '/');
                assert(u@.subrange(0, h as int).subrange(0, e3 as int) =~= u@.subrange(0, e3 as int));
            }
            to_lower(cut.as_str())
        },
        None => {
            let whole = string_from(&u);
            to_lower(whole.as_str())
        },
    }
}

/// Dropping trailing `c` from `s[..j]` is the same whether or not the text is first cut at
/// `n >= j`.
pub proof fn lemma_strip_back_prefix(s: Seq<char>, n: int, j: int, c: char)
    requires
        0 <= j <= n <= s.len(),
    ensures
        strip_back(s.subrange(0, n), j, c) == strip_back(s, j, c),
    decreases j,
{
    if 0 < j && s[j - 1] == c {
        lemma_strip_back_prefix(s, n, j - 1, c);
    }
}

/// The tokenizer's state while it reads a query: words done so far, the word being
/// read, and whether the last letter or digit seen was ASCII.
pub struct KeywordScan {
    pub words: Seq<Seq<char>>,
    pub current: Seq<char>,
    pub prev_ascii: Option<bool>,
}

/// One character's effect on the tokenizer: a switch between ASCII and other letters ends
/// the current word, whitespace ends it too, every other character joins it.
pub open spec fn keyword_step(st: KeywordScan, c: char) -> KeywordScan {
    let is_ascii = is_ascii_alnum(c);
    let split = st.prev_ascii is Some && st.prev_ascii->0 != is_ascii && st.current.len() > 0;
    let words1 = if split { st.words.push(st.current) } else { st.words };
    let cur1 = if split { Seq::<char>::empty() } else { st.current };
    let words2 = if !is_ws(c) { words1 } else if cur1.len() > 0 { words1.push(cur1) } else { words1 };
    let cur2 = if !is_ws(c) { cur1.push(c) } else if cur1.len() > 0 { Seq::<char>::empty() } else { cur1 };
    let prev = if is_ascii || alphabetic(c) { Some(is_ascii) } else { st.prev_ascii };
    KeywordScan { words: words2, current: cur2, prev_ascii: prev }
}

/// The tokenizer's state after reading `s`.
pub open spec fn keyword_scan(s: Seq<char>) -> KeywordScan
    decreases s.len(),
{
    if s.len() == 0 {
        KeywordScan { words: Seq::empty(), current: Seq::empty(), prev_ascii: None }
    } else {
        keyword_step(keyword_scan(s.drop_last()), s.last())
    }
}

/// The words of a query, split at whitespace and at every switch between ASCII letters or
/// digits and other letters.
pub open spec fn query_words(s: Seq<char>) -> Seq<Seq<char>> {
    let st = keyword_scan(s);
    if st.current.len() > 0 { st.words.push(st.current) } else { st.words }
}

/// The words of more than two characters, in order.
pub open spec fn long_words(ws: Seq<Seq<char>>) -> Seq<Seq<char>>
    decreases ws.len(),
{
    if ws.len() == 0 {
        ws
    } else if ws.last().len() > 2 {
        long_words(ws.drop_last()).push(ws.last())
    } else {
        long_words(ws.drop_last())
    }
}

/// The keywords of a query: its words of more than two characters.
pub open spec fn query_keywords(s: Seq<char>) -> Seq<Seq<char>> {
    long_words(query_words(s))
}

/// Every keyword of a query is one of its words, of more than two characters: short
/// words such as `国产` are never keywords.
pub proof fn law_keywords_are_long_words(query: Seq<char>)
    ensures
        forall|k: int| 0 <= k < query_keywords(query).len() ==> (#[trigger] query_keywords(query)[k]).len() > 2
            && query_words(query).contains(query_keywords(query)[k]),
{
    lemma_long_words(query_words(query));
}

proof fn lemma_long_words(ws: Seq<Seq<char>>)
    ensures
        forall|k: int| 0 <= k < long_words(ws).len() ==> (#[trigger] long_words(ws)[k]).len() > 2 && ws.contains(long_words(ws)[k]),
    decreases ws.len(),
{
    if ws.len() > 0 {
        let init = ws.drop_last();
        lemma_long_words(init);
        let l = long_words(ws);
        let l0 = long_words(init);
        assert forall|k: int| 0 <= k < l.len() implies (#[trigger] l[k]).len() > 2 && ws.contains(l[k]) by {
            if k < l0.len() {
                assert(l[k] == l0[k]);
                let q = choose|q: int| 0 <= q < init.len() && init[q] == l0[k];
                assert(ws[q] == init[q]);
            } else {
                assert(l[k] == ws[ws.len() - 1]);
            }
        }
    }
}

/// The views of a vector of strings.
pub open spec fn views(v: Seq<String>) -> Seq<Seq<char>> {
    v.map_values(|w: String| w@)
}

/// The keywords of a query (see `query_keywords`).
pub fn extract_keywords(query: &str) -> (r: Vec<String>)
    ensures
        views(r@) == query_keywords(query@),
{
    let s = chars_of(query);
    let mut words: Vec<Vec<char>> = Vec::new();
    let mut current: Vec<char> = Vec::new();
    let mut prev: Option<bool> = None;
    let mut i: usize = 0;
    proof {
        assert(words@.map_values(|w: Vec<char>| w@) =~= Seq::<Seq<char>>::empty());
        assert(current@ =~= Seq::<char>::empty());
        assert(s@.subrange(0, 0) =~= Seq::<char>::empty());
    }
    while i < s.len()
        invariant
            i <= s@.len(),
            s@ == query@,
            keyword_scan(s@.subrange(0, i as int)) == (KeywordScan {
                words: words@.map_values(|w: Vec<char>| w@),
                current: current@,
                prev_ascii: prev,
            }),
        decreases s@.len() - i,
    {
        let c = s[i];
        let is_ascii = is_ascii_alnum_char(c);
        let ghost before = words@.map_values(|w: Vec<char>| w@);
        if prev.is_some() && prev.unwrap() != is_ascii && current.len() > 0 {
            words.push(current);
            current = Vec::new();
        }
        if !is_whitespace_char(c) {
            current.push(c);
        } else if current.len() > 0 {
            words.push(current);
            current = Vec::new();
        }
        if is_ascii || is_alphabetic_char(c) {
            prev = Some(is_ascii);
        }
        proof {
            assert(s@.subrange(0, i + 1).drop_last() =~= s@.subrange(0, i as int));
            assert(words@.map_values(|w: Vec<char>| w@) =~= keyword_scan(s@.subrange(0, i + 1)).words);
            assert(current@ =~= keyword_scan(s@.subrange(0, i + 1)).current);
        }
        i = i + 1;
    }
    if current.len() > 0 {
        words.push(current);
    }
    proof {
        assert(s@.subrange(0, s@.len() as int) =~= s@);
    }
    let ghost all = words@.map_values(|w: Vec<char>| w@);
    assert(all =~= query_words(query@));
    let mut r: Vec<String> = Vec::new();
    let mut j: usize = 0;
    while j < words.len()
        invariant
            j <= words@.len(),
            all == words@.map_values(|w: Vec<char>| w@),
            views(r@) == long_words(all.subrange(0, j as int)),
        decreases words@.len() - j,
    {
        proof {
            assert(all.subrange(0, j + 1).drop_last() =~= all.subrange(0, j as int));
        }
        if words[j].len() > 2 {
            let w = string_from(&words[j]);
            r.push(w);
            assert(views(r@) =~= long_words(all.subrange(0, j as int)).push(all[j as int]));
        }
        j = j + 1;
    }
    assert(all.subrange(0, words@.len() as int) =~= all);
    r
}

/// Some result before position `i` has the same normalised URL as result `i`.
pub open spec fn url_seen_before(rs: Seq<SearchResult>, i: int) -> bool {
    exists|j: int| 0 <= j < i && normalized_url(rs[j].url@) == normalized_url(rs[i].url@)
}

/// The results with later copies of a page (same normalised URL) dropped; order kept.
pub open spec fn deduped(rs: Seq<SearchResult>) -> Seq<SearchResult>
    decreases rs.len(),
{
    if rs.len() == 0 {
        rs
    } else if url_seen_before(rs, rs.len() - 1) {
        deduped(rs.drop_last())
    } else {
        deduped(rs.drop_last()).push(rs.last())
    }
}

/// Whether `key` equals one of `keys`.
pub fn contains_string(keys: &Vec<String>, key: &String) -> (r: bool)
    ensures
        r == exists|j: int| 0 <= j < keys@.len() && keys@[j]@ == key@,
{
    let mut j: usize = 0;
    while j < keys.len()
        invariant
            j <= keys@.len(),
            forall|m: int| 0 <= m < j ==> keys@[m]@ != key@,
        decreases keys@.len() - j,
    {
        if keys[j] == *key {
            return true;
        }
        j = j + 1;
    }
    false
}

/// Drops later copies of a page from the results (pages compared by `normalized_url`).
pub fn dedup_results(results: Vec<SearchResult>) -> (r: Vec<SearchResult>)
    ensures
        r@ == deduped(results@),
{
    let mut out: Vec<SearchResult> = Vec::new();
    let mut seen: Vec<String> = Vec::new();
    let mut i: usize = 0;
    while i < results.len()
        invariant
            i <= results@.len(),
            seen@.len() == i,
            forall|j: int| 0 <= j < i ==> #[trigger] seen@[j]@ == normalized_url(results@[j].url@),
            out@ == deduped(results@.subrange(0, i as int)),
        decreases results@.len() - i,
    {
        let key = normalize_url(results[i].url.as_str());
        let ghost pre = results@.subrange(0, i + 1);
        proof {
            assert(pre.drop_last() =~= results@.subrange(0, i as int));
        }
        if contains_string(&seen, &key) {
            assert(url_seen_before(pre, i as int)) by {
                let j = choose|j: int| 0 <= j < seen@.len() && seen@[j]@ == key@;
                assert(pre[j] == results@[j]);
            }
        } else {
            assert(!url_seen_before(pre, i as int)) by {
                if url_seen_before(pre, i as int) {
                    let j = choose|j: int| 0 <= j < i && normalized_url(pre[j].url@) == normalized_url(pre[i as int].url@);
                    assert(seen@[j]@ == key@);
                }
            }
            out.push(results[i].duplicate());
        }
        seen.push(key);
        i = i + 1;
    }
    assert(results@.subrange(0, results@.len() as int) =~= results@);
    out
}

/// The keywords of a query, lower-cased.
pub open spec fn lower_keywords(query: Seq<char>) -> Seq<Seq<char>> {
    query_keywords(query).map_values(|k: Seq<char>| lower(k))
}

/// The text of a result that keywords are looked for in: title, a space, snippet, lower-cased.
pub open spec fn result_text(r: SearchResult) -> Seq<char> {
    lower(r.title@ + seq![' '] + r.snippet@)
}

/// A result is relevant when its text holds one of the keywords.
pub open spec fn is_relevant_result(r: SearchResult, kws: Seq<Seq<char>>) -> bool {
    exists|k: int| 0 <= k < kws.len() && contains_seq(result_text(r), kws[k])
}

/// What `filter_relevant` keeps: all results when the query has no keyword or none is
/// relevant, else the relevant ones in order.
pub open spec fn relevant_results(query: Seq<char>, rs: Seq<SearchResult>) -> Seq<SearchResult> {
    let kws = lower_keywords(query);
    let f = rs.filter(|r: SearchResult| is_relevant_result(r, kws));
    if kws.len() == 0 || f.len() == 0 {
        rs
    } else {
        f
    }
}

/// Lower-cases each keyword.
fn lower_all(ws: &Vec<String>) -> (r: Vec<Vec<char>>)
    ensures
        r@.len() == ws@.len(),
        forall|i: int| 0 <= i < ws@.len() ==> #[trigger] r@[i]@ == lower(ws@[i]@),
{
    let mut r: Vec<Vec<char>> = Vec::new();
    let mut i: usize = 0;
    while i < ws.len()
        invariant
            i <= ws@.len(),
            r@.len() == i,
            forall|j: int| 0 <= j < i ==> #[trigger] r@[j]@ == lower(ws@[j]@),
        decreases ws@.len() - i,
    {
        let l = to_lower(ws[i].as_str());
        r.push(chars_of(l.as_str()));
        i = i + 1;
    }
    r
}

/// The lower-cased text `title + " " + snippet` of a result.
pub fn result_text_of(r: &SearchResult) -> (t: Vec<char>)
    ensures
        t@ == result_text(*r),
{
    let mut v = chars_of(r.title.as_str());
    v.push(' ');
    let sn = chars_of(r.snippet.as_str());
    let mut k: usize = 0;
    let ghost base = v@;
    while k < sn.len()
        invariant
            k <= sn@.len(),
            v@ == base + sn@.subrange(0, k as int),
        decreases sn@.len() - k,
    {
        v.push(sn[k]);
        k = k + 1;
    }
    assert(sn@.subrange(0, sn@.len() as int) =~= sn@);
    assert(base =~= r.title@ + seq![' ']);
    let joined = string_from(&v);
    let low = to_lower(joined.as_str());
    chars_of(low.as_str())
}

/// Whether some keyword occurs in `text`.
pub fn any_keyword_in(text: &Vec<char>, kws: &Vec<Vec<char>>) -> (b: bool)
    ensures
        b == exists|k: int| 0 <= k < kws@.len() && contains_seq(text@, kws@[k]@),
{
    let mut k: usize = 0;
    while k < kws.len()
        invariant
            k <= kws@.len(),
            forall|m: int| 0 <= m < k ==> !contains_seq(text@, #[trigger] kws@[m]@),
        decreases kws@.len() - k,
    {
        if contains_chars(text, &kws[k]) {
            return true;
        }
        k = k + 1;
    }
    false
}

/// Keeps the results whose title or snippet mentions a keyword of the query; when the
/// query has no keyword, or no result mentions one, all results are kept.
pub fn filter_relevant(query: &str, results: Vec<SearchResult>) -> (r: Vec<SearchResult>)
    ensures
        r@ == relevant_results(query@, results@),
{
    let kw_strings = extract_keywords(query);
    let kws = lower_all(&kw_strings);
    let ghost spec_kws = lower_keywords(query@);
    proof {
        assert(kws@.map_values(|k: Vec<char>| k@) =~= spec_kws);
    }
    if kws.len() == 0 {
        return results;
    }
    let ghost pred = |r: SearchResult| is_relevant_result(r, spec_kws);
    let mut filtered: Vec<SearchResult> = Vec::new();
    let mut i: usize = 0;
    while i < results.len()
        invariant
            i <= results@.len(),
            kws@.len() == spec_kws.len(),
            forall|k: int| 0 <= k < kws@.len() ==> #[trigger] kws@[k]@ == spec_kws[k],
            pred == (|r: SearchResult| is_relevant_result(r, spec_kws)),
            filtered@ == results@.subrange(0, i as int).filter(pred),
        decreases results@.len() - i,
    {
        let text = result_text_of(&results[i]);
        let hit = any_keyword_in(&text, &kws);
        proof {
            reveal(Seq::filter);
            assert(results@.subrange(0, i + 1).drop_last() =~= results@.subrange(0, i as int));
            assert(hit == is_relevant_result(results@[i as int], spec_kws)) by {
                if hit {
                    let k = choose|k: int| 0 <= k < kws@.len() && contains_seq(text@, kws@[k]@);
                    assert(contains_seq(result_text(results@[i as int]), spec_kws[k]));
                }
                if is_relevant_result(results@[i as int], spec_kws) {
                    let k = choose|k: int|
                        0 <= k < spec_kws.len() && contains_seq(
                            result_text(results@[i as int]),
                            spec_kws[k],
                        );
                    assert(contains_seq(text@, kws@[k]@));
                }
            }
        }
        if hit {
            filtered.push(results[i].duplicate());
        }
        i = i + 1;
    }
    assert(results@.subrange(0, results@.len() as int) =~= results@);
    if filtered.len() == 0 {
        results
    } else {
        filtered
    }
}

/// One hit as the SearXNG API returns it.
pub struct SearxHit {
    pub title: String,
    pub url: String,
    pub content: String,
    pub engine: String,
}

/// A SearXNG instance, and the most hits taken from one answer.
pub struct SearXngEngine {
    pub base_url: String,
    pub max_results: usize,
}

impl SearXngEngine {
    /// An instance at `base_url` (trailing `/` dropped).
    pub fn new(base_url: &str, max_results: usize) -> (r: SearXngEngine)
        ensures
            r.base_url@ == strip_trailing(base_url@, '/'),
            r.max_results == max_results,
    {
        let v = chars_of(base_url);
        let e = strip_trailing_from(&v, v.len(), '/');
        SearXngEngine { base_url: string_from_range(&v, 0, e), max_results }
    }

    /// The engine's name.
    pub fn name(&self) -> (r: String)
        ensures
            r@ == "searxng"@,
    {
        owned("searxng")
    }

    /// The address that queries are sent to: the base URL and `/search`.
    pub fn endpoint(&self) -> (r: String)
        ensures
            r@ == self.base_url@ + "/search"@,
    {
        let mut r = self.base_url.clone();
        push_str(&mut r, "/search");
        r
    }

    /// The results of an answer: its first `max_results` hits, a hit dropped where an
    /// earlier one of them has the same URL, each sourced `"searxng/<engine>"` and stamped
    /// with `now`.
    pub fn results_from_hits(&self, hits: Vec<SearxHit>, now: i64) -> (r: Vec<SearchResult>)
        ensures
            r@.len() == first_per_url(hits@.take(taken_hits(hits@.len(), self.max_results))).len(),
            forall|k: int| 0 <= k < r@.len() ==> #[trigger] result_of_hit(
                r@[k],
                first_per_url(hits@.take(taken_hits(hits@.len(), self.max_results)))[k],
                now,
            ),
            forall|i: int, j: int| 0 <= i < j < r@.len() ==> (#[trigger] r@[i]).url@ != (#[trigger] r@[j]).url@,
    {
        let ghost all = hits@;
        let n = if hits.len() < self.max_results { hits.len() } else { self.max_results };
        let mut rest = hits;
        let mut r: Vec<SearchResult> = Vec::new();
        let mut i: usize = 0;
        while i < n
            invariant
                i <= n <= all.len(),
                n == taken_hits(all.len(), self.max_results),
                rest@ == all.subrange(i as int, all.len() as int),
                r@.len() == first_per_url(all.take(i as int)).len(),
                forall|k: int| 0 <= k < r@.len() ==> #[trigger] result_of_hit(r@[k], first_per_url(all.take(i as int))[k], now),
            decreases n - i,
        {
            let h = rest.remove(0);
            let ghost kept = first_per_url(all.take(i as int));
            proof {
                assert(h == all[i as int]);
                assert(all.take(i + 1).drop_last() =~= all.take(i as int));
                assert(all.take(i + 1).last() == h);
            }
            let taken = url_taken(&r, h.url.as_str());
            proof {
                if taken {
                    let m = choose|m: int| 0 <= m < r@.len() && r@[m].url@ == h.url@;
                    assert(result_of_hit(r@[m], kept[m], now));
                    assert(hit_urls(kept)[m] == h.url@);
                } else {
                    assert(!hit_urls(kept).contains(h.url@)) by {
                        if hit_urls(kept).contains(h.url@) {
                            let m = choose|m: int| 0 <= m < hit_urls(kept).len() && hit_urls(kept)[m] == h.url@;
                            assert(result_of_hit(r@[m], kept[m], now));
                        }
                    }
                }
            }
            if !taken {
                let mut source = owned("searxng/");
                push_str(&mut source, h.engine.as_str());
                let ghost before = r@;
                r.push(SearchResult { title: h.title, url: h.url, snippet: h.content, source, fetch_time: now });
                proof {
                    assert forall|k: int| 0 <= k < r@.len() implies #[trigger] result_of_hit(r@[k], kept.push(h)[k], now) by {
                        if k < before.len() {
                            assert(r@[k] == before[k]);
                        }
                    }
                }
            }
            assert(rest@ =~= all.subrange(i + 1, all.len() as int));
            i = i + 1;
        }
        proof {
            lemma_first_per_url_distinct(all.take(n as int));
            assert forall|a: int, b: int| 0 <= a < b < r@.len() implies (#[trigger] r@[a]).url@ != (#[trigger] r@[b]).url@ by {
                assert(result_of_hit(r@[a], first_per_url(all.take(n as int))[a], now));
                assert(result_of_hit(r@[b], first_per_url(all.take(n as int))[b], now));
            }
        }
        r
    }
}

/// How many hits of an answer of `len` hits are read: at most `max`.
pub open spec fn taken_hits(len: nat, max: usize) -> int {
    if len < max { len as int } else { max as int }
}

/// The URLs of some hits.
pub open spec fn hit_urls(hs: Seq<SearxHit>) -> Seq<Seq<char>> {
    hs.map_values(|h: SearxHit| h.url@)
}

/// The hits in order, each one dropped whose URL an earlier hit has.
pub open spec fn first_per_url(hs: Seq<SearxHit>) -> Seq<SearxHit>
    decreases hs.len(),
{
    if hs.len() == 0 {
        Seq::empty()
    } else {
        let p = first_per_url(hs.drop_last());
        if hit_urls(p).contains(hs.last().url@) {
            p
        } else {
            p.push(hs.last())
        }
    }
}

/// `r` is the search result made of hit `h` at time `now`.
pub open spec fn result_of_hit(r: SearchResult, h: SearxHit, now: i64) -> bool {
    &&& r.title == h.title
    &&& r.url == h.url
    &&& r.snippet == h.content
    &&& r.source@ == "searxng/"@ + h.engine@
    &&& r.fetch_time == now
}

/// No two hits kept by `first_per_url` have the same URL.
proof fn lemma_first_per_url_distinct(hs: Seq<SearxHit>)
    ensures
        forall|i: int, j: int|
            0 <= i < j < first_per_url(hs).len() ==> (#[trigger] first_per_url(hs)[i]).url@ != (#[trigger] first_per_url(hs)[j]).url@,
    decreases hs.len(),
{
    if hs.len() > 0 {
        lemma_first_per_url_distinct(hs.drop_last());
        let p = first_per_url(hs.drop_last());
        if !hit_urls(p).contains(hs.last().url@) {
            assert forall|i: int, j: int| 0 <= i < j < p.push(hs.last()).len() implies
                (#[trigger] p.push(hs.last())[i]).url@ != (#[trigger] p.push(hs.last())[j]).url@ by {
                if j == p.len() {
                    assert(hit_urls(p)[i] == p[i].url@);
                } else {
                    assert(p.push(hs.last())[i] == p[i]);
                    assert(p.push(hs.last())[j] == p[j]);
                }
            }
        }
    }
}

/// Whether some result of `r` has the URL `u`.
fn url_taken(r: &Vec<SearchResult>, u: &str) -> (b: bool)
    ensures
        b == exists|m: int| 0 <= m < r@.len() && r@[m].url@ == u@,
{
    let mut k: usize = 0;
    while k < r.len()
        invariant
            k <= r@.len(),
            forall|m: int| 0 <= m < k ==> r@[m].url@ != u@,
        decreases r@.len() - k,
    {
        if str_eq(r[k].url.as_str(), u) {
            return true;
        }
        k = k + 1;
    }
    false
}

/// The search engines of a session, tried in a fixed order.
pub struct EnginePool<E> {
    engines: Vec<E>,
    fallback_order: Vec<usize>,
    failure_count: Vec<u32>,
}

impl<E> EnginePool<E> {
    #[verifier::type_invariant]
    spec fn order_in_range(self) -> bool {
        &&& self.fallback_order@.len() == self.engines@.len()
        &&& forall|i: int| 0 <= i < self.fallback_order@.len() ==> #[trigger] self.fallback_order@[i] == i
    }

    /// The engines of the pool.
    pub closed spec fn engine_seq(&self) -> Seq<E> {
        self.engines@
    }

    /// The order in which the engines are tried.
    pub closed spec fn order(&self) -> Seq<usize> {
        self.fallback_order@
    }

    /// A pool that tries the engines in the order given.
    pub fn new(engines: Vec<E>) -> (r: EnginePool<E>)
        ensures
            r.engine_seq() == engines@,
            r.order() == Seq::new(engines@.len(), |i: int| i as usize),
    {
        let n = engines.len();
        let mut order: Vec<usize> = Vec::new();
        let mut counts: Vec<u32> = Vec::new();
        let mut i: usize = 0;
        while i < n
            invariant
                i <= n,
                order@ == Seq::new(i as nat, |k: int| k as usize),
                counts@.len() == i,
            decreases n - i,
        {
            order.push(i);
            counts.push(0);
            assert(order@ =~= Seq::new((i + 1) as nat, |k: int| k as usize));
            i = i + 1;
        }
        EnginePool { engines, fallback_order: order, failure_count: counts }
    }

    /// The number of engines.
    pub fn engine_count(&self) -> (r: usize)
        ensures
            r == self.engine_seq().len(),
    {
        self.engines.len()
    }

    /// The engines of the pool.
    pub fn engines(&self) -> (r: &Vec<E>)
        ensures
            r@ == self.engine_seq(),
    {
        &self.engines
    }

    /// The engine tried at step `k` of a fallback search, when there is one.
    pub fn engine_at(&self, k: usize) -> (r: Option<usize>)
        ensures
            k < self.order().len() ==> r == Some(self.order()[k as int]) && self.order()[k as int] < self.engine_seq().len(),
            k >= self.order().len() ==> r is None,
    {
        proof {
            use_type_invariant(self);
        }
        if k < self.fallback_order.len() {
            Some(self.fallback_order[k])
        } else {
            None
        }
    }
}

impl EnginePool<SearXngEngine> {
    /// The pool of a configuration: its SearXNG instance.
    pub fn from_config(config: &SearchConfig) -> (r: EnginePool<SearXngEngine>)
        ensures
            r.engine_seq().len() == 1,
            r.engine_seq()[0].base_url@ == strip_trailing(config.searxng_url@, '/'),
            r.engine_seq()[0].max_results == config.max_results,
    {
        let mut engines: Vec<SearXngEngine> = Vec::new();
        engines.push(SearXngEngine::new(config.searxng_url.as_str(), config.max_results));
        EnginePool::new(engines)
    }
}

/// What an engine's answer gives a fallback search: the relevant distinct results when
/// the answer had results and some are relevant; nothing otherwise.
pub open spec fn usable(query: Seq<char>, reply: Result<Vec<SearchResult>, Error>) -> Option<Seq<SearchResult>> {
    match reply {
        Ok(rs) => if rs@.len() > 0 && relevant_results(query, deduped(rs@)).len() > 0 {
            Some(relevant_results(query, deduped(rs@)))
        } else {
            None
        },
        Err(_) => None,
    }
}

/// The state of a fallback search after one more engine answered `reply`: one step on,
/// and the answer's error kept when it failed.
pub open spec fn fallback_after(s: FallbackSearch, reply: Result<Vec<SearchResult>, Error>) -> FallbackSearch {
    FallbackSearch {
        step: (s.step + 1) as usize,
        last_err: match reply {
            Err(e) => Some(e),
            Ok(_) => s.last_err,
        },
    }
}

/// A whole fallback search from state `s` over the engines' answers `replies`, in the
/// engines' order: the answers are taken one by one (see `fallback_after`) until one is
/// usable. Gives the final state and the results of the usable answer, if any.
pub open spec fn fallback_run(s: FallbackSearch, query: Seq<char>, replies: Seq<Result<Vec<SearchResult>, Error>>) -> (FallbackSearch, Option<Seq<SearchResult>>)
    decreases replies.len(),
{
    if replies.len() == 0 {
        (s, None)
    } else {
        let s1 = fallback_after(s, replies[0]);
        match usable(query, replies[0]) {
            Some(rs) => (s1, Some(rs)),
            None => fallback_run(s1, query, replies.drop_first()),
        }
    }
}

/// A fallback search asks the engines in order and stops at the first usable answer: when
/// the search gives results, they are those of some engine `k`, every engine before `k`
/// failed or gave nothing usable, and exactly `k + 1` engines were asked. When it gives
/// none, no engine's answer was usable, all were asked, and the error kept is that of the
/// last engine that failed (the state's own when none failed).
pub proof fn law_fallback_first_usable(s: FallbackSearch, query: Seq<char>, replies: Seq<Result<Vec<SearchResult>, Error>>)
    requires
        s.step + replies.len() < usize::MAX,
    ensures
        ({
            let (f, out) = fallback_run(s, query, replies);
            match out {
                Some(rs) => exists|k: int| {
                    &&& 0 <= k < replies.len()
                    &&& usable(query, #[trigger] replies[k]) == Some(rs)
                    &&& (forall|j: int| 0 <= j < k ==> usable(query, #[trigger] replies[j]) is None)
                    &&& f.step == s.step + k + 1
                },
                None => {
                    &&& forall|k: int| 0 <= k < replies.len() ==> usable(query, #[trigger] replies[k]) is None
                    &&& f.step == s.step + replies.len()
                    &&& (forall|k: int| 0 <= k < replies.len() ==> #[trigger] replies[k] is Ok) ==> f.last_err == s.last_err
                    &&& forall|k: int| 0 <= k < replies.len() && (#[trigger] replies[k] is Err)
                        && (forall|j: int| k < j < replies.len() ==> replies[j] is Ok)
                        ==> f.last_err == Some(replies[k]->Err_0)
                },
            }
        }),
    decreases replies.len(),
{
    if replies.len() > 0 {
        let s1 = fallback_after(s, replies[0]);
        let rest = replies.drop_first();
        law_fallback_first_usable(s1, query, rest);
        match usable(query, replies[0]) {
            Some(rs) => {
                assert(usable(query, replies[0]) == Some(rs));
            },
            None => {
                let (f, out) = fallback_run(s1, query, rest);
                match out {
                    Some(rs) => {
                        let k = choose|k: int| {
                            &&& 0 <= k < rest.len()
                            &&& usable(query, #[trigger] rest[k]) == Some(rs)
                            &&& (forall|j: int| 0 <= j < k ==> usable(query, #[trigger] rest[j]) is None)
                            &&& f.step == s1.step + k + 1
                        };
                        assert(replies[k + 1] == rest[k]);
                        assert forall|j: int| 0 <= j < k + 1 implies usable(query, #[trigger] replies[j]) is None by {
                            if j > 0 {
                                assert(replies[j] == rest[j - 1]);
                            }
                        }
                    },
                    None => {
                        assert forall|k: int| 0 <= k < replies.len() implies usable(query, #[trigger] replies[k]) is None by {
                            if k > 0 {
                                assert(replies[k] == rest[k - 1]);
                            }
                        }
                        if forall|k: int| 0 <= k < replies.len() ==> #[trigger] replies[k] is Ok {
                            assert forall|k: int| 0 <= k < rest.len() implies #[trigger] rest[k] is Ok by {
                                assert(rest[k] == replies[k + 1]);
                            }
                            assert(replies[0] is Ok);
                        }
                        assert forall|k: int| 0 <= k < replies.len() && (#[trigger] replies[k] is Err)
                            && (forall|j: int| k < j < replies.len() ==> replies[j] is Ok)
                            implies f.last_err == Some(replies[k]->Err_0) by {
                            if k > 0 {
                                assert(rest[k - 1] == replies[k]);
                                assert forall|j: int| k - 1 < j < rest.len() implies rest[j] is Ok by {
                                    assert(rest[j] == replies[j + 1]);
                                }
                            } else {
                                assert forall|j: int| 0 <= j < rest.len() implies #[trigger] rest[j] is Ok by {
                                    assert(rest[j] == replies[j + 1]);
                                }
                            }
                        }
                    },
                }
            },
        }
    }
}

/// A search that tries the engines one after another until one gives usable results,
/// remembering the last error.
pub struct FallbackSearch {
    pub step: usize,
    pub last_err: Option<Error>,
}

impl FallbackSearch {
    /// A search that has tried nothing yet.
    pub fn new() -> (r: FallbackSearch)
        ensures
            r.step == 0,
            r.last_err is None,
    {
        FallbackSearch { step: 0, last_err: None }
    }

    /// Takes the answer of the engine tried at this step; returns the results when they
    /// are usable (see `usable`), and otherwise moves to the next engine, keeping the
    /// error of a failed engine.
    pub fn on_reply(&mut self, query: &str, reply: Result<Vec<SearchResult>, Error>) -> (r: Option<Vec<SearchResult>>)
        requires
            old(self).step < usize::MAX,
        ensures
            *final(self) == fallback_after(*old(self), reply),
            final(self).step == old(self).step + 1,
            match usable(query@, reply) {
                Some(rs) => r matches Some(v) && v@ == rs,
                None => r is None,
            },
            match reply {
                Err(e) => final(self).last_err == Some(e),
                Ok(_) => final(self).last_err == old(self).last_err,
            },
    {
        self.step = self.step + 1;
        match reply {
            Ok(rs) => {
                if rs.len() == 0 {
                    return None;
                }
                let d = dedup_results(rs);
                let f = filter_relevant(query, d);
                if f.len() > 0 {
                    Some(f)
                } else {
                    None
                }
            },
            Err(e) => {
                self.last_err = Some(e);
                None
            },
        }
    }

    /// The error of a search in which no engine gave usable results: the last engine
    /// error, or that all engines failed.
    pub fn failure(self) -> (r: Error)
        ensures
            match self.last_err {
                Some(e) => r == e,
                None => r matches Error::Search(m) && m@ == "all search engines failed"@,
            },
    {
        match self.last_err {
            Some(e) => e,
            None => Error::Search(owned("all search engines failed")),
        }
    }
}

/// The hits of the engines' answers that had results, each with the engine's name, in
/// order.
pub open spec fn engine_hits(replies: Seq<(String, Result<Vec<SearchResult>, Error>)>) -> Seq<(SearchResult, Seq<char>)>
    decreases replies.len(),
{
    if replies.len() == 0 {
        Seq::empty()
    } else {
        let r = engine_hits(replies.drop_last());
        match replies.last().1 {
            Ok(rs) => r + Seq::new(rs@.len(), |i: int| (rs@[i], replies.last().0@)),
            Err(_) => r,
        }
    }
}

/// The index of the page with the normalised URL `key` among the entries, or -1.
pub open spec fn entry_of(entries: Seq<(SearchResult, Seq<Seq<char>>)>, key: Seq<char>) -> int
    decreases entries.len(),
{
    if entries.len() == 0 {
        -1
    } else if normalized_url(entries.last().0.url@) == key {
        entries.len() - 1
    } else {
        entry_of(entries.drop_last(), key)
    }
}

/// The pages of the hits, each once (its first hit) with the engines that returned it, in
/// order of first appearance.
pub open spec fn merged_pages(hits: Seq<(SearchResult, Seq<char>)>) -> Seq<(SearchResult, Seq<Seq<char>>)>
    decreases hits.len(),
{
    if hits.len() == 0 {
        Seq::empty()
    } else {
        let m = merged_pages(hits.drop_last());
        let (r, name) = hits.last();
        let k = entry_of(m, normalized_url(r.url@));
        if k >= 0 {
            m.update(k, (m[k].0, m[k].1.push(name)))
        } else {
            m.push((r, seq![name]))
        }
    }
}

/// The number of commas in a text.
pub open spec fn commas(s: Seq<char>) -> nat
    decreases s.len(),
{
    if s.len() == 0 {
        0
    } else {
        commas(s.drop_last()) + if s.last() == ',' { 1nat } else { 0nat }
    }
}

/// The indices below `n` whose count is `c`, in order.
pub open spec fn band(cs: Seq<nat>, c: nat, n: int) -> Seq<int>
    decreases n,
{
    if n <= 0 {
        Seq::empty()
    } else if cs[n - 1] == c {
        band(cs, c, n - 1).push(n - 1)
    } else {
        band(cs, c, n - 1)
    }
}

/// The indices grouped by count, from count `top` down to count `c`, each group in order
/// (a stable sort by descending count).
pub open spec fn desc_bands(cs: Seq<nat>, top: nat, c: int) -> Seq<int>
    decreases top + 1 - c,
{
    if c > top || c < 0 {
        Seq::empty()
    } else {
        desc_bands(cs, top, c + 1) + band(cs, c as nat, cs.len() as int)
    }
}

/// The largest of the counts (0 for none).
pub open spec fn max_count(cs: Seq<nat>) -> nat
    decreases cs.len(),
{
    if cs.len() == 0 {
        0
    } else if cs.last() > max_count(cs.drop_last()) {
        cs.last()
    } else {
        max_count(cs.drop_last())
    }
}

/// The comma counts of the merged pages' engine lists.
pub open spec fn page_commas(pages: Seq<(SearchResult, Seq<Seq<char>>)>) -> Seq<nat> {
    Seq::new(pages.len(), |i: int| commas(joined(pages[i].1, ","@)))
}

/// The order of the cross-engine results: the pages by descending comma count of their
/// engine list, stably.
pub open spec fn cross_order(replies: Seq<(String, Result<Vec<SearchResult>, Error>)>) -> Seq<int> {
    let cs = page_commas(merged_pages(engine_hits(replies)));
    desc_bands(cs, max_count(cs), 0)
}

proof fn lemma_band(cs: Seq<nat>, c: nat, n: int)
    requires
        0 <= n <= cs.len(),
    ensures
        forall|i: int| 0 <= i < band(cs, c, n).len() ==> 0 <= #[trigger] band(cs, c, n)[i] < n && cs[band(cs, c, n)[i]] == c,
        forall|i: int, j: int| 0 <= i < j < band(cs, c, n).len() ==> #[trigger] band(cs, c, n)[i] < #[trigger] band(cs, c, n)[j],
        forall|k: int| 0 <= k < n && cs[k] == c ==> band(cs, c, n).contains(k),
    decreases n,
{
    if n > 0 {
        lemma_band(cs, c, n - 1);
        let b0 = band(cs, c, n - 1);
        let b = band(cs, c, n);
        assert forall|k: int| 0 <= k < n && cs[k] == c implies b.contains(k) by {
            if k < n - 1 {
                let q = choose|q: int| 0 <= q < b0.len() && b0[q] == k;
                assert(b[q] == b0[q]);
            } else {
                assert(b[b.len() - 1] == k);
            }
        }
    }
}

proof fn lemma_desc_bands(cs: Seq<nat>, top: nat, c: int)
    requires
        0 <= c <= top + 1,
    ensures
        forall|i: int| 0 <= i < desc_bands(cs, top, c).len() ==> 0 <= #[trigger] desc_bands(cs, top, c)[i] < cs.len()
            && c <= cs[desc_bands(cs, top, c)[i]] <= top,
        forall|i: int, j: int| 0 <= i < j < desc_bands(cs, top, c).len() ==> cs[#[trigger] desc_bands(cs, top, c)[i]]
            >= cs[#[trigger] desc_bands(cs, top, c)[j]],
        desc_bands(cs, top, c).no_duplicates(),
        forall|k: int| 0 <= k < cs.len() && c <= cs[k] <= top ==> desc_bands(cs, top, c).contains(k),
    decreases top + 1 - c,
{
    if c <= top {
        lemma_desc_bands(cs, top, c + 1);
        lemma_band(cs, c as nat, cs.len() as int);
        let d0 = desc_bands(cs, top, c + 1);
        let b = band(cs, c as nat, cs.len() as int);
        let d = desc_bands(cs, top, c);
        assert(d == d0 + b);
        assert forall|i: int| 0 <= i < d.len() implies 0 <= #[trigger] d[i] < cs.len() && c <= cs[d[i]] <= top by {
            if i < d0.len() {
                assert(d[i] == d0[i]);
            } else {
                assert(d[i] == b[i - d0.len()]);
            }
        }
        assert forall|i: int, j: int| 0 <= i < j < d.len() implies cs[#[trigger] d[i]] >= cs[#[trigger] d[j]] by {
            if j < d0.len() {
                assert(d[i] == d0[i] && d[j] == d0[j]);
            } else if i >= d0.len() {
                assert(d[i] == b[i - d0.len()] && d[j] == b[j - d0.len()]);
            } else {
                assert(d[i] == d0[i] && d[j] == b[j - d0.len()]);
            }
        }
        assert forall|i: int, j: int| 0 <= i < d.len() && 0 <= j < d.len() && i != j implies d[i] != d[j] by {
            if i < d0.len() && j < d0.len() {
                assert(d[i] == d0[i] && d[j] == d0[j]);
            } else if i >= d0.len() && j >= d0.len() {
                assert(d[i] == b[i - d0.len()] && d[j] == b[j - d0.len()]);
                if i < j {
                    assert(b[i - d0.len()] < b[j - d0.len()]);
                } else {
                    assert(b[j - d0.len()] < b[i - d0.len()]);
                }
            } else if i < d0.len() {
                assert(d[i] == d0[i] && d[j] == b[j - d0.len()]);
            } else {
                assert(d[j] == d0[j] && d[i] == b[i - d0.len()]);
            }
        }
        assert forall|k: int| 0 <= k < cs.len() && c <= cs[k] <= top implies d.contains(k) by {
            if cs[k] == c {
                let q = choose|q: int| 0 <= q < b.len() && b[q] == k;
                assert(d[d0.len() + q] == k);
            } else {
                assert(c + 1 <= cs[k] <= top);
                assert(d0.contains(k));
                let q = choose|q: int| 0 <= q < d0.len() && d0[q] == k;
                assert(d[q] == k);
            }
        }
    }
}

proof fn lemma_max_count(cs: Seq<nat>)
    ensures
        forall|k: int| 0 <= k < cs.len() ==> cs[k] <= max_count(cs),
    decreases cs.len(),
{
    if cs.len() > 0 {
        lemma_max_count(cs.drop_last());
        assert forall|k: int| 0 <= k < cs.len() implies cs[k] <= max_count(cs) by {
            if k < cs.len() - 1 {
                assert(cs[k] == cs.drop_last()[k]);
            }
        }
    }
}

/// The cross-engine results come ordered by how many engines returned each page, most
/// first, and list every merged page exactly once.
pub proof fn law_cross_order_ranks_pages(replies: Seq<(String, Result<Vec<SearchResult>, Error>)>)
    ensures
        ({
            let pages = merged_pages(engine_hits(replies));
            let cs = page_commas(pages);
            let order = cross_order(replies);
            &&& order.no_duplicates()
            &&& forall|i: int| 0 <= i < order.len() ==> 0 <= #[trigger] order[i] < pages.len()
            &&& forall|k: int| 0 <= k < pages.len() ==> order.contains(k)
            &&& forall|i: int, j: int| 0 <= i < j < order.len() ==> cs[#[trigger] order[i]] >= cs[#[trigger] order[j]]
        }),
{
    let pages = merged_pages(engine_hits(replies));
    let cs = page_commas(pages);
    lemma_max_count(cs);
    lemma_desc_bands(cs, max_count(cs), 0);
}

/// The index of the entry for the normalised URL `key` (see `entry_of`).
fn find_entry(keys: &Vec<String>, key: &String) -> (r: Option<usize>)
    ensures
        match r {
            Some(k) => k < keys@.len() && keys@[k as int]@ == key@ && forall|j: int| k < j < keys@.len() ==> keys@[j]@ != key@,
            None => forall|j: int| 0 <= j < keys@.len() ==> keys@[j]@ != key@,
        },
{
    let mut k: usize = keys.len();
    while k > 0
        invariant
            k <= keys@.len(),
            forall|j: int| k <= j < keys@.len() ==> keys@[j]@ != key@,
        decreases k,
    {
        if crate::text::str_eq(keys[k - 1].as_str(), key.as_str()) {
            return Some(k - 1);
        }
        k = k - 1;
    }
    None
}

/// Merges the engines' answers (each with the engine's name): each page once, with its
/// first hit's fields and as source the names of the engines that returned it, joined by
/// `,`; the pages returned by more engines first, ties in order of first appearance.
/// When no engine returned anything, the error says so.
#[verifier::rlimit(40)]
pub fn merge_engine_results(replies: Vec<(String, Result<Vec<SearchResult>, Error>)>) -> (r: Result<Vec<SearchResult>, Error>)
    ensures
        ({
            let pages = merged_pages(engine_hits(replies@));
            let order = cross_order(replies@);
            &&& pages.len() == 0 ==> (r matches Err(Error::Search(m)) && m@ == "all engines returned no results"@)
            &&& pages.len() > 0 ==> (r matches Ok(v) && v@.len() == order.len() && forall|k: int| 0 <= k < v@.len() ==> {
                let p = pages[order[k]];
                &&& 0 <= order[k] < pages.len()
                &&& (#[trigger] v@[k]).title == p.0.title
                &&& v@[k].url == p.0.url
                &&& v@[k].snippet == p.0.snippet
                &&& v@[k].fetch_time == p.0.fetch_time
                &&& v@[k].source@ == joined(p.1, ","@)
            })
        }),
{
    let ghost all = replies@;
    let mut pages: Vec<SearchResult> = Vec::new();
    let mut keys: Vec<String> = Vec::new();
    let mut names: Vec<Vec<String>> = Vec::new();
    let mut i: usize = 0;
    let n = replies.len();
    let mut rest = replies;
    while i < n
        invariant
            i <= n == all.len(),
            rest@ == all.subrange(i as int, n as int),
            pages@.len() == keys@.len() == names@.len(),
            ({
                let m = merged_pages(engine_hits(all.subrange(0, i as int)));
                &&& m.len() == pages@.len()
                &&& forall|k: int| 0 <= k < m.len() ==> (#[trigger] m[k]).0 == pages@[k] && m[k].1 == sviews(names@[k]@)
                    && keys@[k]@ == normalized_url(pages@[k].url@)
            }),
        decreases n - i,
    {
        let (name, reply) = rest.remove(0);
        proof {
            assert((name, reply) == all[i as int]);
            assert(all.subrange(0, i + 1).drop_last() =~= all.subrange(0, i as int));
        }
        match reply {
            Ok(rs) => {
                let ghost base = engine_hits(all.subrange(0, i as int));
                let ghost rv = rs@;
                let mut j: usize = 0;
                while j < rs.len()
                    invariant
                        j <= rs@.len(),
                        rv == rs@,
                        pages@.len() == keys@.len() == names@.len(),
                        ({
                            let m = merged_pages(base + Seq::new(j as nat, |q: int| (rv[q], name@)));
                            &&& m.len() == pages@.len()
                            &&& forall|k: int| 0 <= k < m.len() ==> (#[trigger] m[k]).0 == pages@[k] && m[k].1 == sviews(names@[k]@)
                                && keys@[k]@ == normalized_url(pages@[k].url@)
                        }),
                    decreases rs@.len() - j,
                {
                    let ghost hits = base + Seq::new(j as nat, |q: int| (rv[q], name@));
                    let ghost hits1 = base + Seq::new((j + 1) as nat, |q: int| (rv[q], name@));
                    let ghost m0 = merged_pages(hits);
                    proof {
                        assert(hits1.drop_last() =~= hits);
                        assert(hits1.last() == (rv[j as int], name@));
                    }
                    let key = normalize_url(rs[j].url.as_str());
                    proof {
                        lemma_entry_of(m0, key@, keys@);
                    }
                    let ghost e = entry_of(m0, key@);
                    match find_entry(&keys, &key) {
                        Some(k) => {
                            proof {
                                if e < 0 {
                                    assert(keys@[k as int]@ != key@);
                                } else if e < k {
                                    assert(keys@[k as int]@ != key@);
                                } else if e > k {
                                    assert(keys@[e]@ != key@);
                                }
                                assert(e == k);
                            }
                            let ghost old_names = names@;
                            let mut ns = crate::text::clone_strings(&names[k]);
                            ns.push(name.clone());
                            proof {
                                assert(sviews(ns@) =~= sviews(names@[k as int]@).push(name@));
                            }
                            names.set(k, ns);
                            proof {
                                let m1 = merged_pages(hits1);
                                assert(m1 == m0.update(k as int, (m0[k as int].0, m0[k as int].1.push(name@))));
                                assert forall|q: int| 0 <= q < m1.len() implies (#[trigger] m1[q]).0 == pages@[q] && m1[q].1 == sviews(names@[q]@)
                                    && keys@[q]@ == normalized_url(pages@[q].url@) by {
                                    if q != k {
                                        assert(names@[q] == old_names[q]);
                                        assert(m1[q] == m0[q]);
                                    }
                                }
                            }
                        },
                        None => {
                            proof {
                                if e >= 0 {
                                    assert(keys@[e]@ != key@);
                                }
                                assert(e < 0);
                            }
                            let ghost old_pages = pages@;
                            let ghost old_keys = keys@;
                            let ghost old_names = names@;
                            pages.push(rs[j].duplicate());
                            keys.push(key);
                            let mut ns: Vec<String> = Vec::new();
                            ns.push(name.clone());
                            proof {
                                assert(sviews(ns@) =~= seq![name@]);
                            }
                            names.push(ns);
                            proof {
                                let m1 = merged_pages(hits1);
                                assert(m1 == m0.push((rv[j as int], seq![name@])));
                                assert forall|q: int| 0 <= q < m1.len() implies (#[trigger] m1[q]).0 == pages@[q] && m1[q].1 == sviews(names@[q]@)
                                    && keys@[q]@ == normalized_url(pages@[q].url@) by {
                                    if q < m0.len() {
                                        assert(names@[q] == old_names[q]);
                                        assert(pages@[q] == old_pages[q]);
                                        assert(keys@[q] == old_keys[q]);
                                        assert(m1[q] == m0[q]);
                                    }
                                }
                            }
                        },
                    }
                    j = j + 1;
                }
                proof {
                    assert(engine_hits(all.subrange(0, i + 1)) =~= base + Seq::new(rv.len(), |q: int| (rv[q], name@)));
                }
            },
            Err(_) => {
                proof {
                    assert(engine_hits(all.subrange(0, i + 1)) == engine_hits(all.subrange(0, i as int)));
                }
            },
        }
        assert(rest@ =~= all.subrange(i + 1, n as int));
        i = i + 1;
    }
    assert(all.subrange(0, n as int) =~= all);
    let ghost pm = merged_pages(engine_hits(all));
    if pages.len() == 0 {
        return Err(Error::Search(owned("all engines returned no results")));
    }
    let mut sourced: Vec<SearchResult> = Vec::new();
    let mut counts: Vec<usize> = Vec::new();
    let mut top: usize = 0;
    let mut q: usize = 0;
    while q < pages.len()
        invariant
            q <= pages@.len(),
            pm.len() == pages@.len(),
            names@.len() == pages@.len(),
            forall|k: int| 0 <= k < pm.len() ==> (#[trigger] pm[k]).0 == pages@[k] && pm[k].1 == sviews(names@[k]@),
            sourced@.len() == q,
            counts@.len() == q,
            forall|k: int| 0 <= k < q ==> {
                &&& (#[trigger] sourced@[k]).title == pages@[k].title
                &&& sourced@[k].url == pages@[k].url
                &&& sourced@[k].snippet == pages@[k].snippet
                &&& sourced@[k].fetch_time == pages@[k].fetch_time
                &&& sourced@[k].source@ == joined(pm[k].1, ","@)
                &&& counts@[k] as nat == page_commas(pm)[k]
            },
            top as nat == max_count(page_commas(pm).subrange(0, q as int)),
        decreases pages@.len() - q,
    {
        let source = crate::words::join(&names[q], ",");
        let c = count_commas(source.as_str());
        let p = &pages[q];
        let ghost s0 = sourced@;
        let ghost c0 = counts@;
        sourced.push(SearchResult { title: p.title.clone(), url: p.url.clone(), snippet: p.snippet.clone(), source, fetch_time: p.fetch_time });
        counts.push(c);
        proof {
            assert(page_commas(pm).subrange(0, q + 1).drop_last() =~= page_commas(pm).subrange(0, q as int));
            assert(sourced@[q as int].title == pages@[q as int].title);
            assert(sourced@[q as int].source@ == joined(pm[q as int].1, ","@));
            assert forall|k: int| 0 <= k < q implies #[trigger] sourced@[k] == s0[k] && counts@[k] == c0[k] by {}
        }
        if c > top {
            top = c;
        }
        q = q + 1;
    }
    let ghost cs = page_commas(pm);
    assert(cs.subrange(0, pages@.len() as int) =~= cs);
    proof {
        assert forall|k: int| 0 <= k < cs.len() implies counts@[k] as nat == #[trigger] cs[k] by {
            assert(sourced@[k].title == pages@[k].title);
        }
    }
    let (out, ids) = rank_by_counts(&sourced, &counts, top, Ghost(cs));
    let ghost idx = as_ints(ids@);
    proof {
        assert(idx == cross_order(all));
        assert forall|k: int| 0 <= k < out@.len() implies ({
            let p = pm[idx[k]];
            &&& 0 <= idx[k] < pm.len()
            &&& (#[trigger] out@[k]).title == p.0.title
            &&& out@[k].url == p.0.url
            &&& out@[k].snippet == p.0.snippet
            &&& out@[k].fetch_time == p.0.fetch_time
            &&& out@[k].source@ == joined(p.1, ","@)
        }) by {
            let j = idx[k];
            assert(j == ids@[k] as int);
            assert(ids@[k] < sourced@.len());
            assert(out@[k] == picked(sourced@, ids@)[k]);
            assert(out@[k] == sourced@[j]);
            assert(pm[j].0 == pages@[j]);
        }
    }
    Ok(out)
}

/// The indices as integers.
pub open spec fn as_ints(v: Seq<usize>) -> Seq<int> {
    v.map_values(|x: usize| x as int)
}

/// The items at the indices, in order.
pub open spec fn picked(items: Seq<SearchResult>, ids: Seq<usize>) -> Seq<SearchResult> {
    Seq::new(ids.len(), |k: int| items[ids[k] as int])
}

/// Every index is below `n`.
pub open spec fn all_below(ids: Seq<usize>, n: nat) -> bool {
    forall|k: int| 0 <= k < ids.len() ==> #[trigger] ids[k] < n
}

/// The items grouped by descending count, each group in order (see `desc_bands`), as the
/// items and their indices.
fn rank_by_counts(items: &Vec<SearchResult>, counts: &Vec<usize>, top: usize, Ghost(cs): Ghost<Seq<nat>>) -> (r: (Vec<SearchResult>, Vec<usize>))
    requires
        items@.len() == counts@.len(),
        cs.len() == counts@.len(),
        forall|k: int| 0 <= k < cs.len() ==> counts@[k] as nat == #[trigger] cs[k],
        top as nat == max_count(cs),
    ensures
        as_ints(r.1@) == desc_bands(cs, top as nat, 0),
        all_below(r.1@, items@.len()),
        r.0@ == picked(items@, r.1@),
{
    let mut out: Vec<SearchResult> = Vec::new();
    let mut ids: Vec<usize> = Vec::new();
    let mut c: usize = top;
    proof {
        assert(desc_bands(cs, top as nat, top + 1) =~= Seq::<int>::empty());
        assert(as_ints(ids@) =~= Seq::<int>::empty());
        assert(out@ =~= picked(items@, ids@));
    }
    loop
        invariant_except_break
            c <= top,
            as_ints(ids@) == desc_bands(cs, top as nat, c + 1),
        invariant
            items@.len() == counts@.len(),
            cs.len() == counts@.len(),
            forall|k: int| 0 <= k < cs.len() ==> counts@[k] as nat == #[trigger] cs[k],
            all_below(ids@, items@.len()),
            out@ == picked(items@, ids@),
        ensures
            as_ints(ids@) == desc_bands(cs, top as nat, 0),
        decreases c,
    {
        let ghost start = as_ints(ids@);
        let mut k: usize = 0;
        proof {
            assert(start + band(cs, c as nat, 0) =~= start);
        }
        while k < items.len()
            invariant
                k <= items@.len(),
                items@.len() == counts@.len(),
                cs.len() == counts@.len(),
                forall|m: int| 0 <= m < cs.len() ==> counts@[m] as nat == #[trigger] cs[m],
                as_ints(ids@) == start + band(cs, c as nat, k as int),
                all_below(ids@, items@.len()),
                out@ == picked(items@, ids@),
            decreases items@.len() - k,
        {
            if counts[k] == c {
                let ghost before = as_ints(ids@);
                let ghost bo = out@;
                let ghost bi = ids@;
                out.push(items[k].duplicate());
                ids.push(k);
                proof {
                    assert(as_ints(ids@) =~= before.push(k as int));
                    assert(out@ =~= picked(items@, ids@)) by {
                        assert(picked(items@, ids@) =~= picked(items@, bi).push(items@[k as int]));
                    }
                    assert(start + band(cs, c as nat, k + 1) =~= (start + band(cs, c as nat, k as int)).push(k as int));
                }
            } else {
                proof {
                    assert(start + band(cs, c as nat, k + 1) =~= start + band(cs, c as nat, k as int));
                }
            }
            k = k + 1;
        }
        proof {
            assert(desc_bands(cs, top as nat, c as int) =~= desc_bands(cs, top as nat, c + 1) + band(cs, c as nat, cs.len() as int));
        }
        if c == 0 {
            break;
        }
        c = c - 1;
    }
    (out, ids)
}

/// The number of commas in a text.
fn count_commas(s: &str) -> (r: usize)
    ensures
        r as nat == commas(s@),
{
    let v = chars_of(s);
    let mut n: usize = 0;
    let mut i: usize = 0;
    while i < v.len()
        invariant
            i <= v@.len(),
            n as nat == commas(v@.subrange(0, i as int)),
            n <= i,
        decreases v@.len() - i,
    {
        proof {
            assert(v@.subrange(0, i + 1).drop_last() =~= v@.subrange(0, i as int));
        }
        if v[i] == ',' {
            n = n + 1;
        }
        i = i + 1;
    }
    assert(v@.subrange(0, v@.len() as int) =~= v@);
    n
}

/// Where `entry_of` finds a key among merged pages whose keys are listed.
proof fn lemma_entry_of(m: Seq<(SearchResult, Seq<Seq<char>>)>, key: Seq<char>, keys: Seq<String>)
    requires
        keys.len() == m.len(),
        forall|k: int| 0 <= k < m.len() ==> keys[k]@ == normalized_url((#[trigger] m[k]).0.url@),
    ensures
        entry_of(m, key) >= 0 ==> entry_of(m, key) < m.len() && keys[entry_of(m, key)]@ == key
            && forall|j: int| entry_of(m, key) < j < m.len() ==> keys[j]@ != key,
        entry_of(m, key) < 0 ==> entry_of(m, key) == -1 && forall|j: int| 0 <= j < m.len() ==> keys[j]@ != key,
    decreases m.len(),
{
    if m.len() > 0 {
        let n = m.len() - 1;
        assert(keys[n]@ == normalized_url(m[n].0.url@));
        if normalized_url(m[n].0.url@) == key {
            assert(entry_of(m, key) == n);
        } else {
            let m2 = m.drop_last();
            let k2 = keys.drop_last();
            assert forall|k: int| 0 <= k < m2.len() implies k2[k]@ == normalized_url((#[trigger] m2[k]).0.url@) by {
                assert(m2[k] == m[k]);
                assert(k2[k] == keys[k]);
            }
            lemma_entry_of(m2, key, k2);
            assert(entry_of(m, key) == entry_of(m2, key));
            assert forall|j: int| entry_of(m, key) < j < m.len() implies keys[j]@ != key by {
                if j < n {
                    assert(k2[j] == keys[j]);
                }
            }
            if entry_of(m, key) >= 0 {
                assert(k2[entry_of(m, key)] == keys[entry_of(m, key)]);
            }
        }
    }
}


/// Deduplication leaves one result per page: no two results it returns have the same
/// normalised URL, each is one of the given results, and every given result's page is
/// among them.
#[verifier::rlimit(40)]
pub proof fn law_dedup_one_per_page(rs: Seq<SearchResult>)
    ensures
        forall|i: int, j: int|
            0 <= i < j < deduped(rs).len() ==> normalized_url(#[trigger] deduped(rs)[i].url@)
                != normalized_url(#[trigger] deduped(rs)[j].url@),
        forall|j: int| 0 <= j < deduped(rs).len() ==> rs.contains(#[trigger] deduped(rs)[j]),
        forall|i: int|
            0 <= i < rs.len() ==> exists|j: int|
                0 <= j < deduped(rs).len() && normalized_url(#[trigger] deduped(rs)[j].url@)
                    == normalized_url(#[trigger] rs[i].url@),
    decreases rs.len(),
{
    if rs.len() > 0 {
        let init = rs.drop_last();
        law_dedup_one_per_page(init);
        let d0 = deduped(init);
        let d = deduped(rs);
        assert forall|j: int| 0 <= j < d.len() implies rs.contains(#[trigger] d[j]) by {
            if j < d0.len() {
                assert(d[j] == d0[j]);
                let m = choose|m: int| 0 <= m < init.len() && init[m] == d0[j];
                assert(rs[m] == d0[j]);
            } else {
                assert(d[j] == rs[rs.len() - 1]);
            }
        }
        assert forall|i: int| 0 <= i < rs.len() implies exists|j: int|
            0 <= j < d.len() && normalized_url(#[trigger] d[j].url@) == normalized_url(#[trigger] rs[i].url@) by {
            if i < rs.len() - 1 {
                assert(rs[i] == init[i]);
                let j = choose|j: int| 0 <= j < d0.len() && normalized_url(#[trigger] d0[j].url@) == normalized_url(init[i].url@);
                assert(d[j] == d0[j]);
            } else if url_seen_before(rs, rs.len() - 1) {
                let m = choose|m: int| 0 <= m < rs.len() - 1 && normalized_url(#[trigger] rs[m].url@) == normalized_url(rs[rs.len() - 1].url@);
                assert(rs[m] == init[m]);
                let j = choose|j: int| 0 <= j < d0.len() && normalized_url(#[trigger] d0[j].url@) == normalized_url(init[m].url@);
                assert(d[j] == d0[j]);
            } else {
                assert(d[d.len() - 1] == rs[i]);
            }
        }
        if !url_seen_before(rs, rs.len() - 1) {
            assert forall|i: int, j: int| 0 <= i < j < d.len() implies normalized_url(#[trigger] d[i].url@)
                != normalized_url(#[trigger] d[j].url@) by {
                if j == d.len() - 1 {
                    assert(d[i] == d0[i]);
                    let m = choose|m: int| 0 <= m < init.len() && init[m] == d0[i];
                    assert(rs[m] == init[m]);
                    assert(d[j] == rs[rs.len() - 1]);
                } else {
                    assert(d[i] == d0[i]);
                    assert(d[j] == d0[j]);
                }
            }
        }
    }
}

/// The relevance filter only drops results: what it returns are given results, in their
/// When some result mentions a keyword of the query in its lower-cased
/// `title + " " + snippet`, the filter keeps exactly those results, in order; when none
/// does, it keeps them all. A keyword found only in the snippet counts as much as one in
/// the title.
pub proof fn law_relevant_keeps_every_mention(query: Seq<char>, rs: Seq<SearchResult>)
    ensures
        ({
            let kws = lower_keywords(query);
            let mentions = |r: SearchResult| exists|k: int| 0 <= k < kws.len() && contains_seq(lower(r.title@ + seq![' '] + r.snippet@), kws[k]);
            &&& (exists|i: int| 0 <= i < rs.len() && mentions(#[trigger] rs[i]))
                ==> relevant_results(query, rs) == rs.filter(mentions)
            &&& (forall|i: int| 0 <= i < rs.len() ==> !mentions(#[trigger] rs[i]))
                ==> relevant_results(query, rs) == rs
        }),
{
    broadcast use vstd::seq_lib::group_filter_ensures;
    let kws = lower_keywords(query);
    let mentions = |r: SearchResult| exists|k: int| 0 <= k < kws.len() && contains_seq(lower(r.title@ + seq![' '] + r.snippet@), kws[k]);
    let pred = |r: SearchResult| is_relevant_result(r, kws);
    assert(pred =~= mentions);
    let f = rs.filter(pred);
    if exists|i: int| 0 <= i < rs.len() && mentions(#[trigger] rs[i]) {
        let i = choose|i: int| 0 <= i < rs.len() && mentions(#[trigger] rs[i]);
        rs.lemma_filter_contains(pred, i);
        assert(f.contains(rs[i]));
        assert(f.len() > 0);
        assert(kws.len() > 0);
    }
    if forall|i: int| 0 <= i < rs.len() ==> !mentions(#[trigger] rs[i]) {
        if f.len() > 0 {
            assert(f.contains(f[0]));
            rs.lemma_filter_contains_rev(pred, f[0]);
            rs.lemma_filter_pred(pred, 0);
            let q = choose|q: int| 0 <= q < rs.len() && rs[q] == f[0];
            assert(!mentions(rs[q]));
        }
    }
}

/// order, and each is relevant unless it returned them all.
pub proof fn law_relevant_only_drops(query: Seq<char>, rs: Seq<SearchResult>)
    ensures
        forall|j: int| 0 <= j < relevant_results(query, rs).len() ==> rs.contains(#[trigger] relevant_results(query, rs)[j]),
        relevant_results(query, rs).len() <= rs.len(),
        relevant_results(query, rs) != rs ==> forall|j: int|
            0 <= j < relevant_results(query, rs).len() ==> is_relevant_result(
                #[trigger] relevant_results(query, rs)[j],
                lower_keywords(query),
            ),
{
    broadcast use vstd::seq_lib::group_filter_ensures;
    let kws = lower_keywords(query);
    let pred = |r: SearchResult| is_relevant_result(r, kws);
    let f = rs.filter(pred);
    assert forall|j: int| 0 <= j < f.len() implies rs.contains(#[trigger] f[j]) by {
        assert(f.contains(f[j]));
        rs.lemma_filter_contains_rev(pred, f[j]);
    }
    assert forall|j: int| 0 <= j < f.len() implies is_relevant_result(#[trigger] f[j], kws) by {
        rs.lemma_filter_pred(pred, j);
    }
    assert forall|j: int| 0 <= j < rs.len() implies rs.contains(#[trigger] rs[j]) by {}
}

} // verus!
