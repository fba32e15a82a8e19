//! The decisions of the research loop.
//!
//! The loop itself (asking the agents, searching, extracting, awaiting the model) is run
//! by whoever drives a session; every choice it makes is taken here: which tasks an
//! iteration works on, which findings are new, when the loop stops, what a model is asked
//! to cross-check and how its verdict is read, and how findings are laid out in chapters.
use vstd::prelude::*;
use crate::fragments::{contains_chars_vec, copy_chars, first_copies, lower_chars, utf8_len, vviews};
use crate::model::{
    same_finding, CitationGraph, Claim, Finding, QualityTally, Ratio, ResearchDirection,
    ResearchPlan, ResearchQuery, ResearchReport, ResearchSettings, SearchResult, SourceNode,
    SubTask, TaskStatus, Prompt,
};
use crate::text::{alphanumeric, chars_of, is_alphanumeric_char, str_eq, string_from};
use crate::words::{byte_len, cut_at, joined, lines_of, lines_of_text, push_str, split_ws, starts_with, sviews, ws_words};
use crate::json::{array_of, field, int_of, JsonValue};
use crate::model::ReportChapter;
use crate::text::{contains_seq, strip_leading, trim, upper};
use crate::words::decimal;

verus! {

broadcast use vstd::string::group_string_axioms;

/// `w` without the characters that are not letters or digits at its start.
pub open spec fn strip_front_na(w: Seq<char>) -> Seq<char>
    decreases w.len(),
{
    if w.len() > 0 && !alphanumeric(w[0]) {
        strip_front_na(w.drop_first())
    } else {
        w
    }
}

/// `w` without the characters that are not letters or digits at its end.
pub open spec fn strip_back_na(w: Seq<char>) -> Seq<char>
    decreases w.len(),
{
    if w.len() > 0 && !alphanumeric(w.last()) {
        strip_back_na(w.drop_last())
    } else {
        w
    }
}

/// `w` without the characters that are not letters or digits at either end.
pub open spec fn trim_na(w: Seq<char>) -> Seq<char> {
    strip_back_na(strip_front_na(w))
}

/// The words trimmed of what is no letter or digit at their ends, empty ones dropped.
pub open spec fn trimmed_words(ws: Seq<Seq<char>>) -> Seq<Seq<char>>
    decreases ws.len(),
{
    if ws.len() == 0 {
        ws
    } else {
        let r = trimmed_words(ws.drop_last());
        let t = trim_na(ws.last());
        if t.len() > 0 {
            r.push(t)
        } else {
            r
        }
    }
}

/// The set of words of a text, each once, in order of first appearance: the text is
/// lower-cased, split at whitespace, and each word trimmed of what is no letter or digit
/// at its ends.
pub open spec fn word_set(s: Seq<char>) -> Seq<Seq<char>> {
    first_copies(trimmed_words(ws_words(crate::text::lower(s))))
}

/// How many of `a` occur in `b`.
pub open spec fn shared_count(a: Seq<Seq<char>>, b: Seq<Seq<char>>) -> nat
    decreases a.len(),
{
    if a.len() == 0 {
        0
    } else {
        shared_count(a.drop_last(), b) + if b.contains(a.last()) {
            1nat
        } else {
            0nat
        }
    }
}

/// The word-level Jaccard similarity of two texts, as the sizes of the intersection and
/// of the union of their word sets. A union of size 0 counts as similarity 0.
pub open spec fn similarity(a: Seq<char>, b: Seq<char>) -> Ratio {
    let x = word_set(a);
    let y = word_set(b);
    let i = shared_count(x, y);
    Ratio { num: i as u128, den: (x.len() + y.len() - i) as u128 }
}

/// Two texts are near duplicates when their similarity is above one half.
pub open spec fn near_duplicate(a: Seq<char>, b: Seq<char>) -> bool {
    let r = similarity(a, b);
    2 * r.num > r.den
}

/// A finding needs the model's check against one already accepted when their similarity
/// is below three tenths.
pub open spec fn dissimilar(a: Seq<char>, b: Seq<char>) -> bool {
    let r = similarity(a, b);
    r.den == 0 || 10 * r.num < 3 * r.den
}

proof fn lemma_shared_count_le(a: Seq<Seq<char>>, b: Seq<Seq<char>>)
    ensures
        shared_count(a, b) <= a.len(),
    decreases a.len(),
{
    if a.len() > 0 {
        lemma_shared_count_le(a.drop_last(), b);
    }
}

proof fn lemma_shared_count_sets(c: Seq<Seq<char>>, b: Seq<Seq<char>>)
    ensures
        shared_count(first_copies(c), b) == first_copies(c).to_set().intersect(b.to_set()).len(),
    decreases c.len(),
{
    broadcast use vstd::seq_lib::seq_to_set_is_finite;
    broadcast use vstd::set::group_set_axioms;
    if c.len() == 0 {
        assert(first_copies(c).to_set().intersect(b.to_set()) =~= Set::<Seq<char>>::empty());
    } else {
        let init = c.drop_last();
        let x = c.last();
        let d = first_copies(init);
        lemma_shared_count_sets(init, b);
        if !d.contains(x) {
            let dx = d.push(x);
            assert(dx.drop_last() =~= d);
            d.lemma_push_to_set_commute(x);
            let i0 = d.to_set().intersect(b.to_set());
            if b.contains(x) {
                assert(dx.to_set().intersect(b.to_set()) =~= i0.insert(x));
                assert(!i0.contains(x));
            } else {
                assert(dx.to_set().intersect(b.to_set()) =~= i0);
            }
        }
    }
}

proof fn lemma_shared_count_all(a: Seq<Seq<char>>, b: Seq<Seq<char>>)
    requires
        forall|i: int| 0 <= i < a.len() ==> b.contains(#[trigger] a[i]),
    ensures
        shared_count(a, b) == a.len(),
    decreases a.len(),
{
    if a.len() > 0 {
        let init = a.drop_last();
        assert forall|i: int| 0 <= i < init.len() implies b.contains(#[trigger] init[i]) by {
            assert(init[i] == a[i]);
        }
        lemma_shared_count_all(init, b);
        assert(b.contains(a[a.len() - 1]));
    }
}

/// Similarity does not depend on the order of the texts compared, so neither does being a
/// near duplicate.
pub proof fn law_similarity_symmetric(a: Seq<char>, b: Seq<char>)
    ensures
        similarity(a, b) == similarity(b, a),
        near_duplicate(a, b) == near_duplicate(b, a),
{
    let x = word_set(a);
    let y = word_set(b);
    lemma_shared_count_sets(trimmed_words(ws_words(crate::text::lower(a))), y);
    lemma_shared_count_sets(trimmed_words(ws_words(crate::text::lower(b))), x);
    assert(x.to_set().intersect(y.to_set()) =~= y.to_set().intersect(x.to_set()));
}

/// A text with at least one word is a near duplicate of itself: it shares all its words.
pub proof fn law_near_duplicate_of_itself(a: Seq<char>)
    requires
        word_set(a).len() <= u128::MAX,
    ensures
        similarity(a, a).num as int == word_set(a).len(),
        similarity(a, a).den as int == word_set(a).len(),
        near_duplicate(a, a) <==> word_set(a).len() > 0,
{
    let x = word_set(a);
    assert forall|i: int| 0 <= i < x.len() implies x.contains(#[trigger] x[i]) by {}
    lemma_shared_count_all(x, x);
}

/// `w` trimmed of what is no letter or digit at its ends.
fn trim_non_alnum(w: &Vec<char>) -> (r: Vec<char>)
    ensures
        r@ == trim_na(w@),
{
    let mut i: usize = 0;
    assert(w@.subrange(0, w@.len() as int) =~= w@);
    while i < w.len() && !is_alphanumeric_char(w[i])
        invariant
            i <= w@.len(),
            strip_front_na(w@) == strip_front_na(w@.subrange(i as int, w@.len() as int)),
        decreases w@.len() - i,
    {
        assert(w@.subrange(i as int, w@.len() as int).drop_first() =~= w@.subrange(i + 1, w@.len() as int));
        i = i + 1;
    }
    let ghost front = w@.subrange(i as int, w@.len() as int);
    assert(strip_front_na(front) == front);
    let mut j: usize = w.len();
    while j > i && !is_alphanumeric_char(w[j - 1])
        invariant
            i <= j <= w@.len(),
            strip_back_na(front) == strip_back_na(w@.subrange(i as int, j as int)),
        decreases j,
    {
        assert(w@.subrange(i as int, j as int).drop_last() =~= w@.subrange(i as int, j - 1));
        j = j - 1;
    }
    assert(strip_back_na(w@.subrange(i as int, j as int)) == w@.subrange(i as int, j as int));
    crate::text::slice_chars(w, i, j)
}

/// The word set of a text (see `word_set`).
pub fn word_set_of(s: &str) -> (r: Vec<Vec<char>>)
    ensures
        vviews(r@) == word_set(s@),
{
    let chars = chars_of(s);
    let low = lower_chars(&chars);
    let words = split_ws(&low);
    let ghost ws = vviews(words@);
    let mut trimmed: Vec<Vec<char>> = Vec::new();
    let mut i: usize = 0;
    while i < words.len()
        invariant
            i <= words@.len(),
            ws == vviews(words@),
            vviews(trimmed@) == trimmed_words(ws.subrange(0, i as int)),
        decreases words@.len() - i,
    {
        proof {
            assert(ws.subrange(0, i + 1).drop_last() =~= ws.subrange(0, i as int));
        }
        let t = trim_non_alnum(&words[i]);
        if t.len() > 0 {
            let ghost before = vviews(trimmed@);
            let ghost tv = t@;
            trimmed.push(t);
            assert(vviews(trimmed@) =~= before.push(tv));
        }
        i = i + 1;
    }
    assert(ws.subrange(0, ws.len() as int) =~= ws);
    let ghost ts = vviews(trimmed@);
    let mut firsts: Vec<Vec<char>> = Vec::new();
    let mut k: usize = 0;
    proof {
        assert(vviews(firsts@) =~= first_copies(ts.subrange(0, 0)));
    }
    while k < trimmed.len()
        invariant
            k <= trimmed@.len(),
            ts == vviews(trimmed@),
            vviews(firsts@) == first_copies(ts.subrange(0, k as int)),
        decreases trimmed@.len() - k,
    {
        proof {
            assert(ts.subrange(0, k + 1).drop_last() =~= ts.subrange(0, k as int));
        }
        if !contains_chars_vec(&firsts, &trimmed[k]) {
            let c = copy_chars(&trimmed[k]);
            let ghost before = vviews(firsts@);
            firsts.push(c);
            assert(vviews(firsts@) =~= before.push(ts[k as int]));
        }
        k = k + 1;
    }
    assert(ts.subrange(0, ts.len() as int) =~= ts);
    firsts
}

/// The word-level Jaccard similarity of two texts (see `similarity`).
pub fn text_similarity(a: &str, b: &str) -> (r: Ratio)
    ensures
        r == similarity(a@, b@),
        r.num <= usize::MAX,
        r.den <= 2 * (usize::MAX as int),
{
    let x = word_set_of(a);
    let y = word_set_of(b);
    let mut shared: usize = 0;
    let mut i: usize = 0;
    while i < x.len()
        invariant
            i <= x@.len(),
            shared == shared_count(vviews(x@).subrange(0, i as int), vviews(y@)),
            shared <= i,
        decreases x@.len() - i,
    {
        proof {
            assert(vviews(x@).subrange(0, i + 1).drop_last() =~= vviews(x@).subrange(0, i as int));
            assert(vviews(x@).subrange(0, i + 1).last() == x@[i as int]@);
        }
        if contains_chars_vec(&y, &x[i]) {
            shared = shared + 1;
        }
        i = i + 1;
    }
    assert(vviews(x@).subrange(0, x@.len() as int) =~= vviews(x@));
    let union: u128 = (x.len() - shared) as u128 + y.len() as u128;
    Ratio { num: shared as u128, den: union }
}

/// Whether two texts are near duplicates (similarity above one half).
pub fn is_near_duplicate(a: &str, b: &str) -> (r: bool)
    ensures
        r == near_duplicate(a@, b@),
{
    let s = text_similarity(a, b);
    2 * s.num > s.den
}

/// `existing` after the new findings were merged into it, one at a time: a finding that is
/// a near duplicate of one already there is dropped, any other is added at the end.
pub open spec fn merged(existing: Seq<Finding>, news: Seq<Finding>) -> Seq<Finding>
    decreases news.len(),
{
    if news.len() == 0 {
        existing
    } else {
        let before = merged(existing, news.drop_last());
        let f = news.last();
        if exists|k: int| 0 <= k < before.len() && near_duplicate(f.content@, #[trigger] before[k].content@) {
            before
        } else {
            before.push(f)
        }
    }
}

proof fn lemma_merged_prefix(existing: Seq<Finding>, news: Seq<Finding>)
    ensures
        merged(existing, news).len() >= existing.len(),
        merged(existing, news).len() <= existing.len() + news.len(),
        merged(existing, news).subrange(0, existing.len() as int) == existing,
    decreases news.len(),
{
    if news.len() > 0 {
        lemma_merged_prefix(existing, news.drop_last());
        let before = merged(existing, news.drop_last());
        assert(before.push(news.last()).subrange(0, existing.len() as int) =~= before.subrange(0, existing.len() as int));
    }
}

/// Merging keeps what was there and loses nothing new without cause: the findings that
/// were there stay first and in order, whatever follows them is one of the new findings,
/// and each new finding is either in the result or a near duplicate of one that is.
pub proof fn law_merge_keeps_and_accounts(existing: Seq<Finding>, news: Seq<Finding>)
    ensures
        merged(existing, news).subrange(0, existing.len() as int) == existing,
        forall|j: int| existing.len() <= j < merged(existing, news).len() ==> news.contains(#[trigger] merged(existing, news)[j]),
        forall|i: int| 0 <= i < news.len() ==> merged(existing, news).contains(#[trigger] news[i]) || exists|k: int|
            0 <= k < merged(existing, news).len() && near_duplicate(news[i].content@, #[trigger] merged(existing, news)[k].content@),
    decreases news.len(),
{
    lemma_merged_prefix(existing, news);
    if news.len() > 0 {
        let init = news.drop_last();
        law_merge_keeps_and_accounts(existing, init);
        lemma_merged_prefix(existing, init);
        let before = merged(existing, init);
        let m = merged(existing, news);
        let f = news.last();
        assert(m.subrange(0, before.len() as int) =~= before);
        assert forall|j: int| existing.len() <= j < m.len() implies news.contains(#[trigger] m[j]) by {
            if j < before.len() {
                assert(m[j] == before[j]);
                assert(init.contains(before[j]));
                let q = choose|q: int| 0 <= q < init.len() && init[q] == before[j];
                assert(news[q] == init[q]);
            } else {
                assert(m[j] == f);
                assert(news[news.len() - 1] == f);
            }
        }
        assert forall|i: int| 0 <= i < news.len() implies m.contains(#[trigger] news[i]) || exists|k: int|
            0 <= k < m.len() && near_duplicate(news[i].content@, #[trigger] m[k].content@) by {
            if i < news.len() - 1 {
                assert(news[i] == init[i]);
                if before.contains(init[i]) {
                    let q = choose|q: int| 0 <= q < before.len() && before[q] == init[i];
                    assert(m[q] == before[q]);
                } else {
                    let k = choose|k: int| 0 <= k < before.len() && near_duplicate(init[i].content@, #[trigger] before[k].content@);
                    assert(m[k] == before[k]);
                }
            } else if exists|k: int| 0 <= k < before.len() && near_duplicate(f.content@, #[trigger] before[k].content@) {
                let k = choose|k: int| 0 <= k < before.len() && near_duplicate(f.content@, #[trigger] before[k].content@);
                assert(m[k] == before[k]);
            } else {
                assert(m[m.len() - 1] == f);
            }
        }
    }
}

/// Whether `f` is a near duplicate of one of `fs`.
fn duplicates_one(fs: &Vec<Finding>, f: &Finding) -> (r: bool)
    ensures
        r == exists|k: int| 0 <= k < fs@.len() && near_duplicate(f.content@, #[trigger] fs@[k].content@),
{
    let mut k: usize = 0;
    while k < fs.len()
        invariant
            k <= fs@.len(),
            forall|m: int| 0 <= m < k ==> !near_duplicate(f.content@, #[trigger] fs@[m].content@),
        decreases fs@.len() - k,
    {
        if is_near_duplicate(f.content.as_str(), fs[k].content.as_str()) {
            return true;
        }
        k = k + 1;
    }
    false
}

/// Merges new findings into the known ones (see `merged`) and returns how many were
/// added.
pub fn merge_findings(existing: &mut Vec<Finding>, new_findings: Vec<Finding>) -> (novel: usize)
    ensures
        final(existing)@ == merged(old(existing)@, new_findings@),
        novel == final(existing)@.len() - old(existing)@.len(),
        novel <= new_findings@.len(),
{
    let ghost start = existing@;
    let ghost news = new_findings@;
    let mut rest = new_findings;
    let mut novel: usize = 0;
    let mut taken: usize = 0;
    let n = rest.len();
    while rest.len() > 0
        invariant
            n == news.len(),
            taken + rest@.len() == n,
            rest@ == news.subrange(taken as int, n as int),
            existing@ == merged(start, news.subrange(0, taken as int)),
            novel == existing@.len() - start.len(),
            novel <= taken,
        decreases rest@.len(),
    {
        let f = rest.remove(0);
        proof {
            assert(news.subrange(0, taken + 1).drop_last() =~= news.subrange(0, taken as int));
            assert(news.subrange(0, taken + 1).last() == f);
            lemma_merged_prefix(start, news.subrange(0, taken as int));
        }
        if !duplicates_one(existing, &f) {
            existing.push(f);
            novel = novel + 1;
        }
        assert(rest@ =~= news.subrange(taken + 1, n as int));
        taken = taken + 1;
    }
    assert(news.subrange(0, n as int) =~= news);
    novel
}

/// The descriptions of the plan's pending sub-tasks, in order.
pub open spec fn pending_descriptions(tasks: Seq<SubTask>) -> Seq<Seq<char>>
    decreases tasks.len(),
{
    if tasks.len() == 0 {
        Seq::empty()
    } else {
        let r = pending_descriptions(tasks.drop_last());
        if tasks.last().status == TaskStatus::Pending {
            r.push(tasks.last().description@)
        } else {
            r
        }
    }
}

/// The descriptions of the directions whose priority is at least one half, in order.
pub open spec fn urgent_directions(ds: Seq<ResearchDirection>) -> Seq<Seq<char>>
    decreases ds.len(),
{
    if ds.len() == 0 {
        Seq::empty()
    } else {
        let r = urgent_directions(ds.drop_last());
        if ds.last().priority_milli >= 500 {
            r.push(ds.last().description@)
        } else {
            r
        }
    }
}

/// The tasks of one iteration: the plan's pending sub-tasks, then the pending directions
/// of priority at least one half.
pub fn build_iteration_tasks(plan: &ResearchPlan, directions: &Vec<ResearchDirection>) -> (r: Vec<String>)
    ensures
        sviews(r@) == pending_descriptions(plan.sub_tasks@) + urgent_directions(directions@),
{
    let mut r: Vec<String> = Vec::new();
    let mut i: usize = 0;
    while i < plan.sub_tasks.len()
        invariant
            i <= plan.sub_tasks@.len(),
            sviews(r@) == pending_descriptions(plan.sub_tasks@.subrange(0, i as int)),
        decreases plan.sub_tasks@.len() - i,
    {
        proof {
            assert(plan.sub_tasks@.subrange(0, i + 1).drop_last() =~= plan.sub_tasks@.subrange(0, i as int));
        }
        if plan.sub_tasks[i].status == TaskStatus::Pending {
            let ghost before = sviews(r@);
            r.push(plan.sub_tasks[i].description.clone());
            assert(sviews(r@) =~= before.push(plan.sub_tasks@[i as int].description@));
        }
        i = i + 1;
    }
    assert(plan.sub_tasks@.subrange(0, plan.sub_tasks@.len() as int) =~= plan.sub_tasks@);
    let ghost head = sviews(r@);
    let mut j: usize = 0;
    while j < directions.len()
        invariant
            j <= directions@.len(),
            sviews(r@) == head + urgent_directions(directions@.subrange(0, j as int)),
        decreases directions@.len() - j,
    {
        proof {
            assert(directions@.subrange(0, j + 1).drop_last() =~= directions@.subrange(0, j as int));
        }
        if directions[j].priority_milli >= 500 {
            let ghost before = sviews(r@);
            r.push(directions[j].description.clone());
            assert(sviews(r@) =~= before.push(directions@[j as int].description@));
        }
        j = j + 1;
    }
    assert(directions@.subrange(0, directions@.len() as int) =~= directions@);
    r
}

/// The contents of the findings, in order.
pub open spec fn contents(fs: Seq<Finding>) -> Seq<Seq<char>> {
    fs.map_values(|f: Finding| f.content@)
}

/// The context handed to the query planner: the known findings joined with `"; "`, cut at
/// the first character boundary at or past byte 1000 and marked with `"..."` when longer.
pub open spec fn context_text(fs: Seq<Finding>) -> Seq<char> {
    let j = joined(contents(fs), "; "@);
    if utf8_len(j) > 1000 {
        j.subrange(0, cut_at(j, 1000, 0)) + "..."@
    } else {
        j
    }
}

/// The context of the known findings (see `context_text`).
pub fn task_context(existing: &Vec<Finding>) -> (r: String)
    ensures
        r@ == context_text(existing@),
{
    let mut parts: Vec<String> = Vec::new();
    let mut i: usize = 0;
    while i < existing.len()
        invariant
            i <= existing@.len(),
            sviews(parts@) == contents(existing@).subrange(0, i as int),
        decreases existing@.len() - i,
    {
        let ghost before = sviews(parts@);
        parts.push(existing[i].content.clone());
        assert(sviews(parts@) =~= before.push(existing@[i as int].content@));
        assert(contents(existing@).subrange(0, i + 1) =~= contents(existing@).subrange(0, i as int).push(existing@[i as int].content@));
        i = i + 1;
    }
    assert(contents(existing@).subrange(0, existing@.len() as int) =~= contents(existing@));
    let joined_text = crate::words::join(&parts, "; ");
    let v = chars_of(joined_text.as_str());
    let total = byte_len(&v);
    if total > 1000 {
        let mut k: usize = 0;
        let mut bytes: u128 = 0;
        while k < v.len() && bytes < 1000
            invariant
                k <= v@.len(),
                bytes == utf8_len(v@.subrange(0, k as int)),
                bytes <= 4 * k,
                cut_at(v@, 1000, 0) == cut_at(v@, 1000, k as int),
            decreases v@.len() - k,
        {
            proof {
                assert(v@.subrange(0, k + 1).drop_last() =~= v@.subrange(0, k as int));
            }
            let u = v[k] as u32;
            let w: u128 = if u < 0x80 {
                1
            } else if u < 0x800 {
                2
            } else if u < 0x10000 {
                3
            } else {
                4
            };
            bytes = bytes + w;
            k = k + 1;
        }
        let mut r = crate::text::string_from_range(&v, 0, k);
        push_str(&mut r, "...");
        r
    } else {
        joined_text
    }
}

/// The URLs not met before, in order, and the URLs met after reading `rs`.
pub open spec fn unseen_scan(seen: Seq<Seq<char>>, rs: Seq<SearchResult>) -> (Seq<Seq<char>>, Seq<SearchResult>)
    decreases rs.len(),
{
    if rs.len() == 0 {
        (seen, Seq::empty())
    } else {
        let (s, kept) = unseen_scan(seen, rs.drop_last());
        let r = rs.last();
        if s.contains(r.url@) {
            (s, kept)
        } else {
            (s.push(r.url@), kept.push(r))
        }
    }
}

/// Result `j` of `rs` is new: no URL met before has its URL, and no earlier result does.
pub open spec fn first_unseen(seen: Seq<Seq<char>>, rs: Seq<SearchResult>, j: int) -> bool {
    &&& !seen.contains(rs[j].url@)
    &&& forall|m: int| 0 <= m < j ==> rs[m].url@ != rs[j].url@
}

/// The indices below `n` of the new results of `rs` (see `first_unseen`), in order.
pub open spec fn first_unseen_indices(seen: Seq<Seq<char>>, rs: Seq<SearchResult>, n: int) -> Seq<int>
    decreases n,
{
    if n <= 0 {
        Seq::empty()
    } else if first_unseen(seen, rs, n - 1) {
        first_unseen_indices(seen, rs, n - 1).push(n - 1)
    } else {
        first_unseen_indices(seen, rs, n - 1)
    }
}

proof fn lemma_first_unseen_indices_prefix(seen: Seq<Seq<char>>, rs: Seq<SearchResult>, n: int)
    requires
        rs.len() > 0,
        0 <= n < rs.len(),
    ensures
        first_unseen_indices(seen, rs.drop_last(), n) == first_unseen_indices(seen, rs, n),
        forall|i: int| 0 <= i < first_unseen_indices(seen, rs, n).len()
            ==> 0 <= #[trigger] first_unseen_indices(seen, rs, n)[i] < n,
    decreases n,
{
    if n > 0 {
        lemma_first_unseen_indices_prefix(seen, rs, n - 1);
        assert(rs.drop_last()[n - 1] == rs[n - 1]);
        assert(first_unseen(seen, rs.drop_last(), n - 1) == first_unseen(seen, rs, n - 1)) by {
            assert forall|m: int| 0 <= m < n - 1 implies rs.drop_last()[m] == rs[m] by {}
        }
    }
}

/// Reading search results against the URLs met before: afterwards the URLs met are those
/// met before and those of the results, and the results kept are exactly the new ones
/// (see `first_unseen`), in their order.
pub proof fn law_unseen_scan(seen: Seq<Seq<char>>, rs: Seq<SearchResult>)
    ensures
        forall|u: Seq<char>| #[trigger] unseen_scan(seen, rs).0.contains(u)
            <==> seen.contains(u) || exists|j: int| 0 <= j < rs.len() && rs[j].url@ == u,
        unseen_scan(seen, rs).1 == first_unseen_indices(seen, rs, rs.len() as int).map_values(|j: int| rs[j]),
    decreases rs.len(),
{
    if rs.len() > 0 {
        let p = rs.drop_last();
        let x = rs.last();
        let n = rs.len() as int;
        law_unseen_scan(seen, p);
        lemma_first_unseen_indices_prefix(seen, rs, n - 1);
        let (s1, k1) = unseen_scan(seen, p);
        let idx = first_unseen_indices(seen, rs, n - 1);
        assert(k1 =~= idx.map_values(|j: int| rs[j])) by {
            assert forall|i: int| 0 <= i < idx.len() implies k1[i] == rs[idx[i]] by {
                assert(0 <= idx[i] < n - 1);
                assert(p[idx[i]] == rs[idx[i]]);
            }
        }
        assert(s1.contains(x.url@) <==> !first_unseen(seen, rs, n - 1)) by {
            if s1.contains(x.url@) && !seen.contains(x.url@) {
                let j = choose|j: int| 0 <= j < p.len() && p[j].url@ == x.url@;
                assert(rs[j].url@ == rs[n - 1].url@);
            }
            if !first_unseen(seen, rs, n - 1) && !seen.contains(x.url@) {
                let m = choose|m: int| 0 <= m < n - 1 && (#[trigger] rs[m]).url@ == rs[n - 1].url@;
                assert(p[m].url@ == x.url@);
            }
        }
        let (s2, k2) = unseen_scan(seen, rs);
        assert forall|u: Seq<char>| #[trigger] s2.contains(u)
            <==> seen.contains(u) || exists|j: int| 0 <= j < rs.len() && rs[j].url@ == u by {
            if exists|j: int| 0 <= j < rs.len() && rs[j].url@ == u {
                let j = choose|j: int| 0 <= j < rs.len() && rs[j].url@ == u;
                if j < n - 1 {
                    assert(p[j].url@ == u);
                    assert(s1.contains(u));
                } else {
                    if !s1.contains(u) {
                        assert(s2 == s1.push(x.url@));
                        assert(s2[s1.len() as int] == u);
                    }
                }
            }
            if s1.contains(u) {
                let i = choose|i: int| 0 <= i < s1.len() && s1[i] == u;
                if !s1.contains(x.url@) {
                    assert(s2 == s1.push(x.url@));
                    assert(s2[i] == u);
                }
            }
            if s2.contains(u) && !s1.contains(u) {
                assert(u == x.url@);
                assert(rs[n - 1].url@ == u);
            }
            if exists|j: int| 0 <= j < p.len() && p[j].url@ == u {
                let j = choose|j: int| 0 <= j < p.len() && p[j].url@ == u;
                assert(rs[j].url@ == u);
            }
        }
        if first_unseen(seen, rs, n - 1) {
            assert(k2 =~= first_unseen_indices(seen, rs, n).map_values(|j: int| rs[j]));
        } else {
            assert(k2 =~= first_unseen_indices(seen, rs, n).map_values(|j: int| rs[j]));
        }
    } else {
        assert(unseen_scan(seen, rs).1 =~= first_unseen_indices(seen, rs, 0).map_values(|j: int| rs[j]));
    }
}

/// Whether `u` is one of `v`.
pub fn holds_text(v: &Vec<String>, u: &str) -> (r: bool)
    ensures
        r == sviews(v@).contains(u@),
{
    let mut k: usize = 0;
    while k < v.len()
        invariant
            k <= v@.len(),
            forall|m: int| 0 <= m < k ==> v@[m]@ != u@,
        decreases v@.len() - k,
    {
        if str_eq(v[k].as_str(), u) {
            assert(sviews(v@)[k as int] == u@);
            return true;
        }
        k = k + 1;
    }
    assert(!sviews(v@).contains(u@)) by {
        if sviews(v@).contains(u@) {
            let m = choose|m: int| 0 <= m < sviews(v@).len() && sviews(v@)[m] == u@;
            assert(v@[m]@ == u@);
        }
    }
    false
}

/// Keeps the results whose URL was not met before in the session, and records their URLs.
pub fn filter_unseen(seen: &mut Vec<String>, results: Vec<SearchResult>) -> (r: Vec<SearchResult>)
    ensures
        (sviews(final(seen)@), r@) == unseen_scan(sviews(old(seen)@), results@),
{
    let ghost start = sviews(seen@);
    let ghost all = results@;
    let n = results.len();
    let mut rest = results;
    let mut kept: Vec<SearchResult> = Vec::new();
    let mut taken: usize = 0;
    while rest.len() > 0
        invariant
            n == all.len(),
            taken + rest@.len() == n,
            rest@ == all.subrange(taken as int, n as int),
            (sviews(seen@), kept@) == unseen_scan(start, all.subrange(0, taken as int)),
        decreases rest@.len(),
    {
        let r = rest.remove(0);
        proof {
            assert(all.subrange(0, taken + 1).drop_last() =~= all.subrange(0, taken as int));
            assert(all.subrange(0, taken + 1).last() == r);
        }
        let met = holds_text(seen, r.url.as_str());
        if !met {
            let ghost before = sviews(seen@);
            seen.push(r.url.clone());
            assert(sviews(seen@) =~= before.push(r.url@));
            kept.push(r);
        }
        assert(rest@ =~= all.subrange(taken + 1, n as int));
        taken = taken + 1;
    }
    assert(all.subrange(0, n as int) =~= all);
    kept
}

/// The URLs cited by the findings, in order, repeats included.
pub open spec fn cited_urls(fs: Seq<Finding>) -> Seq<Seq<char>>
    decreases fs.len(),
{
    if fs.len() == 0 {
        Seq::empty()
    } else {
        cited_urls(fs.drop_last()) + sviews(fs.last().sources@)
    }
}

/// The title recorded for `url` (the last one recorded), or the URL itself.
pub open spec fn title_for(titles: Seq<(String, String)>, url: Seq<char>) -> Seq<char>
    decreases titles.len(),
{
    if titles.len() == 0 {
        url
    } else if titles.last().0@ == url {
        titles.last().1@
    } else {
        title_for(titles.drop_last(), url)
    }
}

/// Whether a title was recorded for `url`.
pub open spec fn has_title(titles: Seq<(String, String)>, url: Seq<char>) -> bool {
    exists|k: int| 0 <= k < titles.len() && (#[trigger] titles[k]).0@ == url
}

/// Whether a title was recorded for `url`.
pub fn has_title_for(titles: &Vec<(String, String)>, url: &str) -> (r: bool)
    ensures
        r == has_title(titles@, url@),
{
    let mut k: usize = 0;
    while k < titles.len()
        invariant
            k <= titles@.len(),
            forall|m: int| 0 <= m < k ==> (#[trigger] titles@[m]).0@ != url@,
        decreases titles@.len() - k,
    {
        if str_eq(titles[k].0.as_str(), url) {
            return true;
        }
        k = k + 1;
    }
    false
}

/// The title recorded for `url`, or the URL itself.
pub fn lookup_title(titles: &Vec<(String, String)>, url: &str) -> (r: String)
    ensures
        r@ == title_for(titles@, url@),
{
    let mut k: usize = titles.len();
    assert(titles@.subrange(0, titles@.len() as int) =~= titles@);
    while k > 0
        invariant
            k <= titles@.len(),
            title_for(titles@, url@) == title_for(titles@.subrange(0, k as int), url@),
        decreases k,
    {
        proof {
            assert(titles@.subrange(0, k as int).drop_last() =~= titles@.subrange(0, k - 1));
        }
        if str_eq(titles[k - 1].0.as_str(), url) {
            return titles[k - 1].1.clone();
        }
        k = k - 1;
    }
    crate::words::owned(url)
}

/// The claims to check: one per finding, with its identifier and text, at confidence one
/// half.
pub fn claims_of(findings: &Vec<Finding>) -> (r: Vec<Claim>)
    ensures
        r@.len() == findings@.len(),
        forall|k: int| 0 <= k < r@.len() ==> {
            &&& (#[trigger] r@[k]).id == findings@[k].id
            &&& r@[k].text == findings@[k].content
            &&& r@[k].confidence == Ratio { num: 1, den: 2 }
        },
{
    let mut r: Vec<Claim> = Vec::new();
    let mut i: usize = 0;
    while i < findings.len()
        invariant
            i <= findings@.len(),
            r@.len() == i,
            forall|k: int| 0 <= k < i ==> {
                &&& (#[trigger] r@[k]).id == findings@[k].id
                &&& r@[k].text == findings@[k].content
                &&& r@[k].confidence == Ratio { num: 1, den: 2 }
            },
        decreases findings@.len() - i,
    {
        r.push(Claim { id: findings[i].id, text: findings[i].content.clone(), confidence: Ratio { num: 1, den: 2 } });
        i = i + 1;
    }
    r
}

/// The sources to check against: one per cited URL (repeats included), in order, each
/// with a fresh identifier and the title recorded for it.
pub fn sources_of(findings: &Vec<Finding>, titles: &Vec<(String, String)>) -> (r: Vec<SourceNode>)
    ensures
        r@.len() == cited_urls(findings@).len(),
        forall|k: int| 0 <= k < r@.len() ==> {
            &&& (#[trigger] r@[k]).url@ == cited_urls(findings@)[k]
            &&& r@[k].title@ == title_for(titles@, cited_urls(findings@)[k])
        },
{
    let mut r: Vec<SourceNode> = Vec::new();
    let mut i: usize = 0;
    while i < findings.len()
        invariant
            i <= findings@.len(),
            r@.len() == cited_urls(findings@.subrange(0, i as int)).len(),
            forall|k: int| 0 <= k < r@.len() ==> {
                &&& (#[trigger] r@[k]).url@ == cited_urls(findings@.subrange(0, i as int))[k]
                &&& r@[k].title@ == title_for(titles@, cited_urls(findings@.subrange(0, i as int))[k])
            },
        decreases findings@.len() - i,
    {
        let ghost pre = cited_urls(findings@.subrange(0, i as int));
        proof {
            assert(findings@.subrange(0, i + 1).drop_last() =~= findings@.subrange(0, i as int));
        }
        let f = &findings[i];
        let mut j: usize = 0;
        while j < f.sources.len()
            invariant
                j <= f.sources@.len(),
                r@.len() == pre.len() + j,
                forall|k: int| 0 <= k < r@.len() ==> {
                    &&& (#[trigger] r@[k]).url@ == (pre + sviews(f.sources@))[k]
                    &&& r@[k].title@ == title_for(titles@, (pre + sviews(f.sources@))[k])
                },
            decreases f.sources@.len() - j,
        {
            let url = &f.sources[j];
            let title = lookup_title(titles, url.as_str());
            r.push(SourceNode { id: crate::ids::new_id(), url: url.clone(), title });
            j = j + 1;
        }
        i = i + 1;
    }
    assert(findings@.subrange(0, findings@.len() as int) =~= findings@);
    r
}

/// What the verifier is handed: the claims and sources of the findings, when there are
/// findings and they cite at least one URL.
pub fn verification_request(findings: &Vec<Finding>, titles: &Vec<(String, String)>) -> (r: Option<(Vec<Claim>, Vec<SourceNode>)>)
    ensures
        r is Some <==> findings@.len() > 0 && cited_urls(findings@).len() > 0,
        r matches Some((claims, sources)) ==> {
            &&& claims@.len() == findings@.len()
            &&& forall|k: int| 0 <= k < claims@.len() ==> {
                &&& (#[trigger] claims@[k]).id == findings@[k].id
                &&& claims@[k].text == findings@[k].content
                &&& claims@[k].confidence == Ratio { num: 1, den: 2 }
            }
            &&& sources@.len() == cited_urls(findings@).len()
            &&& forall|k: int| 0 <= k < sources@.len() ==> {
                &&& (#[trigger] sources@[k]).url@ == cited_urls(findings@)[k]
                &&& sources@[k].title@ == title_for(titles@, cited_urls(findings@)[k])
            }
        },
{
    if findings.len() == 0 {
        return None;
    }
    let claims = claims_of(findings);
    let sources = sources_of(findings, titles);
    if claims.len() > 0 && sources.len() > 0 {
        Some((claims, sources))
    } else {
        None
    }
}

/// The plan used when the planner fails: one pending sub-task, the full query.
pub fn fallback_plan(query: &ResearchQuery) -> (r: ResearchPlan)
    ensures
        r.query_id == query.id,
        r.sub_tasks@.len() == 1,
        r.sub_tasks@[0].description@ == crate::model::full_query_text(*query),
        r.sub_tasks@[0].status == TaskStatus::Pending,
        r.sub_tasks@[0].dependencies@.len() == 0,
        r.outline is None,
        r.core_thesis is None,
        r.reasoning_chain is None,
{
    let task = SubTask {
        id: crate::ids::new_id(),
        description: query.full_query(),
        status: TaskStatus::Pending,
        dependencies: Vec::new(),
    };
    let mut sub_tasks: Vec<SubTask> = Vec::new();
    sub_tasks.push(task);
    ResearchPlan { query_id: query.id, sub_tasks, outline: None, core_thesis: None, reasoning_chain: None }
}

/// The iteration count and stopping state of the research loop.
pub struct ResearchLoop {
    /// The number of iterations the loop may run.
    pub max_iters: usize,
    /// The iterations begun so far.
    pub iteration: usize,
    /// How many iterations in a row brought no new finding.
    pub empty_rounds: usize,
    /// Whether the loop has stopped early.
    pub stopped: bool,
}

/// The number of iterations a session may run: the configured number, but at most three,
/// for a short report and for a long one alike.
pub open spec fn iteration_budget(s: ResearchSettings) -> nat {
    if s.max_iterations > 3 {
        3
    } else {
        s.max_iterations as nat
    }
}

impl ResearchLoop {
    /// The loop before its first iteration.
    pub fn new(settings: &ResearchSettings) -> (r: ResearchLoop)
        ensures
            r.max_iters == iteration_budget(*settings),
            r.iteration == 0,
            r.empty_rounds == 0,
            !r.stopped,
    {
        let max_iters = if settings.max_iterations > 3 {
            3
        } else {
            settings.max_iterations
        };
        ResearchLoop { max_iters, iteration: 0, empty_rounds: 0, stopped: false }
    }

    /// Begins the next iteration and returns its number (from 1), or `None` when the loop
    /// is over: it stopped, or it ran all its iterations.
    pub fn next_iteration(&mut self) -> (r: Option<usize>)
        ensures
            (*final(self), r) == loop_step(*old(self)),
    {
        if self.stopped || self.iteration >= self.max_iters {
            None
        } else {
            self.iteration = self.iteration + 1;
            Some(self.iteration)
        }
    }

    /// Records the outcome of an iteration's merge and says whether the iteration goes on:
    /// it stops when no finding is known at all, or when this was the second iteration in a
    /// row without a new finding.
    pub fn after_merge(&mut self, novel: usize, findings_len: usize) -> (go_on: bool)
        ensures
            (*final(self), go_on) == loop_merge(*old(self), novel, findings_len),
    {
        if findings_len == 0 {
            self.stopped = true;
            return false;
        }
        if novel < 1 {
            if self.empty_rounds < usize::MAX {
                self.empty_rounds = self.empty_rounds + 1;
            }
        } else {
            self.empty_rounds = 0;
        }
        if self.empty_rounds >= 2 {
            self.stopped = true;
            false
        } else {
            self.stopped = false;
            true
        }
    }
}

/// The loop after an attempt to begin an iteration, and the iteration's number: none when
/// it stopped or ran all its iterations.
pub open spec fn loop_step(l: ResearchLoop) -> (ResearchLoop, Option<usize>) {
    if l.stopped || l.iteration >= l.max_iters {
        (l, None)
    } else {
        let n = (l.iteration + 1) as usize;
        (ResearchLoop { iteration: n, ..l }, Some(n))
    }
}

/// The loop after an iteration merged `novel` new findings into `findings_len` in all, and
/// whether it goes on: not when there is no finding at all, nor after a second iteration in
/// a row without a new one.
pub open spec fn loop_merge(l: ResearchLoop, novel: usize, findings_len: usize) -> (ResearchLoop, bool) {
    if findings_len == 0 {
        (ResearchLoop { stopped: true, ..l }, false)
    } else {
        let e = if novel == 0 {
            if l.empty_rounds < usize::MAX { (l.empty_rounds + 1) as usize } else { l.empty_rounds }
        } else {
            0usize
        };
        (ResearchLoop { empty_rounds: e, stopped: e >= 2, ..l }, e < 2)
    }
}

/// A session never runs more iterations than its budget: a loop that has not overrun its
/// budget does not after a step or a merge, and the iteration a step begins is numbered
/// one more than the last, at most the budget.
pub proof fn law_loop_within_budget(l: ResearchLoop, novel: usize, findings_len: usize)
    requires
        l.iteration <= l.max_iters,
    ensures
        loop_step(l).0.iteration <= loop_step(l).0.max_iters,
        loop_step(l).0.max_iters == l.max_iters,
        loop_merge(l, novel, findings_len).0.iteration == l.iteration,
        loop_merge(l, novel, findings_len).0.max_iters == l.max_iters,
        loop_step(l).1 matches Some(k) ==> k == l.iteration + 1 && k <= l.max_iters,
{
}

/// Once a merge says the loop stops, the loop begins no further iteration: every later step
/// leaves it as it is and begins none.
pub proof fn law_loop_stop_is_final(l: ResearchLoop, novel: usize, findings_len: usize)
    requires
        !loop_merge(l, novel, findings_len).1,
    ensures
        loop_step(loop_merge(l, novel, findings_len).0).1 is None,
        loop_step(loop_merge(l, novel, findings_len).0).0 == loop_merge(l, novel, findings_len).0,
{
}

/// Two iterations in a row without a new finding end the session.
pub proof fn law_two_empty_rounds_stop(l: ResearchLoop, findings_len: usize)
    requires
        l.empty_rounds == 0,
        findings_len > 0,
    ensures
        loop_merge(l, 0, findings_len).1,
        !loop_merge(loop_merge(l, 0, findings_len).0, 0, findings_len).1,
{
}

/// How the final report is made.
#[derive(Clone, Copy, Debug, PartialEq, Eq, Structural)]
pub enum FinalReport {
    /// A long report, chapter by chapter, from the plan's outline.
    Long,
    /// The last interim report, updated with all findings.
    Update,
    /// A report written from scratch.
    Write,
}

/// How the final report is made: a long report when one is asked for and the plan has an
/// outline; else the update of the interim report, when there is one; else a new report.
pub fn final_report_kind(settings: &ResearchSettings, plan: &ResearchPlan, has_interim: bool) -> (r: FinalReport)
    ensures
        r == (if settings.long_report && plan.outline is Some {
            FinalReport::Long
        } else if has_interim {
            FinalReport::Update
        } else {
            FinalReport::Write
        }),
{
    if settings.long_report && plan.outline.is_some() {
        FinalReport::Long
    } else if has_interim {
        FinalReport::Update
    } else {
        FinalReport::Write
    }
}

/// The report that stands while no writer has produced one: titled after the query
/// (`"<query> - 研究报告"`, or the bare query after a failed update), with no section.
pub fn placeholder_report(query: &ResearchQuery, graph: &CitationGraph, quality: QualityTally, after_failure: bool) -> (r: ResearchReport)
    ensures
        r.query_id == query.id,
        r.title@ == (if after_failure { query.query@ } else { query.query@ + " - 研究报告"@ }),
        r.sections@.len() == 0,
        r.citation_graph.claims@ == graph.claims@,
        r.citation_graph.sources@ == graph.sources@,
        r.citation_graph.edges@ == graph.edges@,
        r.quality == quality,
        r.argument_skeleton is None,
{
    let mut title = query.query.clone();
    if !after_failure {
        push_str(&mut title, " - 研究报告");
    }
    ResearchReport {
        query_id: query.id,
        title,
        sections: Vec::new(),
        citation_graph: graph.duplicate(),
        quality,
        argument_skeleton: None,
        generated_at: crate::ids::now_timestamp(),
    }
}

/// The long report used when writing one failed: titled `"<query> - 详细研究报告"`, one
/// section per finding, headed `"研究发现"`, with the finding's text and sources.
pub fn long_report_fallback(query: &ResearchQuery, findings: &Vec<Finding>, graph: &CitationGraph, quality: QualityTally) -> (r: ResearchReport)
    ensures
        r.query_id == query.id,
        r.title@ == query.query@ + " - 详细研究报告"@,
        r.sections@.len() == findings@.len(),
        forall|k: int| 0 <= k < r.sections@.len() ==> {
            &&& (#[trigger] r.sections@[k]).heading@ == "研究发现"@
            &&& r.sections@[k].content == findings@[k].content
            &&& r.sections@[k].citations@ == findings@[k].sources@
        },
        r.citation_graph.claims@ == graph.claims@,
        r.citation_graph.sources@ == graph.sources@,
        r.citation_graph.edges@ == graph.edges@,
        r.quality == quality,
        r.argument_skeleton is None,
{
    let mut title = query.query.clone();
    push_str(&mut title, " - 详细研究报告");
    let mut sections: Vec<crate::model::ReportSection> = Vec::new();
    let mut i: usize = 0;
    while i < findings.len()
        invariant
            i <= findings@.len(),
            sections@.len() == i,
            forall|k: int| 0 <= k < i ==> {
                &&& (#[trigger] sections@[k]).heading@ == "研究发现"@
                &&& sections@[k].content == findings@[k].content
                &&& sections@[k].citations@ == findings@[k].sources@
            },
        decreases findings@.len() - i,
    {
        sections.push(crate::model::ReportSection {
            heading: crate::words::owned("研究发现"),
            content: findings[i].content.clone(),
            citations: crate::text::clone_strings(&findings[i].sources),
        });
        i = i + 1;
    }
    ResearchReport {
        query_id: query.id,
        title,
        sections,
        citation_graph: graph.duplicate(),
        quality,
        argument_skeleton: None,
        generated_at: crate::ids::now_timestamp(),
    }
}

/// Gives each source of the report the title recorded for its URL, where one was
/// recorded; nothing else changes.
pub fn backfill_titles(report: &mut ResearchReport, titles: &Vec<(String, String)>)
    ensures
        final(report).query_id == old(report).query_id,
        final(report).title == old(report).title,
        final(report).quality == old(report).quality,
        final(report).citation_graph.claims@ == old(report).citation_graph.claims@,
        final(report).citation_graph.edges@ == old(report).citation_graph.edges@,
        final(report).citation_graph.sources@.len() == old(report).citation_graph.sources@.len(),
        forall|k: int| 0 <= k < final(report).citation_graph.sources@.len() ==> {
            let s = old(report).citation_graph.sources@[k];
            &&& (#[trigger] final(report).citation_graph.sources@[k]).id == s.id
            &&& final(report).citation_graph.sources@[k].url == s.url
            &&& final(report).citation_graph.sources@[k].title@ == (if has_title(titles@, s.url@) {
                title_for(titles@, s.url@)
            } else {
                s.title@
            })
        },
{
    let ghost start = report.citation_graph.sources@;
    let n = report.citation_graph.sources.len();
    let mut sources: Vec<SourceNode> = Vec::new();
    let mut i: usize = 0;
    while i < n
        invariant
            n == start.len(),
            report.citation_graph.sources@ == start,
            i <= n,
            sources@.len() == i,
            forall|k: int| 0 <= k < i ==> {
                let s = start[k];
                &&& (#[trigger] sources@[k]).id == s.id
                &&& sources@[k].url == s.url
                &&& sources@[k].title@ == (if has_title(titles@, s.url@) {
                    title_for(titles@, s.url@)
                } else {
                    s.title@
                })
            },
        decreases n - i,
    {
        let s = &report.citation_graph.sources[i];
        let found = has_title_for(titles, s.url.as_str());
        let title = if found {
            lookup_title(titles, s.url.as_str())
        } else {
            s.title.clone()
        };
        sources.push(SourceNode { id: s.id, url: s.url.clone(), title });
        i = i + 1;
    }
    report.citation_graph.sources = sources;
}

/// The headings of an outline: its lines that start with `"# "`, each without its leading
/// copies of `"# "`.
pub open spec fn heading_lines(ls: Seq<Seq<char>>) -> Seq<Seq<char>>
    decreases ls.len(),
{
    if ls.len() == 0 {
        Seq::empty()
    } else {
        let r = heading_lines(ls.drop_last());
        if starts_with(ls.last(), "# "@) {
            r.push(strip_leading(ls.last(), "# "@))
        } else {
            r
        }
    }
}

/// The chapter titles of an outline (see `heading_lines`).
pub open spec fn outline_titles(outline: Seq<char>) -> Seq<Seq<char>> {
    heading_lines(lines_of(outline))
}

/// The chapter titles of an outline.
pub fn chapter_titles(outline: &str) -> (r: Vec<String>)
    ensures
        sviews(r@) == outline_titles(outline@),
{
    let lines = lines_of_text(outline);
    let ghost ls = sviews(lines@);
    let hash = crate::text::pattern("# ");
    let mut r: Vec<String> = Vec::new();
    let mut i: usize = 0;
    while i < lines.len()
        invariant
            i <= lines@.len(),
            ls == sviews(lines@),
            ls == lines_of(outline@),
            hash@ == "# "@,
            sviews(r@) == heading_lines(ls.subrange(0, i as int)),
        decreases lines@.len() - i,
    {
        proof {
            assert(ls.subrange(0, i + 1).drop_last() =~= ls.subrange(0, i as int));
        }
        let l = chars_of(lines[i].as_str());
        if crate::words::has_prefix(&l, &hash) {
            let from = crate::text::strip_leading_from(&l, 0, &hash);
            let h = crate::text::string_from_range(&l, from, l.len());
            let ghost before = sviews(r@);
            r.push(h);
            assert(sviews(r@) =~= before.push(strip_leading(ls[i as int], "# "@)));
        }
        i = i + 1;
    }
    assert(ls.subrange(0, ls.len() as int) =~= ls);
    r
}

/// The index of the first line from `k` on that contains `title` (the count when none does).
pub open spec fn first_containing(ls: Seq<Seq<char>>, title: Seq<char>, k: int) -> int
    decreases ls.len() - k,
{
    if k >= ls.len() || contains_seq(ls[k], title) {
        k
    } else {
        first_containing(ls, title, k + 1)
    }
}

/// The index of the first line from `k` on that starts with `"# "` (the count when none does).
pub open spec fn next_heading(ls: Seq<Seq<char>>, k: int) -> int
    decreases ls.len() - k,
{
    if k >= ls.len() || starts_with(ls[k], "# "@) {
        k
    } else {
        next_heading(ls, k + 1)
    }
}

/// The description of a chapter in an outline: the lines after the first line that
/// contains its title, up to the next line that starts with `"# "`, joined with `"\n"`.
pub open spec fn chapter_description(outline: Seq<char>, title: Seq<char>) -> Seq<char> {
    let ls = lines_of(outline);
    let s = first_containing(ls, title, 0);
    if s >= ls.len() {
        Seq::empty()
    } else {
        joined(ls.subrange(s + 1, next_heading(ls, s + 1)), "\n"@)
    }
}

proof fn lemma_first_containing_bounds(ls: Seq<Seq<char>>, title: Seq<char>, k: int)
    requires
        0 <= k <= ls.len(),
    ensures
        k <= first_containing(ls, title, k) <= ls.len(),
    decreases ls.len() - k,
{
    if k < ls.len() && !contains_seq(ls[k], title) {
        lemma_first_containing_bounds(ls, title, k + 1);
    }
}

proof fn lemma_next_heading_bounds(ls: Seq<Seq<char>>, k: int)
    requires
        0 <= k <= ls.len(),
    ensures
        k <= next_heading(ls, k) <= ls.len(),
    decreases ls.len() - k,
{
    if k < ls.len() && !starts_with(ls[k], "# "@) {
        lemma_next_heading_bounds(ls, k + 1);
    }
}

/// The description of the chapter titled `title` (see `chapter_description`).
pub fn describe_chapter(lines: &Vec<String>, title: &str) -> (r: String)
    ensures
        r@ == (if first_containing(sviews(lines@), title@, 0) >= lines@.len() {
            Seq::<char>::empty()
        } else {
            joined(
                sviews(lines@).subrange(
                    first_containing(sviews(lines@), title@, 0) + 1,
                    next_heading(sviews(lines@), first_containing(sviews(lines@), title@, 0) + 1),
                ),
                "\n"@,
            )
        }),
{
    let ghost ls = sviews(lines@);
    let t = chars_of(title);
    let hash = crate::text::pattern("# ");
    let mut s: usize = 0;
    while s < lines.len() && !crate::text::contains_chars(&chars_of(lines[s].as_str()), &t)
        invariant
            s <= lines@.len(),
            ls == sviews(lines@),
            t@ == title@,
            first_containing(ls, title@, 0) == first_containing(ls, title@, s as int),
        decreases lines@.len() - s,
    {
        s = s + 1;
    }
    if s >= lines.len() {
        return String::new();
    }
    let mut e: usize = s + 1;
    while e < lines.len() && !crate::words::has_prefix(&chars_of(lines[e].as_str()), &hash)
        invariant
            s + 1 <= e <= lines@.len(),
            ls == sviews(lines@),
            hash@ == "# "@,
            next_heading(ls, s + 1) == next_heading(ls, e as int),
        decreases lines@.len() - e,
    {
        e = e + 1;
    }
    let mut body: Vec<String> = Vec::new();
    let mut k: usize = s + 1;
    while k < e
        invariant
            s + 1 <= k <= e <= lines@.len(),
            ls == sviews(lines@),
            sviews(body@) == ls.subrange(s + 1, k as int),
        decreases e - k,
    {
        let ghost before = sviews(body@);
        body.push(lines[k].clone());
        assert(sviews(body@) =~= before.push(ls[k as int]));
        assert(ls.subrange(s + 1, k + 1) =~= ls.subrange(s + 1, k as int).push(ls[k as int]));
        k = k + 1;
    }
    crate::words::join(&body, "\n")
}

/// The assignments read from the model's reply: the items of its `"assignments"` array
/// that carry an integer `"finding_index"` and a non-negative integer `"chapter_index"`,
/// as pairs, in order.
pub open spec fn assignment_items(items: Seq<JsonValue>) -> Seq<(i64, i64)>
    decreases items.len(),
{
    if items.len() == 0 {
        Seq::empty()
    } else {
        let r = assignment_items(items.drop_last());
        let it = items.last();
        match (int_of(field(it, "finding_index"@)), int_of(field(it, "chapter_index"@))) {
            (Some(fi), Some(ci)) => if ci >= 0 {
                r.push((fi, ci))
            } else {
                r
            },
            _ => r,
        }
    }
}

/// The assignments in a reply (see `assignment_items`); none when the reply has no
/// `"assignments"` array.
pub open spec fn assignments_of(reply: Option<JsonValue>) -> Seq<(i64, i64)> {
    match reply {
        Some(v) => match array_of(field(v, "assignments"@)) {
            Some(items) => assignment_items(items),
            None => Seq::empty(),
        },
        None => Seq::empty(),
    }
}

/// The findings that the assignments place in chapter `c`, by index, in order: those whose
/// index (taken as a `usize`) is below `n`.
pub open spec fn placed(asg: Seq<(i64, i64)>, n: nat, c: nat) -> Seq<int>
    decreases asg.len(),
{
    if asg.len() == 0 {
        Seq::empty()
    } else {
        let r = placed(asg.drop_last(), n, c);
        let (fi, ci) = asg.last();
        if (ci as usize) as nat == c && ((fi as usize) as nat) < n {
            r.push((fi as usize) as int)
        } else {
            r
        }
    }
}

/// Whether some assignment names finding `i` (its index taken as a `usize`).
pub open spec fn assigned(asg: Seq<(i64, i64)>, i: int) -> bool {
    exists|k: int| 0 <= k < asg.len() && ((#[trigger] asg[k]).0 as usize) as int == i
}

/// The findings below `m` that no assignment names and that fall to chapter `c` by their
/// index modulo the number of chapters.
pub open spec fn leftovers(asg: Seq<(i64, i64)>, m: nat, nch: nat, c: nat) -> Seq<int>
    decreases m,
{
    if m == 0 {
        Seq::empty()
    } else {
        let r = leftovers(asg, (m - 1) as nat, nch, c);
        let i = m - 1;
        if !assigned(asg, i) && nch > 0 && i % (nch as int) == c {
            r.push(i)
        } else {
            r
        }
    }
}

/// The findings of chapter `c`, by index: those placed there, then the unassigned ones
/// that fall to it.
pub open spec fn chapter_members(asg: Seq<(i64, i64)>, n: nat, nch: nat, c: nat) -> Seq<int> {
    placed(asg, n, c) + leftovers(asg, n, nch, c)
}

/// The findings the model's assignments place in chapter `c`: finding `i` is among them
/// exactly when `i` is below `n` and some assignment names finding `i` and chapter `c`.
pub proof fn law_placed_by_assignment(asg: Seq<(i64, i64)>, n: nat, c: nat)
    ensures
        forall|i: int| #[trigger] placed(asg, n, c).contains(i) <==> 0 <= i < n && exists|k: int|
            0 <= k < asg.len() && ((asg[k].0 as usize) as int) == i && ((asg[k].1 as usize) as nat) == c,
    decreases asg.len(),
{
    if asg.len() > 0 {
        let init = asg.drop_last();
        law_placed_by_assignment(init, n, c);
        let r = placed(init, n, c);
        let p = placed(asg, n, c);
        let last = asg.len() - 1;
        assert(asg[last] == asg.last());
        assert forall|i: int| #[trigger] p.contains(i) <==> 0 <= i < n && exists|k: int|
            0 <= k < asg.len() && ((asg[k].0 as usize) as int) == i && ((asg[k].1 as usize) as nat) == c by {
            let hit = ((asg.last().1 as usize) as nat) == c && ((asg.last().0 as usize) as nat) < n;
            if p.contains(i) {
                let q = choose|q: int| 0 <= q < p.len() && p[q] == i;
                if q < r.len() {
                    assert(r[q] == i);
                    assert(r.contains(i));
                    let k = choose|k: int| 0 <= k < init.len() && ((init[k].0 as usize) as int) == i && ((init[k].1 as usize) as nat) == c;
                    assert(asg[k] == init[k]);
                } else {
                    assert(hit);
                }
            }
            if 0 <= i < n && exists|k: int| 0 <= k < asg.len() && ((asg[k].0 as usize) as int) == i && ((asg[k].1 as usize) as nat) == c {
                let k = choose|k: int| 0 <= k < asg.len() && ((asg[k].0 as usize) as int) == i && ((asg[k].1 as usize) as nat) == c;
                if k < last {
                    assert(init[k] == asg[k]);
                    assert(r.contains(i));
                    let q = choose|q: int| 0 <= q < r.len() && r[q] == i;
                    if hit {
                        assert(p[q] == i);
                    } else {
                        assert(p[q] == i);
                    }
                } else {
                    assert(hit);
                    assert(p[r.len() as int] == i);
                }
            }
        }
    }
}

/// The unassigned findings spread by index: among the findings below `m`, finding `i`
/// falls to chapter `c` exactly when no assignment names it and `i` modulo the number of
/// chapters is `c`; they come in increasing order.
pub proof fn law_leftovers_by_index(asg: Seq<(i64, i64)>, m: nat, nch: nat, c: nat)
    ensures
        forall|i: int| #[trigger] leftovers(asg, m, nch, c).contains(i)
            <==> 0 <= i < m && !assigned(asg, i) && nch > 0 && i % (nch as int) == c,
        forall|a: int, b: int| 0 <= a < b < leftovers(asg, m, nch, c).len()
            ==> #[trigger] leftovers(asg, m, nch, c)[a] < #[trigger] leftovers(asg, m, nch, c)[b],
    decreases m,
{
    if m > 0 {
        let pm = (m - 1) as nat;
        law_leftovers_by_index(asg, pm, nch, c);
        let r = leftovers(asg, pm, nch, c);
        let l = leftovers(asg, m, nch, c);
        let i0 = m - 1;
        assert forall|i: int| #[trigger] l.contains(i)
            <==> 0 <= i < m && !assigned(asg, i) && nch > 0 && i % (nch as int) == c by {
            if !assigned(asg, i0) && nch > 0 && i0 % (nch as int) == c {
                assert(l == r.push(i0));
                if l.contains(i) && i != i0 {
                    let q = choose|q: int| 0 <= q < l.len() && l[q] == i;
                    assert(r[q] == i);
                    assert(r.contains(i));
                }
                if r.contains(i) {
                    let q = choose|q: int| 0 <= q < r.len() && r[q] == i;
                    assert(l[q] == i);
                }
                if i == i0 {
                    assert(l[r.len() as int] == i0);
                }
            }
        }
        if !assigned(asg, i0) && nch > 0 && i0 % (nch as int) == c {
            assert forall|a: int, b: int| 0 <= a < b < l.len() implies #[trigger] l[a] < #[trigger] l[b] by {
                if b == r.len() {
                    assert(r.contains(r[a]));
                } else {
                    assert(l[a] == r[a] && l[b] == r[b]);
                }
            }
        }
    }
}

/// Without assignments (the model's call failed or named nothing) the findings are dealt
/// out by index: chapter `c` holds exactly the findings whose index modulo the number of
/// chapters is `c`, in order, so with at least as many findings as chapters no chapter is
/// empty.
pub proof fn law_unassigned_findings_dealt_by_index(n: nat, nch: nat, c: nat)
    requires
        c < nch,
    ensures
        forall|i: int| #[trigger] chapter_members(Seq::empty(), n, nch, c).contains(i) <==> 0 <= i < n && i % (nch as int) == c,
        forall|a: int, b: int| 0 <= a < b < chapter_members(Seq::empty(), n, nch, c).len()
            ==> #[trigger] chapter_members(Seq::empty(), n, nch, c)[a] < #[trigger] chapter_members(Seq::empty(), n, nch, c)[b],
        n >= nch ==> chapter_members(Seq::empty(), n, nch, c).len() > 0,
{
    let asg = Seq::<(i64, i64)>::empty();
    assert(placed(asg, n, c) =~= Seq::<int>::empty());
    assert(chapter_members(asg, n, nch, c) =~= leftovers(asg, n, nch, c));
    law_leftovers_by_index(asg, n, nch, c);
    assert forall|i: int| !assigned(asg, i) by {}
    if n >= nch {
        vstd::arithmetic::div_mod::lemma_small_mod(c, nch);
        assert(leftovers(asg, n, nch, c).contains(c as int));
    }
}

/// `fs` are copies of the findings of `all` at the indices `idx`, in order.
pub open spec fn copies_at(fs: Seq<Finding>, all: Seq<Finding>, idx: Seq<int>) -> bool {
    &&& fs.len() == idx.len()
    &&& forall|k: int| 0 <= k < idx.len() ==> 0 <= #[trigger] idx[k] < all.len() && same_finding(fs[k], all[idx[k]])
}

/// The assignments in a reply (see `assignments_of`).
pub fn read_assignments(reply: Option<&JsonValue>) -> (r: Vec<(i64, i64)>)
    ensures
        r@ == assignments_of(match reply { Some(v) => Some(*v), None => None }),
{
    let mut r: Vec<(i64, i64)> = Vec::new();
    let v = match reply {
        Some(v) => v,
        None => return r,
    };
    let items = match v.get("assignments") {
        Some(a) => match a.as_array() {
            Some(items) => items,
            None => return r,
        },
        None => return r,
    };
    let mut i: usize = 0;
    while i < items.len()
        invariant
            i <= items@.len(),
            array_of(field(*v, "assignments"@)) == Some(items@),
            r@ == assignment_items(items@.subrange(0, i as int)),
        decreases items@.len() - i,
    {
        proof {
            assert(items@.subrange(0, i + 1).drop_last() =~= items@.subrange(0, i as int));
        }
        let it = &items[i];
        let fi = match it.get("finding_index") {
            Some(x) => x.as_i64(),
            None => None,
        };
        let ci = match it.get("chapter_index") {
            Some(x) => x.as_i64(),
            None => None,
        };
        match (fi, ci) {
            (Some(f), Some(c)) => {
                if c >= 0 {
                    r.push((f, c));
                }
            },
            _ => {},
        }
        i = i + 1;
    }
    assert(items@.subrange(0, items@.len() as int) =~= items@);
    r
}

/// The findings of chapter `c` (see `chapter_members`), copied.
fn chapter_findings(asg: &Vec<(i64, i64)>, findings: &Vec<Finding>, nch: usize, c: usize) -> (r: Vec<Finding>)
    requires
        c < nch,
    ensures
        copies_at(r@, findings@, chapter_members(asg@, findings@.len(), nch as nat, c as nat)),
{
    let n = findings.len();
    let mut r: Vec<Finding> = Vec::new();
    let mut k: usize = 0;
    while k < asg.len()
        invariant
            k <= asg@.len(),
            n == findings@.len(),
            copies_at(r@, findings@, placed(asg@.subrange(0, k as int), n as nat, c as nat)),
        decreases asg@.len() - k,
    {
        proof {
            assert(asg@.subrange(0, k + 1).drop_last() =~= asg@.subrange(0, k as int));
        }
        let (fi, ci) = asg[k];
        let fu = fi as usize;
        if ci as usize == c && fu < n {
            r.push(findings[fu].duplicate());
        }
        k = k + 1;
    }
    assert(asg@.subrange(0, asg@.len() as int) =~= asg@);
    let ghost head = placed(asg@, n as nat, c as nat);
    let mut i: usize = 0;
    while i < n
        invariant
            i <= n,
            n == findings@.len(),
            c < nch,
            copies_at(r@, findings@, head + leftovers(asg@, i as nat, nch as nat, c as nat)),
        decreases n - i,
    {
        let mut named = false;
        let mut k: usize = 0;
        while k < asg.len()
            invariant
                k <= asg@.len(),
                named == exists|m: int| 0 <= m < k && ((#[trigger] asg@[m]).0 as usize) as int == i,
            decreases asg@.len() - k,
        {
            if asg[k].0 as usize == i {
                named = true;
            }
            k = k + 1;
        }
        let ghost before = r@;
        if !named && i % nch == c {
            r.push(findings[i].duplicate());
        }
        proof {
            let old_idx = head + leftovers(asg@, i as nat, nch as nat, c as nat);
            let new_idx = head + leftovers(asg@, (i + 1) as nat, nch as nat, c as nat);
            assert(named == assigned(asg@, i as int));
            if !named && i % nch == c {
                assert(new_idx =~= old_idx.push(i as int));
            } else {
                assert(new_idx =~= old_idx);
            }
        }
        i = i + 1;
    }
    r
}

/// Whether the model is asked to lay findings out in chapters: only when there are both
/// chapters and findings.
pub fn needs_assignment(titles: &Vec<String>, findings: &Vec<Finding>) -> (r: bool)
    ensures
        r == (titles@.len() > 0 && findings@.len() > 0),
{
    titles.len() > 0 && findings.len() > 0
}

/// Lays the findings out in chapters, one per title, from the model's reply (`None` when
/// the model failed or its reply was no JSON): each chapter gets its description from the
/// outline, the findings placed in it, then the findings that no assignment names and
/// whose index modulo the number of chapters is its own. With no title or no finding
/// there is no chapter.
pub fn assign_findings_to_chapters(titles: &Vec<String>, outline: &str, findings: &Vec<Finding>, reply: Option<&JsonValue>) -> (r: Vec<ReportChapter>)
    ensures
        titles@.len() == 0 || findings@.len() == 0 ==> r@.len() == 0,
        titles@.len() > 0 && findings@.len() > 0 ==> {
            &&& r@.len() == titles@.len()
            &&& forall|c: int| 0 <= c < r@.len() ==> {
                &&& (#[trigger] r@[c]).title == titles@[c]
                &&& r@[c].description@ == chapter_description(outline@, titles@[c]@)
                &&& copies_at(
                    r@[c].findings@,
                    findings@,
                    chapter_members(
                        assignments_of(match reply { Some(v) => Some(*v), None => None }),
                        findings@.len(),
                        titles@.len() as nat,
                        c as nat,
                    ),
                )
            }
        },
{
    let mut r: Vec<ReportChapter> = Vec::new();
    if !needs_assignment(titles, findings) {
        return r;
    }
    let asg = read_assignments(reply);
    let lines = lines_of_text(outline);
    let nch = titles.len();
    let mut c: usize = 0;
    while c < nch
        invariant
            c <= nch,
            nch == titles@.len(),
            sviews(lines@) == lines_of(outline@),
            asg@ == assignments_of(match reply { Some(v) => Some(*v), None => None }),
            r@.len() == c,
            forall|d: int| 0 <= d < c ==> {
                &&& (#[trigger] r@[d]).title == titles@[d]
                &&& r@[d].description@ == chapter_description(outline@, titles@[d]@)
                &&& copies_at(r@[d].findings@, findings@, chapter_members(asg@, findings@.len(), nch as nat, d as nat))
            },
        decreases nch - c,
    {
        let description = describe_chapter(&lines, titles[c].as_str());
        let members = chapter_findings(&asg, findings, nch, c);
        r.push(ReportChapter { title: titles[c].clone(), description, findings: members });
        c = c + 1;
    }
    r
}

/// The system prompt of a cross-check.
pub open spec fn cross_check_system() -> Seq<char> {
    "你是一个事实核查专家。判断以下研究发现是否准确可靠。\n\n要求：\n1. 检查是否存在明显事实错误或矛盾\n2. 如果没有明显错误，即使只有一个来源也应接受\n3. 仅当发现包含明显推测或不可靠信息时才拒绝\n\n仅回复 TRUE 或 FALSE，不要其他内容。"@
}

/// The message that asks the model whether a finding of a task is reliable.
pub open spec fn cross_check_user(task: Seq<char>, f: Finding) -> Seq<char> {
    "研究任务："@ + task + "\n\n发现："@ + f.content@ + "\n\n来源数量："@ + decimal(f.sources@.len())
        + "\n来源："@ + joined(sviews(f.sources@), "\n"@) + "\n\n该发现是否可靠？TRUE 或 FALSE"@
}

/// A finding needs the model's check when it is dissimilar to every finding accepted so far.
#[verifier::opaque]
pub open spec fn needs_check(verified: Seq<Finding>, f: Finding) -> bool {
    forall|k: int| 0 <= k < verified.len() ==> dissimilar(f.content@, #[trigger] verified[k].content@)
}

/// Whether the model's reply accepts a finding: a failed call keeps it; a reply keeps it
/// when, trimmed and upper-cased, it starts with `"TRUE"`.
pub open spec fn verdict_accepts(reply: Option<Seq<char>>) -> bool {
    match reply {
        None => true,
        Some(r) => starts_with(upper(trim(r)), "TRUE"@),
    }
}

/// The cross-check of a task's findings, one finding at a time: findings that resemble an
/// accepted one are accepted at once; the others wait for the model's verdict.
pub struct CrossCheck {
    /// The findings not yet decided, in order; while a verdict is awaited, the first.
    pub pending: Vec<Finding>,
    /// The findings accepted so far, in order.
    pub verified: Vec<Finding>,
    /// How many verdicts were asked for.
    pub llm_calls: usize,
}

impl CrossCheck {
    /// A cross-check of `findings` with nothing decided yet.
    pub fn new(findings: Vec<Finding>) -> (r: CrossCheck)
        ensures
            r.pending@ == findings@,
            r.verified@.len() == 0,
            r.llm_calls == 0,
    {
        CrossCheck { pending: findings, verified: Vec::new(), llm_calls: 0 }
    }

    /// Accepts the findings from the front that need no check, and returns the request
    /// for the first one that does (it stays first among the pending ones), or `None` when
    /// every finding is decided.
    pub fn next_request(&mut self, task: &str) -> (r: Option<Prompt>)
        ensures
            final(self).llm_calls == old(self).llm_calls,
            final(self).pending@.len() <= old(self).pending@.len(),
            ({
                let m = old(self).pending@.len() - final(self).pending@.len();
                &&& final(self).pending@ == old(self).pending@.subrange(m, old(self).pending@.len() as int)
                &&& final(self).verified@ == old(self).verified@ + old(self).pending@.subrange(0, m)
                &&& forall|j: int| 0 <= j < m ==> !needs_check(
                    old(self).verified@ + old(self).pending@.subrange(0, j),
                    #[trigger] old(self).pending@[j],
                )
            }),
            r is None <==> final(self).pending@.len() == 0,
            r matches Some(p) ==> {
                &&& needs_check(final(self).verified@, final(self).pending@[0])
                &&& p.system@ == cross_check_system()
                &&& p.user@ == cross_check_user(task@, final(self).pending@[0])
            },
    {
        let ghost v0 = self.verified@;
        let ghost p0 = self.pending@;
        let n0 = self.pending.len();
        let mut pending: Vec<Finding> = Vec::new();
        std::mem::swap(&mut pending, &mut self.pending);
        let mut verified: Vec<Finding> = Vec::new();
        std::mem::swap(&mut verified, &mut self.verified);
        let mut m: usize = 0;
        while pending.len() > 0
            invariant_except_break
                n0 == p0.len(),
                m + pending@.len() == n0,
                pending@ == p0.subrange(m as int, n0 as int),
                verified@ == v0 + p0.subrange(0, m as int),
                forall|j: int| 0 <= j < m ==> !needs_check(v0 + p0.subrange(0, j), #[trigger] p0[j]),
            ensures
                m + pending@.len() == n0,
                pending@ == p0.subrange(m as int, n0 as int),
                verified@ == v0 + p0.subrange(0, m as int),
                forall|j: int| 0 <= j < m ==> !needs_check(v0 + p0.subrange(0, j), #[trigger] p0[j]),
                pending@.len() > 0 ==> needs_check(verified@, pending@[0]),
            decreases pending@.len(),
        {
            let check = needs_model_check(&verified, &pending[0]);
            if check {
                break;
            }
            let f = pending.remove(0);
            let ghost vm = verified@;
            verified.push(f);
            proof {
                assert(p0[m as int] == f);
                assert(!needs_check(v0 + p0.subrange(0, m as int), p0[m as int]));
                assert(verified@ =~= v0 + p0.subrange(0, m + 1));
                assert(pending@ =~= p0.subrange(m + 1, n0 as int));
            }
            m = m + 1;
        }
        self.pending = pending;
        self.verified = verified;
        if self.pending.len() == 0 {
            return None;
        }
        let f = &self.pending[0];
        let mut user = crate::words::owned("研究任务：");
        push_str(&mut user, task);
        push_str(&mut user, "\n\n发现：");
        push_str(&mut user, f.content.as_str());
        push_str(&mut user, "\n\n来源数量：");
        let count = crate::words::decimal_text(f.sources.len() as u64);
        push_str(&mut user, count.as_str());
        push_str(&mut user, "\n来源：");
        let list = crate::words::join(&f.sources, "\n");
        push_str(&mut user, list.as_str());
        push_str(&mut user, "\n\n该发现是否可靠？TRUE 或 FALSE");
        Some(Prompt { system: crate::words::owned("你是一个事实核查专家。判断以下研究发现是否准确可靠。\n\n要求：\n1. 检查是否存在明显事实错误或矛盾\n2. 如果没有明显错误，即使只有一个来源也应接受\n3. 仅当发现包含明显推测或不可靠信息时才拒绝\n\n仅回复 TRUE 或 FALSE，不要其他内容。"), user })
    }

    /// Records the model's verdict on the first pending finding (`None` when the call
    /// failed): the finding is accepted or dropped (see `verdict_accepts`).
    pub fn record_verdict(&mut self, reply: Option<&str>)
        requires
            old(self).pending@.len() > 0,
        ensures
            final(self).pending@ == old(self).pending@.drop_first(),
            final(self).verified@ == (if verdict_accepts(match reply { Some(s) => Some(s@), None => None }) {
                old(self).verified@.push(old(self).pending@[0])
            } else {
                old(self).verified@
            }),
            final(self).llm_calls == (if old(self).llm_calls < usize::MAX { old(self).llm_calls + 1 } else { old(self).llm_calls as int }),
    {
        let accept = match reply {
            None => true,
            Some(r) => {
                let t = crate::text::trim_text(r);
                let u = crate::text::to_upper(t.as_str());
                crate::words::text_starts_with(u.as_str(), "TRUE")
            },
        };
        let f = self.pending.remove(0);
        if accept {
            self.verified.push(f);
        }
        if self.llm_calls < usize::MAX {
            self.llm_calls = self.llm_calls + 1;
        }
    }
}

/// What a cross-check of `input` keeps true: the pending findings are the tail of the
/// input, and every accepted finding is one of those before it.
pub open spec fn cross_check_consistent(input: Seq<Finding>, pending: Seq<Finding>, verified: Seq<Finding>) -> bool {
    let done = input.len() - pending.len();
    &&& pending.len() <= input.len()
    &&& pending == input.subrange(done, input.len() as int)
    &&& forall|j: int| 0 <= j < verified.len() ==> input.subrange(0, done).contains(#[trigger] verified[j])
}

/// A cross-check only ever accepts findings it was given, each once decided: it starts
/// consistent with its input (see `cross_check_consistent`), and stays so when findings are
/// accepted from the front of the pending ones (`next_request`) and when the first pending
/// one is accepted or dropped on the model's verdict (`record_verdict`).
pub proof fn law_cross_check_accepts_only_input(input: Seq<Finding>, pending: Seq<Finding>, verified: Seq<Finding>, m: int, accept: bool)
    requires
        cross_check_consistent(input, pending, verified),
    ensures
        cross_check_consistent(input, input, Seq::empty()),
        0 <= m <= pending.len() ==> cross_check_consistent(
            input,
            pending.subrange(m, pending.len() as int),
            verified + pending.subrange(0, m),
        ),
        pending.len() > 0 ==> cross_check_consistent(
            input,
            pending.drop_first(),
            if accept { verified.push(pending[0]) } else { verified },
        ),
{
    let done = input.len() - pending.len();
    assert(input.subrange(0, input.len() as int) =~= input);
    if 0 <= m <= pending.len() {
        let p2 = pending.subrange(m, pending.len() as int);
        let v2 = verified + pending.subrange(0, m);
        let done2 = input.len() - p2.len();
        assert(p2 =~= input.subrange(done2, input.len() as int));
        assert forall|j: int| 0 <= j < v2.len() implies input.subrange(0, done2).contains(#[trigger] v2[j]) by {
            if j < verified.len() {
                assert(v2[j] == verified[j]);
                let q = choose|q: int| 0 <= q < done && input.subrange(0, done)[q] == verified[j];
                assert(input.subrange(0, done2)[q] == verified[j]);
            } else {
                assert(v2[j] == pending[j - verified.len()]);
                assert(input.subrange(0, done2)[done + j - verified.len()] == v2[j]);
            }
        }
    }
    if pending.len() > 0 {
        let p2 = pending.drop_first();
        let v2 = if accept { verified.push(pending[0]) } else { verified };
        let done2 = input.len() - p2.len();
        assert(p2 =~= input.subrange(done2, input.len() as int));
        assert forall|j: int| 0 <= j < v2.len() implies input.subrange(0, done2).contains(#[trigger] v2[j]) by {
            if j < verified.len() {
                assert(v2[j] == verified[j]);
                let q = choose|q: int| 0 <= q < done && input.subrange(0, done)[q] == verified[j];
                assert(input.subrange(0, done2)[q] == verified[j]);
            } else {
                assert(v2[j] == pending[0]);
                assert(input.subrange(0, done2)[done] == pending[0]);
            }
        }
    }
}

/// A whole cross-check from the accepted findings `verified` over the pending findings
/// `pending`, the model's verdicts `verdicts` answering, in order, the findings that need
/// a check (a missing verdict counts as a failed call): a finding that needs no check (see
/// `needs_check`) is accepted at once; one that does is accepted when its verdict accepts
/// it (see `verdict_accepts`). Gives the accepted findings and the number of verdicts asked.
pub open spec fn cross_run(verified: Seq<Finding>, pending: Seq<Finding>, verdicts: Seq<Option<Seq<char>>>) -> (Seq<Finding>, nat)
    decreases pending.len(),
{
    if pending.len() == 0 {
        (verified, 0)
    } else if !needs_check(verified, pending[0]) {
        cross_run(verified.push(pending[0]), pending.drop_first(), verdicts)
    } else {
        let reply = if verdicts.len() > 0 { verdicts[0] } else { None };
        let next = if verdict_accepts(reply) { verified.push(pending[0]) } else { verified };
        let (r, n) = cross_run(next, pending.drop_first(), verdicts.drop_first());
        (r, n + 1)
    }
}

/// The steps of a `CrossCheck` follow its whole run: accepting the `m` findings from the
/// front that need no check (what `next_request` does) leaves the run's outcome as it was,
/// and recording the verdict on a finding that needs one (what `record_verdict` does)
/// takes that verdict from the run's list and counts one model call.
pub proof fn law_cross_steps_follow_run(verified: Seq<Finding>, pending: Seq<Finding>, verdicts: Seq<Option<Seq<char>>>, m: int)
    ensures
        0 <= m <= pending.len() && (forall|j: int| 0 <= j < m ==> !needs_check(verified + pending.subrange(0, j), #[trigger] pending[j]))
            ==> cross_run(verified, pending, verdicts) == cross_run(verified + pending.subrange(0, m), pending.subrange(m, pending.len() as int), verdicts),
        pending.len() > 0 && needs_check(verified, pending[0]) && verdicts.len() > 0 ==> ({
            let next = if verdict_accepts(verdicts[0]) { verified.push(pending[0]) } else { verified };
            let (r, n) = cross_run(next, pending.drop_first(), verdicts.drop_first());
            cross_run(verified, pending, verdicts) == (r, n + 1)
        }),
    decreases m,
{
    if 0 < m <= pending.len() && (forall|j: int| 0 <= j < m ==> !needs_check(verified + pending.subrange(0, j), #[trigger] pending[j])) {
        assert(verified + pending.subrange(0, 0) =~= verified);
        assert(!needs_check(verified + pending.subrange(0, 0), pending[0]));
        let v1 = verified.push(pending[0]);
        let p1 = pending.drop_first();
        assert forall|j: int| 0 <= j < m - 1 implies !needs_check(v1 + p1.subrange(0, j), #[trigger] p1[j]) by {
            assert(v1 + p1.subrange(0, j) =~= verified + pending.subrange(0, j + 1));
            assert(p1[j] == pending[j + 1]);
        }
        law_cross_steps_follow_run(v1, p1, verdicts, m - 1);
        assert(v1 + p1.subrange(0, m - 1) =~= verified + pending.subrange(0, m));
        assert(p1.subrange(m - 1, p1.len() as int) =~= pending.subrange(m, pending.len() as int));
    } else if m == 0 {
        assert(verified + pending.subrange(0, 0) =~= verified);
        assert(pending.subrange(0, pending.len() as int) =~= pending);
    }
}

/// A whole cross-check keeps the findings accepted before it, accepts only findings it was
/// given, at most all of them, and asks the model at most once per finding.
pub proof fn law_cross_run_accepts_only_input(verified: Seq<Finding>, pending: Seq<Finding>, verdicts: Seq<Option<Seq<char>>>)
    ensures
        ({
            let (r, n) = cross_run(verified, pending, verdicts);
            &&& verified.len() <= r.len() <= verified.len() + pending.len()
            &&& r.subrange(0, verified.len() as int) == verified
            &&& forall|i: int| verified.len() <= i < r.len() ==> pending.contains(#[trigger] r[i])
            &&& n <= pending.len()
        }),
    decreases pending.len(),
{
    if pending.len() > 0 {
        let p1 = pending.drop_first();
        let next = if !needs_check(verified, pending[0]) {
            verified.push(pending[0])
        } else {
            let reply = if verdicts.len() > 0 { verdicts[0] } else { None };
            if verdict_accepts(reply) { verified.push(pending[0]) } else { verified }
        };
        let vs = if !needs_check(verified, pending[0]) { verdicts } else { verdicts.drop_first() };
        law_cross_run_accepts_only_input(next, p1, vs);
        let (r, n) = cross_run(verified, pending, verdicts);
        assert(r == cross_run(next, p1, vs).0);
        assert(r.subrange(0, verified.len() as int) =~= r.subrange(0, next.len() as int).subrange(0, verified.len() as int));
        assert forall|i: int| verified.len() <= i < r.len() implies pending.contains(#[trigger] r[i]) by {
            if i < next.len() {
                assert(r[i] == r.subrange(0, next.len() as int)[i]);
                assert(next[i] == pending[0]);
                assert(pending[0] == pending[0]);
            } else {
                let q = choose|q: int| 0 <= q < p1.len() && p1[q] == r[i];
                assert(pending[q + 1] == r[i]);
            }
        }
    } else {
        assert(verified.subrange(0, verified.len() as int) =~= verified);
    }
}

/// A finding needs the model's check exactly when its similarity to every accepted
/// finding is below three tenths (or undefined, both texts being empty); a finding at
/// least three tenths similar to any one accepted finding is accepted at once, so a whole
/// cross-check accepts it without a model call.
pub proof fn law_needs_check_when_all_dissimilar(verified: Seq<Finding>, f: Finding, pending: Seq<Finding>, verdicts: Seq<Option<Seq<char>>>)
    ensures
        needs_check(verified, f) <==> forall|k: int| 0 <= k < verified.len() ==> ({
            let r = similarity(f.content@, (#[trigger] verified[k]).content@);
            r.den == 0 || 10 * r.num < 3 * r.den
        }),
        (exists|k: int| 0 <= k < verified.len() && ({
            let r = similarity(f.content@, (#[trigger] verified[k]).content@);
            r.den > 0 && 10 * r.num >= 3 * r.den
        })) ==> !needs_check(verified, f)
            && cross_run(verified, seq![f] + pending, verdicts) == cross_run(verified.push(f), pending, verdicts),
{
    reveal(needs_check);
    let p = seq![f] + pending;
    assert(p[0] == f);
    assert(p.drop_first() =~= pending);
}

/// Whether `f` needs the model's check against the accepted findings (see `needs_check`).
pub fn needs_model_check(verified: &Vec<Finding>, f: &Finding) -> (r: bool)
    ensures
        r == needs_check(verified@, *f),
{
    reveal(needs_check);
    let mut k: usize = 0;
    while k < verified.len()
        invariant
            k <= verified@.len(),
            forall|m: int| 0 <= m < k ==> dissimilar(f.content@, #[trigger] verified@[m].content@),
        decreases verified@.len() - k,
    {
        let s = text_similarity(f.content.as_str(), verified[k].content.as_str());
        if !(s.den == 0 || 10 * s.num < 3 * s.den) {
            assert(!dissimilar(f.content@, verified@[k as int].content@));
            assert(!needs_check(verified@, *f)) by {
                reveal(needs_check);
            }
            return false;
        }
        k = k + 1;
    }
    assert(needs_check(verified@, *f)) by {
        reveal(needs_check);
    }
    true
}

/// The chapter list shown to the model: `"<i>. <title>"` per chapter, one per line.
pub open spec fn numbered_titles(ts: Seq<Seq<char>>) -> Seq<char> {
    joined(Seq::new(ts.len(), |i: int| decimal(i as nat) + ". "@ + ts[i]), "\n"@)
}

/// The finding list shown to the model: `"[<i>] <content>\n  来源：<urls>"` per finding,
/// separated by blank lines.
pub open spec fn numbered_findings(fs: Seq<Finding>) -> Seq<char> {
    joined(
        Seq::new(fs.len(), |i: int| "["@ + decimal(i as nat) + "] "@ + fs[i].content@ + "\n  来源："@ + joined(sviews(fs[i].sources@), ", "@)),
        "\n\n"@,
    )
}

/// The request that asks the model to lay the findings out in the chapters.
pub open spec fn assignment_user(ts: Seq<Seq<char>>, fs: Seq<Finding>) -> Seq<char> {
    "大纲章节：\n"@ + numbered_titles(ts) + "\n\n研究发现（每条带编号）：\n"@ + numbered_findings(fs)
        + "\n\n请为每条发现分配一个章节编号。输出 JSON 格式：{\"assignments\": [{\"finding_index\": 0, \"chapter_index\": 0}]}\n如果某条发现不适合任何章节，设置 chapter_index 为 -1。"@
}

/// The request that asks the model to lay the findings out in the chapters.
pub fn assignment_prompt(titles: &Vec<String>, findings: &Vec<Finding>) -> (r: Prompt)
    ensures
        r.system@ == "你是一个研究分析专家。根据研究报告大纲章节和研究发现列表，将每个发现分配到最合适的章节。"@,
        r.user@ == assignment_user(sviews(titles@), findings@),
{
    let mut items: Vec<String> = Vec::new();
    let mut i: usize = 0;
    while i < titles.len()
        invariant
            i <= titles@.len(),
            sviews(items@) == Seq::new(i as nat, |k: int| decimal(k as nat) + ". "@ + sviews(titles@)[k]),
        decreases titles@.len() - i,
    {
        let mut s = crate::words::decimal_text(i as u64);
        push_str(&mut s, ". ");
        push_str(&mut s, titles[i].as_str());
        let ghost before = sviews(items@);
        let ghost sv = s@;
        items.push(s);
        assert(sviews(items@) =~= before.push(sv));
        assert(sviews(items@) =~= Seq::new((i + 1) as nat, |k: int| decimal(k as nat) + ". "@ + sviews(titles@)[k]));
        i = i + 1;
    }
    assert(sviews(items@) =~= Seq::new(sviews(titles@).len(), |k: int| decimal(k as nat) + ". "@ + sviews(titles@)[k]));
    let chapters_str = crate::words::join(&items, "\n");
    let mut fitems: Vec<String> = Vec::new();
    let mut j: usize = 0;
    while j < findings.len()
        invariant
            j <= findings@.len(),
            sviews(fitems@) == Seq::new(j as nat, |k: int| "["@ + decimal(k as nat) + "] "@ + findings@[k].content@ + "\n  来源："@ + joined(sviews(findings@[k].sources@), ", "@)),
        decreases findings@.len() - j,
    {
        let mut s = crate::words::owned("[");
        let d = crate::words::decimal_text(j as u64);
        push_str(&mut s, d.as_str());
        push_str(&mut s, "] ");
        push_str(&mut s, findings[j].content.as_str());
        push_str(&mut s, "\n  来源：");
        let urls = crate::words::join(&findings[j].sources, ", ");
        push_str(&mut s, urls.as_str());
        let ghost before = sviews(fitems@);
        let ghost sv = s@;
        fitems.push(s);
        assert(sviews(fitems@) =~= before.push(sv));
        assert(sviews(fitems@) =~= Seq::new((j + 1) as nat, |k: int| "["@ + decimal(k as nat) + "] "@ + findings@[k].content@ + "\n  来源："@ + joined(sviews(findings@[k].sources@), ", "@)));
        j = j + 1;
    }
    let findings_str = crate::words::join(&fitems, "\n\n");
    let mut user = crate::words::owned("大纲章节：\n");
    push_str(&mut user, chapters_str.as_str());
    push_str(&mut user, "\n\n研究发现（每条带编号）：\n");
    push_str(&mut user, findings_str.as_str());
    push_str(&mut user, "\n\n请为每条发现分配一个章节编号。输出 JSON 格式：{\"assignments\": [{\"finding_index\": 0, \"chapter_index\": 0}]}\n如果某条发现不适合任何章节，设置 chapter_index 为 -1。");
    Prompt { system: crate::words::owned("你是一个研究分析专家。根据研究报告大纲章节和研究发现列表，将每个发现分配到最合适的章节。"), user }
}

/// Whether the chapters are cross-checked against each other: only when there are at
/// least two.
pub fn needs_chapter_review(chapters: &Vec<ReportChapter>) -> (r: bool)
    ensures
        r == (chapters@.len() > 1),
{
    chapters.len() > 1
}

/// One chapter as the model is shown it : `"# <title>\n<description>\n\n"` and its findings
/// as `"- <content>"` lines.
pub open spec fn chapter_digest(ch: ReportChapter) -> Seq<char> {
    "# "@ + ch.title@ + "\n"@ + ch.description@ + "\n\n"@
        + joined(Seq::new(ch.findings@.len(), |i: int| "- "@ + ch.findings@[i].content@), "\n"@)
}

/// The request that asks the model to review the chapters for repetition, contradiction
/// and gaps.
pub open spec fn chapter_review_user(chs: Seq<ReportChapter>) -> Seq<char> {
    "请检查以下各章节内容，指出：\n1. 重复内容（多个章节覆盖同一主题）\n2. 矛盾之处（章节间的观点不一致）\n3. 遗漏（应该覆盖但未涉及的角度）\n4. 改进建议\n\n各章节：\n"@
        + joined(Seq::new(chs.len(), |i: int| chapter_digest(chs[i])), "\n\n"@)
}

/// One chapter as the model is shown it (see `chapter_digest`).
fn digest_chapter(ch: &ReportChapter) -> (r: String)
    ensures
        r@ == chapter_digest(*ch),
{
    let mut lines: Vec<String> = Vec::new();
    let mut i: usize = 0;
    while i < ch.findings.len()
        invariant
            i <= ch.findings@.len(),
            sviews(lines@) == Seq::new(i as nat, |k: int| "- "@ + ch.findings@[k].content@),
        decreases ch.findings@.len() - i,
    {
        let mut s = crate::words::owned("- ");
        push_str(&mut s, ch.findings[i].content.as_str());
        let ghost before = sviews(lines@);
        let ghost sv = s@;
        lines.push(s);
        assert(sviews(lines@) =~= before.push(sv));
        assert(sviews(lines@) =~= Seq::new((i + 1) as nat, |k: int| "- "@ + ch.findings@[k].content@));
        i = i + 1;
    }
    let body = crate::words::join(&lines, "\n");
    let mut r = crate::words::owned("# ");
    push_str(&mut r, ch.title.as_str());
    push_str(&mut r, "\n");
    push_str(&mut r, ch.description.as_str());
    push_str(&mut r, "\n\n");
    push_str(&mut r, body.as_str());
    r
}

/// The request that asks the model to review the chapters (see `chapter_review_user`).
pub fn chapter_review_prompt(chapters: &Vec<ReportChapter>) -> (r: Prompt)
    ensures
        r.system@ == "你是一个研究报告校对专家。检查以下多章节研究报告各个章节之间是否存在重复、矛盾或遗漏，给出改进建议。"@,
        r.user@ == chapter_review_user(chapters@),
{
    let mut parts: Vec<String> = Vec::new();
    let mut i: usize = 0;
    while i < chapters.len()
        invariant
            i <= chapters@.len(),
            sviews(parts@) == Seq::new(i as nat, |k: int| chapter_digest(chapters@[k])),
        decreases chapters@.len() - i,
    {
        let d = digest_chapter(&chapters[i]);
        let ghost before = sviews(parts@);
        let ghost sv = d@;
        parts.push(d);
        assert(sviews(parts@) =~= before.push(sv));
        assert(sviews(parts@) =~= Seq::new((i + 1) as nat, |k: int| chapter_digest(chapters@[k])));
        i = i + 1;
    }
    let body = crate::words::join(&parts, "\n\n");
    let mut user = crate::words::owned("请检查以下各章节内容，指出：\n1. 重复内容（多个章节覆盖同一主题）\n2. 矛盾之处（章节间的观点不一致）\n3. 遗漏（应该覆盖但未涉及的角度）\n4. 改进建议\n\n各章节：\n");
    push_str(&mut user, body.as_str());
    Prompt { system: crate::words::owned("你是一个研究报告校对专家。检查以下多章节研究报告各个章节之间是否存在重复、矛盾或遗漏，给出改进建议。"), user }
}

} // verus!
