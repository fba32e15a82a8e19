//! The writer: it asks the model for the report in Typst, with a table of citation keys,
//! and assembles the report from the model's text.
use vstd::prelude::*;
use crate::citation::{url_key, sorted_unique, strictly_sorted, distinct};
use crate::model::{CitationGraph, Finding, Prompt, QualityTally, ReportChapter, ReportSection, ResearchReport, SourceNode};
use crate::orchestrator::cited_urls;
use crate::text::{first_match, trim};
use crate::words::{decimal, digit_char, joined, owned, push_str, starts_with, sviews};

verus! {

broadcast use vstd::string::group_string_axioms;

/// The citation key of a URL as the writer uses it, the same as the bibliography's: the
/// slug cut to 12 characters.
pub fn bib_key(url: &str) -> (r: String)
    ensures
        r@ == url_key(url@),
{
    crate::citation::citation_key(url)
}

/// The title and body of the model's report: when its trimmed text starts with `"= "`,
/// the rest of that line (trimmed) and what follows (trimmed); else `"研究报告"` and the
/// trimmed text.
pub open spec fn title_and_body(raw: Seq<char>) -> (Seq<char>, Seq<char>) {
    let r = trim(raw);
    if starts_with(r, "= "@) {
        let rest = r.subrange(2, r.len() as int);
        let e = first_match(rest, "\n"@, 0);
        let end = if e >= 0 { e } else { rest.len() as int };
        (trim(rest.subrange(0, end)), trim(rest.subrange(end, rest.len() as int)))
    } else {
        ("研究报告"@, r)
    }
}

/// The title and body of the model's report (see `title_and_body`).
pub fn extract_title(raw: &str) -> (r: (String, String))
    ensures
        (r.0@, r.1@) == title_and_body(raw@),
{
    let v = crate::text::chars_of(raw);
    let (a, b) = crate::text::trim_bounds(&v);
    let t = crate::text::slice_chars(&v, a, b);
    let head = crate::text::pattern("= ");
    proof {
        reveal_strlit("= ");
        reveal_strlit("\n");
    }
    if crate::words::has_prefix(&t, &head) {
        let rest = crate::text::slice_chars(&t, 2, t.len());
        let nl = crate::text::pattern("\n");
        let end = match crate::text::find_from(&rest, &nl, 0) {
            Some(e) => {
                proof {
                    crate::text::lemma_first_match(rest@, nl@, 0);
                }
                e
            },
            None => rest.len(),
        };
        let line = crate::text::slice_chars(&rest, 0, end);
        let body = crate::text::slice_chars(&rest, end, rest.len());
        let (c, d) = crate::text::trim_bounds(&line);
        let (e2, f2) = crate::text::trim_bounds(&body);
        (crate::text::string_from_range(&line, c, d), crate::text::string_from_range(&body, e2, f2))
    } else {
        (owned("研究报告"), crate::text::string_from(&t))
    }
}

/// The `c`-th key tried for a base key: the base itself, then `"<base>_<c>"`.
pub open spec fn key_candidate(base: Seq<char>, c: int) -> Seq<char> {
    if c == 1 {
        base
    } else {
        base + "_"@ + decimal(c as nat)
    }
}

/// The first candidate key from the `c`-th on that is not among `seen` (the search gives
/// up at the largest `i32`).
pub open spec fn fresh_key(base: Seq<char>, seen: Seq<Seq<char>>, c: int) -> Seq<char>
    decreases i32::MAX - c,
{
    if !seen.contains(key_candidate(base, c)) || c >= i32::MAX {
        key_candidate(base, c)
    } else {
        fresh_key(base, seen, c + 1)
    }
}

/// The keys of the table's rows: each URL's key, numbered when already taken.
pub open spec fn table_keys(urls: Seq<Seq<char>>) -> Seq<Seq<char>>
    decreases urls.len(),
{
    if urls.len() == 0 {
        Seq::empty()
    } else {
        let ks = table_keys(urls.drop_last());
        ks.push(fresh_key(url_key(urls.last()), ks, 1))
    }
}

proof fn lemma_decimal_injective(a: nat, b: nat)
    requires
        decimal(a) == decimal(b),
    ensures
        a == b,
    decreases a,
{
    if a < 10 && b < 10 {
        assert(decimal(a)[0] == digit_char(a));
        assert(decimal(b)[0] == digit_char(b));
        assert(decimal(a)[0] == decimal(b)[0]);
        assert(digit_char(a) as u32 == a + 48);
        assert(digit_char(b) as u32 == b + 48);
        assert(a == b);
    } else if a >= 10 && b >= 10 {
        let da = decimal(a);
        let db = decimal(b);
        assert(da.drop_last() =~= decimal(a / 10));
        assert(db.drop_last() =~= decimal(b / 10));
        assert(da.last() == db.last());
        assert(digit_char(a % 10) as u32 == a % 10 + 48);
        assert(digit_char(b % 10) as u32 == b % 10 + 48);
        lemma_decimal_injective(a / 10, b / 10);
        assert(a % 10 == b % 10);
        assert(a == b);
    } else {
        lemma_decimal_long(if a >= 10 { a } else { b });
        assert(decimal(if a >= 10 { b } else { a }).len() == 1);
        assert(false);
    }
}

proof fn lemma_decimal_long(n: nat)
    requires
        n >= 10,
    ensures
        decimal(n).len() >= 2,
    decreases n,
{
    if n / 10 >= 10 {
        lemma_decimal_long(n / 10);
    } else {
        assert(decimal(n / 10).len() == 1);
    }
}

proof fn lemma_candidates_differ(base: Seq<char>, c1: int, c2: int)
    requires
        1 <= c1,
        1 <= c2,
        key_candidate(base, c1) == key_candidate(base, c2),
    ensures
        c1 == c2,
{
    reveal_strlit("_");
    if c1 != 1 && c2 != 1 {
        let p = base + "_"@;
        let k1 = key_candidate(base, c1);
        assert(k1.subrange(p.len() as int, k1.len() as int) =~= decimal(c1 as nat));
        assert(k1.subrange(p.len() as int, k1.len() as int) =~= decimal(c2 as nat));
        lemma_decimal_injective(c1 as nat, c2 as nat);
    } else if c1 != 1 || c2 != 1 {
        let c = if c1 != 1 { c1 } else { c2 };
        assert(key_candidate(base, c).len() > base.len());
    }
}

proof fn lemma_some_candidate_free(base: Seq<char>, seen: Seq<Seq<char>>)
    ensures
        exists|c: int| 1 <= c <= seen.len() + 1 && !seen.contains(#[trigger] key_candidate(base, c)),
{
    let n = seen.len();
    let cands = Seq::new((n + 1) as nat, |i: int| key_candidate(base, i + 1));
    if forall|c: int| 1 <= c <= n + 1 ==> seen.contains(#[trigger] key_candidate(base, c)) {
        assert(cands.no_duplicates()) by {
            assert forall|i: int, j: int| 0 <= i < cands.len() && 0 <= j < cands.len() && i != j implies cands[i] != cands[j] by {
                if cands[i] == cands[j] {
                    lemma_candidates_differ(base, i + 1, j + 1);
                }
            }
        }
        cands.unique_seq_to_set();
        seen.lemma_cardinality_of_set();
        assert(cands.to_set().subset_of(seen.to_set())) by {
            assert forall|x: Seq<char>| cands.to_set().contains(x) implies seen.to_set().contains(x) by {
                let i = choose|i: int| 0 <= i < cands.len() && cands[i] == x;
                assert(seen.contains(key_candidate(base, i + 1)));
            }
        }
        vstd::set_lib::lemma_len_subset(cands.to_set(), seen.to_set());
        assert(false);
    }
}

proof fn lemma_fresh_key_free(base: Seq<char>, seen: Seq<Seq<char>>, c: int, c0: int)
    requires
        1 <= c <= c0 < i32::MAX,
        !seen.contains(key_candidate(base, c0)),
    ensures
        !seen.contains(fresh_key(base, seen, c)),
    decreases c0 - c,
{
    if seen.contains(key_candidate(base, c)) {
        lemma_fresh_key_free(base, seen, c + 1, c0);
    }
}

/// Every row of the key table has its own key: a URL whose key is taken gets the next
/// free numbered key, so no two rows share one (for tables of fewer rows than the
/// numbering can count).
pub proof fn law_table_keys_distinct(urls: Seq<Seq<char>>)
    requires
        urls.len() + 2 < i32::MAX,
    ensures
        table_keys(urls).no_duplicates(),
        table_keys(urls).len() == urls.len(),
    decreases urls.len(),
{
    if urls.len() > 0 {
        let init = urls.drop_last();
        law_table_keys_distinct(init);
        let ks = table_keys(init);
        let base = url_key(urls.last());
        lemma_some_candidate_free(base, ks);
        let c0 = choose|c: int| 1 <= c <= ks.len() + 1 && !ks.contains(#[trigger] key_candidate(base, c));
        lemma_fresh_key_free(base, ks, 1, c0);
    }
}

/// `k` padded with spaces to 22 characters.
pub open spec fn pad22(k: Seq<char>) -> Seq<char> {
    if k.len() < 22 {
        k + Seq::new((22 - k.len()) as nat, |i: int| ' ')
    } else {
        k
    }
}

/// One row of the key table: the padded key, a space, the title (the URL when the title
/// is empty), a line break.
pub open spec fn table_row(key: Seq<char>, url: Seq<char>, title: Seq<char>) -> Seq<char> {
    pad22(key) + " "@ + (if title.len() == 0 { url } else { title }) + "\n"@
}

/// The key table shown to the model for (URL, title) entries.
pub open spec fn key_table(entries: Seq<(String, String)>) -> Seq<char> {
    let urls = Seq::new(entries.len(), |i: int| entries[i].0@);
    let keys = table_keys(urls);
    "\n\n引用 key 对照表（使用 @key 格式标注引用，例如 @example_report）：\nkey                    标题\n────────────────────────────────────────────────────\n"@ + joined(Seq::new(entries.len(), |i: int| table_row(keys[i], entries[i].0@, entries[i].1@)), ""@)
}

/// `k` padded with spaces to 22 characters.
fn padded(k: &String) -> (r: String)
    ensures
        r@ == pad22(k@),
{
    let n = crate::text::chars_of(k.as_str()).len();
    let mut r = k.clone();
    if n < 22 {
        let mut i: usize = n;
        while i < 22
            invariant
                n <= i <= 22,
                n == k@.len(),
                r@ == k@ + Seq::new((i - n) as nat, |j: int| ' '),
            decreases 22 - i,
        {
            crate::text::push_char(&mut r, ' ');
            assert(r@ =~= k@ + Seq::new((i + 1 - n) as nat, |j: int| ' '));
            i = i + 1;
        }
    }
    r
}

/// The key table for (URL, title) entries (see `key_table`).
pub fn key_map_table(entries: &Vec<(String, String)>) -> (r: String)
    ensures
        r@ == key_table(entries@),
{
    let ghost urls = Seq::new(entries@.len(), |i: int| entries@[i].0@);
    let mut seen: Vec<String> = Vec::new();
    let mut rows: Vec<String> = Vec::new();
    let mut i: usize = 0;
    while i < entries.len()
        invariant
            i <= entries@.len(),
            urls == Seq::new(entries@.len(), |k: int| entries@[k].0@),
            sviews(seen@) == table_keys(urls.subrange(0, i as int)),
            sviews(rows@) == Seq::new(i as nat, |k: int| table_row(table_keys(urls)[k], entries@[k].0@, entries@[k].1@)),
        decreases entries@.len() - i,
    {
        let (url, title) = (&entries[i].0, &entries[i].1);
        proof {
            assert(urls.subrange(0, i + 1).drop_last() =~= urls.subrange(0, i as int));
        }
        let base = bib_key(url.as_str());
        let mut key = base.clone();
        let mut counter: i32 = 1;
        let ghost ks = sviews(seen@);
        while crate::orchestrator::holds_text(&seen, key.as_str()) && counter < i32::MAX
            invariant
                1 <= counter <= i32::MAX,
                sviews(seen@) == ks,
                key@ == key_candidate(base@, counter as int),
                fresh_key(base@, ks, 1) == fresh_key(base@, ks, counter as int),
            decreases i32::MAX - counter,
        {
            counter = counter + 1;
            let mut next = base.clone();
            crate::text::push_char(&mut next, '_');
            let d = crate::words::decimal_text(counter as u64);
            push_str(&mut next, d.as_str());
            proof {
                reveal_strlit("_");
                assert(next@ =~= base@ + "_"@ + decimal(counter as nat));
            }
            key = next;
        }
        let ghost kv = key@;
        assert(kv == fresh_key(base@, ks, 1));
        let ghost before = sviews(seen@);
        seen.push(key.clone());
        proof {
            assert(sviews(seen@) =~= before.push(kv));
            assert(table_keys(urls.subrange(0, i + 1)) == before.push(kv));
            lemma_table_keys_prefix(urls, (i + 1) as int);
        }
        let mut row = padded(&key);
        push_str(&mut row, " ");
        if title.as_str().is_empty() {
            push_str(&mut row, url.as_str());
        } else {
            push_str(&mut row, title.as_str());
        }
        push_str(&mut row, "\n");
        let ghost rb = sviews(rows@);
        let ghost rv = row@;
        rows.push(row);
        proof {
            assert(sviews(rows@) =~= rb.push(rv));
            assert(table_keys(urls.subrange(0, i + 1))[i as int] == kv);
            assert(table_keys(urls)[i as int] == kv);
            assert(sviews(rows@) =~= Seq::new((i + 1) as nat, |k: int| table_row(table_keys(urls)[k], entries@[k].0@, entries@[k].1@)));
        }
        i = i + 1;
    }
    let body = crate::words::join(&rows, "");
    let mut table = owned("\n\n引用 key 对照表（使用 @key 格式标注引用，例如 @example_report）：\nkey                    标题\n────────────────────────────────────────────────────\n");
    push_str(&mut table, body.as_str());
    table
}

/// The keys of a prefix of the URLs are the first keys of all of them.
proof fn lemma_table_keys_prefix(urls: Seq<Seq<char>>, n: int)
    requires
        0 <= n <= urls.len(),
    ensures
        table_keys(urls.subrange(0, n)).len() == n,
        table_keys(urls).len() == urls.len(),
        forall|k: int| 0 <= k < n ==> #[trigger] table_keys(urls.subrange(0, n))[k] == table_keys(urls)[k],
    decreases urls.len(),
{
    lemma_table_keys_len(urls);
    lemma_table_keys_len(urls.subrange(0, n));
    if n == urls.len() {
        assert(urls.subrange(0, n) =~= urls);
    } else {
        let u2 = urls.drop_last();
        assert(u2.subrange(0, n) =~= urls.subrange(0, n));
        lemma_table_keys_prefix(u2, n);
        lemma_table_keys_len(u2);
        assert forall|k: int| 0 <= k < n implies #[trigger] table_keys(urls.subrange(0, n))[k] == table_keys(urls)[k] by {
            assert(table_keys(urls)[k] == table_keys(u2)[k]);
        }
    }
}

proof fn lemma_table_keys_len(urls: Seq<Seq<char>>)
    ensures
        table_keys(urls).len() == urls.len(),
    decreases urls.len(),
{
    if urls.len() > 0 {
        lemma_table_keys_len(urls.drop_last());
    }
}

/// A finding as the writer sees it: `"- <content>\n  来源：<urls>"`.
pub open spec fn finding_entry(f: Finding) -> Seq<char> {
    "- "@ + f.content@ + "\n  来源："@ + joined(sviews(f.sources@), ", "@)
}

/// The findings as the writer sees them, separated by `sep`.
pub open spec fn findings_text(fs: Seq<Finding>, sep: Seq<char>) -> Seq<char> {
    joined(Seq::new(fs.len(), |i: int| finding_entry(fs[i])), sep)
}

/// The findings as the writer sees them, separated by `sep`.
fn findings_listing(fs: &Vec<Finding>, sep: &str) -> (r: String)
    ensures
        r@ == findings_text(fs@, sep@),
{
    let mut lines: Vec<String> = Vec::new();
    let mut j: usize = 0;
    while j < fs.len()
        invariant
            j <= fs@.len(),
            sviews(lines@) == Seq::new(j as nat, |k: int| finding_entry(fs@[k])),
        decreases fs@.len() - j,
    {
        let f = &fs[j];
        let mut s = owned("- ");
        push_str(&mut s, f.content.as_str());
        push_str(&mut s, "\n  来源：");
        let urls = crate::words::join(&f.sources, ", ");
        push_str(&mut s, urls.as_str());
        let ghost before = sviews(lines@);
        let ghost sv = s@;
        lines.push(s);
        assert(sviews(lines@) =~= before.push(sv));
        assert(sviews(lines@) =~= Seq::new((j + 1) as nat, |k: int| finding_entry(fs@[k])));
        j = j + 1;
    }
    crate::words::join(&lines, sep)
}

/// The (URL, title) entries of the graph's sources.
pub open spec fn graph_entries(sources: Seq<SourceNode>) -> Seq<(Seq<char>, Seq<char>)> {
    Seq::new(sources.len(), |i: int| (sources[i].url@, sources[i].title@))
}

/// The views of (URL, title) entries.
pub open spec fn entry_views(entries: Seq<(String, String)>) -> Seq<(Seq<char>, Seq<char>)> {
    Seq::new(entries.len(), |i: int| (entries[i].0@, entries[i].1@))
}

/// The request that asks for a report on the findings.
pub open spec fn report_user(q: Seq<char>, fs: Seq<Finding>, quality: Seq<char>, table: Seq<char>) -> Seq<char> {
    "请根据以下研究发现，撰写一份结构化的研究报告。\n\n研究问题："@ + q + "\n\n研究发现：\n"@ + findings_text(fs, "\n\n"@) + "\n\n质量评分："@ + quality + "\n\n请生成 Typst 格式的报告，包含以下结构：\n1. 摘要（概述主要发现）\n2. 研究背景\n3. 主要发现（分章节）\n4. 结论与展望\n\n每个章节请使用 @key 格式包含内联引用。"@ + table
}

/// The title given to the first source with URL `u` in the graph, or the empty text.
pub open spec fn source_title(sources: Seq<SourceNode>, u: Seq<char>) -> Seq<char>
    decreases sources.len(),
{
    if sources.len() == 0 {
        Seq::empty()
    } else if sources[0].url@ == u {
        sources[0].title@
    } else {
        source_title(sources.drop_first(), u)
    }
}

/// A section as the writer sees it in a draft: `"= <heading>\n<content>"`.
pub open spec fn section_text(s: ReportSection) -> Seq<char> {
    "= "@ + s.heading@ + "\n"@ + s.content@
}

/// The URLs cited by the sections, in order.
pub open spec fn section_urls(ss: Seq<ReportSection>) -> Seq<Seq<char>>
    decreases ss.len(),
{
    if ss.len() == 0 {
        Seq::empty()
    } else {
        section_urls(ss.drop_last()) + sviews(ss.last().citations@)
    }
}

/// The request that asks to merge new findings into a draft report.
pub open spec fn update_user(title: Seq<char>, ss: Seq<ReportSection>, fs: Seq<Finding>, table: Seq<char>) -> Seq<char> {
    "研究问题："@ + title + "\n\n已有报告草稿：\n"@ + joined(Seq::new(ss.len(), |i: int| section_text(ss[i])), "\n\n"@) + "\n\n新的研究发现：\n"@
        + findings_text(fs, "\n\n"@) + "\n\n请将新发现整合到已有报告中，更新相关章节。\n如果新发现引入了新主题，添加新的章节。\n保持报告的整体连贯性和深度。\n引用请使用 @key 格式。"@ + table
}

/// A chapter as the writer sees it: `"= <title>\n<description>\n\n研究发现：\n"` and its
/// findings.
pub open spec fn chapter_text(ch: ReportChapter) -> Seq<char> {
    "= "@ + ch.title@ + "\n"@ + ch.description@ + "\n\n研究发现：\n"@ + findings_text(ch.findings@, "\n"@)
}

/// The URLs cited by the chapters' findings, in order.
pub open spec fn chapter_urls(chs: Seq<ReportChapter>) -> Seq<Seq<char>>
    decreases chs.len(),
{
    if chs.len() == 0 {
        Seq::empty()
    } else {
        chapter_urls(chs.drop_last()) + cited_urls(chs.last().findings@)
    }
}

/// The request that asks for a long report, chapter by chapter.
pub open spec fn long_user(q: Seq<char>, outline: Seq<char>, chs: Seq<ReportChapter>, review: Seq<char>, quality: Seq<char>, table: Seq<char>) -> Seq<char> {
    "研究问题："@ + q + "\n\n大纲：\n"@ + outline + "\n\n各章节研究发现：\n"@ + joined(Seq::new(chs.len(), |i: int| chapter_text(chs[i])), "\n\n"@)
        + "\n\n交叉校对意见：\n"@ + review + "\n\n质量评分："@ + quality + "\n\n请生成完整的 Typst 研究报告，包含：\n1. 摘要\n2. 研究背景\n3. 各章节正文\n4. 结论与展望\n\n确保章节之间逻辑连贯，交叉校对意见已落实。\n引用请使用 @key 格式。"@ + table
}

/// The agent that writes reports; it holds the model client `L`.
pub struct WriterAgent<L> {
    llm: L,
}

impl<L> WriterAgent<L> {
    /// An agent that asks `llm`.
    pub fn new(llm: L) -> (r: Self)
        ensures
            r.llm() == llm,
    {
        WriterAgent { llm }
    }

    /// The model client the agent asks.
    pub closed spec fn llm(&self) -> L {
        self.llm
    }

    /// The model client the agent asks.
    pub fn client(&self) -> (r: &L)
        ensures
            *r == self.llm(),
    {
        &self.llm
    }

    /// The request that asks for a report on the findings; `quality` is the quality score
    /// as the model is shown it, and the key table lists the graph's sources.
    pub fn report_prompt(&self, question: &str, findings: &Vec<Finding>, graph: &CitationGraph, quality: &str) -> (r: Prompt)
        ensures
            r.system@ == "根据研究发现和引用信息，生成结构清晰、内容深入、有引用标注的研究报告。报告使用 Typst 格式。\n引用必须使用 @key 格式（带 @ 前缀），例如 @kpmg_report23，key 对照表见下方。\n第一行必须是 = 开头的一级标题（报告标题）。\n不要生成参考文献/参考资料章节，系统会自动添加。\n只输出纯 Typst 正文，不要 ```typst 围栏。"@,
            exists|entries: Seq<(String, String)>| entry_views(entries) == graph_entries(graph.sources@)
                && #[trigger] r.user@ == report_user(question@, findings@, quality@, key_table(entries)),
    {
        let mut entries: Vec<(String, String)> = Vec::new();
        let mut i: usize = 0;
        while i < graph.sources.len()
            invariant
                i <= graph.sources@.len(),
                entry_views(entries@) == graph_entries(graph.sources@).subrange(0, i as int),
                forall|k: int| 0 <= k < entries@.len() ==> (#[trigger] entries@[k]).0@ == graph.sources@[k].url@,
                entries@.len() == i,
            decreases graph.sources@.len() - i,
        {
            let s = &graph.sources[i];
            entries.push((s.url.clone(), s.title.clone()));
            assert(entry_views(entries@) =~= graph_entries(graph.sources@).subrange(0, i + 1));
            i = i + 1;
        }
        assert(graph_entries(graph.sources@).subrange(0, graph.sources@.len() as int) =~= graph_entries(graph.sources@));
        let table = key_map_table(&entries);
        let listing = findings_listing(findings, "\n\n");
        let mut user = owned("请根据以下研究发现，撰写一份结构化的研究报告。\n\n研究问题：");
        push_str(&mut user, question);
        push_str(&mut user, "\n\n研究发现：\n");
        push_str(&mut user, listing.as_str());
        push_str(&mut user, "\n\n质量评分：");
        push_str(&mut user, quality);
        push_str(&mut user, "\n\n请生成 Typst 格式的报告，包含以下结构：\n1. 摘要（概述主要发现）\n2. 研究背景\n3. 主要发现（分章节）\n4. 结论与展望\n\n每个章节请使用 @key 格式包含内联引用。");
        push_str(&mut user, table.as_str());
        Prompt { system: owned("根据研究发现和引用信息，生成结构清晰、内容深入、有引用标注的研究报告。报告使用 Typst 格式。\n引用必须使用 @key 格式（带 @ 前缀），例如 @kpmg_report23，key 对照表见下方。\n第一行必须是 = 开头的一级标题（报告标题）。\n不要生成参考文献/参考资料章节，系统会自动添加。\n只输出纯 Typst 正文，不要 ```typst 围栏。"), user }
    }

    /// The report written from scratch: one section, `"研究结果"`, with the model's text and
    /// every URL the findings cite; a fresh identifier; a copy of the graph.
    pub fn written_report(&self, title: String, content: String, findings: &Vec<Finding>, graph: &CitationGraph, quality: QualityTally) -> (r: ResearchReport)
        ensures
            r.title == title,
            r.sections@.len() == 1,
            r.sections@[0].heading@ == "研究结果"@,
            r.sections@[0].content == content,
            sviews(r.sections@[0].citations@) == cited_urls(findings@),
            r.citation_graph.claims@ == graph.claims@,
            r.citation_graph.sources@ == graph.sources@,
            r.citation_graph.edges@ == graph.edges@,
            r.quality == quality,
            r.argument_skeleton is None,
    {
        let citations = all_sources(findings);
        let mut sections: Vec<ReportSection> = Vec::new();
        sections.push(ReportSection { heading: owned("研究结果"), content, citations });
        ResearchReport {
            query_id: crate::ids::new_id(),
            title,
            sections,
            citation_graph: graph.duplicate(),
            quality,
            argument_skeleton: None,
            generated_at: crate::ids::now_timestamp(),
        }
    }

    /// The request that asks to merge new findings into the draft; each URL cited by the
    /// draft or the new findings is listed with the title the graph gives it.
    pub fn update_prompt(&self, existing: &ResearchReport, new_findings: &Vec<Finding>, graph: &CitationGraph) -> (r: Prompt)
        ensures
            r.system@ == "根据已有报告草稿和新的研究发现，更新和优化研究报告。\n保持结构一致性，将新信息融合到适当章节中。\n报告使用 Typst 格式，引用必须使用 @key 格式（带 @ 前缀），例如 @kpmg_report23。\n第一行必须是 = 开头的一级标题（报告标题）。\n不要生成参考文献/参考资料章节，系统会自动添加。\n只输出纯 Typst 正文，不要 ```typst 围栏。"@,
            exists|entries: Seq<(String, String)>| ({
                let urls = section_urls(existing.sections@) + cited_urls(new_findings@);
                &&& entries.len() == urls.len()
                &&& forall|k: int| 0 <= k < entries.len() ==> (#[trigger] entries[k]).0@ == urls[k]
                    && entries[k].1@ == source_title(graph.sources@, urls[k])
            }) && #[trigger] r.user@ == update_user(existing.title@, existing.sections@, new_findings@, key_table(entries)),
    {
        let mut urls: Vec<String> = Vec::new();
        let mut i: usize = 0;
        while i < existing.sections.len()
            invariant
                i <= existing.sections@.len(),
                sviews(urls@) == section_urls(existing.sections@.subrange(0, i as int)),
            decreases existing.sections@.len() - i,
        {
            proof {
                assert(existing.sections@.subrange(0, i + 1).drop_last() =~= existing.sections@.subrange(0, i as int));
            }
            crate::words::append_strings(&mut urls, &existing.sections[i].citations);
            i = i + 1;
        }
        assert(existing.sections@.subrange(0, existing.sections@.len() as int) =~= existing.sections@);
        let more = all_sources(new_findings);
        crate::words::append_strings(&mut urls, &more);
        let ghost all = section_urls(existing.sections@) + cited_urls(new_findings@);
        assert(sviews(urls@) == all);
        let mut entries: Vec<(String, String)> = Vec::new();
        let mut m: usize = 0;
        while m < urls.len()
            invariant
                m <= urls@.len(),
                sviews(urls@) == all,
                entries@.len() == m,
                forall|q: int| 0 <= q < m ==> (#[trigger] entries@[q]).0@ == all[q]
                    && entries@[q].1@ == source_title(graph.sources@, all[q]),
            decreases urls@.len() - m,
        {
            let t = title_in(&graph.sources, urls[m].as_str());
            entries.push((urls[m].clone(), t));
            m = m + 1;
        }
        let table = key_map_table(&entries);
        let mut sec: Vec<String> = Vec::new();
        let mut n: usize = 0;
        while n < existing.sections.len()
            invariant
                n <= existing.sections@.len(),
                sviews(sec@) == Seq::new(n as nat, |q: int| section_text(existing.sections@[q])),
            decreases existing.sections@.len() - n,
        {
            let s = &existing.sections[n];
            let mut t = owned("= ");
            push_str(&mut t, s.heading.as_str());
            push_str(&mut t, "\n");
            push_str(&mut t, s.content.as_str());
            let ghost before = sviews(sec@);
            let ghost tv = t@;
            sec.push(t);
            assert(sviews(sec@) =~= before.push(tv));
            assert(sviews(sec@) =~= Seq::new((n + 1) as nat, |q: int| section_text(existing.sections@[q])));
            n = n + 1;
        }
        let draft = crate::words::join(&sec, "\n\n");
        let listing = findings_listing(new_findings, "\n\n");
        let mut user = owned("研究问题：");
        push_str(&mut user, existing.title.as_str());
        push_str(&mut user, "\n\n已有报告草稿：\n");
        push_str(&mut user, draft.as_str());
        push_str(&mut user, "\n\n新的研究发现：\n");
        push_str(&mut user, listing.as_str());
        push_str(&mut user, "\n\n请将新发现整合到已有报告中，更新相关章节。\n如果新发现引入了新主题，添加新的章节。\n保持报告的整体连贯性和深度。\n引用请使用 @key 格式。");
        push_str(&mut user, table.as_str());
        Prompt { system: owned("根据已有报告草稿和新的研究发现，更新和优化研究报告。\n保持结构一致性，将新信息融合到适当章节中。\n报告使用 Typst 格式，引用必须使用 @key 格式（带 @ 前缀），例如 @kpmg_report23。\n第一行必须是 = 开头的一级标题（报告标题）。\n不要生成参考文献/参考资料章节，系统会自动添加。\n只输出纯 Typst 正文，不要 ```typst 围栏。"), user }
    }

    /// The updated report: the draft's identifier, one section, `"研究结果"`, with the
    /// model's text and the URLs cited by the draft and the new findings, sorted and each
    /// once; a copy of the graph.
    pub fn updated_report(&self, existing: &ResearchReport, new_findings: &Vec<Finding>, graph: &CitationGraph, quality: QualityTally, title: String, content: String) -> (r: ResearchReport)
        ensures
            r.query_id == existing.query_id,
            r.title == title,
            r.sections@.len() == 1,
            r.sections@[0].heading@ == "研究结果"@,
            r.sections@[0].content == content,
            strictly_sorted(sviews(r.sections@[0].citations@)),
            distinct(sviews(r.sections@[0].citations@)),
            forall|x: Seq<char>| sviews(r.sections@[0].citations@).contains(x)
                <==> (section_urls(existing.sections@) + cited_urls(new_findings@)).contains(x),
            r.citation_graph.claims@ == graph.claims@,
            r.citation_graph.sources@ == graph.sources@,
            r.citation_graph.edges@ == graph.edges@,
            r.quality == quality,
            r.argument_skeleton is None,
    {
        let mut urls: Vec<String> = Vec::new();
        let mut i: usize = 0;
        while i < existing.sections.len()
            invariant
                i <= existing.sections@.len(),
                sviews(urls@) == section_urls(existing.sections@.subrange(0, i as int)),
            decreases existing.sections@.len() - i,
        {
            proof {
                assert(existing.sections@.subrange(0, i + 1).drop_last() =~= existing.sections@.subrange(0, i as int));
            }
            crate::words::append_strings(&mut urls, &existing.sections[i].citations);
            i = i + 1;
        }
        assert(existing.sections@.subrange(0, existing.sections@.len() as int) =~= existing.sections@);
        let more = all_sources(new_findings);
        crate::words::append_strings(&mut urls, &more);
        let citations = sorted_unique(&urls);
        let mut sections: Vec<ReportSection> = Vec::new();
        sections.push(ReportSection { heading: owned("研究结果"), content, citations });
        ResearchReport {
            query_id: existing.query_id,
            title,
            sections,
            citation_graph: graph.duplicate(),
            quality,
            argument_skeleton: None,
            generated_at: crate::ids::now_timestamp(),
        }
    }

    /// The request that asks for a long report from the outline, the chapters and the
    /// chapters' review; every URL the chapters cite is listed without a title.
    pub fn long_prompt(&self, question: &str, outline: &str, chapters: &Vec<ReportChapter>, review: &str, quality: &str) -> (r: Prompt)
        ensures
            r.system@ == "根据多章节大纲和各个章节的研究发现，生成完整的结构化长报告。\n报告使用 Typst 格式，引用必须使用 @key 格式（带 @ 前缀），例如 @kpmg_report23。\n第一行必须是 = 开头的一级标题（报告标题）。\n不要生成参考文献/参考资料章节，系统会自动添加。\n只输出纯 Typst 正文，不要 ```typst 围栏。"@,
            exists|entries: Seq<(String, String)>| ({
                &&& entries.len() == chapter_urls(chapters@).len()
                &&& forall|k: int| 0 <= k < entries.len() ==> (#[trigger] entries[k]).0@ == chapter_urls(chapters@)[k]
                    && entries[k].1@.len() == 0
            }) && #[trigger] r.user@ == long_user(question@, outline@, chapters@, review@, quality@, key_table(entries)),
    {
        let urls = chapter_sources(chapters);
        let mut entries: Vec<(String, String)> = Vec::new();
        let mut m: usize = 0;
        while m < urls.len()
            invariant
                m <= urls@.len(),
                sviews(urls@) == chapter_urls(chapters@),
                entries@.len() == m,
                forall|q: int| 0 <= q < m ==> (#[trigger] entries@[q]).0@ == chapter_urls(chapters@)[q]
                    && entries@[q].1@.len() == 0,
            decreases urls@.len() - m,
        {
            entries.push((urls[m].clone(), String::new()));
            m = m + 1;
        }
        let table = key_map_table(&entries);
        let mut parts: Vec<String> = Vec::new();
        let mut i: usize = 0;
        while i < chapters.len()
            invariant
                i <= chapters@.len(),
                sviews(parts@) == Seq::new(i as nat, |q: int| chapter_text(chapters@[q])),
            decreases chapters@.len() - i,
        {
            let ch = &chapters[i];
            let mut t = owned("= ");
            push_str(&mut t, ch.title.as_str());
            push_str(&mut t, "\n");
            push_str(&mut t, ch.description.as_str());
            push_str(&mut t, "\n\n研究发现：\n");
            let listing = findings_listing(&ch.findings, "\n");
            push_str(&mut t, listing.as_str());
            let ghost before = sviews(parts@);
            let ghost tv = t@;
            parts.push(t);
            assert(sviews(parts@) =~= before.push(tv));
            assert(sviews(parts@) =~= Seq::new((i + 1) as nat, |q: int| chapter_text(chapters@[q])));
            i = i + 1;
        }
        let body = crate::words::join(&parts, "\n\n");
        let mut user = owned("研究问题：");
        push_str(&mut user, question);
        push_str(&mut user, "\n\n大纲：\n");
        push_str(&mut user, outline);
        push_str(&mut user, "\n\n各章节研究发现：\n");
        push_str(&mut user, body.as_str());
        push_str(&mut user, "\n\n交叉校对意见：\n");
        push_str(&mut user, review);
        push_str(&mut user, "\n\n质量评分：");
        push_str(&mut user, quality);
        push_str(&mut user, "\n\n请生成完整的 Typst 研究报告，包含：\n1. 摘要\n2. 研究背景\n3. 各章节正文\n4. 结论与展望\n\n确保章节之间逻辑连贯，交叉校对意见已落实。\n引用请使用 @key 格式。");
        push_str(&mut user, table.as_str());
        Prompt { system: owned("根据多章节大纲和各个章节的研究发现，生成完整的结构化长报告。\n报告使用 Typst 格式，引用必须使用 @key 格式（带 @ 前缀），例如 @kpmg_report23。\n第一行必须是 = 开头的一级标题（报告标题）。\n不要生成参考文献/参考资料章节，系统会自动添加。\n只输出纯 Typst 正文，不要 ```typst 围栏。"), user }
    }

    /// The long report: one section, `"完整报告"`, with the model's text and the URLs the
    /// chapters cite, sorted and each once; its graph lists those URLs as sources (each
    /// titled by its URL, with a fresh identifier) and nothing else; a fresh identifier.
    pub fn long_report(&self, chapters: &Vec<ReportChapter>, quality: QualityTally, title: String, content: String) -> (r: ResearchReport)
        ensures
            r.title == title,
            r.sections@.len() == 1,
            r.sections@[0].heading@ == "完整报告"@,
            r.sections@[0].content == content,
            strictly_sorted(sviews(r.sections@[0].citations@)),
            distinct(sviews(r.sections@[0].citations@)),
            forall|x: Seq<char>| sviews(r.sections@[0].citations@).contains(x) <==> chapter_urls(chapters@).contains(x),
            r.citation_graph.claims@.len() == 0,
            r.citation_graph.edges@.len() == 0,
            r.citation_graph.sources@.len() == r.sections@[0].citations@.len(),
            forall|k: int| 0 <= k < r.citation_graph.sources@.len() ==> {
                &&& (#[trigger] r.citation_graph.sources@[k]).url == r.sections@[0].citations@[k]
                &&& r.citation_graph.sources@[k].title == r.sections@[0].citations@[k]
            },
            r.quality == quality,
            r.argument_skeleton is None,
    {
        let urls = chapter_sources(chapters);
        let citations = sorted_unique(&urls);
        let mut sources: Vec<SourceNode> = Vec::new();
        let mut i: usize = 0;
        while i < citations.len()
            invariant
                i <= citations@.len(),
                sources@.len() == i,
                forall|k: int| 0 <= k < i ==> {
                    &&& (#[trigger] sources@[k]).url == citations@[k]
                    &&& sources@[k].title == citations@[k]
                },
            decreases citations@.len() - i,
        {
            sources.push(SourceNode { id: crate::ids::new_id(), url: citations[i].clone(), title: citations[i].clone() });
            i = i + 1;
        }
        let mut sections: Vec<ReportSection> = Vec::new();
        sections.push(ReportSection { heading: owned("完整报告"), content, citations });
        ResearchReport {
            query_id: crate::ids::new_id(),
            title,
            sections,
            citation_graph: CitationGraph { claims: Vec::new(), sources, edges: Vec::new() },
            quality,
            argument_skeleton: None,
            generated_at: crate::ids::now_timestamp(),
        }
    }
}

/// Every URL the findings cite, in order.
pub fn all_sources(fs: &Vec<Finding>) -> (r: Vec<String>)
    ensures
        sviews(r@) == cited_urls(fs@),
{
    let mut r: Vec<String> = Vec::new();
    let mut i: usize = 0;
    while i < fs.len()
        invariant
            i <= fs@.len(),
            sviews(r@) == cited_urls(fs@.subrange(0, i as int)),
        decreases fs@.len() - i,
    {
        proof {
            assert(fs@.subrange(0, i + 1).drop_last() =~= fs@.subrange(0, i as int));
        }
        crate::words::append_strings(&mut r, &fs[i].sources);
        i = i + 1;
    }
    assert(fs@.subrange(0, fs@.len() as int) =~= fs@);
    r
}

/// Every URL the chapters' findings cite, in order.
pub fn chapter_sources(chs: &Vec<ReportChapter>) -> (r: Vec<String>)
    ensures
        sviews(r@) == chapter_urls(chs@),
{
    let mut r: Vec<String> = Vec::new();
    let mut i: usize = 0;
    while i < chs.len()
        invariant
            i <= chs@.len(),
            sviews(r@) == chapter_urls(chs@.subrange(0, i as int)),
        decreases chs@.len() - i,
    {
        proof {
            assert(chs@.subrange(0, i + 1).drop_last() =~= chs@.subrange(0, i as int));
        }
        let more = all_sources(&chs[i].findings);
        crate::words::append_strings(&mut r, &more);
        i = i + 1;
    }
    assert(chs@.subrange(0, chs@.len() as int) =~= chs@);
    r
}

/// The title of the first source with URL `u`, or the empty text.
fn title_in(sources: &Vec<SourceNode>, u: &str) -> (r: String)
    ensures
        r@ == source_title(sources@, u@),
{
    let mut i: usize = 0;
    assert(sources@.subrange(0, sources@.len() as int) =~= sources@);
    while i < sources.len()
        invariant
            i <= sources@.len(),
            source_title(sources@, u@) == source_title(sources@.subrange(i as int, sources@.len() as int), u@),
        decreases sources@.len() - i,
    {
        assert(sources@.subrange(i as int, sources@.len() as int).drop_first() =~= sources@.subrange(i + 1, sources@.len() as int));
        if crate::text::str_eq(sources[i].url.as_str(), u) {
            return sources[i].title.clone();
        }
        i = i + 1;
    }
    String::new()
}

} // verus!
