//! The synthesizer: it turns extracted pages into findings, summarises long material,
//! and proposes directions for further research.
use vstd::prelude::*;
use crate::fragments::utf8_len;
use crate::json::{array_of, field, milli_of, str_of, JsonValue};
use crate::model::{ExtractedContent, Finding, Prompt, ResearchDirection, SubTask};
use crate::text::{contains_seq, lower, trim};
use crate::words::{decimal, joined, owned, push_str, sviews, take_chars, ws_words};

verus! {

broadcast use vstd::string::group_string_axioms;

/// The agent that synthesises findings; it holds the model client `L`.
pub struct SynthesizerAgent<L> {
    llm: L,
}

/// One extracted page as the summariser sees it: `"[<i>] <title> (<url>)\n"` and the first
/// 1500 characters of its text.
pub open spec fn content_item(i: int, c: ExtractedContent) -> Seq<char> {
    "["@ + decimal(i as nat) + "] "@ + c.title@ + " ("@ + c.url@ + ")\n"@ + take_chars(c.text@, 1500)
}

/// All extracted pages as the summariser sees them, separated by `"\n\n---\n\n"`.
pub open spec fn content_items(cs: Seq<ExtractedContent>) -> Seq<char> {
    joined(Seq::new(cs.len(), |i: int| content_item(i, cs[i])), "\n\n---\n\n"@)
}

/// A page under its Markdown link heading: `"## [<title>](<url>)\n<body>"`.
pub open spec fn source_block(c: ExtractedContent, body: Seq<char>) -> Seq<char> {
    "## ["@ + c.title@ + "]("@ + c.url@ + ")\n"@ + body
}

/// The pages as the synthesiser sees them: each with the first 500 characters of its text,
/// or, when there are summaries, each of the first pages with its summary.
pub open spec fn contents_block(cs: Seq<ExtractedContent>, sums: Seq<Seq<char>>) -> Seq<char> {
    if sums.len() == 0 {
        joined(Seq::new(cs.len(), |i: int| source_block(cs[i], take_chars(cs[i].text@, 500))), "\n\n"@)
    } else {
        let n = if cs.len() < sums.len() { cs.len() } else { sums.len() };
        joined(Seq::new(n, |i: int| source_block(cs[i], sums[i])), "\n\n"@)
    }
}

/// A known finding as the synthesiser sees it: `"- <content>（来源：<urls>）"`.
pub open spec fn known_line(f: Finding) -> Seq<char> {
    "- "@ + f.content@ + "（来源："@ + joined(sviews(f.sources@), ", "@) + "）"@
}

/// The known findings as the synthesiser sees them (nothing when there are none).
pub open spec fn known_block(fs: Seq<Finding>) -> Seq<char> {
    if fs.len() == 0 {
        Seq::empty()
    } else {
        "已有研究发现：\n"@ + joined(Seq::new(fs.len(), |i: int| known_line(fs[i])), "\n"@) + "\n\n"@
    }
}

/// The synthesis request's message.
pub open spec fn synthesis_user(cs: Seq<ExtractedContent>, sums: Seq<Seq<char>>, fs: Seq<Finding>) -> Seq<char> {
    known_block(fs) + "本轮新提取的内容：\n"@ + contents_block(cs, sums) + "\n\n请对照已有研究发现，只输出：\n1. 新信息（已有发现未覆盖的）\n2. 矛盾之处（需要修正已有发现的）\n3. 补充细节（可以丰富已有发现的）\n\n避免重复已有内容。每个发现应包含核心观点和引用来源。\n输出 JSON 格式：{\"findings\": [{\"content\": \"...\", \"sources\": [\"url1\"]}]}"@
}

/// The texts among `items`, in order.
pub open spec fn strings_in(items: Seq<JsonValue>) -> Seq<Seq<char>>
    decreases items.len(),
{
    if items.len() == 0 {
        Seq::empty()
    } else {
        let r = strings_in(items.drop_last());
        match items.last() {
            JsonValue::Str(s) => r.push(s@),
            _ => r,
        }
    }
}

/// The texts of the array under `key` of `v` (none when there is no such array).
pub open spec fn strings_at(v: JsonValue, key: Seq<char>) -> Seq<Seq<char>> {
    match array_of(field(v, key)) {
        Some(items) => strings_in(items),
        None => Seq::empty(),
    }
}

/// The text under `key` of `v`, or the empty text.
pub open spec fn text_at(v: JsonValue, key: Seq<char>) -> Seq<char> {
    match str_of(field(v, key)) {
        Some(s) => s,
        None => Seq::empty(),
    }
}

/// The findings of a reply, as (content, sources) pairs: one per item of its `"findings"`
/// array (none when there is no such array or no reply).
pub open spec fn reply_findings(reply: Option<JsonValue>) -> Seq<(Seq<char>, Seq<Seq<char>>)> {
    match reply {
        Some(v) => match array_of(field(v, "findings"@)) {
            Some(items) => Seq::new(items.len(), |i: int| (text_at(items[i], "content"@), strings_at(items[i], "sources"@))),
            None => Seq::empty(),
        },
        None => Seq::empty(),
    }
}

/// The findings made of the pages themselves when the reply gave none: the first 500
/// characters of each of the first three pages whose excerpt is not blank, with its URL.
pub open spec fn snippet_findings(cs: Seq<ExtractedContent>) -> Seq<(Seq<char>, Seq<Seq<char>>)>
    decreases cs.len(),
{
    if cs.len() == 0 {
        Seq::empty()
    } else {
        let first = cs.take(if cs.len() < 3 { cs.len() as int } else { 3 });
        snippets_of(first)
    }
}

/// The non-blank 500-character excerpts of the pages, with their URLs.
pub open spec fn snippets_of(cs: Seq<ExtractedContent>) -> Seq<(Seq<char>, Seq<Seq<char>>)>
    decreases cs.len(),
{
    if cs.len() == 0 {
        Seq::empty()
    } else {
        let r = snippets_of(cs.drop_last());
        let s = take_chars(cs.last().text@, 500);
        if trim(s).len() > 0 {
            r.push((s, seq![cs.last().url@]))
        } else {
            r
        }
    }
}

/// The findings that a synthesis yields (see `reply_findings` and `snippet_findings`).
pub open spec fn synthesized(reply: Option<JsonValue>, cs: Seq<ExtractedContent>) -> Seq<(Seq<char>, Seq<Seq<char>>)> {
    let parsed = reply_findings(reply);
    if parsed.len() == 0 && cs.len() > 0 {
        snippet_findings(cs)
    } else {
        parsed
    }
}

/// The excerpt of a page that stands for it when the model gives no finding: its first 500
/// characters, with its URL as the only source.
pub open spec fn excerpt_of(c: ExtractedContent) -> (Seq<char>, Seq<Seq<char>>) {
    (take_chars(c.text@, 500), seq![c.url@])
}

/// `f` is the excerpt of page `c` (see `excerpt_of`).
pub open spec fn is_excerpt_of(f: (Seq<char>, Seq<Seq<char>>), c: ExtractedContent) -> bool {
    f == excerpt_of(c)
}

/// `f` is the non-blank excerpt of one of the first three pages of `cs`.
pub open spec fn from_first_pages(f: (Seq<char>, Seq<Seq<char>>), cs: Seq<ExtractedContent>) -> bool {
    exists|j: int| 0 <= j < cs.len() && j < 3 && is_excerpt_of(f, #[trigger] cs[j])
        && trim(take_chars(cs[j].text@, 500)).len() > 0
}

/// Each of the findings `r` is the non-blank excerpt of one of the first three pages of `cs`.
pub open spec fn each_from_first_pages(r: Seq<(Seq<char>, Seq<Seq<char>>)>, cs: Seq<ExtractedContent>) -> bool {
    forall|k: int| 0 <= k < r.len() ==> from_first_pages(#[trigger] r[k], cs)
}

proof fn lemma_snippets_of(cs: Seq<ExtractedContent>)
    ensures
        forall|k: int| 0 <= k < snippets_of(cs).len() ==> exists|j: int|
            0 <= j < cs.len() && is_excerpt_of(#[trigger] snippets_of(cs)[k], #[trigger] cs[j])
                && trim(take_chars(cs[j].text@, 500)).len() > 0,
        forall|j: int| 0 <= j < cs.len() && trim(take_chars((#[trigger] cs[j]).text@, 500)).len() > 0
            ==> snippets_of(cs).contains(excerpt_of(cs[j])),
    decreases cs.len(),
{
    if cs.len() > 0 {
        let init = cs.drop_last();
        lemma_snippets_of(init);
        let r = snippets_of(init);
        let sn = snippets_of(cs);
        let last = cs.len() - 1;
        assert(cs[last] == cs.last());
        assert forall|k: int| 0 <= k < sn.len() implies exists|j: int|
            0 <= j < cs.len() && is_excerpt_of(#[trigger] sn[k], #[trigger] cs[j])
                && trim(take_chars(cs[j].text@, 500)).len() > 0 by {
            if k < r.len() {
                assert(sn[k] == r[k]);
                let j = choose|j: int| 0 <= j < init.len() && is_excerpt_of(#[trigger] r[k], #[trigger] init[j])
                    && trim(take_chars(init[j].text@, 500)).len() > 0;
                assert(init[j] == cs[j]);
                assert(is_excerpt_of(sn[k], cs[j]));
            } else {
                assert(is_excerpt_of(sn[k], cs[last]));
            }
        }
        assert forall|j: int| 0 <= j < cs.len() && trim(take_chars((#[trigger] cs[j]).text@, 500)).len() > 0
            implies sn.contains(excerpt_of(cs[j])) by {
            if j < last {
                assert(init[j] == cs[j]);
                assert(r.contains(excerpt_of(init[j])));
                let k = choose|k: int| 0 <= k < r.len() && r[k] == excerpt_of(init[j]);
                assert(sn[k] == r[k]);
            } else {
                assert(sn[sn.len() - 1] == excerpt_of(cs[last]));
            }
        }
    }
}

/// When the model's reply yields no finding (there is no reply, it has no `"findings"`
/// array, or the array is empty) and there are pages, the findings are the excerpts of the
/// first three pages (see `excerpt_of`): each finding is the excerpt of one of them, and
/// every one of them whose excerpt is not blank gives a finding. So the findings are none
/// only when all of those excerpts are blank.
pub proof fn law_excerpts_when_reply_gives_none(reply: Option<JsonValue>, cs: Seq<ExtractedContent>)
    requires
        match reply {
            None => true,
            Some(v) => match array_of(field(v, "findings"@)) {
                None => true,
                Some(items) => items.len() == 0,
            },
        },
        cs.len() > 0,
    ensures
        each_from_first_pages(synthesized(reply, cs), cs),
        forall|j: int| 0 <= j < cs.len() && j < 3 && trim(take_chars((#[trigger] cs[j]).text@, 500)).len() > 0
            ==> synthesized(reply, cs).contains(excerpt_of(cs[j])),
        synthesized(reply, cs).len() == 0 ==> forall|j: int| 0 <= j < cs.len() && j < 3
            ==> trim(take_chars((#[trigger] cs[j]).text@, 500)).len() == 0,
{
    assert(reply_findings(reply).len() == 0);
    let m: int = if cs.len() < 3 { cs.len() as int } else { 3 };
    let first = cs.take(m);
    lemma_snippets_of(first);
    let r = synthesized(reply, cs);
    assert(r == snippets_of(first));
    assert forall|k: int| 0 <= k < r.len() implies from_first_pages(#[trigger] r[k], cs) by {
        let sn = snippets_of(first);
        assert(sn[k] == r[k]);
        let j = choose|j: int| 0 <= j < first.len() && is_excerpt_of(#[trigger] sn[k], #[trigger] first[j])
            && trim(take_chars(first[j].text@, 500)).len() > 0;
        assert(first[j] == cs[j]);
        assert(j < m && m <= 3);
        assert(is_excerpt_of(r[k], cs[j]));
    }
    assert(each_from_first_pages(r, cs));
    assert forall|j: int| 0 <= j < cs.len() && j < 3 && trim(take_chars((#[trigger] cs[j]).text@, 500)).len() > 0
        implies r.contains(excerpt_of(cs[j])) by {
        assert(first[j] == cs[j]);
    }
    if r.len() == 0 {
        assert forall|j: int| 0 <= j < cs.len() && j < 3 implies trim(take_chars((#[trigger] cs[j]).text@, 500)).len() == 0 by {
            if trim(take_chars(cs[j].text@, 500)).len() > 0 {
                assert(first[j] == cs[j]);
                assert(r.contains(excerpt_of(cs[j])));
            }
        }
    }
}

/// The words of a sub-task that count for its coverage: those of more than two bytes in
/// its lower-cased description.
pub open spec fn coverage_words(ws: Seq<Seq<char>>) -> Seq<Seq<char>>
    decreases ws.len(),
{
    if ws.len() == 0 {
        ws
    } else {
        let r = coverage_words(ws.drop_last());
        if utf8_len(ws.last()) > 2 {
            r.push(ws.last())
        } else {
            r
        }
    }
}

/// Whether a finding covers a sub-task: the sub-task has no word that counts, or its
/// lower-cased content holds one of them.
pub open spec fn finding_covers(desc: Seq<char>, f: Finding) -> bool {
    let kw = coverage_words(ws_words(lower(desc)));
    kw.len() == 0 || exists|k: int| 0 <= k < kw.len() && contains_seq(lower(f.content@), #[trigger] kw[k])
}

/// Whether some finding covers the sub-task.
pub open spec fn task_covered(desc: Seq<char>, fs: Seq<Finding>) -> bool {
    exists|k: int| 0 <= k < fs.len() && finding_covers(desc, #[trigger] fs[k])
}

/// A sub-task's coverage line: `"  <description>: "` and a mark.
pub open spec fn coverage_line(t: SubTask, fs: Seq<Finding>) -> Seq<char> {
    "  "@ + t.description@ + ": "@ + if task_covered(t.description@, fs) {
        "✅ 已有发现"@
    } else {
        "❌ 未覆盖"@
    }
}

/// The coverage of the sub-tasks, when they are given (nothing otherwise).
pub open spec fn coverage_block(ts: Option<Seq<SubTask>>, fs: Seq<Finding>) -> Seq<char> {
    match ts {
        Some(ts) => "\n子任务覆盖情况：\n"@ + joined(Seq::new(ts.len(), |i: int| coverage_line(ts[i], fs)), "\n"@) + "\n"@,
        None => Seq::empty(),
    }
}

/// A finding as the direction finder sees it: `"- <content> (来源: <urls>)"`.
pub open spec fn direction_line(f: Finding) -> Seq<char> {
    "- "@ + f.content@ + " (来源: "@ + joined(sviews(f.sources@), ", "@) + ")"@
}

/// The direction request's message.
pub open spec fn directions_user(q: Seq<char>, fs: Seq<Finding>, ts: Option<Seq<SubTask>>) -> Seq<char> {
    "研究问题："@ + q + "\n"@ + coverage_block(ts, fs) + "\n当前已有发现：\n"@
        + joined(Seq::new(fs.len(), |i: int| direction_line(fs[i])), "\n"@) + "\n\n请分析以上信息，找出 1-3 个需要进一步探索的研究方向。优先关注尚未覆盖的子任务。每个方向应包含：描述（direction）、理由（rationale）、优先级（priority, 0-1）。\n输出 JSON 格式：\n{\"directions\": [{\"description\": \"...\", \"rationale\": \"...\", \"priority\": 0.8}]}"@
}

/// The directions of a reply: one per item of its `"directions"` array, with its texts
/// (empty when missing) and its priority in thousandths (500 when it is no number).
pub open spec fn reply_directions(reply: Option<JsonValue>) -> Seq<(Seq<char>, Seq<char>, i64)> {
    match reply {
        Some(v) => match array_of(field(v, "directions"@)) {
            Some(items) => Seq::new(items.len(), |i: int| (
                text_at(items[i], "description"@),
                text_at(items[i], "rationale"@),
                match milli_of(field(items[i], "priority"@)) {
                    Some(m) => m,
                    None => 500i64,
                },
            )),
            None => Seq::empty(),
        },
        None => Seq::empty(),
    }
}

/// The texts of a JSON array, in order.
pub fn texts_of(items: &Vec<JsonValue>) -> (r: Vec<String>)
    ensures
        sviews(r@) == strings_in(items@),
{
    let mut r: Vec<String> = Vec::new();
    let mut i: usize = 0;
    while i < items.len()
        invariant
            i <= items@.len(),
            sviews(r@) == strings_in(items@.subrange(0, i as int)),
        decreases items@.len() - i,
    {
        proof {
            assert(items@.subrange(0, i + 1).drop_last() =~= items@.subrange(0, i as int));
        }
        match &items[i] {
            JsonValue::Str(s) => {
                let ghost before = sviews(r@);
                r.push(s.clone());
                assert(sviews(r@) =~= before.push(s@));
            },
            _ => {},
        }
        i = i + 1;
    }
    assert(items@.subrange(0, items@.len() as int) =~= items@);
    r
}

/// The texts of the array under `key` of `v`.
pub fn texts_at(v: &JsonValue, key: &str) -> (r: Vec<String>)
    ensures
        sviews(r@) == strings_at(*v, key@),
{
    match v.get(key) {
        Some(a) => match a.as_array() {
            Some(items) => texts_of(items),
            None => Vec::new(),
        },
        None => Vec::new(),
    }
}

/// The text under `key` of `v`, or the empty text.
pub fn text_under(v: &JsonValue, key: &str) -> (r: String)
    ensures
        r@ == text_at(*v, key@),
{
    match v.get(key) {
        Some(x) => match x.as_str() {
            Some(s) => s.clone(),
            None => String::new(),
        },
        None => String::new(),
    }
}

/// Whether the words that count for a sub-task's coverage are all absent from a text:
/// the index of the first one that the text holds.
fn covers(kw: &Vec<Vec<char>>, content: &Vec<char>) -> (r: bool)
    ensures
        r == (exists|k: int| 0 <= k < kw@.len() && contains_seq(content@, #[trigger] crate::fragments::vviews(kw@)[k])),
{
    let mut k: usize = 0;
    while k < kw.len()
        invariant
            k <= kw@.len(),
            forall|m: int| 0 <= m < k ==> !contains_seq(content@, #[trigger] crate::fragments::vviews(kw@)[m]),
        decreases kw@.len() - k,
    {
        if crate::text::contains_chars(content, &kw[k]) {
            assert(crate::fragments::vviews(kw@)[k as int] == kw@[k as int]@);
            return true;
        }
        assert(crate::fragments::vviews(kw@)[k as int] == kw@[k as int]@);
        k = k + 1;
    }
    false
}

/// Whether some finding covers the sub-task described by `desc`.
fn is_covered(desc: &String, fs: &Vec<Finding>) -> (r: bool)
    ensures
        r == task_covered(desc@, fs@),
{
    let d = crate::fragments::lower_chars(&crate::text::chars_of(desc.as_str()));
    let words = crate::words::split_ws(&d);
    let ghost ws = crate::fragments::vviews(words@);
    let mut kw: Vec<Vec<char>> = Vec::new();
    let mut i: usize = 0;
    while i < words.len()
        invariant
            i <= words@.len(),
            ws == crate::fragments::vviews(words@),
            crate::fragments::vviews(kw@) == coverage_words(ws.subrange(0, i as int)),
        decreases words@.len() - i,
    {
        proof {
            assert(ws.subrange(0, i + 1).drop_last() =~= ws.subrange(0, i as int));
        }
        let n = crate::words::byte_len(&words[i]);
        if n > 2 {
            let ghost before = crate::fragments::vviews(kw@);
            let w = crate::fragments::copy_chars(&words[i]);
            kw.push(w);
            assert(crate::fragments::vviews(kw@) =~= before.push(ws[i as int]));
        }
        i = i + 1;
    }
    assert(ws.subrange(0, ws.len() as int) =~= ws);
    let mut k: usize = 0;
    while k < fs.len()
        invariant
            k <= fs@.len(),
            crate::fragments::vviews(kw@) == coverage_words(ws_words(lower(desc@))),
            forall|m: int| 0 <= m < k ==> !finding_covers(desc@, #[trigger] fs@[m]),
        decreases fs@.len() - k,
    {
        if kw.len() == 0 {
            assert(finding_covers(desc@, fs@[k as int]));
            return true;
        }
        let content = crate::fragments::lower_chars(&crate::text::chars_of(fs[k].content.as_str()));
        if covers(&kw, &content) {
            assert(finding_covers(desc@, fs@[k as int]));
            return true;
        }
        k = k + 1;
    }
    false
}

impl<L> SynthesizerAgent<L> {
    /// An agent that asks `llm`.
    pub fn new(llm: L) -> (r: Self)
        ensures
            r.llm() == llm,
    {
        SynthesizerAgent { llm }
    }

    /// The model client the agent asks.
    pub closed spec fn llm(&self) -> L {
        self.llm
    }

    /// The model client the agent asks.
    pub fn client(&self) -> (r: &L)
        ensures
            *r == self.llm(),
    {
        &self.llm
    }

    /// All extracted pages as the summariser sees them (see `content_items`).
    pub fn content_items(&self, contents: &Vec<ExtractedContent>) -> (r: String)
        ensures
            r@ == content_items(contents@),
    {
        let mut items: Vec<String> = Vec::new();
        let mut i: usize = 0;
        while i < contents.len()
            invariant
                i <= contents@.len(),
                sviews(items@) == Seq::new(i as nat, |k: int| content_item(k, contents@[k])),
            decreases contents@.len() - i,
        {
            let c = &contents[i];
            let mut s = owned("[");
            let d = crate::words::decimal_text(i as u64);
            push_str(&mut s, d.as_str());
            push_str(&mut s, "] ");
            push_str(&mut s, c.title.as_str());
            push_str(&mut s, " (");
            push_str(&mut s, c.url.as_str());
            push_str(&mut s, ")\n");
            let text = crate::words::take_text(c.text.as_str(), 1500);
            push_str(&mut s, text.as_str());
            let ghost before = sviews(items@);
            let ghost sv = s@;
            items.push(s);
            assert(sviews(items@) =~= before.push(sv));
            assert(sviews(items@) =~= Seq::new((i + 1) as nat, |k: int| content_item(k, contents@[k])));
            i = i + 1;
        }
        crate::words::join(&items, "\n\n---\n\n")
    }

    /// Whether the pages are summarised before the synthesis: when there are pages and
    /// together they take more than 5000 bytes.
    pub fn needs_summary(&self, contents: &Vec<ExtractedContent>, items: &String) -> (r: bool)
        requires
            items@ == content_items(contents@),
        ensures
            r == (contents@.len() > 0 && utf8_len(content_items(contents@)) > 5000),
    {
        contents.len() > 0 && crate::words::text_byte_len(items.as_str()) > 5000
    }

    /// The request that asks for a summary of each page.
    pub fn summary_prompt(&self, items: &str) -> (r: Prompt)
        ensures
            r.system@ == "你是一个研究摘要专家。请为以下每条信息提炼核心观点，确保每条摘要包含关键数据、结论和技术要点。按原文返回对应数量。\n输出 JSON 格式：{\"summaries\": [\"摘要1\", \"摘要2\", ...]}"@,
            r.user@ == "请为以下每条信息生成简明摘要（每条 100-200 字），保留核心数据和结论：\n\n"@ + items@,
    {
        let mut user = owned("请为以下每条信息生成简明摘要（每条 100-200 字），保留核心数据和结论：\n\n");
        push_str(&mut user, items);
        Prompt { system: owned("你是一个研究摘要专家。请为以下每条信息提炼核心观点，确保每条摘要包含关键数据、结论和技术要点。按原文返回对应数量。\n输出 JSON 格式：{\"summaries\": [\"摘要1\", \"摘要2\", ...]}"), user }
    }

    /// The summaries in a reply: the texts of its `"summaries"` array (none without a reply).
    pub fn summaries_from_reply(&self, reply: Option<&JsonValue>) -> (r: Vec<String>)
        ensures
            sviews(r@) == (match reply {
                Some(v) => strings_at(*v, "summaries"@),
                None => Seq::empty(),
            }),
    {
        match reply {
            Some(v) => texts_at(v, "summaries"),
            None => Vec::new(),
        }
    }

    /// The request that asks for new findings in the pages, given the findings known.
    pub fn synthesis_prompt(&self, contents: &Vec<ExtractedContent>, summaries: &Vec<String>, existing: &Vec<Finding>) -> (r: Prompt)
        ensures
            r.system@ == "你是一个信息综合专家。你的任务是将本轮新提取的内容与已有研究发现进行比对，只关注新信息、矛盾点和补充细节，避免重复已有内容。只输出纯 JSON，不要 markdown 格式、不要代码块、不要其他文字。"@,
            r.user@ == synthesis_user(contents@, sviews(summaries@), existing@),
    {
        let mut blocks: Vec<String> = Vec::new();
        let n = if summaries.len() == 0 {
            contents.len()
        } else if contents.len() < summaries.len() {
            contents.len()
        } else {
            summaries.len()
        };
        let mut i: usize = 0;
        while i < n
            invariant
                i <= n,
                n <= contents@.len(),
                summaries@.len() > 0 ==> n <= summaries@.len(),
                sviews(blocks@) == Seq::new(i as nat, |k: int| source_block(
                    contents@[k],
                    if summaries@.len() == 0 { take_chars(contents@[k].text@, 500) } else { summaries@[k]@ },
                )),
            decreases n - i,
        {
            let c = &contents[i];
            let mut s = owned("## [");
            push_str(&mut s, c.title.as_str());
            push_str(&mut s, "](");
            push_str(&mut s, c.url.as_str());
            push_str(&mut s, ")\n");
            if summaries.len() == 0 {
                let text = crate::words::take_text(c.text.as_str(), 500);
                push_str(&mut s, text.as_str());
            } else {
                push_str(&mut s, summaries[i].as_str());
            }
            let ghost before = sviews(blocks@);
            let ghost sv = s@;
            blocks.push(s);
            assert(sviews(blocks@) =~= before.push(sv));
            assert(sviews(blocks@) =~= Seq::new((i + 1) as nat, |k: int| source_block(
                contents@[k],
                if summaries@.len() == 0 { take_chars(contents@[k].text@, 500) } else { summaries@[k]@ },
            )));
            i = i + 1;
        }
        proof {
            if summaries@.len() == 0 {
                assert(sviews(blocks@) =~= Seq::new(contents@.len(), |k: int| source_block(contents@[k], take_chars(contents@[k].text@, 500))));
            } else {
                assert(sviews(blocks@) =~= Seq::new(n as nat, |k: int| source_block(contents@[k], sviews(summaries@)[k])));
            }
        }
        let contents_str = crate::words::join(&blocks, "\n\n");
        let mut user = String::new();
        if existing.len() > 0 {
            let mut lines: Vec<String> = Vec::new();
            let mut j: usize = 0;
            while j < existing.len()
                invariant
                    j <= existing@.len(),
                    sviews(lines@) == Seq::new(j as nat, |k: int| known_line(existing@[k])),
                decreases existing@.len() - j,
            {
                let f = &existing[j];
                let mut s = owned("- ");
                push_str(&mut s, f.content.as_str());
                push_str(&mut s, "（来源：");
                let urls = crate::words::join(&f.sources, ", ");
                push_str(&mut s, urls.as_str());
                push_str(&mut s, "）");
                let ghost before = sviews(lines@);
                let ghost sv = s@;
                lines.push(s);
                assert(sviews(lines@) =~= before.push(sv));
                assert(sviews(lines@) =~= Seq::new((j + 1) as nat, |k: int| known_line(existing@[k])));
                j = j + 1;
            }
            let body = crate::words::join(&lines, "\n");
            push_str(&mut user, "已有研究发现：\n");
            push_str(&mut user, body.as_str());
            push_str(&mut user, "\n\n");
        }
        push_str(&mut user, "本轮新提取的内容：\n");
        push_str(&mut user, contents_str.as_str());
        push_str(&mut user, "\n\n请对照已有研究发现，只输出：\n1. 新信息（已有发现未覆盖的）\n2. 矛盾之处（需要修正已有发现的）\n3. 补充细节（可以丰富已有发现的）\n\n避免重复已有内容。每个发现应包含核心观点和引用来源。\n输出 JSON 格式：{\"findings\": [{\"content\": \"...\", \"sources\": [\"url1\"]}]}");
        proof {
            if existing@.len() == 0 {
                assert(known_block(existing@) =~= Seq::<char>::empty());
            }
        }
        Prompt { system: owned("你是一个信息综合专家。你的任务是将本轮新提取的内容与已有研究发现进行比对，只关注新信息、矛盾点和补充细节，避免重复已有内容。只输出纯 JSON，不要 markdown 格式、不要代码块、不要其他文字。"), user }
    }

    /// The findings of a synthesis: those of the reply (`None` when the model's reply was no
    /// JSON), each tied to the sub-task and iteration, or, when it gave none, excerpts of
    /// the pages (see `synthesized`). Each finding gets a fresh identifier.
    pub fn findings_from_reply(&self, reply: Option<&JsonValue>, contents: &Vec<ExtractedContent>, sub_task_id: u128, iteration: usize) -> (r: Vec<Finding>)
        ensures
            ({
                let expected = synthesized(match reply { Some(v) => Some(*v), None => None }, contents@);
                &&& r@.len() == expected.len()
                &&& forall|k: int| 0 <= k < r@.len() ==> {
                    &&& (#[trigger] r@[k]).content@ == expected[k].0
                    &&& sviews(r@[k].sources@) == expected[k].1
                    &&& r@[k].sub_task_id == Some(sub_task_id)
                    &&& r@[k].iteration == iteration
                    &&& r@[k].epistemic_status is None
                }
            }),
    {
        let ghost rv = match reply { Some(v) => Some(*v), None => None };
        let mut r: Vec<Finding> = Vec::new();
        let items: Option<&Vec<JsonValue>> = match reply {
            Some(v) => match v.get("findings") {
                Some(a) => a.as_array(),
                None => None,
            },
            None => None,
        };
        match items {
            Some(items) => {
                let mut i: usize = 0;
                while i < items.len()
                    invariant
                        i <= items@.len(),
                        reply_findings(rv) == Seq::new(items@.len(), |k: int| (text_at(items@[k], "content"@), strings_at(items@[k], "sources"@))),
                        r@.len() == i,
                        forall|k: int| 0 <= k < i ==> {
                            &&& (#[trigger] r@[k]).content@ == reply_findings(rv)[k].0
                            &&& sviews(r@[k].sources@) == reply_findings(rv)[k].1
                            &&& r@[k].sub_task_id == Some(sub_task_id)
                            &&& r@[k].iteration == iteration
                            &&& r@[k].epistemic_status is None
                        },
                    decreases items@.len() - i,
                {
                    let v = &items[i];
                    let content = text_under(v, "content");
                    let sources = texts_at(v, "sources");
                    r.push(Finding {
                        id: crate::ids::new_id(),
                        content,
                        sources,
                        sub_task_id: Some(sub_task_id),
                        iteration,
                        epistemic_status: None,
                    });
                    i = i + 1;
                }
            },
            None => {
                assert(reply_findings(rv) =~= Seq::<(Seq<char>, Seq<Seq<char>>)>::empty());
            },
        }
        if r.len() > 0 || contents.len() == 0 {
            return r;
        }
        let take = if contents.len() < 3 { contents.len() } else { 3 };
        let ghost first = contents@.take(take as int);
        assert(snippet_findings(contents@) == snippets_of(first));
        let mut out: Vec<Finding> = Vec::new();
        let mut j: usize = 0;
        while j < take
            invariant
                j <= take <= contents@.len(),
                first == contents@.take(take as int),
                out@.len() == snippets_of(first.subrange(0, j as int)).len(),
                forall|k: int| 0 <= k < out@.len() ==> {
                    &&& (#[trigger] out@[k]).content@ == snippets_of(first.subrange(0, j as int))[k].0
                    &&& sviews(out@[k].sources@) == snippets_of(first.subrange(0, j as int))[k].1
                    &&& out@[k].sub_task_id == Some(sub_task_id)
                    &&& out@[k].iteration == iteration
                    &&& out@[k].epistemic_status is None
                },
            decreases take - j,
        {
            proof {
                assert(first.subrange(0, j + 1).drop_last() =~= first.subrange(0, j as int));
                assert(first.subrange(0, j + 1).last() == contents@[j as int]);
            }
            let c = &contents[j];
            let snippet = crate::words::take_text(c.text.as_str(), 500);
            let t = crate::text::trim_text(snippet.as_str());
            if !t.as_str().is_empty() {
                let mut sources: Vec<String> = Vec::new();
                sources.push(c.url.clone());
                assert(sviews(sources@) =~= seq![c.url@]);
                out.push(Finding {
                    id: crate::ids::new_id(),
                    content: snippet,
                    sources,
                    sub_task_id: Some(sub_task_id),
                    iteration,
                    epistemic_status: None,
                });
            }
            j = j + 1;
        }
        assert(first.subrange(0, take as int) =~= first);
        out
    }

    /// The request that asks for directions worth exploring, given the findings and, when
    /// known, the sub-tasks and whether each is covered.
    pub fn directions_prompt(&self, question: &str, findings: &Vec<Finding>, sub_tasks: Option<&Vec<SubTask>>) -> (r: Prompt)
        ensures
            r.system@ == "你是一个研究方向识别专家。你的任务是分析当前已知信息和子任务覆盖情况，找出知识盲区和值得进一步深入探索的方向。优先关注尚未覆盖的子任务。只输出纯 JSON，不要 markdown 格式、不要代码块、不要其他文字。"@,
            r.user@ == directions_user(question@, findings@, match sub_tasks { Some(ts) => Some(ts@), None => None }),
    {
        let mut lines: Vec<String> = Vec::new();
        let mut j: usize = 0;
        while j < findings.len()
            invariant
                j <= findings@.len(),
                sviews(lines@) == Seq::new(j as nat, |k: int| direction_line(findings@[k])),
            decreases findings@.len() - j,
        {
            let f = &findings[j];
            let mut s = owned("- ");
            push_str(&mut s, f.content.as_str());
            push_str(&mut s, " (来源: ");
            let urls = crate::words::join(&f.sources, ", ");
            push_str(&mut s, urls.as_str());
            push_str(&mut s, ")");
            let ghost before = sviews(lines@);
            let ghost sv = s@;
            lines.push(s);
            assert(sviews(lines@) =~= before.push(sv));
            assert(sviews(lines@) =~= Seq::new((j + 1) as nat, |k: int| direction_line(findings@[k])));
            j = j + 1;
        }
        let findings_str = crate::words::join(&lines, "\n");
        let mut coverage = String::new();
        match sub_tasks {
            Some(ts) => {
                let mut cl: Vec<String> = Vec::new();
                let mut i: usize = 0;
                while i < ts.len()
                    invariant
                        i <= ts@.len(),
                        sviews(cl@) == Seq::new(i as nat, |k: int| coverage_line(ts@[k], findings@)),
                    decreases ts@.len() - i,
                {
                    let mut s = owned("  ");
                    push_str(&mut s, ts[i].description.as_str());
                    push_str(&mut s, ": ");
                    if is_covered(&ts[i].description, findings) {
                        push_str(&mut s, "✅ 已有发现");
                    } else {
                        push_str(&mut s, "❌ 未覆盖");
                    }
                    let ghost before = sviews(cl@);
                    let ghost sv = s@;
                    cl.push(s);
                    assert(sviews(cl@) =~= before.push(sv));
                    assert(sviews(cl@) =~= Seq::new((i + 1) as nat, |k: int| coverage_line(ts@[k], findings@)));
                    i = i + 1;
                }
                let body = crate::words::join(&cl, "\n");
                push_str(&mut coverage, "\n子任务覆盖情况：\n");
                push_str(&mut coverage, body.as_str());
                push_str(&mut coverage, "\n");
            },
            None => {},
        }
        let mut user = owned("研究问题：");
        push_str(&mut user, question);
        push_str(&mut user, "\n");
        push_str(&mut user, coverage.as_str());
        push_str(&mut user, "\n当前已有发现：\n");
        push_str(&mut user, findings_str.as_str());
        push_str(&mut user, "\n\n请分析以上信息，找出 1-3 个需要进一步探索的研究方向。优先关注尚未覆盖的子任务。每个方向应包含：描述（direction）、理由（rationale）、优先级（priority, 0-1）。\n输出 JSON 格式：\n{\"directions\": [{\"description\": \"...\", \"rationale\": \"...\", \"priority\": 0.8}]}");
        proof {
            if sub_tasks is None {
                assert(coverage@ =~= Seq::<char>::empty());
            }
        }
        Prompt { system: owned("你是一个研究方向识别专家。你的任务是分析当前已知信息和子任务覆盖情况，找出知识盲区和值得进一步深入探索的方向。优先关注尚未覆盖的子任务。只输出纯 JSON，不要 markdown 格式、不要代码块、不要其他文字。"), user }
    }

    /// The directions of a reply (see `reply_directions`; `None` when the reply was no JSON).
    pub fn directions_from_reply(&self, reply: Option<&JsonValue>) -> (r: Vec<ResearchDirection>)
        ensures
            ({
                let expected = reply_directions(match reply { Some(v) => Some(*v), None => None });
                &&& r@.len() == expected.len()
                &&& forall|k: int| 0 <= k < r@.len() ==> {
                    &&& (#[trigger] r@[k]).description@ == expected[k].0
                    &&& r@[k].rationale@ == expected[k].1
                    &&& r@[k].priority_milli == expected[k].2
                }
            }),
    {
        let ghost rv = match reply { Some(v) => Some(*v), None => None };
        let mut r: Vec<ResearchDirection> = Vec::new();
        let items: Option<&Vec<JsonValue>> = match reply {
            Some(v) => match v.get("directions") {
                Some(a) => a.as_array(),
                None => None,
            },
            None => None,
        };
        match items {
            Some(items) => {
                let mut i: usize = 0;
                while i < items.len()
                    invariant
                        i <= items@.len(),
                        reply_directions(rv).len() == items@.len(),
                        forall|k: int| 0 <= k < items@.len() ==> #[trigger] reply_directions(rv)[k] == (
                            text_at(items@[k], "description"@),
                            text_at(items@[k], "rationale"@),
                            match milli_of(field(items@[k], "priority"@)) {
                                Some(m) => m,
                                None => 500i64,
                            },
                        ),
                        r@.len() == i,
                        forall|k: int| 0 <= k < i ==> {
                            &&& (#[trigger] r@[k]).description@ == reply_directions(rv)[k].0
                            &&& r@[k].rationale@ == reply_directions(rv)[k].1
                            &&& r@[k].priority_milli == reply_directions(rv)[k].2
                        },
                    decreases items@.len() - i,
                {
                    let v = &items[i];
                    let description = text_under(v, "description");
                    let rationale = text_under(v, "rationale");
                    let priority_milli = match v.get("priority") {
                        Some(p) => match p.as_milli() {
                            Some(m) => m,
                            None => 500,
                        },
                        None => 500,
                    };
                    assert(reply_directions(rv)[i as int] == (
                        text_at(items@[i as int], "description"@),
                        text_at(items@[i as int], "rationale"@),
                        match milli_of(field(items@[i as int], "priority"@)) {
                            Some(m) => m,
                            None => 500i64,
                        },
                    ));
                    r.push(ResearchDirection { description, rationale, priority_milli });
                    i = i + 1;
                }
            },
            None => {},
        }
        r
    }
}

} // verus!
