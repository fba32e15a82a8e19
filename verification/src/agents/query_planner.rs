//! The query planner: it asks the model for search queries for a sub-task and reads them
//! out of the model's JSON, cleaned, without case-insensitive repeats and at most fifteen
//! words long.
use vstd::prelude::*;
use crate::agents::synthesizer::text_at;
use crate::json::{array_of, field, str_of, JsonValue};
use crate::model::{Error, Prompt};
use crate::text::{lower, trim};
use crate::words::{joined, owned, push_str, sviews, take_chars, ws_words};

verus! {

broadcast use vstd::string::group_string_axioms;

/// The non-empty trimmed texts among the items, in order.
pub open spec fn raw_queries(items: Seq<JsonValue>) -> Seq<Seq<char>>
    decreases items.len(),
{
    if items.len() == 0 {
        Seq::empty()
    } else {
        let r = raw_queries(items.drop_last());
        match items.last() {
            JsonValue::Str(s) => if trim(s@).len() > 0 {
                r.push(trim(s@))
            } else {
                r
            },
            _ => r,
        }
    }
}

/// The queries that are not, ignoring case, a repeat of an earlier one.
pub open spec fn first_by_lower(qs: Seq<Seq<char>>) -> Seq<Seq<char>>
    decreases qs.len(),
{
    if qs.len() == 0 {
        Seq::empty()
    } else {
        let r = first_by_lower(qs.drop_last());
        if exists|k: int| 0 <= k < qs.len() - 1 && lower(#[trigger] qs[k]) == lower(qs.last()) {
            r
        } else {
            r.push(qs.last())
        }
    }
}

/// A query cut to its first fifteen words, joined by single spaces.
pub open spec fn capped(q: Seq<char>) -> Seq<char> {
    let ws = ws_words(q);
    joined(if ws.len() <= 15 { ws } else { ws.take(15) }, " "@)
}

/// The queries of a reply (see `raw_queries`, `first_by_lower`, `capped`).
pub open spec fn reply_queries(parsed: JsonValue) -> Seq<Seq<char>> {
    let qs = match array_of(field(parsed, "queries"@)) {
        Some(items) => first_by_lower(raw_queries(items)),
        None => Seq::empty(),
    };
    Seq::new(qs.len(), |i: int| capped(qs[i]))
}

/// The search categories of a reply: its trimmed `"categories"` text, or `"general"` when
/// that is missing or blank.
pub open spec fn reply_categories(parsed: JsonValue) -> Seq<char> {
    match str_of(field(parsed, "categories"@)) {
        Some(s) => if trim(s).len() > 0 {
            trim(s)
        } else {
            "general"@
        },
        None => "general"@,
    }
}

/// The agent that plans search queries; it holds the model client `L`.
pub struct QueryPlannerAgent<L> {
    llm: L,
}

/// A query cut to its first fifteen words (see `capped`).
fn cap_words(q: &String) -> (r: String)
    ensures
        r@ == capped(q@),
{
    let words = crate::words::words_of_text(q.as_str());
    let mut kept: Vec<String> = Vec::new();
    let mut i: usize = 0;
    let n = if words.len() <= 15 { words.len() } else { 15 };
    while i < n
        invariant
            i <= n <= words@.len(),
            sviews(kept@) == sviews(words@).subrange(0, i as int),
        decreases n - i,
    {
        let ghost before = sviews(kept@);
        kept.push(words[i].clone());
        assert(sviews(kept@) =~= before.push(words@[i as int]@));
        assert(sviews(kept@) =~= sviews(words@).subrange(0, i + 1));
        i = i + 1;
    }
    proof {
        if words@.len() <= 15 {
            assert(sviews(words@).subrange(0, n as int) =~= sviews(words@));
        } else {
            assert(sviews(words@).subrange(0, 15) =~= sviews(words@).take(15));
        }
    }
    crate::words::join(&kept, " ")
}

impl<L> QueryPlannerAgent<L> {
    /// An agent that asks `llm`.
    pub fn new(llm: L) -> (r: Self)
        ensures
            r.llm() == llm,
    {
        QueryPlannerAgent { llm }
    }

    /// The model client the agent asks.
    pub closed spec fn llm(&self) -> L {
        self.llm
    }

    /// The model client the agent asks.
    pub fn client(&self) -> (r: &L)
        ensures
            *r == self.llm(),
    {
        &self.llm
    }

    /// The request for three search queries for a sub-task; `date` is the current month as
    /// the model is shown it.
    pub fn query_prompt(&self, task: &str, context: &str, date: &str) -> (r: Prompt)
        ensures
            r.system@ == "你是一个搜索引擎优化专家。请根据研究子任务，生成3个不同策略的搜索查询，并标注每次搜索的 SearXNG 类别。\n\n【策略1-精准匹配】：使用精确短语，排除噪音，必要时限定范围\n【策略2-多维度拆解】：将子任务拆成2-3个递进角度，分别生成搜索词\n【策略3-语言/术语增强】：根据子任务场景选择最合适的语言搜索——技术问题用英文、日本内容用日语、中文本土用中文等\n\n要求：\n- 每个查询只包含 2-3 个高热度词，不要完整句子，若要指定时间，请指定具体年份\n- 每个搜索词不超过15个词\n- 根据主题自然选择查询语言，可多语言覆盖不同地区来源（包括中英以外的语言，如法语、日语、德语等）\n- 同时为本次搜索选择最合适的 SearXNG 搜索引擎类别，支持：science（学术论文/预印本）、general（通用网页）、news（新闻）、it（技术/Q&A/代码仓库），可组合使用逗号分隔，如 \"science,general\"\n\n只输出纯 JSON，不要 markdown 格式、不要代码块、不要其他文字。"@,
            r.user@ == "研究子任务："@ + task@ + "\n已有上下文："@ + context@ + "\n当前日期："@ + date@ + "\n请生成 3 个搜索查询，分别使用精准匹配、多维度拆解、语言增强三种策略覆盖该子任务。\n输出 JSON 格式：{\"categories\": \"science,general\", \"queries\": [\"query1\", \"query2\", \"query3\"]}"@,
    {
        let mut user = owned("研究子任务：");
        push_str(&mut user, task);
        push_str(&mut user, "\n已有上下文：");
        push_str(&mut user, context);
        push_str(&mut user, "\n当前日期：");
        push_str(&mut user, date);
        push_str(&mut user, "\n请生成 3 个搜索查询，分别使用精准匹配、多维度拆解、语言增强三种策略覆盖该子任务。\n输出 JSON 格式：{\"categories\": \"science,general\", \"queries\": [\"query1\", \"query2\", \"query3\"]}");
        Prompt { system: owned("你是一个搜索引擎优化专家。请根据研究子任务，生成3个不同策略的搜索查询，并标注每次搜索的 SearXNG 类别。\n\n【策略1-精准匹配】：使用精确短语，排除噪音，必要时限定范围\n【策略2-多维度拆解】：将子任务拆成2-3个递进角度，分别生成搜索词\n【策略3-语言/术语增强】：根据子任务场景选择最合适的语言搜索——技术问题用英文、日本内容用日语、中文本土用中文等\n\n要求：\n- 每个查询只包含 2-3 个高热度词，不要完整句子，若要指定时间，请指定具体年份\n- 每个搜索词不超过15个词\n- 根据主题自然选择查询语言，可多语言覆盖不同地区来源（包括中英以外的语言，如法语、日语、德语等）\n- 同时为本次搜索选择最合适的 SearXNG 搜索引擎类别，支持：science（学术论文/预印本）、general（通用网页）、news（新闻）、it（技术/Q&A/代码仓库），可组合使用逗号分隔，如 \"science,general\"\n\n只输出纯 JSON，不要 markdown 格式、不要代码块、不要其他文字。"), user }
    }

    /// The categories and queries of the model's parsed reply (see `reply_categories` and
    /// `reply_queries`).
    pub fn queries_from_reply(&self, parsed: &JsonValue) -> (r: (String, Vec<String>))
        ensures
            r.0@ == reply_categories(*parsed),
            sviews(r.1@) == reply_queries(*parsed),
    {
        let mut raw: Vec<String> = Vec::new();
        let mut present = false;
        match parsed.get("queries") {
            Some(a) => match a.as_array() {
                Some(items) => {
                    present = true;
                    let mut i: usize = 0;
                    while i < items.len()
                        invariant
                            i <= items@.len(),
                            array_of(field(*parsed, "queries"@)) == Some(items@),
                            sviews(raw@) == raw_queries(items@.subrange(0, i as int)),
                        decreases items@.len() - i,
                    {
                        proof {
                            assert(items@.subrange(0, i + 1).drop_last() =~= items@.subrange(0, i as int));
                        }
                        match &items[i] {
                            JsonValue::Str(s) => {
                                let t = crate::text::trim_text(s.as_str());
                                if !t.as_str().is_empty() {
                                    let ghost before = sviews(raw@);
                                    let ghost tv = t@;
                                    raw.push(t);
                                    assert(sviews(raw@) =~= before.push(tv));
                                }
                            },
                            _ => {},
                        }
                        i = i + 1;
                    }
                    assert(items@.subrange(0, items@.len() as int) =~= items@);
                },
                None => {},
            },
            None => {},
        }
        let ghost qs0 = sviews(raw@);
        let mut lowers: Vec<String> = Vec::new();
        let mut kept: Vec<String> = Vec::new();
        let mut j: usize = 0;
        while j < raw.len()
            invariant
                j <= raw@.len(),
                qs0 == sviews(raw@),
                lowers@.len() == j,
                forall|k: int| 0 <= k < j ==> (#[trigger] lowers@[k])@ == lower(qs0[k]),
                sviews(kept@) == first_by_lower(qs0.subrange(0, j as int)),
            decreases raw@.len() - j,
        {
            proof {
                assert(qs0.subrange(0, j + 1).drop_last() =~= qs0.subrange(0, j as int));
            }
            let l = crate::text::to_lower(raw[j].as_str());
            let dup = crate::orchestrator::holds_text(&lowers, l.as_str());
            proof {
                let p = qs0.subrange(0, j + 1);
                if dup {
                    let m = choose|m: int| 0 <= m < sviews(lowers@).len() && sviews(lowers@)[m] == l@;
                    assert(p[m] == qs0[m]);
                    assert(lower(p[m]) == lower(p.last()));
                } else {
                    assert forall|k: int| 0 <= k < p.len() - 1 implies lower(#[trigger] p[k]) != lower(p.last()) by {
                        assert(sviews(lowers@)[k] == lower(qs0[k]));
                    }
                }
            }
            if !dup {
                let ghost before = sviews(kept@);
                kept.push(raw[j].clone());
                assert(sviews(kept@) =~= before.push(qs0[j as int]));
            }
            lowers.push(l);
            j = j + 1;
        }
        assert(qs0.subrange(0, qs0.len() as int) =~= qs0);
        proof {
            if !present {
                assert(qs0 =~= Seq::<Seq<char>>::empty());
            }
        }
        let mut queries: Vec<String> = Vec::new();
        let mut k: usize = 0;
        while k < kept.len()
            invariant
                k <= kept@.len(),
                sviews(queries@) == Seq::new(k as nat, |i: int| capped(sviews(kept@)[i])),
            decreases kept@.len() - k,
        {
            let c = cap_words(&kept[k]);
            let ghost before = sviews(queries@);
            let ghost cv = c@;
            queries.push(c);
            assert(sviews(queries@) =~= before.push(cv));
            assert(sviews(queries@) =~= Seq::new((k + 1) as nat, |i: int| capped(sviews(kept@)[i])));
            k = k + 1;
        }
        let categories = match parsed.get("categories") {
            Some(c) => match c.as_str() {
                Some(s) => {
                    let t = crate::text::trim_text(s.as_str());
                    if t.as_str().is_empty() {
                        owned("general")
                    } else {
                        t
                    }
                },
                None => owned("general"),
            },
            None => owned("general"),
        };
        (categories, queries)
    }

    /// The error reported when the reply was no JSON: the parser's message and the first
    /// 200 characters of the reply.
    pub fn query_error(&self, parse_message: &str, response: &str) -> (r: Error)
        ensures
            r matches Error::Agent(m) && m@ == "解析查询规划输出失败: "@ + parse_message@ + "\n原始响应(前200字符): "@ + take_chars(response@, 200),
    {
        let mut m = owned("解析查询规划输出失败: ");
        push_str(&mut m, parse_message);
        push_str(&mut m, "\n原始响应(前200字符): ");
        let head = crate::words::take_text(response, 200);
        push_str(&mut m, head.as_str());
        Error::Agent(m)
    }
}

} // verus!
