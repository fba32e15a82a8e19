//! The planner: it asks the model for clarifying questions and for a research plan, and
//! reads the plan out of the model's JSON.
use vstd::prelude::*;
use crate::agents::synthesizer::{text_at, text_under};
use crate::json::{array_of, field, JsonValue};
use crate::model::{full_query_text, sub_task_from_value, task_item, task_items, Error, Prompt, ResearchPlan, ResearchQuery, ResearchSettings, TaskStatus};
use crate::words::{joined, lines_of, owned, push_str, sviews, take_chars};
use crate::fragments::utf8_len;

verus! {

broadcast use vstd::string::group_string_axioms;

/// The marks that number a question: ASCII digits, `.`, `)`, spaces and tabs.
pub open spec fn question_mark(c: char) -> bool {
    ('0' <= c && c <= '9') || c == '.' || c == ')' || c == ' ' || c == '\t'
}

/// A line without the marks at its start.
pub open spec fn unnumbered(l: Seq<char>) -> Seq<char>
    decreases l.len(),
{
    if l.len() > 0 && question_mark(l[0]) {
        unnumbered(l.drop_first())
    } else {
        l
    }
}

/// The questions in a reply: its lines of more than five bytes, without their numbering.
pub open spec fn reply_questions(ls: Seq<Seq<char>>) -> Seq<Seq<char>>
    decreases ls.len(),
{
    if ls.len() == 0 {
        Seq::empty()
    } else {
        let r = reply_questions(ls.drop_last());
        let l = ls.last();
        if l.len() > 0 && utf8_len(l) > 5 {
            r.push(unnumbered(l))
        } else {
            r
        }
    }
}

/// The outline of a long plan: `"# <title>\n<description>"` per item of the reply's
/// `"outline"` array, separated by blank lines; none without such an array.
pub open spec fn reply_outline(parsed: JsonValue) -> Option<Seq<char>> {
    match array_of(field(parsed, "outline"@)) {
        Some(items) => Some(joined(
            Seq::new(items.len(), |i: int| "# "@ + text_at(items[i], "title"@) + "\n"@ + text_at(items[i], "description"@)),
            "\n\n"@,
        )),
        None => None,
    }
}

/// The agent that plans research; it holds the model client `L`.
pub struct PlannerAgent<L> {
    llm: L,
}

/// A line without the marks at its start (see `unnumbered`).
fn strip_numbering(l: &Vec<char>) -> (r: String)
    ensures
        r@ == unnumbered(l@),
{
    let mut i: usize = 0;
    assert(l@.subrange(0, l@.len() as int) =~= l@);
    while i < l.len() && (('0' <= l[i] && l[i] <= '9') || l[i] == '.' || l[i] == ')' || l[i] == ' ' || l[i] == '\t')
        invariant
            i <= l@.len(),
            unnumbered(l@) == unnumbered(l@.subrange(i as int, l@.len() as int)),
        decreases l@.len() - i,
    {
        assert(l@.subrange(i as int, l@.len() as int).drop_first() =~= l@.subrange(i + 1, l@.len() as int));
        i = i + 1;
    }
    crate::text::string_from_range(l, i, l.len())
}

impl<L> PlannerAgent<L> {
    /// An agent that asks `llm`.
    pub fn new(llm: L) -> (r: Self)
        ensures
            r.llm() == llm,
    {
        PlannerAgent { llm }
    }

    /// The model client the agent asks.
    pub closed spec fn llm(&self) -> L {
        self.llm
    }

    /// The model client the agent asks.
    pub fn client(&self) -> (r: &L)
        ensures
            *r == self.llm(),
    {
        &self.llm
    }

    /// The request for questions that would sharpen the research question.
    pub fn clarify_prompt(&self, query: &str) -> (r: Prompt)
        ensures
            r.system@ == "你是一个研究助理。用户提供了一个研究问题，但它可能不够精确或完整。请生成 2-4 个澄清性问题来帮助精炼研究方向。每个问题应当简短且聚焦，帮助明确：时间范围、地域、具体领域、关注重点等维度。"@,
            r.user@ == "用户的研究问题："@ + query@ + "\n\n请生成 2-4 个澄清性问题，每个问题一行，不要编号。"@,
    {
        let mut user = owned("用户的研究问题：");
        push_str(&mut user, query);
        push_str(&mut user, "\n\n请生成 2-4 个澄清性问题，每个问题一行，不要编号。");
        Prompt { system: owned("你是一个研究助理。用户提供了一个研究问题，但它可能不够精确或完整。请生成 2-4 个澄清性问题来帮助精炼研究方向。每个问题应当简短且聚焦，帮助明确：时间范围、地域、具体领域、关注重点等维度。"), user }
    }

    /// The clarifying questions in the model's reply (see `reply_questions`).
    pub fn questions_from_reply(&self, response: &str) -> (r: Vec<String>)
        ensures
            sviews(r@) == reply_questions(lines_of(response@)),
    {
        let lines = crate::words::lines_of_text(response);
        let ghost ls = sviews(lines@);
        let mut r: Vec<String> = Vec::new();
        let mut i: usize = 0;
        while i < lines.len()
            invariant
                i <= lines@.len(),
                ls == sviews(lines@),
                sviews(r@) == reply_questions(ls.subrange(0, i as int)),
            decreases lines@.len() - i,
        {
            proof {
                assert(ls.subrange(0, i + 1).drop_last() =~= ls.subrange(0, i as int));
            }
            let l = crate::text::chars_of(lines[i].as_str());
            if l.len() > 0 && crate::words::byte_len(&l) > 5 {
                let q = strip_numbering(&l);
                let ghost before = sviews(r@);
                let ghost qv = q@;
                r.push(q);
                assert(sviews(r@) =~= before.push(qv));
            }
            i = i + 1;
        }
        assert(ls.subrange(0, ls.len() as int) =~= ls);
        r
    }

    /// The request for a plan: a multi-chapter outline with sub-tasks for a long report,
    /// else a list of sub-tasks; both about the full query.
    pub fn plan_prompt(&self, query: &ResearchQuery, settings: &ResearchSettings) -> (r: Prompt)
        ensures
            settings.long_report ==> r.system@ == "你是一个研究规划和报告结构专家。你的任务是根据用户的研究问题，生成多章节的研究计划和大纲。每个章节应该覆盖一个独立的子主题，所有章节合起来形成完整的研究报告。只输出纯 JSON，不要 markdown 格式、不要代码块、不要其他文字。"@ && r.user@ == "研究问题："@ + full_query_text(*query) + "\n请生成一个研究大纲，包含适量的章节（通常 3-8 个），每个章节包含 title 和 description。\n同时为每个章节生成 2-3 个具体的子任务（sub_tasks）。\n输出 JSON 格式：\n{\"outline\": [{\"title\": \"章节标题\", \"description\": \"章节描述\"}],\"sub_tasks\": [{\"description\": \"子任务描述\", \"chapter_index\": 0, \"dependencies\": []}]}\n其中 chapter_index 表示该子任务属于第几个章节（从 0 开始）。"@,
            !settings.long_report ==> r.system@ == "你是一个研究规划专家。你的任务是根据用户的研究问题，生成结构化的研究计划。你将复杂问题分解为具体的子任务，每个子任务应该是一个可以独立搜索和研究的方面。只输出纯 JSON，不要 markdown 格式、不要代码块、不要其他文字。"@ && r.user@ == "研究问题："@ + full_query_text(*query) + "\n研究范围：请将这个问题分解为 3-6 个具体的子任务，每个子任务应该聚焦于一个独立的方面。\n输出 JSON 格式：{\"sub_tasks\": [{\"description\": \"...\", \"dependencies\": []}]}"@,
    {
        let q = query.full_query();
        if settings.long_report {
            let mut user = owned("研究问题：");
            push_str(&mut user, q.as_str());
            push_str(&mut user, "\n请生成一个研究大纲，包含适量的章节（通常 3-8 个），每个章节包含 title 和 description。\n同时为每个章节生成 2-3 个具体的子任务（sub_tasks）。\n输出 JSON 格式：\n{\"outline\": [{\"title\": \"章节标题\", \"description\": \"章节描述\"}],\"sub_tasks\": [{\"description\": \"子任务描述\", \"chapter_index\": 0, \"dependencies\": []}]}\n其中 chapter_index 表示该子任务属于第几个章节（从 0 开始）。");
            Prompt { system: owned("你是一个研究规划和报告结构专家。你的任务是根据用户的研究问题，生成多章节的研究计划和大纲。每个章节应该覆盖一个独立的子主题，所有章节合起来形成完整的研究报告。只输出纯 JSON，不要 markdown 格式、不要代码块、不要其他文字。"), user }
        } else {
            let mut user = owned("研究问题：");
            push_str(&mut user, q.as_str());
            push_str(&mut user, "\n研究范围：请将这个问题分解为 3-6 个具体的子任务，每个子任务应该聚焦于一个独立的方面。\n输出 JSON 格式：{\"sub_tasks\": [{\"description\": \"...\", \"dependencies\": []}]}");
            Prompt { system: owned("你是一个研究规划专家。你的任务是根据用户的研究问题，生成结构化的研究计划。你将复杂问题分解为具体的子任务，每个子任务应该是一个可以独立搜索和研究的方面。只输出纯 JSON，不要 markdown 格式、不要代码块、不要其他文字。"), user }
        }
    }

    /// The plan in the model's parsed reply: its sub-tasks (see `sub_task_from_value`), and
    /// for a long report its outline (see `reply_outline`).
    pub fn plan_from_reply(&self, parsed: &JsonValue, query_id: u128, long_report: bool) -> (r: ResearchPlan)
        ensures
            r.query_id == query_id,
            r.sub_tasks@.len() == task_items(*parsed).len(),
            forall|k: int| 0 <= k < r.sub_tasks@.len() ==> {
                &&& (#[trigger] r.sub_tasks@[k]).description@ == task_item(task_items(*parsed)[k]).0
                &&& r.sub_tasks@[k].dependencies@ == task_item(task_items(*parsed)[k]).1
                &&& r.sub_tasks@[k].status == TaskStatus::Pending
            },
            long_report ==> match reply_outline(*parsed) {
                Some(o) => r.outline matches Some(s) && s@ == o,
                None => r.outline is None,
            },
            !long_report ==> r.outline is None,
            r.core_thesis is None,
            r.reasoning_chain is None,
    {
        let sub_tasks = sub_task_from_value(parsed);
        let outline = if long_report {
            match parsed.get("outline") {
                Some(a) => match a.as_array() {
                    Some(items) => {
                        let mut parts: Vec<String> = Vec::new();
                        let mut i: usize = 0;
                        while i < items.len()
                            invariant
                                i <= items@.len(),
                                sviews(parts@) == Seq::new(i as nat, |k: int| "# "@ + text_at(items@[k], "title"@) + "\n"@ + text_at(items@[k], "description"@)),
                            decreases items@.len() - i,
                        {
                            let mut s = owned("# ");
                            let t = text_under(&items[i], "title");
                            push_str(&mut s, t.as_str());
                            push_str(&mut s, "\n");
                            let d = text_under(&items[i], "description");
                            push_str(&mut s, d.as_str());
                            let ghost before = sviews(parts@);
                            let ghost sv = s@;
                            parts.push(s);
                            assert(sviews(parts@) =~= before.push(sv));
                            assert(sviews(parts@) =~= Seq::new((i + 1) as nat, |k: int| "# "@ + text_at(items@[k], "title"@) + "\n"@ + text_at(items@[k], "description"@)));
                            i = i + 1;
                        }
                        Some(crate::words::join(&parts, "\n\n"))
                    },
                    None => None,
                },
                None => None,
            }
        } else {
            None
        };
        ResearchPlan { query_id, sub_tasks, outline, core_thesis: None, reasoning_chain: None }
    }

    /// The error reported when the reply was no JSON: the parser's message and the first
    /// 200 characters of the reply.
    pub fn plan_error(&self, parse_message: &str, response: &str, long_report: bool) -> (r: Error)
        ensures
            r matches Error::Agent(m) && m@ == (if long_report { "解析长报告规划输出失败: "@ } else { "解析规划输出失败: "@ }) + parse_message@
                + (if long_report { "\n原始响应(前200字符): "@ } else { "\n原始响应(前200字符): "@ }) + take_chars(response@, 200),
    {
        let mut m = if long_report { owned("解析长报告规划输出失败: ") } else { owned("解析规划输出失败: ") };
        push_str(&mut m, parse_message);
        if long_report {
            push_str(&mut m, "\n原始响应(前200字符): ");
        } else {
            push_str(&mut m, "\n原始响应(前200字符): ");
        }
        let head = crate::words::take_text(response, 200);
        push_str(&mut m, head.as_str());
        Error::Agent(m)
    }
}

} // verus!
