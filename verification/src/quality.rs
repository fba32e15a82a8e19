//! Scoring a knowledge base: how many sub-tasks its findings cover, how recent its
//! findings are, and how much technical detail they carry.
use vstd::prelude::*;
use crate::fragments::{fragment_chars, fragments_of, lower_chars, utf8_len, utf8_width};
use crate::model::{Finding, KnowledgeBase, QualityTally, Ratio, ResearchPlan, SubTask};
use crate::search::any_keyword_in;
use crate::text::{chars_of, contains_chars, contains_seq, lower};

verus! {

/// Scores knowledge bases.
pub struct QualityEvaluator;

/// The lower-cased contents of the findings, joined by single spaces.
pub open spec fn joined_contents(fs: Seq<Finding>) -> Seq<char>
    decreases fs.len(),
{
    if fs.len() == 0 {
        Seq::empty()
    } else if fs.len() == 1 {
        lower(fs[0].content@)
    } else {
        joined_contents(fs.drop_last()) + seq![' '] + lower(fs.last().content@)
    }
}

/// `text` contains one of `frags`.
pub open spec fn holds_any(text: Seq<char>, frags: Seq<Seq<char>>) -> bool {
    exists|i: int| 0 <= i < frags.len() && contains_seq(text, frags[i])
}

/// The number of sub-tasks with a fragment of their description in `text`.
pub open spec fn covered_tasks(tasks: Seq<SubTask>, text: Seq<char>) -> nat
    decreases tasks.len(),
{
    if tasks.len() == 0 {
        0
    } else {
        covered_tasks(tasks.drop_last(), text) + if holds_any(text, fragments_of(tasks.last().description@)) {
            1nat
        } else {
            0nat
        }
    }
}

/// The number of fragments that `text` contains.
pub open spec fn covered_fragments(frags: Seq<Seq<char>>, text: Seq<char>) -> nat
    decreases frags.len(),
{
    if frags.len() == 0 {
        0
    } else {
        covered_fragments(frags.drop_last(), text) + if contains_seq(text, frags.last()) {
            1nat
        } else {
            0nat
        }
    }
}

/// Coverage: the share of sub-tasks that the findings touch; without sub-tasks, the share
/// of the query's fragments that they hold, or one half when the query has none.
pub open spec fn coverage(fs: Seq<Finding>, query: Seq<char>, tasks: Seq<SubTask>) -> Ratio {
    let text = joined_contents(fs);
    if tasks.len() > 0 {
        Ratio { num: covered_tasks(tasks, text) as u128, den: tasks.len() as u128 }
    } else if fragments_of(query).len() == 0 {
        Ratio { num: 1, den: 2 }
    } else {
        Ratio { num: covered_fragments(fragments_of(query), text) as u128, den: fragments_of(query).len() as u128 }
    }
}

/// The largest iteration number among the findings (0 for none).
pub open spec fn max_iteration(fs: Seq<Finding>) -> nat
    decreases fs.len(),
{
    if fs.len() == 0 {
        0
    } else {
        let m = max_iteration(fs.drop_last());
        if fs.last().iteration > m { fs.last().iteration as nat } else { m }
    }
}

/// The number of findings from iteration `t` or later.
pub open spec fn count_from(fs: Seq<Finding>, t: nat) -> nat
    decreases fs.len(),
{
    if fs.len() == 0 {
        0
    } else {
        count_from(fs.drop_last(), t) + if fs.last().iteration >= t { 1nat } else { 0nat }
    }
}

/// Freshness: none for no finding, one half for a single finding; otherwise the share of
/// the findings that come from the latest iteration.
pub open spec fn freshness(fs: Seq<Finding>) -> Ratio {
    if fs.len() == 0 {
        Ratio { num: 0, den: 1 }
    } else if fs.len() <= 1 {
        Ratio { num: 1, den: 2 }
    } else {
        Ratio { num: count_from(fs, max_iteration(fs)) as u128, den: fs.len() as u128 }
    }
}

/// The words that mark technical detail.
pub open spec fn tech_terms() -> Seq<Seq<char>> {
    seq![
        "版本"@, "标准"@, "规范"@, "架构"@, "协议"@, "接口"@, "平台"@, "API"@, "SDK"@, "协议"@,
        "框架"@, "引擎"@, "模块"@, "组件"@, "配置"@, "部署"@, "集成"@, "测试"@, "认证"@,
    ]
}

/// Some character of `s` is an ASCII digit.
pub open spec fn has_ascii_digit(s: Seq<char>) -> bool {
    exists|i: int| 0 <= i < s.len() && '0' <= s[i] && s[i] <= '9'
}

/// The depth of one finding in tenths: 3 for a digit, 2 for a `%`, 2 for more than 200
/// bytes, 3 for a technical term; at most 10.
pub open spec fn finding_depth(c: Seq<char>) -> nat {
    let s = (if has_ascii_digit(c) { 3nat } else { 0nat }) + (if c.contains('%') { 2nat } else { 0nat })
        + (if utf8_len(c) > 200 { 2nat } else { 0nat }) + (if holds_any(c, tech_terms()) { 3nat } else { 0nat });
    if s > 10 { 10 } else { s }
}

/// The depth of all findings in tenths.
pub open spec fn total_depth(fs: Seq<Finding>) -> nat
    decreases fs.len(),
{
    if fs.len() == 0 {
        0
    } else {
        total_depth(fs.drop_last()) + finding_depth(fs.last().content@)
    }
}

/// Depth: the mean depth of the findings (none for no finding).
pub open spec fn depth(fs: Seq<Finding>) -> Ratio {
    if fs.len() == 0 {
        Ratio { num: 0, den: 1 }
    } else {
        Ratio { num: total_depth(fs) as u128, den: (10 * fs.len()) as u128 }
    }
}

/// A fraction between 0 and 1 with a positive denominator.
pub open spec fn unit_ratio(r: Ratio) -> bool {
    0 < r.den && r.num <= r.den
}

proof fn lemma_covered_tasks_extremes(tasks: Seq<SubTask>, text: Seq<char>)
    ensures
        (forall|j: int| 0 <= j < tasks.len() ==> exists|k: int|
            0 <= k < fragments_of((#[trigger] tasks[j]).description@).len()
                && contains_seq(text, fragments_of(tasks[j].description@)[k]))
            ==> covered_tasks(tasks, text) == tasks.len(),
        (forall|j: int, k: int| #![trigger fragments_of(tasks[j].description@)[k]] 0 <= j < tasks.len() && 0 <= k < fragments_of(tasks[j].description@).len()
            ==> !contains_seq(text, fragments_of(tasks[j].description@)[k]))
            ==> covered_tasks(tasks, text) == 0,
    decreases tasks.len(),
{
    if tasks.len() > 0 {
        let init = tasks.drop_last();
        lemma_covered_tasks_extremes(init, text);
        let last = tasks.len() - 1;
        assert(tasks[last] == tasks.last());
        if forall|j: int| 0 <= j < tasks.len() ==> exists|k: int|
            0 <= k < fragments_of((#[trigger] tasks[j]).description@).len()
                && contains_seq(text, fragments_of(tasks[j].description@)[k]) {
            assert forall|j: int| 0 <= j < init.len() implies exists|k: int|
                0 <= k < fragments_of((#[trigger] init[j]).description@).len()
                    && contains_seq(text, fragments_of(init[j].description@)[k]) by {
                assert(init[j] == tasks[j]);
            }
            assert(exists|k: int| 0 <= k < fragments_of(tasks[last].description@).len()
                && contains_seq(text, fragments_of(tasks[last].description@)[k]));
        }
        if forall|j: int, k: int| #![trigger fragments_of(tasks[j].description@)[k]] 0 <= j < tasks.len() && 0 <= k < fragments_of(tasks[j].description@).len()
            ==> !contains_seq(text, fragments_of(tasks[j].description@)[k]) {
            assert forall|j: int, k: int| #![trigger fragments_of(init[j].description@)[k]] 0 <= j < init.len() && 0 <= k < fragments_of(init[j].description@).len()
                implies !contains_seq(text, fragments_of(init[j].description@)[k]) by {
                assert(init[j] == tasks[j]);
            }
            assert forall|k: int| 0 <= k < fragments_of(tasks[last].description@).len()
                implies !contains_seq(text, fragments_of(tasks[last].description@)[k]) by {}
        }
    }
}

/// Coverage counts the sub-tasks with a fragment of their description in the lower-cased
/// joined findings: when every sub-task has one, coverage is whole; when none has, it is
/// nothing.
pub proof fn law_coverage_counts_covered_tasks(fs: Seq<Finding>, query: Seq<char>, tasks: Seq<SubTask>)
    requires
        tasks.len() > 0,
    ensures
        (forall|j: int| 0 <= j < tasks.len() ==> exists|k: int|
            0 <= k < fragments_of((#[trigger] tasks[j]).description@).len()
                && contains_seq(joined_contents(fs), fragments_of(tasks[j].description@)[k]))
            ==> coverage(fs, query, tasks).num == coverage(fs, query, tasks).den,
        (forall|j: int, k: int| #![trigger fragments_of(tasks[j].description@)[k]] 0 <= j < tasks.len() && 0 <= k < fragments_of(tasks[j].description@).len()
            ==> !contains_seq(joined_contents(fs), fragments_of(tasks[j].description@)[k]))
            ==> coverage(fs, query, tasks).num == 0,
{
    lemma_covered_tasks_extremes(tasks, joined_contents(fs));
}

proof fn lemma_covered_tasks_le(tasks: Seq<SubTask>, text: Seq<char>)
    ensures
        covered_tasks(tasks, text) <= tasks.len(),
    decreases tasks.len(),
{
    if tasks.len() > 0 {
        lemma_covered_tasks_le(tasks.drop_last(), text);
    }
}

proof fn lemma_covered_fragments_le(frags: Seq<Seq<char>>, text: Seq<char>)
    ensures
        covered_fragments(frags, text) <= frags.len(),
    decreases frags.len(),
{
    if frags.len() > 0 {
        lemma_covered_fragments_le(frags.drop_last(), text);
    }
}

proof fn lemma_count_from_le(fs: Seq<Finding>, t: nat)
    ensures
        count_from(fs, t) <= fs.len(),
    decreases fs.len(),
{
    if fs.len() > 0 {
        lemma_count_from_le(fs.drop_last(), t);
    }
}

proof fn lemma_total_depth_le(fs: Seq<Finding>)
    ensures
        total_depth(fs) <= 10 * fs.len(),
    decreases fs.len(),
{
    if fs.len() > 0 {
        lemma_total_depth_le(fs.drop_last());
    }
}

/// The lower-cased contents of the findings joined by spaces (see `joined_contents`).
fn joined_lower(fs: &Vec<Finding>) -> (r: Vec<char>)
    ensures
        r@ == joined_contents(fs@),
{
    let mut r: Vec<char> = Vec::new();
    let mut i: usize = 0;
    while i < fs.len()
        invariant
            i <= fs@.len(),
            r@ == joined_contents(fs@.subrange(0, i as int)),
        decreases fs@.len() - i,
    {
        proof {
            assert(fs@.subrange(0, i + 1).drop_last() =~= fs@.subrange(0, i as int));
        }
        let c = chars_of(fs[i].content.as_str());
        let l = lower_chars(&c);
        let ghost before = r@;
        if i > 0 {
            r.push(' ');
        }
        let mut k: usize = 0;
        let ghost mid = r@;
        while k < l.len()
            invariant
                k <= l@.len(),
                r@ == mid + l@.subrange(0, k as int),
            decreases l@.len() - k,
        {
            r.push(l[k]);
            assert(r@ =~= mid + l@.subrange(0, k + 1));
            k = k + 1;
        }
        assert(l@.subrange(0, l@.len() as int) =~= l@);
        proof {
            if i == 0 {
                assert(before =~= Seq::<char>::empty());
                assert(r@ =~= lower(fs@[0].content@));
            } else {
                assert(r@ =~= before + seq![' '] + lower(fs@[i as int].content@));
            }
        }
        i = i + 1;
    }
    assert(fs@.subrange(0, fs@.len() as int) =~= fs@);
    r
}

/// Whether `text` holds one of `frags`.
fn holds_any_of(text: &Vec<char>, frags: &Vec<Vec<char>>) -> (b: bool)
    ensures
        b == holds_any(text@, frags@.map_values(|f: Vec<char>| f@)),
{
    let b = any_keyword_in(text, frags);
    proof {
        let fv = frags@.map_values(|f: Vec<char>| f@);
        if b {
            let k = choose|k: int| 0 <= k < frags@.len() && contains_seq(text@, frags@[k]@);
            assert(contains_seq(text@, fv[k]));
        }
        if holds_any(text@, fv) {
            let k = choose|k: int| 0 <= k < fv.len() && contains_seq(text@, fv[k]);
            assert(contains_seq(text@, frags@[k]@));
        }
    }
    b
}

/// The fragments of `s` as a vector of character vectors, with their views.
fn fragments_vec(s: &str) -> (r: Vec<Vec<char>>)
    ensures
        r@.map_values(|f: Vec<char>| f@) == fragments_of(s@),
{
    let r = fragment_chars(s);
    assert(r@.map_values(|f: Vec<char>| f@) =~= fragments_of(s@));
    r
}

/// The share of sub-tasks, or else of query fragments, that the findings cover.
fn coverage_of(fs: &Vec<Finding>, query: &str, tasks: &Vec<SubTask>) -> (r: Ratio)
    ensures
        r == coverage(fs@, query@, tasks@),
        unit_ratio(r),
{
    let text = joined_lower(fs);
    if tasks.len() > 0 {
        let mut covered: usize = 0;
        let mut i: usize = 0;
        while i < tasks.len()
            invariant
                i <= tasks@.len(),
                covered == covered_tasks(tasks@.subrange(0, i as int), text@),
                covered <= i,
            decreases tasks@.len() - i,
        {
            proof {
                assert(tasks@.subrange(0, i + 1).drop_last() =~= tasks@.subrange(0, i as int));
            }
            let frags = fragments_vec(tasks[i].description.as_str());
            if holds_any_of(&text, &frags) {
                covered = covered + 1;
            }
            i = i + 1;
        }
        assert(tasks@.subrange(0, tasks@.len() as int) =~= tasks@);
        Ratio { num: covered as u128, den: tasks.len() as u128 }
    } else {
        let frags = fragments_vec(query);
        let ghost fv = fragments_of(query@);
        if frags.len() == 0 {
            return Ratio { num: 1, den: 2 };
        }
        let mut covered: usize = 0;
        let mut i: usize = 0;
        while i < frags.len()
            invariant
                i <= frags@.len(),
                frags@.map_values(|f: Vec<char>| f@) == fv,
                covered == covered_fragments(fv.subrange(0, i as int), text@),
                covered <= i,
            decreases frags@.len() - i,
        {
            proof {
                assert(fv.subrange(0, i + 1).drop_last() =~= fv.subrange(0, i as int));
                assert(fv[i as int] == frags@[i as int]@);
            }
            if contains_chars(&text, &frags[i]) {
                covered = covered + 1;
            }
            i = i + 1;
        }
        assert(fv.subrange(0, fv.len() as int) =~= fv);
        Ratio { num: covered as u128, den: frags.len() as u128 }
    }
}

/// The share of recent findings (see `freshness`).
fn freshness_of(fs: &Vec<Finding>) -> (r: Ratio)
    ensures
        r == freshness(fs@),
        unit_ratio(r),
{
    if fs.len() == 0 {
        return Ratio { num: 0, den: 1 };
    }
    if fs.len() <= 1 {
        return Ratio { num: 1, den: 2 };
    }
    let mut m: usize = 0;
    let mut i: usize = 0;
    while i < fs.len()
        invariant
            i <= fs@.len(),
            m == max_iteration(fs@.subrange(0, i as int)),
        decreases fs@.len() - i,
    {
        proof {
            assert(fs@.subrange(0, i + 1).drop_last() =~= fs@.subrange(0, i as int));
        }
        if fs[i].iteration > m {
            m = fs[i].iteration;
        }
        i = i + 1;
    }
    assert(fs@.subrange(0, fs@.len() as int) =~= fs@);
    let t = m;
    let mut recent: usize = 0;
    let mut j: usize = 0;
    while j < fs.len()
        invariant
            j <= fs@.len(),
            recent == count_from(fs@.subrange(0, j as int), t as nat),
            recent <= j,
        decreases fs@.len() - j,
    {
        proof {
            assert(fs@.subrange(0, j + 1).drop_last() =~= fs@.subrange(0, j as int));
        }
        if fs[j].iteration >= t {
            recent = recent + 1;
        }
        j = j + 1;
    }
    assert(fs@.subrange(0, fs@.len() as int) =~= fs@);
    Ratio { num: recent as u128, den: fs.len() as u128 }
}

/// The technical terms as character vectors.
fn tech_term_chars() -> (r: Vec<Vec<char>>)
    ensures
        r@.map_values(|f: Vec<char>| f@) == tech_terms(),
{
    let mut r: Vec<Vec<char>> = Vec::new();
    r.push(chars_of("版本"));
    r.push(chars_of("标准"));
    r.push(chars_of("规范"));
    r.push(chars_of("架构"));
    r.push(chars_of("协议"));
    r.push(chars_of("接口"));
    r.push(chars_of("平台"));
    r.push(chars_of("API"));
    r.push(chars_of("SDK"));
    r.push(chars_of("协议"));
    r.push(chars_of("框架"));
    r.push(chars_of("引擎"));
    r.push(chars_of("模块"));
    r.push(chars_of("组件"));
    r.push(chars_of("配置"));
    r.push(chars_of("部署"));
    r.push(chars_of("集成"));
    r.push(chars_of("测试"));
    r.push(chars_of("认证"));
    assert(r@.map_values(|f: Vec<char>| f@) =~= tech_terms());
    r
}

/// Whether `s` takes more than 200 bytes in UTF-8.
fn longer_than_200_bytes(s: &Vec<char>) -> (r: bool)
    ensures
        r == (utf8_len(s@) > 200),
{
    let mut total: usize = 0;
    let mut i: usize = 0;
    while i < s.len()
        invariant
            i <= s@.len(),
            total == utf8_len(s@.subrange(0, i as int)),
            total <= 200,
        decreases s@.len() - i,
    {
        proof {
            assert(s@.subrange(0, i + 1).drop_last() =~= s@.subrange(0, i as int));
        }
        let u = s[i] as u32;
        let w: usize = if u < 0x80 { 1 } else if u < 0x800 { 2 } else if u < 0x10000 { 3 } else { 4 };
        total = total + w;
        if total > 200 {
            proof {
                lemma_utf8_len_prefix_le(s@, i + 1);
            }
            return true;
        }
        i = i + 1;
    }
    assert(s@.subrange(0, s@.len() as int) =~= s@);
    false
}

proof fn lemma_utf8_len_prefix_le(s: Seq<char>, k: int)
    requires
        0 <= k <= s.len(),
    ensures
        utf8_len(s.subrange(0, k)) <= utf8_len(s),
    decreases s.len() - k,
{
    if k < s.len() {
        lemma_utf8_len_prefix_le(s, k + 1);
        assert(s.subrange(0, k + 1).drop_last() =~= s.subrange(0, k));
    } else {
        assert(s.subrange(0, k) =~= s);
    }
}

/// The depth of one finding, in tenths (see `finding_depth`).
fn depth_of_content(content: &String, terms: &Vec<Vec<char>>) -> (r: u128)
    requires
        terms@.map_values(|f: Vec<char>| f@) == tech_terms(),
    ensures
        r == finding_depth(content@),
        r <= 10,
{
    let c = chars_of(content.as_str());
    let mut digit = false;
    let mut percent = false;
    let mut i: usize = 0;
    while i < c.len()
        invariant
            i <= c@.len(),
            c@ == content@,
            digit == exists|j: int| 0 <= j < i && '0' <= c@[j] && c@[j] <= '9',
            percent == exists|j: int| 0 <= j < i && c@[j] == '%',
        decreases c@.len() - i,
    {
        if '0' <= c[i] && c[i] <= '9' {
            digit = true;
        }
        if c[i] == '%' {
            percent = true;
        }
        i = i + 1;
    }
    proof {
        if percent {
            let j = choose|j: int| 0 <= j < c@.len() && c@[j] == '%';
            assert(content@.contains('%'));
        }
        if content@.contains('%') {
            let j = choose|j: int| 0 <= j < content@.len() && content@[j] == '%';
            assert(c@[j] == '%');
        }
    }
    let long = longer_than_200_bytes(&c);
    let term = holds_any_of(&c, terms);
    let mut s: u128 = 0;
    if digit {
        s = s + 3;
    }
    if percent {
        s = s + 2;
    }
    if long {
        s = s + 2;
    }
    if term {
        s = s + 3;
    }
    if s > 10 {
        10
    } else {
        s
    }
}

/// The mean depth of the findings (see `depth`).
fn depth_of(fs: &Vec<Finding>) -> (r: Ratio)
    ensures
        r == depth(fs@),
        unit_ratio(r),
{
    if fs.len() == 0 {
        return Ratio { num: 0, den: 1 };
    }
    let terms = tech_term_chars();
    let mut total: u128 = 0;
    let mut i: usize = 0;
    while i < fs.len()
        invariant
            i <= fs@.len(),
            terms@.map_values(|f: Vec<char>| f@) == tech_terms(),
            total == total_depth(fs@.subrange(0, i as int)),
            total <= 10 * i,
        decreases fs@.len() - i,
    {
        proof {
            assert(fs@.subrange(0, i + 1).drop_last() =~= fs@.subrange(0, i as int));
        }
        let d = depth_of_content(&fs[i].content, &terms);
        total = total + d;
        i = i + 1;
    }
    assert(fs@.subrange(0, fs@.len() as int) =~= fs@);
    Ratio { num: total, den: 10 * (fs.len() as u128) }
}

impl QualityEvaluator {
    /// Scores a knowledge base against its query and plan: coverage, freshness and depth,
    /// each a fraction between 0 and 1.
    pub fn evaluate(&self, knowledge: &KnowledgeBase, query: &str, plan: &ResearchPlan) -> (r: QualityTally)
        ensures
            r.coverage == coverage(knowledge.findings@, query@, plan.sub_tasks@),
            r.freshness == freshness(knowledge.findings@),
            r.depth == depth(knowledge.findings@),
            unit_ratio(r.coverage),
            unit_ratio(r.freshness),
            unit_ratio(r.depth),
    {
        let coverage = coverage_of(&knowledge.findings, query, &plan.sub_tasks);
        let freshness = freshness_of(&knowledge.findings);
        let depth = depth_of(&knowledge.findings);
        QualityTally { coverage, freshness, depth }
    }
}

impl Default for QualityEvaluator {
    /// The evaluator.
    fn default() -> (r: QualityEvaluator)
        ensures
            r == QualityEvaluator,
    {
        QualityEvaluator
    }
}

} // verus!
