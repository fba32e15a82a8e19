use zhiyuan::model::{Finding, KnowledgeBase, ResearchDirection, ResearchPlan, ResearchSettings, SubTask, TaskStatus};
use zhiyuan::quality::QualityEvaluator;
use zhiyuan::orchestrator::{
    build_iteration_tasks, chapter_titles, filter_unseen, is_near_duplicate, merge_findings, text_similarity,
    CrossCheck, ResearchLoop,
};
use zhiyuan::model::SearchResult;

fn finding(content: &str) -> Finding {
    Finding { id: 0, content: content.into(), sources: vec!["https://s.org".into()], sub_task_id: None, iteration: 1, epistemic_status: None }
}

fn settings(max: usize, long: bool) -> ResearchSettings {
    ResearchSettings { max_iterations: max, concurrency: 2, long_report: long, cross_validate: false }
}

#[test]
fn similarity_is_word_jaccard_and_symmetric() {
    let a = text_similarity("The cat sat.", "the CAT ran");
    assert_eq!((a.num, a.den), (2, 4));
    let b = text_similarity("the CAT ran", "The cat sat.");
    assert_eq!((b.num, b.den), (2, 4));
    let e = text_similarity("", "...");
    assert_eq!((e.num, e.den), (0, 0));
    assert!(is_near_duplicate("alpha beta gamma", "gamma beta alpha!"));
    assert!(!is_near_duplicate("alpha beta", "gamma delta"));
}

#[test]
fn merge_keeps_existing_and_drops_near_duplicates() {
    let mut existing = vec![finding("rust async runtime tokio")];
    let novel = merge_findings(
        &mut existing,
        vec![finding("tokio rust async runtime"), finding("wasm targets browsers"), finding("wasm targets the browsers")],
    );
    assert_eq!(novel, 1);
    assert_eq!(existing.len(), 2);
    assert_eq!(existing[0].content, "rust async runtime tokio");
    assert_eq!(existing[1].content, "wasm targets browsers");
}

#[test]
fn loop_runs_at_most_its_budget() {
    let mut l = ResearchLoop::new(&settings(2, false));
    assert_eq!(l.next_iteration(), Some(1));
    assert!(l.after_merge(1, 1));
    assert_eq!(l.next_iteration(), Some(2));
    assert!(l.after_merge(1, 2));
    assert_eq!(l.next_iteration(), None);
    let long = ResearchLoop::new(&settings(9, true));
    assert_eq!(long.max_iters, 3);
    let mut short = ResearchLoop::new(&settings(4, false));
    assert_eq!(short.max_iters, 3);
    for round in 1..4 {
        assert_eq!(short.next_iteration(), Some(round));
        assert!(short.after_merge(1, round));
    }
    assert_eq!(short.next_iteration(), None);
}

#[test]
fn loop_stops_after_two_empty_rounds_or_no_findings() {
    let mut l = ResearchLoop::new(&settings(10, false));
    assert_eq!(l.next_iteration(), Some(1));
    assert!(l.after_merge(0, 3));
    assert_eq!(l.next_iteration(), Some(2));
    assert!(!l.after_merge(0, 3));
    assert_eq!(l.next_iteration(), None);
    let mut m = ResearchLoop::new(&settings(10, false));
    assert_eq!(m.next_iteration(), Some(1));
    assert!(!m.after_merge(0, 0));
    assert_eq!(m.next_iteration(), None);
}

#[test]
fn iteration_tasks_are_pending_subtasks_then_urgent_directions() {
    let plan = ResearchPlan {
        query_id: 1,
        sub_tasks: vec![
            SubTask { id: 1, description: "A".into(), status: TaskStatus::Pending, dependencies: vec![] },
            SubTask { id: 2, description: "B".into(), status: TaskStatus::Completed, dependencies: vec![] },
        ],
        outline: None,
        core_thesis: None,
        reasoning_chain: None,
    };
    let dirs = vec![
        ResearchDirection { description: "D1".into(), rationale: "".into(), priority_milli: 500 },
        ResearchDirection { description: "D2".into(), rationale: "".into(), priority_milli: 499 },
    ];
    assert_eq!(build_iteration_tasks(&plan, &dirs), vec!["A".to_string(), "D1".to_string()]);
}

#[test]
fn chapter_titles_read_level_one_headings() {
    assert_eq!(
        chapter_titles("# 一\n描述\n## 不是\n# 二\n"),
        vec!["一".to_string(), "二".to_string()]
    );
}

#[test]
fn cross_check_accepts_similar_and_asks_for_others() {
    let mut cc = CrossCheck::new(vec![finding("alpha beta gamma"), finding("alpha beta gamma delta"), finding("x y z")]);
    let first = cc.next_request("任务").unwrap();
    assert!(first.user.contains("发现：alpha beta gamma"));
    cc.record_verdict(Some("  true, reliable"));
    let second = cc.next_request("任务").unwrap();
    assert!(second.user.contains("发现：x y z"));
    assert_eq!(cc.verified.len(), 2);
    cc.record_verdict(Some("FALSE"));
    assert!(cc.next_request("任务").is_none());
    assert_eq!(cc.verified.len(), 2);
    assert_eq!(cc.llm_calls, 2);
    assert_eq!(cc.verified[1].content, "alpha beta gamma delta");
}

#[test]
fn cross_check_keeps_finding_when_model_fails() {
    let mut cc = CrossCheck::new(vec![finding("only one")]);
    assert!(cc.next_request("t").is_some());
    cc.record_verdict(None);
    assert!(cc.next_request("t").is_none());
    assert_eq!(cc.verified.len(), 1);
}

#[test]
fn freshness_counts_only_the_latest_iteration() {
    let at = |i: usize| Finding { iteration: i, ..finding("x") };
    let plan = ResearchPlan { query_id: 0, sub_tasks: vec![], outline: None, core_thesis: None, reasoning_chain: None };
    let score = |fs: Vec<Finding>| QualityEvaluator.evaluate(&KnowledgeBase { query_id: 0, findings: fs }, "", &plan).freshness;
    let two = score(vec![at(1), at(2)]);
    assert_eq!((two.num, two.den), (1, 2));
    let four = score(vec![at(3), at(1), at(3), at(2)]);
    assert_eq!((four.num, four.den), (2, 4));
    let none = score(vec![]);
    assert_eq!((none.num, none.den), (0, 1));
    let one = score(vec![at(5)]);
    assert_eq!((one.num, one.den), (1, 2));
}

#[test]
fn unseen_filter_keeps_first_new_urls_and_records_them() {
    let r = |u: &str| SearchResult { title: u.into(), url: u.into(), snippet: String::new(), source: "s".into(), fetch_time: 0 };
    let mut seen = vec!["a".to_string()];
    let kept = filter_unseen(&mut seen, vec![r("a"), r("b"), r("c"), r("b"), r("d")]);
    let urls: Vec<&str> = kept.iter().map(|x| x.url.as_str()).collect();
    assert_eq!(urls, vec!["b", "c", "d"]);
    assert_eq!(seen, vec!["a".to_string(), "b".to_string(), "c".to_string(), "d".to_string()]);
    assert!(filter_unseen(&mut seen, vec![r("d"), r("a")]).is_empty());
}
