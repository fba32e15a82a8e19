use zhiyuan::agents::fact_check::VerifierAgent;
use zhiyuan::agents::planner::PlannerAgent;
use zhiyuan::agents::query_planner::QueryPlannerAgent;
use zhiyuan::agents::searcher::SearcherAgent;
use zhiyuan::agents::synthesizer::SynthesizerAgent;
use zhiyuan::agents::writer::extract_title;
use zhiyuan::json::{JsonNumber, JsonValue};
use zhiyuan::model::{CitationEdge, Claim, Error, ExtractedContent, Ratio, SourceNode};

fn text(s: &str) -> JsonValue {
    JsonValue::Str(s.into())
}

fn obj(entries: Vec<(&str, JsonValue)>) -> JsonValue {
    JsonValue::Object(entries.into_iter().map(|(k, v)| (k.to_string(), v)).collect())
}

#[test]
fn queries_are_trimmed_deduplicated_and_capped() {
    let agent = QueryPlannerAgent::new(());
    let reply = obj(vec![
        ("categories", text("  science,general ")),
        (
            "queries",
            JsonValue::Array(vec![
                text(" Rust async "),
                text("rust ASYNC"),
                text("   "),
                JsonValue::Null,
                text("a b c d e f g h i j k l m n o p q"),
            ]),
        ),
    ]);
    let (cats, qs) = agent.queries_from_reply(&reply);
    assert_eq!(cats, "science,general");
    assert_eq!(qs, vec!["Rust async".to_string(), "a b c d e f g h i j k l m n o".to_string()]);
    let (cats2, qs2) = agent.queries_from_reply(&obj(vec![]));
    assert_eq!(cats2, "general");
    assert!(qs2.is_empty());
}

#[test]
fn query_error_quotes_the_reply() {
    let agent = QueryPlannerAgent::new(());
    match agent.query_error("bad", "xyz") {
        Error::Agent(m) => assert_eq!(m, "解析查询规划输出失败: bad\n原始响应(前200字符): xyz"),
        _ => panic!("expected an agent error"),
    }
}

#[test]
fn searcher_falls_back_to_the_task() {
    let s = SearcherAgent::new((), ());
    assert_eq!(s.queries_or_fallback(None, "任务"), ("general".to_string(), vec!["任务".to_string()]));
    let planned = Some(("news".to_string(), vec!["q".to_string()]));
    assert_eq!(s.queries_or_fallback(planned, "任务"), ("news".to_string(), vec!["q".to_string()]));
    let q = s.search_query("q", 5, "it");
    assert_eq!((q.query.as_str(), q.max_results, q.categories.as_str()), ("q", 5, "it"));
}

#[test]
fn planner_reads_sub_tasks_and_outline() {
    let p = PlannerAgent::new(());
    let reply = obj(vec![
        ("outline", JsonValue::Array(vec![obj(vec![("title", text("一")), ("description", text("描述"))])])),
        ("sub_tasks", JsonValue::Array(vec![obj(vec![("description", text("子任务"))])])),
    ]);
    let plan = p.plan_from_reply(&reply, 7, true);
    assert_eq!(plan.query_id, 7);
    assert_eq!(plan.sub_tasks.len(), 1);
    assert_eq!(plan.sub_tasks[0].description, "子任务");
    assert_eq!(plan.outline, Some("# 一\n描述".to_string()));
    let short = p.plan_from_reply(&reply, 7, false);
    assert_eq!(short.outline, None);
}

#[test]
fn clarifying_questions_drop_numbering_and_short_lines() {
    let p = PlannerAgent::new(());
    let qs = p.questions_from_reply("1. 时间范围是什么？\n\nok\n2) 关注哪个地区？");
    assert_eq!(qs, vec!["时间范围是什么？".to_string(), "关注哪个地区？".to_string()]);
}

#[test]
fn synthesizer_falls_back_to_snippets() {
    let s = SynthesizerAgent::new(());
    let contents = vec![ExtractedContent {
        url: "https://u".into(),
        title: "T".into(),
        text: "正文内容".into(),
        relevance: Ratio { num: 1, den: 2 },
    }];
    let fs = s.findings_from_reply(None, &contents, 3, 2);
    assert_eq!(fs.len(), 1);
    assert_eq!(fs[0].content, "正文内容");
    assert_eq!(fs[0].sources, vec!["https://u".to_string()]);
    assert_eq!((fs[0].sub_task_id, fs[0].iteration), (Some(3), 2));
    let reply = obj(vec![(
        "findings",
        JsonValue::Array(vec![obj(vec![("content", text("发现")), ("sources", JsonValue::Array(vec![text("https://v"), JsonValue::Null]))])]),
    )]);
    let fs2 = s.findings_from_reply(Some(&reply), &contents, 3, 2);
    assert_eq!(fs2.len(), 1);
    assert_eq!(fs2[0].content, "发现");
    assert_eq!(fs2[0].sources, vec!["https://v".to_string()]);
}

#[test]
fn directions_default_to_half_priority() {
    let s = SynthesizerAgent::new(());
    let reply = obj(vec![(
        "directions",
        JsonValue::Array(vec![
            obj(vec![("description", text("方向")), ("priority", JsonValue::Number(JsonNumber { as_i64: None, milli: Some(800) }))]),
            obj(vec![("description", text("另一个"))]),
        ]),
    )]);
    let ds = s.directions_from_reply(Some(&reply));
    assert_eq!(ds.len(), 2);
    assert_eq!((ds[0].description.as_str(), ds[0].priority_milli), ("方向", 800));
    assert_eq!(ds[1].priority_milli, 500);
    assert!(s.directions_from_reply(None).is_empty());
}

#[test]
fn verifier_keeps_only_known_edges() {
    let v = VerifierAgent::new(());
    let claims = vec![Claim { id: 1, text: "c".into(), confidence: Ratio { num: 1, den: 2 } }];
    let sources = vec![SourceNode { id: 2, url: "https://s".into(), title: "S".into() }];
    let c = uuid::Uuid::from_u128(1).to_string();
    let s = uuid::Uuid::from_u128(2).as_simple().to_string();
    let reply = obj(vec![(
        "edges",
        JsonValue::Array(vec![
            obj(vec![("claim_id", text(&c)), ("source_id", text(&s)), ("relation", text("supports"))]),
            obj(vec![("claim_id", text(&c)), ("source_id", text(&s)), ("relation", text("contradicts"))]),
            obj(vec![("claim_id", text("nope")), ("source_id", text(&s)), ("relation", text("supports"))]),
        ]),
    )]);
    let g = v.graph_from_reply(&claims, &sources, Some(&reply));
    assert_eq!(g.claims.len(), 1);
    assert_eq!(g.sources.len(), 1);
    assert_eq!(
        g.edges,
        vec![CitationEdge::Supports { claim_id: 1, source_id: 2 }, CitationEdge::Contradicts { claim_id: 1, source_id: 2 }]
    );
}

#[test]
fn title_comes_from_a_level_one_heading() {
    assert_eq!(extract_title("= 报告\n正文\n第二行"), ("报告".to_string(), "正文\n第二行".to_string()));
    assert_eq!(extract_title("  无标题正文  "), ("研究报告".to_string(), "无标题正文".to_string()));
}
