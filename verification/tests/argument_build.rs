use zhiyuan::argument::ArgumentBuilder;
use zhiyuan::model::{ArgumentEdge, ArgumentNodeType, Finding, ResearchPlan};

fn finding(content: &str, sources: Vec<String>) -> Finding {
    Finding {
        id: uuid::Uuid::new_v4().as_u128(),
        content: content.into(),
        sources,
        sub_task_id: None,
        iteration: 1,
        epistemic_status: None,
    }
}

#[test]
fn test_build_with_thesis() {
    let plan = ResearchPlan {
        query_id: uuid::Uuid::new_v4().as_u128(),
        sub_tasks: vec![],
        outline: None,
        core_thesis: Some("Rust 异步生态已经成熟".into()),
        reasoning_chain: Some(vec!["tokio 是主流运行时".into(), "async-std 已被边缘化".into()]),
    };
    let findings = vec![finding("tokio 在 2025 年占 85% 市场份额", vec!["https://example.com".into()])];
    let skeleton = ArgumentBuilder::build(&plan, &findings);
    assert!(skeleton.nodes.len() >= 4, "应包含 1 结论 + 2 前提 + 1 证据");
    assert_eq!(
        skeleton.nodes.iter().filter(|n| n.node_type == ArgumentNodeType::Conclusion).count(),
        1
    );
}

#[test]
fn test_build_fallback() {
    let plan = ResearchPlan {
        query_id: uuid::Uuid::new_v4().as_u128(),
        sub_tasks: vec![],
        outline: None,
        core_thesis: None,
        reasoning_chain: None,
    };
    let findings = vec![finding("测试发现", vec![])];
    let skeleton = ArgumentBuilder::build(&plan, &findings);
    assert_eq!(skeleton.nodes.len(), 1);
}

#[test]
fn build_edges_point_at_nodes() {
    let plan = ResearchPlan {
        query_id: 7,
        sub_tasks: vec![],
        outline: None,
        core_thesis: Some("结论".into()),
        reasoning_chain: Some(vec!["前提一".into()]),
    };
    let findings = vec![finding("证据一", vec![]), finding("证据二", vec![])];
    let skeleton = ArgumentBuilder::build(&plan, &findings);
    for (from, to, _) in &skeleton.edges {
        assert!(skeleton.nodes.iter().any(|n| n.id == *from));
        assert!(skeleton.nodes.iter().any(|n| n.id == *to));
    }
}

#[test]
fn update_appends_evidence_supporting_first_premise() {
    let plan = ResearchPlan {
        query_id: 7,
        sub_tasks: vec![],
        outline: None,
        core_thesis: Some("结论".into()),
        reasoning_chain: Some(vec!["前提一".into()]),
    };
    let skeleton = ArgumentBuilder::build(&plan, &vec![]);
    let n0 = skeleton.nodes.len();
    let e0 = skeleton.edges.len();
    let premise = skeleton
        .nodes
        .iter()
        .find(|n| n.node_type == ArgumentNodeType::Premise)
        .map(|n| n.id)
        .unwrap();
    let updated = ArgumentBuilder::update(skeleton, &plan, &vec![finding("新证据", vec![])]);
    assert_eq!(updated.nodes.len(), n0 + 1);
    assert_eq!(updated.nodes[n0].node_type, ArgumentNodeType::Evidence);
    assert_eq!(updated.edges.len(), e0 + 1);
    assert_eq!(updated.edges[e0].1, premise);
    assert!(updated.edges[e0].2 == ArgumentEdge::Supports);
}
