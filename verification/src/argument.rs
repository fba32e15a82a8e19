//! The argument skeleton: a research plan's thesis and chain of reasoning, with the
//! findings attached to it as evidence.
use vstd::prelude::*;
use crate::ids::new_id;
use crate::model::{ArgumentEdge, ArgumentNode, ArgumentNodeType, ArgumentSkeleton, Finding, ResearchPlan};
use crate::text::clone_strings;

verus! {

/// Builds and extends argument skeletons.
pub struct ArgumentBuilder;

/// The plan has a thesis and a non-empty chain of reasoning.
pub open spec fn has_thesis(plan: ResearchPlan) -> bool {
    &&& plan.core_thesis is Some
    &&& plan.reasoning_chain is Some
    &&& plan.reasoning_chain->0@.len() > 0
}

/// Node `n` is evidence for finding `f` at layer `layer`.
pub open spec fn evidence_for(n: ArgumentNode, f: Finding, layer: nat) -> bool {
    &&& n.claim@ == f.content@
    &&& n.node_type == ArgumentNodeType::Evidence
    &&& n.layer == layer
    &&& n.sources@ == f.sources@
}

/// Some node has identifier `id`.
pub open spec fn is_node_id(nodes: Seq<ArgumentNode>, id: u128) -> bool {
    exists|a: int| 0 <= a < nodes.len() && nodes[a].id == id
}

/// Every edge joins two nodes of the skeleton.
pub open spec fn edges_closed(s: ArgumentSkeleton) -> bool {
    forall|e: int|
        0 <= e < s.edges@.len() ==> is_node_id(s.nodes@, #[trigger] s.edges@[e].0) && is_node_id(s.nodes@, s.edges@[e].1)
}

/// The skeleton built from a plan with a thesis: the conclusion first, then one premise
/// per step of the chain (each supporting the node before it), then one evidence node per
/// finding, each supporting the first premise.
pub open spec fn built_with_thesis(plan: ResearchPlan, findings: Seq<Finding>, s: ArgumentSkeleton) -> bool {
    let chain = plan.reasoning_chain->0@;
    let n = chain.len();
    &&& s.nodes@.len() == 1 + n + findings.len()
    &&& s.nodes@[0].claim@ == plan.core_thesis->0@
    &&& s.nodes@[0].node_type == ArgumentNodeType::Conclusion
    &&& s.nodes@[0].layer == 0
    &&& s.nodes@[0].sources@.len() == 0
    &&& forall|i: int|
        0 <= i < n ==> {
            &&& (#[trigger] s.nodes@[1 + i]).claim@ == chain[i]@
            &&& s.nodes@[1 + i].node_type == ArgumentNodeType::Premise
            &&& s.nodes@[1 + i].layer == i + 1
            &&& s.nodes@[1 + i].sources@.len() == 0
        }
    &&& forall|j: int| 0 <= j < findings.len() ==> evidence_for(#[trigger] s.nodes@[1 + n + j], findings[j], (n + 1) as nat)
    &&& s.edges@.len() == n + findings.len()
    &&& forall|i: int| 0 <= i < n ==> #[trigger] s.edges@[i] == (s.nodes@[1 + i].id, s.nodes@[i].id, ArgumentEdge::Supports)
    &&& forall|j: int| 0 <= j < findings.len() ==> #[trigger] s.edges@[n + j] == (s.nodes@[1 + n + j].id, s.nodes@[1].id, ArgumentEdge::Supports)
    &&& s.chapter_mapping@.len() == 0
}

/// The skeleton built from a plan without a thesis: one evidence node per finding at
/// layer 0, no edge.
pub open spec fn built_flat(findings: Seq<Finding>, s: ArgumentSkeleton) -> bool {
    &&& s.nodes@.len() == findings.len()
    &&& forall|j: int| 0 <= j < findings.len() ==> evidence_for(#[trigger] s.nodes@[j], findings[j], 0)
    &&& s.edges@.len() == 0
    &&& s.chapter_mapping@.len() == 0
}

/// The first premise of a node list, if any.
pub open spec fn first_premise(nodes: Seq<ArgumentNode>) -> Option<u128>
    decreases nodes.len(),
{
    if nodes.len() == 0 {
        None
    } else if nodes[0].node_type == ArgumentNodeType::Premise {
        Some(nodes[0].id)
    } else {
        first_premise(nodes.drop_first())
    }
}

/// An evidence node for a finding, with a fresh identifier.
fn evidence_node(f: &Finding, layer: usize) -> (n: ArgumentNode)
    ensures
        evidence_for(n, *f, layer as nat),
{
    ArgumentNode {
        id: new_id(),
        claim: f.content.clone(),
        node_type: ArgumentNodeType::Evidence,
        layer,
        sources: clone_strings(&f.sources),
    }
}

impl ArgumentBuilder {
    /// Builds the skeleton of a plan and its findings: with a thesis and a chain of
    /// reasoning, conclusion, premises and evidence linked by `Supports` edges; without
    /// them, the findings as evidence alone. Node identifiers are fresh random ones.
    pub fn build(plan: &ResearchPlan, findings: &Vec<Finding>) -> (s: ArgumentSkeleton)
        ensures
            has_thesis(*plan) ==> built_with_thesis(*plan, findings@, s),
            !has_thesis(*plan) ==> built_flat(findings@, s),
            edges_closed(s),
    {
        let mut nodes: Vec<ArgumentNode> = Vec::new();
        let mut edges: Vec<(u128, u128, ArgumentEdge)> = Vec::new();
        match (&plan.core_thesis, &plan.reasoning_chain) {
            (Some(thesis), Some(chain)) if chain.len() > 0 => {
                let n = chain.len();
                nodes.push(ArgumentNode {
                    id: new_id(),
                    claim: thesis.clone(),
                    node_type: ArgumentNodeType::Conclusion,
                    layer: 0,
                    sources: Vec::new(),
                });
                let mut i: usize = 0;
                while i < n
                    invariant
                        n == chain@.len(),
                        plan.reasoning_chain == Some(*chain),
                        plan.core_thesis == Some(*thesis),
                        i <= n,
                        nodes@.len() == 1 + i,
                        edges@.len() == i,
                        nodes@[0].claim@ == thesis@,
                        nodes@[0].node_type == ArgumentNodeType::Conclusion,
                        nodes@[0].layer == 0,
                        nodes@[0].sources@.len() == 0,
                        forall|k: int|
                            0 <= k < i ==> {
                                &&& (#[trigger] nodes@[1 + k]).claim@ == chain@[k]@
                                &&& nodes@[1 + k].node_type == ArgumentNodeType::Premise
                                &&& nodes@[1 + k].layer == k + 1
                                &&& nodes@[1 + k].sources@.len() == 0
                            },
                        forall|k: int| 0 <= k < i ==> #[trigger] edges@[k] == (nodes@[1 + k].id, nodes@[k].id, ArgumentEdge::Supports),
                    decreases n - i,
                {
                    let prev_id = nodes[i].id;
                    let premise_id = new_id();
                    nodes.push(ArgumentNode {
                        id: premise_id,
                        claim: chain[i].clone(),
                        node_type: ArgumentNodeType::Premise,
                        layer: i + 1,
                        sources: Vec::new(),
                    });
                    edges.push((premise_id, prev_id, ArgumentEdge::Supports));
                    i = i + 1;
                }
                let first_premise_id = nodes[1].id;
                let evidence_layer = nodes.len();
                let mut j: usize = 0;
                while j < findings.len()
                    invariant
                        n == chain@.len(),
                        n > 0,
                        plan.reasoning_chain == Some(*chain),
                        plan.core_thesis == Some(*thesis),
                        j <= findings@.len(),
                        nodes@.len() == 1 + n + j,
                        edges@.len() == n + j,
                        first_premise_id == nodes@[1].id,
                        evidence_layer == n + 1,
                        nodes@[0].claim@ == thesis@,
                        nodes@[0].node_type == ArgumentNodeType::Conclusion,
                        nodes@[0].layer == 0,
                        nodes@[0].sources@.len() == 0,
                        forall|k: int|
                            0 <= k < n ==> {
                                &&& (#[trigger] nodes@[1 + k]).claim@ == chain@[k]@
                                &&& nodes@[1 + k].node_type == ArgumentNodeType::Premise
                                &&& nodes@[1 + k].layer == k + 1
                                &&& nodes@[1 + k].sources@.len() == 0
                            },
                        forall|k: int| 0 <= k < n ==> #[trigger] edges@[k] == (nodes@[1 + k].id, nodes@[k].id, ArgumentEdge::Supports),
                        forall|k: int| 0 <= k < j ==> evidence_for(#[trigger] nodes@[1 + n + k], findings@[k], (n + 1) as nat),
                        forall|k: int| 0 <= k < j ==> #[trigger] edges@[n + k] == (nodes@[1 + n + k].id, nodes@[1].id, ArgumentEdge::Supports),
                    decreases findings@.len() - j,
                {
                    let ev = evidence_node(&findings[j], evidence_layer);
                    let ev_id = ev.id;
                    nodes.push(ev);
                    edges.push((ev_id, first_premise_id, ArgumentEdge::Supports));
                    j = j + 1;
                }
                let s = ArgumentSkeleton { nodes, edges, chapter_mapping: Vec::new() };
                assert(edges_closed(s)) by {
                    assert forall|e: int| 0 <= e < s.edges@.len() implies (is_node_id(s.nodes@, #[trigger] s.edges@[e].0)
                        && is_node_id(s.nodes@, s.edges@[e].1)) by {
                        if e < n {
                            assert(s.edges@[e] == (s.nodes@[1 + e].id, s.nodes@[e].id, ArgumentEdge::Supports));
                            assert(s.nodes@[1 + e].id == s.edges@[e].0);
                            assert(s.nodes@[e].id == s.edges@[e].1);
                        } else {
                            let k = e - n;
                            assert(s.edges@[n + k] == (s.nodes@[1 + n + k].id, s.nodes@[1].id, ArgumentEdge::Supports));
                            assert(s.nodes@[1 + n + k].id == s.edges@[e].0);
                            assert(s.nodes@[1].id == s.edges@[e].1);
                        }
                    }
                }
                s
            },
            _ => {
                let mut j: usize = 0;
                while j < findings.len()
                    invariant
                        j <= findings@.len(),
                        nodes@.len() == j,
                        edges@.len() == 0,
                        forall|k: int| 0 <= k < j ==> evidence_for(#[trigger] nodes@[k], findings@[k], 0),
                    decreases findings@.len() - j,
                {
                    nodes.push(evidence_node(&findings[j], 0));
                    j = j + 1;
                }
                ArgumentSkeleton { nodes, edges, chapter_mapping: Vec::new() }
            },
        }
    }
}

proof fn lemma_first_premise(nodes: Seq<ArgumentNode>)
    ensures
        first_premise(nodes) is Some ==> is_node_id(nodes, first_premise(nodes)->0),
        first_premise(nodes) is None ==> forall|k: int| 0 <= k < nodes.len() ==> nodes[k].node_type != ArgumentNodeType::Premise,
        first_premise(nodes) is Some ==> exists|k: int| 0 <= k < nodes.len() && nodes[k].node_type == ArgumentNodeType::Premise
            && nodes[k].id == first_premise(nodes)->0 && forall|m: int| 0 <= m < k ==> nodes[m].node_type != ArgumentNodeType::Premise,
    decreases nodes.len(),
{
    if nodes.len() > 0 && nodes[0].node_type != ArgumentNodeType::Premise {
        let rest = nodes.drop_first();
        lemma_first_premise(rest);
        if first_premise(rest) is Some {
            let k = choose|k: int| 0 <= k < rest.len() && rest[k].node_type == ArgumentNodeType::Premise
                && rest[k].id == first_premise(rest)->0 && forall|m: int| 0 <= m < k ==> rest[m].node_type != ArgumentNodeType::Premise;
            assert(nodes[k + 1] == rest[k]);
            assert forall|m: int| 0 <= m < k + 1 implies nodes[m].node_type != ArgumentNodeType::Premise by {
                if m > 0 {
                    assert(nodes[m] == rest[m - 1]);
                }
            }
        } else {
            assert forall|k: int| 0 <= k < nodes.len() implies nodes[k].node_type != ArgumentNodeType::Premise by {
                if k > 0 {
                    assert(nodes[k] == rest[k - 1]);
                }
            }
        }
    }
}

/// The identifier of the first premise among `nodes`.
fn find_first_premise(nodes: &Vec<ArgumentNode>) -> (r: Option<u128>)
    ensures
        r == first_premise(nodes@),
{
    proof {
        lemma_first_premise(nodes@);
    }
    let mut i: usize = 0;
    while i < nodes.len()
        invariant
            i <= nodes@.len(),
            forall|m: int| 0 <= m < i ==> nodes@[m].node_type != ArgumentNodeType::Premise,
        decreases nodes@.len() - i,
    {
        if nodes[i].node_type == ArgumentNodeType::Premise {
            proof {
                lemma_first_premise(nodes@);
                if first_premise(nodes@) is None {
                    assert(nodes@[i as int].node_type != ArgumentNodeType::Premise);
                } else {
                    let k = choose|k: int| 0 <= k < nodes@.len() && nodes@[k].node_type == ArgumentNodeType::Premise
                        && nodes@[k].id == first_premise(nodes@)->0 && forall|m: int| 0 <= m < k ==> nodes@[m].node_type != ArgumentNodeType::Premise;
                    if k < i {
                    } else if k > i {
                        assert(nodes@[i as int].node_type != ArgumentNodeType::Premise);
                    }
                }
            }
            return Some(nodes[i].id);
        }
        i = i + 1;
    }
    proof {
        lemma_first_premise(nodes@);
        if first_premise(nodes@) is Some {
            let k = choose|k: int| 0 <= k < nodes@.len() && nodes@[k].node_type == ArgumentNodeType::Premise
                && nodes@[k].id == first_premise(nodes@)->0 && forall|m: int| 0 <= m < k ==> nodes@[m].node_type != ArgumentNodeType::Premise;
            assert(nodes@[k].node_type != ArgumentNodeType::Premise);
        }
    }
    None
}

impl ArgumentBuilder {
    /// Adds new findings to a skeleton as evidence nodes at layer 0, each supporting the
    /// skeleton's first premise when it has one; what was there stays as it was.
    pub fn update(skeleton: ArgumentSkeleton, plan: &ResearchPlan, new_findings: &Vec<Finding>) -> (s: ArgumentSkeleton)
        ensures
            s.nodes@.len() == skeleton.nodes@.len() + new_findings@.len(),
            s.nodes@.subrange(0, skeleton.nodes@.len() as int) == skeleton.nodes@,
            forall|j: int| 0 <= j < new_findings@.len() ==> evidence_for(#[trigger] s.nodes@[skeleton.nodes@.len() + j], new_findings@[j], 0),
            first_premise(skeleton.nodes@) is None ==> s.edges@ == skeleton.edges@,
            first_premise(skeleton.nodes@) is Some ==> {
                &&& s.edges@.len() == skeleton.edges@.len() + new_findings@.len()
                &&& s.edges@.subrange(0, skeleton.edges@.len() as int) == skeleton.edges@
                &&& forall|j: int| 0 <= j < new_findings@.len() ==> #[trigger] s.edges@[skeleton.edges@.len() + j]
                    == (s.nodes@[skeleton.nodes@.len() + j].id, first_premise(skeleton.nodes@)->0, ArgumentEdge::Supports)
            },
            s.chapter_mapping@ == skeleton.chapter_mapping@,
            edges_closed(skeleton) ==> edges_closed(s),
    {
        let premise = find_first_premise(&skeleton.nodes);
        proof {
            lemma_first_premise(skeleton.nodes@);
        }
        let ArgumentSkeleton { nodes: mut nodes, edges: mut edges, chapter_mapping } = skeleton;
        let ghost n0 = nodes@;
        let ghost e0 = edges@;
        assert(n0 == skeleton.nodes@);
        assert(e0 == skeleton.edges@);
        assert(premise is Some ==> is_node_id(n0, premise->0));
        let mut j: usize = 0;
        while j < new_findings.len()
            invariant
                j <= new_findings@.len(),
                nodes@.len() == n0.len() + j,
                nodes@.subrange(0, n0.len() as int) == n0,
                forall|k: int| 0 <= k < j ==> evidence_for(#[trigger] nodes@[n0.len() + k], new_findings@[k], 0),
                premise is None ==> edges@ == e0,
                premise is Some ==> {
                    &&& edges@.len() == e0.len() + j
                    &&& edges@.subrange(0, e0.len() as int) == e0
                    &&& forall|k: int| 0 <= k < j ==> #[trigger] edges@[e0.len() + k] == (nodes@[n0.len() + k].id, premise->0, ArgumentEdge::Supports)
                },
            decreases new_findings@.len() - j,
        {
            let ev = evidence_node(&new_findings[j], 0);
            let ev_id = ev.id;
            nodes.push(ev);
            assert(nodes@.subrange(0, n0.len() as int) =~= n0);
            match premise {
                Some(p) => {
                    edges.push((ev_id, p, ArgumentEdge::Supports));
                    assert(edges@.subrange(0, e0.len() as int) =~= e0);
                },
                None => {},
            }
            j = j + 1;
        }
        let s = ArgumentSkeleton { nodes, edges, chapter_mapping };
        proof {
            if edges_closed(skeleton) {
                assert(edges_closed(s)) by {
                assert forall|e: int| 0 <= e < s.edges@.len() implies (is_node_id(s.nodes@, #[trigger] s.edges@[e].0)
                    && is_node_id(s.nodes@, s.edges@[e].1)) by {
                    if e < e0.len() {
                        assert(s.edges@[e] == skeleton.edges@[e]);
                        assert(is_node_id(n0, skeleton.edges@[e].0));
                        assert(is_node_id(n0, skeleton.edges@[e].1));
                        let a = choose|a: int| 0 <= a < n0.len() && n0[a].id == skeleton.edges@[e].0;
                        let b = choose|b: int| 0 <= b < n0.len() && n0[b].id == skeleton.edges@[e].1;
                        assert(s.nodes@[a] == n0[a]);
                        assert(s.nodes@[b] == n0[b]);
                    } else {
                        let k = e - e0.len();
                        assert(s.edges@[e0.len() + k] == (s.nodes@[n0.len() + k].id, premise->0, ArgumentEdge::Supports));
                        let b = choose|b: int| 0 <= b < n0.len() && n0[b].id == premise->0;
                        assert(s.nodes@[b] == n0[b]);
                        assert(s.nodes@[n0.len() + k].id == s.edges@[e].0);
                    }
                }
                }
            }
        }
        s
    }
}

} // verus!
