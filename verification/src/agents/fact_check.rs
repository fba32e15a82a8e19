//! The verifier: it asks the model which sources support or contradict which claims, and
//! reads the answer as a citation graph.
use vstd::prelude::*;
use crate::ids::{uuid_parse, uuid_text};
use crate::json::{array_of, field, str_of, JsonValue};
use crate::model::{CitationEdge, CitationGraph, Claim, Prompt, SourceNode};
use crate::words::{joined, owned, push_str, sviews};

verus! {

broadcast use vstd::string::group_string_axioms;

/// A claim as the verifier sees it: `"- 声明 (<id>)：<text>"`.
pub open spec fn claim_line(c: Claim) -> Seq<char> {
    "- 声明 ("@ + uuid_text(c.id) + ")："@ + c.text@
}

/// A source as the verifier sees it: `"- 来源 (<id>)：[<title>](<url>)"`.
pub open spec fn source_line(s: SourceNode) -> Seq<char> {
    "- 来源 ("@ + uuid_text(s.id) + ")：["@ + s.title@ + "]("@ + s.url@ + ")"@
}

/// The verification request's message.
pub open spec fn verify_user(cs: Seq<Claim>, ss: Seq<SourceNode>) -> Seq<char> {
    "请验证以下声明与来源之间的支持或矛盾关系。\n\n声明：\n"@ + joined(Seq::new(cs.len(), |i: int| claim_line(cs[i])), "\n"@) + "\n\n来源：\n"@
        + joined(Seq::new(ss.len(), |i: int| source_line(ss[i])), "\n"@) + "\n\n对于每个声明，判断它是否被各来源支持或矛盾。\n输出 JSON 格式：\n{\"edges\": [{\"claim_id\": \"...\", \"source_id\": \"...\", \"relation\": \"supports\"}]}"@
}

/// The edge that an item of the reply's `"edges"` array stands for: both identifiers must
/// parse as UUIDs and the relation must be `"supports"` or `"contradicts"`.
pub open spec fn edge_of(v: JsonValue) -> Option<CitationEdge> {
    match (str_of(field(v, "claim_id"@)), str_of(field(v, "source_id"@)), str_of(field(v, "relation"@))) {
        (Some(c), Some(s), Some(rel)) => match (uuid_parse(c), uuid_parse(s)) {
            (Some(claim_id), Some(source_id)) => if rel == "supports"@ {
                Some(CitationEdge::Supports { claim_id, source_id })
            } else if rel == "contradicts"@ {
                Some(CitationEdge::Contradicts { claim_id, source_id })
            } else {
                None
            },
            _ => None,
        },
        _ => None,
    }
}

/// The edges of the reply's items, in order.
pub open spec fn edges_of(items: Seq<JsonValue>) -> Seq<CitationEdge>
    decreases items.len(),
{
    if items.len() == 0 {
        Seq::empty()
    } else {
        let r = edges_of(items.drop_last());
        match edge_of(items.last()) {
            Some(e) => r.push(e),
            None => r,
        }
    }
}

/// The edges of a reply (none when it has no `"edges"` array or was no JSON).
pub open spec fn reply_edges(reply: Option<JsonValue>) -> Seq<CitationEdge> {
    match reply {
        Some(v) => match array_of(field(v, "edges"@)) {
            Some(items) => edges_of(items),
            None => Seq::empty(),
        },
        None => Seq::empty(),
    }
}

/// The agent that checks claims against sources; it holds the model client `L`.
pub struct VerifierAgent<L> {
    llm: L,
}

/// The edge that an item of the reply stands for (see `edge_of`).
fn read_edge(v: &JsonValue) -> (r: Option<CitationEdge>)
    ensures
        r == edge_of(*v),
{
    let c = match v.get("claim_id") {
        Some(x) => x.as_str(),
        None => None,
    };
    let s = match v.get("source_id") {
        Some(x) => x.as_str(),
        None => None,
    };
    let rel = match v.get("relation") {
        Some(x) => x.as_str(),
        None => None,
    };
    match (c, s, rel) {
        (Some(c), Some(s), Some(rel)) => {
            let ci = crate::ids::parse_id(c.as_str());
            let si = crate::ids::parse_id(s.as_str());
            match (ci, si) {
                (Some(claim_id), Some(source_id)) => {
                    if crate::text::str_eq(rel.as_str(), "supports") {
                        Some(CitationEdge::Supports { claim_id, source_id })
                    } else if crate::text::str_eq(rel.as_str(), "contradicts") {
                        Some(CitationEdge::Contradicts { claim_id, source_id })
                    } else {
                        None
                    }
                },
                _ => None,
            }
        },
        _ => None,
    }
}

impl<L> VerifierAgent<L> {
    /// An agent that asks `llm`.
    pub fn new(llm: L) -> (r: Self)
        ensures
            r.llm() == llm,
    {
        VerifierAgent { llm }
    }

    /// The model client the agent asks.
    pub closed spec fn llm(&self) -> L {
        self.llm
    }

    /// The model client the agent asks.
    pub fn client(&self) -> (r: &L)
        ensures
            *r == self.llm(),
    {
        &self.llm
    }

    /// The request that asks how the sources bear on the claims.
    pub fn verify_prompt(&self, claims: &Vec<Claim>, sources: &Vec<SourceNode>) -> (r: Prompt)
        ensures
            r.system@ == "你是一个事实核查专家。你的任务是交叉验证研究发现中的关键声明，检查是否有矛盾信息，并评估每个声明的可信度。只输出纯 JSON，不要 markdown 格式、不要代码块、不要其他文字。"@,
            r.user@ == verify_user(claims@, sources@),
    {
        let mut cl: Vec<String> = Vec::new();
        let mut i: usize = 0;
        while i < claims.len()
            invariant
                i <= claims@.len(),
                sviews(cl@) == Seq::new(i as nat, |k: int| claim_line(claims@[k])),
            decreases claims@.len() - i,
        {
            let c = &claims[i];
            let mut s = owned("- 声明 (");
            let id = crate::ids::id_text(c.id);
            push_str(&mut s, id.as_str());
            push_str(&mut s, ")：");
            push_str(&mut s, c.text.as_str());
            let ghost before = sviews(cl@);
            let ghost sv = s@;
            cl.push(s);
            assert(sviews(cl@) =~= before.push(sv));
            assert(sviews(cl@) =~= Seq::new((i + 1) as nat, |k: int| claim_line(claims@[k])));
            i = i + 1;
        }
        let mut sl: Vec<String> = Vec::new();
        let mut j: usize = 0;
        while j < sources.len()
            invariant
                j <= sources@.len(),
                sviews(sl@) == Seq::new(j as nat, |k: int| source_line(sources@[k])),
            decreases sources@.len() - j,
        {
            let src = &sources[j];
            let mut s = owned("- 来源 (");
            let id = crate::ids::id_text(src.id);
            push_str(&mut s, id.as_str());
            push_str(&mut s, ")：[");
            push_str(&mut s, src.title.as_str());
            push_str(&mut s, "](");
            push_str(&mut s, src.url.as_str());
            push_str(&mut s, ")");
            let ghost before = sviews(sl@);
            let ghost sv = s@;
            sl.push(s);
            assert(sviews(sl@) =~= before.push(sv));
            assert(sviews(sl@) =~= Seq::new((j + 1) as nat, |k: int| source_line(sources@[k])));
            j = j + 1;
        }
        let claims_str = crate::words::join(&cl, "\n");
        let sources_str = crate::words::join(&sl, "\n");
        let mut user = owned("请验证以下声明与来源之间的支持或矛盾关系。\n\n声明：\n");
        push_str(&mut user, claims_str.as_str());
        push_str(&mut user, "\n\n来源：\n");
        push_str(&mut user, sources_str.as_str());
        push_str(&mut user, "\n\n对于每个声明，判断它是否被各来源支持或矛盾。\n输出 JSON 格式：\n{\"edges\": [{\"claim_id\": \"...\", \"source_id\": \"...\", \"relation\": \"supports\"}]}");
        Prompt { system: owned("你是一个事实核查专家。你的任务是交叉验证研究发现中的关键声明，检查是否有矛盾信息，并评估每个声明的可信度。只输出纯 JSON，不要 markdown 格式、不要代码块、不要其他文字。"), user }
    }

    /// The citation graph of the claims and sources with the edges of the reply (`None`
    /// when the reply was no JSON).
    pub fn graph_from_reply(&self, claims: &Vec<Claim>, sources: &Vec<SourceNode>, reply: Option<&JsonValue>) -> (r: CitationGraph)
        ensures
            r.claims@ == claims@,
            r.sources@ == sources@,
            r.edges@ == reply_edges(match reply { Some(v) => Some(*v), None => None }),
    {
        let mut edges: Vec<CitationEdge> = Vec::new();
        let items: Option<&Vec<JsonValue>> = match reply {
            Some(v) => match v.get("edges") {
                Some(a) => a.as_array(),
                None => None,
            },
            None => None,
        };
        match items {
            Some(items) => {
                let mut i: usize = 0;
                while i < items.len()
                    invariant
                        i <= items@.len(),
                        edges@ == edges_of(items@.subrange(0, i as int)),
                    decreases items@.len() - i,
                {
                    proof {
                        assert(items@.subrange(0, i + 1).drop_last() =~= items@.subrange(0, i as int));
                    }
                    match read_edge(&items[i]) {
                        Some(e) => {
                            edges.push(e);
                        },
                        None => {},
                    }
                    i = i + 1;
                }
                assert(items@.subrange(0, items@.len() as int) =~= items@);
            },
            None => {},
        }
        CitationGraph { claims: clone_claims(claims), sources: clone_sources(sources), edges }
    }
}

/// Copies of the claims.
fn clone_claims(v: &Vec<Claim>) -> (r: Vec<Claim>)
    ensures
        r@ == v@,
{
    let mut r: Vec<Claim> = Vec::new();
    let mut i: usize = 0;
    while i < v.len()
        invariant
            i <= v@.len(),
            r@ == v@.subrange(0, i as int),
        decreases v@.len() - i,
    {
        r.push(v[i].duplicate());
        assert(r@ =~= v@.subrange(0, i + 1));
        i = i + 1;
    }
    assert(v@.subrange(0, v@.len() as int) =~= v@);
    r
}

/// Copies of the sources.
fn clone_sources(v: &Vec<SourceNode>) -> (r: Vec<SourceNode>)
    ensures
        r@ == v@,
{
    let mut r: Vec<SourceNode> = Vec::new();
    let mut i: usize = 0;
    while i < v.len()
        invariant
            i <= v@.len(),
            r@ == v@.subrange(0, i as int),
        decreases v@.len() - i,
    {
        r.push(v[i].duplicate());
        assert(r@ =~= v@.subrange(0, i + 1));
        i = i + 1;
    }
    assert(v@.subrange(0, v@.len() as int) =~= v@);
    r
}

} // verus!
