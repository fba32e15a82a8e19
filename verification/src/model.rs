//! The data that flows through a research session.
//!
//! Identifiers are `u128` (the value of a UUID); instants are Unix seconds; scores that
//! the pipeline reports as fractions are held exactly, as a numerator over a denominator.
use vstd::prelude::*;
use crate::text::clone_strings;
use crate::words::{owned, push_str};

verus! {

/// An exact fraction `num / den`; a score is reported as the quotient of the two.
#[derive(Clone, Copy, Debug, PartialEq, Eq, Structural)]
pub struct Ratio {
    pub num: u128,
    pub den: u128,
}

/// The state of a sub-task of a research plan.
#[derive(Clone, Copy, Debug, PartialEq, Eq, Structural)]
pub enum TaskStatus {
    Pending,
    InProgress,
    Completed,
    Failed,
    Skipped,
}

/// One independently searchable aspect of a research question.
pub struct SubTask {
    pub id: u128,
    pub description: String,
    pub status: TaskStatus,
    pub dependencies: Vec<u128>,
}

/// The plan that the planner makes of a research question.
pub struct ResearchPlan {
    pub query_id: u128,
    pub sub_tasks: Vec<SubTask>,
    pub outline: Option<String>,
    /// The core thesis, when the planner produced one.
    pub core_thesis: Option<String>,
    /// The expected chain of reasoning, when the planner produced one.
    pub reasoning_chain: Option<Vec<String>>,
}

/// A query sent to a search engine.
pub struct SearchQuery {
    pub query: String,
    pub max_results: usize,
    pub region: Option<String>,
    pub language: Option<String>,
    pub categories: String,
}

/// One hit returned by a search engine.
pub struct SearchResult {
    pub title: String,
    pub url: String,
    pub snippet: String,
    pub source: String,
    /// When the hit was fetched, in Unix seconds.
    pub fetch_time: i64,
}

impl SearchResult {
    /// A copy of the hit, field for field.
    pub fn duplicate(&self) -> (r: SearchResult)
        ensures
            r == *self,
    {
        SearchResult {
            title: self.title.clone(),
            url: self.url.clone(),
            snippet: self.snippet.clone(),
            source: self.source.clone(),
            fetch_time: self.fetch_time,
        }
    }
}

/// Text extracted from a page, with the share of context keywords that it holds.
pub struct ExtractedContent {
    pub url: String,
    pub title: String,
    pub text: String,
    pub relevance: Ratio,
}

/// How a finding bears on the argument being built.
#[derive(Clone, Copy, Debug, PartialEq, Eq, Structural)]
pub enum EpistemicStatus {
    /// Strengthens a claim of the argument.
    Supports,
    /// Weakens a claim of the argument.
    Undermines,
    /// Widens the scope of the argument.
    Extends,
    /// Does not bear on the argument.
    Irrelevant,
}

/// One finding of the research, with the URLs that back it.
pub struct Finding {
    pub id: u128,
    pub content: String,
    pub sources: Vec<String>,
    pub sub_task_id: Option<u128>,
    pub iteration: usize,
    pub epistemic_status: Option<EpistemicStatus>,
}

/// The role of a node in the argument skeleton.
#[derive(Clone, Copy, Debug, PartialEq, Eq, Structural)]
pub enum ArgumentNodeType {
    /// A premise: an assumption or a known fact.
    Premise,
    /// Evidence: data or a citation that backs a claim.
    Evidence,
    /// A conclusion drawn from premises and evidence.
    Conclusion,
}

/// One node of the argument skeleton.
pub struct ArgumentNode {
    pub id: u128,
    pub claim: String,
    pub node_type: ArgumentNodeType,
    /// The depth in the chain of reasoning (0 is the most basic).
    pub layer: usize,
    pub sources: Vec<String>,
}

/// The relation that an edge of the argument skeleton stands for.
#[derive(Clone, Copy, Debug, PartialEq, Eq, Structural)]
pub enum ArgumentEdge {
    Supports,
    Undermines,
    Extends,
}

/// The reasoning structure of a piece of research: nodes, and edges `(from, to, relation)`.
pub struct ArgumentSkeleton {
    pub nodes: Vec<ArgumentNode>,
    pub edges: Vec<(u128, u128, ArgumentEdge)>,
    /// Chapter index to skeleton node.
    pub chapter_mapping: Vec<(usize, u128)>,
}

/// The findings gathered for one query.
pub struct KnowledgeBase {
    pub query_id: u128,
    pub findings: Vec<Finding>,
}

/// The three measures of a knowledge base, each as an exact fraction.
#[derive(Clone, Copy, Debug, PartialEq, Eq, Structural)]
pub struct QualityTally {
    pub coverage: Ratio,
    pub freshness: Ratio,
    pub depth: Ratio,
}

/// A claim to be checked against sources.
pub struct Claim {
    pub id: u128,
    pub text: String,
    pub confidence: Ratio,
}

/// A cited source.
pub struct SourceNode {
    pub id: u128,
    pub url: String,
    pub title: String,
}

/// Whether a source supports or contradicts a claim.
#[derive(Clone, Copy, Debug, PartialEq, Eq, Structural)]
pub enum CitationEdge {
    Supports { claim_id: u128, source_id: u128 },
    Contradicts { claim_id: u128, source_id: u128 },
}

/// Claims, sources and the relations between them.
pub struct CitationGraph {
    pub claims: Vec<Claim>,
    pub sources: Vec<SourceNode>,
    pub edges: Vec<CitationEdge>,
}

/// One section of a report.
pub struct ReportSection {
    pub heading: String,
    pub content: String,
    pub citations: Vec<String>,
}

/// A research report.
pub struct ResearchReport {
    pub query_id: u128,
    pub title: String,
    pub sections: Vec<ReportSection>,
    pub citation_graph: CitationGraph,
    pub quality: QualityTally,
    pub argument_skeleton: Option<ArgumentSkeleton>,
    /// When the report was made, in Unix seconds.
    pub generated_at: i64,
}

/// One chapter of a long report with the findings assigned to it.
pub struct ReportChapter {
    pub title: String,
    pub description: String,
    pub findings: Vec<Finding>,
}

/// The model family a provider belongs to.
#[derive(Clone, Copy, Debug, PartialEq, Eq, Structural)]
pub enum ModelTier {
    Reasoning,
    Main,
    Fast,
}

/// A language-model provider.
pub trait ModelProvider {
    fn name(&self) -> String;
    fn tier(&self) -> ModelTier;
}

/// Search settings.
pub struct SearchConfig {
    pub max_results: usize,
    pub searxng_url: String,
    pub blocked_domains: Vec<String>,
}

/// Language-model endpoint settings.
pub struct LlmConfig {
    pub api_key: String,
    pub base_url: String,
    pub main_model: String,
}

/// Research loop settings.
pub struct ResearchSettings {
    pub max_iterations: usize,
    pub concurrency: usize,
    pub long_report: bool,
    pub cross_validate: bool,
}

/// PDF settings.
pub struct PdfConfig {
    pub font_paths: Vec<String>,
}

/// Embedding settings.
pub struct EmbeddingConfig {
    /// Model name: bge-large-zh, bge-small-zh or multilingual-e5-base.
    pub model: String,
}

/// The whole configuration.
pub struct ResearchConfig {
    pub search: SearchConfig,
    pub llm: LlmConfig,
    pub research: ResearchSettings,
    pub pdf: PdfConfig,
    pub embedding: EmbeddingConfig,
}


/// A request to a language model: the system prompt and the user's message.
pub struct Prompt {
    pub system: String,
    pub user: String,
}

/// A research question, with the user's clarification when there is one.
pub struct ResearchQuery {
    pub id: u128,
    pub query: String,
    pub clarification: Option<String>,
}

/// The text that a query stands for: the question, then the clarification after
/// `"\n\nAdditional context: "` when there is one.
pub open spec fn full_query_text(q: ResearchQuery) -> Seq<char> {
    match q.clarification {
        Some(c) => q.query@ + "\n\nAdditional context: "@ + c@,
        None => q.query@,
    }
}

impl ResearchQuery {
    /// A new query with a fresh identifier and no clarification.
    pub fn new(query: String) -> (r: ResearchQuery)
        ensures
            r.query == query,
            r.clarification is None,
    {
        ResearchQuery { id: crate::ids::new_id(), query, clarification: None }
    }

    /// The question together with its clarification.
    pub fn full_query(&self) -> (r: String)
        ensures
            r@ == full_query_text(*self),
    {
        match &self.clarification {
            Some(c) => {
                let mut r = self.query.clone();
                push_str(&mut r, "\n\nAdditional context: ");
                push_str(&mut r, c.as_str());
                r
            },
            None => self.query.clone(),
        }
    }
}

/// A direction worth exploring further; `priority_milli` is the priority in thousandths,
/// rounded down (a priority of `0.8` is `800`).
pub struct ResearchDirection {
    pub description: String,
    pub rationale: String,
    pub priority_milli: i64,
}

/// The errors of the pipeline.
pub enum Error {
    Search(String),
    Extract(String),
    Memory(String),
    Orchestration(String),
    Agent(String),
    Llm(String),
    Robust(String),
    Config(String),
    Serde(String),
    Io(String),
}

/// The text of an error as the pipeline shows it.
pub open spec fn error_text(e: Error) -> Seq<char> {
    match e {
        Error::Search(s) => "Search error: "@ + s@,
        Error::Extract(s) => "Extract error: "@ + s@,
        Error::Memory(s) => "Memory error: "@ + s@,
        Error::Orchestration(s) => "Orchestration error: "@ + s@,
        Error::Agent(s) => "Agent error: "@ + s@,
        Error::Llm(s) => "LLM error: "@ + s@,
        Error::Robust(s) => "Robust execution error: "@ + s@,
        Error::Config(s) => "Config error: "@ + s@,
        Error::Serde(s) => "Serialization error: "@ + s@,
        Error::Io(s) => s@,
    }
}

impl Error {
    /// The text of the error (see `error_text`).
    pub fn message(&self) -> (r: String)
        ensures
            r@ == error_text(*self),
    {
        let (head, s) = match self {
            Error::Search(s) => ("Search error: ", s),
            Error::Extract(s) => ("Extract error: ", s),
            Error::Memory(s) => ("Memory error: ", s),
            Error::Orchestration(s) => ("Orchestration error: ", s),
            Error::Agent(s) => ("Agent error: ", s),
            Error::Llm(s) => ("LLM error: ", s),
            Error::Robust(s) => ("Robust execution error: ", s),
            Error::Config(s) => ("Config error: ", s),
            Error::Serde(s) => ("Serialization error: ", s),
            Error::Io(s) => ("", s),
        };
        let mut r = owned(head);
        push_str(&mut r, s.as_str());
        proof {
            if self is Io {
                reveal_strlit("");
                assert(r@ =~= s@);
            }
        }
        r
    }
}

/// What the research loop tells whoever follows it.
pub enum ProgressUpdate {
    Started { max_iterations: usize, tasks: Vec<String> },
    Phase { name: String, message: String },
    Iteration {
        iteration: usize,
        max_iterations: usize,
        quality: Option<QualityTally>,
        findings_count: usize,
        sources_count: usize,
    },
    TaskPhase { task_desc: String, phase: String },
    Report(ResearchReport),
    Error(String),
}

/// Receives the progress of a research session.
pub trait ProgressReporter {
    fn report(&self, update: ProgressUpdate);
}

/// A reporter that drops every update.
pub struct NullProgressReporter;

impl ProgressReporter for NullProgressReporter {
    fn report(&self, update: ProgressUpdate) {
    }
}

/// Two findings with the same fields (their source lists compared by content).
pub open spec fn same_finding(a: Finding, b: Finding) -> bool {
    &&& a.id == b.id
    &&& a.content == b.content
    &&& a.sources@ == b.sources@
    &&& a.sub_task_id == b.sub_task_id
    &&& a.iteration == b.iteration
    &&& a.epistemic_status == b.epistemic_status
}

impl Finding {
    /// A copy of the finding.
    pub fn duplicate(&self) -> (r: Finding)
        ensures
            same_finding(r, *self),
    {
        Finding {
            id: self.id,
            content: self.content.clone(),
            sources: clone_strings(&self.sources),
            sub_task_id: self.sub_task_id,
            iteration: self.iteration,
            epistemic_status: self.epistemic_status,
        }
    }
}

impl Claim {
    /// A copy of the claim.
    pub fn duplicate(&self) -> (r: Claim)
        ensures
            r == *self,
    {
        Claim { id: self.id, text: self.text.clone(), confidence: self.confidence }
    }
}

impl SourceNode {
    /// A copy of the source.
    pub fn duplicate(&self) -> (r: SourceNode)
        ensures
            r == *self,
    {
        SourceNode { id: self.id, url: self.url.clone(), title: self.title.clone() }
    }
}

impl CitationGraph {
    /// The graph with no claim, source or edge.
    pub fn empty() -> (r: CitationGraph)
        ensures
            r.claims@.len() == 0,
            r.sources@.len() == 0,
            r.edges@.len() == 0,
    {
        CitationGraph { claims: Vec::new(), sources: Vec::new(), edges: Vec::new() }
    }

    /// A copy of the graph.
    pub fn duplicate(&self) -> (r: CitationGraph)
        ensures
            r.claims@ == self.claims@,
            r.sources@ == self.sources@,
            r.edges@ == self.edges@,
    {
        let mut claims: Vec<Claim> = Vec::new();
        let mut i: usize = 0;
        while i < self.claims.len()
            invariant
                i <= self.claims@.len(),
                claims@ == self.claims@.subrange(0, i as int),
            decreases self.claims@.len() - i,
        {
            claims.push(self.claims[i].duplicate());
            assert(claims@ =~= self.claims@.subrange(0, i + 1));
            i = i + 1;
        }
        let mut sources: Vec<SourceNode> = Vec::new();
        let mut j: usize = 0;
        while j < self.sources.len()
            invariant
                j <= self.sources@.len(),
                sources@ == self.sources@.subrange(0, j as int),
            decreases self.sources@.len() - j,
        {
            sources.push(self.sources[j].duplicate());
            assert(sources@ =~= self.sources@.subrange(0, j + 1));
            j = j + 1;
        }
        let mut edges: Vec<CitationEdge> = Vec::new();
        let mut k: usize = 0;
        while k < self.edges.len()
            invariant
                k <= self.edges@.len(),
                edges@ == self.edges@.subrange(0, k as int),
            decreases self.edges@.len() - k,
        {
            edges.push(self.edges[k]);
            assert(edges@ =~= self.edges@.subrange(0, k + 1));
            k = k + 1;
        }
        assert(claims@ =~= self.claims@);
        assert(sources@ =~= self.sources@);
        assert(edges@ =~= self.edges@);
        CitationGraph { claims, sources, edges }
    }
}

/// The search categories used when none is given: `"general"`.
pub fn default_search_categories() -> (r: String)
    ensures
        r@ == "general"@,
{
    owned("general")
}

/// The embedding model used when none is configured: `"bge-large-zh"`.
pub fn default_embedding_model() -> (r: String)
    ensures
        r@ == "bge-large-zh"@,
{
    owned("bge-large-zh")
}

/// The SearXNG instance used when none is configured: `"http://localhost:8888"`.
pub fn default_searxng_url() -> (r: String)
    ensures
        r@ == "http://localhost:8888"@,
{
    owned("http://localhost:8888")
}

/// The number of research iterations when none is configured: 4.
pub fn default_max_iterations() -> (r: usize)
    ensures
        r == 4,
{
    4
}

/// The number of tasks run at once when none is configured: 4.
pub fn default_concurrency() -> (r: usize)
    ensures
        r == 4,
{
    4
}

impl Default for EmbeddingConfig {
    fn default() -> (r: EmbeddingConfig)
        ensures
            r.model@ == "bge-large-zh"@,
    {
        EmbeddingConfig { model: default_embedding_model() }
    }
}

/// The identifiers among `items` that are texts in a form `uuid::Uuid::parse_str`
/// accepts, in order.
pub open spec fn parsed_ids(items: Seq<crate::json::JsonValue>) -> Seq<u128>
    decreases items.len(),
{
    if items.len() == 0 {
        Seq::empty()
    } else {
        let r = parsed_ids(items.drop_last());
        match items.last() {
            crate::json::JsonValue::Str(s) => match crate::ids::uuid_parse(s@) {
                Some(id) => r.push(id),
                None => r,
            },
            _ => r,
        }
    }
}

/// The sub-task that an item of a plan's `"sub_tasks"` array describes: its
/// `"description"` (empty when missing) and the identifiers in its `"dependencies"`.
pub open spec fn task_item(v: crate::json::JsonValue) -> (Seq<char>, Seq<u128>) {
    (
        crate::agents::synthesizer::text_at(v, "description"@),
        match crate::json::array_of(crate::json::field(v, "dependencies"@)) {
            Some(items) => parsed_ids(items),
            None => Seq::empty(),
        },
    )
}

/// The items of a plan's `"sub_tasks"` array (none when there is no such array).
pub open spec fn task_items(parsed: crate::json::JsonValue) -> Seq<crate::json::JsonValue> {
    match crate::json::array_of(crate::json::field(parsed, "sub_tasks"@)) {
        Some(items) => items,
        None => Seq::empty(),
    }
}

/// The identifiers among a JSON array's texts (see `parsed_ids`).
fn ids_of(items: &Vec<crate::json::JsonValue>) -> (r: Vec<u128>)
    ensures
        r@ == parsed_ids(items@),
{
    let mut r: Vec<u128> = Vec::new();
    let mut i: usize = 0;
    while i < items.len()
        invariant
            i <= items@.len(),
            r@ == parsed_ids(items@.subrange(0, i as int)),
        decreases items@.len() - i,
    {
        proof {
            assert(items@.subrange(0, i + 1).drop_last() =~= items@.subrange(0, i as int));
        }
        match &items[i] {
            crate::json::JsonValue::Str(s) => match crate::ids::parse_id(s.as_str()) {
                Some(id) => {
                    r.push(id);
                },
                None => {},
            },
            _ => {},
        }
        i = i + 1;
    }
    assert(items@.subrange(0, items@.len() as int) =~= items@);
    r
}

/// The sub-tasks of a planner's reply: one pending sub-task per item of its
/// `"sub_tasks"` array (see `task_item`), each with a fresh identifier.
pub fn sub_task_from_value(parsed: &crate::json::JsonValue) -> (r: Vec<SubTask>)
    ensures
        r@.len() == task_items(*parsed).len(),
        forall|k: int| 0 <= k < r@.len() ==> {
            &&& (#[trigger] r@[k]).description@ == task_item(task_items(*parsed)[k]).0
            &&& r@[k].dependencies@ == task_item(task_items(*parsed)[k]).1
            &&& r@[k].status == TaskStatus::Pending
        },
{
    let mut r: Vec<SubTask> = Vec::new();
    let items = match parsed.get("sub_tasks") {
        Some(a) => match a.as_array() {
            Some(items) => items,
            None => return r,
        },
        None => return r,
    };
    let mut i: usize = 0;
    while i < items.len()
        invariant
            i <= items@.len(),
            task_items(*parsed) == items@,
            r@.len() == i,
            forall|k: int| 0 <= k < i ==> {
                &&& (#[trigger] r@[k]).description@ == task_item(items@[k]).0
                &&& r@[k].dependencies@ == task_item(items@[k]).1
                &&& r@[k].status == TaskStatus::Pending
            },
        decreases items@.len() - i,
    {
        let v = &items[i];
        let description = crate::agents::synthesizer::text_under(v, "description");
        let dependencies = match v.get("dependencies") {
            Some(d) => match d.as_array() {
                Some(ds) => ids_of(ds),
                None => Vec::new(),
            },
            None => Vec::new(),
        };
        r.push(SubTask { id: crate::ids::new_id(), description, status: TaskStatus::Pending, dependencies });
        i = i + 1;
    }
    r
}

} // verus!
