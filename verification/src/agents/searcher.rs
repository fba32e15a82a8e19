//! The searcher: it turns a sub-task into search queries, through the query planner, and
//! the queries into requests to the search engines.
use vstd::prelude::*;
use crate::agents::query_planner::QueryPlannerAgent;
use crate::model::SearchQuery;
use crate::words::{owned, sviews};

verus! {

broadcast use vstd::string::group_string_axioms;

/// The agent that searches; it holds the engines `P` and a query planner asking `L`.
pub struct SearcherAgent<L, P> {
    engine_pool: P,
    query_planner: QueryPlannerAgent<L>,
}

impl<L, P> SearcherAgent<L, P> {
    /// An agent that plans queries with `llm` and searches `engine_pool`.
    pub fn new(llm: L, engine_pool: P) -> (r: Self)
        ensures
            r.engines() == engine_pool,
            r.planner().llm() == llm,
    {
        SearcherAgent { engine_pool, query_planner: QueryPlannerAgent::new(llm) }
    }

    /// The engines the agent searches.
    pub closed spec fn engines(&self) -> P {
        self.engine_pool
    }

    /// The query planner the agent asks.
    pub closed spec fn planner(&self) -> QueryPlannerAgent<L> {
        self.query_planner
    }

    /// The engines the agent searches.
    pub fn engine_pool(&self) -> (r: &P)
        ensures
            *r == self.engines(),
    {
        &self.engine_pool
    }

    /// The query planner the agent asks.
    pub fn query_planner(&self) -> (r: &QueryPlannerAgent<L>)
        ensures
            *r == self.planner(),
    {
        &self.query_planner
    }

    /// The categories and queries for a task: those the planner gave, or, when planning
    /// failed, the general category and the task itself as the only query.
    pub fn queries_or_fallback(&self, planned: Option<(String, Vec<String>)>, task: &str) -> (r: (String, Vec<String>))
        ensures
            match planned {
                Some((c, q)) => r.0 == c && r.1 == q,
                None => r.0@ == "general"@ && sviews(r.1@) == seq![task@],
            },
    {
        match planned {
            Some(p) => p,
            None => {
                let mut qs: Vec<String> = Vec::new();
                qs.push(owned(task));
                assert(sviews(qs@) =~= seq![task@]);
                (crate::model::default_search_categories(), qs)
            },
        }
    }

    /// The request sent to the engines for one query.
    pub fn search_query(&self, query: &str, max_results: usize, categories: &str) -> (r: SearchQuery)
        ensures
            r.query@ == query@,
            r.max_results == max_results,
            r.region is None,
            r.language is None,
            r.categories@ == categories@,
    {
        SearchQuery { query: owned(query), max_results, region: None, language: None, categories: owned(categories) }
    }
}

} // verus!
