//! The research agents. Each agent builds the requests it sends to a language model or
//! to a content extractor, and turns the replies into the pipeline's data; the calls
//! themselves are made by whoever holds the agent.
pub mod extractor;
pub mod synthesizer;
pub mod writer;
pub mod fact_check;
pub mod planner;
pub mod query_planner;
pub mod searcher;
