//! Zhiyuan: the computational core of a deep-research pipeline.
//!
//! The crate holds the parts of the research pipeline that decide and
//! compute: cleaning model output, normalising and filtering search hits,
//! deriving keyword fragments, scoring coverage and depth, building the
//! argument skeleton, citation keys and the Typst source map.

pub mod text;
pub mod util;
pub mod ids;
pub mod model;
pub mod search;
pub mod json;
pub mod fragments;
pub mod agents;
pub mod quality;
pub mod argument;
pub mod words;
pub mod orchestrator;
pub mod tui;
pub mod citation;
pub mod pdf;
pub mod extract;
pub mod robust;
pub mod embedding;
pub mod memory;
pub mod llm;
