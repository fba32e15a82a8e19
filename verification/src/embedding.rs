//! The errors of the embedding service.
use vstd::prelude::*;
use crate::words::{owned, push_str};

verus! {

broadcast use vstd::string::group_string_axioms;

/// What went wrong with an embedding.
#[derive(Clone, Copy, Debug, PartialEq, Eq, Structural)]
pub enum EmbeddingErrorKind {
    ModelLoad,
    Inference,
    NotAvailable,
    Timeout,
}

/// An error of the embedding service, with its kind and message.
pub struct EmbeddingError {
    pub message: String,
    pub kind: EmbeddingErrorKind,
}

/// The name of an error kind, as its debug form prints it.
pub open spec fn kind_name(k: EmbeddingErrorKind) -> Seq<char> {
    match k {
        EmbeddingErrorKind::ModelLoad => "ModelLoad"@,
        EmbeddingErrorKind::Inference => "Inference"@,
        EmbeddingErrorKind::NotAvailable => "NotAvailable"@,
        EmbeddingErrorKind::Timeout => "Timeout"@,
    }
}

impl EmbeddingError {
    /// The error's text: `"[<kind>] <message>"`.
    pub fn text(&self) -> (r: String)
        ensures
            r@ == "["@ + kind_name(self.kind) + "] "@ + self.message@,
    {
        let mut r = owned("[");
        let name = match self.kind {
            EmbeddingErrorKind::ModelLoad => "ModelLoad",
            EmbeddingErrorKind::Inference => "Inference",
            EmbeddingErrorKind::NotAvailable => "NotAvailable",
            EmbeddingErrorKind::Timeout => "Timeout",
        };
        push_str(&mut r, name);
        push_str(&mut r, "] ");
        push_str(&mut r, self.message.as_str());
        r
    }
}

} // verus!
