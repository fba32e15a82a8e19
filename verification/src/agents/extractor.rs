//! Choosing which search results are worth extracting.
use vstd::prelude::*;
use crate::fragments::{fragment_chars, fragments_of};
use crate::model::SearchResult;
use crate::search::{any_keyword_in, result_text, result_text_of, views};
use crate::text::{chars_of, contains_chars, contains_seq};

verus! {

/// Extracts page content for search results, skipping blocked domains and results that
/// do not mention the task. `E` is the content extractor that fetches pages.
pub struct ExtractorAgent<E> {
    extractor: E,
    blocked_domains: Vec<String>,
}

/// A URL is blocked when it contains one of the blocked domains.
pub open spec fn url_blocked(url: Seq<char>, blocked: Seq<Seq<char>>) -> bool {
    exists|i: int| 0 <= i < blocked.len() && contains_seq(url, blocked[i])
}

/// A result is relevant to a context when the context has no fragment, or its lower-cased
/// title and snippet contain one of them.
pub open spec fn relevant_to(r: SearchResult, context: Seq<char>) -> bool {
    let frags = fragments_of(context);
    frags.len() == 0 || exists|i: int| 0 <= i < frags.len() && contains_seq(result_text(r), frags[i])
}

impl<E> ExtractorAgent<E> {
    pub fn new(extractor: E, blocked_domains: Vec<String>) -> (r: Self)
        ensures
            r.blocked_domains() == views(blocked_domains@),
            r.content_extractor() == extractor,
    {
        ExtractorAgent { extractor, blocked_domains }
    }

    /// The blocked domains.
    pub closed spec fn blocked_domains(&self) -> Seq<Seq<char>> {
        views(self.blocked_domains@)
    }

    /// The content extractor the agent was made with.
    pub closed spec fn content_extractor(&self) -> E {
        self.extractor
    }

    /// The content extractor.
    pub fn extractor(&self) -> (r: &E)
        ensures
            *r == self.content_extractor(),
    {
        &self.extractor
    }

    /// Whether `url` is on a blocked domain.
    pub fn is_blocked(&self, url: &str) -> (r: bool)
        ensures
            r == url_blocked(url@, self.blocked_domains()),
    {
        let u = chars_of(url);
        let mut i: usize = 0;
        while i < self.blocked_domains.len()
            invariant
                i <= self.blocked_domains@.len(),
                u@ == url@,
                forall|j: int| 0 <= j < i ==> !contains_seq(url@, #[trigger] self.blocked_domains@[j]@),
            decreases self.blocked_domains@.len() - i,
        {
            let d = chars_of(self.blocked_domains[i].as_str());
            if contains_chars(&u, &d) {
                assert(contains_seq(url@, self.blocked_domains()[i as int]));
                return true;
            }
            i = i + 1;
        }
        false
    }

    /// Whether a result mentions a fragment of the context.
    pub fn is_relevant(&self, result: &SearchResult, context: &str) -> (r: bool)
        ensures
            r == relevant_to(*result, context@),
    {
        let frags = fragment_chars(context);
        if frags.len() == 0 {
            return true;
        }
        let text = result_text_of(result);
        let hit = any_keyword_in(&text, &frags);
        proof {
            let frs = fragments_of(context@);
            if hit {
                let k = choose|k: int| 0 <= k < frags@.len() && contains_seq(text@, frags@[k]@);
                assert(contains_seq(result_text(*result), frs[k]));
            }
            if exists|k: int| 0 <= k < frs.len() && contains_seq(result_text(*result), frs[k]) {
                let k = choose|k: int| 0 <= k < frs.len() && contains_seq(result_text(*result), frs[k]);
                assert(contains_seq(text@, frags@[k]@));
            }
        }
        hit
    }

    /// The results to extract, in order: those neither blocked nor irrelevant to `context`.
    pub fn select_targets(&self, results: &Vec<SearchResult>, context: &str) -> (r: Vec<SearchResult>)
        ensures
            r@ == results@.filter(|x: SearchResult| !url_blocked(x.url@, self.blocked_domains()) && relevant_to(x, context@)),
    {
        let ghost pred = |x: SearchResult| !url_blocked(x.url@, self.blocked_domains()) && relevant_to(x, context@);
        let mut out: Vec<SearchResult> = Vec::new();
        let mut i: usize = 0;
        while i < results.len()
            invariant
                i <= results@.len(),
                pred == (|x: SearchResult| !url_blocked(x.url@, self.blocked_domains()) && relevant_to(x, context@)),
                out@ == results@.subrange(0, i as int).filter(pred),
            decreases results@.len() - i,
        {
            proof {
                reveal(Seq::filter);
                assert(results@.subrange(0, i + 1).drop_last() =~= results@.subrange(0, i as int));
            }
            if !self.is_blocked(results[i].url.as_str()) && self.is_relevant(&results[i], context) {
                out.push(results[i].duplicate());
            }
            i = i + 1;
        }
        assert(results@.subrange(0, results@.len() as int) =~= results@);
        out
    }
}

} // verus!
