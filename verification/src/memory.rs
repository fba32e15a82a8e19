//! The keys under which the research memory stores its records. The store itself is left
//! to the caller.
use vstd::prelude::*;
use crate::ids::uuid_text;
use crate::words::{decimal, owned, push_str, starts_with};

verus! {

broadcast use vstd::string::group_string_axioms;

/// The key prefix of one iteration's findings: `"<research>:iteration:<n>:"`.
pub open spec fn episode_prefix_text(research_id: Seq<char>, iteration: nat) -> Seq<char> {
    research_id + ":iteration:"@ + decimal(iteration) + ":"@
}

/// The key of a finding of an iteration: its iteration's prefix and the finding's
/// identifier.
pub open spec fn episode_key_text(research_id: Seq<char>, iteration: nat, finding_id: u128) -> Seq<char> {
    episode_prefix_text(research_id, iteration) + uuid_text(finding_id)
}

/// The key prefix of one iteration's findings (see `episode_prefix_text`).
pub fn episode_prefix(research_id: &str, iteration: usize) -> (r: String)
    ensures
        r@ == episode_prefix_text(research_id@, iteration as nat),
{
    let mut r = owned(research_id);
    push_str(&mut r, ":iteration:");
    let n = crate::words::decimal_text(iteration as u64);
    push_str(&mut r, n.as_str());
    push_str(&mut r, ":");
    r
}

/// The key of a finding of an iteration (see `episode_key_text`).
pub fn episode_key(research_id: &str, iteration: usize, finding_id: u128) -> (r: String)
    ensures
        r@ == episode_key_text(research_id@, iteration as nat, finding_id),
{
    let mut r = episode_prefix(research_id, iteration);
    let id = crate::ids::id_text(finding_id);
    push_str(&mut r, id.as_str());
    r
}

/// The key of a named entity: `"entity:<name>"`.
pub fn entity_key(name: &str) -> (r: String)
    ensures
        r@ == "entity:"@ + name@,
{
    let mut r = owned("entity:");
    push_str(&mut r, name);
    r
}

/// A finding stored for an iteration is found again under that iteration's prefix.
pub proof fn lemma_stored_key_under_prefix(research_id: Seq<char>, iteration: nat, finding_id: u128)
    ensures
        starts_with(episode_key_text(research_id, iteration, finding_id), episode_prefix_text(research_id, iteration)),
{
    let p = episode_prefix_text(research_id, iteration);
    let k = episode_key_text(research_id, iteration, finding_id);
    assert(k.subrange(0, p.len() as int) =~= p);
}

} // verus!
