//! Checking what the agents return, the schema of a flat agent output, and when a failed
//! operation is retried. Waiting and timing out are left to the caller.
use vstd::prelude::*;
use crate::json::{entry_value, JsonValue};
use crate::model::Error;
use crate::words::{owned, push_str, sviews};

verus! {

broadcast use vstd::string::group_string_axioms;

/// Whether an object's entries hold the key.
pub open spec fn has_key(entries: Seq<(String, JsonValue)>, key: Seq<char>) -> bool {
    entry_value(entries, key) is Some
}

/// The first of the expected fields that the entries lack, by index, or -1.
pub open spec fn first_missing(entries: Seq<(String, JsonValue)>, fields: Seq<Seq<char>>, k: int) -> int
    decreases fields.len() - k,
{
    if k < 0 || k >= fields.len() {
        -1
    } else if !has_key(entries, fields[k]) {
        k
    } else {
        first_missing(entries, fields, k + 1)
    }
}

proof fn lemma_entry_value_push(entries: Seq<(String, JsonValue)>, e: (String, JsonValue), q: Seq<char>)
    ensures
        entry_value(entries.push(e), q) == (match entry_value(entries, q) {
            Some(v) => Some(v),
            None => if e.0@ == q { Some(e.1) } else { None },
        }),
    decreases entries.len(),
{
    if entries.len() > 0 {
        assert(entries.push(e).drop_first() =~= entries.drop_first().push(e));
        assert(entries.push(e)[0] == entries[0]);
        lemma_entry_value_push(entries.drop_first(), e, q);
    } else {
        assert(entries.push(e).drop_first() =~= Seq::<(String, JsonValue)>::empty());
        assert(entries.push(e)[0] == e);
        assert(entry_value(Seq::<(String, JsonValue)>::empty(), q) is None);
    }
}

proof fn lemma_entry_value_some(entries: Seq<(String, JsonValue)>, a: int)
    requires
        0 <= a < entries.len(),
    ensures
        entry_value(entries, entries[a].0@) is Some,
    decreases entries.len(),
{
    if a > 0 && entries[0].0@ != entries[a].0@ {
        lemma_entry_value_some(entries.drop_first(), a - 1);
    }
}

/// Checks an agent's output against the fields it must have.
pub struct MessageNormalizer;

/// Whether an object's entries hold the key.
fn holds_key(entries: &Vec<(String, JsonValue)>, key: &str) -> (r: bool)
    ensures
        r == has_key(entries@, key@),
{
    let mut i: usize = 0;
    assert(entries@.subrange(0, entries@.len() as int) =~= entries@);
    while i < entries.len()
        invariant
            i <= entries@.len(),
            entry_value(entries@, key@) == entry_value(entries@.subrange(i as int, entries@.len() as int), key@),
        decreases entries@.len() - i,
    {
        assert(entries@.subrange(i as int, entries@.len() as int).drop_first() =~= entries@.subrange(i + 1, entries@.len() as int));
        if crate::text::str_eq(entries[i].0.as_str(), key) {
            return true;
        }
        i = i + 1;
    }
    false
}

/// The first of the expected fields that the entries lack (see `first_missing`).
fn find_missing(entries: &Vec<(String, JsonValue)>, fields: &Vec<String>) -> (r: Option<usize>)
    ensures
        match r {
            Some(k) => k as int == first_missing(entries@, sviews(fields@), 0) && k < fields@.len(),
            None => first_missing(entries@, sviews(fields@), 0) == -1,
        },
{
    let mut k: usize = 0;
    while k < fields.len()
        invariant
            k <= fields@.len(),
            first_missing(entries@, sviews(fields@), 0) == first_missing(entries@, sviews(fields@), k as int),
        decreases fields@.len() - k,
    {
        if !holds_key(entries, fields[k].as_str()) {
            return Some(k);
        }
        k = k + 1;
    }
    None
}

impl MessageNormalizer {
    /// An agent's output, parsed (`Err` with the parser's message when it was no JSON),
    /// checked: it must be an object holding every expected field. The errors, in this
    /// order: the output was no JSON; it was no object; the first missing field.
    pub fn normalize_agent_output(parsed: Result<JsonValue, String>, expected_fields: &Vec<String>) -> (r: Result<JsonValue, Error>)
        ensures
            match parsed {
                Err(m) => r matches Err(Error::Robust(t)) && t@ == "Failed to parse agent output as JSON: "@ + m@,
                Ok(v) => match v {
                    JsonValue::Object(entries) => {
                        let k = first_missing(entries@, sviews(expected_fields@), 0);
                        if k >= 0 {
                            r matches Err(Error::Robust(t)) && t@ == "Missing required field: "@ + expected_fields@[k]@
                        } else {
                            r == Ok::<JsonValue, Error>(v)
                        }
                    },
                    _ => r matches Err(Error::Robust(t)) && t@ == "Agent output is not a JSON object"@,
                },
            },
    {
        match parsed {
            Err(m) => {
                let mut t = owned("Failed to parse agent output as JSON: ");
                push_str(&mut t, m.as_str());
                Err(Error::Robust(t))
            },
            Ok(v) => {
                let missing: Option<usize> = match &v {
                    JsonValue::Object(entries) => find_missing(entries, expected_fields),
                    _ => {
                        return Err(Error::Robust(owned("Agent output is not a JSON object")));
                    },
                };
                match missing {
                    Some(k) => {
                        let mut t = owned("Missing required field: ");
                        push_str(&mut t, expected_fields[k].as_str());
                        Err(Error::Robust(t))
                    },
                    None => Ok(v),
                }
            },
        }
    }
}

/// The schema that types every field as a string.
pub open spec fn string_schema(v: JsonValue) -> bool {
    match v {
        JsonValue::Object(e) => e@.len() == 1 && e@[0].0@ == "type"@ && is_text(e@[0].1, "string"@),
        _ => false,
    }
}

/// Whether `v` is the text `s`.
pub open spec fn is_text(v: JsonValue, s: Seq<char>) -> bool {
    match v {
        JsonValue::Str(t) => t@ == s,
        _ => false,
    }
}

/// Whether a property is present and typed as a string.
pub open spec fn string_property(p: Option<JsonValue>) -> bool {
    match p {
        Some(v) => string_schema(v),
        None => false,
    }
}

/// `{"type": "string"}`.
fn string_type() -> (r: JsonValue)
    ensures
        string_schema(r),
{
    let mut e: Vec<(String, JsonValue)> = Vec::new();
    e.push((owned("type"), JsonValue::Str(owned("string"))));
    JsonValue::Object(e)
}

/// The JSON schema of an object whose fields are all strings and all required:
/// `{"properties": {<field>: {"type": "string"}, ...}, "required": [<fields>], "type": "object"}`;
/// a repeated field is listed once among the properties.
pub fn default_schema_for(fields: &Vec<String>) -> (r: JsonValue)
    ensures
        r matches JsonValue::Object(top) && top@.len() == 3
            && top@[0].0@ == "properties"@ && top@[1].0@ == "required"@ && top@[2].0@ == "type"@
            && is_text(top@[2].1, "object"@)
            && (top@[1].1 matches JsonValue::Array(req) && req@.len() == fields@.len()
                && forall|i: int| 0 <= i < req@.len() ==> is_text(#[trigger] req@[i], fields@[i]@))
            && (top@[0].1 matches JsonValue::Object(props)
                && (forall|i: int| 0 <= i < fields@.len() ==> string_property(#[trigger] entry_value(props@, fields@[i]@)))
                && (forall|i: int| 0 <= i < props@.len() ==> sviews(fields@).contains((#[trigger] props@[i]).0@))
                && (forall|i: int, j: int| 0 <= i < j < props@.len() ==> props@[i].0@ != props@[j].0@)),
{
    let mut props: Vec<(String, JsonValue)> = Vec::new();
    let mut i: usize = 0;
    while i < fields.len()
        invariant
            i <= fields@.len(),
            forall|k: int| 0 <= k < i ==> string_property(#[trigger] entry_value(props@, fields@[k]@)),
            forall|k: int| 0 <= k < props@.len() ==> sviews(fields@).subrange(0, i as int).contains((#[trigger] props@[k]).0@),
            forall|a: int, b: int| 0 <= a < b < props@.len() ==> props@[a].0@ != props@[b].0@,
            forall|q: Seq<char>| entry_value(props@, q) is Some ==> string_property(#[trigger] entry_value(props@, q)),
        decreases fields@.len() - i,
    {
        let ghost before = props@;
        let ghost pre = sviews(fields@).subrange(0, i as int);
        let ghost pre1 = sviews(fields@).subrange(0, i + 1);
        proof {
            assert(pre1 =~= pre.push(fields@[i as int]@));
        }
        if !holds_key(&props, fields[i].as_str()) {
            let st = string_type();
            let name = fields[i].clone();
            let ghost e = (name, st);
            props.push((name, st));
            proof {
                assert(props@ == before.push(e));
                assert forall|q: Seq<char>| entry_value(props@, q) is Some implies string_property(#[trigger] entry_value(props@, q)) by {
                    lemma_entry_value_push(before, e, q);
                }
                assert forall|k: int| 0 <= k < i + 1 implies string_property(#[trigger] entry_value(props@, fields@[k]@)) by {
                    lemma_entry_value_push(before, e, fields@[k]@);
                }
                assert forall|a: int, b: int| 0 <= a < b < props@.len() implies props@[a].0@ != props@[b].0@ by {
                    if b == before.len() {
                        if props@[a].0@ == props@[b].0@ {
                            lemma_entry_value_some(before, a);
                        }
                    }
                }
                assert forall|k: int| 0 <= k < props@.len() implies pre1.contains((#[trigger] props@[k]).0@) by {
                    if k < before.len() {
                        assert(pre.contains(before[k].0@));
                        let m = choose|m: int| 0 <= m < pre.len() && pre[m] == before[k].0@;
                        assert(pre1[m] == before[k].0@);
                    } else {
                        assert(pre1[i as int] == fields@[i as int]@);
                    }
                }
            }
        } else {
            proof {
                assert(string_property(entry_value(props@, fields@[i as int]@)));
                assert forall|k: int| 0 <= k < props@.len() implies pre1.contains((#[trigger] props@[k]).0@) by {
                    assert(pre.contains(props@[k].0@));
                    let m = choose|m: int| 0 <= m < pre.len() && pre[m] == props@[k].0@;
                    assert(pre1[m] == props@[k].0@);
                }
            }
        }
        i = i + 1;
    }
    assert(sviews(fields@).subrange(0, fields@.len() as int) =~= sviews(fields@));
    let mut req: Vec<JsonValue> = Vec::new();
    let mut j: usize = 0;
    while j < fields.len()
        invariant
            j <= fields@.len(),
            req@.len() == j,
            forall|k: int| 0 <= k < j ==> is_text(#[trigger] req@[k], fields@[k]@),
        decreases fields@.len() - j,
    {
        req.push(JsonValue::Str(fields[j].clone()));
        j = j + 1;
    }
    let mut top: Vec<(String, JsonValue)> = Vec::new();
    top.push((owned("properties"), JsonValue::Object(props)));
    top.push((owned("required"), JsonValue::Array(req)));
    top.push((owned("type"), JsonValue::Str(owned("object"))));
    JsonValue::Object(top)
}

/// The number of times an operation is run when `retry` counts its failures: `ok[i]`
/// says whether run `i` succeeded and `delay[i]` whether the backoff still allowed a
/// delay after failed run `i`. The runs stop at the first success, when `after_failure`
/// says no more, or when the backoff gives up (or the outcomes run out).
pub open spec fn retry_runs(retry: Retry, ok: Seq<bool>, delay: Seq<bool>) -> nat
    decreases ok.len(),
{
    if ok.len() == 0 {
        0
    } else if ok[0] {
        1
    } else if !(retry.retries + 1 < retry.max_retries) || delay.len() == 0 || !delay[0] {
        1
    } else {
        1 + retry_runs(Retry { retries: (retry.retries + 1) as u32, ..retry }, ok.drop_first(), delay.drop_first())
    }
}

/// An operation retried with a fresh `Retry::new(max_retries)` (each failure counted by
/// `after_failure`) runs at least once and at most `max(max_retries, 1)` times; every run
/// before the last failed, and the runs stopped early only on a success or when the
/// backoff gave up.
pub proof fn law_retry_runs_bounded(max_retries: u32, ok: Seq<bool>, delay: Seq<bool>)
    requires
        ok.len() >= (if max_retries > 1 { max_retries as int } else { 1 }),
        delay.len() >= ok.len(),
    ensures
        ({
            let n = retry_runs(Retry { retries: 0, max_retries }, ok, delay);
            &&& 1 <= n <= (if max_retries > 1 { max_retries as int } else { 1 })
            &&& forall|i: int| 0 <= i < n - 1 ==> !(#[trigger] ok[i]) && delay[i]
            &&& n < (if max_retries > 1 { max_retries as int } else { 1 }) ==> ok[n - 1] || !delay[n - 1]
        }),
{
    lemma_retry_runs(0, max_retries, ok, delay);
}

proof fn lemma_retry_runs(r: u32, m: u32, ok: Seq<bool>, delay: Seq<bool>)
    requires
        r < m || r == 0,
        ok.len() >= (if m > r + 1 { m - r } else { 1 }),
        delay.len() >= ok.len(),
    ensures
        ({
            let n = retry_runs(Retry { retries: r, max_retries: m }, ok, delay);
            &&& 1 <= n <= (if m > r + 1 { m - r } else { 1 })
            &&& forall|i: int| 0 <= i < n - 1 ==> !(#[trigger] ok[i]) && delay[i]
            &&& n < (if m > r + 1 { m - r } else { 1 }) ==> ok[n - 1] || !delay[n - 1]
        }),
    decreases ok.len(),
{
    let n = retry_runs(Retry { retries: r, max_retries: m }, ok, delay);
    if !ok[0] && r + 1 < m && delay[0] {
        lemma_retry_runs((r + 1) as u32, m, ok.drop_first(), delay.drop_first());
        assert forall|i: int| 0 <= i < n - 1 implies !(#[trigger] ok[i]) && delay[i] by {
            if i > 0 {
                assert(ok[i] == ok.drop_first()[i - 1]);
                assert(delay[i] == delay.drop_first()[i - 1]);
            }
        }
        if n < m - r {
            assert(ok[n - 1] == ok.drop_first()[n - 2]);
            assert(delay[n - 1] == delay.drop_first()[n - 2]);
        }
    }
}

/// The retry count of an operation that is tried up to `max_retries` times.
pub struct Retry {
    pub retries: u32,
    pub max_retries: u32,
}

impl Retry {
    /// No failure yet.
    pub fn new(max_retries: u32) -> (r: Retry)
        ensures
            r.retries == 0,
            r.max_retries == max_retries,
    {
        Retry { retries: 0, max_retries }
    }

    /// Counts a failure and says whether the operation may be tried again (when the
    /// backoff still allows a delay): only while fewer than `max_retries` failures were
    /// counted.
    pub fn after_failure(&mut self) -> (again: bool)
        requires
            old(self).retries < old(self).max_retries || old(self).retries == 0,
        ensures
            final(self).max_retries == old(self).max_retries,
            final(self).retries == old(self).retries + 1,
            again == (final(self).retries < final(self).max_retries),
            again ==> final(self).retries < final(self).max_retries,
    {
        self.retries = self.retries + 1;
        self.retries < self.max_retries
    }
}

} // verus!
