//! JSON documents as the pipeline reads them.
//!
//! A document arrives already parsed; the pipeline only looks fields up and reads
//! strings, arrays and integers out of it. A missing field reads as `Null`, as with
//! indexing a `serde_json::Value`.
use vstd::prelude::*;

verus! {

/// A number, as the pipeline reads numbers: as an `i64` (`serde_json::Value::as_i64`,
/// `None` for a number that is no `i64`), and as thousandths rounded down (the value of
/// `as_f64` times 1000, rounded down; `None` where that is no `i64`).
#[derive(Clone, Copy, Debug, PartialEq, Eq, Structural)]
pub struct JsonNumber {
    pub as_i64: Option<i64>,
    pub milli: Option<i64>,
}

/// A parsed JSON document; an object keeps its entries in order.
pub enum JsonValue {
    Null,
    Bool(bool),
    Number(JsonNumber),
    Str(String),
    Array(Vec<JsonValue>),
    Object(Vec<(String, JsonValue)>),
}

/// The value stored under `key` among `entries` (the first entry with that key).
pub open spec fn entry_value(entries: Seq<(String, JsonValue)>, key: Seq<char>) -> Option<JsonValue>
    decreases entries.len(),
{
    if entries.len() == 0 {
        None
    } else if entries[0].0@ == key {
        Some(entries[0].1)
    } else {
        entry_value(entries.drop_first(), key)
    }
}

/// `v[key]`: the field's value, `None` where `v` is no object or has no such field (where
/// `serde_json` gives `Null`).
pub open spec fn field(v: JsonValue, key: Seq<char>) -> Option<JsonValue> {
    match v {
        JsonValue::Object(entries) => entry_value(entries@, key),
        _ => None,
    }
}

/// `as_str` of an optional value.
pub open spec fn str_of(v: Option<JsonValue>) -> Option<Seq<char>> {
    match v {
        Some(JsonValue::Str(s)) => Some(s@),
        _ => None,
    }
}

/// `as_array` of an optional value.
pub open spec fn array_of(v: Option<JsonValue>) -> Option<Seq<JsonValue>> {
    match v {
        Some(JsonValue::Array(a)) => Some(a@),
        _ => None,
    }
}

/// `as_i64` of an optional value.
pub open spec fn int_of(v: Option<JsonValue>) -> Option<i64> {
    match v {
        Some(JsonValue::Number(n)) => n.as_i64,
        _ => None,
    }
}

/// The thousandths of an optional value that is a number.
pub open spec fn milli_of(v: Option<JsonValue>) -> Option<i64> {
    match v {
        Some(JsonValue::Number(n)) => n.milli,
        _ => None,
    }
}

impl JsonValue {
    /// The value of field `key`, when `self` is an object that has it.
    pub fn get(&self, key: &str) -> (r: Option<&JsonValue>)
        ensures
            match r {
                Some(x) => field(*self, key@) == Some(*x),
                None => field(*self, key@) is None,
            },
    {
        match self {
            JsonValue::Object(entries) => {
                let mut i: usize = 0;
                assert(*self is Object);
                assert(self->Object_0 == *entries);
                assert(entries@.subrange(0, entries@.len() as int) =~= entries@);
                while i < entries.len()
                    invariant
                        i <= entries@.len(),
                        field(*self, key@) == entry_value(entries@, key@),
                        entry_value(entries@, key@) == entry_value(entries@.subrange(i as int, entries@.len() as int), key@),
                    decreases entries@.len() - i,
                {
                    proof {
                        assert(entries@.subrange(i as int, entries@.len() as int).drop_first()
                            =~= entries@.subrange(i + 1, entries@.len() as int));
                    }
                    if crate::text::str_eq(entries[i].0.as_str(), key) {
                        let ghost sub = entries@.subrange(i as int, entries@.len() as int);
                        assert(sub[0] == entries@[i as int]);
                        assert(sub[0].0@ == key@);
                        assert(entry_value(sub, key@) == Some(sub[0].1));
                        assert(field(*self, key@) == entry_value(entries@, key@));
                        return Some(&entries[i].1);
                    }
                    i = i + 1;
                }
                None
            },
            _ => None,
        }
    }

    /// The text, when `self` is a string.
    pub fn as_str(&self) -> (r: Option<&String>)
        ensures
            match r {
                Some(s) => str_of(Some(*self)) == Some(s@),
                None => str_of(Some(*self)) is None,
            },
    {
        match self {
            JsonValue::Str(s) => Some(s),
            _ => None,
        }
    }

    /// The elements, when `self` is an array.
    pub fn as_array(&self) -> (r: Option<&Vec<JsonValue>>)
        ensures
            match r {
                Some(a) => array_of(Some(*self)) == Some(a@),
                None => array_of(Some(*self)) is None,
            },
    {
        match self {
            JsonValue::Array(a) => Some(a),
            _ => None,
        }
    }

    /// The integer, when `self` is a number that is an `i64`.
    pub fn as_i64(&self) -> (r: Option<i64>)
        ensures
            r == int_of(Some(*self)),
    {
        match self {
            JsonValue::Number(n) => n.as_i64,
            _ => None,
        }
    }

    /// Whether `self` is an object.
    pub fn is_object(&self) -> (r: bool)
        ensures
            r == (*self is Object),
    {
        match self {
            JsonValue::Object(_) => true,
            _ => false,
        }
    }

    /// The number in thousandths, rounded down, when `self` is a number.
    pub fn as_milli(&self) -> (r: Option<i64>)
        ensures
            r == milli_of(Some(*self)),
    {
        match self {
            JsonValue::Number(n) => n.milli,
            _ => None,
        }
    }
}

} // verus!
