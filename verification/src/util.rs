//! Cleaning of model output before it is read as JSON.
use vstd::prelude::*;
use vstd::string::*;
use crate::text::{
    chars_of, find_from, first_match, last_match, lemma_first_match, lemma_last_match, match_at,
    matches_at, rfind, skip_ws, skip_ws_back, slice_chars, trim, trim_bounds, ws_skip,
};

verus! {

/// The Markdown code fence.
pub open spec fn fence() -> Seq<char> {
    seq!['`', '`', '`']
}

/// The language tag that may follow an opening fence.
pub open spec fn json_tag() -> Seq<char> {
    seq!['j', 's', 'o', 'n']
}

/// The index of the first `{` or `[` of `t` at or after `i`, or -1.
pub open spec fn first_open(t: Seq<char>, i: int) -> int
    decreases t.len() - i,
{
    if i < 0 || i >= t.len() {
        -1
    } else if t[i] == '{' || t[i] == '[' {
        i
    } else {
        first_open(t, i + 1)
    }
}

/// The bracket that closes `open`: `}` for `{`, `]` for `[`.
pub open spec fn closer(open: char) -> char {
    if open == '{' { '}' } else { ']' }
}

/// Scanning `t` from `i` with `depth` brackets of the kind `open` still open, inside a
/// JSON string or not, just after a backslash in one or not: the index of the bracket that
/// closes the outermost one, or -1. Brackets inside strings do not count.
pub open spec fn matching_close(t: Seq<char>, i: int, open: char, depth: nat, in_str: bool, esc: bool) -> int
    decreases t.len() - i,
{
    if i < 0 || i >= t.len() {
        -1
    } else if in_str {
        if esc {
            matching_close(t, i + 1, open, depth, true, false)
        } else if t[i] == '\\' {
            matching_close(t, i + 1, open, depth, true, true)
        } else if t[i] == '"' {
            matching_close(t, i + 1, open, depth, false, false)
        } else {
            matching_close(t, i + 1, open, depth, true, false)
        }
    } else if t[i] == '"' {
        matching_close(t, i + 1, open, depth, true, false)
    } else if t[i] == open {
        matching_close(t, i + 1, open, depth + 1, false, false)
    } else if t[i] == closer(open) {
        if depth <= 1 {
            i
        } else {
            matching_close(t, i + 1, open, (depth - 1) as nat, false, false)
        }
    } else {
        matching_close(t, i + 1, open, depth, false, false)
    }
}

/// The JSON text of an unfenced, trimmed response `t`: from its first `{` or `[` to the
/// bracket that matches it; the whole of `t` when it holds no bracket or the first one is
/// never closed.
pub open spec fn bracketed(t: Seq<char>) -> Seq<char> {
    let o = first_open(t, 0);
    if o < 0 {
        t
    } else {
        let e = matching_close(t, o, t[o], 0, false, false);
        if e < 0 {
            t
        } else {
            t.subrange(o, e + 1)
        }
    }
}

/// What `extract_json` returns for a response `r`: when the trimmed response holds no
/// fence, its bracketed JSON text (see `bracketed`); otherwise the text after the first
/// fence (and an optional `json` tag), up to the last fence after it when there is one,
/// trimmed.
pub open spec fn extracted_json(r: Seq<char>) -> Seq<char> {
    let t = trim(r);
    let start = first_match(t, fence(), 0);
    if start < 0 {
        bracketed(t)
    } else {
        let p = if matches_at(t, start + 3, json_tag()) {
            start + 7
        } else {
            start + 3
        };
        let after = t.subrange(skip_ws(t, p), t.len() as int);
        let end = last_match(after, fence(), after.len() - 3);
        if end < 0 {
            trim(after)
        } else {
            trim(after.subrange(0, end))
        }
    }
}

proof fn lemma_first_open(t: Seq<char>, i: int)
    requires
        0 <= i,
    ensures
        first_open(t, i) == -1 || (i <= first_open(t, i) < t.len() && (t[first_open(t, i)] == '{'
            || t[first_open(t, i)] == '[')),
    decreases t.len() - i,
{
    if i < t.len() && !(t[i] == '{' || t[i] == '[') {
        lemma_first_open(t, i + 1);
    }
}

proof fn lemma_matching_close(t: Seq<char>, i: int, open: char, depth: nat, in_str: bool, esc: bool)
    requires
        0 <= i,
    ensures
        matching_close(t, i, open, depth, in_str, esc) == -1 || (i <= matching_close(t, i, open, depth, in_str, esc)
            < t.len() && t[matching_close(t, i, open, depth, in_str, esc)] == closer(open)),
    decreases t.len() - i,
{
    if i < t.len() {
        if in_str {
            if esc {
                lemma_matching_close(t, i + 1, open, depth, true, false);
            } else if t[i] == '\\' {
                lemma_matching_close(t, i + 1, open, depth, true, true);
            } else if t[i] == '"' {
                lemma_matching_close(t, i + 1, open, depth, false, false);
            } else {
                lemma_matching_close(t, i + 1, open, depth, true, false);
            }
        } else if t[i] == '"' {
            lemma_matching_close(t, i + 1, open, depth, true, false);
        } else if t[i] == open {
            lemma_matching_close(t, i + 1, open, depth + 1, false, false);
        } else if t[i] == closer(open) {
            if depth > 1 {
                lemma_matching_close(t, i + 1, open, (depth - 1) as nat, false, false);
            }
        } else {
            lemma_matching_close(t, i + 1, open, depth, false, false);
        }
    }
}

/// The index of the first `{` or `[` of `t`.
fn first_open_index(t: &Vec<char>) -> (r: Option<usize>)
    ensures
        match r {
            Some(o) => o == first_open(t@, 0) && o < t@.len(),
            None => first_open(t@, 0) == -1,
        },
{
    let mut i: usize = 0;
    while i < t.len()
        invariant
            i <= t@.len(),
            first_open(t@, 0) == first_open(t@, i as int),
        decreases t@.len() - i,
    {
        if t[i] == '{' || t[i] == '[' {
            return Some(i);
        }
        i = i + 1;
    }
    None
}

/// The index of the bracket that matches the one at `o`.
fn matching_close_index(t: &Vec<char>, o: usize) -> (r: Option<usize>)
    requires
        o < t@.len(),
    ensures
        match r {
            Some(e) => e == matching_close(t@, o as int, t@[o as int], 0, false, false) && o <= e < t@.len(),
            None => matching_close(t@, o as int, t@[o as int], 0, false, false) == -1,
        },
{
    let open = t[o];
    let close = if open == '{' { '}' } else { ']' };
    let ghost start = matching_close(t@, o as int, open, 0, false, false);
    let mut depth: usize = 0;
    let mut in_str = false;
    let mut esc = false;
    let mut i: usize = o;
    proof {
        lemma_matching_close(t@, o as int, open, 0, false, false);
    }
    while i < t.len()
        invariant
            o <= i <= t@.len(),
            depth <= i,
            close == closer(open),
            open == t@[o as int],
            start == matching_close(t@, o as int, open, 0, false, false),
            !in_str ==> !esc,
            start == matching_close(t@, i as int, open, depth as nat, in_str, esc),
            start == -1 || o <= start < t@.len(),
        decreases t@.len() - i,
    {
        let c = t[i];
        if in_str {
            if esc {
                esc = false;
            } else if c == '\\' {
                esc = true;
            } else if c == '"' {
                in_str = false;
            }
        } else if c == '"' {
            in_str = true;
        } else if c == open {
            depth = depth + 1;
        } else if c == close {
            if depth <= 1 {
                return Some(i);
            }
            depth = depth - 1;
        }
        i = i + 1;
    }
    None
}

fn fence_chars() -> (r: Vec<char>)
    ensures
        r@ == fence(),
{
    let mut r: Vec<char> = Vec::new();
    r.push('`');
    r.push('`');
    r.push('`');
    assert(r@ =~= fence());
    r
}

fn json_tag_chars() -> (r: Vec<char>)
    ensures
        r@ == json_tag(),
{
    let mut r: Vec<char> = Vec::new();
    r.push('j');
    r.push('s');
    r.push('o');
    r.push('n');
    assert(r@ =~= json_tag());
    r
}

/// Extracts the JSON text from a model response: the body of a Markdown code fence (with
/// or without a `json` tag) when there is one, else the text from the first `{` or `[`
/// to its matching bracket; without surrounding whitespace either way.
pub fn extract_json(response: &str) -> (r: &str)
    ensures
        r@ == extracted_json(response@),
{
    let v = chars_of(response);
    let (a, b) = trim_bounds(&v);
    let t = slice_chars(&v, a, b);
    assert(t@ == trim(response@));
    let fence = fence_chars();
    let tag = json_tag_chars();
    match find_from(&t, &fence, 0) {
        None => match first_open_index(&t) {
            None => response.substring_char(a, b),
            Some(o) => match matching_close_index(&t, o) {
                None => response.substring_char(a, b),
                Some(e) => {
                    let r = response.substring_char(a + o, a + e + 1);
                    assert(r@ =~= t@.subrange(o as int, e + 1));
                    r
                },
            },
        },
        Some(st) => {
            proof {
                lemma_first_match(t@, fence@, 0);
            }
            let mut p = st + 3;
            if match_at(&t, p, &tag) {
                p = p + 4;
            }
            let q = ws_skip(&t, p);
            let after = slice_chars(&t, q, t.len());
            match rfind(&after, &fence) {
                Some(e) => {
                    proof {
                        lemma_last_match(after@, fence@, after@.len() - 3);
                    }
                    let head = slice_chars(&after, 0, e);
                    let (x, y) = trim_bounds(&head);
                    let r = response.substring_char(a + q + x, a + q + y);
                    assert(r@ =~= trim(after@.subrange(0, e as int)));
                    r
                },
                None => {
                    let (x, y) = trim_bounds(&after);
                    let r = response.substring_char(a + q + x, a + q + y);
                    assert(r@ =~= trim(after@));
                    r
                },
            }
        },
    }
}


/// The JSON text of an unfenced response never starts or ends with whitespace.
proof fn lemma_bracketed_unpadded(t: Seq<char>)
    requires
        crate::text::unpadded(t),
    ensures
        crate::text::unpadded(bracketed(t)),
{
    let o = first_open(t, 0);
    lemma_first_open(t, 0);
    if o >= 0 {
        let e = matching_close(t, o, t[o], 0, false, false);
        lemma_matching_close(t, o, t[o], 0, false, false);
        if e >= 0 {
            let b = t.subrange(o, e + 1);
            assert(b[0] == t[o]);
            assert(b[b.len() - 1] == t[e]);
            assert(!crate::text::is_ws('{') && !crate::text::is_ws('['));
            assert(!crate::text::is_ws('}') && !crate::text::is_ws(']'));
        }
    }
}

/// What `extract_json` returns never starts or ends with whitespace, fenced or not.
pub proof fn law_extracted_json_unpadded(r: Seq<char>)
    ensures
        crate::text::unpadded(extracted_json(r)),
{
    let t = trim(r);
    crate::text::lemma_trim_unpadded(r);
    let start = first_match(t, fence(), 0);
    if start >= 0 {
        lemma_first_match(t, fence(), 0);
        let p = if matches_at(t, start + 3, json_tag()) { start + 7 } else { start + 3 };
        if p <= t.len() {
            crate::text::lemma_skip_ws_bounds(t, p);
        }
        let after = t.subrange(skip_ws(t, p), t.len() as int);
        let end = last_match(after, fence(), after.len() - 3);
        lemma_last_match(after, fence(), after.len() - 3);
        if end < 0 {
            crate::text::lemma_trim_unpadded(after);
        } else {
            crate::text::lemma_trim_unpadded(after.subrange(0, end));
        }
    } else {
        lemma_bracketed_unpadded(t);
    }
}

/// The bounds of `trim(s)` inside `s`.
proof fn lemma_trim_bounds(s: Seq<char>)
    ensures
        0 <= skip_ws(s, 0) <= skip_ws_back(s, s.len() as int, skip_ws(s, 0)) <= s.len(),
{
    crate::text::lemma_skip_ws_bounds(s, 0);
    crate::text::lemma_skip_ws_back_bounds(s, s.len() as int, skip_ws(s, 0));
}

/// What `extract_json` returns is one unbroken piece of the response, taken from it as
/// it stands.
pub proof fn law_extracted_json_within(r: Seq<char>)
    ensures
        exists|i: int, j: int| 0 <= i <= j <= r.len() && extracted_json(r) == r.subrange(i, j),
{
    lemma_trim_bounds(r);
    let a = skip_ws(r, 0);
    let b = skip_ws_back(r, r.len() as int, a);
    let t = trim(r);
    let start = first_match(t, fence(), 0);
    if start < 0 {
        let o = first_open(t, 0);
        lemma_first_open(t, 0);
        if o >= 0 {
            let e = matching_close(t, o, t[o], 0, false, false);
            lemma_matching_close(t, o, t[o], 0, false, false);
            if e >= 0 {
                assert(extracted_json(r) == r.subrange(a + o, a + e + 1));
            } else {
                assert(extracted_json(r) == r.subrange(a, b));
            }
        } else {
            assert(extracted_json(r) == r.subrange(a, b));
        }
    } else {
        lemma_first_match(t, fence(), 0);
        let p = if matches_at(t, start + 3, json_tag()) { start + 7 } else { start + 3 };
        crate::text::lemma_skip_ws_bounds(t, p);
        let q = skip_ws(t, p);
        let after = t.subrange(q, t.len() as int);
        let end = last_match(after, fence(), after.len() - 3);
        lemma_last_match(after, fence(), after.len() - 3);
        let h = if end < 0 { after } else { after.subrange(0, end) };
        lemma_trim_bounds(h);
        let x = skip_ws(h, 0);
        let y = skip_ws_back(h, h.len() as int, x);
        assert(extracted_json(r) == trim(h));
        assert(trim(h) =~= r.subrange(a + q + x, a + q + y));
    }
}

} // verus!
