//! Character and string primitives shared by the whole crate.
//!
//! Strings are reasoned about through their view, a `Seq<char>`.
use vstd::prelude::*;
use vstd::std_specs::iter::IteratorSpec;

verus! {

broadcast use vstd::string::group_string_axioms;

/// Unicode `White_Space`, the property behind `char::is_whitespace` and `str::trim`.
pub open spec fn is_ws(c: char) -> bool {
    let u = c as u32;
    ||| 0x09 <= u <= 0x0D
    ||| u == 0x20
    ||| u == 0x85
    ||| u == 0xA0
    ||| u == 0x1680
    ||| 0x2000 <= u <= 0x200A
    ||| u == 0x2028
    ||| u == 0x2029
    ||| u == 0x202F
    ||| u == 0x205F
    ||| u == 0x3000
}

/// Whether `c` is a whitespace character (Unicode `White_Space`).
pub fn is_whitespace_char(c: char) -> (r: bool)
    ensures
        r == is_ws(c),
{
    let u = c as u32;
    (0x09 <= u && u <= 0x0D) || u == 0x20 || u == 0x85 || u == 0xA0 || u == 0x1680 || (0x2000 <= u
        && u <= 0x200A) || u == 0x2028 || u == 0x2029 || u == 0x202F || u == 0x205F || u == 0x3000
}

/// The characters of `s`, in order.
pub fn chars_of(s: &str) -> (v: Vec<char>)
    ensures
        v@ == s@,
{
    let mut v: Vec<char> = Vec::new();
    let mut it = s.chars();
    let ghost all = s@;
    loop
        invariant
            it.remaining() == all.subrange(v@.len() as int, all.len() as int),
            v@ == all.subrange(0, v@.len() as int),
            v@.len() <= all.len(),
            all == s@,
        ensures
            v@ == all,
        decreases all.len() - v@.len(),
    {
        match it.next() {
            Some(c) => {
                v.push(c);
            },
            None => {
                break ;
            },
        }
    }
    v
}

/// Appends `c` to `s` (`String::push`).
#[verifier::external_body]
pub(crate) fn push_char(s: &mut String, c: char)
    ensures
        final(s)@ == old(s)@.push(c),
{
    s.push(c);
}

/// The string whose characters are `v[from..to]`.
pub fn string_from_range(v: &Vec<char>, from: usize, to: usize) -> (r: String)
    requires
        from <= to <= v@.len(),
    ensures
        r@ == v@.subrange(from as int, to as int),
{
    let mut r = String::new();
    let mut i = from;
    while i < to
        invariant
            from <= i <= to <= v@.len(),
            r@ == v@.subrange(from as int, i as int),
        decreases to - i,
    {
        push_char(&mut r, v[i]);
        i = i + 1;
    }
    r
}

/// The string whose characters are those of `v`.
pub fn string_from(v: &Vec<char>) -> (r: String)
    ensures
        r@ == v@,
{
    let r = string_from_range(v, 0, v.len());
    assert(v@.subrange(0, v@.len() as int) =~= v@);
    r
}

/// The first index at or after `i` whose character is not whitespace (or the length).
pub open spec fn skip_ws(s: Seq<char>, i: int) -> int
    decreases s.len() - i,
{
    if 0 <= i < s.len() && is_ws(s[i]) {
        skip_ws(s, i + 1)
    } else {
        i
    }
}

/// Walking back from `j` to no further than `lo`, the end of the text once trailing
/// whitespace is dropped.
pub open spec fn skip_ws_back(s: Seq<char>, j: int, lo: int) -> int
    decreases j - lo,
{
    if lo < j <= s.len() && is_ws(s[j - 1]) {
        skip_ws_back(s, j - 1, lo)
    } else {
        j
    }
}

/// `str::trim_start`.
pub open spec fn trim_start(s: Seq<char>) -> Seq<char> {
    s.subrange(skip_ws(s, 0), s.len() as int)
}

/// `str::trim_end`.
pub open spec fn trim_end(s: Seq<char>) -> Seq<char> {
    s.subrange(0, skip_ws_back(s, s.len() as int, 0))
}

/// `str::trim`: both ends stripped of whitespace.
pub open spec fn trim(s: Seq<char>) -> Seq<char> {
    s.subrange(skip_ws(s, 0), skip_ws_back(s, s.len() as int, skip_ws(s, 0)))
}

pub proof fn lemma_skip_ws_bounds(s: Seq<char>, i: int)
    requires
        0 <= i <= s.len(),
    ensures
        i <= skip_ws(s, i) <= s.len(),
        forall|k: int| i <= k < skip_ws(s, i) ==> is_ws(#[trigger] s[k]),
        skip_ws(s, i) < s.len() ==> !is_ws(s[skip_ws(s, i)]),
    decreases s.len() - i,
{
    if i < s.len() && is_ws(s[i]) {
        lemma_skip_ws_bounds(s, i + 1);
    }
}

pub proof fn lemma_skip_ws_back_bounds(s: Seq<char>, j: int, lo: int)
    requires
        0 <= lo <= j <= s.len(),
    ensures
        lo <= skip_ws_back(s, j, lo) <= j,
        forall|k: int| skip_ws_back(s, j, lo) <= k < j ==> is_ws(#[trigger] s[k]),
        skip_ws_back(s, j, lo) > lo ==> !is_ws(s[skip_ws_back(s, j, lo) - 1]),
    decreases j - lo,
{
    if lo < j && is_ws(s[j - 1]) {
        lemma_skip_ws_back_bounds(s, j - 1, lo);
    }
}

/// `t` neither starts nor ends with whitespace.
pub open spec fn unpadded(t: Seq<char>) -> bool {
    t.len() > 0 ==> !is_ws(t[0]) && !is_ws(t[t.len() - 1])
}

/// A trimmed text has no whitespace at either end.
pub proof fn lemma_trim_unpadded(s: Seq<char>)
    ensures
        unpadded(trim(s)),
{
    lemma_skip_ws_bounds(s, 0);
    let a = skip_ws(s, 0);
    lemma_skip_ws_back_bounds(s, s.len() as int, a);
}

/// The first index at or after `i` that is not whitespace.
pub fn ws_skip(s: &Vec<char>, i: usize) -> (r: usize)
    requires
        i <= s@.len(),
    ensures
        r == skip_ws(s@, i as int),
        i <= r <= s@.len(),
{
    let mut k = i;
    while k < s.len() && is_whitespace_char(s[k])
        invariant
            i <= k <= s@.len(),
            skip_ws(s@, i as int) == skip_ws(s@, k as int),
        decreases s@.len() - k,
    {
        k = k + 1;
    }
    k
}

/// From `j` backwards, stopping at `lo`, the end of the text without trailing whitespace.
pub fn ws_skip_back(s: &Vec<char>, j: usize, lo: usize) -> (r: usize)
    requires
        lo <= j <= s@.len(),
    ensures
        r == skip_ws_back(s@, j as int, lo as int),
        lo <= r <= j,
{
    let mut k = j;
    while k > lo && is_whitespace_char(s[k - 1])
        invariant
            lo <= k <= j <= s@.len(),
            skip_ws_back(s@, j as int, lo as int) == skip_ws_back(s@, k as int, lo as int),
        decreases k - lo,
    {
        k = k - 1;
    }
    k
}

/// The bounds `(a, b)` of `trim(s)` inside `s`.
pub fn trim_bounds(s: &Vec<char>) -> (r: (usize, usize))
    ensures
        r.0 <= r.1 <= s@.len(),
        s@.subrange(r.0 as int, r.1 as int) == trim(s@),
        r.0 == skip_ws(s@, 0),
{
    let a = ws_skip(s, 0);
    let b = ws_skip_back(s, s.len(), a);
    (a, b)
}

/// Whether `p` occurs in `s` at position `i`.
pub open spec fn matches_at(s: Seq<char>, i: int, p: Seq<char>) -> bool {
    0 <= i && i + p.len() <= s.len() && s.subrange(i, i + p.len()) == p
}

/// The first position at or after `from` where `p` occurs, or -1 (`str::find`).
pub open spec fn first_match(s: Seq<char>, p: Seq<char>, from: int) -> int
    decreases s.len() + 1 - from,
{
    if from < 0 || from + p.len() > s.len() {
        -1
    } else if matches_at(s, from, p) {
        from
    } else {
        first_match(s, p, from + 1)
    }
}

/// The last position at or before `upto` where `p` occurs, or -1 (`str::rfind`).
pub open spec fn last_match(s: Seq<char>, p: Seq<char>, upto: int) -> int
    decreases upto + 1,
{
    if upto < 0 {
        -1
    } else if matches_at(s, upto, p) {
        upto
    } else {
        last_match(s, p, upto - 1)
    }
}

/// `p` occurs somewhere in `s` (`str::contains`).
pub open spec fn contains_seq(s: Seq<char>, p: Seq<char>) -> bool {
    exists|i: int| matches_at(s, i, p)
}

pub proof fn lemma_first_match(s: Seq<char>, p: Seq<char>, from: int)
    requires
        from >= 0,
    ensures
        first_match(s, p, from) == -1 || (from <= first_match(s, p, from) && matches_at(
            s,
            first_match(s, p, from),
            p,
        )),
        forall|k: int|
            from <= k && (first_match(s, p, from) == -1 || k < first_match(s, p, from))
                ==> !#[trigger] matches_at(s, k, p),
    decreases s.len() + 1 - from,
{
    if from + p.len() > s.len() {
    } else if matches_at(s, from, p) {
    } else {
        lemma_first_match(s, p, from + 1);
    }
}

pub proof fn lemma_last_match(s: Seq<char>, p: Seq<char>, upto: int)
    ensures
        last_match(s, p, upto) == -1 || (0 <= last_match(s, p, upto) <= upto && matches_at(
            s,
            last_match(s, p, upto),
            p,
        )),
        forall|k: int|
            k <= upto && (last_match(s, p, upto) == -1 || k > last_match(s, p, upto))
                ==> !#[trigger] matches_at(s, k, p),
    decreases upto + 1,
{
    if upto < 0 {
    } else if matches_at(s, upto, p) {
    } else {
        lemma_last_match(s, p, upto - 1);
    }
}

/// Whether `p` occurs in `s` at position `i`.
pub fn match_at(s: &Vec<char>, i: usize, p: &Vec<char>) -> (r: bool)
    ensures
        r == matches_at(s@, i as int, p@),
{
    if i > s.len() || p.len() > s.len() - i {
        return false;
    }
    let n = s.len();
    let mut k: usize = 0;
    while k < p.len()
        invariant
            n == s@.len(),
            i + p@.len() <= s@.len(),
            p@.len() <= s@.len(),
            k <= p@.len(),
            forall|m: int| 0 <= m < k ==> s@[i + m] == p@[m],
        decreases p@.len() - k,
    {
        if s[i + k] != p[k] {
            assert(s@.subrange(i as int, i + p@.len())[k as int] != p@[k as int]);
            return false;
        }
        k = k + 1;
    }
    assert(s@.subrange(i as int, i + p@.len()) =~= p@);
    true
}

/// The first position at or after `from` where `p` occurs (`str::find`).
pub fn find_from(s: &Vec<char>, p: &Vec<char>, from: usize) -> (r: Option<usize>)
    ensures
        match r {
            Some(i) => i as int == first_match(s@, p@, from as int),
            None => first_match(s@, p@, from as int) == -1,
        },
{
    let mut i = from;
    if p.len() > s.len() {
        proof {
            assert(first_match(s@, p@, from as int) == -1);
        }
        return None;
    }
    if i > s.len() - p.len() {
        return None;
    }
    loop
        invariant
            from <= i <= s@.len() - p@.len(),
            p@.len() <= s@.len(),
            first_match(s@, p@, from as int) == first_match(s@, p@, i as int),
        decreases s@.len() - i,
    {
        if match_at(s, i, p) {
            return Some(i);
        }
        if i == s.len() - p.len() {
            assert(first_match(s@, p@, i + 1) == -1);
            return None;
        }
        i = i + 1;
    }
}

/// The last position where `p` occurs (`str::rfind`).
pub fn rfind(s: &Vec<char>, p: &Vec<char>) -> (r: Option<usize>)
    ensures
        match r {
            Some(i) => i as int == last_match(s@, p@, s@.len() - p@.len()),
            None => last_match(s@, p@, s@.len() - p@.len()) == -1,
        },
{
    if p.len() > s.len() {
        return None;
    }
    let mut i = s.len() - p.len();
    loop
        invariant
            i <= s@.len() - p@.len(),
            p@.len() <= s@.len(),
            last_match(s@, p@, s@.len() - p@.len()) == last_match(s@, p@, i as int),
        decreases i,
    {
        if match_at(s, i, p) {
            return Some(i);
        }
        if i == 0 {
            assert(last_match(s@, p@, -1) == -1);
            return None;
        }
        i = i - 1;
    }
}

/// Whether `p` occurs in `s` (`str::contains`).
pub fn contains_chars(s: &Vec<char>, p: &Vec<char>) -> (r: bool)
    ensures
        r == contains_seq(s@, p@),
{
    let f = find_from(s, p, 0);
    proof {
        lemma_first_match(s@, p@, 0);
    }
    match f {
        Some(_) => true,
        None => {
            assert forall|i: int| !matches_at(s@, i, p@) by {
                if i >= 0 {
                    assert(!matches_at(s@, i, p@));
                }
            }
            false
        },
    }
}

/// A copy of `v[from..to]`.
pub fn slice_chars(v: &Vec<char>, from: usize, to: usize) -> (r: Vec<char>)
    requires
        from <= to <= v@.len(),
    ensures
        r@ == v@.subrange(from as int, to as int),
{
    let mut r: Vec<char> = Vec::new();
    let mut i = from;
    while i < to
        invariant
            from <= i <= to <= v@.len(),
            r@ == v@.subrange(from as int, i as int),
        decreases to - i,
    {
        r.push(v[i]);
        i = i + 1;
    }
    r
}

/// Every character of `s` is ASCII.
pub open spec fn ascii_text(s: Seq<char>) -> bool {
    forall|i: int| 0 <= i < s.len() ==> (#[trigger] s[i] as u32) < 128
}

/// `c` made lower-case if it is an ASCII capital letter.
pub open spec fn ascii_lower(c: char) -> char {
    if 'A' <= c && c <= 'Z' { ((c as u32) + 32) as char } else { c }
}

/// `c` made upper-case if it is an ASCII small letter.
pub open spec fn ascii_upper(c: char) -> char {
    if 'a' <= c && c <= 'z' { ((c as u32) - 32) as char } else { c }
}

/// `str::to_lowercase` on a text with some non-ASCII character: the lower-case mapping of
/// Unicode, applied to the whole text.
pub uninterp spec fn unicode_lower(s: Seq<char>) -> Seq<char>;

/// `str::to_lowercase`: on ASCII text, `A`–`Z` become `a`–`z` and every other character
/// stays; otherwise the Unicode mapping (`unicode_lower`). Proofs that need this
/// definition ask for it with `reveal(lower)`.
#[verifier::opaque]
pub open spec fn lower(s: Seq<char>) -> Seq<char> {
    if ascii_text(s) {
        s.map_values(|c: char| ascii_lower(c))
    } else {
        unicode_lower(s)
    }
}

/// On ASCII text `lower` maps `A`–`Z` to `a`–`z` and keeps every other character.
pub proof fn lemma_lower_ascii(s: Seq<char>)
    requires
        ascii_text(s),
    ensures
        lower(s) == s.map_values(|c: char| ascii_lower(c)),
{
    reveal(lower);
}

/// Lower-cases a text (`str::to_lowercase`); on ASCII text that maps `A`–`Z` to `a`–`z`
/// and keeps the rest, as the Unicode mapping does for those characters.
#[verifier::external_body]
pub(crate) fn to_lower(s: &str) -> (r: String)
    ensures
        r@ == lower(s@),
        !ascii_text(s@) ==> r@ == unicode_lower(s@),
{
    s.to_lowercase()
}

/// `str::to_uppercase` on a text with some non-ASCII character: the upper-case mapping of
/// Unicode, applied to the whole text.
pub uninterp spec fn unicode_upper(s: Seq<char>) -> Seq<char>;

/// `str::to_uppercase`: on ASCII text, `a`–`z` become `A`–`Z` and every other character
/// stays; otherwise the Unicode mapping (`unicode_upper`). Proofs that need this
/// definition ask for it with `reveal(upper)`.
#[verifier::opaque]
pub open spec fn upper(s: Seq<char>) -> Seq<char> {
    if ascii_text(s) {
        s.map_values(|c: char| ascii_upper(c))
    } else {
        unicode_upper(s)
    }
}

/// On ASCII text `upper` maps `a`–`z` to `A`–`Z` and keeps every other character.
pub proof fn lemma_upper_ascii(s: Seq<char>)
    requires
        ascii_text(s),
    ensures
        upper(s) == s.map_values(|c: char| ascii_upper(c)),
{
    reveal(upper);
}

/// Upper-cases a text (`str::to_uppercase`); on ASCII text that maps `a`–`z` to `A`–`Z`
/// and keeps the rest.
#[verifier::external_body]
pub(crate) fn to_upper(s: &str) -> (r: String)
    ensures
        r@ == upper(s@),
        !ascii_text(s@) ==> r@ == unicode_upper(s@),
{
    s.to_uppercase()
}

/// The text of `s` without leading and trailing whitespace (`str::trim`).
pub fn trim_text(s: &str) -> (r: String)
    ensures
        r@ == trim(s@),
{
    let v = chars_of(s);
    let (a, b) = trim_bounds(&v);
    string_from_range(&v, a, b)
}

/// Unicode `Alphabetic` (`char::is_alphabetic`) of a non-ASCII character.
pub uninterp spec fn unicode_alphabetic(c: char) -> bool;

/// `char::is_alphabetic`: for an ASCII character, a letter `a`–`z` or `A`–`Z`; otherwise
/// Unicode `Alphabetic` (`unicode_alphabetic`).
pub open spec fn alphabetic(c: char) -> bool {
    if (c as u32) < 128 {
        ('a' <= c && c <= 'z') || ('A' <= c && c <= 'Z')
    } else {
        unicode_alphabetic(c)
    }
}

/// Whether `c` is alphabetic (`char::is_alphabetic`); of ASCII, only the letters are.
#[verifier::external_body]
pub(crate) fn is_alphabetic_char(c: char) -> (r: bool)
    ensures
        r == alphabetic(c),
        (c as u32) >= 128 ==> r == unicode_alphabetic(c),
{
    c.is_alphabetic()
}

/// Unicode `Alphabetic` or `Numeric` (`char::is_alphanumeric`) of a non-ASCII character.
pub uninterp spec fn unicode_alphanumeric(c: char) -> bool;

/// `char::is_alphanumeric`: for an ASCII character, a letter or a digit (see
/// `is_ascii_alnum`); otherwise Unicode `Alphabetic` or `Numeric` (`unicode_alphanumeric`).
pub open spec fn alphanumeric(c: char) -> bool {
    if (c as u32) < 128 {
        is_ascii_alnum(c)
    } else {
        unicode_alphanumeric(c)
    }
}

/// Whether `c` is alphanumeric (`char::is_alphanumeric`); of ASCII, only the letters and
/// digits are.
#[verifier::external_body]
pub(crate) fn is_alphanumeric_char(c: char) -> (r: bool)
    ensures
        r == alphanumeric(c),
        (c as u32) >= 128 ==> r == unicode_alphanumeric(c),
{
    c.is_alphanumeric()
}

/// ASCII letters and digits (`char::is_ascii_alphanumeric`).
pub open spec fn is_ascii_alnum(c: char) -> bool {
    ('0' <= c && c <= '9') || ('a' <= c && c <= 'z') || ('A' <= c && c <= 'Z')
}

/// Whether `c` is an ASCII letter or digit.
pub fn is_ascii_alnum_char(c: char) -> (r: bool)
    ensures
        r == is_ascii_alnum(c),
{
    ('0' <= c && c <= '9') || ('a' <= c && c <= 'z') || ('A' <= c && c <= 'Z')
}

/// The end of `s[..j]` once trailing copies of `c` are dropped.
pub open spec fn strip_back(s: Seq<char>, j: int, c: char) -> int
    decreases j,
{
    if 0 < j <= s.len() && s[j - 1] == c {
        strip_back(s, j - 1, c)
    } else {
        j
    }
}

/// `str::trim_end_matches(c)` for a single character.
pub open spec fn strip_trailing(s: Seq<char>, c: char) -> Seq<char> {
    s.subrange(0, strip_back(s, s.len() as int, c))
}

/// `s[..j]` without trailing copies of `c`.
pub fn strip_trailing_from(s: &Vec<char>, j: usize, c: char) -> (r: usize)
    requires
        j <= s@.len(),
    ensures
        r == strip_back(s@, j as int, c),
        r <= j,
{
    let mut k = j;
    while k > 0 && s[k - 1] == c
        invariant
            k <= j <= s@.len(),
            strip_back(s@, j as int, c) == strip_back(s@, k as int, c),
        decreases k,
    {
        k = k - 1;
    }
    k
}

/// The number of characters that `str::trim_start_matches(p)` drops from the front of
/// `s[i..]`: whole copies of `p`, repeatedly.
pub open spec fn strip_front(s: Seq<char>, i: int, p: Seq<char>) -> int
    decreases s.len() - i,
{
    if p.len() > 0 && 0 <= i && matches_at(s, i, p) {
        strip_front(s, i + p.len(), p)
    } else {
        i
    }
}

/// `str::trim_start_matches(p)` for a non-empty text pattern.
pub open spec fn strip_leading(s: Seq<char>, p: Seq<char>) -> Seq<char> {
    s.subrange(strip_front(s, 0, p), s.len() as int)
}

/// From `i`, the first index past all leading copies of `p`.
pub fn strip_leading_from(s: &Vec<char>, i: usize, p: &Vec<char>) -> (r: usize)
    requires
        i <= s@.len(),
    ensures
        r == strip_front(s@, i as int, p@),
        i <= r <= s@.len(),
{
    let mut k = i;
    if p.len() == 0 {
        return k;
    }
    let n = s.len();
    while match_at(s, k, p)
        invariant
            n == s@.len(),
            i <= k <= s@.len(),
            p@.len() > 0,
            strip_front(s@, i as int, p@) == strip_front(s@, k as int, p@),
        decreases s@.len() - k,
    {
        k = k + p.len();
    }
    k
}

/// The characters of a string literal or any `&str`, for use as a pattern.
pub fn pattern(s: &str) -> (v: Vec<char>)
    ensures
        v@ == s@,
{
    chars_of(s)
}

/// Whether two character sequences are equal.
pub fn chars_eq(a: &Vec<char>, b: &Vec<char>) -> (r: bool)
    ensures
        r == (a@ == b@),
{
    if a.len() != b.len() {
        return false;
    }
    let mut i: usize = 0;
    while i < a.len()
        invariant
            i <= a@.len(),
            a@.len() == b@.len(),
            forall|j: int| 0 <= j < i ==> a@[j] == b@[j],
        decreases a@.len() - i,
    {
        if a[i] != b[i] {
            return false;
        }
        i = i + 1;
    }
    assert(a@ =~= b@);
    true
}

/// Whether two texts are equal.
pub fn str_eq(a: &str, b: &str) -> (r: bool)
    ensures
        r == (a@ == b@),
{
    let x = chars_of(a);
    let y = chars_of(b);
    chars_eq(&x, &y)
}

/// A copy of a vector of strings.
pub fn clone_strings(v: &Vec<String>) -> (r: Vec<String>)
    ensures
        r@ == v@,
{
    let mut r: Vec<String> = Vec::new();
    let mut i: usize = 0;
    while i < v.len()
        invariant
            i <= v@.len(),
            r@ == v@.subrange(0, i as int),
        decreases v@.len() - i,
    {
        r.push(v[i].clone());
        assert(r@ =~= v@.subrange(0, i + 1));
        i = i + 1;
    }
    assert(v@.subrange(0, v@.len() as int) =~= v@);
    r
}


/// `s[i..]` with each occurrence of `p` (left to right, not overlapping) replaced by `r`
/// (`str::replace`, for a pattern that is not empty).
pub open spec fn replaced_from(s: Seq<char>, p: Seq<char>, r: Seq<char>, i: int) -> Seq<char>
    decreases s.len() + 1 - i,
{
    if i < 0 || i > s.len() || p.len() == 0 {
        s.subrange(i, s.len() as int)
    } else {
        let k = first_match(s, p, i);
        if k < 0 {
            s.subrange(i, s.len() as int)
        } else {
            proof {
                lemma_first_match(s, p, i);
            }
            s.subrange(i, k) + r + replaced_from(s, p, r, k + p.len())
        }
    }
}

/// `s` with each occurrence of `p` replaced by `r` (`str::replace`).
pub open spec fn replaced(s: Seq<char>, p: Seq<char>, r: Seq<char>) -> Seq<char> {
    replaced_from(s, p, r, 0)
}

/// `s` with each occurrence of the non-empty pattern `p` replaced by `r`.
pub fn replace_all(s: &str, p: &str, r: &str) -> (out: String)
    requires
        p@.len() > 0,
    ensures
        out@ == replaced(s@, p@, r@),
{
    let sv = chars_of(s);
    let pv = chars_of(p);
    let mut out = String::new();
    let mut i: usize = 0;
    loop
        invariant
            i <= sv@.len(),
            sv@ == s@,
            pv@ == p@,
            pv@.len() > 0,
            replaced(s@, p@, r@) == out@ + replaced_from(s@, p@, r@, i as int),
        decreases sv@.len() + 1 - i,
    {
        proof {
            lemma_first_match(sv@, pv@, i as int);
        }
        match find_from(&sv, &pv, i) {
            Some(k) => {
                assert(matches_at(sv@, k as int, pv@));
                let n = sv.len();
                assert(k + pv@.len() <= n);
                let piece = string_from_range(&sv, i, k);
                let ghost before = out@;
                crate::words::push_str(&mut out, piece.as_str());
                crate::words::push_str(&mut out, r);
                proof {
                    assert(replaced_from(s@, p@, r@, i as int) == s@.subrange(i as int, k as int) + r@ + replaced_from(s@, p@, r@, k + p@.len()));
                    assert(out@ + replaced_from(s@, p@, r@, k + p@.len()) =~= before + replaced_from(s@, p@, r@, i as int));
                }
                i = k + pv.len();
            },
            None => {
                let piece = string_from_range(&sv, i, sv.len());
                crate::words::push_str(&mut out, piece.as_str());
                return out;
            },
        }
    }
}

} // verus!
