//! Splitting texts into words and lines, joining them back, and building texts piece by
//! piece.
use vstd::prelude::*;
use crate::fragments::{utf8_len, utf8_width, vviews};
use crate::text::{chars_of, is_whitespace_char, is_ws, string_from};

verus! {

broadcast use vstd::string::group_string_axioms;

/// Appends `t` to `s` (`String::push_str`).
#[verifier::external_body]
pub(crate) fn push_str(s: &mut String, t: &str)
    ensures
        final(s)@ == old(s)@ + t@,
{
    s.push_str(t);
}

/// A new string holding the text of `s`.
pub fn owned(s: &str) -> (r: String)
    ensures
        r@ == s@,
{
    s.to_owned()
}

/// The whitespace splitter's state after reading `s`: the words done, and the one being read.
pub open spec fn ws_scan(s: Seq<char>) -> (Seq<Seq<char>>, Seq<char>)
    decreases s.len(),
{
    if s.len() == 0 {
        (Seq::empty(), Seq::empty())
    } else {
        let (w, c) = ws_scan(s.drop_last());
        if is_ws(s.last()) {
            if c.len() > 0 {
                (w.push(c), Seq::empty())
            } else {
                (w, c)
            }
        } else {
            (w, c.push(s.last()))
        }
    }
}

/// The words of `s` (`str::split_whitespace`): the maximal runs of non-whitespace characters.
pub open spec fn ws_words(s: Seq<char>) -> Seq<Seq<char>> {
    let (w, c) = ws_scan(s);
    if c.len() > 0 {
        w.push(c)
    } else {
        w
    }
}

/// The line splitter's state after reading `s`: the lines done (each without its line
/// ending), and the text after the last `\n`.
pub open spec fn line_scan(s: Seq<char>) -> (Seq<Seq<char>>, Seq<char>)
    decreases s.len(),
{
    if s.len() == 0 {
        (Seq::empty(), Seq::empty())
    } else {
        let (l, c) = line_scan(s.drop_last());
        if s.last() == '\n' {
            (l.push(strip_cr(c)), Seq::empty())
        } else {
            (l, c.push(s.last()))
        }
    }
}

/// A line without the `\r` of a `\r\n` ending.
pub open spec fn strip_cr(c: Seq<char>) -> Seq<char> {
    if c.len() > 0 && c.last() == '\r' {
        c.drop_last()
    } else {
        c
    }
}

/// The lines of `s` (`str::lines`): split at `\n`, a `\r` before the `\n` dropped, and no
/// empty line after a final `\n`.
pub open spec fn lines_of(s: Seq<char>) -> Seq<Seq<char>> {
    let (l, c) = line_scan(s);
    if c.len() > 0 {
        l.push(c)
    } else {
        l
    }
}

/// `parts` joined with `sep` between each two (`[T]::join`).
pub open spec fn joined(parts: Seq<Seq<char>>, sep: Seq<char>) -> Seq<char>
    decreases parts.len(),
{
    if parts.len() == 0 {
        Seq::empty()
    } else if parts.len() == 1 {
        parts[0]
    } else {
        joined(parts.drop_last(), sep) + sep + parts.last()
    }
}

/// The views of a vector of strings.
pub open spec fn sviews(v: Seq<String>) -> Seq<Seq<char>> {
    v.map_values(|s: String| s@)
}

/// The first `n` characters of `s` (`chars().take(n)`).
pub open spec fn take_chars(s: Seq<char>, n: int) -> Seq<char> {
    if s.len() <= n {
        s
    } else {
        s.subrange(0, n)
    }
}

/// Whether `s` starts with `p`.
pub open spec fn starts_with(s: Seq<char>, p: Seq<char>) -> bool {
    p.len() <= s.len() && s.subrange(0, p.len() as int) == p
}

/// The words of `s`, split at whitespace.
pub fn split_ws(s: &Vec<char>) -> (r: Vec<Vec<char>>)
    ensures
        vviews(r@) == ws_words(s@),
{
    let mut words: Vec<Vec<char>> = Vec::new();
    let mut cur: Vec<char> = Vec::new();
    let mut i: usize = 0;
    while i < s.len()
        invariant
            i <= s@.len(),
            (vviews(words@), cur@) == ws_scan(s@.subrange(0, i as int)),
        decreases s@.len() - i,
    {
        let c = s[i];
        proof {
            assert(s@.subrange(0, i + 1).drop_last() =~= s@.subrange(0, i as int));
        }
        if is_whitespace_char(c) {
            if cur.len() > 0 {
                let done = cur;
                words.push(done);
                cur = Vec::new();
                proof {
                    assert(vviews(words@) =~= vviews(words@.drop_last()).push(done@));
                }
            }
        } else {
            cur.push(c);
        }
        i = i + 1;
    }
    assert(s@.subrange(0, s@.len() as int) =~= s@);
    if cur.len() > 0 {
        let ghost before = words@;
        let last = cur;
        words.push(last);
        assert(vviews(words@) =~= vviews(before).push(last@));
    }
    words
}

/// The words of a text, split at whitespace, as strings.
pub fn words_of_text(s: &str) -> (r: Vec<String>)
    ensures
        sviews(r@) == ws_words(s@),
{
    let v = chars_of(s);
    let w = split_ws(&v);
    let mut r: Vec<String> = Vec::new();
    let mut i: usize = 0;
    while i < w.len()
        invariant
            i <= w@.len(),
            sviews(r@) == vviews(w@).subrange(0, i as int),
        decreases w@.len() - i,
    {
        let t = string_from(&w[i]);
        let ghost before = r@;
        r.push(t);
        assert(sviews(r@) =~= sviews(before).push(w@[i as int]@));
        assert(vviews(w@)[i as int] == w@[i as int]@);
        assert(sviews(r@) =~= vviews(w@).subrange(0, i + 1));
        i = i + 1;
    }
    assert(vviews(w@).subrange(0, w@.len() as int) =~= vviews(w@));
    r
}

/// The lines of a text (see `lines_of`), as strings.
pub fn lines_of_text(s: &str) -> (r: Vec<String>)
    ensures
        sviews(r@) == lines_of(s@),
{
    let v = chars_of(s);
    let mut lines: Vec<String> = Vec::new();
    let mut cur: Vec<char> = Vec::new();
    let mut i: usize = 0;
    while i < v.len()
        invariant
            i <= v@.len(),
            v@ == s@,
            (sviews(lines@), cur@) == line_scan(v@.subrange(0, i as int)),
        decreases v@.len() - i,
    {
        let c = v[i];
        proof {
            assert(v@.subrange(0, i + 1).drop_last() =~= v@.subrange(0, i as int));
        }
        if c == '\n' {
            let ghost before = lines@;
            let n = cur.len();
            let line = if n > 0 && cur[n - 1] == '\r' {
                crate::text::string_from_range(&cur, 0, n - 1)
            } else {
                string_from(&cur)
            };
            proof {
                if n > 0 && cur@[n - 1] == '\r' {
                    assert(cur@.subrange(0, n - 1) =~= cur@.drop_last());
                }
            }
            lines.push(line);
            assert(sviews(lines@) =~= sviews(before).push(strip_cr(cur@)));
            cur = Vec::new();
        } else {
            cur.push(c);
        }
        i = i + 1;
    }
    assert(v@.subrange(0, v@.len() as int) =~= v@);
    if cur.len() > 0 {
        let ghost before = lines@;
        let last = string_from(&cur);
        lines.push(last);
        assert(sviews(lines@) =~= sviews(before).push(cur@));
    }
    lines
}

/// `parts` joined with `sep` between each two.
pub fn join(parts: &Vec<String>, sep: &str) -> (r: String)
    ensures
        r@ == joined(sviews(parts@), sep@),
{
    let mut r = String::new();
    let mut i: usize = 0;
    while i < parts.len()
        invariant
            i <= parts@.len(),
            r@ == joined(sviews(parts@).subrange(0, i as int), sep@),
        decreases parts@.len() - i,
    {
        proof {
            let p = sviews(parts@).subrange(0, i + 1);
            assert(p.drop_last() =~= sviews(parts@).subrange(0, i as int));
        }
        if i > 0 {
            push_str(&mut r, sep);
        }
        push_str(&mut r, parts[i].as_str());
        proof {
            if i == 0 {
                assert(r@ =~= parts@[0]@);
            }
        }
        i = i + 1;
    }
    assert(sviews(parts@).subrange(0, parts@.len() as int) =~= sviews(parts@));
    r
}

/// The first `n` characters of `s`, as a string.
pub fn take_text(s: &str, n: usize) -> (r: String)
    ensures
        r@ == take_chars(s@, n as int),
{
    let v = chars_of(s);
    if v.len() <= n {
        string_from(&v)
    } else {
        crate::text::string_from_range(&v, 0, n)
    }
}

/// Whether `s` starts with `p`.
pub fn has_prefix(s: &Vec<char>, p: &Vec<char>) -> (r: bool)
    ensures
        r == starts_with(s@, p@),
{
    if p.len() > s.len() {
        return false;
    }
    let mut i: usize = 0;
    while i < p.len()
        invariant
            i <= p@.len() <= s@.len(),
            forall|j: int| 0 <= j < i ==> s@[j] == p@[j],
        decreases p@.len() - i,
    {
        if s[i] != p[i] {
            return false;
        }
        i = i + 1;
    }
    assert(s@.subrange(0, p@.len() as int) =~= p@);
    true
}

/// Whether the text `s` starts with the text `p`.
pub fn text_starts_with(s: &str, p: &str) -> (r: bool)
    ensures
        r == starts_with(s@, p@),
{
    let a = chars_of(s);
    let b = chars_of(p);
    has_prefix(&a, &b)
}

/// The number of bytes of the UTF-8 encoding of `s` (`str::len`).
pub fn byte_len(s: &Vec<char>) -> (r: u128)
    ensures
        r == utf8_len(s@),
{
    let mut n: u128 = 0;
    let mut i: usize = 0;
    while i < s.len()
        invariant
            i <= s@.len(),
            n == utf8_len(s@.subrange(0, i as int)),
            n <= 4 * i,
        decreases s@.len() - i,
    {
        proof {
            assert(s@.subrange(0, i + 1).drop_last() =~= s@.subrange(0, i as int));
        }
        let u = s[i] as u32;
        let w: u128 = if u < 0x80 {
            1
        } else if u < 0x800 {
            2
        } else if u < 0x10000 {
            3
        } else {
            4
        };
        assert(w == utf8_width(s@[i as int]));
        n = n + w;
        i = i + 1;
    }
    assert(s@.subrange(0, s@.len() as int) =~= s@);
    n
}

/// The number of bytes of the UTF-8 encoding of a text.
pub fn text_byte_len(s: &str) -> (r: u128)
    ensures
        r == utf8_len(s@),
{
    let v = chars_of(s);
    byte_len(&v)
}

/// The decimal digit for `d < 10`.
pub open spec fn digit_char(d: nat) -> char {
    ((d + 48) as u8) as char
}

/// The decimal text of `n`, without leading zeros (`"0"` for zero).
pub open spec fn decimal(n: nat) -> Seq<char>
    decreases n,
{
    if n < 10 {
        seq![digit_char(n)]
    } else {
        decimal(n / 10).push(digit_char(n % 10))
    }
}

/// The decimal text of `n` (what `format!("{}", n)` writes).
pub fn decimal_text(n: u64) -> (r: String)
    ensures
        r@ == decimal(n as nat),
    decreases n,
{
    if n < 10 {
        let mut r = String::new();
        crate::text::push_char(&mut r, ((n as u8) + 48) as char);
        assert(r@ =~= seq![digit_char(n as nat)]);
        r
    } else {
        let mut r = decimal_text(n / 10);
        crate::text::push_char(&mut r, (((n % 10) as u8) + 48) as char);
        r
    }
}

/// The least `k` from `k` on at which the first `k` characters of `s` take at least `n`
/// bytes (the length when there is none): the first character boundary at or past byte `n`.
pub open spec fn cut_at(s: Seq<char>, n: nat, k: int) -> int
    decreases s.len() - k,
{
    if k >= s.len() || utf8_len(s.subrange(0, k)) >= n {
        k
    } else {
        cut_at(s, n, k + 1)
    }
}

/// Appends copies of the strings of `src` to `dst`.
pub fn append_strings(dst: &mut Vec<String>, src: &Vec<String>)
    ensures
        sviews(final(dst)@) == sviews(old(dst)@) + sviews(src@),
{
    let ghost pre = sviews(dst@);
    let mut j: usize = 0;
    while j < src.len()
        invariant
            j <= src@.len(),
            sviews(dst@) == pre + sviews(src@).subrange(0, j as int),
        decreases src@.len() - j,
    {
        let ghost before = sviews(dst@);
        let s = src[j].clone();
        dst.push(s);
        assert(sviews(dst@) =~= before.push(src@[j as int]@));
        assert(sviews(dst@) =~= pre + sviews(src@).subrange(0, j + 1));
        j = j + 1;
    }
    assert(sviews(src@).subrange(0, src@.len() as int) =~= sviews(src@));
}

/// Whether `s` ends with `p`.
pub open spec fn ends_with(s: Seq<char>, p: Seq<char>) -> bool {
    p.len() <= s.len() && s.subrange(s.len() - p.len(), s.len() as int) == p
}

/// Whether the text `s` ends with the text `p`.
pub fn text_ends_with(s: &str, p: &str) -> (r: bool)
    ensures
        r == ends_with(s@, p@),
{
    let a = chars_of(s);
    let b = chars_of(p);
    if b.len() > a.len() {
        return false;
    }
    let n = a.len();
    let off = n - b.len();
    let mut i: usize = 0;
    while i < b.len()
        invariant
            i <= b@.len(),
            off + b@.len() == a@.len(),
            n == a@.len(),
            a@ == s@,
            b@ == p@,
            forall|j: int| 0 <= j < i ==> a@[off + j] == b@[j],
        decreases b@.len() - i,
    {
        assert(off + i < n);
        if a[off + i] != b[i] {
            assert(a@.subrange(off as int, a@.len() as int)[i as int] != b@[i as int]);
            return false;
        }
        i = i + 1;
    }
    assert(a@.subrange(off as int, a@.len() as int) =~= b@);
    true
}

} // verus!
