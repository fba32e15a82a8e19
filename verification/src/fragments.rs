//! Keyword fragments of a context text, used to pre-select search results and to
//! measure how well findings cover the sub-tasks of a plan.
//!
//! A text is cut at every character that is neither alphanumeric nor a CJK ideograph;
//! pieces are cut again where CJK ideographs meet other characters; the pieces of at
//! least two characters are the words. The fragments are the lower-cased words and, for CJK
//! words of three or more characters, their overlapping bigrams and trigrams, each kept
//! once, in order of first appearance.
use vstd::prelude::*;
use crate::text::{alphanumeric, chars_of, is_alphanumeric_char, lower, string_from, to_lower};

verus! {

/// CJK Unified Ideographs and Extension A.
pub open spec fn is_cjk(c: char) -> bool {
    let u = c as u32;
    (0x4E00 <= u && u <= 0x9FFF) || (0x3400 <= u && u <= 0x4DBF)
}

/// Whether `c` is a CJK ideograph (see `is_cjk`).
pub fn is_cjk_char(c: char) -> (r: bool)
    ensures
        r == is_cjk(c),
{
    let u = c as u32;
    (0x4E00 <= u && u <= 0x9FFF) || (0x3400 <= u && u <= 0x4DBF)
}

/// The characters that separate words.
pub open spec fn is_separator(c: char) -> bool {
    !alphanumeric(c) && !is_cjk(c)
}

/// The number of bytes of `c` in UTF-8.
pub open spec fn utf8_width(c: char) -> nat {
    let u = c as u32;
    if u < 0x80 {
        1
    } else if u < 0x800 {
        2
    } else if u < 0x10000 {
        3
    } else {
        4
    }
}

/// The number of bytes of `s` in UTF-8 (`str::len`).
pub open spec fn utf8_len(s: Seq<char>) -> nat
    decreases s.len(),
{
    if s.len() == 0 {
        0
    } else {
        utf8_len(s.drop_last()) + utf8_width(s.last())
    }
}

/// The pieces between separators, empty ones included (`str::split` with a predicate):
/// the finished pieces and the one being read.
pub open spec fn split_scan(s: Seq<char>) -> (Seq<Seq<char>>, Seq<char>)
    decreases s.len(),
{
    if s.len() == 0 {
        (Seq::empty(), Seq::empty())
    } else {
        let (done, cur) = split_scan(s.drop_last());
        if is_separator(s.last()) {
            (done.push(cur), Seq::empty())
        } else {
            (done, cur.push(s.last()))
        }
    }
}

/// The pieces between separators.
pub open spec fn split_pieces(s: Seq<char>) -> Seq<Seq<char>> {
    let (done, cur) = split_scan(s);
    done.push(cur)
}

/// The parts of a piece where CJK ideographs and other characters meet: finished parts,
/// the part being read and whether it is CJK.
pub open spec fn cjk_scan(w: Seq<char>) -> (Seq<Seq<char>>, Seq<char>, bool)
    decreases w.len(),
{
    if w.len() == 0 {
        (Seq::empty(), Seq::empty(), false)
    } else {
        let (parts, buf, was_cjk) = cjk_scan(w.drop_last());
        let c = w.last();
        if buf.len() > 0 && is_cjk(c) != was_cjk {
            (parts.push(buf), seq![c], is_cjk(c))
        } else {
            (parts, buf.push(c), is_cjk(c))
        }
    }
}

/// The parts of a piece (see `cjk_scan`).
pub open spec fn cjk_parts(w: Seq<char>) -> Seq<Seq<char>> {
    let (parts, buf, _) = cjk_scan(w);
    if buf.len() > 0 { parts.push(buf) } else { parts }
}

/// The parts of all pieces, in order.
pub open spec fn all_parts(ws: Seq<Seq<char>>) -> Seq<Seq<char>>
    decreases ws.len(),
{
    if ws.len() == 0 {
        Seq::empty()
    } else {
        all_parts(ws.drop_last()) + cjk_parts(ws.last())
    }
}

/// The words of at least two characters, in order.
pub open spec fn at_least_two_chars(ws: Seq<Seq<char>>) -> Seq<Seq<char>>
    decreases ws.len(),
{
    if ws.len() == 0 {
        ws
    } else if ws.last().len() >= 2 {
        at_least_two_chars(ws.drop_last()).push(ws.last())
    } else {
        at_least_two_chars(ws.drop_last())
    }
}

/// The words of a text.
pub open spec fn raw_words(s: Seq<char>) -> Seq<Seq<char>> {
    at_least_two_chars(all_parts(at_least_two_chars(split_pieces(s))))
}

/// Some character of `w` is a CJK ideograph.
pub open spec fn has_cjk(w: Seq<char>) -> bool {
    exists|i: int| 0 <= i < w.len() && is_cjk(w[i])
}

/// The overlapping runs of `n` characters of `w`, lower-cased, in order.
pub open spec fn ngrams(w: Seq<char>, n: int) -> Seq<Seq<char>> {
    if w.len() < n {
        Seq::empty()
    } else {
        Seq::new((w.len() - n + 1) as nat, |i: int| lower(w.subrange(i, i + n)))
    }
}

/// The n-grams contributed by the words: bigrams then trigrams of each CJK word of three
/// or more characters.
pub open spec fn ngram_candidates(ws: Seq<Seq<char>>) -> Seq<Seq<char>>
    decreases ws.len(),
{
    if ws.len() == 0 {
        Seq::empty()
    } else {
        let w = ws.last();
        let more = if has_cjk(w) && w.len() >= 3 {
            ngrams(w, 2) + ngrams(w, 3)
        } else {
            Seq::empty()
        };
        ngram_candidates(ws.drop_last()) + more
    }
}

/// Every candidate fragment of a text, in order, with repeats.
pub open spec fn fragment_candidates(s: Seq<char>) -> Seq<Seq<char>> {
    let raw = raw_words(s);
    raw.map_values(|w: Seq<char>| lower(w)) + ngram_candidates(raw)
}

/// The first copy of each element, in order.
pub open spec fn first_copies(c: Seq<Seq<char>>) -> Seq<Seq<char>>
    decreases c.len(),
{
    if c.len() == 0 {
        c
    } else {
        let d = first_copies(c.drop_last());
        if d.contains(c.last()) {
            d
        } else {
            d.push(c.last())
        }
    }
}

proof fn lemma_first_copies(c: Seq<Seq<char>>)
    ensures
        first_copies(c).no_duplicates(),
        forall|i: int| 0 <= i < c.len() ==> first_copies(c).contains(#[trigger] c[i]),
        forall|j: int| 0 <= j < first_copies(c).len() ==> c.contains(#[trigger] first_copies(c)[j]),
    decreases c.len(),
{
    if c.len() > 0 {
        let init = c.drop_last();
        lemma_first_copies(init);
        let d = first_copies(init);
        let f = first_copies(c);
        assert forall|i: int| 0 <= i < c.len() implies f.contains(#[trigger] c[i]) by {
            if i < c.len() - 1 {
                assert(c[i] == init[i]);
                let q = choose|q: int| 0 <= q < d.len() && d[q] == init[i];
                assert(f[q] == d[q]);
            } else if !d.contains(c.last()) {
                assert(f[f.len() - 1] == c.last());
            }
        }
        assert forall|j: int| 0 <= j < f.len() implies c.contains(#[trigger] f[j]) by {
            if j < d.len() {
                assert(f[j] == d[j]);
                let q = choose|q: int| 0 <= q < init.len() && init[q] == d[j];
                assert(c[q] == init[q]);
            } else {
                assert(f[j] == c[c.len() - 1]);
            }
        }
    }
}

/// The fragments of a context are each taken once, and every candidate (a word, its
/// lower-case form, or a CJK n-gram) is among them.
pub proof fn law_fragments_once_each(s: Seq<char>)
    ensures
        fragments_of(s).no_duplicates(),
        forall|i: int| 0 <= i < fragment_candidates(s).len() ==> fragments_of(s).contains(#[trigger] fragment_candidates(s)[i]),
{
    lemma_first_copies(fragment_candidates(s));
}

/// The fragments of a text.
pub open spec fn fragments_of(s: Seq<char>) -> Seq<Seq<char>> {
    first_copies(fragment_candidates(s))
}

/// The views of a vector of character vectors.
pub open spec fn vviews(v: Seq<Vec<char>>) -> Seq<Seq<char>> {
    v.map_values(|w: Vec<char>| w@)
}

/// A copy of a character vector.
pub fn copy_chars(v: &Vec<char>) -> (r: Vec<char>)
    ensures
        r@ == v@,
{
    let r = crate::text::slice_chars(v, 0, v.len());
    assert(v@.subrange(0, v@.len() as int) =~= v@);
    r
}

/// The pieces between separators (see `split_pieces`).
fn split_into_pieces(s: &Vec<char>) -> (r: Vec<Vec<char>>)
    ensures
        vviews(r@) == split_pieces(s@),
{
    let mut done: Vec<Vec<char>> = Vec::new();
    let mut cur: Vec<char> = Vec::new();
    let mut i: usize = 0;
    proof {
        assert(vviews(done@) =~= Seq::<Seq<char>>::empty());
        assert(cur@ =~= Seq::<char>::empty());
        assert(s@.subrange(0, 0) =~= Seq::<char>::empty());
    }
    while i < s.len()
        invariant
            i <= s@.len(),
            split_scan(s@.subrange(0, i as int)) == (vviews(done@), cur@),
        decreases s@.len() - i,
    {
        let c = s[i];
        proof {
            assert(s@.subrange(0, i + 1).drop_last() =~= s@.subrange(0, i as int));
        }
        if !is_alphanumeric_char(c) && !is_cjk_char(c) {
            let finished = cur;
            done.push(finished);
            cur = Vec::new();
            assert(vviews(done@) =~= split_scan(s@.subrange(0, i + 1)).0);
            assert(cur@ =~= Seq::<char>::empty());
        } else {
            cur.push(c);
        }
        i = i + 1;
    }
    assert(s@.subrange(0, s@.len() as int) =~= s@);
    done.push(cur);
    assert(vviews(done@) =~= split_pieces(s@));
    done
}

/// The words of at least two characters (see `at_least_two_chars`).
fn keep_two_chars(ws: &Vec<Vec<char>>) -> (r: Vec<Vec<char>>)
    ensures
        vviews(r@) == at_least_two_chars(vviews(ws@)),
{
    let mut r: Vec<Vec<char>> = Vec::new();
    let mut i: usize = 0;
    proof {
        assert(vviews(r@) =~= Seq::<Seq<char>>::empty());
        assert(vviews(ws@).subrange(0, 0) =~= Seq::<Seq<char>>::empty());
    }
    while i < ws.len()
        invariant
            i <= ws@.len(),
            vviews(r@) == at_least_two_chars(vviews(ws@).subrange(0, i as int)),
        decreases ws@.len() - i,
    {
        proof {
            assert(vviews(ws@).subrange(0, i + 1).drop_last() =~= vviews(ws@).subrange(0, i as int));
        }
        if ws[i].len() >= 2 {
            r.push(copy_chars(&ws[i]));
            assert(vviews(r@) =~= at_least_two_chars(vviews(ws@).subrange(0, i as int)).push(ws@[i as int]@));
        }
        i = i + 1;
    }
    assert(vviews(ws@).subrange(0, ws@.len() as int) =~= vviews(ws@));
    r
}

/// The parts of a piece where CJK ideographs and other characters meet (see `cjk_parts`).
fn cjk_split(w: &Vec<char>) -> (r: Vec<Vec<char>>)
    ensures
        vviews(r@) == cjk_parts(w@),
{
    let mut parts: Vec<Vec<char>> = Vec::new();
    let mut buf: Vec<char> = Vec::new();
    let mut was_cjk = false;
    let mut i: usize = 0;
    proof {
        assert(vviews(parts@) =~= Seq::<Seq<char>>::empty());
        assert(buf@ =~= Seq::<char>::empty());
        assert(w@.subrange(0, 0) =~= Seq::<char>::empty());
    }
    while i < w.len()
        invariant
            i <= w@.len(),
            cjk_scan(w@.subrange(0, i as int)) == (vviews(parts@), buf@, was_cjk),
        decreases w@.len() - i,
    {
        let c = w[i];
        let cur = is_cjk_char(c);
        proof {
            assert(w@.subrange(0, i + 1).drop_last() =~= w@.subrange(0, i as int));
        }
        if buf.len() > 0 && cur != was_cjk {
            let finished = buf;
            parts.push(finished);
            buf = Vec::new();
            buf.push(c);
            assert(vviews(parts@) =~= cjk_scan(w@.subrange(0, i + 1)).0);
            assert(buf@ =~= seq![c]);
        } else {
            buf.push(c);
        }
        was_cjk = cur;
        i = i + 1;
    }
    assert(w@.subrange(0, w@.len() as int) =~= w@);
    if buf.len() > 0 {
        parts.push(buf);
        assert(vviews(parts@) =~= cjk_parts(w@));
    }
    parts
}

/// The parts of all pieces (see `all_parts`).
fn split_all(ws: &Vec<Vec<char>>) -> (r: Vec<Vec<char>>)
    ensures
        vviews(r@) == all_parts(vviews(ws@)),
{
    let mut r: Vec<Vec<char>> = Vec::new();
    let mut i: usize = 0;
    proof {
        assert(vviews(r@) =~= Seq::<Seq<char>>::empty());
        assert(vviews(ws@).subrange(0, 0) =~= Seq::<Seq<char>>::empty());
    }
    while i < ws.len()
        invariant
            i <= ws@.len(),
            vviews(r@) == all_parts(vviews(ws@).subrange(0, i as int)),
        decreases ws@.len() - i,
    {
        proof {
            assert(vviews(ws@).subrange(0, i + 1).drop_last() =~= vviews(ws@).subrange(0, i as int));
        }
        let parts = cjk_split(&ws[i]);
        let ghost before = vviews(r@);
        let mut k: usize = 0;
        while k < parts.len()
            invariant
                k <= parts@.len(),
                vviews(r@) == before + vviews(parts@).subrange(0, k as int),
            decreases parts@.len() - k,
        {
            let ghost old_r = r@;
            let cp = copy_chars(&parts[k]);
            let ghost cpv = cp@;
            r.push(cp);
            assert(vviews(r@) =~= vviews(old_r).push(cpv));
            assert(vviews(parts@).subrange(0, k + 1) =~= vviews(parts@).subrange(0, k as int).push(cpv));
            k = k + 1;
        }
        assert(vviews(parts@).subrange(0, parts@.len() as int) =~= vviews(parts@));
        i = i + 1;
    }
    assert(vviews(ws@).subrange(0, ws@.len() as int) =~= vviews(ws@));
    r
}

/// The words of a text (see `raw_words`).
fn words_of(s: &Vec<char>) -> (r: Vec<Vec<char>>)
    ensures
        vviews(r@) == raw_words(s@),
{
    let pieces = split_into_pieces(s);
    let long_pieces = keep_two_chars(&pieces);
    let parts = split_all(&long_pieces);
    keep_two_chars(&parts)
}

/// The lower-cased copy of `w`.
pub fn lower_chars(w: &Vec<char>) -> (r: Vec<char>)
    ensures
        r@ == lower(w@),
{
    let s = string_from(w);
    let l = to_lower(s.as_str());
    chars_of(l.as_str())
}

/// Whether `w` holds a CJK ideograph.
fn holds_cjk(w: &Vec<char>) -> (r: bool)
    ensures
        r == has_cjk(w@),
{
    let mut i: usize = 0;
    while i < w.len()
        invariant
            i <= w@.len(),
            forall|j: int| 0 <= j < i ==> !is_cjk(w@[j]),
        decreases w@.len() - i,
    {
        if is_cjk_char(w[i]) {
            return true;
        }
        i = i + 1;
    }
    false
}

/// Appends the lower-cased `n`-grams of `w` to `out`.
fn push_ngrams(out: &mut Vec<Vec<char>>, w: &Vec<char>, n: usize)
    requires
        1 <= n <= w@.len(),
    ensures
        vviews(final(out)@) == vviews(old(out)@) + ngrams(w@, n as int),
{
    let ghost base = vviews(out@);
    let mut i: usize = 0;
    while i <= w.len() - n
        invariant
            1 <= n <= w@.len(),
            i <= w@.len() - n + 1,
            vviews(out@) == base + ngrams(w@, n as int).subrange(0, i as int),
        decreases w@.len() - i,
    {
        let g = crate::text::slice_chars(w, i, i + n);
        let ghost old_out = out@;
        let lg = lower_chars(&g);
        let ghost lgv = lg@;
        out.push(lg);
        assert(vviews(out@) =~= vviews(old_out).push(lgv));
        assert(ngrams(w@, n as int).subrange(0, i + 1) =~= ngrams(w@, n as int).subrange(0, i as int).push(lgv));
        i = i + 1;
    }
    assert(ngrams(w@, n as int).subrange(0, i as int) =~= ngrams(w@, n as int));
}

/// Every candidate fragment of the words, in order (see `fragment_candidates`).
fn candidates_of(words: &Vec<Vec<char>>) -> (r: Vec<Vec<char>>)
    ensures
        vviews(r@) == vviews(words@).map_values(|w: Seq<char>| lower(w)) + ngram_candidates(vviews(words@)),
{
    let mut r: Vec<Vec<char>> = Vec::new();
    let mut i: usize = 0;
    let ghost ws = vviews(words@);
    while i < words.len()
        invariant
            i <= words@.len(),
            ws == vviews(words@),
            vviews(r@) == ws.subrange(0, i as int).map_values(|w: Seq<char>| lower(w)),
        decreases words@.len() - i,
    {
        let ghost old_r = r@;
        let lw = lower_chars(&words[i]);
        let ghost lwv = lw@;
        r.push(lw);
        assert(vviews(r@) =~= vviews(old_r).push(lwv));
        assert(ws.subrange(0, i + 1).map_values(|w: Seq<char>| lower(w)) =~= ws.subrange(0, i as int).map_values(|w: Seq<char>| lower(w)).push(lwv));
        i = i + 1;
    }
    assert(ws.subrange(0, ws.len() as int) =~= ws);
    let ghost lowered = vviews(r@);
    let mut j: usize = 0;
    assert(ws.subrange(0, 0) =~= Seq::<Seq<char>>::empty());
    assert(lowered + Seq::<Seq<char>>::empty() =~= lowered);
    while j < words.len()
        invariant
            j <= words@.len(),
            ws == vviews(words@),
            vviews(r@) == lowered + ngram_candidates(ws.subrange(0, j as int)),
        decreases words@.len() - j,
    {
        proof {
            assert(ws.subrange(0, j + 1).drop_last() =~= ws.subrange(0, j as int));
        }
        let ghost before = vviews(r@);
        if holds_cjk(&words[j]) && words[j].len() >= 3 {
            push_ngrams(&mut r, &words[j], 2);
            push_ngrams(&mut r, &words[j], 3);
            assert(vviews(r@) =~= lowered + ngram_candidates(ws.subrange(0, j + 1)));
        } else {
            assert(vviews(r@) =~= lowered + ngram_candidates(ws.subrange(0, j + 1)));
        }
        j = j + 1;
    }
    assert(ws.subrange(0, ws.len() as int) =~= ws);
    r
}

/// Whether `w` equals one of `ws`.
pub fn contains_chars_vec(ws: &Vec<Vec<char>>, w: &Vec<char>) -> (r: bool)
    ensures
        r == vviews(ws@).contains(w@),
{
    let mut i: usize = 0;
    while i < ws.len()
        invariant
            i <= ws@.len(),
            forall|j: int| 0 <= j < i ==> ws@[j]@ != w@,
        decreases ws@.len() - i,
    {
        if crate::text::chars_eq(&ws[i], w) {
            assert(vviews(ws@)[i as int] == w@);
            return true;
        }
        i = i + 1;
    }
    assert(!vviews(ws@).contains(w@)) by {
        if vviews(ws@).contains(w@) {
            let j = choose|j: int| 0 <= j < vviews(ws@).len() && vviews(ws@)[j] == w@;
            assert(ws@[j]@ == w@);
        }
    }
    false
}

/// The keyword fragments of a context text (see `fragments_of`).
pub fn extract_fragments(context: &str) -> (r: Vec<String>)
    ensures
        crate::search::views(r@) == fragments_of(context@),
{
    let s = chars_of(context);
    let words = words_of(&s);
    let cands = candidates_of(&words);
    let ghost cs = vviews(cands@);
    assert(cs == fragment_candidates(context@));
    let mut firsts: Vec<Vec<char>> = Vec::new();
    let mut i: usize = 0;
    proof {
        assert(vviews(firsts@) =~= Seq::<Seq<char>>::empty());
        assert(cs.subrange(0, 0) =~= Seq::<Seq<char>>::empty());
    }
    while i < cands.len()
        invariant
            i <= cands@.len(),
            cs == vviews(cands@),
            vviews(firsts@) == first_copies(cs.subrange(0, i as int)),
        decreases cands@.len() - i,
    {
        proof {
            assert(cs.subrange(0, i + 1).drop_last() =~= cs.subrange(0, i as int));
        }
        if !contains_chars_vec(&firsts, &cands[i]) {
            firsts.push(copy_chars(&cands[i]));
            assert(vviews(firsts@) =~= first_copies(cs.subrange(0, i as int)).push(cs[i as int]));
        }
        i = i + 1;
    }
    assert(cs.subrange(0, cs.len() as int) =~= cs);
    let mut r: Vec<String> = Vec::new();
    let mut k: usize = 0;
    while k < firsts.len()
        invariant
            k <= firsts@.len(),
            crate::search::views(r@) == vviews(firsts@).subrange(0, k as int),
        decreases firsts@.len() - k,
    {
        let ghost old_r = r@;
        let st = string_from(&firsts[k]);
        let ghost stv = st@;
        r.push(st);
        assert(crate::search::views(r@) =~= crate::search::views(old_r).push(stv));
        assert(vviews(firsts@).subrange(0, k + 1) =~= vviews(firsts@).subrange(0, k as int).push(stv));
        k = k + 1;
    }
    assert(vviews(firsts@).subrange(0, firsts@.len() as int) =~= vviews(firsts@));
    r
}

/// The fragments of `context` as character vectors.
pub fn fragment_chars(context: &str) -> (r: Vec<Vec<char>>)
    ensures
        r@.len() == fragments_of(context@).len(),
        forall|i: int| 0 <= i < r@.len() ==> #[trigger] r@[i]@ == fragments_of(context@)[i],
{
    let fs = extract_fragments(context);
    let mut r: Vec<Vec<char>> = Vec::new();
    let mut i: usize = 0;
    while i < fs.len()
        invariant
            i <= fs@.len(),
            crate::search::views(fs@) == fragments_of(context@),
            r@.len() == i,
            forall|j: int| 0 <= j < i ==> #[trigger] r@[j]@ == fragments_of(context@)[j],
        decreases fs@.len() - i,
    {
        r.push(chars_of(fs[i].as_str()));
        i = i + 1;
    }
    r
}

} // verus!
