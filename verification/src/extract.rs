//! Turning a fetched page into plain text, and scoring the text against the research
//! context. Fetching is left to the caller; the readability pass and the regular
//! expressions are those of `dom_smoothie` and `regex_lite`.
use vstd::prelude::*;
use crate::fragments::utf8_len;
use crate::model::{Error, Ratio};
use crate::text::{contains_seq, first_match, lower, trim};
use crate::words::{joined, sviews, take_chars, ws_words, ends_with};

verus! {

broadcast use vstd::string::group_string_axioms;

/// The whitespace of `regex_lite`'s `\s`: tab, line feed, vertical tab, form feed,
/// carriage return and space.
pub open spec fn regex_space(c: char) -> bool {
    c == '\t' || c == '\n' || c == '\x0B' || c == '\x0C' || c == '\r' || c == ' '
}

/// `s` with every run of `regex_space` characters replaced by one space.
pub open spec fn collapsed(s: Seq<char>) -> Seq<char>
    decreases s.len(),
{
    if s.len() == 0 {
        s
    } else {
        let r = collapsed(s.drop_last());
        if regex_space(s.last()) {
            if s.len() > 1 && regex_space(s[s.len() - 2]) {
                r
            } else {
                r.push(' ')
            }
        } else {
            r.push(s.last())
        }
    }
}

/// Replaces every run of whitespace in `text` by one space (the `regex_lite` pattern `\s+`,
/// whose `\s` is `[\t\n\v\f\r ]`, replaced with `" "`).
#[verifier::external_body]
fn collapse_whitespace(text: &str) -> (r: String)
    ensures
        r@ == collapsed(text@),
{
    let re = regex_lite::Regex::new(r"\s+").unwrap();
    re.replace_all(text, " ").into_owned()
}

/// What `regex_lite` leaves of an HTML text once every `script`, `style`, `noscript` and
/// `iframe` element (case-insensitive, across lines, shortest match) is removed.
pub uninterp spec fn without_blocks(html: Seq<char>) -> Seq<char>;

/// Removes the `script`, `style`, `noscript` and `iframe` elements of an HTML text with
/// the `regex_lite` pattern `(?is)<(script|style|noscript|iframe)[^>]*>.*?</(?:script|style|noscript|iframe)>`
/// replaced by nothing. The contract ties the result to the text through `without_blocks`.
#[verifier::external_body]
fn strip_blocks(html: &str) -> (r: String)
    ensures
        r@ == without_blocks(html@),
{
    let re = regex_lite::Regex::new(r"(?is)<(script|style|noscript|iframe)[^>]*>.*?</(?:script|style|noscript|iframe)>").unwrap();
    re.replace_all(html, "").into_owned()
}

/// `html` with every tag replaced by a space: from the left, a `<` that some `>` follows
/// opens a tag that runs to the first such `>`; a `<` with no `>` after it stays as it is.
pub open spec fn tags_spaced(html: Seq<char>) -> Seq<char>
    decreases html.len(),
{
    if html.len() == 0 {
        html
    } else if html[0] == '<' && first_match(html, seq!['>'], 1) >= 0 {
        let e = first_match(html, seq!['>'], 1);
        proof {
            crate::text::lemma_first_match(html, seq!['>'], 1);
        }
        seq![' '] + tags_spaced(html.subrange(e + 1, html.len() as int))
    } else {
        seq![html[0]] + tags_spaced(html.drop_first())
    }
}

/// Replaces every tag of an HTML text by a space (the `regex_lite` pattern `<[^>]*>`
/// replaced by `" "`). The contract ties the result to the text through `tags_spaced`.
#[verifier::external_body]
fn tags_to_spaces(html: &str) -> (r: String)
    ensures
        r@ == tags_spaced(html@),
{
    let re = regex_lite::Regex::new(r"<[^>]*>").unwrap();
    re.replace_all(html, " ").into_owned()
}

/// The text that `pdf_oxide` extracts from a PDF document, or `None` when the bytes do
/// not open as a PDF or their text cannot be extracted.
pub uninterp spec fn pdf_document_text(bytes: Seq<u8>) -> Option<Seq<char>>;

/// Opens a PDF document from its bytes with `pdf_oxide::PdfDocument::from_bytes` and
/// extracts its text with `extract_all_text`. The contract ties the text to the bytes
/// through `pdf_document_text`; of a failure it states only that it is an extraction
/// error (its message, which quotes `pdf_oxide`'s error, is left unsaid). The contract
/// holds only when the call comes back: on malformed bytes `pdf_oxide` may run for a long
/// time, not return at all, or panic, and nothing here claims otherwise (the program runs
/// the extraction on a blocking task under a time limit).
#[verifier::external_body]
fn pdf_oxide_text(bytes: Vec<u8>) -> (r: Result<String, Error>)
    ensures
        match r {
            Ok(t) => pdf_document_text(bytes@) == Some(t@),
            Err(e) => pdf_document_text(bytes@) is None && e is Extract,
        },
{
    match pdf_oxide::PdfDocument::from_bytes(bytes) {
        Ok(doc) => doc.extract_all_text().map_err(|e| Error::Extract(format!("PDF 文本提取失败: {e}"))),
        Err(e) => Err(Error::Extract(format!("PDF 打开失败: {e}"))),
    }
}

/// The text of a downloaded PDF document (see `pdf_document_text`); an extraction error
/// when it has none. Unlike the rest of the library, this function is not promised to
/// return: it rests on `pdf_oxide`, which on malformed bytes may run without end or panic,
/// so callers run it apart, under a time limit.
pub fn pdf_text(bytes: Vec<u8>) -> (r: Result<String, Error>)
    ensures
        match r {
            Ok(t) => pdf_document_text(bytes@) == Some(t@),
            Err(e) => pdf_document_text(bytes@) is None && e is Extract,
        },
{
    pdf_oxide_text(bytes)
}

/// The text content that `dom_smoothie`'s readability pass finds in a page (in Markdown
/// text mode), or `None` when the URL is not absolute or the pass fails.
pub uninterp spec fn readable_text(html: Seq<char>, url: Seq<char>) -> Option<Seq<char>>;

/// Runs `dom_smoothie`'s readability pass on a page (`Readability::new` with the page URL
/// and the Markdown text mode, then `parse`) and returns the article's text content. The
/// contract ties the result to its arguments through `readable_text`.
#[verifier::external_body]
fn readability_text(html: &str, url: &str) -> (r: Option<String>)
    ensures
        match r {
            Some(t) => readable_text(html@, url@) == Some(t@),
            None => readable_text(html@, url@) is None,
        },
{
    let cfg = dom_smoothie::Config { text_mode: dom_smoothie::TextMode::Markdown, ..Default::default() };
    let mut readable = dom_smoothie::Readability::new(html, Some(url), Some(cfg)).ok()?;
    let article = readable.parse().ok()?;
    Some(article.text_content.to_string())
}

/// The sentence ends that the fallback extraction splits at.
pub open spec fn sentence_end(c: char) -> bool {
    c == '。' || c == '.' || c == '！' || c == '?'
}

/// The splitter's state after reading `s`: the pieces done and the one being read.
pub open spec fn sentence_scan(s: Seq<char>) -> (Seq<Seq<char>>, Seq<char>)
    decreases s.len(),
{
    if s.len() == 0 {
        (Seq::empty(), Seq::empty())
    } else {
        let (done, cur) = sentence_scan(s.drop_last());
        if sentence_end(s.last()) {
            (done.push(cur), Seq::empty())
        } else {
            (done, cur.push(s.last()))
        }
    }
}

/// The pieces of `s` between sentence ends, empty ones included.
pub open spec fn sentences(s: Seq<char>) -> Seq<Seq<char>> {
    let (done, cur) = sentence_scan(s);
    done.push(cur)
}

/// The markers of page furniture that disqualify a sentence.
pub open spec fn garbage() -> Seq<Seq<char>> {
    seq![
        ".css-"@,
        "g-recaptcha"@,
        "elementor"@,
        "grecaptcha"@,
        "recaptcha"@,
        "Skip to main content"@,
        "document."@,
        "window."@,
    ]
}

/// Whether a sentence is kept: trimmed, it has more than 15 bytes and no marker of page
/// furniture.
pub open spec fn kept_sentence(s: Seq<char>) -> bool {
    let t = trim(s);
    utf8_len(t) > 15 && !(exists|k: int| 0 <= k < garbage().len() && contains_seq(t, #[trigger] garbage()[k]))
}

/// The kept sentences, in order.
pub open spec fn kept_sentences(ss: Seq<Seq<char>>) -> Seq<Seq<char>>
    decreases ss.len(),
{
    if ss.len() == 0 {
        ss
    } else {
        let r = kept_sentences(ss.drop_last());
        if kept_sentence(ss.last()) {
            r.push(ss.last())
        } else {
            r
        }
    }
}

/// The keywords of a context: its lower-cased words of more than three bytes.
pub open spec fn context_keywords(ws: Seq<Seq<char>>) -> Seq<Seq<char>>
    decreases ws.len(),
{
    if ws.len() == 0 {
        ws
    } else {
        let r = context_keywords(ws.drop_last());
        if utf8_len(ws.last()) > 3 {
            r.push(ws.last())
        } else {
            r
        }
    }
}

/// How many of the keywords the text holds (repeats counted).
pub open spec fn keyword_hits(kw: Seq<Seq<char>>, text: Seq<char>) -> nat
    decreases kw.len(),
{
    if kw.len() == 0 {
        0
    } else {
        keyword_hits(kw.drop_last(), text) + if contains_seq(text, kw.last()) { 1nat } else { 0nat }
    }
}

/// The relevance of a text to a context: the share of the context's keywords found in the
/// lower-cased text, or one half when the context has no keyword.
pub open spec fn relevance(text: Seq<char>, context: Seq<char>) -> Ratio {
    let kw = context_keywords(ws_words(lower(context)));
    if kw.len() == 0 {
        Ratio { num: 1, den: 2 }
    } else {
        Ratio { num: keyword_hits(kw, lower(text)) as u128, den: kw.len() as u128 }
    }
}

/// How a fetched body is read.
#[derive(Clone, Copy, Debug, PartialEq, Eq, Structural)]
pub enum BodyKind {
    Pdf,
    Html,
}

/// The extractor of page text, with the most characters it keeps of a page.
pub struct WebExtractor {
    pub max_text_length: usize,
}

/// The text kept of a page: whitespace collapsed, cut to `max` characters, trimmed.
pub open spec fn cleaned(text: Seq<char>, max: nat) -> Seq<char> {
    trim(take_chars(collapsed(text), max as int))
}

/// Cleaning never leaves more than `max` characters, and what it leaves has no
/// whitespace at either end.
pub proof fn law_cleaned_within_limit(text: Seq<char>, max: nat)
    ensures
        cleaned(text, max).len() <= max,
        crate::text::unpadded(cleaned(text, max)),
{
    let cut = take_chars(collapsed(text), max as int);
    crate::text::lemma_skip_ws_bounds(cut, 0);
    crate::text::lemma_skip_ws_back_bounds(cut, cut.len() as int, crate::text::skip_ws(cut, 0));
    crate::text::lemma_trim_unpadded(cut);
}

/// The text of a page without a readable article: what is left of it without scripts,
/// styles and tags, cut into sentences; the kept ones are joined with `"。"` and cleaned.
pub open spec fn legacy_text(html: Seq<char>, max: nat) -> Seq<char> {
    let text = tags_spaced(without_blocks(html));
    cleaned(joined(kept_sentences(sentences(text)), "。"@), max)
}

/// The main text of a page: the readable article's text, cleaned, when there is one and it
/// is not blank; else the fallback text.
pub open spec fn main_text(html: Seq<char>, url: Seq<char>, max: nat) -> Seq<char> {
    match readable_text(html, url) {
        Some(t) => if trim(t).len() > 0 {
            cleaned(t, max)
        } else {
            legacy_text(html, max)
        },
        None => legacy_text(html, max),
    }
}

impl WebExtractor {
    /// An extractor that keeps up to 100 000 characters of a page.
    pub fn new() -> (r: WebExtractor)
        ensures
            r.max_text_length == 100_000,
    {
        WebExtractor { max_text_length: 100_000 }
    }

    /// The text kept of a page (see `cleaned`).
    pub fn clean_text(&self, text: &str) -> (r: String)
        ensures
            r@ == cleaned(text@, self.max_text_length as nat),
    {
        let collapsed = collapse_whitespace(text);
        let cut = crate::words::take_text(collapsed.as_str(), self.max_text_length);
        crate::text::trim_text(cut.as_str())
    }

    /// The text of a page without a readable article (see `legacy_text`).
    pub fn legacy_extract(&self, html: &str) -> (r: String)
        ensures
            r@ == legacy_text(html@, self.max_text_length as nat),
    {
        let blocks_gone = strip_blocks(html);
        let text = tags_to_spaces(blocks_gone.as_str());
        let v = crate::text::chars_of(text.as_str());
        let mut done: Vec<String> = Vec::new();
        let mut cur: Vec<char> = Vec::new();
        let mut i: usize = 0;
        while i < v.len()
            invariant
                i <= v@.len(),
                v@ == text@,
                (sviews(done@), cur@) == sentence_scan(v@.subrange(0, i as int)),
            decreases v@.len() - i,
        {
            proof {
                assert(v@.subrange(0, i + 1).drop_last() =~= v@.subrange(0, i as int));
            }
            let c = v[i];
            if c == '。' || c == '.' || c == '！' || c == '?' {
                let piece = crate::text::string_from(&cur);
                let ghost before = sviews(done@);
                let ghost pv = piece@;
                done.push(piece);
                assert(sviews(done@) =~= before.push(pv));
                cur = Vec::new();
            } else {
                cur.push(c);
            }
            i = i + 1;
        }
        assert(v@.subrange(0, v@.len() as int) =~= v@);
        let last = crate::text::string_from(&cur);
        let ghost before = sviews(done@);
        let ghost lv = last@;
        done.push(last);
        assert(sviews(done@) =~= before.push(lv));
        let ghost ss = sviews(done@);
        let marks = garbage_marks();
        let mut kept: Vec<String> = Vec::new();
        let mut k: usize = 0;
        while k < done.len()
            invariant
                k <= done@.len(),
                ss == sviews(done@),
                sviews(marks@) == garbage(),
                sviews(kept@) == kept_sentences(ss.subrange(0, k as int)),
            decreases done@.len() - k,
        {
            proof {
                assert(ss.subrange(0, k + 1).drop_last() =~= ss.subrange(0, k as int));
            }
            if keeps_sentence(&done[k], &marks) {
                let ghost before = sviews(kept@);
                kept.push(done[k].clone());
                assert(sviews(kept@) =~= before.push(ss[k as int]));
            }
            k = k + 1;
        }
        assert(ss.subrange(0, ss.len() as int) =~= ss);
        let joined_text = crate::words::join(&kept, "。");
        self.clean_text(joined_text.as_str())
    }

    /// The main text of a page (see `main_text`).
    pub fn extract_main_content(&self, html: &str, url: &str) -> (r: String)
        ensures
            r@ == main_text(html@, url@, self.max_text_length as nat),
    {
        match readability_text(html, url) {
            Some(t) => {
                let tt = crate::text::trim_text(t.as_str());
                if tt.as_str().is_empty() {
                    self.legacy_extract(html)
                } else {
                    self.clean_text(t.as_str())
                }
            },
            None => self.legacy_extract(html),
        }
    }

    /// The relevance of a text to a context (see `relevance`).
    pub fn relevance_score(&self, text: &str, context: &str) -> (r: Ratio)
        ensures
            r == relevance(text@, context@),
    {
        let low_ctx = crate::fragments::lower_chars(&crate::text::chars_of(context));
        let words = crate::words::split_ws(&low_ctx);
        let ghost ws = crate::fragments::vviews(words@);
        let mut kw: Vec<Vec<char>> = Vec::new();
        let mut i: usize = 0;
        while i < words.len()
            invariant
                i <= words@.len(),
                ws == crate::fragments::vviews(words@),
                crate::fragments::vviews(kw@) == context_keywords(ws.subrange(0, i as int)),
            decreases words@.len() - i,
        {
            proof {
                assert(ws.subrange(0, i + 1).drop_last() =~= ws.subrange(0, i as int));
            }
            if crate::words::byte_len(&words[i]) > 3 {
                let ghost before = crate::fragments::vviews(kw@);
                kw.push(crate::fragments::copy_chars(&words[i]));
                assert(crate::fragments::vviews(kw@) =~= before.push(ws[i as int]));
            }
            i = i + 1;
        }
        assert(ws.subrange(0, ws.len() as int) =~= ws);
        if kw.len() == 0 {
            return Ratio { num: 1, den: 2 };
        }
        let low_text = crate::fragments::lower_chars(&crate::text::chars_of(text));
        let ghost kws = crate::fragments::vviews(kw@);
        let mut hits: usize = 0;
        let mut j: usize = 0;
        while j < kw.len()
            invariant
                j <= kw@.len(),
                kws == crate::fragments::vviews(kw@),
                hits == keyword_hits(kws.subrange(0, j as int), low_text@),
                hits <= j,
            decreases kw@.len() - j,
        {
            proof {
                assert(kws.subrange(0, j + 1).drop_last() =~= kws.subrange(0, j as int));
                assert(kws[j as int] == kw@[j as int]@);
            }
            if crate::text::contains_chars(&low_text, &kw[j]) {
                hits = hits + 1;
            }
            j = j + 1;
        }
        assert(kws.subrange(0, kws.len() as int) =~= kws);
        Ratio { num: hits as u128, den: kw.len() as u128 }
    }

    /// How a fetched body is read: as a PDF when the URL ends in `.pdf` (ignoring case) or
    /// the content type mentions `pdf`, else as HTML.
    pub fn body_kind(&self, url: &str, content_type: &str) -> (r: BodyKind)
        ensures
            r == (if ends_with(lower(url@), ".pdf"@) || contains_seq(content_type@, "pdf"@) {
                BodyKind::Pdf
            } else {
                BodyKind::Html
            }),
    {
        let low = crate::text::to_lower(url);
        let is_pdf = crate::words::text_ends_with(low.as_str(), ".pdf");
        let ct = crate::text::chars_of(content_type);
        let p = crate::text::pattern("pdf");
        if is_pdf || crate::text::contains_chars(&ct, &p) {
            BodyKind::Pdf
        } else {
            BodyKind::Html
        }
    }
}

/// The markers of page furniture (see `garbage`).
fn garbage_marks() -> (r: Vec<String>)
    ensures
        sviews(r@) == garbage(),
{
    let mut r: Vec<String> = Vec::new();
    r.push(crate::words::owned(".css-"));
    r.push(crate::words::owned("g-recaptcha"));
    r.push(crate::words::owned("elementor"));
    r.push(crate::words::owned("grecaptcha"));
    r.push(crate::words::owned("recaptcha"));
    r.push(crate::words::owned("Skip to main content"));
    r.push(crate::words::owned("document."));
    r.push(crate::words::owned("window."));
    assert(sviews(r@) =~= garbage());
    r
}

/// Whether a sentence is kept (see `kept_sentence`).
fn keeps_sentence(s: &String, marks: &Vec<String>) -> (r: bool)
    requires
        sviews(marks@) == garbage(),
    ensures
        r == kept_sentence(s@),
{
    let t = crate::text::trim_text(s.as_str());
    let tv = crate::text::chars_of(t.as_str());
    if crate::words::byte_len(&tv) <= 15 {
        return false;
    }
    let mut k: usize = 0;
    while k < marks.len()
        invariant
            k <= marks@.len(),
            sviews(marks@) == garbage(),
            tv@ == trim(s@),
            forall|m: int| 0 <= m < k ==> !contains_seq(tv@, #[trigger] garbage()[m]),
        decreases marks@.len() - k,
    {
        let mv = crate::text::chars_of(marks[k].as_str());
        assert(garbage()[k as int] == marks@[k as int]@);
        if crate::text::contains_chars(&tv, &mv) {
            return false;
        }
        k = k + 1;
    }
    true
}

/// The text last stored under `url` among `entries`, if any.
pub open spec fn cached_text(entries: Seq<(String, String)>, url: Seq<char>) -> Option<Seq<char>>
    decreases entries.len(),
{
    if entries.len() == 0 {
        None
    } else if entries.last().0@ == url {
        Some(entries.last().1@)
    } else {
        cached_text(entries.drop_last(), url)
    }
}

/// The texts already extracted in a session, by URL: a URL read again gives the text
/// stored for it, and its page need not be fetched again.
pub struct TextCache {
    pub entries: Vec<(String, String)>,
}

impl TextCache {
    /// A cache holding nothing.
    pub fn new() -> (r: TextCache)
        ensures
            r.entries@.len() == 0,
    {
        TextCache { entries: Vec::new() }
    }

    /// The text stored for `url` (see `cached_text`).
    pub fn get(&self, url: &str) -> (r: Option<String>)
        ensures
            match cached_text(self.entries@, url@) {
                Some(t) => r matches Some(s) && s@ == t,
                None => r is None,
            },
    {
        let mut k: usize = self.entries.len();
        assert(self.entries@.subrange(0, k as int) =~= self.entries@);
        while k > 0
            invariant
                k <= self.entries@.len(),
                cached_text(self.entries@, url@) == cached_text(self.entries@.subrange(0, k as int), url@),
            decreases k,
        {
            proof {
                assert(self.entries@.subrange(0, k as int).drop_last() =~= self.entries@.subrange(0, k - 1));
            }
            if crate::text::str_eq(self.entries[k - 1].0.as_str(), url) {
                return Some(self.entries[k - 1].1.clone());
            }
            k = k - 1;
        }
        None
    }

    /// Stores `text` for `url`.
    pub fn insert(&mut self, url: String, text: String)
        ensures
            final(self).entries@ == old(self).entries@.push((url, text)),
    {
        self.entries.push((url, text));
    }
}

/// What a cache gives back of a write: after storing a text for a URL, reading that URL
/// gives that text, and reading any other URL gives what it gave before.
pub proof fn law_cache_reads_back(entries: Seq<(String, String)>, url: String, text: String, other: Seq<char>)
    ensures
        cached_text(entries.push((url, text)), url@) == Some(text@),
        other != url@ ==> cached_text(entries.push((url, text)), other) == cached_text(entries, other),
{
    assert(entries.push((url, text)).drop_last() =~= entries);
}

} // verus!
