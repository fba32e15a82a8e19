//! The Typst side of the report: the source text and the map from its lines back to the
//! report's paragraphs, the bibliography, string quoting, the calendar date, and the file
//! name of the PDF. Compiling the source is left to the caller.
use vstd::prelude::*;
use crate::citation::url_key;
use crate::model::{Prompt, ReportSection, ResearchReport, SourceNode};
use crate::text::{alphanumeric, first_match, trim};
use crate::words::{joined, owned, push_str, sviews, ws_words};
use crate::fragments::utf8_len;
use vstd::string::StringSliceAdditionalSpecFns;
use base64::Engine;

verus! {

broadcast use vstd::string::group_string_axioms;

/// Where a paragraph of the report stands: its section, its byte range in the section's
/// content, and its lines in the Typst source (`source_line_end` excluded).
#[derive(Clone, Copy, Debug, PartialEq, Eq, Structural)]
pub struct ParaSpan {
    pub section_idx: usize,
    pub content_start: usize,
    pub content_end: usize,
    pub source_line_start: usize,
    pub source_line_end: usize,
}

/// The paragraphs of a Typst source, in order.
pub struct SourceMap {
    pub spans: Vec<ParaSpan>,
}

/// An error of the Typst compiler: the source line (0 when unknown) and the message.
pub struct SourceError {
    pub line: usize,
    pub message: String,
}

/// The index of the first span whose lines hold `line`, or -1.
pub open spec fn span_index(spans: Seq<ParaSpan>, line: nat, k: int) -> int
    decreases spans.len() - k,
{
    if k < 0 || k >= spans.len() {
        -1
    } else if spans[k].source_line_start <= line < spans[k].source_line_end {
        k
    } else {
        span_index(spans, line, k + 1)
    }
}

impl SourceMap {
    /// The first paragraph whose lines hold `line`.
    pub fn span_at_line(&self, line: usize) -> (r: Option<&ParaSpan>)
        ensures
            match r {
                Some(s) => span_index(self.spans@, line as nat, 0) >= 0 && *s == self.spans@[span_index(self.spans@, line as nat, 0)],
                None => span_index(self.spans@, line as nat, 0) == -1,
            },
    {
        let mut k: usize = 0;
        while k < self.spans.len()
            invariant
                k <= self.spans@.len(),
                span_index(self.spans@, line as nat, 0) == span_index(self.spans@, line as nat, k as int),
            decreases self.spans@.len() - k,
        {
            let s = &self.spans[k];
            if s.source_line_start <= line && line < s.source_line_end {
                return Some(s);
            }
            k = k + 1;
        }
        None
    }
}

/// Whether `year` is a leap year in the Gregorian calendar.
pub open spec fn leap(year: int) -> bool {
    (year % 4 == 0 && year % 100 != 0) || year % 400 == 0
}

/// `m` divides `a` exactly when it divides `-a`.
proof fn lemma_divides_negated(a: int, m: int)
    requires
        m > 0,
    ensures
        (a % m == 0) == ((-a) % m == 0),
{
    vstd::arithmetic::div_mod::lemma_fundamental_div_mod(a, m);
    vstd::arithmetic::div_mod::lemma_fundamental_div_mod(-a, m);
    if a % m == 0 {
        let q = a / m;
        assert(-a == (-q) * m) by (nonlinear_arith)
            requires
                a == m * q + 0;
        vstd::arithmetic::div_mod::lemma_mod_multiples_basic(-q, m);
    }
    if (-a) % m == 0 {
        let q = (-a) / m;
        assert(a == (-q) * m) by (nonlinear_arith)
            requires
                -a == m * q + 0;
        vstd::arithmetic::div_mod::lemma_mod_multiples_basic(-q, m);
    }
}

/// Whether `year` is a leap year.
pub fn is_leap(year: i32) -> (r: bool)
    ensures
        r == leap(year as int),
{
    let a: u32 = if year < 0 { (0i64 - year as i64) as u32 } else { year as u32 };
    proof {
        lemma_divides_negated(year as int, 4);
        lemma_divides_negated(year as int, 100);
        lemma_divides_negated(year as int, 400);
    }
    (a % 4 == 0 && a % 100 != 0) || a % 400 == 0
}

/// The number of days of `year`.
pub open spec fn year_days(year: int) -> int {
    if leap(year) {
        366
    } else {
        365
    }
}

/// The year that day `d` of year `y` falls in, counting on, and the day within it.
pub open spec fn year_walk(y: int, d: int) -> (int, int)
    decreases d,
{
    if d < year_days(y) || d < 0 {
        (y, d)
    } else {
        year_walk(y + 1, d - year_days(y))
    }
}

/// The number of days of month `m` (1 to 12) of `year`.
pub open spec fn month_days(year: int, m: int) -> int {
    if m == 2 {
        if leap(year) { 29 } else { 28 }
    } else if m == 4 || m == 6 || m == 9 || m == 11 {
        30
    } else {
        31
    }
}

/// The month (from `m` on) that day `d` falls in, and the day within it; past December,
/// month 12 and what is left.
pub open spec fn month_walk(year: int, d: int, m: int) -> (int, int)
    decreases 13 - m,
{
    if m > 12 {
        (12, d)
    } else if d < month_days(year, m) {
        (m, d)
    } else {
        month_walk(year, d - month_days(year, m), m + 1)
    }
}

/// `a / b` rounded toward zero, as Rust divides integers.
pub open spec fn div_toward_zero(a: int, b: int) -> int {
    if a >= 0 {
        a / b
    } else {
        -((-a) / b)
    }
}

/// The calendar date, as (year, month, day), of the Unix time `secs` shifted by `offset`
/// hours: days are counted from 1970-01-01 and the day is truncated to a byte.
pub open spec fn calendar_date(secs: int, offset: Option<i64>) -> (int, int, int) {
    let adjusted = secs + match offset { Some(o) => o as int, None => 0 } * 3600;
    let days = div_toward_zero(adjusted, 86400);
    let (y, d) = year_walk(1970, days);
    let (m, dd) = month_walk(y, d, 1);
    (y, m, ((dd + 1) as u8) as int)
}

/// The days of `year` from month `m` to December.
pub open spec fn rest_days(year: int, m: int) -> int
    decreases 13 - m,
{
    if m > 12 || m < 1 {
        0
    } else {
        month_days(year, m) + rest_days(year, m + 1)
    }
}

proof fn lemma_year_walk(y: int, d: int)
    requires
        d >= 0,
    ensures
        0 <= year_walk(y, d).1 < year_days(year_walk(y, d).0),
    decreases d,
{
    if d >= year_days(y) {
        lemma_year_walk(y + 1, d - year_days(y));
    }
}

proof fn lemma_month_walk(year: int, d: int, m: int)
    requires
        1 <= m <= 12,
        0 <= d < rest_days(year, m),
    ensures
        m <= month_walk(year, d, m).0 <= 12,
        0 <= month_walk(year, d, m).1 < month_days(year, month_walk(year, d, m).0),
    decreases 13 - m,
{
    assert(rest_days(year, 13) == 0);
    if d >= month_days(year, m) {
        lemma_month_walk(year, d - month_days(year, m), m + 1);
    }
}

/// From 1970 on, the date of a time is a real calendar date: a month from 1 to 12 and a
/// day from 1 to the number of days of that month.
pub proof fn law_calendar_date_valid(secs: int, offset: Option<i64>)
    requires
        secs + match offset { Some(o) => o as int, None => 0 } * 3600 >= 0,
    ensures
        1 <= calendar_date(secs, offset).1 <= 12,
        1 <= calendar_date(secs, offset).2 <= month_days(calendar_date(secs, offset).0, calendar_date(secs, offset).1),
{
    let adjusted = secs + match offset { Some(o) => o as int, None => 0 } * 3600;
    let days = div_toward_zero(adjusted, 86400);
    lemma_year_walk(1970, days);
    let (y, d) = year_walk(1970, days);
    assert(rest_days(y, 1) == year_days(y)) by {
        reveal_with_fuel(rest_days, 13);
    }
    lemma_month_walk(y, d, 1);
    let (m, dd) = month_walk(y, d, 1);
    assert(((dd + 1) as u8) as int == dd + 1);
}

/// The calendar date of the Unix time `secs` shifted by `offset` hours (see
/// `calendar_date`), for the times up to the year two billion.
pub fn today_from(secs: i64, offset: Option<i64>) -> (r: (i32, u8, u8))
    requires
        match offset {
            Some(o) => -2_000_000_000_000_000 <= o <= 2_000_000_000_000_000,
            None => true,
        },
        -60_000_000_000_000_000 < secs + match offset { Some(o) => o as int, None => 0 } * 3600 < 60_000_000_000_000_000,
    ensures
        (r.0 as int, r.1 as int, r.2 as int) == calendar_date(secs as int, offset),
{
    let o: i64 = match offset {
        Some(o) => o,
        None => 0,
    };
    let adjusted: i64 = secs + o * 3600;
    let days: i64 = if adjusted >= 0 { adjusted / 86400 } else { -((-adjusted) / 86400) };
    assert(days == div_toward_zero(adjusted as int, 86400));
    assert(days < 700_000_000_000);
    let mut y: i32 = 1970;
    let mut d: i64 = days;
    loop
        invariant
            1970 <= y,
            d <= days,
            days < 700_000_000_000,
            (y as int - 1970) * 365 <= days - d,
            year_walk(1970, days as int) == year_walk(y as int, d as int),
        ensures
            1970 <= y,
            d <= days,
            year_walk(1970, days as int) == year_walk(y as int, d as int),
            d < year_days(y as int) || d < 0,
        decreases d,
    {
        let diy: i64 = if is_leap(y) { 366 } else { 365 };
        assert(diy == year_days(y as int));
        if d < diy || d < 0 {
            break;
        }
        d = d - diy;
        y = y + 1;
    }
    let ghost yd = year_walk(1970, days as int);
    assert(yd == (y as int, d as int));
    let mut m: i64 = 1;
    loop
        invariant
            1 <= m <= 13,
            month_walk(y as int, yd.1, 1) == month_walk(y as int, d as int, m as int),
            d <= yd.1,
            yd.1 < 700_000_000_000,
        ensures
            1 <= m <= 13,
            month_walk(y as int, yd.1, 1) == month_walk(y as int, d as int, m as int),
            d <= yd.1,
            m > 12 || d < month_days(y as int, m as int),
        decreases 13 - m,
    {
        if m > 12 {
            break;
        }
        let md: i64 = if m == 2 {
            if is_leap(y) { 29 } else { 28 }
        } else if m == 4 || m == 6 || m == 9 || m == 11 {
            30
        } else {
            31
        };
        assert(md == month_days(y as int, m as int));
        if d < md {
            break;
        }
        d = d - md;
        m = m + 1;
    }
    let month: u8 = if m > 12 { 12 } else { m as u8 };
    let day: u8 = (d + 1) as u8;
    (y, month, day)
}

/// A text in Typst string syntax: in double quotes, with `\` and `"` escaped.
pub open spec fn quoted(s: Seq<char>) -> Seq<char> {
    "\""@ + escaped(s) + "\""@
}

/// `s` with each `\` doubled and each `"` preceded by `\`.
pub open spec fn escaped(s: Seq<char>) -> Seq<char>
    decreases s.len(),
{
    if s.len() == 0 {
        s
    } else {
        let r = escaped(s.drop_last());
        if s.last() == '\\' {
            r + seq!['\\', '\\']
        } else if s.last() == '"' {
            r + seq!['\\', '"']
        } else {
            r.push(s.last())
        }
    }
}

/// A text in Typst string syntax (see `quoted`).
pub fn quote_string(s: &str) -> (r: String)
    ensures
        r@ == quoted(s@),
{
    let v = crate::text::chars_of(s);
    let mut r = String::new();
    crate::text::push_char(&mut r, '"');
    let mut i: usize = 0;
    while i < v.len()
        invariant
            i <= v@.len(),
            r@ == seq!['"'] + escaped(v@.subrange(0, i as int)),
        decreases v@.len() - i,
    {
        proof {
            assert(v@.subrange(0, i + 1).drop_last() =~= v@.subrange(0, i as int));
        }
        let c = v[i];
        if c == '\\' {
            crate::text::push_char(&mut r, '\\');
            crate::text::push_char(&mut r, '\\');
        } else if c == '"' {
            crate::text::push_char(&mut r, '\\');
            crate::text::push_char(&mut r, '"');
        } else {
            crate::text::push_char(&mut r, c);
        }
        assert(r@ =~= seq!['"'] + escaped(v@.subrange(0, i + 1)));
        i = i + 1;
    }
    assert(v@.subrange(0, v@.len() as int) =~= v@);
    crate::text::push_char(&mut r, '"');
    proof {
        reveal_strlit("\"");
        assert(r@ =~= quoted(s@));
    }
    r
}

/// The citation key of a URL in the bibliography: the key the writer's key table shows
/// for it (see `url_key`).
pub fn bib_key(url: &str) -> (r: String)
    ensures
        r@ == url_key(url@),
{
    crate::citation::citation_key(url)
}

/// `s` with every `"` made `'`.
pub open spec fn unquoted(s: Seq<char>) -> Seq<char> {
    Seq::new(s.len(), |i: int| if s[i] == '"' { '\'' } else { s[i] })
}

/// The BibTeX entry of a source.
pub open spec fn bib_entry(s: SourceNode) -> Seq<char> {
    "@misc{"@ + url_key(s.url@) + ",\n  title = {"@ + unquoted(s.title@) + "},\n  url = {"@ + s.url@ + "}\n}\n\n"@
}

/// The bibliography of the sources: their entries, one after another.
pub open spec fn bibliography(ss: Seq<SourceNode>) -> Seq<char> {
    joined(Seq::new(ss.len(), |i: int| bib_entry(ss[i])), ""@)
}

/// The bibliography of the sources (see `bibliography`).
pub fn generate_bibliography(sources: &Vec<SourceNode>) -> (r: String)
    ensures
        r@ == bibliography(sources@),
{
    let mut entries: Vec<String> = Vec::new();
    let mut i: usize = 0;
    while i < sources.len()
        invariant
            i <= sources@.len(),
            sviews(entries@) == Seq::new(i as nat, |k: int| bib_entry(sources@[k])),
        decreases sources@.len() - i,
    {
        let s = &sources[i];
        let key = bib_key(s.url.as_str());
        let tv = crate::text::chars_of(s.title.as_str());
        let mut title = String::new();
        let mut j: usize = 0;
        while j < tv.len()
            invariant
                j <= tv@.len(),
                title@ == unquoted(tv@).subrange(0, j as int),
            decreases tv@.len() - j,
        {
            crate::text::push_char(&mut title, if tv[j] == '"' { '\'' } else { tv[j] });
            assert(title@ =~= unquoted(tv@).subrange(0, j + 1));
            j = j + 1;
        }
        assert(unquoted(tv@).subrange(0, tv@.len() as int) =~= unquoted(tv@));
        let mut e = owned("@misc{");
        push_str(&mut e, key.as_str());
        push_str(&mut e, ",\n  title = {");
        push_str(&mut e, title.as_str());
        push_str(&mut e, "},\n  url = {");
        push_str(&mut e, s.url.as_str());
        push_str(&mut e, "}\n}\n\n");
        let ghost before = sviews(entries@);
        let ghost ev = e@;
        entries.push(e);
        assert(sviews(entries@) =~= before.push(ev));
        assert(sviews(entries@) =~= Seq::new((i + 1) as nat, |k: int| bib_entry(sources@[k])));
        i = i + 1;
    }
    crate::words::join(&entries, "")
}

/// The number of line feeds among the bytes.
pub open spec fn line_feeds(b: Seq<u8>) -> nat
    decreases b.len(),
{
    if b.len() == 0 {
        0
    } else {
        line_feeds(b.drop_last()) + if b.last() == 10u8 { 1nat } else { 0nat }
    }
}

/// The source line of a compiler error at byte `start` of the source: one more than the
/// line feeds before it, or 0 when the position is unknown or past the end.
pub fn error_line(source: &str, start: Option<usize>) -> (r: usize)
    ensures
        r == match start {
            Some(p) => if p < source.spec_bytes().len() {
                line_feeds(source.spec_bytes().subrange(0, p as int)) + 1
            } else {
                0
            },
            None => 0,
        },
{
    let bytes = source.as_bytes();
    match start {
        Some(p) => {
            if p < bytes.len() {
                let mut n: usize = 0;
                let mut i: usize = 0;
                while i < p
                    invariant
                        i <= p < bytes@.len(),
                        bytes@ == source.spec_bytes(),
                        n == line_feeds(bytes@.subrange(0, i as int)),
                        n <= i,
                    decreases p - i,
                {
                    proof {
                        assert(bytes@.subrange(0, i + 1).drop_last() =~= bytes@.subrange(0, i as int));
                    }
                    if bytes[i] == 10u8 {
                        n = n + 1;
                    }
                    i = i + 1;
                }
                n + 1
            } else {
                0
            }
        },
        None => 0,
    }
}

/// Whether the PDF's file name keeps a character of the title.
pub open spec fn name_char(c: char) -> bool {
    alphanumeric(c) || c == ' ' || c == '-' || c == '_'
}

/// The file name of a report's PDF: the title with every other character made a space,
/// its words joined by `_`, trailing `_` dropped, and `.pdf` added.
pub open spec fn pdf_name(title: Seq<char>) -> Seq<char> {
    let cleaned = Seq::new(title.len(), |i: int| if name_char(title[i]) { title[i] } else { ' ' });
    let j = joined(ws_words(cleaned), "_"@);
    crate::text::strip_trailing(j, '_') + ".pdf"@
}

/// The file name of a report's PDF (see `pdf_name`).
pub fn pdf_file_name(title: &str) -> (r: String)
    ensures
        r@ == pdf_name(title@),
{
    let v = crate::text::chars_of(title);
    let mut cleaned: Vec<char> = Vec::new();
    let mut i: usize = 0;
    while i < v.len()
        invariant
            i <= v@.len(),
            cleaned@ == Seq::new(i as nat, |k: int| if name_char(v@[k]) { v@[k] } else { ' ' }),
        decreases v@.len() - i,
    {
        let c = v[i];
        let keep = crate::text::is_alphanumeric_char(c) || c == ' ' || c == '-' || c == '_';
        cleaned.push(if keep { c } else { ' ' });
        assert(cleaned@ =~= Seq::new((i + 1) as nat, |k: int| if name_char(v@[k]) { v@[k] } else { ' ' }));
        i = i + 1;
    }
    let words = crate::words::split_ws(&cleaned);
    let mut ws: Vec<String> = Vec::new();
    let mut k: usize = 0;
    while k < words.len()
        invariant
            k <= words@.len(),
            sviews(ws@) == crate::fragments::vviews(words@).subrange(0, k as int),
        decreases words@.len() - k,
    {
        let s = crate::text::string_from(&words[k]);
        let ghost before = sviews(ws@);
        ws.push(s);
        assert(sviews(ws@) =~= before.push(words@[k as int]@));
        assert(sviews(ws@) =~= crate::fragments::vviews(words@).subrange(0, k + 1));
        k = k + 1;
    }
    assert(crate::fragments::vviews(words@).subrange(0, words@.len() as int) =~= crate::fragments::vviews(words@));
    let joined_text = crate::words::join(&ws, "_");
    let jv = crate::text::chars_of(joined_text.as_str());
    let e = crate::text::strip_trailing_from(&jv, jv.len(), '_');
    let mut r = crate::text::string_from_range(&jv, 0, e);
    push_str(&mut r, ".pdf");
    r
}

/// The number of line breaks in a text.
pub open spec fn breaks(s: Seq<char>) -> nat
    decreases s.len(),
{
    if s.len() == 0 {
        0
    } else {
        breaks(s.drop_last()) + if s.last() == '\n' { 1nat } else { 0nat }
    }
}

proof fn lemma_breaks_concat(a: Seq<char>, b: Seq<char>)
    ensures
        breaks(a + b) == breaks(a) + breaks(b),
        breaks(b) <= b.len(),
    decreases b.len(),
{
    if b.len() == 0 {
        assert(a + b =~= a);
    } else {
        assert((a + b).drop_last() =~= a + b.drop_last());
        lemma_breaks_concat(a, b.drop_last());
    }
}

/// The pieces of `s[i..]` between the `"\n\n"` separators (`str::split("\n\n")`).
pub open spec fn paragraphs_from(s: Seq<char>, i: int) -> Seq<Seq<char>>
    decreases s.len() + 2 - i,
{
    if i < 0 || i > s.len() {
        Seq::empty()
    } else {
        let k = first_match(s, "\n\n"@, i);
        if k < 0 {
            seq![s.subrange(i, s.len() as int)]
        } else {
            proof {
                crate::text::lemma_first_match(s, "\n\n"@, i);
            }
            seq![s.subrange(i, k)] + paragraphs_from(s, k + 2)
        }
    }
}

/// The Typst source built so far and the paragraphs placed in it.
pub struct TypstDraft {
    pub text: Seq<char>,
    pub spans: Seq<ParaSpan>,
}

/// The draft after the paragraphs `ps` of section `si`, whose first starts at byte `off`
/// of the section: each non-blank paragraph is trimmed and written with a blank line after
/// it, and its span recorded; every paragraph advances the offset by its trimmed length
/// and two.
pub open spec fn place_paragraphs(ps: Seq<Seq<char>>, si: int, d: TypstDraft, off: int) -> TypstDraft
    decreases ps.len(),
{
    if ps.len() == 0 {
        d
    } else {
        let p = trim(ps[0]);
        if p.len() == 0 {
            place_paragraphs(ps.drop_first(), si, d, off + 2)
        } else {
            let text = d.text + p + "\n\n"@;
            let span = ParaSpan {
                section_idx: si as usize,
                content_start: off as usize,
                content_end: (off + utf8_len(p)) as usize,
                source_line_start: (breaks(d.text) + 1) as usize,
                source_line_end: (breaks(text) + 1) as usize,
            };
            place_paragraphs(ps.drop_first(), si, TypstDraft { text, spans: d.spans.push(span) }, off + utf8_len(p) + 2)
        }
    }
}

/// The draft after the sections from `k` on (empty sections skipped).
pub open spec fn place_sections(ss: Seq<ReportSection>, k: int, d: TypstDraft) -> TypstDraft
    decreases ss.len() - k,
{
    if k < 0 || k >= ss.len() {
        d
    } else if ss[k].content@.len() == 0 {
        place_sections(ss, k + 1, d)
    } else {
        place_sections(ss, k + 1, place_paragraphs(paragraphs_from(ss[k].content@, 0), k, d, 0))
    }
}

/// The opening of the Typst source: the template, then the title line.
pub open spec fn typst_head(preamble: Seq<char>, title: Seq<char>) -> Seq<char> {
    preamble + "\n#show: project.with(title: "@ + quoted(title) + ")\n\n"@
}

/// The closing of the Typst source when the report cites sources.
pub open spec fn bibliography_tail() -> Seq<char> {
    "= 参考文献\n\n#bibliography(\"works.bib\", title: none)\n"@
}

/// The Typst source of a report and its paragraph map.
pub open spec fn typst_source(report: ResearchReport, preamble: Seq<char>) -> TypstDraft {
    let d = place_sections(report.sections@, 0, TypstDraft { text: typst_head(preamble, report.title@), spans: Seq::empty() });
    if report.citation_graph.sources@.len() > 0 {
        TypstDraft { text: d.text + bibliography_tail(), spans: d.spans }
    } else {
        d
    }
}

/// The room the sections take in the source at most: each content and two more.
pub open spec fn sections_room(ss: Seq<ReportSection>, k: int) -> nat
    decreases ss.len() - k,
{
    if k < 0 || k >= ss.len() {
        0
    } else {
        ss[k].content@.len() + 2 + sections_room(ss, k + 1)
    }
}

/// The paragraphs of a section's content (see `paragraphs_from`), as character vectors,
/// with the position after each one's separator.
fn split_paragraphs(v: &Vec<char>) -> (r: Vec<Vec<char>>)
    ensures
        crate::fragments::vviews(r@) == paragraphs_from(v@, 0),
{
    let sep = crate::text::pattern("\n\n");
    proof {
        reveal_strlit("\n\n");
    }
    let mut out: Vec<Vec<char>> = Vec::new();
    let mut i: usize = 0;
    loop
        invariant
            i <= v@.len(),
            sep@ == "\n\n"@,
            sep@.len() == 2,
            paragraphs_from(v@, 0) == crate::fragments::vviews(out@) + paragraphs_from(v@, i as int),
        decreases v@.len() + 2 - i,
    {
        proof {
            crate::text::lemma_first_match(v@, sep@, i as int);
        }
        match crate::text::find_from(v, &sep, i) {
            Some(k) => {
                assert(crate::text::matches_at(v@, k as int, sep@));
                let n = v.len();
                assert(k + 2 <= n);
                let piece = crate::text::slice_chars(v, i, k);
                let ghost before = crate::fragments::vviews(out@);
                out.push(piece);
                proof {
                    assert(crate::fragments::vviews(out@) =~= before.push(v@.subrange(i as int, k as int)));
                    assert(paragraphs_from(v@, i as int) == seq![v@.subrange(i as int, k as int)] + paragraphs_from(v@, k + 2));
                    assert(crate::fragments::vviews(out@) + paragraphs_from(v@, k + 2) =~= before + paragraphs_from(v@, i as int));
                }
                i = k + 2;
            },
            None => {
                let piece = crate::text::slice_chars(v, i, v.len());
                let ghost before = crate::fragments::vviews(out@);
                out.push(piece);
                proof {
                    assert(crate::fragments::vviews(out@) =~= before.push(v@.subrange(i as int, v@.len() as int)));
                    assert(crate::fragments::vviews(out@) =~= before + paragraphs_from(v@, i as int));
                }
                return out;
            },
        }
    }
}


/// The room the paragraphs take: each piece and the two characters of its separator.
pub open spec fn pieces_room(ps: Seq<Seq<char>>) -> nat
    decreases ps.len(),
{
    if ps.len() == 0 {
        0
    } else {
        ps[0].len() + 2 + pieces_room(ps.drop_first())
    }
}

proof fn lemma_pieces_room(s: Seq<char>, i: int)
    requires
        0 <= i <= s.len(),
    ensures
        pieces_room(paragraphs_from(s, i)) == s.len() - i + 2,
    decreases s.len() + 2 - i,
{
    reveal_strlit("\n\n");
    crate::text::lemma_first_match(s, "\n\n"@, i);
    let k = first_match(s, "\n\n"@, i);
    let ps = paragraphs_from(s, i);
    if k < 0 {
        assert(ps =~= seq![s.subrange(i, s.len() as int)]);
        assert(ps.drop_first() =~= Seq::<Seq<char>>::empty());
        assert(pieces_room(ps.drop_first()) == 0);
    } else {
        lemma_pieces_room(s, k + 2);
        assert(ps =~= seq![s.subrange(i, k)] + paragraphs_from(s, k + 2));
        assert(ps.drop_first() =~= paragraphs_from(s, k + 2));
        assert(ps[0] =~= s.subrange(i, k));
    }
}

proof fn lemma_breaks_le(s: Seq<char>)
    ensures
        breaks(s) <= s.len(),
    decreases s.len(),
{
    if s.len() > 0 {
        lemma_breaks_le(s.drop_last());
    }
}

proof fn lemma_utf8_len_le(s: Seq<char>)
    ensures
        utf8_len(s) <= 4 * s.len(),
    decreases s.len(),
{
    if s.len() > 0 {
        lemma_utf8_len_le(s.drop_last());
    }
}

proof fn lemma_two_breaks()
    ensures
        breaks("\n\n"@) == 2,
{
    reveal_strlit("\n\n");
    let t = "\n\n"@;
    assert(t.drop_last().drop_last() =~= Seq::<char>::empty());
    reveal_with_fuel(breaks, 3);
}

/// The number of line breaks in `v`.
fn count_breaks(v: &Vec<char>) -> (r: usize)
    ensures
        r == breaks(v@),
{
    let mut n: usize = 0;
    let mut i: usize = 0;
    while i < v.len()
        invariant
            i <= v@.len(),
            n == breaks(v@.subrange(0, i as int)),
            n <= i,
        decreases v@.len() - i,
    {
        proof {
            assert(v@.subrange(0, i + 1).drop_last() =~= v@.subrange(0, i as int));
        }
        if v[i] == '\n' {
            n = n + 1;
        }
        i = i + 1;
    }
    assert(v@.subrange(0, v@.len() as int) =~= v@);
    n
}

/// Writes the paragraphs of section `si`, whose content is `content`, into the draft
/// (`typ`, `spans`); `line` is the draft's current line.
fn place_section(content: &Vec<char>, si: usize, typ: &mut String, spans: &mut Vec<ParaSpan>, line: &mut usize)
    requires
        *old(line) == breaks(old(typ)@) + 1,
        old(typ)@.len() + content@.len() + 4 <= usize::MAX,
        4 * content@.len() + 16 <= usize::MAX,
    ensures
        place_paragraphs(paragraphs_from(content@, 0), si as int, TypstDraft { text: old(typ)@, spans: old(spans)@ }, 0)
            == (TypstDraft { text: final(typ)@, spans: final(spans)@ }),
        *final(line) == breaks(final(typ)@) + 1,
        final(typ)@.len() <= old(typ)@.len() + content@.len() + 2,
{
    let ps = split_paragraphs(content);
    let ghost all = crate::fragments::vviews(ps@);
    let ghost d0 = TypstDraft { text: typ@, spans: spans@ };
    let ghost t0 = typ@.len();
    proof {
        lemma_pieces_room(content@, 0);
        assert(all.subrange(0, all.len() as int) =~= all);
    }
    let mut off: usize = 0;
    let mut j: usize = 0;
    while j < ps.len()
        invariant
            j <= ps@.len(),
            all == crate::fragments::vviews(ps@),
            all == paragraphs_from(content@, 0),
            pieces_room(all) == content@.len() + 2,
            place_paragraphs(all, si as int, d0, 0)
                == place_paragraphs(all.subrange(j as int, all.len() as int), si as int, TypstDraft { text: typ@, spans: spans@ }, off as int),
            *line == breaks(typ@) + 1,
            typ@.len() + pieces_room(all.subrange(j as int, all.len() as int)) <= t0 + content@.len() + 2,
            off + 4 * pieces_room(all.subrange(j as int, all.len() as int)) <= 4 * (content@.len() + 2),
            t0 + content@.len() + 4 <= usize::MAX,
            4 * content@.len() + 16 <= usize::MAX,
        decreases ps@.len() - j,
    {
        let ghost rest = all.subrange(j as int, all.len() as int);
        proof {
            assert(rest.drop_first() =~= all.subrange(j + 1, all.len() as int));
            assert(rest[0] == ps@[j as int]@);
        }
        let pv = &ps[j];
        let (a, b) = crate::text::trim_bounds(pv);
        proof {
            lemma_utf8_len_le(trim(pv@));
        }
        if a == b {
            off = off + 2;
        } else {
            let p = crate::text::string_from_range(pv, a, b);
            let pc = crate::text::slice_chars(pv, a, b);
            let blen = crate::words::byte_len(&pc);
            let nb = count_breaks(&pc);
            let ghost before = typ@;
            let start = *line;
            push_str(typ, p.as_str());
            push_str(typ, "\n\n");
            proof {
                lemma_breaks_concat(before, p@);
                lemma_breaks_concat(before + p@, "\n\n"@);
                lemma_two_breaks();
                reveal_strlit("\n\n");
                assert(typ@ =~= before + p@ + "\n\n"@);
            }
            proof {
                lemma_breaks_le(typ@);
            }
            *line = start + nb + 2;
            let end = *line;
            let span = ParaSpan {
                section_idx: si,
                content_start: off,
                content_end: off + blen as usize,
                source_line_start: start,
                source_line_end: end,
            };
            spans.push(span);
            off = off + blen as usize + 2;
        }
        j = j + 1;
    }
}

/// The Typst source of a report, after the template `preamble`, and the map from its
/// lines back to the report's paragraphs.
pub fn generate_typst_source(report: &ResearchReport, preamble: &str) -> (r: (String, SourceMap))
    requires
        typst_head(preamble@, report.title@).len() + sections_room(report.sections@, 0) + 4 <= usize::MAX,
        forall|k: int| 0 <= k < report.sections@.len() ==> 4 * #[trigger] report.sections@[k].content@.len() + 16 <= usize::MAX,
    ensures
        r.0@ == typst_source(*report, preamble@).text,
        r.1.spans@ == typst_source(*report, preamble@).spans,
{
    let mut typ = owned(preamble);
    push_str(&mut typ, "\n#show: project.with(title: ");
    let q = quote_string(report.title.as_str());
    push_str(&mut typ, q.as_str());
    push_str(&mut typ, ")\n\n");
    let ghost head = typst_head(preamble@, report.title@);
    assert(typ@ =~= head);
    let tv = crate::text::chars_of(typ.as_str());
    proof {
        lemma_breaks_le(tv@);
    }
    let mut line = count_breaks(&tv) + 1;
    let mut spans: Vec<ParaSpan> = Vec::new();
    let ghost ss = report.sections@;
    let ghost d0 = TypstDraft { text: head, spans: Seq::empty() };
    let mut k: usize = 0;
    while k < report.sections.len()
        invariant
            k <= ss.len(),
            ss == report.sections@,
            place_sections(ss, 0, d0) == place_sections(ss, k as int, TypstDraft { text: typ@, spans: spans@ }),
            line == breaks(typ@) + 1,
            typ@.len() + sections_room(ss, k as int) <= head.len() + sections_room(ss, 0),
            head.len() + sections_room(ss, 0) + 4 <= usize::MAX,
            forall|i: int| 0 <= i < ss.len() ==> 4 * #[trigger] ss[i].content@.len() + 16 <= usize::MAX,
        decreases ss.len() - k,
    {
        let section = &report.sections[k];
        let cv = crate::text::chars_of(section.content.as_str());
        assert(4 * ss[k as int].content@.len() + 16 <= usize::MAX);
        if cv.len() > 0 {
            place_section(&cv, k, &mut typ, &mut spans, &mut line);
        }
        k = k + 1;
    }
    if report.citation_graph.sources.len() > 0 {
        push_str(&mut typ, "= 参考文献\n\n#bibliography(\"works.bib\", title: none)\n");
    }
    (typ, SourceMap { spans })
}


/// The character of the standard Base64 alphabet for the six-bit value `v`.
pub open spec fn base64_digit(v: int) -> char {
    if v < 26 {
        (65 + v) as char
    } else if v < 52 {
        (97 + v - 26) as char
    } else if v < 62 {
        (48 + v - 52) as char
    } else if v == 62 {
        '+'
    } else {
        '/'
    }
}

/// The standard Base64 encoding (RFC 4648, with `=` padding) of a byte string: each group
/// of three bytes becomes four characters of six bits each; a last group of one or two
/// bytes is padded with `=` to four characters.
pub open spec fn base64_standard(bytes: Seq<u8>) -> Seq<char>
    decreases bytes.len(),
{
    if bytes.len() == 0 {
        Seq::empty()
    } else {
        let a = bytes[0] as int;
        let b = if bytes.len() > 1 { bytes[1] as int } else { 0 };
        let c = if bytes.len() > 2 { bytes[2] as int } else { 0 };
        let group = seq![
            base64_digit(a / 4),
            base64_digit((a % 4) * 16 + b / 16),
            if bytes.len() > 1 { base64_digit((b % 16) * 4 + c / 64) } else { '=' },
            if bytes.len() > 2 { base64_digit(c % 64) } else { '=' },
        ];
        if bytes.len() > 3 {
            group + base64_standard(bytes.subrange(3, bytes.len() as int))
        } else {
            group
        }
    }
}

/// `base64::engine::general_purpose::STANDARD.encode`: the Base64 text of `bytes` with the
/// standard alphabet and `=` padding (see `base64_standard`), four characters for each
/// started group of three bytes.
#[verifier::external_body]
fn base64_encode(bytes: &[u8]) -> (r: String)
    requires
        4 * ((bytes@.len() + 2) / 3) <= usize::MAX,
    ensures
        r@ == base64_standard(bytes@),
        r@.len() == 4 * ((bytes@.len() + 2) / 3),
{
    base64::engine::general_purpose::STANDARD.encode(bytes)
}

/// The template with the icon it shows embedded as a data URL.
pub open spec fn embedded_preamble(template: Seq<char>, icon: Seq<u8>) -> Seq<char> {
    crate::text::replaced(
        template,
        "image(\"icon.svg\""@,
        "image(\"data:image/svg+xml;base64,"@ + base64_standard(icon) + "\""@,
    )
}

/// The Typst preamble: the template, whose `image("icon.svg"` is replaced by the SVG
/// icon as a Base64 data URL.
pub fn typst_preamble(template: &str, icon: &[u8]) -> (r: String)
    requires
        4 * ((icon@.len() + 2) / 3) <= usize::MAX,
    ensures
        r@ == embedded_preamble(template@, icon@),
{
    let data = base64_encode(icon);
    let mut url = owned("image(\"data:image/svg+xml;base64,");
    push_str(&mut url, data.as_str());
    push_str(&mut url, "\"");
    proof {
        reveal_strlit("image(\"icon.svg\"");
    }
    crate::text::replace_all(template, "image(\"icon.svg\"", url.as_str())
}


/// The character index at or after `k` at which the first characters of `s` take exactly
/// `b` bytes in UTF-8, or -1 when byte `b` is not a character boundary of `s`.
pub open spec fn char_at_byte(s: Seq<char>, b: int, k: int) -> int
    decreases s.len() + 1 - k,
{
    if k < 0 || k > s.len() || utf8_len(s.subrange(0, k)) > b {
        -1
    } else if utf8_len(s.subrange(0, k)) == b {
        k
    } else {
        char_at_byte(s, b, k + 1)
    }
}

/// The character index that byte `b` of `s` starts, or -1 (see `char_at_byte`).
pub open spec fn char_index(s: Seq<char>, b: int) -> int {
    char_at_byte(s, b, 0)
}

/// The span that a compiler error points at: its index in the map, when the error has a
/// line, that line is mapped, and the span's section exists and is long enough to hold it.
pub open spec fn repair_span(line: usize, spans: Seq<ParaSpan>, sections: Seq<ReportSection>) -> int {
    if line == 0 {
        -1
    } else {
        let k = span_index(spans, line as nat, 0);
        if k < 0 || spans[k].section_idx >= sections.len()
            || spans[k].content_end > utf8_len(sections[spans[k].section_idx as int].content@) {
            -1
        } else {
            k
        }
    }
}

/// The span that an error points at can be cut out of its section: its ends are character
/// boundaries, in order (slicing the section's text panics otherwise).
pub open spec fn repair_sliceable(line: usize, spans: Seq<ParaSpan>, sections: Seq<ReportSection>) -> bool {
    let k = repair_span(line, spans, sections);
    k >= 0 ==> {
        let sp = spans[k];
        let c = sections[sp.section_idx as int].content@;
        &&& char_index(c, sp.content_start as int) >= 0
        &&& char_index(c, sp.content_end as int) >= 0
        &&& sp.content_start <= sp.content_end
    }
}

/// How many times the model is asked to repair a source that fails to compile.
pub const MAX_REPAIR_ROUNDS: usize = 5;

/// The compile-and-repair rounds of a PDF: how many compilations were begun, and whether
/// a repair failed, which ends the rounds.
pub struct RepairRounds {
    pub compiled: usize,
    pub stopped: bool,
}

impl RepairRounds {
    /// No compilation yet.
    pub fn new() -> (r: RepairRounds)
        ensures
            r.compiled == 0,
            !r.stopped,
    {
        RepairRounds { compiled: 0, stopped: false }
    }

    /// Whether the source is compiled (once more): not after a failed repair, and never
    /// more than `MAX_REPAIR_ROUNDS` times in all.
    pub fn next_compile(&mut self) -> (go: bool)
        ensures
            go == (!old(self).stopped && old(self).compiled < MAX_REPAIR_ROUNDS),
            final(self).compiled == (if go { old(self).compiled + 1 } else { old(self).compiled as int }),
            final(self).stopped == old(self).stopped,
            go ==> 1 <= final(self).compiled <= MAX_REPAIR_ROUNDS,
    {
        if self.stopped || self.compiled >= MAX_REPAIR_ROUNDS {
            false
        } else {
            self.compiled = self.compiled + 1;
            true
        }
    }

    /// Records the model's repair of a source that failed to compile: when it repaired
    /// nothing, the rounds are over.
    pub fn after_repair(&mut self, repaired: bool)
        ensures
            final(self).compiled == old(self).compiled,
            final(self).stopped == (old(self).stopped || !repaired),
    {
        if !repaired {
            self.stopped = true;
        }
    }
}

/// A paragraph to repair: its section, its character range there, and the request that
/// asks a language model to repair it.
pub struct Repair {
    pub section_idx: usize,
    pub start: usize,
    pub end: usize,
    pub prompt: Prompt,
}

/// The system prompt of a repair request.
pub open spec fn repair_system() -> Seq<char> {
    "你是一个 Typst 修复专家。以下段落编译报错，请修复语法问题。\n只输出修复后的段落原文，不要 ``` 围栏或多余文字。"@
}

/// The user's message of a repair request: the error, its line, and the paragraph.
pub open spec fn repair_user(message: Seq<char>, line: nat, para: Seq<char>) -> Seq<char> {
    "错误："@ + message + "（行 "@ + crate::words::decimal(line) + "）\n\n段落原文：\n"@ + para
}

/// The character index that byte `b` of `v` starts.
fn char_offset(v: &Vec<char>, b: usize) -> (r: Option<usize>)
    ensures
        match r {
            Some(i) => i as int == char_index(v@, b as int),
            None => char_index(v@, b as int) == -1,
        },
{
    let mut k: usize = 0;
    let mut n: u128 = 0;
    assert(v@.subrange(0, 0) =~= Seq::<char>::empty());
    loop
        invariant
            k <= v@.len(),
            n == utf8_len(v@.subrange(0, k as int)),
            n <= 4 * k,
            n <= b,
            char_index(v@, b as int) == char_at_byte(v@, b as int, k as int),
        decreases v@.len() + 1 - k,
    {
        if n == b as u128 {
            return Some(k);
        }
        if k == v.len() {
            assert(char_at_byte(v@, b as int, k + 1) == -1);
            return None;
        }
        proof {
            assert(v@.subrange(0, k + 1).drop_last() =~= v@.subrange(0, k as int));
        }
        let u = v[k] as u32;
        let w: u128 = if u < 0x80 {
            1
        } else if u < 0x800 {
            2
        } else if u < 0x10000 {
            3
        } else {
            4
        };
        assert(w == crate::fragments::utf8_width(v@[k as int]));
        n = n + w;
        k = k + 1;
        if n > b as u128 {
            assert(char_at_byte(v@, b as int, k as int) == -1);
            return None;
        }
    }
}

/// The repair request for a compiler error: `None` when the error has no line, its line
/// maps to no paragraph, the paragraph's section is gone or too short, or the paragraph
/// is empty.
pub fn plan_repair(err: &SourceError, map: &SourceMap, report: &ResearchReport) -> (r: Option<Repair>)
    requires
        repair_sliceable(err.line, map.spans@, report.sections@),
    ensures
        ({
            let k = repair_span(err.line, map.spans@, report.sections@);
            let sp = map.spans@[k];
            let c = report.sections@[sp.section_idx as int].content@;
            let a = char_index(c, sp.content_start as int);
            let b = char_index(c, sp.content_end as int);
            match r {
                None => k < 0 || a == b,
                Some(rp) => k >= 0 && a < b && rp.section_idx == sp.section_idx && rp.start == a && rp.end == b
                    && rp.prompt.system@ == repair_system()
                    && rp.prompt.user@ == repair_user(err.message@, err.line as nat, c.subrange(a, b)),
            }
        }),
{
    if err.line == 0 {
        return None;
    }
    let found = map.span_at_line(err.line);
    let sp = match found {
        Some(s) => *s,
        None => {
            return None;
        },
    };
    if sp.section_idx >= report.sections.len() {
        return None;
    }
    let cv = crate::text::chars_of(report.sections[sp.section_idx].content.as_str());
    let total = crate::words::byte_len(&cv);
    if sp.content_end as u128 > total {
        return None;
    }
    let a = match char_offset(&cv, sp.content_start) {
        Some(i) => i,
        None => {
            return None;
        },
    };
    let b = match char_offset(&cv, sp.content_end) {
        Some(i) => i,
        None => {
            return None;
        },
    };
    proof {
        lemma_char_index_order(cv@, sp.content_start as int, sp.content_end as int);
        lemma_char_at_byte_value(cv@, sp.content_end as int, 0);
    }
    if a >= b {
        return None;
    }
    let para = crate::text::string_from_range(&cv, a, b);
    let mut user = owned("错误：");
    push_str(&mut user, err.message.as_str());
    push_str(&mut user, "（行 ");
    let num = crate::words::decimal_text(err.line as u64);
    push_str(&mut user, num.as_str());
    push_str(&mut user, "）\n\n段落原文：\n");
    push_str(&mut user, para.as_str());
    let system = owned("你是一个 Typst 修复专家。以下段落编译报错，请修复语法问题。\n只输出修复后的段落原文，不要 ``` 围栏或多余文字。");
    Some(Repair { section_idx: sp.section_idx, start: a, end: b, prompt: Prompt { system, user } })
}

proof fn lemma_char_at_byte_value(s: Seq<char>, b: int, k: int)
    requires
        0 <= k,
    ensures
        char_at_byte(s, b, k) >= 0 ==> k <= char_at_byte(s, b, k) <= s.len()
            && utf8_len(s.subrange(0, char_at_byte(s, b, k))) == b,
    decreases s.len() + 1 - k,
{
    if k <= s.len() && utf8_len(s.subrange(0, k)) < b {
        lemma_char_at_byte_value(s, b, k + 1);
    }
}

proof fn lemma_prefix_bytes_grow(s: Seq<char>, i: int, j: int)
    requires
        0 <= i < j <= s.len(),
    ensures
        utf8_len(s.subrange(0, i)) < utf8_len(s.subrange(0, j)),
    decreases j - i,
{
    assert(s.subrange(0, j).drop_last() =~= s.subrange(0, j - 1));
    if i < j - 1 {
        lemma_prefix_bytes_grow(s, i, j - 1);
    }
}

proof fn lemma_char_index_order(s: Seq<char>, x: int, y: int)
    ensures
        char_index(s, x) >= 0 && char_index(s, y) >= 0 && x <= y ==> char_index(s, x) <= char_index(s, y),
        char_index(s, x) >= 0 && char_index(s, y) >= 0 && x == y ==> char_index(s, x) == char_index(s, y),
{
    lemma_char_at_byte_value(s, x, 0);
    lemma_char_at_byte_value(s, y, 0);
    let a = char_index(s, x);
    let b = char_index(s, y);
    if a >= 0 && b >= 0 && x <= y && a > b {
        lemma_prefix_bytes_grow(s, b, a);
    }
}

/// Puts a language model's repair of a paragraph into the report: when the reply, trimmed,
/// is empty or the paragraph itself (trimmed), nothing changes and the result is false;
/// otherwise the paragraph's characters are replaced by the trimmed reply.
pub fn apply_repair(report: &mut ResearchReport, repair: &Repair, reply: &str) -> (changed: bool)
    requires
        repair.section_idx < old(report).sections@.len(),
        repair.start <= repair.end <= old(report).sections@[repair.section_idx as int].content@.len(),
    ensures
        ({
            let c = old(report).sections@[repair.section_idx as int].content@;
            let para = c.subrange(repair.start as int, repair.end as int);
            let fixed = trim(reply@);
            let keep = fixed.len() == 0 || fixed == trim(para);
            &&& changed == !keep
            &&& final(report).sections@.len() == old(report).sections@.len()
            &&& forall|j: int| 0 <= j < old(report).sections@.len() && j != repair.section_idx
                ==> #[trigger] final(report).sections@[j] == old(report).sections@[j]
            &&& final(report).sections@[repair.section_idx as int].heading == old(report).sections@[repair.section_idx as int].heading
            &&& final(report).sections@[repair.section_idx as int].citations == old(report).sections@[repair.section_idx as int].citations
            &&& final(report).sections@[repair.section_idx as int].content@ == if keep {
                c
            } else {
                c.subrange(0, repair.start as int) + fixed + c.subrange(repair.end as int, c.len() as int)
            }
            &&& final(report).title == old(report).title
            &&& final(report).query_id == old(report).query_id
            &&& final(report).citation_graph == old(report).citation_graph
            &&& final(report).quality == old(report).quality
            &&& final(report).argument_skeleton == old(report).argument_skeleton
            &&& final(report).generated_at == old(report).generated_at
        }),
{
    let i = repair.section_idx;
    let cv = crate::text::chars_of(report.sections[i].content.as_str());
    let rv = crate::text::chars_of(reply);
    let (ra, rb) = crate::text::trim_bounds(&rv);
    let fixed = crate::text::slice_chars(&rv, ra, rb);
    let para = crate::text::slice_chars(&cv, repair.start, repair.end);
    let (pa, pb) = crate::text::trim_bounds(&para);
    let tp = crate::text::slice_chars(&para, pa, pb);
    if fixed.len() == 0 || crate::text::chars_eq(&fixed, &tp) {
        return false;
    }
    let mut content = crate::text::string_from_range(&cv, 0, repair.start);
    let fs = crate::text::string_from(&fixed);
    push_str(&mut content, fs.as_str());
    let tail = crate::text::string_from_range(&cv, repair.end, cv.len());
    push_str(&mut content, tail.as_str());
    let mut section = report.sections.remove(i);
    section.content = content;
    report.sections.insert(i, section);
    proof {
        assert(report.sections@.len() == old(report).sections@.len());
    }
    true
}


/// The paragraphs' lines come in order: each span has a line, and each ends before the
/// next begins.
pub open spec fn lines_ordered(spans: Seq<ParaSpan>) -> bool {
    &&& forall|k: int| 0 <= k < spans.len() ==> #[trigger] spans[k].source_line_start < spans[k].source_line_end
    &&& forall|j: int, k: int| 0 <= j < k < spans.len() ==> #[trigger] spans[j].source_line_end <= #[trigger] spans[k].source_line_start
}

/// Every span ends at or before line `last + 1`.
pub open spec fn lines_up_to(spans: Seq<ParaSpan>, last: nat) -> bool {
    forall|k: int| 0 <= k < spans.len() ==> #[trigger] spans[k].source_line_end <= last + 1
}

proof fn lemma_place_paragraphs_grows(ps: Seq<Seq<char>>, si: int, d: TypstDraft, off: int)
    ensures
        breaks(d.text) <= breaks(place_paragraphs(ps, si, d, off).text),
    decreases ps.len(),
{
    if ps.len() > 0 {
        let p = trim(ps[0]);
        if p.len() == 0 {
            lemma_place_paragraphs_grows(ps.drop_first(), si, d, off + 2);
        } else {
            let text = d.text + p + "\n\n"@;
            lemma_breaks_concat(d.text + p, "\n\n"@);
            lemma_breaks_concat(d.text, p);
            let span = ParaSpan {
                section_idx: si as usize,
                content_start: off as usize,
                content_end: (off + utf8_len(p)) as usize,
                source_line_start: (breaks(d.text) + 1) as usize,
                source_line_end: (breaks(text) + 1) as usize,
            };
            lemma_place_paragraphs_grows(ps.drop_first(), si, TypstDraft { text, spans: d.spans.push(span) }, off + utf8_len(p) + 2);
        }
    }
}

proof fn lemma_place_paragraphs_ordered(ps: Seq<Seq<char>>, si: int, d: TypstDraft, off: int)
    requires
        lines_ordered(d.spans),
        lines_up_to(d.spans, breaks(d.text)),
        breaks(place_paragraphs(ps, si, d, off).text) < usize::MAX,
    ensures
        lines_ordered(place_paragraphs(ps, si, d, off).spans),
        lines_up_to(place_paragraphs(ps, si, d, off).spans, breaks(place_paragraphs(ps, si, d, off).text)),
    decreases ps.len(),
{
    if ps.len() > 0 {
        let p = trim(ps[0]);
        if p.len() == 0 {
            lemma_place_paragraphs_ordered(ps.drop_first(), si, d, off + 2);
        } else {
            let text = d.text + p + "\n\n"@;
            lemma_breaks_concat(d.text + p, "\n\n"@);
            lemma_breaks_concat(d.text, p);
            lemma_two_breaks();
            let span = ParaSpan {
                section_idx: si as usize,
                content_start: off as usize,
                content_end: (off + utf8_len(p)) as usize,
                source_line_start: (breaks(d.text) + 1) as usize,
                source_line_end: (breaks(text) + 1) as usize,
            };
            let d2 = TypstDraft { text, spans: d.spans.push(span) };
            lemma_place_paragraphs_grows(ps.drop_first(), si, d2, off + utf8_len(p) + 2);
            assert(breaks(text) < usize::MAX);
            let sp = d2.spans;
            assert forall|k: int| 0 <= k < sp.len() implies #[trigger] sp[k].source_line_start < sp[k].source_line_end by {
                if k < d.spans.len() {
                    assert(sp[k] == d.spans[k]);
                }
            }
            assert forall|j: int, k: int| 0 <= j < k < sp.len() implies #[trigger] sp[j].source_line_end <= #[trigger] sp[k].source_line_start by {
                assert(sp[j] == d.spans[j]);
                if k < d.spans.len() {
                    assert(sp[k] == d.spans[k]);
                }
            }
            assert forall|k: int| 0 <= k < sp.len() implies #[trigger] sp[k].source_line_end <= breaks(text) + 1 by {
                if k < d.spans.len() {
                    assert(sp[k] == d.spans[k]);
                }
            }
            lemma_place_paragraphs_ordered(ps.drop_first(), si, d2, off + utf8_len(p) + 2);
        }
    }
}

proof fn lemma_place_sections_grows(ss: Seq<ReportSection>, k: int, d: TypstDraft)
    ensures
        breaks(d.text) <= breaks(place_sections(ss, k, d).text),
    decreases ss.len() - k,
{
    if 0 <= k < ss.len() {
        if ss[k].content@.len() == 0 {
            lemma_place_sections_grows(ss, k + 1, d);
        } else {
            let d2 = place_paragraphs(paragraphs_from(ss[k].content@, 0), k, d, 0);
            lemma_place_paragraphs_grows(paragraphs_from(ss[k].content@, 0), k, d, 0);
            lemma_place_sections_grows(ss, k + 1, d2);
        }
    }
}

proof fn lemma_place_sections_ordered(ss: Seq<ReportSection>, k: int, d: TypstDraft)
    requires
        lines_ordered(d.spans),
        lines_up_to(d.spans, breaks(d.text)),
        breaks(place_sections(ss, k, d).text) < usize::MAX,
    ensures
        lines_ordered(place_sections(ss, k, d).spans),
        lines_up_to(place_sections(ss, k, d).spans, breaks(place_sections(ss, k, d).text)),
    decreases ss.len() - k,
{
    if 0 <= k < ss.len() {
        if ss[k].content@.len() == 0 {
            lemma_place_sections_ordered(ss, k + 1, d);
        } else {
            let d2 = place_paragraphs(paragraphs_from(ss[k].content@, 0), k, d, 0);
            lemma_place_sections_grows(ss, k + 1, d2);
            lemma_place_paragraphs_ordered(paragraphs_from(ss[k].content@, 0), k, d, 0);
            lemma_place_sections_ordered(ss, k + 1, d2);
        }
    }
}

proof fn lemma_span_index_ordered(spans: Seq<ParaSpan>, k: int, j: int)
    requires
        lines_ordered(spans),
        0 <= j <= k < spans.len(),
    ensures
        span_index(spans, spans[k].source_line_start as nat, j) == k,
    decreases k - j,
{
    if j < k {
        assert(spans[j].source_line_end <= spans[k].source_line_start);
        lemma_span_index_ordered(spans, k, j + 1);
    }
}

/// The map of a generated Typst source leads each paragraph's first line back to that
/// paragraph: the paragraphs' lines come in order, so looking a paragraph's first line up
/// finds it and no other.
pub proof fn law_source_map_finds_paragraphs(report: ResearchReport, preamble: Seq<char>)
    requires
        breaks(typst_source(report, preamble).text) < usize::MAX,
    ensures
        lines_ordered(typst_source(report, preamble).spans),
        forall|k: int| 0 <= k < typst_source(report, preamble).spans.len()
            ==> span_index(typst_source(report, preamble).spans, #[trigger] typst_source(report, preamble).spans[k].source_line_start as nat, 0) == k,
{
    let d0 = TypstDraft { text: typst_head(preamble, report.title@), spans: Seq::empty() };
    let d = place_sections(report.sections@, 0, d0);
    let src = typst_source(report, preamble);
    if report.citation_graph.sources@.len() > 0 {
        lemma_breaks_concat(d.text, bibliography_tail());
    }
    lemma_place_sections_ordered(report.sections@, 0, d0);
    assert forall|k: int| 0 <= k < src.spans.len()
        implies span_index(src.spans, #[trigger] src.spans[k].source_line_start as nat, 0) == k by {
        lemma_span_index_ordered(src.spans, k, 0);
    }
}

/// Every placed paragraph has a section below `n` and a non-empty byte range.
pub open spec fn ranges_nonempty(spans: Seq<ParaSpan>, n: nat) -> bool {
    forall|k: int| 0 <= k < spans.len() ==> {
        &&& (#[trigger] spans[k]).content_start < spans[k].content_end
        &&& spans[k].section_idx < n
    }
}

proof fn lemma_utf8_len_ge(s: Seq<char>)
    ensures
        utf8_len(s) >= s.len(),
    decreases s.len(),
{
    if s.len() > 0 {
        lemma_utf8_len_ge(s.drop_last());
    }
}

proof fn lemma_trim_len(s: Seq<char>)
    ensures
        trim(s).len() <= s.len(),
{
    crate::text::lemma_skip_ws_bounds(s, 0);
    crate::text::lemma_skip_ws_back_bounds(s, s.len() as int, crate::text::skip_ws(s, 0));
}

proof fn lemma_place_paragraphs_ranges(ps: Seq<Seq<char>>, si: int, d: TypstDraft, off: int, n: nat, bound: int)
    requires
        ranges_nonempty(d.spans, n),
        0 <= si < n,
        0 <= off,
        off + 4 * pieces_room(ps) <= bound <= usize::MAX,
    ensures
        ranges_nonempty(place_paragraphs(ps, si, d, off).spans, n),
    decreases ps.len(),
{
    if ps.len() > 0 {
        let p = trim(ps[0]);
        lemma_trim_len(ps[0]);
        if p.len() == 0 {
            lemma_place_paragraphs_ranges(ps.drop_first(), si, d, off + 2, n, bound);
        } else {
            lemma_utf8_len_ge(p);
            lemma_utf8_len_le(p);
            let text = d.text + p + "\n\n"@;
            let span = ParaSpan {
                section_idx: si as usize,
                content_start: off as usize,
                content_end: (off + utf8_len(p)) as usize,
                source_line_start: (breaks(d.text) + 1) as usize,
                source_line_end: (breaks(text) + 1) as usize,
            };
            let d2 = TypstDraft { text, spans: d.spans.push(span) };
            assert forall|k: int| 0 <= k < d2.spans.len() implies {
                &&& (#[trigger] d2.spans[k]).content_start < d2.spans[k].content_end
                &&& d2.spans[k].section_idx < n
            } by {
                if k < d.spans.len() {
                    assert(d2.spans[k] == d.spans[k]);
                }
            }
            lemma_place_paragraphs_ranges(ps.drop_first(), si, d2, off + utf8_len(p) + 2, n, bound);
        }
    }
}

proof fn lemma_place_sections_ranges(ss: Seq<ReportSection>, k: int, d: TypstDraft)
    requires
        ranges_nonempty(d.spans, ss.len()),
        0 <= k,
        forall|i: int| 0 <= i < ss.len() ==> 4 * #[trigger] ss[i].content@.len() + 16 <= usize::MAX,
    ensures
        ranges_nonempty(place_sections(ss, k, d).spans, ss.len()),
    decreases ss.len() - k,
{
    if k < ss.len() {
        if ss[k].content@.len() == 0 {
            lemma_place_sections_ranges(ss, k + 1, d);
        } else {
            let c = ss[k].content@;
            lemma_pieces_room(c, 0);
            lemma_place_paragraphs_ranges(paragraphs_from(c, 0), k, d, 0, ss.len(), (4 * (c.len() + 2)) as int);
            lemma_place_sections_ranges(ss, k + 1, place_paragraphs(paragraphs_from(c, 0), k, d, 0));
        }
    }
}

proof fn lemma_place_paragraphs_ends(ps: Seq<Seq<char>>, si: int, d: TypstDraft, off: int)
    requires
        crate::words::ends_with(d.text, "\n\n"@),
    ensures
        crate::words::ends_with(place_paragraphs(ps, si, d, off).text, "\n\n"@),
    decreases ps.len(),
{
    if ps.len() > 0 {
        let p = trim(ps[0]);
        if p.len() == 0 {
            lemma_place_paragraphs_ends(ps.drop_first(), si, d, off + 2);
        } else {
            let text = d.text + p + "\n\n"@;
            reveal_strlit("\n\n");
            assert(text.subrange(text.len() - 2, text.len() as int) =~= "\n\n"@);
            let span = ParaSpan {
                section_idx: si as usize,
                content_start: off as usize,
                content_end: (off + utf8_len(p)) as usize,
                source_line_start: (breaks(d.text) + 1) as usize,
                source_line_end: (breaks(text) + 1) as usize,
            };
            lemma_place_paragraphs_ends(ps.drop_first(), si, TypstDraft { text, spans: d.spans.push(span) }, off + utf8_len(p) + 2);
        }
    }
}

proof fn lemma_place_sections_ends(ss: Seq<ReportSection>, k: int, d: TypstDraft)
    requires
        crate::words::ends_with(d.text, "\n\n"@),
    ensures
        crate::words::ends_with(place_sections(ss, k, d).text, "\n\n"@),
    decreases ss.len() - k,
{
    if 0 <= k < ss.len() {
        if ss[k].content@.len() == 0 {
            lemma_place_sections_ends(ss, k + 1, d);
        } else {
            lemma_place_paragraphs_ends(paragraphs_from(ss[k].content@, 0), k, d, 0);
            lemma_place_sections_ends(ss, k + 1, place_paragraphs(paragraphs_from(ss[k].content@, 0), k, d, 0));
        }
    }
}

/// Every paragraph in the map of a generated Typst source covers a non-empty byte range of
/// one of the report's sections and at least one source line, and the source ends with the
/// bibliography exactly when the report cites sources.
pub proof fn law_source_map_ranges(report: ResearchReport, preamble: Seq<char>)
    requires
        breaks(typst_source(report, preamble).text) < usize::MAX,
        forall|k: int| 0 <= k < report.sections@.len() ==> 4 * #[trigger] report.sections@[k].content@.len() + 16 <= usize::MAX,
    ensures
        ranges_nonempty(typst_source(report, preamble).spans, report.sections@.len()),
        forall|k: int| 0 <= k < typst_source(report, preamble).spans.len()
            ==> (#[trigger] typst_source(report, preamble).spans[k]).source_line_start < typst_source(report, preamble).spans[k].source_line_end,
        crate::words::ends_with(typst_source(report, preamble).text, bibliography_tail())
            <==> report.citation_graph.sources@.len() > 0,
{
    let head = typst_head(preamble, report.title@);
    let d0 = TypstDraft { text: head, spans: Seq::empty() };
    let d = place_sections(report.sections@, 0, d0);
    let src = typst_source(report, preamble);
    law_source_map_finds_paragraphs(report, preamble);
    lemma_place_sections_ranges(report.sections@, 0, d0);
    reveal_strlit(")\n\n");
    reveal_strlit("\n\n");
    assert(head.subrange(head.len() - 2, head.len() as int) =~= "\n\n"@);
    lemma_place_sections_ends(report.sections@, 0, d0);
    reveal_strlit("= 参考文献\n\n#bibliography(\"works.bib\", title: none)\n");
    let tail = bibliography_tail();
    if report.citation_graph.sources@.len() > 0 {
        assert(src.text.subrange(src.text.len() - tail.len(), src.text.len() as int) =~= tail);
    } else {
        if crate::words::ends_with(src.text, tail) {
            let t = src.text;
            assert(t.subrange(t.len() - tail.len(), t.len() as int)[tail.len() - 2] == tail[tail.len() - 2]);
            assert(t.subrange(t.len() - 2, t.len() as int)[0] == t[t.len() - 2]);
            assert(false);
        }
    }
}

} // verus!
