//! The state of the terminal interface: the plan review with its input line, the
//! progress of a research session, the PDF stage, and how events and keys move it on.
//!
//! Drawing the state is left to the caller; so are the channels: a key that submits
//! feedback on the plan hands the text back to be sent.
use vstd::prelude::*;
use crate::model::{ProgressUpdate, QualityTally, ResearchPlan, ResearchReport, SubTask};
use crate::text::{chars_of, contains_seq, first_match, last_match, string_from, trim};
use crate::words::{joined, owned, push_str, sviews};

verus! {

broadcast use vstd::string::group_string_axioms;

/// A line of text being edited, with a cursor between characters.
pub struct InputBuf {
    chars: Vec<char>,
    cursor: usize,
}

impl View for InputBuf {
    type V = (Seq<char>, nat);

    closed spec fn view(&self) -> (Seq<char>, nat) {
        (self.chars@, self.cursor as nat)
    }
}

impl InputBuf {
    #[verifier::type_invariant]
    spec fn cursor_in_text(self) -> bool {
        self.cursor <= self.chars@.len()
    }

    /// An empty line.
    pub fn new() -> (r: InputBuf)
        ensures
            r@ == (Seq::<char>::empty(), 0nat),
    {
        InputBuf { chars: Vec::new(), cursor: 0 }
    }

    /// Inserts `c` at the cursor and moves the cursor past it.
    pub fn push(&mut self, c: char)
        ensures
            final(self)@ == pushed(old(self)@, c),
    {
        proof {
            use_type_invariant(&*self);
        }
        let at = self.cursor;
        let mut cs = crate::fragments::copy_chars(&self.chars);
        cs.insert(at, c);
        let l = cs.len();
        assert(at < l);
        self.chars = cs;
        self.cursor = at + 1;
    }

    /// Deletes the character before the cursor, if any.
    pub fn pop(&mut self)
        ensures
            final(self)@ == popped(old(self)@),
    {
        proof {
            use_type_invariant(&*self);
        }
        if self.cursor > 0 {
            let at = self.cursor - 1;
            let mut cs = crate::fragments::copy_chars(&self.chars);
            cs.remove(at);
            self.cursor = at;
            self.chars = cs;
        }
    }

    /// Empties the line.
    pub fn clear(&mut self)
        ensures
            final(self)@ == (Seq::<char>::empty(), 0nat),
    {
        self.cursor = 0;
        self.chars = Vec::new();
    }

    /// The text of the line.
    pub fn value(&self) -> (r: String)
        ensures
            r@ == self@.0,
    {
        string_from(&self.chars)
    }

    /// Moves the cursor one character back, if it can.
    pub fn cursor_left(&mut self)
        ensures
            final(self)@.0 == old(self)@.0,
            final(self)@.1 == (if old(self)@.1 > 0 { (old(self)@.1 - 1) as nat } else { 0nat }),
    {
        proof {
            use_type_invariant(&*self);
        }
        if self.cursor > 0 {
            self.cursor = self.cursor - 1;
        }
    }

    /// Moves the cursor one character forward, if it can.
    pub fn cursor_right(&mut self)
        ensures
            final(self)@.0 == old(self)@.0,
            final(self)@.1 == (if old(self)@.1 < old(self)@.0.len() { old(self)@.1 + 1 } else { old(self)@.1 }),
    {
        proof {
            use_type_invariant(&*self);
        }
        if self.cursor < self.chars.len() {
            self.cursor = self.cursor + 1;
        }
    }

    /// Moves the cursor to the start of the line.
    pub fn cursor_home(&mut self)
        ensures
            final(self)@ == (old(self)@.0, 0nat),
    {
        self.cursor = 0;
    }

    /// Moves the cursor to the end of the line.
    pub fn cursor_end(&mut self)
        ensures
            final(self)@ == (old(self)@.0, old(self)@.0.len()),
    {
        self.cursor = self.chars.len();
    }

    /// The number of characters before the cursor.
    pub fn cursor_char_idx(&self) -> (r: usize)
        ensures
            r == self@.1,
    {
        self.cursor
    }
}

/// A line and its cursor after typing `c`.
pub open spec fn pushed(v: (Seq<char>, nat), c: char) -> (Seq<char>, nat) {
    (v.0.insert(v.1 as int, c), v.1 + 1)
}

/// A line and its cursor after deleting the character before the cursor, if any.
pub open spec fn popped(v: (Seq<char>, nat)) -> (Seq<char>, nat) {
    if v.1 == 0 {
        v
    } else {
        (v.0.remove(v.1 - 1), (v.1 - 1) as nat)
    }
}

/// Deleting right after typing a character gives the line and cursor back as they were.
pub proof fn law_pop_undoes_push(v: (Seq<char>, nat), c: char)
    requires
        v.1 <= v.0.len(),
    ensures
        popped(pushed(v, c)) == v,
{
    assert(v.0.insert(v.1 as int, c).remove(v.1 as int) =~= v.0);
}

/// Every edit keeps the cursor inside the line.
pub proof fn law_cursor_in_line(v: (Seq<char>, nat), c: char)
    requires
        v.1 <= v.0.len(),
    ensures
        pushed(v, c).1 <= pushed(v, c).0.len(),
        popped(v).1 <= popped(v).0.len(),
{
}

/// The progress of one task of a session.
pub struct TaskStat {
    pub phase: String,
    pub pages_total: usize,
    pub pages_ok: usize,
    pub pages_fail: usize,
    pub tokens_out: usize,
}

/// The plan review: the plan, the feedback line, whether feedback awaits a new plan, the
/// earlier versions of the plan (as task summaries) and how far they are scrolled.
pub struct PlanReview {
    pub plan: ResearchPlan,
    pub input: InputBuf,
    pub feedback_pending: bool,
    pub versions: Vec<String>,
    pub version_scroll: usize,
}

/// A research session being followed; `start_time` is the caller's clock reading when it
/// began.
pub struct Research {
    pub start_time: u64,
    pub iteration: usize,
    pub max_iterations: usize,
    pub quality: Option<QualityTally>,
    pub findings_count: usize,
    pub log_lines: Vec<String>,
    pub spinner_frame: usize,
    pub log_scroll: usize,
    pub tasks: Vec<String>,
    pub task_stats: Vec<TaskStat>,
    pub current_task: usize,
    pub pages_total: usize,
    pub pages_ok: usize,
    pub pages_fail: usize,
    pub tokens_in: usize,
    pub tokens_out: usize,
}

/// The PDF of a finished report being made.
pub struct PdfStage {
    pub report: ResearchReport,
    pub messages: Vec<String>,
    pub done: bool,
}

/// The stage the interface is in.
pub enum Phase {
    /// Waiting for the plan.
    Loading,
    PlanReview(PlanReview),
    Researching(Research),
    PdfGenerating(PdfStage),
    /// A session that failed, with its error.
    Error(String),
}

/// What the interface is told while it runs.
pub enum TuiEvent {
    PlanReady(ResearchPlan),
    Progress(ProgressUpdate),
    LogLine(String),
    TokenUsage(usize, usize),
    PdfMessage(String),
    PdfDone,
}

/// What the interface asks of the program.
#[derive(Clone, Copy, Debug, PartialEq, Eq, Structural)]
pub enum Msg {
    Quit,
}

/// The components of the interface.
#[derive(Clone, Copy, Debug, PartialEq, Eq, Hash, Structural)]
pub enum Id {
    App,
}

/// A key or mouse action, as the interface reads it.
#[derive(Clone, Copy, Debug, PartialEq, Eq, Structural)]
pub enum Input {
    /// A character typed without the control key alone held.
    Char(char),
    /// A character typed with the control key (and no other modifier).
    CtrlChar(char),
    Esc,
    Enter,
    Backspace,
    Left,
    Right,
    /// Home, with or without the control key.
    Home,
    /// End, with or without the control key.
    End,
    ScrollUp,
    ScrollDown,
    /// Any other key or mouse action.
    Other,
}

/// The interface's state.
pub struct App {
    pub phase: Phase,
    pub query_text: String,
    /// Whether feedback on the plan can still be sent.
    pub feedback_open: bool,
    pub needs_pdf: bool,
}

/// The plan's sub-task descriptions joined with `"  ◆  "`.
pub open spec fn tasks_line(ts: Seq<SubTask>) -> Seq<char> {
    joined(Seq::new(ts.len(), |i: int| ts[i].description@), "  ◆  "@)
}

/// The plan's sub-task descriptions joined with `"  ◆  "`.
pub fn tasks_summary(sub_tasks: &Vec<SubTask>) -> (r: String)
    ensures
        r@ == tasks_line(sub_tasks@),
{
    let ds = task_descriptions(sub_tasks);
    assert(sviews(ds@) =~= Seq::new(sub_tasks@.len(), |i: int| sub_tasks@[i].description@));
    crate::words::join(&ds, "  ◆  ")
}

/// The descriptions of the sub-tasks, in order.
pub fn task_descriptions(sub_tasks: &Vec<SubTask>) -> (r: Vec<String>)
    ensures
        r@.len() == sub_tasks@.len(),
        forall|i: int| 0 <= i < r@.len() ==> (#[trigger] r@[i]) == sub_tasks@[i].description,
{
    let mut r: Vec<String> = Vec::new();
    let mut i: usize = 0;
    while i < sub_tasks.len()
        invariant
            i <= sub_tasks@.len(),
            r@.len() == i,
            forall|k: int| 0 <= k < i ==> (#[trigger] r@[k]) == sub_tasks@[k].description,
        decreases sub_tasks@.len() - i,
    {
        r.push(sub_tasks[i].description.clone());
        i = i + 1;
    }
    r
}

/// A log line without the timestamp and level that the logger puts before it: when the
/// line holds `"Z  "`, what follows the first space after it, trimmed; else the line.
pub open spec fn log_message(s: Seq<char>) -> Seq<char> {
    let z = first_match(s, "Z  "@, 0);
    if z >= 0 {
        let rest = s.subrange(z + 3, s.len() as int);
        let sp = first_match(rest, " "@, 0);
        if sp >= 0 {
            trim(rest.subrange(sp + 1, rest.len() as int))
        } else {
            s
        }
    } else {
        s
    }
}

/// Strips the logger's timestamp and level from a line (see `log_message`).
pub fn strip_log_prefix(s: &str) -> (r: String)
    ensures
        r@ == log_message(s@),
{
    let v = chars_of(s);
    let z = crate::text::pattern("Z  ");
    proof {
        reveal_strlit("Z  ");
        reveal_strlit(" ");
    }
    match crate::text::find_from(&v, &z, 0) {
        Some(at) => {
            proof {
                crate::text::lemma_first_match(v@, z@, 0);
                assert(z@.len() == 3);
                assert(crate::text::matches_at(v@, at as int, z@));
            }
            let n = v.len();
            assert(at + 3 <= n);
            let rest = crate::text::slice_chars(&v, at + 3, n);
            let sp = crate::text::pattern(" ");
            match crate::text::find_from(&rest, &sp, 0) {
                Some(e) => {
                    proof {
                        crate::text::lemma_first_match(rest@, sp@, 0);
                    }
                    let tail = crate::text::slice_chars(&rest, e + 1, rest.len());
                    let (a, b) = crate::text::trim_bounds(&tail);
                    crate::text::string_from_range(&tail, a, b)
                },
                None => owned(s),
            }
        },
        None => owned(s),
    }
}

/// Whether every character of `s` is an ASCII digit.
pub open spec fn all_digits(s: Seq<char>) -> bool {
    forall|i: int| 0 <= i < s.len() ==> '0' <= #[trigger] s[i] <= '9'
}

/// The number that the ASCII digits `s` write in decimal.
pub open spec fn digits_value(s: Seq<char>) -> int
    decreases s.len(),
{
    if s.len() == 0 {
        0
    } else {
        digits_value(s.drop_last()) * 10 + (s.last() as int - 48)
    }
}

/// What `str::parse::<usize>` makes of `s`: an optional `+`, then one or more ASCII digits
/// whose value fits in a `usize`.
pub open spec fn parsed_usize(s: Seq<char>) -> Option<usize> {
    let d = if s.len() > 0 && s[0] == '+' { s.drop_first() } else { s };
    if d.len() > 0 && all_digits(d) && digits_value(d) <= usize::MAX {
        Some(digits_value(d) as usize)
    } else {
        None
    }
}

proof fn lemma_digits_value_nonneg(s: Seq<char>)
    requires
        all_digits(s),
    ensures
        digits_value(s) >= 0,
    decreases s.len(),
{
    if s.len() > 0 {
        assert(all_digits(s.drop_last())) by {
            assert forall|i: int| 0 <= i < s.drop_last().len() implies '0' <= #[trigger] s.drop_last()[i] <= '9' by {
                assert(s.drop_last()[i] == s[i]);
            }
        }
        lemma_digits_value_nonneg(s.drop_last());
        assert('0' <= s[s.len() - 1] <= '9');
    }
}

/// Parses a `usize` written in decimal (see `parsed_usize`).
pub fn parse_usize(s: &Vec<char>) -> (r: Option<usize>)
    ensures
        r == parsed_usize(s@),
{
    let start: usize = if s.len() > 0 && s[0] == '+' { 1 } else { 0 };
    let ghost d = if s@.len() > 0 && s@[0] == '+' { s@.drop_first() } else { s@ };
    assert(d =~= s@.subrange(start as int, s@.len() as int));
    if start >= s.len() {
        return None;
    }
    let mut acc: u128 = 0;
    let mut i: usize = start;
    while i < s.len()
        invariant
            start <= i <= s@.len(),
            d == s@.subrange(start as int, s@.len() as int),
            d == (if s@.len() > 0 && s@[0] == '+' { s@.drop_first() } else { s@ }),
            all_digits(s@.subrange(start as int, i as int)),
            acc == digits_value(s@.subrange(start as int, i as int)),
            acc <= usize::MAX,
        decreases s@.len() - i,
    {
        let c = s[i];
        proof {
            assert(s@.subrange(start as int, i + 1).drop_last() =~= s@.subrange(start as int, i as int));
        }
        if !('0' <= c && c <= '9') {
            proof {
                assert(d[i - start] == c);
                assert(!('0' <= d[i - start] <= '9'));
                assert(!all_digits(d));
            }
            return None;
        }
        let digit = (c as u32 - 48) as u128;
        let next = acc * 10 + digit;
        proof {
            assert(all_digits(s@.subrange(start as int, i + 1))) by {
                assert forall|k: int| 0 <= k < s@.subrange(start as int, i + 1).len() implies '0' <= #[trigger] s@.subrange(start as int, i + 1)[k] <= '9' by {
                    if k < i - start {
                        assert(s@.subrange(start as int, i + 1)[k] == s@.subrange(start as int, i as int)[k]);
                    }
                }
            }
        }
        if next > usize::MAX as u128 {
            proof {
                let t = s@.subrange(start as int, i + 1);
                assert(t.drop_last() =~= s@.subrange(start as int, i as int));
                assert(t.last() == c);
                assert(digits_value(t) == acc * 10 + (c as int - 48));
                assert(digits_value(t) > usize::MAX);
                assert(d.subrange(0, (i + 1 - start) as int) =~= t);
                // every further digit keeps the value at least as large
                lemma_digits_value_grows(d, (i + 1 - start) as int);
            }
            return None;
        }
        acc = next;
        i = i + 1;
    }
    assert(s@.subrange(start as int, s@.len() as int) == d);
    Some(acc as usize)
}

/// Reading more digits never makes the value smaller.
proof fn lemma_digits_value_grows(d: Seq<char>, k: int)
    requires
        0 <= k <= d.len(),
        all_digits(d.subrange(0, k)),
    ensures
        all_digits(d) ==> digits_value(d) >= digits_value(d.subrange(0, k)),
    decreases d.len() - k,
{
    if k < d.len() && all_digits(d) {
        let t = d.subrange(0, k + 1);
        assert(t.drop_last() =~= d.subrange(0, k));
        assert(all_digits(d.subrange(0, k + 1))) by {
            assert forall|i: int| 0 <= i < t.len() implies '0' <= #[trigger] t[i] <= '9' by {
                assert(t[i] == d[i]);
            }
        }
        lemma_digits_value_nonneg(d.subrange(0, k));
        lemma_digits_value_grows(d, k + 1);
    }
    if k == d.len() {
        assert(d.subrange(0, k) =~= d);
    }
}

/// A task's progress before any work on it: phase `"待处理"`, all counts zero.
pub open spec fn idle_stat(s: TaskStat) -> bool {
    &&& s.phase@ == "待处理"@
    &&& s.pages_total == 0
    &&& s.pages_ok == 0
    &&& s.pages_fail == 0
    &&& s.tokens_out == 0
}

/// A session just begun on `tasks` at `now`: nothing counted yet, four iterations expected.
pub open spec fn fresh_research(r: Research, tasks: Seq<String>, now: u64) -> bool {
    &&& r.start_time == now
    &&& r.iteration == 0
    &&& r.max_iterations == 4
    &&& r.quality is None
    &&& r.findings_count == 0
    &&& r.log_lines@.len() == 0
    &&& r.spinner_frame == 0
    &&& r.log_scroll == 0
    &&& r.tasks@ == tasks
    &&& r.task_stats@.len() == tasks.len()
    &&& forall|i: int| 0 <= i < tasks.len() ==> idle_stat(#[trigger] r.task_stats@[i])
    &&& r.current_task == 0
    &&& r.pages_total == 0
    &&& r.pages_ok == 0
    &&& r.pages_fail == 0
    &&& r.tokens_in == 0
    &&& r.tokens_out == 0
}

/// The state of a new interface, waiting for the plan.
pub open spec fn quit_answer(p: Phase) -> Option<Msg> {
    match p {
        Phase::PdfGenerating(s) => if s.done {
            Some(Msg::Quit)
        } else {
            None
        },
        _ => Some(Msg::Quit),
    }
}

/// The index of the first of `ts` equal to `t`, or -1.
pub open spec fn position_of(ts: Seq<String>, t: Seq<char>) -> int
    decreases ts.len(),
{
    if ts.len() == 0 {
        -1
    } else {
        let k = position_of(ts.drop_last(), t);
        if k >= 0 {
            k
        } else if ts.last()@ == t {
            ts.len() - 1
        } else {
            -1
        }
    }
}

proof fn lemma_position_of(ts: Seq<String>, t: Seq<char>)
    ensures
        -1 <= position_of(ts, t) < ts.len(),
        position_of(ts, t) >= 0 ==> ts[position_of(ts, t)]@ == t,
        position_of(ts, t) == -1 ==> forall|i: int| 0 <= i < ts.len() ==> (#[trigger] ts[i])@ != t,
    decreases ts.len(),
{
    if ts.len() > 0 {
        lemma_position_of(ts.drop_last(), t);
        assert forall|i: int| 0 <= i < ts.len() - 1 implies ts.drop_last()[i] == ts[i] by {}
    }
}

/// The first index of `tasks` whose text is `t`.
fn find_task(tasks: &Vec<String>, t: &str) -> (r: Option<usize>)
    ensures
        match r {
            Some(i) => i as int == position_of(tasks@, t@),
            None => position_of(tasks@, t@) == -1,
        },
{
    let mut i: usize = 0;
    while i < tasks.len()
        invariant
            i <= tasks@.len(),
            position_of(tasks@.subrange(0, i as int), t@) == -1,
        decreases tasks@.len() - i,
    {
        proof {
            assert(tasks@.subrange(0, i + 1).drop_last() =~= tasks@.subrange(0, i as int));
        }
        if crate::text::str_eq(tasks[i].as_str(), t) {
            proof {
                lemma_position_tail(tasks@, t@, i as int);
            }
            return Some(i);
        }
        i = i + 1;
    }
    assert(tasks@.subrange(0, tasks@.len() as int) =~= tasks@);
    None
}

proof fn lemma_position_tail(ts: Seq<String>, t: Seq<char>, i: int)
    requires
        0 <= i < ts.len(),
        position_of(ts.subrange(0, i), t) == -1,
        ts[i]@ == t,
    ensures
        position_of(ts, t) == i,
    decreases ts.len(),
{
    if ts.len() - 1 > i {
        assert(ts.drop_last().subrange(0, i) =~= ts.subrange(0, i));
        lemma_position_tail(ts.drop_last(), t, i);
    } else {
        assert(ts.drop_last() =~= ts.subrange(0, i));
    }
}

/// The first text after the last `=` (all of `s` when it has none).
pub open spec fn after_last_eq(s: Seq<char>) -> Seq<char> {
    let k = last_match(s, "="@, s.len() - 1);
    if k >= 0 {
        s.subrange(k + 1, s.len() as int)
    } else {
        s
    }
}

/// The page count that a log message announces: the number after its last `=`, when it
/// holds `"提取器选定URL 总数="`.
pub open spec fn announced_pages(msg: Seq<char>) -> Option<usize> {
    if contains_seq(msg, "提取器选定URL 总数="@) {
        parsed_usize(trim(after_last_eq(msg)))
    } else {
        None
    }
}

/// Whether a log message reports a page extracted.
pub open spec fn reports_success(msg: Seq<char>) -> bool {
    !contains_seq(msg, "提取器选定URL 总数="@) && contains_seq(msg, "✓ 提取成功"@)
}

/// Whether a log message reports a page that failed.
pub open spec fn reports_failure(msg: Seq<char>) -> bool {
    !contains_seq(msg, "提取器选定URL 总数="@) && !contains_seq(msg, "✓ 提取成功"@) && contains_seq(msg, "✗ 提取失败"@)
}

/// The size of a model reply that a log message reports: the number between
/// `"RESPONSE("` and the next `" chars"`.
pub open spec fn reported_tokens(msg: Seq<char>) -> Option<usize> {
    let a = first_match(msg, "RESPONSE("@, 0);
    if a >= 0 {
        let rest = msg.subrange(a + 9, msg.len() as int);
        let e = first_match(rest, " chars"@, 0);
        if e >= 0 {
            parsed_usize(rest.subrange(0, e))
        } else {
            None
        }
    } else {
        None
    }
}

/// `x + 1`, wrapping at the top of `usize`.
pub open spec fn bump(x: usize) -> usize {
    if x < usize::MAX { (x + 1) as usize } else { 0 }
}

/// `x + y`, wrapping at the top of `usize`.
pub open spec fn plus(x: usize, y: usize) -> usize {
    if x + y <= usize::MAX { (x + y) as usize } else { (x + y - usize::MAX - 1) as usize }
}

/// A task's progress after a log message.
pub open spec fn stat_after_log(s: TaskStat, msg: Seq<char>) -> TaskStat {
    TaskStat {
        phase: s.phase,
        pages_total: match announced_pages(msg) { Some(n) => n, None => s.pages_total },
        pages_ok: if reports_success(msg) { bump(s.pages_ok) } else { s.pages_ok },
        pages_fail: if reports_failure(msg) { bump(s.pages_fail) } else { s.pages_fail },
        tokens_out: match reported_tokens(msg) { Some(n) => plus(s.tokens_out, n), None => s.tokens_out },
    }
}

/// The log lines kept: the last 50.
pub open spec fn kept_log(lines: Seq<Seq<char>>) -> Seq<Seq<char>> {
    if lines.len() > 50 {
        lines.drop_first()
    } else {
        lines
    }
}

/// The log shown during a session holds at most the fifty most recent lines: a log of at
/// most fifty lines stays so after a line is added, and keeps that line last.
pub proof fn law_log_keeps_fifty(lines: Seq<Seq<char>>, line: Seq<char>)
    requires
        lines.len() <= 50,
    ensures
        kept_log(lines.push(line)).len() <= 50,
        kept_log(lines.push(line)).last() == line,
        kept_log(lines.push(line)).len() == lines.len() + 1 || kept_log(lines.push(line)) == lines.drop_first().push(line),
{
    if lines.len() == 50 {
        assert(lines.push(line).drop_first() =~= lines.drop_first().push(line));
    }
}

/// How a session's counters and log take a log message.
pub open spec fn research_after_log(old: Research, new: Research, msg: Seq<char>) -> bool {
    &&& new.start_time == old.start_time
    &&& new.iteration == old.iteration
    &&& new.max_iterations == old.max_iterations
    &&& new.quality == old.quality
    &&& new.findings_count == old.findings_count
    &&& new.spinner_frame == old.spinner_frame
    &&& new.log_scroll == old.log_scroll
    &&& new.tasks == old.tasks
    &&& new.current_task == old.current_task
    &&& new.tokens_in == old.tokens_in
    &&& new.pages_total == (match announced_pages(msg) { Some(n) => n, None => old.pages_total })
    &&& new.pages_ok == (if reports_success(msg) { bump(old.pages_ok) } else { old.pages_ok })
    &&& new.pages_fail == (if reports_failure(msg) { bump(old.pages_fail) } else { old.pages_fail })
    &&& new.tokens_out == (match reported_tokens(msg) { Some(n) => plus(old.tokens_out, n), None => old.tokens_out })
    &&& new.task_stats@ == (if old.current_task < old.task_stats@.len() {
        old.task_stats@.update(old.current_task as int, stat_after_log(old.task_stats@[old.current_task as int], msg))
    } else {
        old.task_stats@
    })
    &&& sviews(new.log_lines@) == kept_log(sviews(old.log_lines@).push(msg))
}

/// The state `after` that a progress update `update` at time `now` leaves of `before`.
pub open spec fn after_progress(before: App, after: App, update: ProgressUpdate, now: u64) -> bool {
    &&& after.query_text == before.query_text
    &&& after.feedback_open == before.feedback_open
    &&& !(update is Report) ==> after.needs_pdf == before.needs_pdf
    &&& match update {
        ProgressUpdate::Started { max_iterations: mi, tasks } => match before.phase {
            Phase::Researching(r) => after.phase == Phase::Researching(Research { max_iterations: mi, ..r }),
            _ => after.phase matches Phase::Researching(r)
                && fresh_research(Research { max_iterations: 4, ..r }, tasks@, now) && r.max_iterations == mi,
        },
        ProgressUpdate::Phase { .. } => match before.phase {
            Phase::Researching(r) => after.phase == Phase::Researching(Research {
                current_task: if r.current_task < r.tasks@.len() { (r.current_task + 1) as usize } else { r.current_task },
                ..r
            }),
            _ => after.phase == before.phase,
        },
        ProgressUpdate::Iteration { iteration: it, max_iterations: mi, quality: q, findings_count: fc, .. } => match before.phase {
            Phase::Researching(r) => after.phase == Phase::Researching(Research {
                iteration: it,
                max_iterations: mi,
                quality: q,
                findings_count: fc,
                ..r
            }),
            _ => after.phase == before.phase,
        },
        ProgressUpdate::Report(report) => {
            &&& after.needs_pdf
            &&& after.phase matches Phase::PdfGenerating(s) && s.report == report && !s.done
                && s.messages@.len() == 1 && s.messages@[0]@ == "研究完成，正在生成 PDF..."@
        },
        ProgressUpdate::TaskPhase { task_desc, phase } => match before.phase {
            Phase::Researching(r) => {
                let k = position_of(r.tasks@, task_desc@);
                after.phase matches Phase::Researching(r2)
                    && r2 == (Research { task_stats: r2.task_stats, ..r })
                    && r2.task_stats@ == (if 0 <= k < r.task_stats@.len() {
                        r.task_stats@.update(k, TaskStat { phase: phase, ..r.task_stats@[k] })
                    } else {
                        r.task_stats@
                    })
            },
            _ => after.phase == before.phase,
        },
        ProgressUpdate::Error(e) => after.phase == Phase::Error(e),
    }
}

/// A finished report starts the PDF stage: the report is kept, the PDF is asked for, and
/// a quit key is refused until the PDF is done.
pub proof fn law_report_starts_pdf(before: App, after: App, report: ResearchReport, now: u64)
    requires
        after_progress(before, after, ProgressUpdate::Report(report), now),
    ensures
        after.needs_pdf,
        after.phase matches Phase::PdfGenerating(s) && s.report == report && !s.done,
        quit_answer(after.phase) is None,
{
}

/// The state `after` that the log line `line` leaves of `before`.
pub open spec fn after_log(before: App, after: App, line: Seq<char>) -> bool {
    &&& after.query_text == before.query_text
    &&& after.feedback_open == before.feedback_open
    &&& after.needs_pdf == before.needs_pdf
    &&& ({
        let msg = trim(log_message(line));
        match before.phase {
            Phase::Researching(r) => if msg.len() == 0 {
                after.phase == before.phase
            } else {
                after.phase matches Phase::Researching(r2) && research_after_log(r, r2, msg)
            },
            _ => after.phase == before.phase,
        }
    })
}

impl App {
    /// A new interface for a query, waiting for the plan; `feedback_open` says whether
    /// feedback on the plan can be sent.
    pub fn new(query_text: String, feedback_open: bool) -> (r: App)
        ensures
            r.phase is Loading,
            r.query_text == query_text,
            r.feedback_open == feedback_open,
            !r.needs_pdf,
    {
        App { phase: Phase::Loading, query_text, feedback_open, needs_pdf: false }
    }

    /// Whether a PDF was asked for since the last call; the request is cleared.
    pub fn take_pdf_request(&mut self) -> (r: bool)
        ensures
            r == old(self).needs_pdf,
            !final(self).needs_pdf,
            final(self).phase == old(self).phase,
            final(self).query_text == old(self).query_text,
            final(self).feedback_open == old(self).feedback_open,
    {
        let r = self.needs_pdf;
        self.needs_pdf = false;
        r
    }

    /// The finished report, while its PDF is being made.
    pub fn report(&self) -> (r: Option<&ResearchReport>)
        ensures
            match self.phase {
                Phase::PdfGenerating(s) => r == Some(&s.report),
                _ => r is None,
            },
    {
        match &self.phase {
            Phase::PdfGenerating(s) => Some(&s.report),
            _ => None,
        }
    }

    /// What a quit key does: quits, except while the PDF is still being made.
    pub fn handle_quit(&self) -> (r: Option<Msg>)
        ensures
            r == quit_answer(self.phase),
    {
        match &self.phase {
            Phase::PdfGenerating(s) => if s.done {
                Some(Msg::Quit)
            } else {
                None
            },
            _ => Some(Msg::Quit),
        }
    }

    /// Begins following a session on `tasks` at `now`.
    pub fn start_researching(&mut self, tasks: Vec<String>, now: u64)
        ensures
            final(self).phase matches Phase::Researching(r) && fresh_research(r, tasks@, now),
            final(self).query_text == old(self).query_text,
            final(self).feedback_open == old(self).feedback_open,
            final(self).needs_pdf == old(self).needs_pdf,
    {
        let mut stats: Vec<TaskStat> = Vec::new();
        let mut i: usize = 0;
        while i < tasks.len()
            invariant
                i <= tasks@.len(),
                stats@.len() == i,
                forall|k: int| 0 <= k < i ==> idle_stat(#[trigger] stats@[k]),
            decreases tasks@.len() - i,
        {
            stats.push(TaskStat { phase: owned("待处理"), pages_total: 0, pages_ok: 0, pages_fail: 0, tokens_out: 0 });
            i = i + 1;
        }
        self.phase = Phase::Researching(Research {
            start_time: now,
            iteration: 0,
            max_iterations: 4,
            quality: None,
            findings_count: 0,
            log_lines: Vec::new(),
            spinner_frame: 0,
            log_scroll: 0,
            tasks,
            task_stats: stats,
            current_task: 0,
            pages_total: 0,
            pages_ok: 0,
            pages_fail: 0,
            tokens_in: 0,
            tokens_out: 0,
        });
    }

    /// Starts the session on the plan's sub-tasks; feedback can no longer be sent.
    pub fn fire_research(&mut self, plan: &ResearchPlan, now: u64)
        ensures
            final(self).phase matches Phase::Researching(r) && r.tasks@.len() == plan.sub_tasks@.len()
                && fresh_research(r, r.tasks@, now)
                && forall|i: int| 0 <= i < r.tasks@.len() ==> (#[trigger] r.tasks@[i]) == plan.sub_tasks@[i].description,
            !final(self).feedback_open,
            final(self).query_text == old(self).query_text,
            final(self).needs_pdf == old(self).needs_pdf,
    {
        let tasks = task_descriptions(&plan.sub_tasks);
        self.feedback_open = false;
        self.start_researching(tasks, now);
    }

    /// Advances the spinner while a session runs and returns its frame (of eight).
    pub fn advance_spinner(&mut self) -> (r: Option<usize>)
        ensures
            match old(self).phase {
                Phase::Researching(r0) => {
                    &&& r == Some(((r0.spinner_frame as int + 1) % 8) as usize)
                    &&& final(self).phase == Phase::Researching(Research { spinner_frame: ((r0.spinner_frame as int + 1) % 8) as usize, ..r0 })
                },
                _ => r is None && final(self).phase == old(self).phase,
            },
            final(self).query_text == old(self).query_text,
            final(self).feedback_open == old(self).feedback_open,
            final(self).needs_pdf == old(self).needs_pdf,
    {
        match &mut self.phase {
            Phase::Researching(r) => {
                let f = if r.spinner_frame < 7 { r.spinner_frame + 1 } else { (r.spinner_frame % 8 + 1) % 8 };
                assert(f == (r.spinner_frame as int + 1) % 8);
                r.spinner_frame = f;
                Some(f)
            },
            _ => None,
        }
    }

    /// Takes a progress update of the session (see `after_progress`).
    pub fn handle_progress(&mut self, update: ProgressUpdate, now: u64)
        ensures
            after_progress(*old(self), *final(self), update, now),
    {
        match update {
            ProgressUpdate::Started { max_iterations: mi, tasks } => {
                let researching = match &self.phase {
                    Phase::Researching(_) => true,
                    _ => false,
                };
                if !researching {
                    self.start_researching(tasks, now);
                }
                match &mut self.phase {
                    Phase::Researching(r) => {
                        r.max_iterations = mi;
                    },
                    _ => {},
                }
            },
            ProgressUpdate::Phase { .. } => {
                match &mut self.phase {
                    Phase::Researching(r) => {
                        if r.current_task < r.tasks.len() {
                            r.current_task = r.current_task + 1;
                        }
                    },
                    _ => {},
                }
            },
            ProgressUpdate::Iteration { iteration: it, max_iterations: mi, quality: q, findings_count: fc, .. } => {
                match &mut self.phase {
                    Phase::Researching(r) => {
                        r.iteration = it;
                        r.max_iterations = mi;
                        r.quality = q;
                        r.findings_count = fc;
                    },
                    _ => {},
                }
            },
            ProgressUpdate::Report(report) => {
                self.needs_pdf = true;
                let mut messages: Vec<String> = Vec::new();
                messages.push(owned("研究完成，正在生成 PDF..."));
                self.phase = Phase::PdfGenerating(PdfStage { report, messages, done: false });
            },
            ProgressUpdate::TaskPhase { task_desc, phase } => {
                match &mut self.phase {
                    Phase::Researching(r) => {
                        let found = find_task(&r.tasks, task_desc.as_str());
                        proof {
                            lemma_position_of(r.tasks@, task_desc@);
                        }
                        match found {
                            Some(idx) => {
                                if idx < r.task_stats.len() {
                                    let s = &r.task_stats[idx];
                                    let ns = TaskStat {
                                        phase,
                                        pages_total: s.pages_total,
                                        pages_ok: s.pages_ok,
                                        pages_fail: s.pages_fail,
                                        tokens_out: s.tokens_out,
                                    };
                                    r.task_stats.set(idx, ns);
                                }
                            },
                            None => {},
                        }
                    },
                    _ => {},
                }
            },
            ProgressUpdate::Error(e) => {
                self.phase = Phase::Error(e);
            },
        }
    }

    /// Takes a log line: its message (see `log_message`, trimmed) is counted in the
    /// session's page and reply counters and kept among the last 50 lines. Blank messages,
    /// and any message outside a session, change nothing (see `after_log`).
    pub fn add_log(&mut self, line: String)
        ensures
            after_log(*old(self), *final(self), line@),
    {
        let stripped = strip_log_prefix(line.as_str());
        let trimmed = crate::text::trim_text(stripped.as_str());
        let msg = chars_of(trimmed.as_str());
        if msg.len() == 0 {
            return;
        }
        let pages = announced_page_count(&msg);
        let success = !contains_text(&msg, "提取器选定URL 总数=") && contains_text(&msg, "✓ 提取成功");
        let failure = !contains_text(&msg, "提取器选定URL 总数=") && !contains_text(&msg, "✓ 提取成功") && contains_text(&msg, "✗ 提取失败");
        let tokens = reply_size(&msg);
        match &mut self.phase {
            Phase::Researching(r) => {
                match pages {
                    Some(n) => {
                        r.pages_total = n;
                    },
                    None => {},
                }
                if success {
                    r.pages_ok = r.pages_ok.wrapping_add(1);
                }
                if failure {
                    r.pages_fail = r.pages_fail.wrapping_add(1);
                }
                match tokens {
                    Some(n) => {
                        r.tokens_out = r.tokens_out.wrapping_add(n);
                    },
                    None => {},
                }
                if r.current_task < r.task_stats.len() {
                    let s = &r.task_stats[r.current_task];
                    let ns = TaskStat {
                        phase: s.phase.clone(),
                        pages_total: match pages {
                            Some(n) => n,
                            None => s.pages_total,
                        },
                        pages_ok: if success { s.pages_ok.wrapping_add(1) } else { s.pages_ok },
                        pages_fail: if failure { s.pages_fail.wrapping_add(1) } else { s.pages_fail },
                        tokens_out: match tokens {
                            Some(n) => s.tokens_out.wrapping_add(n),
                            None => s.tokens_out,
                        },
                    };
                    let at = r.current_task;
                    r.task_stats.set(at, ns);
                }
                let ghost before = sviews(r.log_lines@);
                r.log_lines.push(trimmed);
                proof {
                    assert(sviews(r.log_lines@) =~= before.push(msg@));
                }
                if r.log_lines.len() > 50 {
                    let ghost full = sviews(r.log_lines@);
                    r.log_lines.remove(0);
                    assert(sviews(r.log_lines@) =~= full.drop_first());
                }
            },
            _ => {},
        }
    }
}

/// Whether `s` holds the text `p`.
fn contains_text(s: &Vec<char>, p: &str) -> (r: bool)
    ensures
        r == contains_seq(s@, p@),
{
    let q = crate::text::pattern(p);
    crate::text::contains_chars(s, &q)
}

/// The page count that a log message announces (see `announced_pages`).
fn announced_page_count(msg: &Vec<char>) -> (r: Option<usize>)
    ensures
        r == announced_pages(msg@),
{
    if !contains_text(msg, "提取器选定URL 总数=") {
        return None;
    }
    let eq = crate::text::pattern("=");
    proof {
        reveal_strlit("=");
    }
    let tail = match crate::text::rfind(msg, &eq) {
        Some(k) => {
            proof {
                crate::text::lemma_last_match(msg@, eq@, msg@.len() - 1);
                assert(crate::text::matches_at(msg@, k as int, eq@));
            }
            let n = msg.len();
            assert(k + 1 <= n);
            crate::text::slice_chars(msg, k + 1, n)
        },
        None => crate::fragments::copy_chars(msg),
    };
    let (a, b) = crate::text::trim_bounds(&tail);
    let d = crate::text::slice_chars(&tail, a, b);
    parse_usize(&d)
}

/// The size of a model reply that a log message reports (see `reported_tokens`).
fn reply_size(msg: &Vec<char>) -> (r: Option<usize>)
    ensures
        r == reported_tokens(msg@),
{
    let head = crate::text::pattern("RESPONSE(");
    proof {
        reveal_strlit("RESPONSE(");
    }
    match crate::text::find_from(msg, &head, 0) {
        Some(a) => {
            proof {
                crate::text::lemma_first_match(msg@, head@, 0);
                assert(crate::text::matches_at(msg@, a as int, head@));
            }
            let n = msg.len();
            assert(a + 9 <= n);
            let rest = crate::text::slice_chars(msg, a + 9, n);
            let tail = crate::text::pattern(" chars");
            match crate::text::find_from(&rest, &tail, 0) {
                Some(e) => {
                    proof {
                        crate::text::lemma_first_match(rest@, tail@, 0);
                    }
                    let d = crate::text::slice_chars(&rest, 0, e);
                    parse_usize(&d)
                },
                None => None,
            }
        },
        None => None,
    }
}

impl App {
    /// Takes one event from the session. Returns whether more events may be taken now: a
    /// new version of the plan during the plan review ends the batch.
    pub fn apply_event(&mut self, event: TuiEvent, now: u64) -> (more: bool)
        ensures
            final(self).query_text == old(self).query_text,
            final(self).feedback_open == old(self).feedback_open,
            !(event is Progress) ==> final(self).needs_pdf == old(self).needs_pdf,
            match event {
                TuiEvent::PlanReady(plan) => match old(self).phase {
                    Phase::PlanReview(pr) => {
                        &&& !more
                        &&& final(self).phase matches Phase::PlanReview(pr2)
                            && pr2.plan == plan
                            && pr2.input == pr.input
                            && !pr2.feedback_pending
                            && pr2.version_scroll == pr.version_scroll
                            && sviews(pr2.versions@) == sviews(pr.versions@).push(tasks_line(plan.sub_tasks@))
                    },
                    _ => {
                        &&& more
                        &&& final(self).phase matches Phase::PlanReview(pr2)
                            && pr2.plan == plan
                            && pr2.input@ == (Seq::<char>::empty(), 0nat)
                            && !pr2.feedback_pending
                            && pr2.version_scroll == 0
                            && sviews(pr2.versions@) == seq![tasks_line(plan.sub_tasks@)]
                    },
                },
                TuiEvent::TokenUsage(p, c) => more && match old(self).phase {
                    Phase::Researching(r) => final(self).phase == Phase::Researching(Research {
                        tokens_in: plus(r.tokens_in, p),
                        tokens_out: plus(r.tokens_out, c),
                        ..r
                    }),
                    _ => final(self).phase == old(self).phase,
                },
                TuiEvent::PdfMessage(m) => more && match old(self).phase {
                    Phase::PdfGenerating(s) => final(self).phase matches Phase::PdfGenerating(s2)
                        && s2.report == s.report && s2.done == s.done && s2.messages@ == s.messages@.push(m),
                    _ => final(self).phase == old(self).phase,
                },
                TuiEvent::PdfDone => more && match old(self).phase {
                    Phase::PdfGenerating(s) => final(self).phase matches Phase::PdfGenerating(s2)
                        && s2.report == s.report && s2.done
                        && sviews(s2.messages@) == sviews(s.messages@).push("PDF 生成完成"@),
                    _ => final(self).phase == old(self).phase,
                },
                TuiEvent::Progress(u) => more && after_progress(*old(self), *final(self), u, now),
                TuiEvent::LogLine(l) => more && after_log(*old(self), *final(self), l@),
            },
    {
        match event {
            TuiEvent::PlanReady(new_plan) => {
                let version = tasks_summary(&new_plan.sub_tasks);
                match &mut self.phase {
                    Phase::PlanReview(pr) => {
                        let ghost before = sviews(pr.versions@);
                        let ghost vv = version@;
                        pr.versions.push(version);
                        assert(sviews(pr.versions@) =~= before.push(vv));
                        pr.feedback_pending = false;
                        pr.plan = new_plan;
                        return false;
                    },
                    _ => {},
                }
                let mut versions: Vec<String> = Vec::new();
                let ghost vv = version@;
                versions.push(version);
                assert(sviews(versions@) =~= seq![vv]);
                self.phase = Phase::PlanReview(PlanReview {
                    plan: new_plan,
                    input: InputBuf::new(),
                    feedback_pending: false,
                    versions,
                    version_scroll: 0,
                });
                true
            },
            TuiEvent::Progress(u) => {
                self.handle_progress(u, now);
                true
            },
            TuiEvent::LogLine(l) => {
                self.add_log(l);
                true
            },
            TuiEvent::TokenUsage(p, c) => {
                match &mut self.phase {
                    Phase::Researching(r) => {
                        r.tokens_in = r.tokens_in.wrapping_add(p);
                        r.tokens_out = r.tokens_out.wrapping_add(c);
                    },
                    _ => {},
                }
                true
            },
            TuiEvent::PdfMessage(m) => {
                match &mut self.phase {
                    Phase::PdfGenerating(s) => {
                        s.messages.push(m);
                    },
                    _ => {},
                }
                true
            },
            TuiEvent::PdfDone => {
                match &mut self.phase {
                    Phase::PdfGenerating(s) => {
                        s.done = true;
                        let ghost before = sviews(s.messages@);
                        s.messages.push(owned("PDF 生成完成"));
                        assert(sviews(s.messages@) =~= before.push("PDF 生成完成"@));
                    },
                    _ => {},
                }
                true
            },
        }
    }

    /// Takes a key or mouse action. Returns the message for the program (a quit), and the
    /// feedback on the plan to be sent, if the action submitted some.
    pub fn on(&mut self, input: Input, now: u64) -> (r: (Option<Msg>, Option<String>))
        ensures
            final(self).query_text == old(self).query_text,
            final(self).needs_pdf == old(self).needs_pdf,
            r.1 is Some ==> input == Input::Enter,
            match input {
                Input::Esc | Input::Char('q') | Input::CtrlChar('q') | Input::CtrlChar('Q')
                | Input::CtrlChar('c') | Input::CtrlChar('C') => {
                    &&& r.0 == quit_answer(old(self).phase)
                    &&& final(self).phase == old(self).phase
                    &&& final(self).feedback_open == old(self).feedback_open
                },
                Input::Enter => r.0 is None && match old(self).phase {
                    Phase::PlanReview(pr) => if pr.feedback_pending {
                        &&& final(self).phase == old(self).phase
                        &&& final(self).feedback_open == old(self).feedback_open
                        &&& r.1 is None
                    } else if trim(pr.input@.0).len() == 0 {
                        &&& r.1 is None
                        &&& !final(self).feedback_open
                        &&& final(self).phase matches Phase::Researching(rs)
                            && rs.tasks@.len() == pr.plan.sub_tasks@.len()
                            && fresh_research(rs, rs.tasks@, now)
                            && forall|i: int| 0 <= i < rs.tasks@.len() ==> (#[trigger] rs.tasks@[i]) == pr.plan.sub_tasks@[i].description
                    } else if old(self).feedback_open {
                        &&& r.1 matches Some(text) && text@ == trim(pr.input@.0)
                        &&& final(self).feedback_open
                        &&& final(self).phase matches Phase::PlanReview(pr2)
                            && pr2 == (PlanReview { input: pr2.input, feedback_pending: true, ..pr })
                            && pr2.input@ == (Seq::<char>::empty(), 0nat)
                    } else {
                        &&& final(self).phase == old(self).phase
                        &&& !final(self).feedback_open
                        &&& r.1 is None
                    },
                    _ => final(self).phase == old(self).phase && final(self).feedback_open == old(self).feedback_open && r.1 is None,
                },
                _ => {
                    &&& final(self).feedback_open == old(self).feedback_open
                    &&& r.1 is None
                    &&& (r.0 is None)
                },
            },
            input == Input::Backspace || input == Input::Left || input == Input::Right || input == Input::Home
                || input == Input::End || input == Input::CtrlChar('a') || input == Input::CtrlChar('A')
                || input == Input::CtrlChar('e') || input == Input::CtrlChar('E')
                || (input matches Input::Char(c) && c != 'q') ==> match old(self).phase {
                Phase::PlanReview(pr) => final(self).phase matches Phase::PlanReview(pr2)
                    && pr2 == (PlanReview { input: pr2.input, ..pr })
                    && pr2.input@ == (match input {
                        Input::Backspace => if pr.input@.1 > 0 {
                            (pr.input@.0.remove(pr.input@.1 - 1), (pr.input@.1 - 1) as nat)
                        } else {
                            pr.input@
                        },
                        Input::Left => (pr.input@.0, if pr.input@.1 > 0 { (pr.input@.1 - 1) as nat } else { 0nat }),
                        Input::Right => (pr.input@.0, if pr.input@.1 < pr.input@.0.len() { pr.input@.1 + 1 } else { pr.input@.1 }),
                        Input::Home | Input::CtrlChar('a') | Input::CtrlChar('A') => (pr.input@.0, 0nat),
                        Input::End | Input::CtrlChar('e') | Input::CtrlChar('E') => (pr.input@.0, pr.input@.0.len()),
                        Input::Char(c) => (pr.input@.0.insert(pr.input@.1 as int, c), pr.input@.1 + 1),
                        _ => pr.input@,
                    }),
                _ => final(self).phase == old(self).phase,
            },
            input == Input::ScrollUp || input == Input::ScrollDown ==> match old(self).phase {
                Phase::Researching(rs) => {
                    let top = if rs.log_lines@.len() > 12 { rs.log_lines@.len() - 12 } else { 0 };
                    final(self).phase == Phase::Researching(Research {
                        log_scroll: (if input == Input::ScrollUp {
                            if rs.log_scroll < top { rs.log_scroll + 1 } else { top }
                        } else {
                            if rs.log_scroll > 0 { rs.log_scroll - 1 } else { 0 }
                        }) as usize,
                        ..rs
                    })
                },
                Phase::PlanReview(pr) => {
                    let top = if pr.versions@.len() > 1 { pr.versions@.len() - 1 } else { 0 };
                    final(self).phase == Phase::PlanReview(PlanReview {
                        version_scroll: (if input == Input::ScrollUp {
                            if pr.version_scroll < top { pr.version_scroll + 1 } else { top }
                        } else {
                            if pr.version_scroll > 0 { pr.version_scroll - 1 } else { 0 }
                        }) as usize,
                        ..pr
                    })
                },
                _ => final(self).phase == old(self).phase,
            },
            input == Input::Other || (input matches Input::CtrlChar(c) && c != 'a' && c != 'A' && c != 'e'
                && c != 'E' && c != 'q' && c != 'Q' && c != 'c' && c != 'C') ==> final(self).phase == old(self).phase,
    {
        match input {
            Input::Esc | Input::Char('q') => (self.handle_quit(), None),
            Input::CtrlChar(c) => {
                if c == 'q' || c == 'Q' || c == 'c' || c == 'C' {
                    return (self.handle_quit(), None);
                }
                match &mut self.phase {
                    Phase::PlanReview(pr) => {
                        if c == 'a' || c == 'A' {
                            pr.input.cursor_home();
                        } else if c == 'e' || c == 'E' {
                            pr.input.cursor_end();
                        }
                    },
                    _ => {},
                }
                (None, None)
            },
            Input::Enter => {
                let mut fire: Option<Vec<String>> = None;
                let mut sent: Option<String> = None;
                let open = self.feedback_open;
                match &mut self.phase {
                    Phase::PlanReview(pr) => {
                        if pr.feedback_pending {
                            return (None, None);
                        }
                        let value = pr.input.value();
                        let trimmed = crate::text::trim_text(value.as_str());
                        if trimmed.as_str().is_empty() {
                            fire = Some(task_descriptions(&pr.plan.sub_tasks));
                        } else if open {
                            sent = Some(trimmed);
                            pr.feedback_pending = true;
                            pr.input.clear();
                        }
                    },
                    _ => {},
                }
                match fire {
                    Some(tasks) => {
                        self.feedback_open = false;
                        self.start_researching(tasks, now);
                    },
                    None => {},
                }
                (None, sent)
            },
            Input::Backspace | Input::Left | Input::Right | Input::Home | Input::End | Input::Char(_) => {
                match &mut self.phase {
                    Phase::PlanReview(pr) => {
                        match input {
                            Input::Backspace => pr.input.pop(),
                            Input::Left => pr.input.cursor_left(),
                            Input::Right => pr.input.cursor_right(),
                            Input::Home => pr.input.cursor_home(),
                            Input::End => pr.input.cursor_end(),
                            Input::Char(c) => pr.input.push(c),
                            _ => {},
                        }
                    },
                    _ => {},
                }
                (None, None)
            },
            Input::ScrollUp | Input::ScrollDown => {
                let up = input == Input::ScrollUp;
                match &mut self.phase {
                    Phase::Researching(rs) => {
                        let top = if rs.log_lines.len() > 12 { rs.log_lines.len() - 12 } else { 0 };
                        if up {
                            rs.log_scroll = if rs.log_scroll < top { rs.log_scroll + 1 } else { top };
                        } else {
                            rs.log_scroll = if rs.log_scroll > 0 { rs.log_scroll - 1 } else { 0 };
                        }
                    },
                    Phase::PlanReview(pr) => {
                        let top = if pr.versions.len() > 1 { pr.versions.len() - 1 } else { 0 };
                        if up {
                            pr.version_scroll = if pr.version_scroll < top { pr.version_scroll + 1 } else { top };
                        } else {
                            pr.version_scroll = if pr.version_scroll > 0 { pr.version_scroll - 1 } else { 0 };
                        }
                    },
                    _ => {},
                }
                (None, None)
            },
            Input::Other => (None, None),
        }
    }
}


/// The first line to show of `total` lines in a window of `visible` lines, scrolled up
/// `scroll` lines from the bottom (never past the top).
pub open spec fn window_start(total: nat, visible: nat, scroll: nat) -> nat {
    let max_start = if total > visible { (total - visible) as nat } else { 0nat };
    if max_start > scroll { (max_start - scroll) as nat } else { 0nat }
}

/// The first line to show (see `window_start`).
pub fn scroll_start(total: usize, visible: usize, scroll: usize) -> (r: usize)
    ensures
        r == window_start(total as nat, visible as nat, scroll as nat),
        r <= total,
{
    let max_start = total.saturating_sub(visible);
    let start = max_start.saturating_sub(scroll);
    if start < max_start { start } else { max_start }
}

/// `n` with at least two digits.
pub open spec fn two_digits(n: nat) -> Seq<char> {
    if n < 10 { seq!['0'] + crate::words::decimal(n) } else { crate::words::decimal(n) }
}

/// How long a session has run: hours and minutes from an hour on, minutes and seconds
/// from a minute on, else seconds.
pub open spec fn elapsed(secs: nat) -> Seq<char> {
    if secs >= 3600 {
        crate::words::decimal(secs / 3600) + "h"@ + two_digits((secs % 3600) / 60) + "m"@
    } else if secs >= 60 {
        crate::words::decimal(secs / 60) + "m"@ + two_digits(secs % 60) + "s"@
    } else {
        crate::words::decimal(secs) + "s"@
    }
}

fn two_digit_text(n: u64) -> (r: String)
    ensures
        r@ == two_digits(n as nat),
{
    let d = crate::words::decimal_text(n);
    if n < 10 {
        let mut r = owned("0");
        push_str(&mut r, d.as_str());
        proof {
            reveal_strlit("0");
        }
        r
    } else {
        d
    }
}

/// How long a session has run (see `elapsed`).
pub fn elapsed_text(secs: u64) -> (r: String)
    ensures
        r@ == elapsed(secs as nat),
{
    if secs >= 3600 {
        let mut r = crate::words::decimal_text(secs / 3600);
        push_str(&mut r, "h");
        let m = two_digit_text((secs % 3600) / 60);
        push_str(&mut r, m.as_str());
        push_str(&mut r, "m");
        r
    } else if secs >= 60 {
        let mut r = crate::words::decimal_text(secs / 60);
        push_str(&mut r, "m");
        let m = two_digit_text(secs % 60);
        push_str(&mut r, m.as_str());
        push_str(&mut r, "s");
        r
    } else {
        let mut r = crate::words::decimal_text(secs);
        push_str(&mut r, "s");
        r
    }
}

/// How a task is marked in the list: done, running, or waiting.
#[derive(Clone, Copy, Debug, PartialEq, Eq, Structural)]
pub enum TaskMark {
    Done,
    Current,
    Waiting,
}

/// The mark of task `i` while task `current` runs.
pub fn task_mark(i: usize, current: usize) -> (r: TaskMark)
    ensures
        r == (if i < current { TaskMark::Done } else if i == current { TaskMark::Current } else { TaskMark::Waiting }),
{
    if i < current {
        TaskMark::Done
    } else if i == current {
        TaskMark::Current
    } else {
        TaskMark::Waiting
    }
}

/// The tone a log line is shown in, by its first character.
#[derive(Clone, Copy, Debug, PartialEq, Eq, Structural)]
pub enum LogTone {
    Success,
    Failure,
    Progress,
    Info,
    Plain,
}

/// The tone of a log line whose shown text is `d`: `✓` success, `✗` failure, `→` or `⏭`
/// progress, `ℹ` information, anything else plain.
pub open spec fn tone_of(d: Seq<char>) -> LogTone {
    if d.len() > 0 && d[0] == '✓' {
        LogTone::Success
    } else if d.len() > 0 && d[0] == '✗' {
        LogTone::Failure
    } else if d.len() > 0 && (d[0] == '→' || d[0] == '⏭') {
        LogTone::Progress
    } else if d.len() > 0 && d[0] == 'ℹ' {
        LogTone::Info
    } else {
        LogTone::Plain
    }
}

/// A log line as shown: its first 60 characters, and their tone.
pub fn log_display(line: &str) -> (r: (String, LogTone))
    ensures
        r.0@ == crate::words::take_chars(line@, 60),
        r.1 == tone_of(crate::words::take_chars(line@, 60)),
{
    let d = crate::words::take_text(line, 60);
    let dv = chars_of(d.as_str());
    let tone = if dv.len() > 0 && dv[0] == '✓' {
        LogTone::Success
    } else if dv.len() > 0 && dv[0] == '✗' {
        LogTone::Failure
    } else if dv.len() > 0 && (dv[0] == '→' || dv[0] == '⏭') {
        LogTone::Progress
    } else if dv.len() > 0 && dv[0] == 'ℹ' {
        LogTone::Info
    } else {
        LogTone::Plain
    };
    (d, tone)
}

} // verus!
