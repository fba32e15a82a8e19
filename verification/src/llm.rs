//! The decisions of the chat-completion client: where requests go, how answers are
//! cached, and how long to wait before trying again.
use vstd::prelude::*;
use crate::words::{ends_with, owned, push_str};
use crate::text::contains_seq;

verus! {

broadcast use vstd::string::group_string_axioms;

/// The chat-completion endpoint for a base URL: the URL itself when it already names
/// `chat/completions`, else the URL with `/chat/completions` appended (without doubling a
/// final `/`).
pub open spec fn endpoint_of(base: Seq<char>) -> Seq<char> {
    if contains_seq(base, "chat/completions"@) {
        base
    } else if ends_with(base, "/"@) {
        base + "chat/completions"@
    } else {
        base + "/chat/completions"@
    }
}

/// The chat-completion endpoint for a base URL (see `endpoint_of`).
pub fn chat_endpoint(base_url: &str) -> (r: String)
    ensures
        r@ == endpoint_of(base_url@),
{
    let b = crate::text::chars_of(base_url);
    let p = crate::text::pattern("chat/completions");
    if crate::text::contains_chars(&b, &p) {
        return owned(base_url);
    }
    let mut r = owned(base_url);
    if crate::words::text_ends_with(base_url, "/") {
        push_str(&mut r, "chat/completions");
    } else {
        push_str(&mut r, "/chat/completions");
    }
    r
}

/// The key under which an answer is cached: the system prompt, a NUL, the user's message.
pub open spec fn cache_key_of(system: Seq<char>, user: Seq<char>) -> Seq<char> {
    system + seq!['\0'] + user
}

/// The key under which an answer is cached (see `cache_key_of`).
pub fn cache_key(system: &str, user: &str) -> (r: String)
    ensures
        r@ == cache_key_of(system@, user@),
{
    let mut r = owned(system);
    crate::text::push_char(&mut r, '\0');
    push_str(&mut r, user);
    r
}

/// How many times a request is tried.
pub const MAX_ATTEMPTS: u32 = 5;

/// The seconds to wait after failed attempt `attempt` (from 1): two after an answer with
/// an error status, else twice the attempt's number.
pub fn retry_delay_secs(attempt: u32, error_status: bool) -> (r: u64)
    ensures
        r == (if error_status { 2 } else { 2 * attempt as int }),
{
    if error_status {
        2
    } else {
        2 * (attempt as u64)
    }
}

/// What one attempt of a chat request came to.
pub enum ChatOutcome {
    /// The model answered with this content.
    Answer(String),
    /// The server answered with an error status.
    ErrorStatus,
    /// The answer held no content.
    NoContent,
    /// The answer could not be read as a chat completion.
    Unreadable,
    /// The request could not be sent.
    Unsent,
}

/// What the client does after an attempt.
pub enum ChatStep {
    /// Return the content.
    Return(String),
    /// Wait this many seconds and try again.
    Retry(u64),
    /// Wait this many seconds and give up: that was the last attempt.
    GiveUp(u64),
}

/// The step after attempt `attempt` (from 1) came to `outcome`: return an answer; else
/// wait (see `retry_delay_secs`) and try again, unless it was attempt `MAX_ATTEMPTS`.
pub open spec fn chat_step(attempt: u32, outcome: ChatOutcome) -> ChatStep {
    match outcome {
        ChatOutcome::Answer(c) => ChatStep::Return(c),
        _ => {
            let delay: u64 = if outcome is ErrorStatus { 2 } else { (2 * attempt) as u64 };
            if attempt < MAX_ATTEMPTS { ChatStep::Retry(delay) } else { ChatStep::GiveUp(delay) }
        },
    }
}

/// The step after attempt `attempt` came to `outcome` (see `chat_step`).
pub fn after_chat_attempt(attempt: u32, outcome: ChatOutcome) -> (r: ChatStep)
    requires
        1 <= attempt <= MAX_ATTEMPTS,
    ensures
        r == chat_step(attempt, outcome),
{
    match outcome {
        ChatOutcome::Answer(c) => ChatStep::Return(c),
        ChatOutcome::ErrorStatus => {
            let delay = retry_delay_secs(attempt, true);
            if attempt < MAX_ATTEMPTS { ChatStep::Retry(delay) } else { ChatStep::GiveUp(delay) }
        },
        _ => {
            let delay = retry_delay_secs(attempt, false);
            if attempt < MAX_ATTEMPTS { ChatStep::Retry(delay) } else { ChatStep::GiveUp(delay) }
        },
    }
}

/// A chat request run from attempt `attempt` over the outcomes `outs` of its attempts, in
/// order: how many attempts were made, and the content returned, if any.
pub open spec fn chat_run(attempt: u32, outs: Seq<ChatOutcome>) -> (nat, Option<String>)
    decreases outs.len(),
{
    if outs.len() == 0 || attempt == 0 || attempt > MAX_ATTEMPTS {
        (0, None)
    } else {
        match chat_step(attempt, outs[0]) {
            ChatStep::Return(c) => (1, Some(c)),
            ChatStep::GiveUp(_) => (1, None),
            ChatStep::Retry(_) => {
                let (n, r) = chat_run((attempt + 1) as u32, outs.drop_first());
                (n + 1, r)
            },
        }
    }
}

/// A chat request makes at most `MAX_ATTEMPTS` attempts and returns the content of the
/// first attempt that gets one: every attempt before it failed. When no attempt gets one,
/// it makes all `MAX_ATTEMPTS` attempts and gives up.
pub proof fn law_chat_attempts(outs: Seq<ChatOutcome>)
    requires
        outs.len() >= MAX_ATTEMPTS,
    ensures
        ({
            let (n, r) = chat_run(1, outs);
            &&& 1 <= n <= MAX_ATTEMPTS
            &&& forall|i: int| 0 <= i < n - 1 ==> !(#[trigger] outs[i] is Answer)
            &&& match r {
                Some(c) => outs[n - 1] == ChatOutcome::Answer(c),
                None => n == MAX_ATTEMPTS && !(outs[n - 1] is Answer),
            }
        }),
{
    lemma_chat_run(1, outs);
}

proof fn lemma_chat_run(attempt: u32, outs: Seq<ChatOutcome>)
    requires
        1 <= attempt <= MAX_ATTEMPTS,
        outs.len() >= MAX_ATTEMPTS - attempt + 1,
    ensures
        ({
            let (n, r) = chat_run(attempt, outs);
            &&& 1 <= n <= MAX_ATTEMPTS - attempt + 1
            &&& forall|i: int| 0 <= i < n - 1 ==> !(#[trigger] outs[i] is Answer)
            &&& match r {
                Some(c) => outs[n - 1] == ChatOutcome::Answer(c),
                None => n == MAX_ATTEMPTS - attempt + 1 && !(outs[n - 1] is Answer),
            }
        }),
    decreases MAX_ATTEMPTS - attempt,
{
    if !(outs[0] is Answer) && attempt < MAX_ATTEMPTS {
        let rest = outs.drop_first();
        lemma_chat_run((attempt + 1) as u32, rest);
        let (n, r) = chat_run(attempt, outs);
        assert forall|i: int| 0 <= i < n - 1 implies !(#[trigger] outs[i] is Answer) by {
            if i > 0 {
                assert(outs[i] == rest[i - 1]);
            }
        }
        assert(outs[n - 1] == rest[n - 2]);
    }
}

} // verus!
