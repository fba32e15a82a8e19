use zhiyuan::citation::{citation_key, sorted_unique};
use zhiyuan::embedding::{EmbeddingError, EmbeddingErrorKind};
use zhiyuan::model::{CitationGraph, QualityTally, Ratio, ResearchQuery};
use zhiyuan::orchestrator::placeholder_report;
use zhiyuan::json::JsonValue;
use zhiyuan::llm::{after_chat_attempt, cache_key, chat_endpoint, retry_delay_secs, ChatOutcome, ChatStep};
use zhiyuan::memory::{entity_key, episode_key, episode_prefix};
use zhiyuan::model::Error;
use zhiyuan::robust::{MessageNormalizer, Retry};
use zhiyuan::text::replace_all;

#[test]
fn endpoint_appends_chat_completions_once() {
    assert_eq!(chat_endpoint("https://api.deepseek.com/v1"), "https://api.deepseek.com/v1/chat/completions");
    assert_eq!(chat_endpoint("https://h/v1/"), "https://h/v1/chat/completions");
    assert_eq!(chat_endpoint("https://h/v1/chat/completions"), "https://h/v1/chat/completions");
}

#[test]
fn cache_key_separates_prompts_with_nul() {
    assert_eq!(cache_key("sys", "user"), "sys\0user");
    assert_ne!(cache_key("a", "bc"), cache_key("ab", "c"));
}

#[test]
fn retry_delays() {
    assert_eq!(retry_delay_secs(3, true), 2);
    assert_eq!(retry_delay_secs(3, false), 6);
}

#[test]
fn retry_allows_fewer_failures_than_its_limit() {
    let mut r = Retry::new(3);
    assert!(r.after_failure());
    assert!(r.after_failure());
    assert!(!r.after_failure());
    assert_eq!(r.retries, 3);
}

#[test]
fn episode_keys_lie_under_their_prefix() {
    let id = 0x0123_4567_89ab_cdef_0123_4567_89ab_cdefu128;
    let prefix = episode_prefix("current", 2);
    assert_eq!(prefix, "current:iteration:2:");
    let key = episode_key("current", 2, id);
    assert_eq!(key, "current:iteration:2:01234567-89ab-cdef-0123-456789abcdef");
    assert!(key.starts_with(&prefix));
    assert_eq!(entity_key("Rust"), "entity:Rust");
}

#[test]
fn fresh_ids_differ_and_print_as_uuids() {
    let a = ResearchQuery::new("q".into()).id;
    let b = ResearchQuery::new("q".into()).id;
    assert_ne!(a, b);
    let key = episode_key("r", 0, a);
    assert_eq!(key, format!("r:iteration:0:{}", uuid::Uuid::from_u128(a)));
}

#[test]
fn placeholder_report_is_stamped_now() {
    let q = ResearchQuery::new("题".into());
    let zero = Ratio { num: 0, den: 1 };
    let r = placeholder_report(&q, &CitationGraph::empty(), QualityTally { coverage: zero, freshness: zero, depth: zero }, false);
    assert!(r.generated_at > 1_577_836_800);
    assert_eq!(r.title, "题 - 研究报告");
    assert!(r.sections.is_empty());
    let after = placeholder_report(&q, &CitationGraph::empty(), QualityTally { coverage: zero, freshness: zero, depth: zero }, true);
    assert_eq!(after.title, "题");
}

#[test]
fn citation_keys_from_urls() {
    assert_eq!(citation_key("https://www.kpmg.com/reports/annual-report-2023.html"), "kpmg_annual-repor");
    assert_eq!(citation_key("https://www.kpmg.com/reports/annualreport2023.pdf"), "kpmg_annualreport");
    assert_eq!(citation_key("https://arxiv.org/abs/2103.12345"), "arxiv_2103.12345");
    assert_eq!(citation_key("http://example.org/a"), "example");
    assert_eq!(citation_key("https://example.org/"), "example");
}

#[test]
fn short_keys_cut_by_characters() {
    assert_eq!(citation_key("https://a.com/x人工智能"), "a_x人工智能");
    assert_eq!(citation_key("https://a.org/ab汉字汉字汉字汉字汉字汉字"), "a_ab汉字汉字汉字汉字汉字");
    assert_eq!(citation_key("https://a.org/abcdefghijklmnop"), "a_abcdefghijkl");
    assert_eq!(
        zhiyuan::pdf::bib_key("https://www.kpmg.com/reports/annual-report-2023.html"),
        zhiyuan::agents::writer::bib_key("https://www.kpmg.com/reports/annual-report-2023.html")
    );
}

#[test]
fn sorted_unique_sorts_and_drops_repeats() {
    let v = vec!["b".to_string(), "a".to_string(), "b".to_string(), "A".to_string()];
    assert_eq!(sorted_unique(&v), vec!["A".to_string(), "a".to_string(), "b".to_string()]);
}

#[test]
fn error_messages_name_their_kind() {
    assert_eq!(Error::Search("x".into()).message(), "Search error: x");
    assert_eq!(Error::Extract("x".into()).message(), "Extract error: x");
    assert_eq!(Error::Memory("x".into()).message(), "Memory error: x");
    assert_eq!(Error::Orchestration("x".into()).message(), "Orchestration error: x");
    assert_eq!(Error::Agent("x".into()).message(), "Agent error: x");
    assert_eq!(Error::Llm("x".into()).message(), "LLM error: x");
    assert_eq!(Error::Robust("x".into()).message(), "Robust execution error: x");
    assert_eq!(Error::Config("x".into()).message(), "Config error: x");
    assert_eq!(Error::Serde("x".into()).message(), "Serialization error: x");
    assert_eq!(Error::Io("x".into()).message(), "x");
    let e = EmbeddingError { message: "no model".into(), kind: EmbeddingErrorKind::NotAvailable };
    assert_eq!(e.text(), "[NotAvailable] no model");
}

#[test]
fn normalizer_reports_each_failure() {
    let fields = vec!["a".to_string(), "b".to_string()];
    match MessageNormalizer::normalize_agent_output(Err("eof".into()), &fields) {
        Err(Error::Robust(m)) => assert_eq!(m, "Failed to parse agent output as JSON: eof"),
        _ => panic!("expected a parse error"),
    }
    match MessageNormalizer::normalize_agent_output(Ok(JsonValue::Array(vec![])), &fields) {
        Err(Error::Robust(m)) => assert_eq!(m, "Agent output is not a JSON object"),
        _ => panic!("expected a shape error"),
    }
    let obj = JsonValue::Object(vec![("a".into(), JsonValue::Null)]);
    match MessageNormalizer::normalize_agent_output(Ok(obj), &fields) {
        Err(Error::Robust(m)) => assert_eq!(m, "Missing required field: b"),
        _ => panic!("expected a missing field"),
    }
    let full = JsonValue::Object(vec![("b".into(), JsonValue::Null), ("a".into(), JsonValue::Null)]);
    assert!(MessageNormalizer::normalize_agent_output(Ok(full), &fields).is_ok());
}

#[test]
fn replace_all_replaces_every_occurrence_left_to_right() {
    assert_eq!(replace_all("aaa", "aa", "b"), "ba");
    assert_eq!(replace_all("x.y.z", ".", "::"), "x::y::z");
    assert_eq!(replace_all("none", "q", "r"), "none");
}

#[test]
fn chat_attempts_return_the_first_answer_and_stop_after_five() {
    assert!(matches!(after_chat_attempt(1, ChatOutcome::Answer("a".into())), ChatStep::Return(c) if c == "a"));
    assert!(matches!(after_chat_attempt(1, ChatOutcome::ErrorStatus), ChatStep::Retry(2)));
    assert!(matches!(after_chat_attempt(3, ChatOutcome::NoContent), ChatStep::Retry(6)));
    assert!(matches!(after_chat_attempt(4, ChatOutcome::Unsent), ChatStep::Retry(8)));
    assert!(matches!(after_chat_attempt(5, ChatOutcome::Unreadable), ChatStep::GiveUp(10)));
    assert!(matches!(after_chat_attempt(5, ChatOutcome::ErrorStatus), ChatStep::GiveUp(2)));
}

#[test]
fn retry_runs_once_when_its_limit_is_zero_or_one() {
    let mut zero = Retry::new(0);
    assert!(!zero.after_failure());
    let mut one = Retry::new(1);
    assert!(!one.after_failure());
}
