use zhiyuan::model::{Error, SearchResult};
use zhiyuan::search::{dedup_results, extract_keywords, filter_relevant, normalize_url, FallbackSearch, SearXngEngine, SearxHit};

fn make_result(title: &str) -> SearchResult {
    SearchResult {
        title: title.into(),
        url: "https://example.com".into(),
        snippet: "".into(),
        source: "searxng/test".into(),
        fetch_time: chrono::Utc::now().timestamp(),
    }
}

#[test]
fn test_normalize_url_strips_trailing_slash() {
    assert_eq!(normalize_url("https://example.com/"), "https://example.com");
}

#[test]
fn test_normalize_url_removes_fragment() {
    assert_eq!(
        normalize_url("https://example.com/page#section"),
        "https://example.com/page"
    );
}

#[test]
fn test_normalize_url_lowercases() {
    assert_eq!(
        normalize_url("HTTPS://EXAMPLE.COM/Path"),
        "https://example.com/path"
    );
}

#[test]
fn test_normalize_url_handles_mixed() {
    assert_eq!(normalize_url("  HTTP://A.COM/B/#ref "), "http://a.com/b");
}

#[test]
fn test_dedup_removes_duplicates() {
    let mut r1 = make_result("1");
    r1.url = "https://a.com/page".into();
    let mut r2 = make_result("2");
    r2.url = "https://A.COM/page/".into();
    assert_eq!(dedup_results(vec![r1, r2]).len(), 1);
}

#[test]
fn test_dedup_preserves_unique() {
    let mut r1 = make_result("1");
    r1.url = "https://a.com/one".into();
    let mut r2 = make_result("2");
    r2.url = "https://b.com/two".into();
    assert_eq!(dedup_results(vec![r1, r2]).len(), 2);
}

#[test]
fn test_dedup_empty() {
    assert!(dedup_results(vec![]).is_empty());
}

#[test]
fn test_extract_keywords_cjk_mixed() {
    let kws = extract_keywords("国产AUTOSAR工具链 厂商 产品 版本");
    assert!(kws.contains(&"AUTOSAR".to_string()), "应包含 AUTOSAR");
    assert!(kws.contains(&"工具链".to_string()), "应包含 工具链");
    assert!(!kws.contains(&"国产".to_string()), "国产 ≤2 字符应被过滤");
}

#[test]
fn test_filter_keeps_relevant_generic() {
    let filtered = filter_relevant(
        "汽车嵌入式 AUTOSAR 软件平台 调研",
        vec![
            make_result("国产AUTOSAR工具链的技术亮点与实际应用 - 知乎"),
            make_result("AUTOSAR CP三大工具链全景对比 - 知乎"),
            make_result("AUTOSAR基础软件选型指南"),
            make_result("汽车电子AUTOSAR架构深度解析"),
        ],
    );
    assert_eq!(filtered.len(), 4, "含 AUTOSAR 的结果应全部保留");
}

#[test]
fn test_filter_removes_irrelevant_generic() {
    let results = vec![
        make_result("AUTOSAR Classic and Adaptive | Vector"),
        make_result("国产电影大全 - 最新国产片推荐"),
        make_result("国产剧免费在线观看_国产剧排行榜"),
        make_result("The Ultimate Guide to AUTOSAR - Acsia"),
    ];
    let filtered = filter_relevant("汽车电子 AUTOSAR 供应商 对比", results);
    assert_eq!(filtered.len(), 2);
    for r in &filtered {
        assert!(
            r.title.contains("Vector") || r.title.contains("Acsia"),
            "只应保留 AUTOSAR 结果"
        );
    }
}

#[test]
fn test_filter_fallback_on_empty() {
    let filtered = filter_relevant("ab", vec![make_result("anything"), make_result("else")]);
    assert_eq!(filtered.len(), 2);
}

#[test]
fn dedup_keeps_first_copy_in_order() {
    let mut a = make_result("first");
    a.url = "https://x.org/p#top".into();
    let mut b = make_result("other");
    b.url = "https://y.org/".into();
    let mut c = make_result("second copy");
    c.url = "HTTPS://X.ORG/p/".into();
    let out = dedup_results(vec![a, b, c]);
    assert_eq!(out.len(), 2);
    assert_eq!(out[0].title, "first");
    assert_eq!(out[1].title, "other");
}

#[test]
fn filter_keeps_only_results_given() {
    let filtered = filter_relevant("AUTOSAR 调研", vec![make_result("无关"), make_result("AUTOSAR 指南")]);
    assert_eq!(filtered.len(), 1);
    assert_eq!(filtered[0].title, "AUTOSAR 指南");
}

fn hit(title: &str, url: &str) -> SearchResult {
    let mut r = make_result(title);
    r.url = url.into();
    r
}

#[test]
fn cross_engine_results_rank_pages_by_engines() {
    let replies = vec![
        ("A".to_string(), Ok(vec![hit("p1", "https://one.org"), hit("p2", "https://two.org/")])),
        ("B".to_string(), Err(Error::Search("down".into()))),
        ("C".to_string(), Ok(vec![hit("p2 again", "HTTPS://TWO.ORG")])),
    ];
    let merged = zhiyuan::search::merge_engine_results(replies).ok().unwrap();
    assert_eq!(merged.len(), 2);
    assert_eq!(merged[0].title, "p2");
    assert_eq!(merged[0].source, "A,C");
    assert_eq!(merged[1].title, "p1");
    assert_eq!(merged[1].source, "A");
}

#[test]
fn cross_engine_results_fail_when_no_engine_answers() {
    let replies = vec![("A".to_string(), Ok(vec![])), ("B".to_string(), Err(Error::Search("down".into())))];
    match zhiyuan::search::merge_engine_results(replies) {
        Err(Error::Search(m)) => assert_eq!(m, "all engines returned no results"),
        _ => panic!("expected the search error"),
    }
}

#[test]
fn fallback_search_takes_first_usable_answer() {
    let mut f = FallbackSearch::new();
    assert!(f.on_reply("AUTOSAR", Err(Error::Search("e1".into()))).is_none());
    assert!(f.on_reply("AUTOSAR", Ok(vec![])).is_none());
    let got = f.on_reply("AUTOSAR", Ok(vec![hit("AUTOSAR guide", "https://x.org/a"), hit("AUTOSAR guide", "https://x.org/a/")]));
    assert_eq!(got.unwrap().len(), 1);
    let mut g = FallbackSearch::new();
    assert!(g.on_reply("q", Err(Error::Search("last".into()))).is_none());
    match g.failure() {
        Error::Search(m) => assert_eq!(m, "last"),
        _ => panic!("expected the engine's error"),
    }
    match FallbackSearch::new().failure() {
        Error::Search(m) => assert_eq!(m, "all search engines failed"),
        _ => panic!("expected the search error"),
    }
}

#[test]
fn searxng_hits_keep_the_first_of_each_url() {
    let hit = |t: &str, u: &str| SearxHit { title: t.into(), url: u.into(), content: format!("c{t}"), engine: "bing".into() };
    let engine = SearXngEngine::new("http://localhost:8888/", 3);
    assert_eq!(engine.endpoint(), "http://localhost:8888/search");
    let hits = vec![hit("a", "https://x.org/1"), hit("b", "https://x.org/1"), hit("c", "https://x.org/2"), hit("d", "https://x.org/3")];
    let r = engine.results_from_hits(hits, 7);
    assert_eq!(r.len(), 2);
    assert_eq!((r[0].title.as_str(), r[0].url.as_str()), ("a", "https://x.org/1"));
    assert_eq!((r[1].title.as_str(), r[1].url.as_str()), ("c", "https://x.org/2"));
    assert_eq!((r[1].snippet.as_str(), r[1].source.as_str(), r[1].fetch_time), ("cc", "searxng/bing", 7));
    let all = engine.results_from_hits(vec![hit("a", "u1"), hit("b", "u2")], 1);
    assert_eq!(all.len(), 2);
}

#[test]
fn fallback_search_counts_engines_and_keeps_the_last_error() {
    let mut f = FallbackSearch::new();
    assert!(f.on_reply("q", Err(Error::Search("first".into()))).is_none());
    assert!(f.on_reply("q", Err(Error::Search("second".into()))).is_none());
    assert!(f.on_reply("q", Ok(vec![])).is_none());
    assert_eq!(f.step, 3);
    match f.failure() {
        Error::Search(m) => assert_eq!(m, "second"),
        _ => panic!("expected the last engine's error"),
    }
}

#[test]
fn normalized_urls_of_ascii_are_lower_case() {
    assert_eq!(normalize_url("HTTPS://Example.COM/Path/"), "https://example.com/path");
}
