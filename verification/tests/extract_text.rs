use zhiyuan::extract::{TextCache, WebExtractor};

#[test]
fn test_clean_text_preserves_cjk() {
    let e = WebExtractor::new();
    let result = e.clean_text("你好世界");
    assert!(result.contains("你好世界"));
}

#[test]
fn test_clean_text_collapses_whitespace() {
    let e = WebExtractor::new();
    let result = e.clean_text("a   b\t\tc\n\nd");
    assert_eq!(result, "a b c d");
}

#[test]
fn test_clean_text_truncates() {
    let mut e = WebExtractor::new();
    e.max_text_length = 5;
    let result = e.clean_text("abcdefghij");
    assert_eq!(result.len(), 5);
}

#[test]
fn test_clean_text_trimmed() {
    let e = WebExtractor::new();
    let result = e.clean_text("  hello world  ");
    assert_eq!(result, "hello world");
}

#[test]
fn test_clean_text_cjk_not_filtered() {
    let e = WebExtractor::new();
    let result = e.clean_text("国产AUTOSAR工具链现状与未来发展趋势分析报告");
    assert!(result.contains("国产AUTOSAR"));
}

#[test]
fn test_relevance_score_matches() {
    let e = WebExtractor::new();
    let score = e.relevance_score("国产AUTOSAR工具链发展现状分析", "AUTOSAR工具链");
    assert!(score.den > 0 && score.num > 0);
}

#[test]
fn test_relevance_score_no_match() {
    let e = WebExtractor::new();
    let score = e.relevance_score("今天天气不错", "AUTOSAR");
    assert_eq!(score.num, 0);
}

#[test]
fn test_extract_main_content_gets_body_text() {
    let e = WebExtractor::new();
    let html = "<html><body>这是一段足够长的测试文字Hello世界用于验证提取功能是否正常工作没有问题</body></html>";
    let result = e.extract_main_content(html, "https://example.com");
    assert!(result.contains("Hello"), "结果应为: {result}");
    assert!(result.contains("世界"), "结果应为: {result}");
}

#[test]
fn test_extract_main_content_filters_css() {
    let e = WebExtractor::new();
    let html = "\
<html><body>
<p>这是一篇真实文章的内容，包含重要的技术信息</p>
<style>.css-abc123{color:red}</style>
<script>var x=function(){return 1}</script>
<noscript>您的浏览器不支持JavaScript</noscript>
<p>更多有用的正文文字这里继续扩展长度确保超过十五字阈值</p>
</body></html>";
    let result = e.extract_main_content(html, "https://example.com");
    assert!(result.contains("真实文章"), "正文应保留，结果: {result}");
    assert!(!result.contains("function"), "JS 应被完整移除，结果: {result}");
    assert!(!result.contains("您的浏览器"), "noscript 应被移除，结果: {result}");
}

#[test]
fn clean_text_cuts_by_characters_not_bytes() {
    let mut e = WebExtractor::new();
    e.max_text_length = 3;
    assert_eq!(e.clean_text("汉字很多很多"), "汉字很");
}

#[test]
fn pdf_text_rejects_bytes_that_are_no_pdf() {
    match zhiyuan::extract::pdf_text(b"plain text, not a PDF".to_vec()) {
        Err(zhiyuan::model::Error::Extract(m)) => assert!(m.starts_with("PDF 打开失败")),
        _ => panic!("expected an extraction error"),
    }
}

#[test]
fn legacy_extract_keeps_long_sentences_without_markup() {
    let e = WebExtractor::new();
    let html = "<div><script>var a = 1;</script>短句。这是一个足够长的句子用来测试旧的提取方式是否正常。这个很长的句子包含 elementor 所以会被过滤掉。</div>";
    assert_eq!(e.legacy_extract(html), "这是一个足够长的句子用来测试旧的提取方式是否正常");
}

#[test]
fn legacy_extract_spaces_out_tags_and_keeps_a_lone_angle() {
    let e = WebExtractor::new();
    let html = "<p>one<b>two</b>three and more words</p>。x < y and still more words";
    assert_eq!(e.legacy_extract(html), "one two three and more words 。x < y and still more words");
}

#[test]
fn text_cache_reads_back_what_was_stored() {
    let mut c = TextCache::new();
    assert_eq!(c.get("https://a.org"), None);
    c.insert("https://a.org".into(), "one".into());
    c.insert("https://b.org".into(), "two".into());
    c.insert("https://a.org".into(), "three".into());
    assert_eq!(c.get("https://a.org"), Some("three".to_string()));
    assert_eq!(c.get("https://b.org"), Some("two".to_string()));
    assert_eq!(c.get("https://c.org"), None);
}
