use zhiyuan::util::extract_json;

#[test]
fn test_plain_json() {
    assert_eq!(extract_json(r#"{"a": 1}"#), r#"{"a": 1}"#);
}

#[test]
fn test_markdown_block() {
    let input = "```json\n{\"a\": 1}\n```";
    assert_eq!(extract_json(input), "{\"a\": 1}");
}

#[test]
fn test_markdown_block_no_lang() {
    let input = "```\n{\"a\": 1}\n```";
    assert_eq!(extract_json(input), "{\"a\": 1}");
}

#[test]
fn test_with_surrounding_text() {
    let input = "这是结果：\n```json\n{\"queries\": [\"a\", \"b\"]}\n```\n请查收。";
    assert_eq!(extract_json(input), "{\"queries\": [\"a\", \"b\"]}");
}

#[test]
fn extract_json_trims_plain_text() {
    assert_eq!(extract_json("  \n[1, 2]\t "), "[1, 2]");
}

#[test]
fn extract_json_unclosed_fence_takes_rest() {
    assert_eq!(extract_json("```json\n{\"b\": 2}"), "{\"b\": 2}");
}

#[test]
fn extract_json_takes_the_first_bracketed_value_without_a_fence() {
    assert_eq!(extract_json("Plan: {\"a\": 1} done"), "{\"a\": 1}");
    assert_eq!(extract_json("结果 [1, [2, 3]] 以上"), "[1, [2, 3]]");
    assert_eq!(extract_json("x {\"s\": \"}{\\\"}\", \"n\": {\"m\": []}} y {}"), "{\"s\": \"}{\\\"}\", \"n\": {\"m\": []}}");
    assert_eq!(extract_json("  no json here "), "no json here");
    assert_eq!(extract_json("open { never closed"), "open { never closed");
}
