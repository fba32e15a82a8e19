use zhiyuan::agents::writer::key_map_table;
use zhiyuan::fragments::extract_fragments;
use zhiyuan::util::extract_json;

const HEADER: &str = "\n\n引用 key 对照表（使用 @key 格式标注引用，例如 @example_report）：\nkey                    标题\n────────────────────────────────────────────────────\n";

#[test]
fn key_table_numbers_repeated_keys() {
    let entries = vec![
        ("https://a.org/x".to_string(), "A".to_string()),
        ("https://a.org/y".to_string(), "".to_string()),
        ("https://www.a.com/z".to_string(), "C".to_string()),
    ];
    let table = key_map_table(&entries);
    let expected = format!(
        "{HEADER}{:<22} A\n{:<22} https://a.org/y\n{:<22} C\n",
        "a", "a_2", "a_3"
    );
    assert_eq!(table, expected);
}

#[test]
fn fragments_are_lower_case_and_taken_once() {
    let f = extract_fragments("国产AUTOSAR工具链 AUTOSAR");
    assert!(f.contains(&"autosar".to_string()));
    assert!(f.contains(&"国产".to_string()));
    assert!(f.contains(&"工具链".to_string()));
    assert!(f.contains(&"工具".to_string()));
    let mut sorted = f.clone();
    sorted.sort();
    sorted.dedup();
    assert_eq!(sorted.len(), f.len());
}

#[test]
fn extracted_json_has_no_outer_whitespace() {
    for input in ["  {\"a\":1}\n", "```json\n  [1]  \n```  ", "x ```\n\t{}\t"] {
        let out = extract_json(input);
        assert_eq!(out, out.trim());
    }
}

#[test]
fn fragments_need_two_characters() {
    assert_eq!(extract_fragments("中 a"), Vec::<String>::new());
    assert_eq!(extract_fragments("中文 ab é"), vec!["中文".to_string(), "ab".to_string()]);
}
