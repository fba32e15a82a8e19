use zhiyuan::model::{CitationGraph, QualityTally, Ratio, ReportSection, ResearchReport, SourceNode};
use zhiyuan::pdf::{
    apply_repair, error_line, generate_bibliography, generate_typst_source, pdf_file_name, plan_repair,
    quote_string, today_from, typst_preamble, SourceError,
};

fn zero() -> Ratio {
    Ratio { num: 0, den: 1 }
}

fn report(sections: Vec<(&str, &str)>, sources: Vec<SourceNode>) -> ResearchReport {
    let mut graph = CitationGraph::empty();
    graph.sources = sources;
    ResearchReport {
        query_id: 1,
        title: "标题 \"A\"".into(),
        sections: sections
            .into_iter()
            .map(|(h, c)| ReportSection { heading: h.into(), content: c.into(), citations: vec![] })
            .collect(),
        citation_graph: graph,
        quality: QualityTally { coverage: zero(), freshness: zero(), depth: zero() },
        argument_skeleton: None,
        generated_at: 0,
    }
}

#[test]
fn typst_source_places_paragraphs_and_maps_lines() {
    let r = report(vec![("a", "第一段\n\n  second para  \n\n"), ("empty", ""), ("b", "x\ny")], vec![]);
    let (src, map) = generate_typst_source(&r, "PRE");
    assert_eq!(
        src,
        "PRE\n#show: project.with(title: \"标题 \\\"A\\\"\")\n\n第一段\n\nsecond para\n\nx\ny\n\n"
    );
    assert_eq!(map.spans.len(), 3);
    let s0 = map.spans[0];
    assert_eq!((s0.section_idx, s0.content_start, s0.content_end), (0, 0, 9));
    assert_eq!((s0.source_line_start, s0.source_line_end), (4, 6));
    let s1 = map.spans[1];
    assert_eq!((s1.section_idx, s1.content_start, s1.content_end), (0, 11, 22));
    assert_eq!((s1.source_line_start, s1.source_line_end), (6, 8));
    let s2 = map.spans[2];
    assert_eq!((s2.section_idx, s2.content_start, s2.content_end), (2, 0, 3));
    assert_eq!((s2.source_line_start, s2.source_line_end), (8, 11));
}

#[test]
fn source_map_finds_each_paragraph_by_its_first_line() {
    let r = report(vec![("a", "one\n\ntwo\nlines\n\nthree"), ("b", "four")], vec![]);
    let (_, map) = generate_typst_source(&r, "#import \"x\"\n");
    for (k, s) in map.spans.iter().enumerate() {
        let found = map.span_at_line(s.source_line_start).unwrap();
        assert_eq!(*found, map.spans[k]);
    }
    assert!(map.span_at_line(1).is_none());
}

#[test]
fn typst_source_ends_with_bibliography_when_cited() {
    let r = report(vec![("a", "p")], vec![SourceNode { id: 1, url: "https://a.org/x".into(), title: "T".into() }]);
    let (src, _) = generate_typst_source(&r, "");
    assert!(src.ends_with("= 参考文献\n\n#bibliography(\"works.bib\", title: none)\n"));
}

#[test]
fn bibliography_entries_replace_double_quotes() {
    let bib = generate_bibliography(&vec![SourceNode {
        id: 1,
        url: "https://www.example.com/papers/report.pdf".into(),
        title: "A \"quoted\" title".into(),
    }]);
    assert_eq!(
        bib,
        "@misc{example_report,\n  title = {A 'quoted' title},\n  url = {https://www.example.com/papers/report.pdf}\n}\n\n"
    );
}

#[test]
fn quote_string_escapes_backslash_and_quote() {
    assert_eq!(quote_string("a\\b\"c"), "\"a\\\\b\\\"c\"");
}

#[test]
fn error_line_counts_line_feeds_before_position() {
    assert_eq!(error_line("a\nb\nc", Some(4)), 3);
    assert_eq!(error_line("a\nb", Some(0)), 1);
    assert_eq!(error_line("ab", Some(9)), 0);
    assert_eq!(error_line("ab", None), 0);
}

#[test]
fn pdf_file_name_keeps_words_joined_by_underscores() {
    assert_eq!(pdf_file_name("东亚经济 2025：趋势、挑战"), "东亚经济_2025_趋势_挑战.pdf");
    assert_eq!(pdf_file_name("a  b-c"), "a_b-c.pdf");
}

#[test]
fn today_from_gives_calendar_dates() {
    assert_eq!(today_from(0, None), (1970, 1, 1));
    assert_eq!(today_from(951_782_400, None), (2000, 2, 29));
    assert_eq!(today_from(1_709_164_800, Some(8)), (2024, 2, 29));
    assert_eq!(today_from(1_735_689_599, None), (2024, 12, 31));
}

#[test]
fn preamble_embeds_icon_as_base64() {
    let out = typst_preamble("#image(\"icon.svg\", width: 3cm) #image(\"icon.svg\")", b"abc");
    assert_eq!(
        out,
        "#image(\"data:image/svg+xml;base64,YWJj\", width: 3cm) #image(\"data:image/svg+xml;base64,YWJj\")"
    );
    assert_eq!(typst_preamble("no icon", b"ab"), "no icon");
}

#[test]
fn repair_plan_points_at_the_paragraph_of_the_error() {
    let r = report(vec![("a", "好的\n\n坏的 #x")], vec![]);
    let (_, map) = generate_typst_source(&r, "");
    let err = SourceError { line: map.spans[1].source_line_start, message: "unknown".into() };
    let repair = plan_repair(&err, &map, &r).unwrap();
    assert_eq!((repair.section_idx, repair.start, repair.end), (0, 4, 9));
    assert_eq!(repair.prompt.user, format!("错误：unknown（行 {}）\n\n段落原文：\n坏的 #x", err.line));
    assert!(plan_repair(&SourceError { line: 0, message: "m".into() }, &map, &r).is_none());
    assert!(plan_repair(&SourceError { line: 999, message: "m".into() }, &map, &r).is_none());
}

#[test]
fn applying_a_repair_replaces_only_that_paragraph() {
    let mut r = report(vec![("a", "好的\n\n坏的 #x")], vec![]);
    let (_, map) = generate_typst_source(&r, "");
    let err = SourceError { line: map.spans[1].source_line_start, message: "m".into() };
    let repair = plan_repair(&err, &map, &r).unwrap();
    assert!(!apply_repair(&mut r, &repair, "   "));
    assert!(!apply_repair(&mut r, &repair, " 坏的 #x \n"));
    assert_eq!(r.sections[0].content, "好的\n\n坏的 #x");
    assert!(apply_repair(&mut r, &repair, "\n修好的\n"));
    assert_eq!(r.sections[0].content, "好的\n\n修好的");
    assert_eq!(r.sections[0].heading, "a");
}

#[test]
fn preamble_base64_pads_short_groups() {
    let t = "image(\"icon.svg\"";
    assert_eq!(typst_preamble(t, b"M"), "image(\"data:image/svg+xml;base64,TQ==\"");
    assert_eq!(typst_preamble(t, b"Ma"), "image(\"data:image/svg+xml;base64,TWE=\"");
    assert_eq!(typst_preamble(t, b"Many"), "image(\"data:image/svg+xml;base64,TWFueQ==\"");
    assert_eq!(typst_preamble(t, &[0xfb, 0xff, 0xbf]), "image(\"data:image/svg+xml;base64,+/+/\"");
    assert_eq!(typst_preamble(t, b""), "image(\"data:image/svg+xml;base64,\"");
}

#[test]
fn repair_rounds_compile_at_most_five_times() {
    let mut rounds = zhiyuan::pdf::RepairRounds::new();
    let mut compiled = 0;
    while rounds.next_compile() {
        compiled += 1;
        rounds.after_repair(true);
    }
    assert_eq!(compiled, 5);
    let mut early = zhiyuan::pdf::RepairRounds::new();
    assert!(early.next_compile());
    early.after_repair(false);
    assert!(!early.next_compile());
    assert_eq!(early.compiled, 1);
}

#[test]
fn typst_map_ranges_are_nonempty_and_bibliography_only_with_sources() {
    let r = report(vec![("a", "one\n\n  \n\ntwo words"), ("b", ""), ("c", "三")], vec![]);
    let (src, map) = generate_typst_source(&r, "");
    assert!(!src.ends_with("#bibliography(\"works.bib\", title: none)\n"));
    assert_eq!(map.spans.len(), 3);
    for sp in &map.spans {
        assert!(sp.content_start < sp.content_end);
        assert!(sp.source_line_start < sp.source_line_end);
        assert!(sp.section_idx < 3);
    }
    assert_eq!((map.spans[2].section_idx, map.spans[2].content_start, map.spans[2].content_end), (2, 0, 3));
}
