use zhiyuan::model::{CitationGraph, ProgressUpdate, QualityTally, Ratio, ResearchPlan, ResearchReport, SubTask, TaskStatus};
use zhiyuan::tui::{
    elapsed_text, log_display, parse_usize, scroll_start, strip_log_prefix, task_mark, tasks_summary, App, InputBuf,
    Input, LogTone, Msg, Phase, TaskMark, TuiEvent,
};

fn plan(tasks: &[&str]) -> ResearchPlan {
    ResearchPlan {
        query_id: 9,
        sub_tasks: tasks
            .iter()
            .enumerate()
            .map(|(i, d)| SubTask { id: i as u128, description: d.to_string(), status: TaskStatus::Pending, dependencies: vec![] })
            .collect(),
        outline: None,
        core_thesis: None,
        reasoning_chain: None,
    }
}

#[test]
fn deleting_right_after_typing_restores_the_line() {
    let mut b = InputBuf::new();
    b.push('a');
    b.push('c');
    b.cursor_left();
    b.push('汉');
    assert_eq!(b.value(), "a汉c");
    assert_eq!(b.cursor_char_idx(), 2);
    b.pop();
    assert_eq!(b.value(), "ac");
    assert_eq!(b.cursor_char_idx(), 1);
    b.cursor_home();
    b.pop();
    assert_eq!(b.value(), "ac");
    b.cursor_end();
    b.cursor_right();
    assert_eq!(b.cursor_char_idx(), 2);
    b.clear();
    assert_eq!(b.value(), "");
}

#[test]
fn plan_review_then_research_then_pdf() {
    let mut app = App::new("问题".into(), true);
    assert_eq!(app.on(Input::Enter, 0), (None, None));
    assert!(app.apply_event(TuiEvent::PlanReady(plan(&["甲", "乙"])), 0));
    match &app.phase {
        Phase::PlanReview(r) => assert_eq!(r.versions, vec!["甲  ◆  乙".to_string()]),
        _ => panic!("expected the plan review"),
    }
    app.on(Input::Char('改'), 0);
    let (msg, feedback) = app.on(Input::Enter, 0);
    assert_eq!(msg, None);
    assert_eq!(feedback, Some("改".to_string()));
    assert!(!app.apply_event(TuiEvent::PlanReady(plan(&["丙"])), 1));
    assert_eq!(app.on(Input::Enter, 5), (None, None));
    match &app.phase {
        Phase::Researching(r) => {
            assert_eq!(r.tasks, vec!["丙".to_string()]);
            assert_eq!(r.start_time, 5);
        }
        _ => panic!("expected research"),
    }
    assert!(app.apply_event(TuiEvent::Progress(ProgressUpdate::TaskPhase { task_desc: "丙".into(), phase: "搜索中".into() }), 6));
    assert!(app.apply_event(TuiEvent::LogLine("2025-01-01T00:00:00.000Z  INFO ✓ 提取成功 [t]: 9 字符".into()), 6));
    match &app.phase {
        Phase::Researching(r) => {
            assert_eq!(r.task_stats[0].phase, "搜索中");
            assert_eq!(r.pages_ok, 1);
            assert_eq!(r.log_lines, vec!["✓ 提取成功 [t]: 9 字符".to_string()]);
        }
        _ => panic!("expected research"),
    }
    assert_eq!(app.on(Input::Char('q'), 7).0, Some(Msg::Quit));
}

#[test]
fn quitting_waits_for_the_pdf() {
    let mut app = App::new("q".into(), false);
    assert!(app.apply_event(TuiEvent::Progress(ProgressUpdate::Started { max_iterations: 2, tasks: vec!["t".into()] }), 0));
    assert!(app.apply_event(TuiEvent::Progress(ProgressUpdate::Error("boom".into())), 0));
    match &app.phase {
        Phase::Error(e) => assert_eq!(e, "boom"),
        _ => panic!("expected the error"),
    }
    assert_eq!(app.on(Input::Esc, 0).0, Some(Msg::Quit));
    assert!(!app.take_pdf_request());
    assert!(app.report().is_none());
}

#[test]
fn log_lines_lose_their_timestamp_and_level() {
    assert_eq!(strip_log_prefix("2025-01-01T00:00:00Z  INFO hello world "), "hello world");
    assert_eq!(strip_log_prefix("plain"), "plain");
}

#[test]
fn numbers_in_logs_parse() {
    assert_eq!(parse_usize(&"42".chars().collect()), Some(42));
    assert_eq!(parse_usize(&"4x".chars().collect()), None);
    assert_eq!(parse_usize(&"".chars().collect()), None);
}

#[test]
fn display_helpers() {
    assert_eq!(scroll_start(50, 12, 0), 38);
    assert_eq!(scroll_start(50, 12, 40), 0);
    assert_eq!(scroll_start(5, 12, 3), 0);
    assert_eq!(elapsed_text(59), "59s");
    assert_eq!(elapsed_text(61), "1m01s");
    assert_eq!(elapsed_text(3725), "1h02m");
    assert_eq!(task_mark(0, 1), TaskMark::Done);
    assert_eq!(task_mark(1, 1), TaskMark::Current);
    assert_eq!(task_mark(2, 1), TaskMark::Waiting);
    let (d, t) = log_display("✗ 失败");
    assert_eq!(d, "✗ 失败");
    assert_eq!(t, LogTone::Failure);
    assert_eq!(log_display("ℹ x").1, LogTone::Info);
    assert_eq!(log_display("⏭ skip").1, LogTone::Progress);
    assert_eq!(log_display(&"y".repeat(70)).0.len(), 60);
    assert_eq!(tasks_summary(&plan(&["a", "b"]).sub_tasks), "a  ◆  b");
}

#[test]
fn log_keeps_the_fifty_latest_lines() {
    let mut app = App::new("q".into(), false);
    assert!(app.apply_event(TuiEvent::Progress(ProgressUpdate::Started { max_iterations: 2, tasks: vec!["t".into()] }), 0));
    for i in 0..51 {
        assert!(app.apply_event(TuiEvent::LogLine(format!("line {i}")), 0));
    }
    assert!(app.apply_event(TuiEvent::LogLine("   ".into()), 0));
    match &app.phase {
        Phase::Researching(r) => {
            assert_eq!(r.log_lines.len(), 50);
            assert_eq!(r.log_lines[0], "line 1");
            assert_eq!(r.log_lines[49], "line 50");
        }
        _ => panic!("expected research"),
    }
}

#[test]
fn finished_report_asks_for_the_pdf_once_and_holds_the_quit_keys() {
    let zero = Ratio { num: 0, den: 1 };
    let report = ResearchReport {
        query_id: 1,
        title: "报告".into(),
        sections: vec![],
        citation_graph: CitationGraph::empty(),
        quality: QualityTally { coverage: zero, freshness: zero, depth: zero },
        argument_skeleton: None,
        generated_at: 0,
    };
    let mut app = App::new("q".into(), false);
    assert!(app.apply_event(TuiEvent::Progress(ProgressUpdate::Report(report)), 5));
    assert!(app.take_pdf_request());
    assert!(!app.take_pdf_request());
    assert_eq!(app.report().map(|r| r.title.clone()), Some("报告".to_string()));
    for key in [Input::Char('q'), Input::Esc, Input::CtrlChar('q'), Input::CtrlChar('c')] {
        assert!(app.on(key, 6).0.is_none());
    }
    assert!(app.report().is_some());
    assert!(app.apply_event(TuiEvent::PdfDone, 7));
    assert!(matches!(app.on(Input::Char('q'), 8).0, Some(Msg::Quit)));
}
