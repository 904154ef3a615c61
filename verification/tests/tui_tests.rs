use arboretum::handlers::{LogResponse, PaginatedResponse, RecordKey, RecordResponse, SpanEventResponse, SpanResponse};
use arboretum::level::Level;
use arboretum::tui::{
    format_record, freshness, update_age, Freshness, match_attr, App, BackgroundPoller, FilterDirective, KeyOutcome, RecordFilter,
    SegmentStyle, SharedState, TuiConfig, ViewKey, ViewState,
};

fn log_at(timestamp: i64, level: Option<Level>, target: Option<&str>, message: &str) -> LogResponse {
    LogResponse {
        timestamp,
        service_name: None,
        level,
        target: target.map(|t| t.to_string()),
        message: Some(message.to_string()),
        span_id: None,
        trace_id: None,
        attributes: None,
    }
}

fn span_at(timestamp: i64, span_id: &str) -> SpanResponse {
    SpanResponse {
        timestamp,
        trace_id: "trace1".to_string(),
        span_id: span_id.to_string(),
        parent_span_id: None,
        service_name: None,
        name: format!("span {}", span_id),
        kind: Some("Internal".to_string()),
        start_time: timestamp,
        end_time: Some(timestamp + 5),
        level: Some(Level::Info),
        target: Some("svc::db".to_string()),
        attributes: None,
        events: None,
        status: None,
    }
}

fn line_text(record: &RecordResponse) -> String {
    format_record(record).segments.iter().map(|s| s.text.clone()).collect::<Vec<_>>().join("")
}

#[test]
fn test_filter_parsing() {
    let filter = RecordFilter::parse("my_module=info,other=debug");
    assert_eq!(filter.directives.len(), 2);

    match &filter.directives[0] {
        FilterDirective::Target { prefix, level } => {
            assert_eq!(prefix, "my_module");
            assert_eq!(*level, Level::Info);
        }
        _ => panic!("Expected Target directive"),
    }

    match &filter.directives[1] {
        FilterDirective::Target { prefix, level } => {
            assert_eq!(prefix, "other");
            assert_eq!(*level, Level::Debug);
        }
        _ => panic!("Expected Target directive"),
    }
}

#[test]
fn test_filter_parsing_with_global() {
    let filter = RecordFilter::parse("=warn,my_module=info");
    assert_eq!(filter.directives.len(), 2);

    match &filter.directives[0] {
        FilterDirective::Global { level } => {
            assert_eq!(*level, Level::Warn);
        }
        _ => panic!("Expected Global directive"),
    }

    match &filter.directives[1] {
        FilterDirective::Target { prefix, level } => {
            assert_eq!(prefix, "my_module");
            assert_eq!(*level, Level::Info);
        }
        _ => panic!("Expected Target directive"),
    }
}

#[test]
fn test_filter_parsing_bare_level() {
    let filter = RecordFilter::parse("warn");
    assert_eq!(filter.directives.len(), 1);

    match &filter.directives[0] {
        FilterDirective::Global { level } => {
            assert_eq!(*level, Level::Warn);
        }
        _ => panic!("Expected Global directive"),
    }
}

#[test]
fn test_filter_parsing_bare_with_targets() {
    let filter = RecordFilter::parse("info,my_module=debug");
    assert_eq!(filter.directives.len(), 2);

    match &filter.directives[0] {
        FilterDirective::Global { level } => {
            assert_eq!(*level, Level::Info);
        }
        _ => panic!("Expected Global directive"),
    }

    match &filter.directives[1] {
        FilterDirective::Target { prefix, level } => {
            assert_eq!(prefix, "my_module");
            assert_eq!(*level, Level::Debug);
        }
        _ => panic!("Expected Target directive"),
    }
}

#[test]
fn test_record_filter_matching() {
    let filter = RecordFilter::parse("my_module=warn");

    let log_warn = LogResponse {
        timestamp: 0,
        service_name: None,
        level: Some(Level::Warn),
        target: Some("my_module::submodule".to_string()),
        message: Some("test".to_string()),
        span_id: None,
        trace_id: None,
        attributes: None,
    };

    let log_info = LogResponse {
        timestamp: 0,
        service_name: None,
        level: Some(Level::Info),
        target: Some("my_module::submodule".to_string()),
        message: Some("test".to_string()),
        span_id: None,
        trace_id: None,
        attributes: None,
    };

    let record_warn = RecordResponse::Log(log_warn);
    let record_info = RecordResponse::Log(log_info);

    assert!(record_warn.matches_filter(&filter));
    assert!(!record_info.matches_filter(&filter));
}

#[test]
fn test_record_filter_with_no_target() {
    let filter = RecordFilter::parse("warn");

    let log_error_no_target = LogResponse {
        timestamp: 0,
        service_name: None,
        level: Some(Level::Error),
        target: None,
        message: Some("error message".to_string()),
        span_id: None,
        trace_id: None,
        attributes: None,
    };

    let log_info_no_target = LogResponse {
        timestamp: 0,
        service_name: None,
        level: Some(Level::Info),
        target: None,
        message: Some("info message".to_string()),
        span_id: None,
        trace_id: None,
        attributes: None,
    };

    let record_error = RecordResponse::Log(log_error_no_target);
    let record_info = RecordResponse::Log(log_info_no_target);

    assert!(record_error.matches_filter(&filter));
    assert!(!record_info.matches_filter(&filter));
}

#[test]
fn test_record_filter_specific_before_global() {
    let filter = RecordFilter::parse("my_module=debug,warn");

    let log_debug_my_module = LogResponse {
        timestamp: 0,
        service_name: None,
        level: Some(Level::Debug),
        target: Some("my_module::test".to_string()),
        message: Some("test".to_string()),
        span_id: None,
        trace_id: None,
        attributes: None,
    };

    let log_debug_other = LogResponse {
        timestamp: 0,
        service_name: None,
        level: Some(Level::Debug),
        target: Some("other_module".to_string()),
        message: Some("test".to_string()),
        span_id: None,
        trace_id: None,
        attributes: None,
    };

    let record_my_module = RecordResponse::Log(log_debug_my_module);
    let record_other = RecordResponse::Log(log_debug_other);

    assert!(record_my_module.matches_filter(&filter));
    assert!(!record_other.matches_filter(&filter));
}

#[test]
fn test_directive_order_matters() {
    let filter1 = RecordFilter::parse("debug,my_module=error");

    let log = LogResponse {
        timestamp: 0,
        service_name: None,
        level: Some(Level::Info),
        target: Some("my_module::test".to_string()),
        message: Some("test".to_string()),
        span_id: None,
        trace_id: None,
        attributes: None,
    };

    let record = RecordResponse::Log(log.clone());
    assert!(record.matches_filter(&filter1));

    let filter2 = RecordFilter::parse("my_module=error,debug");
    let record2 = RecordResponse::Log(log);
    assert!(!record2.matches_filter(&filter2));
}

#[test]
fn filter_parsing_skips_empty_and_invalid_parts() {
    let filter = RecordFilter::parse(" , nonsense , a=loud, b = error ,,trace ");
    assert_eq!(filter.directives.len(), 2);
    match &filter.directives[0] {
        FilterDirective::Target { prefix, level } => {
            assert_eq!(prefix, "b");
            assert_eq!(*level, Level::Error);
        }
        _ => panic!("Expected Target directive"),
    }
    match &filter.directives[1] {
        FilterDirective::Global { level } => assert_eq!(*level, Level::Trace),
        _ => panic!("Expected Global directive"),
    }
    assert_eq!(RecordFilter::parse("").directives.len(), 0);
}

#[test]
fn empty_filter_shows_everything_and_levelless_records_are_hidden() {
    let none = RecordFilter::parse("");
    let record = RecordResponse::Log(log_at(1, None, None, "x"));
    assert!(record.matches_filter(&none));
    // A record without a level never passes a directive that decides.
    assert!(!record.matches_filter(&RecordFilter::parse("trace")));
    // A target directive does not decide for a record without a target.
    assert!(record.matches_filter(&RecordFilter::parse("app=error")));
}

#[test]
fn match_attr_hides_code_and_displayed_keys() {
    assert!(match_attr("idle_ns"));
    assert!(match_attr("busy_ns"));
    assert!(match_attr("target"));
    assert!(match_attr("level"));
    assert!(match_attr("code.filepath"));
    assert!(match_attr("code."));
    assert!(!match_attr("code"));
    assert!(!match_attr("http.method"));
    assert!(!match_attr("levels"));
    assert!(!match_attr(""));
}

#[test]
fn format_record_of_log_and_span() {
    let log = RecordResponse::Log(LogResponse {
        attributes: Some("{\"user\":\"ann\",\"code.line\":12,\"tries\":3,\"target\":\"x\"}".to_string()),
        ..log_at(1_700_000_000_123_456_789, Some(Level::Warn), Some("app::auth"), "denied")
    });
    assert_eq!(line_text(&log), "2023-11-14 22:13:20 WARN  app::auth: denied tries=3 user=\"ann\"");
    assert_eq!(format_record(&log).segments.last().unwrap().style, SegmentStyle::Detail);
    let line = format_record(&log);
    assert_eq!(line.segments[1].style, SegmentStyle::Level(Level::Warn));
    assert_eq!(line.segments[0].style, SegmentStyle::Timestamp);

    let span = RecordResponse::Span(span_at(0, "ab"));
    assert_eq!(line_text(&span), "1970-01-01 00:00:00 INFO  svc::db: span: span ab [Internal]");

    let event = RecordResponse::Event(SpanEventResponse {
        timestamp: -1_500_000_000,
        span_id: "ab".to_string(),
        trace_id: "t".to_string(),
        service_name: None,
        name: "retry".to_string(),
        level: None,
        target: None,
        attributes: None,
    });
    // Seconds are truncated toward zero.
    assert_eq!(line_text(&event), "1969-12-31 23:59:59 event: retry");
}

#[test]
fn format_record_unknown_time() {
    let log = RecordResponse::Log(log_at(i64::MIN, None, None, "far"));
    assert_eq!(line_text(&log), "1677-09-21 00:12:44 far");
}

#[test]
fn shared_state_deduplicates_trims_and_sorts() {
    let mut state = SharedState::new(3);
    state.add_records(vec![
        RecordResponse::Log(log_at(30, Some(Level::Info), None, "c")),
        RecordResponse::Log(log_at(10, Some(Level::Info), None, "a")),
        RecordResponse::Log(log_at(10, Some(Level::Info), None, "a again")),
    ]);
    // The second log at 10 has the same key (timestamp, no trace) and is skipped.
    assert_eq!(state.entries.len(), 2);
    assert_eq!(state.entries[0].0.timestamp(), 10);
    assert_eq!(state.entries[1].0.timestamp(), 30);

    state.add_records(vec![
        RecordResponse::Span(span_at(20, "s1")),
        RecordResponse::Span(span_at(5, "s2")),
    ]);
    // Four records, at most three kept: the oldest by timestamp (the span at 5) falls off.
    assert_eq!(state.entries.len(), 3);
    let times: Vec<i64> = state.entries.iter().map(|e| e.0.timestamp()).collect();
    assert_eq!(times, vec![10, 20, 30]);

    // An older record than all held ones falls off at once when there is no room.
    let mut small = SharedState::new(2);
    small.add_records(vec![
        RecordResponse::Log(log_at(10, None, None, "a")),
        RecordResponse::Log(log_at(20, None, None, "b")),
    ]);
    small.add_records(vec![RecordResponse::Log(log_at(5, None, None, "old"))]);
    let times: Vec<i64> = small.entries.iter().map(|e| e.0.timestamp()).collect();
    assert_eq!(times, vec![10, 20]);

    let key = RecordKey::Span { span_id: "s1".to_string() };
    let line = state.get_formatted_line(&key).expect("line for s1");
    assert_eq!(line.segments[0].text, "1970-01-01 00:00:00 ");
    assert!(state.get_formatted_line(&RecordKey::Span { span_id: "zz".to_string() }).is_none());
}

#[test]
fn tui_config_and_view_defaults() {
    let c = TuiConfig::default();
    assert_eq!(c.poll_interval_ms, 500);
    assert_eq!(c.max_records, 1000);
    assert_eq!(c.lookback, 10);
    let v = ViewState::default();
    assert_eq!(v, ViewState { spans: true, events: true, logs: true, editing_filter: false });
}

#[test]
fn app_key_handling() {
    let mut app = App::new("http://localhost:3333".to_string());
    assert_eq!(app.handle_key(ViewKey::Char('s'), ""), KeyOutcome::Continue);
    assert!(!app.view.spans);
    assert_eq!(app.handle_key(ViewKey::Char('e'), ""), KeyOutcome::Continue);
    assert!(!app.view.events);
    assert_eq!(app.handle_key(ViewKey::Char('l'), ""), KeyOutcome::Continue);
    assert!(!app.view.logs);
    assert_eq!(app.handle_key(ViewKey::Char('s'), ""), KeyOutcome::Continue);
    assert!(app.view.spans);
    assert_eq!(app.handle_key(ViewKey::Char('x'), ""), KeyOutcome::Continue);
    assert_eq!(app.handle_key(ViewKey::Enter, "warn"), KeyOutcome::Continue);
    assert_eq!(app.filter.directives.len(), 0);

    assert_eq!(app.handle_key(ViewKey::Char('f'), ""), KeyOutcome::Continue);
    assert!(app.view.editing_filter);
    // While editing, letters go to the text input, even 'q'.
    assert_eq!(app.handle_key(ViewKey::Char('q'), "w"), KeyOutcome::EditInput);
    assert_eq!(app.handle_key(ViewKey::Other, "wa"), KeyOutcome::EditInput);
    assert_eq!(app.handle_key(ViewKey::Enter, "warn,db=debug"), KeyOutcome::Continue);
    assert!(!app.view.editing_filter);
    assert_eq!(app.filter.directives.len(), 2);

    assert_eq!(app.handle_key(ViewKey::Char('f'), ""), KeyOutcome::Continue);
    assert_eq!(app.handle_key(ViewKey::Esc, "error"), KeyOutcome::Continue);
    assert!(!app.view.editing_filter);
    // Esc leaves the filter in force unchanged.
    assert_eq!(app.filter.directives.len(), 2);

    assert_eq!(app.handle_key(ViewKey::Char('q'), ""), KeyOutcome::Quit);
}

#[test]
fn app_visible_lines_and_texts() {
    let mut state = SharedState::new(10);
    state.add_records(vec![
        RecordResponse::Log(log_at(1, Some(Level::Debug), Some("db"), "low")),
        RecordResponse::Log(log_at(2, Some(Level::Error), Some("db"), "high")),
        RecordResponse::Span(span_at(3, "s1")),
    ]);
    let mut app = App::new("http://h:1".to_string());
    assert_eq!(app.visible_lines(&state).len(), 3);
    app.update_filter("warn");
    let lines = app.visible_lines(&state);
    assert_eq!(lines.len(), 1);
    assert_eq!(lines[0].segments.last().unwrap().text, "high");
    app.update_filter("");
    app.handle_key(ViewKey::Char('l'), "");
    let lines = app.visible_lines(&state);
    assert_eq!(lines.len(), 1);
    assert_eq!(lines[0].segments.last().unwrap().text, " [Internal]");

    assert_eq!(
        app.status_line(42),
        "Arboretum TUI | Server: http://h:1 | Records: 42 | Press 'f' to filter, 'q' to quit"
    );
    assert_eq!(app.filter_display(""), "none (press 'f' to edit)");
    assert_eq!(app.filter_display("warn"), "warn (press 'f' to edit)");
    app.handle_key(ViewKey::Char('f'), "");
    assert_eq!(app.filter_display("war"), "war");
}

#[test]
fn poller_urls_and_pages() {
    let config = TuiConfig { lookback: 60, poll_interval_ms: 100, max_records: 2 };
    let mut poller = BackgroundPoller::new("http://h:3333".to_string(), config);
    assert_eq!(poller.request_url(), "http://h:3333/api/v1/records?lookback=60");

    let mut state = SharedState::new(2);
    let page = PaginatedResponse {
        records: vec![
            RecordResponse::Log(log_at(100, None, None, "a")),
            RecordResponse::Log(log_at(200, None, None, "b")),
        ],
        since: Some(200),
    };
    assert_eq!(poller.apply_page(page, &mut state), 2);
    assert_eq!(poller.cursor, Some(200));
    assert_eq!(poller.request_url(), "http://h:3333/api/v1/records?cursor=200");
    assert_eq!(state.entries.len(), 2);

    // Only records newer than the cursor are taken.
    let page = PaginatedResponse {
        records: vec![
            RecordResponse::Log(log_at(200, None, None, "b")),
            RecordResponse::Log(log_at(150, None, None, "old")),
            RecordResponse::Log(log_at(300, None, None, "c")),
        ],
        since: Some(300),
    };
    assert_eq!(poller.apply_page(page, &mut state), 1);
    assert_eq!(poller.cursor, Some(300));
    let times: Vec<i64> = state.entries.iter().map(|e| e.0.timestamp()).collect();
    assert_eq!(times, vec![200, 300]);

    // An empty page keeps the cursor and the store.
    let page = PaginatedResponse { records: vec![], since: None };
    assert_eq!(poller.apply_page(page, &mut state), 0);
    assert_eq!(poller.cursor, Some(300));
    assert_eq!(state.entries.len(), 2);

    let negative = BackgroundPoller { cursor: Some(-7), ..BackgroundPoller::new("x".to_string(), config) };
    assert_eq!(negative.request_url(), "x/api/v1/records?cursor=-7");
}

#[test]
fn ctrl_c_quits_in_any_mode() {
    let mut app = App::new("u".to_string());
    assert_eq!(app.handle_key(ViewKey::Control('c'), ""), KeyOutcome::Quit);
    app.handle_key(ViewKey::Char('f'), "");
    assert!(app.view.editing_filter);
    assert_eq!(app.handle_key(ViewKey::Control('c'), "abc"), KeyOutcome::Quit);
    // Other control keys edit the text while editing.
    assert_eq!(app.handle_key(ViewKey::Control('a'), "abc"), KeyOutcome::EditInput);
    app.handle_key(ViewKey::Esc, "");
    // Outside editing a control character acts as the character.
    assert_eq!(app.handle_key(ViewKey::Control('s'), ""), KeyOutcome::Continue);
    assert!(!app.view.spans);
    assert_eq!(app.handle_key(ViewKey::Control('q'), ""), KeyOutcome::Quit);
}

#[test]
fn freshness_of_updates() {
    assert_eq!(freshness(0, 500), Freshness::Current);
    assert_eq!(freshness(1000, 500), Freshness::Current);
    assert_eq!(freshness(1001, 500), Freshness::Late);
    assert_eq!(freshness(5000, 500), Freshness::Late);
    assert_eq!(freshness(5001, 500), Freshness::Stale);
    assert_eq!(freshness(u64::MAX, u64::MAX), Freshness::Current);
    assert_eq!(freshness(1, 0), Freshness::Stale);
    assert_eq!(update_age(0), "Updated 0s ago");
    assert_eq!(update_age(12_999), "Updated 12s ago");
}
