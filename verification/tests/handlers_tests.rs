use arboretum::db::{LogRecord, SpanEventRecord, SpanRecord};
use arboretum::handlers::{
    assemble_records, deduplicate_records, first_records, sort_records, AppError, LogResponse, PaginatedResponse,
    RecordQueryParams, RecordResponse, SpanEventResponse, SpanResponse,
};
use arboretum::level::Level;

fn log(timestamp: i64, trace: Option<&str>, message: &str) -> LogResponse {
    LogResponse {
        timestamp,
        service_name: Some("test".to_string()),
        level: Some(Level::Info),
        target: None,
        message: Some(message.to_string()),
        span_id: None,
        trace_id: trace.map(|t| t.to_string()),
        attributes: None,
    }
}

#[test]
fn test_deduplicate_records() {
    let log1 = LogResponse {
        timestamp: 100,
        service_name: Some("test".to_string()),
        level: Some(Level::Info),
        target: Some("test".to_string()),
        message: Some("msg1".to_string()),
        span_id: None,
        trace_id: Some("trace1".to_string()),
        attributes: None,
    };

    let log2 = log1.clone();

    let span1 = SpanResponse {
        timestamp: 100,
        trace_id: "trace1".to_string(),
        span_id: "span1".to_string(),
        parent_span_id: None,
        service_name: Some("test".to_string()),
        name: "test_span".to_string(),
        kind: None,
        start_time: 100,
        end_time: Some(200),
        level: Some(Level::Info),
        target: None,
        attributes: None,
        events: None,
        status: None,
    };

    let span2 = span1.clone();

    let mut records = vec![
        RecordResponse::Log(log1),
        RecordResponse::Log(log2),
        RecordResponse::Span(span1),
        RecordResponse::Span(span2),
    ];

    records.sort_by(|a, b| a.cmp(b));

    assert_eq!(records.len(), 4);

    deduplicate_records(&mut records);

    assert_eq!(records.len(), 2);

    let log_count = records.iter().filter(|r| matches!(r, RecordResponse::Log(_))).count();
    let span_count = records.iter().filter(|r| matches!(r, RecordResponse::Span(_))).count();

    assert_eq!(log_count, 1);
    assert_eq!(span_count, 1);
}

#[test]
fn test_record_sorting_with_same_timestamp() {
    let log = LogResponse {
        timestamp: 100,
        service_name: Some("test".to_string()),
        level: Some(Level::Info),
        target: None,
        message: Some("log".to_string()),
        span_id: None,
        trace_id: None,
        attributes: None,
    };

    let span = SpanResponse {
        timestamp: 100,
        trace_id: "trace1".to_string(),
        span_id: "span1".to_string(),
        parent_span_id: None,
        service_name: Some("test".to_string()),
        name: "span".to_string(),
        kind: None,
        start_time: 100,
        end_time: Some(200),
        level: Some(Level::Info),
        target: None,
        attributes: None,
        events: None,
        status: None,
    };

    let event = SpanEventResponse {
        timestamp: 100,
        span_id: "span1".to_string(),
        trace_id: "trace1".to_string(),
        service_name: Some("test".to_string()),
        name: "event".to_string(),
        level: Some(Level::Info),
        target: None,
        attributes: None,
    };

    let mut records = vec![
        RecordResponse::Event(event),
        RecordResponse::Span(span),
        RecordResponse::Log(log),
    ];

    records.sort_by(|a, b| a.cmp(b));

    assert!(matches!(records[0], RecordResponse::Log(_)));
    assert!(matches!(records[1], RecordResponse::Span(_)));
    assert!(matches!(records[2], RecordResponse::Event(_)));
}

#[test]
fn sort_records_is_stable_and_orders_keys() {
    let records = vec![
        RecordResponse::Log(log(5, Some("b"), "first b")),
        RecordResponse::Log(log(5, Some("a"), "a")),
        RecordResponse::Log(log(1, None, "early")),
        RecordResponse::Log(log(5, Some("b"), "second b")),
        RecordResponse::Log(log(5, None, "no trace")),
    ];
    let sorted = sort_records(records);
    let messages: Vec<String> = sorted
        .iter()
        .map(|r| match r {
            RecordResponse::Log(l) => l.message.clone().unwrap(),
            _ => unreachable!(),
        })
        .collect();
    assert_eq!(messages, vec!["early", "no trace", "a", "first b", "second b"]);

    let mut dedup = sorted;
    deduplicate_records(&mut dedup);
    let messages: Vec<String> = dedup
        .iter()
        .map(|r| match r {
            RecordResponse::Log(l) => l.message.clone().unwrap(),
            _ => unreachable!(),
        })
        .collect();
    // The first of each run of equal keys stays.
    assert_eq!(messages, vec!["early", "no trace", "a", "first b"]);
}

#[test]
fn record_order_and_equality() {
    let a = RecordResponse::Log(log(1, Some("x"), "m"));
    let b = RecordResponse::Log(log(1, Some("x"), "other message"));
    let c = RecordResponse::Log(log(2, Some("x"), "m"));
    assert_eq!(a.cmp(&b), std::cmp::Ordering::Equal);
    assert_eq!(a.order(&c), -1);
    assert_eq!(c.order(&a), 1);
    assert!(a.same_key(&b));
    assert!(!a.same_key(&c));
}

#[test]
fn paginated_response_truncates_and_sets_cursor() {
    let records = vec![
        RecordResponse::Log(log(30, None, "a")),
        RecordResponse::Log(log(50, None, "b")),
        RecordResponse::Log(log(40, None, "c")),
    ];
    let page = PaginatedResponse::from_records(records.clone(), 2);
    assert_eq!(page.records.len(), 2);
    assert_eq!(page.since, Some(50));
    let page = PaginatedResponse::from_records(records, 0);
    assert_eq!(page.records.len(), 0);
    assert_eq!(page.since, None);
}

fn log_record(timestamp: i64, trace: Option<&str>, attributes: Option<&str>) -> LogRecord {
    LogRecord {
        timestamp,
        service_name: Some("svc".to_string()),
        level: Some(Level::Warn),
        target: Some("mod".to_string()),
        message: Some("m".to_string()),
        span_id: None,
        trace_id: trace.map(|t| t.to_string()),
        attributes: attributes.map(|a| a.to_string()),
    }
}

#[test]
fn assemble_records_sorts_dedups_and_pages() {
    let logs = vec![
        log_record(20, Some("t1"), Some("{\"k\":1}")),
        log_record(10, None, Some("not json")),
        log_record(20, Some("t1"), None),
    ];
    let spans = vec![SpanRecord {
        trace_id: "t1".to_string(),
        span_id: "s1".to_string(),
        parent_span_id: None,
        service_name: None,
        name: "op".to_string(),
        kind: Some("Server".to_string()),
        start_time: 15,
        end_time: Some(25),
        level: None,
        target: None,
        attributes: None,
        events: Some("[{\"name\":\"e\",\"time\":16}]".to_string()),
        status: None,
    }];
    let events = vec![SpanEventRecord {
        span_id: "s1".to_string(),
        trace_id: "t1".to_string(),
        service_name: None,
        name: "e".to_string(),
        timestamp: 16,
        level: None,
        target: None,
        attributes: None,
    }];
    let page = assemble_records(logs, spans, events, 10);
    assert_eq!(page.records.len(), 4);
    let times: Vec<i64> = page.records.iter().map(|r| r.timestamp()).collect();
    assert_eq!(times, vec![10, 15, 16, 20]);
    assert_eq!(page.since, Some(20));
    match &page.records[0] {
        RecordResponse::Log(l) => assert_eq!(l.attributes, None),
        _ => panic!("expected a log"),
    }
    match &page.records[3] {
        RecordResponse::Log(l) => assert_eq!(l.attributes.as_deref(), Some("{\"k\":1}")),
        _ => panic!("expected a log"),
    }
    match &page.records[1] {
        RecordResponse::Span(s) => {
            assert_eq!(s.timestamp, 15);
            assert_eq!(s.events.as_deref(), Some("[{\"name\":\"e\",\"time\":16}]"));
        }
        _ => panic!("expected a span"),
    }

    let page = assemble_records(vec![log_record(1, None, None), log_record(2, None, None)], vec![], vec![], 1);
    assert_eq!(page.records.len(), 1);
    assert_eq!(page.since, Some(1));
}

#[test]
fn app_error_status_and_message() {
    let e = AppError::BadRequest("bad".to_string());
    assert_eq!(e.status_code(), 400);
    assert_eq!(e.message(), "bad");
    let e = AppError::Internal("db down".to_string());
    assert_eq!(e.status_code(), 500);
    assert_eq!(e.message(), "db down");
}

#[test]
fn query_params_to_filters() {
    let params = RecordQueryParams {
        service_name: Some("svc".to_string()),
        level: Some("warn".to_string()),
        span_id: Some("s1".to_string()),
        trace_id: Some("t1".to_string()),
        lookback: Some(30),
        since: Some(5),
        ..Default::default()
    };
    let f = params.filters().expect("valid filters");
    assert_eq!(f.logs.common.level, Some(Level::Warn));
    assert_eq!(f.logs.common.service_name.as_deref(), Some("svc"));
    assert_eq!(f.logs.cursor.starting_at, Some(5));
    assert_eq!(f.logs.cursor.lookback_seconds, Some(30));
    assert_eq!(f.logs.span_id.as_deref(), Some("s1"));
    assert_eq!(f.spans.trace_id.as_deref(), Some("t1"));
    assert_eq!(f.events.span_id.as_deref(), Some("s1"));

    let bad = RecordQueryParams { level: Some("foo".to_string()), since: Some(5), ..Default::default() };
    match bad.filters() {
        Err(AppError::BadRequest(m)) => assert_eq!(m, "Invalid level: Invalid level: foo"),
        other => panic!("expected a bad request, got {:?}", other),
    }

    let none = RecordQueryParams::default().filters().expect("no filters");
    assert_eq!(none.logs.common.level, None);
    assert_eq!(none.spans.cursor.starting_at, None);
}

#[test]
fn result_limit_and_first_records() {
    assert_eq!(RecordQueryParams::default().result_limit(), 1000);
    let p = RecordQueryParams { limit: Some(2), ..Default::default() };
    assert_eq!(p.result_limit(), 2);
    assert_eq!(first_records(vec![1, 2, 3], 2), vec![1, 2]);
    assert_eq!(first_records(vec![1, 2, 3], 5), vec![1, 2, 3]);
    assert_eq!(first_records(vec![1, 2, 3], 0), Vec::<i32>::new());
}
