use arboretum::db::{
    age_cleanup_statements, count_cleanup_statements, children_statement, compute_lookback_cutoff, retention_cutoff_at, CommonFilters, CursorFilter,
    FilterError, LogFilter, LogRecord, SpanEventFilter, SpanEventRecord, SpanFilter, SpanRecord,
    SpanTreeWalk, SqlParam,
};
use arboretum::level::Level;

fn show(params: &[SqlParam]) -> Vec<String> {
    params
        .iter()
        .map(|p| match p {
            SqlParam::Null => "NULL".to_string(),
            SqlParam::Int(n) => n.to_string(),
            SqlParam::Text(s) => format!("'{}'", s),
        })
        .collect()
}

fn span(span_id: &str, parent: Option<&str>) -> SpanRecord {
    SpanRecord {
        trace_id: "trace789".to_string(),
        span_id: span_id.to_string(),
        parent_span_id: parent.map(|p| p.to_string()),
        service_name: Some("test-service".to_string()),
        name: format!("{}_span", span_id),
        kind: Some("internal".to_string()),
        start_time: 1000,
        end_time: Some(2000),
        level: Some(Level::Info),
        target: Some("test::module".to_string()),
        attributes: None,
        events: None,
        status: None,
    }
}

#[test]
fn log_filter_statement_with_every_clause() {
    let filter = LogFilter {
        common: CommonFilters {
            service_name: Some("service1".to_string()),
            level: Some(Level::Error),
            target: Some("module1".to_string()),
            message: Some("occurred".to_string()),
        },
        cursor: CursorFilter { lookback_seconds: Some(10), starting_at: Some(77) },
        span_id: Some("span123".to_string()),
    };
    let q = filter.statement_at(100_000_000_000).expect("statement");
    assert_eq!(
        q.text,
        "SELECT id, timestamp, service_name, level, target, message, span_id, trace_id, attributes FROM logs WHERE 1=1 AND timestamp > ? AND timestamp > ? AND service_name = ? AND level >= ? AND target = ? AND message LIKE ? AND span_id = ? ORDER BY timestamp ASC"
    );
    assert_eq!(
        show(&q.params),
        vec!["90000000000", "77", "'service1'", "4", "'module1'", "'%occurred%'", "'span123'"]
    );
}

#[test]
fn log_filter_statement_plain_and_out_of_range() {
    let q = LogFilter::default().statement_at(0).expect("statement");
    assert_eq!(
        q.text,
        "SELECT id, timestamp, service_name, level, target, message, span_id, trace_id, attributes FROM logs WHERE 1=1 ORDER BY timestamp ASC"
    );
    assert!(q.params.is_empty());

    let far = LogFilter {
        cursor: CursorFilter { lookback_seconds: Some(i64::MAX), starting_at: None },
        ..Default::default()
    };
    assert_eq!(far.statement_at(0).err(), Some(FilterError::TimestampOutOfRange));
    // With the clock, a lookback of a minute always fits.
    let near = LogFilter { cursor: CursorFilter { lookback_seconds: Some(60), starting_at: None }, ..Default::default() };
    let q = near.statement().expect("statement");
    assert_eq!(q.params.len(), 1);
}

#[test]
fn span_and_event_filter_statements() {
    let f = SpanFilter {
        span_id: Some("s".to_string()),
        trace_id: Some("t".to_string()),
        ..Default::default()
    };
    let q = f.statement_at(0).expect("statement");
    assert_eq!(
        q.text,
        "SELECT trace_id, span_id, parent_span_id, service_name, name, kind, start_time, end_time, level, target, attributes, events, status FROM spans WHERE 1=1 AND span_id = ? AND trace_id = ? ORDER BY start_time ASC"
    );
    assert_eq!(show(&q.params), vec!["'s'", "'t'"]);

    let f = SpanEventFilter {
        cursor: CursorFilter { lookback_seconds: None, starting_at: Some(5) },
        common: CommonFilters { level: Some(Level::Trace), ..Default::default() },
        ..Default::default()
    };
    let q = f.statement().expect("statement");
    assert_eq!(
        q.text,
        "SELECT span_id, trace_id, service_name, name, timestamp, level, target, attributes FROM span_events WHERE 1=1 AND timestamp > ? AND level >= ? ORDER BY timestamp ASC"
    );
    assert_eq!(show(&q.params), vec!["5", "0"]);
}

#[test]
fn cursor_and_common_filters_append() {
    let mut query = "SELECT 1 WHERE 1=1".to_string();
    let mut params = Vec::new();
    let cursor = CursorFilter { lookback_seconds: Some(2), starting_at: None };
    cursor.filter_column_at("ts", 5_000_000_000, &mut query, &mut params).expect("fits");
    CommonFilters { target: Some("x".to_string()), ..Default::default() }.filter_query(&mut query, &mut params);
    assert_eq!(query, "SELECT 1 WHERE 1=1 AND ts > ? AND target = ?");
    assert_eq!(show(&params), vec!["3000000000", "'x'"]);

    let mut query2 = query.clone();
    let before = params.len();
    let err = CursorFilter { lookback_seconds: Some(-(i64::MAX / 1_000_000_000) - 1), starting_at: Some(1) }
        .filter_column_at("ts", i64::MAX, &mut query2, &mut params);
    assert_eq!(err, Err(FilterError::TimestampOutOfRange));
    assert_eq!(query2, query);
    assert_eq!(params.len(), before);
}

#[test]
fn lookback_and_retention_cutoffs() {
    assert_eq!(compute_lookback_cutoff(10_000_000_000, 3), Some(7_000_000_000));
    assert_eq!(compute_lookback_cutoff(i64::MIN, 1), None);
    assert_eq!(retention_cutoff_at(7_200_000_000_000, 7200), Some(0));
    assert_eq!(retention_cutoff_at(0, -10), Some(10_000_000_000));
    assert_eq!(retention_cutoff_at(i64::MIN, i64::MAX), None);
}

#[test]
fn insert_statements() {
    let log = LogRecord {
        timestamp: 1000,
        service_name: Some("test-service".to_string()),
        level: Some(Level::Info),
        target: Some("test::module".to_string()),
        message: Some("Test message".to_string()),
        span_id: Some("span123".to_string()),
        trace_id: None,
        attributes: None,
    };
    let q = log.insert_statement(55);
    assert_eq!(
        q.text,
        "INSERT INTO logs (timestamp, service_name, level, target, message, span_id, trace_id, attributes, created_at) VALUES (?1, ?2, ?3, ?4, ?5, ?6, ?7, ?8, ?9)"
    );
    assert_eq!(
        show(&q.params),
        vec!["1000", "'test-service'", "2", "'test::module'", "'Test message'", "'span123'", "NULL", "NULL", "55"]
    );

    let q = span("parent", None).insert_statement(9);
    assert!(q.text.starts_with("INSERT OR REPLACE INTO spans"));
    assert_eq!(
        show(&q.params),
        vec![
            "'trace789'", "'parent'", "NULL", "'test-service'", "'parent_span'", "'internal'", "1000",
            "2000", "2", "'test::module'", "NULL", "NULL", "NULL", "9"
        ]
    );

    let ev = SpanEventRecord {
        span_id: "s".to_string(),
        trace_id: "t".to_string(),
        service_name: None,
        name: "e".to_string(),
        timestamp: 3,
        level: None,
        target: None,
        attributes: Some("{}".to_string()),
    };
    let q = ev.insert_statement(4);
    assert!(q.text.starts_with("INSERT INTO span_events"));
    assert_eq!(show(&q.params), vec!["'s'", "'t'", "NULL", "'e'", "3", "NULL", "NULL", "'{}'", "4"]);
}

#[test]
fn span_tree_walk_collects_descendants() {
    let mut walk = SpanTreeWalk::new();
    let q = walk.advance(vec![span("parent", None)]).expect("children query");
    assert_eq!(
        q.text,
        "SELECT trace_id, span_id, parent_span_id, service_name, name, kind, start_time, end_time, level, target, attributes, events, status FROM spans WHERE parent_span_id IN (?)"
    );
    assert_eq!(show(&q.params), vec!["'parent'"]);
    let q = walk
        .advance(vec![span("child1", Some("parent")), span("child2", Some("parent"))])
        .expect("grandchildren query");
    assert!(q.text.ends_with("WHERE parent_span_id IN (?,?)"));
    assert_eq!(show(&q.params), vec!["'child1'", "'child2'"]);
    assert!(walk.advance(vec![span("grandchild", Some("child1"))]).is_some());
    assert!(walk.advance(vec![]).is_none());
    let ids: Vec<&str> = walk.found.iter().map(|s| s.span_id.as_str()).collect();
    assert_eq!(ids, vec!["parent", "child1", "child2", "grandchild"]);

    let q = children_statement(&vec![]);
    assert!(q.text.ends_with("IN ()"));
}

#[test]
fn cleanup_statements_apply_each_limit_alone() {
    let both = count_cleanup_statements(Some(100), Some(50));
    assert_eq!(both.len(), 2);
    assert_eq!(
        both[0].text,
        "DELETE FROM logs WHERE id IN (SELECT id FROM logs ORDER BY created_at DESC LIMIT -1 OFFSET ?1)"
    );
    assert_eq!(show(&both[0].params), vec!["100"]);
    assert_eq!(
        both[1].text,
        "DELETE FROM spans WHERE id IN (SELECT id FROM spans ORDER BY created_at DESC LIMIT -1 OFFSET ?1)"
    );
    assert_eq!(show(&both[1].params), vec!["50"]);

    let logs_only = count_cleanup_statements(Some(7), None);
    assert_eq!(logs_only.len(), 1);
    assert!(logs_only[0].text.starts_with("DELETE FROM logs"));
    let spans_only = count_cleanup_statements(None, Some(9));
    assert_eq!(spans_only.len(), 1);
    assert!(spans_only[0].text.starts_with("DELETE FROM spans"));
    assert_eq!(show(&spans_only[0].params), vec!["9"]);
    assert!(count_cleanup_statements(None, None).is_empty());

    let age = age_cleanup_statements(123);
    let texts: Vec<&str> = age.iter().map(|q| q.text.as_str()).collect();
    assert_eq!(
        texts,
        vec![
            "DELETE FROM logs WHERE created_at < ?1",
            "DELETE FROM spans WHERE created_at < ?1",
            "DELETE FROM span_events WHERE created_at < ?1"
        ]
    );
    assert!(age.iter().all(|q| show(&q.params) == vec!["123"]));
}

#[test]
fn clock_based_statements_use_a_time_after_the_epoch() {
    let f = LogFilter { cursor: CursorFilter { lookback_seconds: Some(0), starting_at: None }, ..Default::default() };
    let q = f.statement().expect("statement");
    match q.params[0] {
        SqlParam::Int(n) => assert!(n > 1_600_000_000_000_000_000),
        _ => panic!("expected the cutoff"),
    }
    assert!(arboretum::db::creation_time() > 1_600_000_000_000_000_000);
    let c = arboretum::db::retention_cutoff_now(0).expect("fits");
    assert!(c > 1_600_000_000_000_000_000);
}
