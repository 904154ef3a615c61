use arboretum::level::Level;
use arboretum::otlp::{
    convert_otlp_logs, convert_otlp_traces, AnyValue, AnyValueKind, ArrayElement, DoubleValue,
    ExportLogsServiceRequest, ExportTraceServiceRequest, InstrumentationScope, KeyValue,
    OtlpLogRecord, OtlpSpan, OtlpSpanEvent, Resource, ResourceLogs, ResourceSpans, ScopeLogs,
    ScopeSpans, Status,
};

fn string_kv(key: &str, value: &str) -> KeyValue {
    KeyValue {
        key: key.to_string(),
        value: Some(AnyValue { value: Some(AnyValueKind::Str(value.to_string())) }),
    }
}

fn kv(key: &str, value: AnyValueKind) -> KeyValue {
    KeyValue { key: key.to_string(), value: Some(AnyValue { value: Some(value) }) }
}

fn service_resource(name: &str) -> Option<Resource> {
    Some(Resource { attributes: vec![string_kv("service.name", name)] })
}

fn log_record(attributes: Vec<KeyValue>) -> OtlpLogRecord {
    OtlpLogRecord {
        time_unix_nano: 1234567890,
        severity_number: 9,
        body: Some(AnyValue { value: Some(AnyValueKind::Str("Test log message".to_string())) }),
        attributes,
        trace_id: vec![],
        span_id: vec![],
    }
}

fn span(attributes: Vec<KeyValue>) -> OtlpSpan {
    OtlpSpan {
        trace_id: vec![1, 2, 3, 4, 5, 6, 7, 8, 9, 10, 11, 12, 13, 14, 15, 16],
        span_id: vec![1, 2, 3, 4, 5, 6, 7, 8],
        parent_span_id: vec![],
        name: "test_span".to_string(),
        kind: 1,
        start_time_unix_nano: 1234567890,
        end_time_unix_nano: 1234567900,
        attributes,
        events: vec![],
        status: None,
    }
}

fn traces(scope: &str, spans: Vec<OtlpSpan>) -> ExportTraceServiceRequest {
    ExportTraceServiceRequest {
        resource_spans: vec![ResourceSpans {
            resource: service_resource("test-service"),
            scope_spans: vec![ScopeSpans {
                scope: Some(InstrumentationScope { name: scope.to_string() }),
                spans,
            }],
        }],
    }
}

#[test]
fn test_convert_otlp_logs() {
    let request = ExportLogsServiceRequest {
        resource_logs: vec![ResourceLogs {
            resource: service_resource("test-service"),
            scope_logs: vec![ScopeLogs { log_records: vec![log_record(vec![string_kv("target", "test::module")])] }],
        }],
    };

    let logs = convert_otlp_logs(request);
    assert_eq!(logs.len(), 1);
    assert_eq!(logs[0].service_name, Some("test-service".to_string()));
    assert_eq!(logs[0].level, Some(Level::Info));
    assert_eq!(logs[0].message, Some("Test log message".to_string()));
    assert_eq!(logs[0].target, Some("test::module".to_string()));
}

#[test]
fn test_convert_otlp_traces() {
    let spans = convert_otlp_traces(traces("test", vec![span(vec![string_kv("target", "test::module")])]));
    assert_eq!(spans.len(), 1);
    assert_eq!(spans[0].service_name, Some("test-service".to_string()));
    assert_eq!(spans[0].name, "test_span");
    assert_eq!(spans[0].target, Some("test::module".to_string()));
}

#[test]
fn log_ids_attributes_and_bodies() {
    let mut record = log_record(vec![
        string_kv("code.target", "app::x"),
        kv("count", AnyValueKind::Int(-3)),
        kv("ok", AnyValueKind::Bool(true)),
        kv("list", AnyValueKind::Array(vec![
            Some(ArrayElement::Str("a".to_string())),
            None,
            Some(ArrayElement::Int(2)),
            Some(ArrayElement::Other),
        ])),
        KeyValue { key: "empty".to_string(), value: None },
        kv("ratio", AnyValueKind::Double(DoubleValue {
            display: "0.5".to_string(),
            number: serde_json::Number::from_f64(0.5),
        })),
        kv("nan", AnyValueKind::Double(DoubleValue { display: "NaN".to_string(), number: None })),
        kv("raw", AnyValueKind::Bytes),
    ]);
    record.trace_id = vec![0xab, 0x01];
    record.span_id = vec![0xff];
    record.severity_number = 0;
    record.body = Some(AnyValue { value: Some(AnyValueKind::Int(42)) });
    let logs = convert_otlp_logs(ExportLogsServiceRequest {
        resource_logs: vec![ResourceLogs { resource: None, scope_logs: vec![ScopeLogs { log_records: vec![record] }] }],
    });
    assert_eq!(logs.len(), 1);
    let l = &logs[0];
    assert_eq!(l.timestamp, 1234567890);
    assert_eq!(l.service_name, None);
    assert_eq!(l.level, None);
    assert_eq!(l.message.as_deref(), Some("42"));
    assert_eq!(l.target.as_deref(), Some("app::x"));
    assert_eq!(l.trace_id.as_deref(), Some("ab01"));
    assert_eq!(l.span_id.as_deref(), Some("ff"));
    assert_eq!(
        l.attributes.as_deref(),
        Some("{\"code.target\":\"app::x\",\"count\":-3,\"list\":[\"a\",2,null],\"nan\":null,\"ok\":true,\"ratio\":0.5,\"raw\":null}")
    );
}

#[test]
fn log_without_attributes_or_ids() {
    let mut record = log_record(vec![KeyValue { key: "k".to_string(), value: None }]);
    record.body = Some(AnyValue { value: Some(AnyValueKind::Double(DoubleValue { display: "1.5".to_string(), number: None })) });
    let logs = convert_otlp_logs(ExportLogsServiceRequest {
        resource_logs: vec![ResourceLogs {
            resource: service_resource("s"),
            scope_logs: vec![ScopeLogs { log_records: vec![record.clone(), record] }],
        }],
    });
    assert_eq!(logs.len(), 2);
    assert_eq!(logs[0].attributes, None);
    assert_eq!(logs[0].trace_id, None);
    assert_eq!(logs[0].span_id, None);
    assert_eq!(logs[0].message.as_deref(), Some("1.5"));
    assert_eq!(logs[1].service_name.as_deref(), Some("s"));
}

#[test]
fn span_ids_kind_status_events_and_attributes() {
    let mut sp = span(vec![string_kv("level", "warn"), string_kv("target", "db")]);
    sp.parent_span_id = vec![9, 10];
    sp.kind = 2;
    sp.status = Some(Status { code: 2 });
    sp.events = vec![
        OtlpSpanEvent { time_unix_nano: 7, name: "retry".to_string(), attributes: vec![kv("n", AnyValueKind::Int(1))] },
        OtlpSpanEvent { time_unix_nano: 8, name: "done".to_string(), attributes: vec![] },
    ];
    let spans = convert_otlp_traces(traces("app::debug", vec![sp]));
    let s = &spans[0];
    assert_eq!(s.trace_id, "0102030405060708090a0b0c0d0e0f10");
    assert_eq!(s.span_id, "0102030405060708");
    assert_eq!(s.parent_span_id.as_deref(), Some("090a"));
    assert_eq!(s.kind.as_deref(), Some("Server"));
    assert_eq!(s.status.as_deref(), Some("Error"));
    assert_eq!(s.start_time, 1234567890);
    assert_eq!(s.end_time, Some(1234567900));
    // The level attribute wins over the scope's level.
    assert_eq!(s.level, Some(Level::Warn));
    assert_eq!(s.target.as_deref(), Some("db"));
    assert_eq!(s.attributes.as_deref(), Some("{\"level\":\"warn\",\"target\":\"db\"}"));
    assert_eq!(
        s.events.as_deref(),
        Some("[{\"attributes\":{\"n\":1},\"name\":\"retry\",\"time\":7},{\"name\":\"done\",\"time\":8}]")
    );
}

#[test]
fn span_level_from_scope_and_defaults() {
    let mut sp = span(vec![]);
    sp.kind = 99;
    sp.status = Some(Status { code: 7 });
    let spans = convert_otlp_traces(traces("my_module::info", vec![sp.clone()]));
    assert_eq!(spans[0].level, Some(Level::Info));
    assert_eq!(spans[0].kind.as_deref(), Some("Unspecified"));
    assert_eq!(spans[0].status.as_deref(), Some("Unset"));
    assert_eq!(spans[0].attributes, None);
    assert_eq!(spans[0].events, None);
    assert_eq!(spans[0].parent_span_id, None);

    // An unparsable level attribute leaves no level, and the scope fills in.
    let mut sp2 = sp.clone();
    sp2.attributes = vec![string_kv("otel.level", "loud")];
    let spans = convert_otlp_traces(traces("a::b::error", vec![sp2]));
    assert_eq!(spans[0].level, Some(Level::Error));

    let spans = convert_otlp_traces(traces("plain", vec![sp]));
    assert_eq!(spans[0].level, None);
}
