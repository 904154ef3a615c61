//! Conversion of OTLP export requests into stored logs and spans.
//!
//! The requests are held in the library's own types, which carry the parts
//! of the OTLP messages that the conversion reads; the application fills
//! them from the protobuf messages it decodes. A floating-point value
//! arrives as the text that `Display` gives for it and, where it is finite,
//! as the `serde_json::Number` that represents it.
use vstd::prelude::*;
use vstd::string::*;
use crate::db::{LogRecord, LogRecordView, SpanRecord, SpanRecordView, opt_view};
use crate::json::{
    json_string, json_i64, json_u64, json_bool, json_number_or_null, json_array, json_object,
    json_map_contents, map_text, array_text, json_from_string, json_from_i64, json_from_u64,
    json_from_bool, json_from_number_or_null, json_from_values, json_from_map, json_map_new,
    json_map_insert, json_map_is_empty, map_to_text, values_to_text, JsonMap,
};
use crate::level::Level;
use crate::text::{
    chars_of, i64_to_string, int_text, last_path_sep, rfind_path_sep, string_of,
};

verus! {

/// A floating-point value: its `Display` text and, where finite, its JSON
/// number.
#[derive(Debug, Clone)]
pub struct DoubleValue {
    pub display: String,
    pub number: Option<serde_json::Number>,
}

/// An element of an array value: the kinds the conversion tells apart.
#[derive(Debug, Clone)]
pub enum ArrayElement {
    Str(String),
    Int(i64),
    Bool(bool),
    /// Any other kind of value.
    Other,
}

/// The value of an OTLP `AnyValue`.
#[derive(Debug, Clone)]
pub enum AnyValueKind {
    Str(String),
    Bool(bool),
    Int(i64),
    Double(DoubleValue),
    /// The elements of an array; `None` for an element without a value.
    Array(Vec<Option<ArrayElement>>),
    KvList,
    Bytes,
}

#[derive(Debug, Clone)]
pub struct AnyValue {
    pub value: Option<AnyValueKind>,
}

#[derive(Debug, Clone)]
pub struct KeyValue {
    pub key: String,
    pub value: Option<AnyValue>,
}

#[derive(Debug, Clone)]
pub struct Resource {
    pub attributes: Vec<KeyValue>,
}

/// An OTLP log record.
#[derive(Debug, Clone)]
pub struct OtlpLogRecord {
    pub time_unix_nano: u64,
    pub severity_number: i32,
    pub body: Option<AnyValue>,
    pub attributes: Vec<KeyValue>,
    pub trace_id: Vec<u8>,
    pub span_id: Vec<u8>,
}

#[derive(Debug, Clone)]
pub struct ScopeLogs {
    pub log_records: Vec<OtlpLogRecord>,
}

#[derive(Debug, Clone)]
pub struct ResourceLogs {
    pub resource: Option<Resource>,
    pub scope_logs: Vec<ScopeLogs>,
}

/// An OTLP logs export request.
#[derive(Debug, Clone)]
pub struct ExportLogsServiceRequest {
    pub resource_logs: Vec<ResourceLogs>,
}

#[derive(Debug, Clone)]
pub struct InstrumentationScope {
    pub name: String,
}

#[derive(Debug, Clone)]
pub struct Status {
    pub code: i32,
}

#[derive(Debug, Clone)]
pub struct OtlpSpanEvent {
    pub time_unix_nano: u64,
    pub name: String,
    pub attributes: Vec<KeyValue>,
}

/// An OTLP span.
#[derive(Debug, Clone)]
pub struct OtlpSpan {
    pub trace_id: Vec<u8>,
    pub span_id: Vec<u8>,
    pub parent_span_id: Vec<u8>,
    pub name: String,
    pub kind: i32,
    pub start_time_unix_nano: u64,
    pub end_time_unix_nano: u64,
    pub attributes: Vec<KeyValue>,
    pub events: Vec<OtlpSpanEvent>,
    pub status: Option<Status>,
}

#[derive(Debug, Clone)]
pub struct ScopeSpans {
    pub scope: Option<InstrumentationScope>,
    pub spans: Vec<OtlpSpan>,
}

#[derive(Debug, Clone)]
pub struct ResourceSpans {
    pub resource: Option<Resource>,
    pub scope_spans: Vec<ScopeSpans>,
}

/// An OTLP traces export request.
#[derive(Debug, Clone)]
pub struct ExportTraceServiceRequest {
    pub resource_spans: Vec<ResourceSpans>,
}

/// The string value of an attribute, where it has one.
pub open spec fn string_value(kv: KeyValue) -> Option<String> {
    match kv.value {
        Some(v) => match v.value {
            Some(AnyValueKind::Str(s)) => Some(s),
            _ => None,
        },
        None => None,
    }
}

fn extract_string_value(kv: &KeyValue) -> (r: Option<String>)
    ensures
        r == string_value(*kv),
{
    match &kv.value {
        Some(v) => match &v.value {
            Some(AnyValueKind::Str(s)) => Some(s.clone()),
            _ => None,
        },
        None => None,
    }
}

/// The service name among resource attributes: the string value of the
/// first `service.name` attribute that has one.
pub open spec fn first_service_name(attrs: Seq<KeyValue>) -> Option<String>
    decreases attrs.len(),
{
    if attrs.len() == 0 {
        None
    } else if attrs[0].key@ == "service.name"@ && string_value(attrs[0]) is Some {
        string_value(attrs[0])
    } else {
        first_service_name(attrs.drop_first())
    }
}

pub open spec fn service_name_of(resource: Option<Resource>) -> Option<String> {
    match resource {
        Some(r) => first_service_name(r.attributes@),
        None => None,
    }
}

fn find_service_name(resource: &Option<Resource>) -> (r: Option<String>)
    ensures
        r == service_name_of(*resource),
{
    match resource {
        None => None,
        Some(res) => {
            let attrs = &res.attributes;
            let mut i: usize = 0;
            assert(attrs@.skip(0) =~= attrs@);
            while i < attrs.len()
                invariant
                    0 <= i <= attrs@.len(),
                    service_name_of(*resource) == first_service_name(attrs@),
                    first_service_name(attrs@) == first_service_name(attrs@.skip(i as int)),
                decreases attrs@.len() - i,
            {
                assert(attrs@.skip(i as int)[0] == attrs@[i as int]);
                assert(attrs@.skip(i as int).drop_first() =~= attrs@.skip(i + 1));
                if key_is(&attrs[i], "service.name") {
                    let v = extract_string_value(&attrs[i]);
                    if v.is_some() {
                        return v;
                    }
                }
                i = i + 1;
            }
            None
        },
    }
}

proof fn lemma_first_service_name(attrs: Seq<KeyValue>)
    ensures
        first_service_name(attrs) matches Some(v) ==> exists|i: int|
            0 <= i < attrs.len() && (#[trigger] attrs[i]).key@ == "service.name"@ && attrs[i].value
                == Some(AnyValue { value: Some(AnyValueKind::Str(v)) }) && forall|j: int|
                0 <= j < i ==> !((#[trigger] attrs[j]).key@ == "service.name"@ && (attrs[j].value is Some && attrs[j].value.unwrap().value is Some && attrs[j].value.unwrap().value.unwrap() is Str)),
        (forall|i: int|
            0 <= i < attrs.len() ==> !((#[trigger] attrs[i]).key@ == "service.name"@ && (attrs[i].value is Some && attrs[i].value.unwrap().value is Some && attrs[i].value.unwrap().value.unwrap() is Str))) ==> first_service_name(attrs) is None,
    decreases attrs.len(),
{
    if attrs.len() > 0 {
        let t = attrs.drop_first();
        lemma_first_service_name(t);
        assert forall|k: int| 0 <= k < t.len() implies #[trigger] t[k] == attrs[k + 1] by {}
        if attrs[0].key@ == "service.name"@ && string_value(attrs[0]) is Some {
            let v = string_value(attrs[0]).unwrap();
            assert(attrs[0].value == Some(AnyValue { value: Some(AnyValueKind::Str(v)) }));
        } else {
            if first_service_name(t) is Some {
                let v = first_service_name(t).unwrap();
                let i = choose|i: int|
                    0 <= i < t.len() && (#[trigger] t[i]).key@ == "service.name"@ && t[i].value
                        == Some(AnyValue { value: Some(AnyValueKind::Str(v)) }) && forall|j: int|
                        0 <= j < i ==> !((#[trigger] t[j]).key@ == "service.name"@ && (t[j].value is Some && t[j].value.unwrap().value is Some && t[j].value.unwrap().value.unwrap() is Str));
                assert(attrs[i + 1] == t[i]);
                assert forall|j: int| 0 <= j < i + 1 implies !((#[trigger] attrs[j]).key@ == "service.name"@
                    && (attrs[j].value is Some && attrs[j].value.unwrap().value is Some && attrs[j].value.unwrap().value.unwrap() is Str)) by {
                    if j > 0 {
                        assert(attrs[j] == t[j - 1]);
                    }
                }
            }
            if forall|i: int|
                0 <= i < attrs.len() ==> !((#[trigger] attrs[i]).key@ == "service.name"@ && (attrs[i].value is Some && attrs[i].value.unwrap().value is Some && attrs[i].value.unwrap().value.unwrap() is Str)) {
                assert forall|i: int| 0 <= i < t.len() implies !((#[trigger] t[i]).key@ == "service.name"@
                    && (t[i].value is Some && t[i].value.unwrap().value is Some && t[i].value.unwrap().value.unwrap() is Str)) by {
                    assert(t[i] == attrs[i + 1]);
                }
            }
        }
    }
}

/// The service name of a resource is the text of its first `service.name`
/// attribute with a string value; a resource without such an attribute (or
/// no resource) has none. Attributes under any other key never give it.
pub proof fn lemma_service_name(resource: Option<Resource>)
    ensures
        service_name_of(resource) matches Some(v) ==> resource matches Some(r) && exists|i: int|
            0 <= i < r.attributes@.len() && (#[trigger] r.attributes@[i]).key@ == "service.name"@
                && r.attributes@[i].value == Some(AnyValue { value: Some(AnyValueKind::Str(v)) })
                && forall|j: int|
                0 <= j < i ==> !((#[trigger] r.attributes@[j]).key@ == "service.name"@
                    && (r.attributes@[j].value is Some && r.attributes@[j].value.unwrap().value is Some && r.attributes@[j].value.unwrap().value.unwrap() is Str)),
        resource is None ==> service_name_of(resource) is None,
        resource matches Some(r) ==> ((forall|i: int|
            0 <= i < r.attributes@.len() ==> !((#[trigger] r.attributes@[i]).key@ == "service.name"@
                && (r.attributes@[i].value is Some && r.attributes@[i].value.unwrap().value is Some && r.attributes@[i].value.unwrap().value.unwrap() is Str)))
            ==> service_name_of(resource) is None),
{
    match resource {
        Some(r) => lemma_first_service_name(r.attributes@),
        None => {},
    }
}

/// Whether an attribute names the target of a record.
pub open spec fn is_target_key(k: Seq<char>) -> bool {
    k == "code.target"@ || k == "target"@
}

/// The target among attributes: the string value of the last target
/// attribute (none where that attribute has no string value).
pub open spec fn target_of(attrs: Seq<KeyValue>) -> Option<String>
    decreases attrs.len(),
{
    if attrs.len() == 0 {
        None
    } else if is_target_key(attrs.last().key@) {
        string_value(attrs.last())
    } else {
        target_of(attrs.drop_last())
    }
}

fn key_is(kv: &KeyValue, name: &str) -> (r: bool)
    ensures
        r == (kv.key@ == name@),
{
    kv.key == String::from_str(name)
}

fn find_target(attrs: &Vec<KeyValue>) -> (r: Option<String>)
    ensures
        r == target_of(attrs@),
{
    let mut target: Option<String> = None;
    let mut i: usize = 0;
    assert(attrs@.take(0) =~= Seq::<KeyValue>::empty());
    while i < attrs.len()
        invariant
            0 <= i <= attrs@.len(),
            target == target_of(attrs@.take(i as int)),
        decreases attrs@.len() - i,
    {
        assert(attrs@.take(i + 1).drop_last() =~= attrs@.take(i as int));
        if key_is(&attrs[i], "code.target") || key_is(&attrs[i], "target") {
            target = extract_string_value(&attrs[i]);
        }
        i = i + 1;
    }
    assert(attrs@.take(attrs@.len() as int) =~= attrs@);
    target
}

/// The JSON elements of an array value: elements without a value are
/// left out, strings, integers and booleans kept, anything else `null`.
pub open spec fn elements_of(items: Seq<Option<ArrayElement>>) -> Seq<serde_json::Value>
    decreases items.len(),
{
    if items.len() == 0 {
        Seq::empty()
    } else {
        let pre = elements_of(items.drop_last());
        match items.last() {
            None => pre,
            Some(ArrayElement::Str(s)) => pre.push(json_string(s@)),
            Some(ArrayElement::Int(i)) => pre.push(json_i64(i)),
            Some(ArrayElement::Bool(b)) => pre.push(json_bool(b)),
            Some(ArrayElement::Other) => pre.push(json_number_or_null(None)),
        }
    }
}

/// The JSON form of a value: strings, integers and booleans as they are, a
/// finite float as its number (`null` otherwise), an array as its
/// elements, anything else `null`.
pub open spec fn json_of(v: AnyValueKind) -> serde_json::Value {
    match v {
        AnyValueKind::Str(s) => json_string(s@),
        AnyValueKind::Int(i) => json_i64(i),
        AnyValueKind::Double(d) => json_number_or_null(d.number),
        AnyValueKind::Bool(b) => json_bool(b),
        AnyValueKind::Array(items) => json_array(elements_of(items@)),
        _ => json_number_or_null(None),
    }
}

/// The JSON form of an attribute's value, where the attribute has a value.
pub open spec fn attr_json(kv: KeyValue) -> Option<serde_json::Value> {
    match kv.value {
        Some(v) => match v.value {
            Some(k) => Some(json_of(k)),
            None => None,
        },
        None => None,
    }
}

fn array_elements(items: &Vec<Option<ArrayElement>>) -> (r: Vec<serde_json::Value>)
    ensures
        r@ == elements_of(items@),
{
    let mut out: Vec<serde_json::Value> = Vec::new();
    let mut i: usize = 0;
    assert(items@.take(0) =~= Seq::<Option<ArrayElement>>::empty());
    while i < items.len()
        invariant
            0 <= i <= items@.len(),
            out@ == elements_of(items@.take(i as int)),
        decreases items@.len() - i,
    {
        assert(items@.take(i + 1).drop_last() =~= items@.take(i as int));
        assert(items@.take(i + 1).last() == items@[i as int]);
        match &items[i] {
            None => {},
            Some(ArrayElement::Str(s)) => {
                out.push(json_from_string(s.clone()));
            },
            Some(ArrayElement::Int(n)) => {
                out.push(json_from_i64(*n));
            },
            Some(ArrayElement::Bool(b)) => {
                out.push(json_from_bool(*b));
            },
            Some(ArrayElement::Other) => {
                out.push(json_from_number_or_null(None));
            },
        }
        i = i + 1;
    }
    assert(items@.take(items@.len() as int) =~= items@);
    out
}

fn attribute_to_json_value(kv: &KeyValue) -> (r: Option<serde_json::Value>)
    ensures
        r == attr_json(*kv),
{
    match &kv.value {
        None => None,
        Some(v) => match &v.value {
            None => None,
            Some(AnyValueKind::Str(s)) => Some(json_from_string(s.clone())),
            Some(AnyValueKind::Int(n)) => Some(json_from_i64(*n)),
            Some(AnyValueKind::Double(d)) => match &d.number {
                Some(n) => Some(json_from_number_or_null(Some(n.clone()))),
                None => Some(json_from_number_or_null(None)),
            },
            Some(AnyValueKind::Bool(b)) => Some(json_from_bool(*b)),
            Some(AnyValueKind::Array(items)) => Some(json_from_values(array_elements(items))),
            Some(_) => Some(json_from_number_or_null(None)),
        },
    }
}

/// The entries of the JSON object of some attributes: each attribute that
/// has a value, inserted in order (a later one replaces an earlier one with
/// the same key).
pub open spec fn attr_map(attrs: Seq<KeyValue>) -> Map<Seq<char>, serde_json::Value>
    decreases attrs.len(),
{
    if attrs.len() == 0 {
        Map::empty()
    } else {
        let pre = attr_map(attrs.drop_last());
        match attr_json(attrs.last()) {
            Some(v) => pre.insert(attrs.last().key@, v),
            None => pre,
        }
    }
}

fn collect_attributes(attrs: &Vec<KeyValue>) -> (r: JsonMap)
    ensures
        json_map_contents(r) == attr_map(attrs@),
{
    let mut out = json_map_new();
    let mut i: usize = 0;
    assert(attrs@.take(0) =~= Seq::<KeyValue>::empty());
    while i < attrs.len()
        invariant
            0 <= i <= attrs@.len(),
            json_map_contents(out) == attr_map(attrs@.take(i as int)),
        decreases attrs@.len() - i,
    {
        assert(attrs@.take(i + 1).drop_last() =~= attrs@.take(i as int));
        assert(attrs@.take(i + 1).last() == attrs@[i as int]);
        match attribute_to_json_value(&attrs[i]) {
            Some(v) => {
                json_map_insert(&mut out, attrs[i].key.clone(), v);
            },
            None => {},
        }
        i = i + 1;
    }
    assert(attrs@.take(attrs@.len() as int) =~= attrs@);
    out
}

/// The attributes of a record as JSON text: none where no attribute has a
/// value.
pub open spec fn attributes_text(attrs: Seq<KeyValue>) -> Option<Seq<char>> {
    if attr_map(attrs) == Map::<Seq<char>, serde_json::Value>::empty() {
        None
    } else {
        Some(map_text(attr_map(attrs)))
    }
}

fn attributes_json(attrs: &Vec<KeyValue>) -> (r: Option<String>)
    ensures
        opt_view(r) == attributes_text(attrs@),
{
    let map = collect_attributes(attrs);
    if !json_map_is_empty(&map) {
        Some(map_to_text(&map))
    } else {
        None
    }
}

/// A lower-case hexadecimal digit.
pub open spec fn hex_digit(d: int) -> char {
    if d == 0 {
        '0'
    } else if d == 1 {
        '1'
    } else if d == 2 {
        '2'
    } else if d == 3 {
        '3'
    } else if d == 4 {
        '4'
    } else if d == 5 {
        '5'
    } else if d == 6 {
        '6'
    } else if d == 7 {
        '7'
    } else if d == 8 {
        '8'
    } else if d == 9 {
        '9'
    } else if d == 10 {
        'a'
    } else if d == 11 {
        'b'
    } else if d == 12 {
        'c'
    } else if d == 13 {
        'd'
    } else if d == 14 {
        'e'
    } else {
        'f'
    }
}

/// The lower-case hexadecimal text of bytes: two digits per byte, the high
/// nibble first.
pub open spec fn hex_text(b: Seq<u8>) -> Seq<char>
    decreases b.len(),
{
    if b.len() == 0 {
        Seq::empty()
    } else {
        hex_text(b.drop_last()) + seq![hex_digit(b.last() as int / 16), hex_digit(b.last() as int % 16)]
    }
}

/// `hex::encode`: each byte as two lower-case hexadecimal digits.
#[verifier::external_body]
fn hex_encode(bytes: &Vec<u8>) -> (r: String)
    ensures
        r@ == hex_text(bytes@),
{
    hex::encode(bytes)
}

/// The hexadecimal text of an id, or none for an empty id.
pub open spec fn id_text(b: Seq<u8>) -> Option<Seq<char>> {
    if b.len() > 0 {
        Some(hex_text(b))
    } else {
        None
    }
}

fn id_hex(bytes: &Vec<u8>) -> (r: Option<String>)
    ensures
        opt_view(r) == id_text(bytes@),
{
    if bytes.len() > 0 {
        Some(hex_encode(bytes))
    } else {
        None
    }
}

/// The text of a log body: a string as it is, an integer or float as
/// `Display` writes it, a boolean as `true` or `false`; none for other
/// values.
pub open spec fn body_text(body: Option<AnyValue>) -> Option<Seq<char>> {
    match body {
        Some(b) => match b.value {
            Some(AnyValueKind::Str(s)) => Some(s@),
            Some(AnyValueKind::Int(i)) => Some(int_text(i as int)),
            Some(AnyValueKind::Double(d)) => Some(d.display@),
            Some(AnyValueKind::Bool(v)) => Some(if v {
                "true"@
            } else {
                "false"@
            }),
            _ => None,
        },
        None => None,
    }
}

fn extract_body_as_string(body: &Option<AnyValue>) -> (r: Option<String>)
    ensures
        opt_view(r) == body_text(*body),
{
    match body {
        Some(b) => match &b.value {
            Some(AnyValueKind::Str(s)) => Some(s.clone()),
            Some(AnyValueKind::Int(i)) => Some(i64_to_string(*i)),
            Some(AnyValueKind::Double(d)) => Some(d.display.clone()),
            Some(AnyValueKind::Bool(v)) => Some(
                if *v {
                    String::from_str("true")
                } else {
                    String::from_str("false")
                },
            ),
            _ => None,
        },
        None => None,
    }
}

/// The stored log for an OTLP log record of a resource with service name
/// `service`.
pub open spec fn log_view(service: Option<String>, r: OtlpLogRecord) -> LogRecordView {
    LogRecordView {
        timestamp: r.time_unix_nano as i64,
        service_name: opt_view(service),
        level: Level::of_severity(r.severity_number as int),
        target: opt_view(target_of(r.attributes@)),
        message: body_text(r.body),
        span_id: id_text(r.span_id@),
        trace_id: id_text(r.trace_id@),
        attributes: attributes_text(r.attributes@),
    }
}

/// The stored logs for the log records of a sequence of scopes.
pub open spec fn logs_of_scopes(service: Option<String>, scopes: Seq<ScopeLogs>) -> Seq<LogRecordView>
    decreases scopes.len(),
{
    if scopes.len() == 0 {
        Seq::empty()
    } else {
        logs_of_scopes(service, scopes.drop_last()) + scopes.last().log_records@.map_values(
            |r: OtlpLogRecord| log_view(service, r),
        )
    }
}

/// The stored logs for a sequence of resources, in order.
pub open spec fn logs_of_resources(resources: Seq<ResourceLogs>) -> Seq<LogRecordView>
    decreases resources.len(),
{
    if resources.len() == 0 {
        Seq::empty()
    } else {
        logs_of_resources(resources.drop_last()) + logs_of_scopes(
            service_name_of(resources.last().resource),
            resources.last().scope_logs@,
        )
    }
}

/// The views of stored logs.
pub open spec fn log_views(v: Seq<LogRecord>) -> Seq<LogRecordView> {
    v.map_values(|r: LogRecord| r@)
}

fn clone_opt(o: &Option<String>) -> (r: Option<String>)
    ensures
        r == *o,
{
    match o {
        Some(s) => Some(s.clone()),
        None => None,
    }
}

fn convert_log_record(service: &Option<String>, r: &OtlpLogRecord) -> (out: LogRecord)
    ensures
        out@ == log_view(*service, *r),
{
    LogRecord {
        timestamp: r.time_unix_nano as i64,
        service_name: clone_opt(service),
        level: Level::from_severity(r.severity_number),
        target: find_target(&r.attributes),
        message: extract_body_as_string(&r.body),
        span_id: id_hex(&r.span_id),
        trace_id: id_hex(&r.trace_id),
        attributes: attributes_json(&r.attributes),
    }
}

fn convert_scope_logs(service: &Option<String>, scopes: &Vec<ScopeLogs>, out: &mut Vec<LogRecord>)
    ensures
        log_views(final(out)@) == log_views(old(out)@) + logs_of_scopes(*service, scopes@),
{
    let ghost start = log_views(out@);
    let mut i: usize = 0;
    assert(scopes@.take(0) =~= Seq::<ScopeLogs>::empty());
    assert(log_views(out@) =~= start + logs_of_scopes(*service, scopes@.take(0)));
    while i < scopes.len()
        invariant
            0 <= i <= scopes@.len(),
            log_views(out@) == start + logs_of_scopes(*service, scopes@.take(i as int)),
        decreases scopes@.len() - i,
    {
        let records = &scopes[i].log_records;
        let ghost before = log_views(out@);
        let mut j: usize = 0;
        assert(records@.take(0).map_values(|r: OtlpLogRecord| log_view(*service, r)) =~= Seq::<LogRecordView>::empty());
        assert(log_views(out@) =~= before + records@.take(0).map_values(|r: OtlpLogRecord| log_view(*service, r)));
        while j < records.len()
            invariant
                0 <= j <= records@.len(),
                log_views(out@) == before + records@.take(j as int).map_values(
                    |r: OtlpLogRecord| log_view(*service, r),
                ),
            decreases records@.len() - j,
        {
            let rec = convert_log_record(service, &records[j]);
            let ghost prev = out@;
            out.push(rec);
            assert(log_views(out@) =~= log_views(prev).push(rec@));
            assert(records@.take(j + 1).map_values(|r: OtlpLogRecord| log_view(*service, r))
                =~= records@.take(j as int).map_values(|r: OtlpLogRecord| log_view(*service, r)).push(
                log_view(*service, records@[j as int]),
            ));
            assert(log_views(out@) =~= before + records@.take(j + 1).map_values(
                |r: OtlpLogRecord| log_view(*service, r),
            ));
            j = j + 1;
        }
        assert(records@.take(records@.len() as int) =~= records@);
        assert(scopes@.take(i + 1).drop_last() =~= scopes@.take(i as int));
        assert(log_views(out@) =~= start + logs_of_scopes(*service, scopes@.take(i + 1)));
        i = i + 1;
    }
    assert(scopes@.take(scopes@.len() as int) =~= scopes@);
}

/// Converts an OTLP logs export request into stored logs, one for each log
/// record, in the order of the request.
pub fn convert_otlp_logs(request: ExportLogsServiceRequest) -> (logs: Vec<LogRecord>)
    ensures
        log_views(logs@) == logs_of_resources(request.resource_logs@),
{
    let resources = &request.resource_logs;
    let mut logs: Vec<LogRecord> = Vec::new();
    let mut i: usize = 0;
    assert(resources@.take(0) =~= Seq::<ResourceLogs>::empty());
    assert(log_views(logs@) =~= Seq::<LogRecordView>::empty());
    while i < resources.len()
        invariant
            0 <= i <= resources@.len(),
            log_views(logs@) == logs_of_resources(resources@.take(i as int)),
        decreases resources@.len() - i,
    {
        let service_name = find_service_name(&resources[i].resource);
        convert_scope_logs(&service_name, &resources[i].scope_logs, &mut logs);
        assert(resources@.take(i + 1).drop_last() =~= resources@.take(i as int));
        i = i + 1;
    }
    assert(resources@.take(resources@.len() as int) =~= resources@);
    logs
}

/// The name that `Debug` gives the OTLP span kind numbered `k`; a number
/// that names no kind reads as the default kind, `Unspecified`.
pub open spec fn span_kind_name(k: i32) -> Seq<char> {
    if k == 1 {
        "Internal"@
    } else if k == 2 {
        "Server"@
    } else if k == 3 {
        "Client"@
    } else if k == 4 {
        "Producer"@
    } else if k == 5 {
        "Consumer"@
    } else {
        "Unspecified"@
    }
}

/// The name that `Debug` gives the OTLP status code numbered `c`; a number
/// that names no code reads as the default code, `Unset`.
pub open spec fn status_code_name(c: i32) -> Seq<char> {
    if c == 1 {
        "Ok"@
    } else if c == 2 {
        "Error"@
    } else {
        "Unset"@
    }
}

/// `format!("{:?}", span.kind())` for an OTLP span whose `kind` field is
/// `kind`: the generated getter reads the number as a `SpanKind` (variants
/// `Unspecified` = 0 through `Consumer` = 5) and gives the default,
/// `Unspecified`, for any other number; `Debug` writes the variant's name.
#[verifier::external_body]
fn kind_name(kind: i32) -> (r: String)
    ensures
        r@ == span_kind_name(kind),
{
    let span = opentelemetry_proto::tonic::trace::v1::Span { kind, ..Default::default() };
    format!("{:?}", span.kind())
}

/// `format!("{:?}", status.code())` for an OTLP status whose `code` field is
/// `code`: `Unset` = 0, `Ok` = 1, `Error` = 2, and `Unset` for any other
/// number.
#[verifier::external_body]
fn status_name(code: i32) -> (r: String)
    ensures
        r@ == status_code_name(code),
{
    let status = opentelemetry_proto::tonic::trace::v1::Status { code, ..Default::default() };
    format!("{:?}", status.code())
}

/// The level that a scope's name carries after its last `::` (as in
/// `my_module::info`), where the rest parses as a level.
pub open spec fn scope_level_of(scope: Option<InstrumentationScope>) -> Option<Level> {
    match scope {
        Some(sc) => match last_path_sep(sc.name@) {
            Some(i) => Level::parsed(sc.name@.subrange(i + 2, sc.name@.len() as int)),
            None => None,
        },
        None => None,
    }
}

fn chars_from(v: &Vec<char>, from: usize) -> (r: Vec<char>)
    requires
        from <= v@.len(),
    ensures
        r@ == v@.subrange(from as int, v@.len() as int),
{
    let mut rest: Vec<char> = Vec::new();
    let mut k: usize = from;
    while k < v.len()
        invariant
            from <= k <= v@.len(),
            rest@ == v@.subrange(from as int, k as int),
        decreases v@.len() - k,
    {
        rest.push(v[k]);
        assert(rest@ =~= v@.subrange(from as int, k + 1));
        k = k + 1;
    }
    rest
}

fn level_after_path_sep(name: &String) -> (r: Option<Level>)
    ensures
        r == (match last_path_sep(name@) {
            Some(i) => Level::parsed(name@.subrange(i + 2, name@.len() as int)),
            None => None,
        }),
{
    let chars = chars_of(name.as_str());
    let found = rfind_path_sep(chars.as_slice());
    match found {
        None => None,
        Some(idx) => {
            assert(last_path_sep(chars@) == Some(idx as int));
            let rest = chars_from(&chars, idx + 2);
            let text = string_of(rest.as_slice());
            match Level::parse_name(text.as_str()) {
                Ok(l) => Some(l),
                Err(_) => None,
            }
        },
    }
}

fn scope_level(scope: &Option<InstrumentationScope>) -> (r: Option<Level>)
    ensures
        r == scope_level_of(*scope),
{
    match scope {
        None => None,
        Some(sc) => level_after_path_sep(&sc.name),
    }
}

/// Whether an attribute carries the level of a span.
pub open spec fn is_level_key(k: Seq<char>) -> bool {
    k == "level"@ || k == "otel.level"@ || k == "log.level"@ || k == "log.severity"@ || k
        == "severity"@
}

/// The level among a span's attributes: that of the last level attribute,
/// where its value is a string that parses as a level.
pub open spec fn attr_level(attrs: Seq<KeyValue>) -> Option<Level>
    decreases attrs.len(),
{
    if attrs.len() == 0 {
        None
    } else if is_level_key(attrs.last().key@) {
        match string_value(attrs.last()) {
            Some(s) => Level::parsed(s@),
            None => None,
        }
    } else {
        attr_level(attrs.drop_last())
    }
}

fn find_attr_level(attrs: &Vec<KeyValue>) -> (r: Option<Level>)
    ensures
        r == attr_level(attrs@),
{
    let mut level: Option<Level> = None;
    let mut i: usize = 0;
    assert(attrs@.take(0) =~= Seq::<KeyValue>::empty());
    while i < attrs.len()
        invariant
            0 <= i <= attrs@.len(),
            level == attr_level(attrs@.take(i as int)),
        decreases attrs@.len() - i,
    {
        assert(attrs@.take(i + 1).drop_last() =~= attrs@.take(i as int));
        let a = &attrs[i];
        if key_is(a, "level") || key_is(a, "otel.level") || key_is(a, "log.level") || key_is(
            a,
            "log.severity",
        ) || key_is(a, "severity") {
            level = match extract_string_value(a) {
                Some(s) => match Level::parse_name(s.as_str()) {
                    Ok(l) => Some(l),
                    Err(_) => None,
                },
                None => None,
            };
        }
        i = i + 1;
    }
    assert(attrs@.take(attrs@.len() as int) =~= attrs@);
    level
}

/// The entries of the JSON object of a span event: its name, its time and,
/// where it has attributes, the object of those that have a value.
pub open spec fn event_map(e: OtlpSpanEvent) -> Map<Seq<char>, serde_json::Value> {
    let m = Map::<Seq<char>, serde_json::Value>::empty().insert("name"@, json_string(e.name@)).insert(
        "time"@,
        json_u64(e.time_unix_nano),
    );
    if e.attributes@.len() > 0 {
        m.insert("attributes"@, json_object(attr_map(e.attributes@)))
    } else {
        m
    }
}

/// The JSON object of a span event.
pub open spec fn event_json(e: OtlpSpanEvent) -> serde_json::Value {
    json_object(event_map(e))
}

/// The events of a span as JSON text: none where it has no events.
pub open spec fn events_json_text(events: Seq<OtlpSpanEvent>) -> Option<Seq<char>> {
    if events.len() > 0 {
        Some(array_text(events.map_values(|e: OtlpSpanEvent| event_json(e))))
    } else {
        None
    }
}

fn event_value(e: &OtlpSpanEvent) -> (r: serde_json::Value)
    ensures
        r == event_json(*e),
{
    let mut m = json_map_new();
    json_map_insert(&mut m, String::from_str("name"), json_from_string(e.name.clone()));
    json_map_insert(&mut m, String::from_str("time"), json_from_u64(e.time_unix_nano));
    if e.attributes.len() > 0 {
        let attrs = collect_attributes(&e.attributes);
        json_map_insert(&mut m, String::from_str("attributes"), json_from_map(attrs));
    }
    json_from_map(m)
}

fn span_events_json(events: &Vec<OtlpSpanEvent>) -> (r: Option<String>)
    ensures
        opt_view(r) == events_json_text(events@),
{
    if events.len() == 0 {
        return None;
    }
    let mut out: Vec<serde_json::Value> = Vec::new();
    let mut i: usize = 0;
    assert(out@ =~= events@.take(0).map_values(|e: OtlpSpanEvent| event_json(e)));
    while i < events.len()
        invariant
            0 <= i <= events@.len(),
            out@ == events@.take(i as int).map_values(|e: OtlpSpanEvent| event_json(e)),
        decreases events@.len() - i,
    {
        let v = event_value(&events[i]);
        out.push(v);
        assert(events@.take(i + 1).map_values(|e: OtlpSpanEvent| event_json(e)) =~= events@.take(
            i as int,
        ).map_values(|e: OtlpSpanEvent| event_json(e)).push(event_json(events@[i as int])));
        i = i + 1;
    }
    assert(events@.take(events@.len() as int) =~= events@);
    Some(values_to_text(&out))
}

/// The stored span for an OTLP span of a resource with service name
/// `service`, in a scope whose name carries `scope_level`: the level of its
/// level attribute or, where that gives none, the scope's.
pub open spec fn span_view(service: Option<String>, scope_level: Option<Level>, sp: OtlpSpan) -> SpanRecordView {
    SpanRecordView {
        trace_id: hex_text(sp.trace_id@),
        span_id: hex_text(sp.span_id@),
        parent_span_id: id_text(sp.parent_span_id@),
        service_name: opt_view(service),
        name: sp.name@,
        kind: Some(span_kind_name(sp.kind)),
        start_time: sp.start_time_unix_nano as i64,
        end_time: Some(sp.end_time_unix_nano as i64),
        level: if attr_level(sp.attributes@) is Some {
            attr_level(sp.attributes@)
        } else {
            scope_level
        },
        target: opt_view(target_of(sp.attributes@)),
        attributes: attributes_text(sp.attributes@),
        events: events_json_text(sp.events@),
        status: match sp.status {
            Some(st) => Some(status_code_name(st.code)),
            None => None,
        },
    }
}

/// The stored spans for the spans of a sequence of scopes.
pub open spec fn spans_of_scopes(service: Option<String>, scopes: Seq<ScopeSpans>) -> Seq<SpanRecordView>
    decreases scopes.len(),
{
    if scopes.len() == 0 {
        Seq::empty()
    } else {
        spans_of_scopes(service, scopes.drop_last()) + scopes.last().spans@.map_values(
            |sp: OtlpSpan| span_view(service, scope_level_of(scopes.last().scope), sp),
        )
    }
}

/// The stored spans for a sequence of resources, in order.
pub open spec fn spans_of_resources(resources: Seq<ResourceSpans>) -> Seq<SpanRecordView>
    decreases resources.len(),
{
    if resources.len() == 0 {
        Seq::empty()
    } else {
        spans_of_resources(resources.drop_last()) + spans_of_scopes(
            service_name_of(resources.last().resource),
            resources.last().scope_spans@,
        )
    }
}

pub open spec fn span_views(v: Seq<SpanRecord>) -> Seq<SpanRecordView> {
    v.map_values(|r: SpanRecord| r@)
}

fn convert_span(service: &Option<String>, scope_level: Option<Level>, sp: &OtlpSpan) -> (out: SpanRecord)
    ensures
        out@ == span_view(*service, scope_level, *sp),
{
    let mut level = find_attr_level(&sp.attributes);
    if level.is_none() {
        level = scope_level;
    }
    SpanRecord {
        trace_id: hex_encode(&sp.trace_id),
        span_id: hex_encode(&sp.span_id),
        parent_span_id: id_hex(&sp.parent_span_id),
        service_name: clone_opt(service),
        name: sp.name.clone(),
        kind: Some(kind_name(sp.kind)),
        start_time: sp.start_time_unix_nano as i64,
        end_time: Some(sp.end_time_unix_nano as i64),
        level,
        target: find_target(&sp.attributes),
        attributes: attributes_json(&sp.attributes),
        events: span_events_json(&sp.events),
        status: match &sp.status {
            Some(st) => Some(status_name(st.code)),
            None => None,
        },
    }
}

#[verifier::spinoff_prover]
#[verifier::rlimit(40)]
fn convert_scope_spans(service: &Option<String>, scopes: &Vec<ScopeSpans>, out: &mut Vec<SpanRecord>)
    ensures
        span_views(final(out)@) == span_views(old(out)@) + spans_of_scopes(*service, scopes@),
{
    let ghost start = span_views(out@);
    let mut i: usize = 0;
    assert(scopes@.take(0) =~= Seq::<ScopeSpans>::empty());
    assert(span_views(out@) =~= start + spans_of_scopes(*service, scopes@.take(0)));
    while i < scopes.len()
        invariant
            0 <= i <= scopes@.len(),
            span_views(out@) == start + spans_of_scopes(*service, scopes@.take(i as int)),
        decreases scopes@.len() - i,
    {
        let level = scope_level(&scopes[i].scope);
        let spans = &scopes[i].spans;
        let ghost lv = scope_level_of(scopes@[i as int].scope);
        let ghost before = span_views(out@);
        let mut j: usize = 0;
        assert(spans@.take(0).map_values(|sp: OtlpSpan| span_view(*service, lv, sp)) =~= Seq::<SpanRecordView>::empty());
        assert(span_views(out@) =~= before + spans@.take(0).map_values(|sp: OtlpSpan| span_view(*service, lv, sp)));
        while j < spans.len()
            invariant
                0 <= j <= spans@.len(),
                level == lv,
                span_views(out@) == before + spans@.take(j as int).map_values(
                    |sp: OtlpSpan| span_view(*service, lv, sp),
                ),
            decreases spans@.len() - j,
        {
            let rec = convert_span(service, level, &spans[j]);
            let ghost prev = out@;
            out.push(rec);
            assert(span_views(out@) =~= span_views(prev).push(rec@));
            assert(spans@.take(j + 1).map_values(|sp: OtlpSpan| span_view(*service, lv, sp))
                =~= spans@.take(j as int).map_values(|sp: OtlpSpan| span_view(*service, lv, sp)).push(
                span_view(*service, lv, spans@[j as int]),
            ));
            j = j + 1;
        }
        assert(spans@.take(spans@.len() as int) =~= spans@);
        assert(scopes@.take(i + 1).drop_last() =~= scopes@.take(i as int));
        assert(span_views(out@) =~= start + spans_of_scopes(*service, scopes@.take(i + 1)));
        i = i + 1;
    }
    assert(scopes@.take(scopes@.len() as int) =~= scopes@);
}

/// Converts an OTLP traces export request into stored spans, one for each
/// span, in the order of the request; each span's events are kept with it
/// as JSON.
pub fn convert_otlp_traces(request: ExportTraceServiceRequest) -> (spans: Vec<SpanRecord>)
    ensures
        span_views(spans@) == spans_of_resources(request.resource_spans@),
{
    let resources = &request.resource_spans;
    let mut spans: Vec<SpanRecord> = Vec::new();
    let mut i: usize = 0;
    assert(resources@.take(0) =~= Seq::<ResourceSpans>::empty());
    assert(span_views(spans@) =~= Seq::<SpanRecordView>::empty());
    while i < resources.len()
        invariant
            0 <= i <= resources@.len(),
            span_views(spans@) == spans_of_resources(resources@.take(i as int)),
        decreases resources@.len() - i,
    {
        let service_name = find_service_name(&resources[i].resource);
        convert_scope_spans(&service_name, &resources[i].scope_spans, &mut spans);
        assert(resources@.take(i + 1).drop_last() =~= resources@.take(i as int));
        i = i + 1;
    }
    assert(resources@.take(resources@.len() as int) =~= resources@);
    spans
}

/// The level of an OTLP severity number (`Level::from_severity`).
pub fn severity_to_level(severity: i32) -> (r: Option<Level>)
    ensures
        r == Level::of_severity(severity as int),
{
    Level::from_severity(severity)
}

} // verus!
