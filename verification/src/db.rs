//! The stored records, the filters that select them, and the SQL text and
//! parameters that each filter turns into. The store itself (an SQLite
//! connection) is driven by the application; the statements it runs are
//! built and proved here.
use vstd::prelude::*;
use vstd::string::*;
use crate::level::Level;
use crate::text::{int_text, i64_to_string};

verus! {

/// The view of an optional text.
pub open spec fn opt_view(o: Option<String>) -> Option<Seq<char>> {
    match o {
        Some(s) => Some(s@),
        None => None,
    }
}

/// A stored log record.
#[derive(Debug, Clone)]
pub struct LogRecord {
    pub timestamp: i64,
    pub service_name: Option<String>,
    pub level: Option<Level>,
    pub target: Option<String>,
    pub message: Option<String>,
    pub span_id: Option<String>,
    pub trace_id: Option<String>,
    pub attributes: Option<String>,
}

/// The value of a log record, with its texts as character sequences.
pub struct LogRecordView {
    pub timestamp: i64,
    pub service_name: Option<Seq<char>>,
    pub level: Option<Level>,
    pub target: Option<Seq<char>>,
    pub message: Option<Seq<char>>,
    pub span_id: Option<Seq<char>>,
    pub trace_id: Option<Seq<char>>,
    pub attributes: Option<Seq<char>>,
}

impl View for LogRecord {
    type V = LogRecordView;

    open spec fn view(&self) -> LogRecordView {
        LogRecordView {
            timestamp: self.timestamp,
            service_name: opt_view(self.service_name),
            level: self.level,
            target: opt_view(self.target),
            message: opt_view(self.message),
            span_id: opt_view(self.span_id),
            trace_id: opt_view(self.trace_id),
            attributes: opt_view(self.attributes),
        }
    }
}

/// A stored span.
#[derive(Debug, Clone)]
pub struct SpanRecord {
    pub trace_id: String,
    pub span_id: String,
    pub parent_span_id: Option<String>,
    pub service_name: Option<String>,
    pub name: String,
    pub kind: Option<String>,
    pub start_time: i64,
    pub end_time: Option<i64>,
    pub level: Option<Level>,
    pub target: Option<String>,
    pub attributes: Option<String>,
    pub events: Option<String>,
    pub status: Option<String>,
}

/// The value of a span, with its texts as character sequences.
pub struct SpanRecordView {
    pub trace_id: Seq<char>,
    pub span_id: Seq<char>,
    pub parent_span_id: Option<Seq<char>>,
    pub service_name: Option<Seq<char>>,
    pub name: Seq<char>,
    pub kind: Option<Seq<char>>,
    pub start_time: i64,
    pub end_time: Option<i64>,
    pub level: Option<Level>,
    pub target: Option<Seq<char>>,
    pub attributes: Option<Seq<char>>,
    pub events: Option<Seq<char>>,
    pub status: Option<Seq<char>>,
}

impl View for SpanRecord {
    type V = SpanRecordView;

    open spec fn view(&self) -> SpanRecordView {
        SpanRecordView {
            trace_id: self.trace_id@,
            span_id: self.span_id@,
            parent_span_id: opt_view(self.parent_span_id),
            service_name: opt_view(self.service_name),
            name: self.name@,
            kind: opt_view(self.kind),
            start_time: self.start_time,
            end_time: self.end_time,
            level: self.level,
            target: opt_view(self.target),
            attributes: opt_view(self.attributes),
            events: opt_view(self.events),
            status: opt_view(self.status),
        }
    }
}

/// A stored span event.
#[derive(Debug, Clone)]
pub struct SpanEventRecord {
    pub span_id: String,
    pub trace_id: String,
    pub service_name: Option<String>,
    pub name: String,
    pub timestamp: i64,
    pub level: Option<Level>,
    pub target: Option<String>,
    pub attributes: Option<String>,
}

/// Selection by time: records newer than `lookback_seconds` before now,
/// and records newer than the timestamp `starting_at`.
#[derive(Debug, Clone, Default)]
pub struct CursorFilter {
    pub lookback_seconds: Option<i64>,
    pub starting_at: Option<i64>,
}

/// Selection by service, minimum level, target and message fragment.
#[derive(Debug, Clone, Default)]
pub struct CommonFilters {
    pub service_name: Option<String>,
    pub level: Option<Level>,
    pub target: Option<String>,
    pub message: Option<String>,
}

#[derive(Debug, Clone, Default)]
pub struct LogFilter {
    pub common: CommonFilters,
    pub cursor: CursorFilter,
    pub span_id: Option<String>,
}

#[derive(Debug, Clone, Default)]
pub struct SpanFilter {
    pub common: CommonFilters,
    pub cursor: CursorFilter,
    pub span_id: Option<String>,
    pub trace_id: Option<String>,
}

#[derive(Debug, Clone, Default)]
pub struct SpanEventFilter {
    pub common: CommonFilters,
    pub cursor: CursorFilter,
    pub span_id: Option<String>,
    pub trace_id: Option<String>,
}

/// Counts and bounds of what the store holds.
#[derive(Debug, Clone)]
pub struct DatabaseStats {
    pub total_logs: i64,
    pub total_spans: i64,
    pub oldest_log_timestamp: Option<i64>,
    pub newest_log_timestamp: Option<i64>,
    pub oldest_span_timestamp: Option<i64>,
    pub newest_span_timestamp: Option<i64>,
    pub database_size_bytes: Option<i64>,
}

/// A value bound to a `?` placeholder of a statement.
#[derive(Debug, Clone)]
pub enum SqlParam {
    Null,
    Int(i64),
    Text(String),
}

pub enum SqlParamView {
    Null,
    Int(i64),
    Text(Seq<char>),
}

impl View for SqlParam {
    type V = SqlParamView;

    open spec fn view(&self) -> SqlParamView {
        match self {
            SqlParam::Null => SqlParamView::Null,
            SqlParam::Int(n) => SqlParamView::Int(*n),
            SqlParam::Text(s) => SqlParamView::Text(s@),
        }
    }
}

pub open spec fn params_view(p: Seq<SqlParam>) -> Seq<SqlParamView> {
    p.map_values(|x: SqlParam| x@)
}

/// A statement and the values of its placeholders, in order.
#[derive(Debug, Clone)]
pub struct SqlQuery {
    pub text: String,
    pub params: Vec<SqlParam>,
}

/// Why a statement could not be built: the lookback reaches a time that
/// nanoseconds since the epoch in an `i64` cannot express (or the clock
/// gave no such time).
#[derive(Debug, Clone, Copy, PartialEq, Eq, Structural)]
pub enum FilterError {
    TimestampOutOfRange,
}

/// The cutoff for a lookback: `now` less `lookback` seconds, in
/// nanoseconds, where it fits in an `i64`.
pub open spec fn lookback_cutoff(now_nanos: i64, lookback: i64) -> Option<i64> {
    let c = now_nanos - lookback * 1_000_000_000;
    if i64::MIN <= c <= i64::MAX {
        Some(c as i64)
    } else {
        None
    }
}

pub fn compute_lookback_cutoff(now_nanos: i64, lookback: i64) -> (r: Option<i64>)
    ensures
        r == lookback_cutoff(now_nanos, lookback),
{
    let c: i128 = (now_nanos as i128) - (lookback as i128) * 1_000_000_000i128;
    if c >= (i64::MIN as i128) && c <= (i64::MAX as i128) {
        Some(c as i64)
    } else {
        None
    }
}

/// `std::time::SystemTime`, carried opaquely.
#[verifier::external_type_specification]
#[verifier::external_body]
pub struct ExSystemTime(std::time::SystemTime);

/// `SystemTime::now()`: the system clock's reading. Nothing is stated of
/// it: it is the clock's.
#[verifier::external_body]
fn system_time_now() -> (r: std::time::SystemTime) {
    std::time::SystemTime::now()
}

/// `t.duration_since(UNIX_EPOCH)` as whole seconds and the nanoseconds
/// past them (`as_secs`, `subsec_nanos`); none where `t` is before the
/// epoch. The nanoseconds are below one billion, as `subsec_nanos`
/// documents.
#[verifier::external_body]
fn seconds_since_epoch(t: &std::time::SystemTime) -> (r: Option<(u64, u32)>)
    ensures
        r matches Some(p) ==> p.1 < 1_000_000_000,
{
    match t.duration_since(std::time::UNIX_EPOCH) {
        Ok(d) => Some((d.as_secs(), d.subsec_nanos())),
        Err(_) => None,
    }
}

/// Nanoseconds since the epoch of a time given in seconds and nanoseconds,
/// where they fit in an `i64`.
pub open spec fn nanos_since_epoch(secs: i64, nanos: u32) -> Option<i64> {
    let n = secs * 1_000_000_000 + nanos;
    if n <= i64::MAX {
        Some(n as i64)
    } else {
        None
    }
}

/// `DateTime::<Utc>::from_timestamp(secs, nanos)` then
/// `timestamp_nanos_opt()`: for a time after the epoch and nanoseconds
/// below one billion, `secs * 1_000_000_000 + nanos` where that fits in an
/// `i64` (every such time is in chrono's range), none otherwise.
#[verifier::external_body]
fn utc_timestamp_nanos(secs: i64, nanos: u32) -> (r: Option<i64>)
    requires
        0 <= secs,
        nanos < 1_000_000_000,
    ensures
        r == nanos_since_epoch(secs, nanos),
{
    chrono::DateTime::<chrono::Utc>::from_timestamp(secs, nanos).and_then(|dt| dt.timestamp_nanos_opt())
}

/// The current time as nanoseconds since the Unix epoch, as
/// `Utc::now().timestamp_nanos_opt()` reads it; `None` where the clock
/// reads before the epoch (where `Utc::now` would panic) or the time does
/// not fit in an `i64`. Nothing more is stated of the value: it is the
/// clock's.
fn clock_nanos() -> (r: Option<i64>)
    ensures
        r matches Some(n) ==> n >= 0,
{
    let t = system_time_now();
    match seconds_since_epoch(&t) {
        Some((secs, nanos)) => {
            if secs <= 9223372036854775807u64 {
                utc_timestamp_nanos(secs as i64, nanos)
            } else {
                None
            }
        },
        None => None,
    }
}

/// The clauses that time-based selection adds on `column`.
pub open spec fn cursor_clauses(f: CursorFilter, column: Seq<char>) -> Seq<char> {
    (if f.lookback_seconds is Some {
        " AND "@ + column + " > ?"@
    } else {
        Seq::empty()
    }) + (if f.starting_at is Some {
        " AND "@ + column + " > ?"@
    } else {
        Seq::empty()
    })
}

/// The values that time-based selection binds, given the lookback cutoff.
pub open spec fn cursor_params(f: CursorFilter, cutoff: i64) -> Seq<SqlParamView> {
    (if f.lookback_seconds is Some {
        seq![SqlParamView::Int(cutoff)]
    } else {
        Seq::empty()
    }) + (match f.starting_at {
        Some(after) => seq![SqlParamView::Int(after)],
        None => Seq::empty(),
    })
}

/// Whether `q1` and `p1` are `q0` and `p0` with the time clauses on
/// `column` appended, the lookback measured from `now`.
pub open spec fn cursor_applied(
    f: CursorFilter,
    column: Seq<char>,
    now: i64,
    q0: Seq<char>,
    q1: Seq<char>,
    p0: Seq<SqlParamView>,
    p1: Seq<SqlParamView>,
) -> bool {
    &&& (f.lookback_seconds matches Some(lb) ==> lookback_cutoff(now, lb) is Some)
    &&& q1 == q0 + cursor_clauses(f, column)
    &&& p1 == p0 + cursor_params(
        f,
        match f.lookback_seconds {
            Some(lb) => lookback_cutoff(now, lb).unwrap(),
            None => 0,
        },
    )
}

fn push_clause(query: &mut String, column: &str)
    ensures
        final(query)@ == old(query)@ + " AND "@ + column@ + " > ?"@,
{
    query.append(" AND ");
    query.append(column);
    query.append(" > ?");
}

impl CursorFilter {
    /// Appends the time clauses on `column`, with the lookback cut off at
    /// `now_nanos` less the lookback.
    pub fn filter_column_at(
        &self,
        column: &str,
        now_nanos: i64,
        query: &mut String,
        params: &mut Vec<SqlParam>,
    ) -> (r: Result<(), FilterError>)
        ensures
            match r {
                Ok(()) => cursor_applied(
                    *self,
                    column@,
                    now_nanos,
                    old(query)@,
                    final(query)@,
                    params_view(old(params)@),
                    params_view(final(params)@),
                ),
                Err(FilterError::TimestampOutOfRange) => {
                    &&& self.lookback_seconds matches Some(lb)
                    &&& lookback_cutoff(now_nanos, lb) is None
                    &&& final(query)@ == old(query)@
                    &&& final(params)@ == old(params)@
                },
            },
    {
        let ghost q0 = query@;
        let ghost p0 = params_view(params@);
        let mut cutoff: i64 = 0;
        match self.lookback_seconds {
            Some(lb) => {
                match compute_lookback_cutoff(now_nanos, lb) {
                    Some(c) => {
                        cutoff = c;
                    },
                    None => {
                        return Err(FilterError::TimestampOutOfRange);
                    },
                }
            },
            None => {},
        }
        if self.lookback_seconds.is_some() {
            push_clause(query, column);
            params.push(SqlParam::Int(cutoff));
        }
        match self.starting_at {
            Some(after) => {
                push_clause(query, column);
                params.push(SqlParam::Int(after));
            },
            None => {},
        }
        assert(query@ =~= q0 + cursor_clauses(*self, column@));
        assert(params_view(params@) =~= p0 + cursor_params(*self, cutoff));
        Ok(())
    }

    /// Appends the time clauses on the `timestamp` column of logs and events,
    /// the lookback measured from the clock.
    pub fn filter_query(&self, query: &mut String, params: &mut Vec<SqlParam>) -> (r: Result<
        (),
        FilterError,
    >)
        ensures
            r is Ok ==> exists|now: i64|
                0 <= now && #[trigger] cursor_applied(*self, "timestamp"@, now, old(query)@, final(query)@, params_view(old(params)@), params_view(final(params)@)),
            r is Err ==> self.lookback_seconds is Some && final(query)@ == old(query)@
                && final(params)@ == old(params)@,
    {
        self.filter_with_clock("timestamp", query, params)
    }

    /// Appends the time clauses on the `start_time` column of spans.
    pub fn filter_spans(&self, query: &mut String, params: &mut Vec<SqlParam>) -> (r: Result<
        (),
        FilterError,
    >)
        ensures
            r is Ok ==> exists|now: i64|
                0 <= now && #[trigger] cursor_applied(*self, "start_time"@, now, old(query)@, final(query)@, params_view(old(params)@), params_view(final(params)@)),
            r is Err ==> self.lookback_seconds is Some && final(query)@ == old(query)@
                && final(params)@ == old(params)@,
    {
        self.filter_with_clock("start_time", query, params)
    }

    fn filter_with_clock(&self, column: &str, query: &mut String, params: &mut Vec<SqlParam>) -> (r:
        Result<(), FilterError>)
        ensures
            r is Ok ==> exists|now: i64|
                0 <= now && #[trigger] cursor_applied(*self, column@, now, old(query)@, final(query)@, params_view(old(params)@), params_view(final(params)@)),
            r is Err ==> self.lookback_seconds is Some && final(query)@ == old(query)@
                && final(params)@ == old(params)@,
    {
        let now = if self.lookback_seconds.is_some() {
            match clock_nanos() {
                Some(n) => n,
                None => {
                    return Err(FilterError::TimestampOutOfRange);
                },
            }
        } else {
            0
        };
        let ghost q0 = query@;
        let ghost p0 = params_view(params@);
        let r = self.filter_column_at(column, now, query, params);
        assert(r is Ok ==> cursor_applied(*self, column@, now, q0, query@, p0, params_view(params@)));
        r
    }
}

/// The clauses that the common filters add.
pub open spec fn common_clauses(f: CommonFilters) -> Seq<char> {
    (if f.service_name is Some {
        " AND service_name = ?"@
    } else {
        Seq::empty()
    }) + (if f.level is Some {
        " AND level >= ?"@
    } else {
        Seq::empty()
    }) + (if f.target is Some {
        " AND target = ?"@
    } else {
        Seq::empty()
    }) + (if f.message is Some {
        " AND message LIKE ?"@
    } else {
        Seq::empty()
    })
}

/// The values that the common filters bind: the service name, the rank of
/// the minimum level (records at that level or above are kept), the target,
/// and the message fragment wrapped in `%` wildcards.
pub open spec fn common_params(f: CommonFilters) -> Seq<SqlParamView> {
    (match f.service_name {
        Some(s) => seq![SqlParamView::Text(s@)],
        None => Seq::empty(),
    }) + (match f.level {
        Some(l) => seq![SqlParamView::Int(l.rank() as i64)],
        None => Seq::empty(),
    }) + (match f.target {
        Some(t) => seq![SqlParamView::Text(t@)],
        None => Seq::empty(),
    }) + (match f.message {
        Some(m) => seq![SqlParamView::Text("%"@ + m@ + "%"@)],
        None => Seq::empty(),
    })
}

impl CommonFilters {
    /// Appends the clauses and values of the common filters.
    pub fn filter_query(&self, query: &mut String, params: &mut Vec<SqlParam>)
        ensures
            final(query)@ == old(query)@ + common_clauses(*self),
            params_view(final(params)@) == params_view(old(params)@) + common_params(*self),
    {
        let ghost q0 = query@;
        let ghost p0 = params_view(params@);
        match &self.service_name {
            Some(service_name) => {
                query.append(" AND service_name = ?");
                params.push(SqlParam::Text(service_name.clone()));
            },
            None => {},
        }
        match &self.level {
            Some(level) => {
                query.append(" AND level >= ?");
                let n = level.to_int();
                params.push(SqlParam::Int(n as i64));
            },
            None => {},
        }
        match &self.target {
            Some(target) => {
                query.append(" AND target = ?");
                params.push(SqlParam::Text(target.clone()));
            },
            None => {},
        }
        match &self.message {
            Some(message) => {
                query.append(" AND message LIKE ?");
                let mut pattern = String::from_str("%");
                pattern.append(message.as_str());
                pattern.append("%");
                params.push(SqlParam::Text(pattern));
            },
            None => {},
        }
        assert(query@ =~= q0 + common_clauses(*self));
        assert(params_view(params@) =~= p0 + common_params(*self));
    }
}

/// A clause `" AND <column> = ?"` with its value, where `v` is given.
pub open spec fn eq_clause(column: Seq<char>, v: Option<String>) -> Seq<char> {
    if v is Some {
        " AND "@ + column + " = ?"@
    } else {
        Seq::empty()
    }
}

pub open spec fn eq_param(v: Option<String>) -> Seq<SqlParamView> {
    match v {
        Some(s) => seq![SqlParamView::Text(s@)],
        None => Seq::empty(),
    }
}

fn push_eq(column: &str, v: &Option<String>, query: &mut String, params: &mut Vec<SqlParam>)
    ensures
        final(query)@ == old(query)@ + eq_clause(column@, *v),
        params_view(final(params)@) == params_view(old(params)@) + eq_param(*v),
{
    let ghost q0 = query@;
    let ghost p0 = params_view(params@);
    match v {
        Some(x) => {
            query.append(" AND ");
            query.append(column);
            query.append(" = ?");
            params.push(SqlParam::Text(x.clone()));
        },
        None => {},
    }
    assert(query@ =~= q0 + eq_clause(column@, *v));
    assert(params_view(params@) =~= p0 + eq_param(*v));
}

/// The cutoff that the cursor of a filter binds, given the time `now`.
pub open spec fn cutoff_of(f: CursorFilter, now: i64) -> i64 {
    match f.lookback_seconds {
        Some(lb) => lookback_cutoff(now, lb).unwrap(),
        None => 0,
    }
}

/// Whether a filter's lookback can be measured from `now`.
pub open spec fn cursor_fits(f: CursorFilter, now: i64) -> bool {
    f.lookback_seconds matches Some(lb) ==> lookback_cutoff(now, lb) is Some
}

pub open spec fn log_select() -> Seq<char> {
    "SELECT id, timestamp, service_name, level, target, message, span_id, trace_id, attributes FROM logs WHERE 1=1"@
}

pub open spec fn span_select() -> Seq<char> {
    "SELECT trace_id, span_id, parent_span_id, service_name, name, kind, start_time, end_time, level, target, attributes, events, status FROM spans"@
}

pub open spec fn event_select() -> Seq<char> {
    "SELECT span_id, trace_id, service_name, name, timestamp, level, target, attributes FROM span_events WHERE 1=1"@
}

/// The statement that selects the logs of a filter.
pub open spec fn log_statement_text(f: LogFilter) -> Seq<char> {
    log_select() + cursor_clauses(f.cursor, "timestamp"@) + common_clauses(f.common) + eq_clause(
        "span_id"@,
        f.span_id,
    ) + " ORDER BY timestamp ASC"@
}

pub open spec fn log_statement_params(f: LogFilter, now: i64) -> Seq<SqlParamView> {
    cursor_params(f.cursor, cutoff_of(f.cursor, now)) + common_params(f.common) + eq_param(
        f.span_id,
    )
}

/// The statement that selects the spans of a filter (before their
/// descendants are added).
pub open spec fn span_statement_text(f: SpanFilter) -> Seq<char> {
    span_select() + " WHERE 1=1"@ + cursor_clauses(f.cursor, "start_time"@) + common_clauses(
        f.common,
    ) + eq_clause("span_id"@, f.span_id) + eq_clause("trace_id"@, f.trace_id)
        + " ORDER BY start_time ASC"@
}

pub open spec fn span_statement_params(f: SpanFilter, now: i64) -> Seq<SqlParamView> {
    cursor_params(f.cursor, cutoff_of(f.cursor, now)) + common_params(f.common) + eq_param(
        f.span_id,
    ) + eq_param(f.trace_id)
}

/// The statement that selects the span events of a filter.
pub open spec fn event_statement_text(f: SpanEventFilter) -> Seq<char> {
    event_select() + cursor_clauses(f.cursor, "timestamp"@) + common_clauses(f.common)
        + eq_clause("span_id"@, f.span_id) + eq_clause("trace_id"@, f.trace_id)
        + " ORDER BY timestamp ASC"@
}

pub open spec fn event_statement_params(f: SpanEventFilter, now: i64) -> Seq<SqlParamView> {
    cursor_params(f.cursor, cutoff_of(f.cursor, now)) + common_params(f.common) + eq_param(
        f.span_id,
    ) + eq_param(f.trace_id)
}

/// Whether `q` is a statement with the given text and values.
pub open spec fn is_statement(q: SqlQuery, text: Seq<char>, params: Seq<SqlParamView>) -> bool {
    q.text@ == text && params_view(q.params@) == params
}

impl LogFilter {
    /// The statement selecting this filter's logs, oldest first, the lookback
    /// measured from `now_nanos`.
    pub fn statement_at(&self, now_nanos: i64) -> (r: Result<SqlQuery, FilterError>)
        ensures
            match r {
                Ok(q) => cursor_fits(self.cursor, now_nanos) && is_statement(
                    q,
                    log_statement_text(*self),
                    log_statement_params(*self, now_nanos),
                ),
                Err(_) => !cursor_fits(self.cursor, now_nanos),
            },
    {
        let mut query = String::from_str(
            "SELECT id, timestamp, service_name, level, target, message, span_id, trace_id, attributes FROM logs WHERE 1=1",
        );
        let mut params: Vec<SqlParam> = Vec::new();
        let r = self.cursor.filter_column_at("timestamp", now_nanos, &mut query, &mut params);
        if r.is_err() {
            return Err(FilterError::TimestampOutOfRange);
        }
        self.common.filter_query(&mut query, &mut params);
        push_eq("span_id", &self.span_id, &mut query, &mut params);
        query.append(" ORDER BY timestamp ASC");
        assert(params_view(Seq::<SqlParam>::empty()) =~= Seq::<SqlParamView>::empty());
        Ok(SqlQuery { text: query, params })
    }

    /// The statement selecting this filter's logs, the lookback measured from
    /// the clock.
    pub fn statement(&self) -> (r: Result<SqlQuery, FilterError>)
        ensures
            r matches Ok(q) ==> exists|now: i64|
                0 <= now && cursor_fits(self.cursor, now) && #[trigger] is_statement(
                    q,
                    log_statement_text(*self),
                    log_statement_params(*self, now),
                ),
            r is Err ==> self.cursor.lookback_seconds is Some,
    {
        let now = if self.cursor.lookback_seconds.is_some() {
            match clock_nanos() {
                Some(n) => n,
                None => {
                    return Err(FilterError::TimestampOutOfRange);
                },
            }
        } else {
            0
        };
        self.statement_at(now)
    }
}

impl SpanFilter {
    /// The statement selecting this filter's spans, oldest first, the
    /// lookback measured from `now_nanos`.
    pub fn statement_at(&self, now_nanos: i64) -> (r: Result<SqlQuery, FilterError>)
        ensures
            match r {
                Ok(q) => cursor_fits(self.cursor, now_nanos) && is_statement(
                    q,
                    span_statement_text(*self),
                    span_statement_params(*self, now_nanos),
                ),
                Err(_) => !cursor_fits(self.cursor, now_nanos),
            },
    {
        let mut query = String::from_str(
            "SELECT trace_id, span_id, parent_span_id, service_name, name, kind, start_time, end_time, level, target, attributes, events, status FROM spans",
        );
        query.append(" WHERE 1=1");
        let mut params: Vec<SqlParam> = Vec::new();
        let r = self.cursor.filter_column_at("start_time", now_nanos, &mut query, &mut params);
        if r.is_err() {
            return Err(FilterError::TimestampOutOfRange);
        }
        self.common.filter_query(&mut query, &mut params);
        push_eq("span_id", &self.span_id, &mut query, &mut params);
        push_eq("trace_id", &self.trace_id, &mut query, &mut params);
        query.append(" ORDER BY start_time ASC");
        assert(params_view(Seq::<SqlParam>::empty()) =~= Seq::<SqlParamView>::empty());
        Ok(SqlQuery { text: query, params })
    }

    /// The statement selecting this filter's spans, the lookback measured
    /// from the clock.
    pub fn statement(&self) -> (r: Result<SqlQuery, FilterError>)
        ensures
            r matches Ok(q) ==> exists|now: i64|
                0 <= now && cursor_fits(self.cursor, now) && #[trigger] is_statement(
                    q,
                    span_statement_text(*self),
                    span_statement_params(*self, now),
                ),
            r is Err ==> self.cursor.lookback_seconds is Some,
    {
        let now = if self.cursor.lookback_seconds.is_some() {
            match clock_nanos() {
                Some(n) => n,
                None => {
                    return Err(FilterError::TimestampOutOfRange);
                },
            }
        } else {
            0
        };
        self.statement_at(now)
    }
}

impl SpanEventFilter {
    /// The statement selecting this filter's span events, oldest first, the
    /// lookback measured from `now_nanos`.
    pub fn statement_at(&self, now_nanos: i64) -> (r: Result<SqlQuery, FilterError>)
        ensures
            match r {
                Ok(q) => cursor_fits(self.cursor, now_nanos) && is_statement(
                    q,
                    event_statement_text(*self),
                    event_statement_params(*self, now_nanos),
                ),
                Err(_) => !cursor_fits(self.cursor, now_nanos),
            },
    {
        let mut query = String::from_str(
            "SELECT span_id, trace_id, service_name, name, timestamp, level, target, attributes FROM span_events WHERE 1=1",
        );
        let mut params: Vec<SqlParam> = Vec::new();
        let r = self.cursor.filter_column_at("timestamp", now_nanos, &mut query, &mut params);
        if r.is_err() {
            return Err(FilterError::TimestampOutOfRange);
        }
        self.common.filter_query(&mut query, &mut params);
        push_eq("span_id", &self.span_id, &mut query, &mut params);
        push_eq("trace_id", &self.trace_id, &mut query, &mut params);
        query.append(" ORDER BY timestamp ASC");
        assert(params_view(Seq::<SqlParam>::empty()) =~= Seq::<SqlParamView>::empty());
        Ok(SqlQuery { text: query, params })
    }

    /// The statement selecting this filter's span events, the lookback
    /// measured from the clock.
    pub fn statement(&self) -> (r: Result<SqlQuery, FilterError>)
        ensures
            r matches Ok(q) ==> exists|now: i64|
                0 <= now && cursor_fits(self.cursor, now) && #[trigger] is_statement(
                    q,
                    event_statement_text(*self),
                    event_statement_params(*self, now),
                ),
            r is Err ==> self.cursor.lookback_seconds is Some,
    {
        let now = if self.cursor.lookback_seconds.is_some() {
            match clock_nanos() {
                Some(n) => n,
                None => {
                    return Err(FilterError::TimestampOutOfRange);
                },
            }
        } else {
            0
        };
        self.statement_at(now)
    }
}

/// `?,?,...,?` with `n` placeholders.
pub open spec fn placeholders(n: nat) -> Seq<char>
    decreases n,
{
    if n == 0 {
        Seq::empty()
    } else if n == 1 {
        "?"@
    } else {
        placeholders((n - 1) as nat) + ",?"@
    }
}

/// The statement that selects the spans whose parent is one of `n` given
/// spans.
pub open spec fn children_statement_text(n: nat) -> Seq<char> {
    span_select() + " WHERE parent_span_id IN ("@ + placeholders(n) + ")"@
}

/// The span ids of a sequence of spans, as bound values.
pub open spec fn span_id_params(spans: Seq<SpanRecord>) -> Seq<SqlParamView> {
    spans.map_values(|s: SpanRecord| SqlParamView::Text(s.span_id@))
}

/// The statement that selects the children of `spans`.
pub fn children_statement(spans: &Vec<SpanRecord>) -> (q: SqlQuery)
    ensures
        is_statement(q, children_statement_text(spans@.len()), span_id_params(spans@)),
{
    let mut query = String::from_str(
        "SELECT trace_id, span_id, parent_span_id, service_name, name, kind, start_time, end_time, level, target, attributes, events, status FROM spans",
    );
    query.append(" WHERE parent_span_id IN (");
    let ghost q0 = query@;
    let mut params: Vec<SqlParam> = Vec::new();
    let mut i: usize = 0;
    assert(q0 + placeholders(0) =~= q0);
    while i < spans.len()
        invariant
            0 <= i <= spans@.len(),
            query@ == q0 + placeholders(i as nat),
            params@.len() == i,
            params_view(params@) == span_id_params(spans@.take(i as int)),
        decreases spans@.len() - i,
    {
        if i == 0 {
            query.append("?");
        } else {
            query.append(",?");
        }
        let id = spans[i].span_id.clone();
        let ghost p_before = params@;
        params.push(SqlParam::Text(id));
        proof {
            assert(params@ == p_before.push(SqlParam::Text(id)));
            assert(id@ == spans@[i as int].span_id@);
            assert(query@ =~= q0 + placeholders((i + 1) as nat));
            assert(spans@.take(i + 1) =~= spans@.take(i as int).push(spans@[i as int]));
            assert forall|j: int| 0 <= j < i + 1 implies params_view(params@)[j]
                == span_id_params(spans@.take(i + 1))[j] by {
                if j < i {
                    assert(params_view(p_before)[j] == span_id_params(spans@.take(i as int))[j]);
                    assert(params@[j] == p_before[j]);
                    assert(spans@.take(i + 1)[j] == spans@.take(i as int)[j]);
                } else {
                    assert(params@[j] == SqlParam::Text(id));
                    assert(spans@.take(i + 1)[j] == spans@[i as int]);
                }
            }
            assert(params_view(params@) =~= span_id_params(spans@.take(i + 1)));
        }
        i = i + 1;
    }
    query.append(")");
    assert(spans@.take(spans@.len() as int) =~= spans@);
    SqlQuery { text: query, params }
}

/// The walk from a set of spans down to all their descendants: each round
/// takes the spans fetched at one depth and gives the statement that fetches
/// the next depth, until a round comes back empty.
pub struct SpanTreeWalk {
    pub found: Vec<SpanRecord>,
}

impl SpanTreeWalk {
    pub fn new() -> (w: SpanTreeWalk)
        ensures
            w.found@ == Seq::<SpanRecord>::empty(),
    {
        SpanTreeWalk { found: Vec::new() }
    }

    /// Adds the spans of one depth to what was found, and returns the
    /// statement that fetches their children; `None` when the depth is empty
    /// and the walk is over.
    pub fn advance(&mut self, fetched: Vec<SpanRecord>) -> (r: Option<SqlQuery>)
        ensures
            final(self).found@ == old(self).found@ + fetched@,
            r is None <==> fetched@.len() == 0,
            r matches Some(q) ==> is_statement(
                q,
                children_statement_text(fetched@.len()),
                span_id_params(fetched@),
            ),
    {
        if fetched.len() == 0 {
            assert(self.found@ =~= self.found@ + fetched@);
            return None;
        }
        let q = children_statement(&fetched);
        let mut rest = fetched;
        self.found.append(&mut rest);
        Some(q)
    }
}

/// The creation time before which records are removed when they may be at
/// most `max_age_seconds` old at `now_nanos`, where it fits in an `i64`.
pub open spec fn retention_cutoff(now_nanos: i64, max_age_seconds: i64) -> Option<i64> {
    let c = now_nanos - max_age_seconds * 1_000_000_000;
    if i64::MIN <= c <= i64::MAX {
        Some(c as i64)
    } else {
        None
    }
}

pub fn retention_cutoff_at(now_nanos: i64, max_age_seconds: i64) -> (r: Option<i64>)
    ensures
        r == retention_cutoff(now_nanos, max_age_seconds),
{
    let c: i128 = (now_nanos as i128) - (max_age_seconds as i128) * 1_000_000_000i128;
    if c >= (i64::MIN as i128) && c <= (i64::MAX as i128) {
        Some(c as i64)
    } else {
        None
    }
}

/// The retention cutoff measured from the clock (taken as 0 where the clock
/// gives no time that fits, as the store does): the cutoff at some time
/// `now`, none only where that cutoff does not fit in an `i64`.
pub fn retention_cutoff_now(max_age_seconds: i64) -> (r: Option<i64>)
    ensures
        exists|now: i64| 0 <= now && #[trigger] retention_cutoff(now, max_age_seconds) == r,
{
    let now = match clock_nanos() {
        Some(n) => n,
        None => 0,
    };
    let r = retention_cutoff_at(now, max_age_seconds);
    assert(retention_cutoff(now, max_age_seconds) == r);
    r
}

/// The statement that cuts the logs down to the newest `?1` by creation.
pub open spec fn log_count_cleanup_text() -> Seq<char> {
    "DELETE FROM logs WHERE id IN (SELECT id FROM logs ORDER BY created_at DESC LIMIT -1 OFFSET ?1)"@
}

/// The statement that cuts the spans down to the newest `?1` by creation.
pub open spec fn span_count_cleanup_text() -> Seq<char> {
    "DELETE FROM spans WHERE id IN (SELECT id FROM spans ORDER BY created_at DESC LIMIT -1 OFFSET ?1)"@
}

/// The statements of a cleanup by count, as text and bound values: for each
/// limit that is set, on its own, the statement that cuts its table to it
/// (logs first).
pub open spec fn count_cleanup(max_logs: Option<i64>, max_spans: Option<i64>) -> Seq<(Seq<char>, Seq<SqlParamView>)> {
    (match max_logs {
        Some(n) => seq![(log_count_cleanup_text(), seq![SqlParamView::Int(n)])],
        None => Seq::empty(),
    }) + (match max_spans {
        Some(n) => seq![(span_count_cleanup_text(), seq![SqlParamView::Int(n)])],
        None => Seq::empty(),
    })
}

/// The statements that remove what was created before `cutoff`: logs,
/// spans and span events.
pub open spec fn age_cleanup(cutoff: i64) -> Seq<(Seq<char>, Seq<SqlParamView>)> {
    seq![
        ("DELETE FROM logs WHERE created_at < ?1"@, seq![SqlParamView::Int(cutoff)]),
        ("DELETE FROM spans WHERE created_at < ?1"@, seq![SqlParamView::Int(cutoff)]),
        ("DELETE FROM span_events WHERE created_at < ?1"@, seq![SqlParamView::Int(cutoff)]),
    ]
}

/// The text and bound values of each statement.
pub open spec fn statements_view(v: Seq<SqlQuery>) -> Seq<(Seq<char>, Seq<SqlParamView>)> {
    v.map_values(|q: SqlQuery| (q.text@, params_view(q.params@)))
}

fn one_int_statement(text: &str, n: i64) -> (q: SqlQuery)
    ensures
        q.text@ == text@,
        params_view(q.params@) == seq![SqlParamView::Int(n)],
{
    let params = vec![SqlParam::Int(n)];
    assert(params_view(params@) =~= seq![SqlParamView::Int(n)]);
    SqlQuery { text: String::from_str(text), params }
}

/// A limit that is set is applied whatever the other limit is: a log limit
/// gives the first statement, a span limit the last.
pub proof fn lemma_count_limits_alone(max_logs: Option<i64>, max_spans: Option<i64>)
    ensures
        max_logs matches Some(n) ==> count_cleanup(max_logs, max_spans)[0] == (
            log_count_cleanup_text(),
            seq![SqlParamView::Int(n)],
        ),
        max_spans matches Some(n) ==> count_cleanup(max_logs, max_spans).last() == (
            span_count_cleanup_text(),
            seq![SqlParamView::Int(n)],
        ),
        count_cleanup(max_logs, max_spans).len() == (if max_logs is Some { 1int } else { 0int }) + (
        if max_spans is Some {
            1int
        } else {
            0int
        }),
{
}

/// The statements of the cleanup by count: each limit that is set is
/// applied on its own.
pub fn count_cleanup_statements(max_logs: Option<i64>, max_spans: Option<i64>) -> (r: Vec<SqlQuery>)
    ensures
        statements_view(r@) == count_cleanup(max_logs, max_spans),
{
    let mut r: Vec<SqlQuery> = Vec::new();
    match max_logs {
        Some(n) => {
            r.push(one_int_statement(
                "DELETE FROM logs WHERE id IN (SELECT id FROM logs ORDER BY created_at DESC LIMIT -1 OFFSET ?1)",
                n,
            ));
        },
        None => {},
    }
    match max_spans {
        Some(n) => {
            r.push(one_int_statement(
                "DELETE FROM spans WHERE id IN (SELECT id FROM spans ORDER BY created_at DESC LIMIT -1 OFFSET ?1)",
                n,
            ));
        },
        None => {},
    }
    assert(statements_view(r@) =~= count_cleanup(max_logs, max_spans));
    r
}

/// The statements of the cleanup by age, for records created before
/// `cutoff`.
pub fn age_cleanup_statements(cutoff: i64) -> (r: Vec<SqlQuery>)
    ensures
        statements_view(r@) == age_cleanup(cutoff),
{
    let mut r: Vec<SqlQuery> = Vec::new();
    r.push(one_int_statement("DELETE FROM logs WHERE created_at < ?1", cutoff));
    r.push(one_int_statement("DELETE FROM spans WHERE created_at < ?1", cutoff));
    r.push(one_int_statement("DELETE FROM span_events WHERE created_at < ?1", cutoff));
    assert(statements_view(r@) =~= age_cleanup(cutoff));
    r
}

/// The creation time stamped on inserted records: the clock, or 0 where it
/// gives no time that fits.
pub fn creation_time() -> (r: i64) {
    match clock_nanos() {
        Some(n) => n,
        None => 0,
    }
}

pub open spec fn text_param(v: Option<String>) -> SqlParamView {
    match v {
        Some(s) => SqlParamView::Text(s@),
        None => SqlParamView::Null,
    }
}

pub open spec fn level_param(v: Option<Level>) -> SqlParamView {
    match v {
        Some(l) => SqlParamView::Int(l.rank() as i64),
        None => SqlParamView::Null,
    }
}

pub open spec fn int_param(v: Option<i64>) -> SqlParamView {
    match v {
        Some(n) => SqlParamView::Int(n),
        None => SqlParamView::Null,
    }
}

fn opt_text_param(v: &Option<String>) -> (p: SqlParam)
    ensures
        p@ == text_param(*v),
{
    match v {
        Some(s) => SqlParam::Text(s.clone()),
        None => SqlParam::Null,
    }
}

fn opt_level_param(v: &Option<Level>) -> (p: SqlParam)
    ensures
        p@ == level_param(*v),
{
    match v {
        Some(l) => {
            let n = l.to_int();
            SqlParam::Int(n as i64)
        },
        None => SqlParam::Null,
    }
}

fn opt_int_param(v: &Option<i64>) -> (p: SqlParam)
    ensures
        p@ == int_param(*v),
{
    match v {
        Some(n) => SqlParam::Int(*n),
        None => SqlParam::Null,
    }
}

pub open spec fn log_insert_text() -> Seq<char> {
    "INSERT INTO logs (timestamp, service_name, level, target, message, span_id, trace_id, attributes, created_at) VALUES (?1, ?2, ?3, ?4, ?5, ?6, ?7, ?8, ?9)"@
}

pub open spec fn span_insert_text() -> Seq<char> {
    "INSERT OR REPLACE INTO spans (trace_id, span_id, parent_span_id, service_name, name, kind, start_time, end_time, level, target, attributes, events, status, created_at) VALUES (?1, ?2, ?3, ?4, ?5, ?6, ?7, ?8, ?9, ?10, ?11, ?12, ?13, ?14)"@
}

pub open spec fn event_insert_text() -> Seq<char> {
    "INSERT INTO span_events (span_id, trace_id, service_name, name, timestamp, level, target, attributes, created_at) VALUES (?1, ?2, ?3, ?4, ?5, ?6, ?7, ?8, ?9)"@
}

impl LogRecord {
    /// The statement that stores this log, stamped with `created_at`.
    pub fn insert_statement(&self, created_at: i64) -> (q: SqlQuery)
        ensures
            is_statement(
                q,
                log_insert_text(),
                seq![
                    SqlParamView::Int(self.timestamp),
                    text_param(self.service_name),
                    level_param(self.level),
                    text_param(self.target),
                    text_param(self.message),
                    text_param(self.span_id),
                    text_param(self.trace_id),
                    text_param(self.attributes),
                    SqlParamView::Int(created_at),
                ],
            ),
    {
        let params = vec![
            SqlParam::Int(self.timestamp),
            opt_text_param(&self.service_name),
            opt_level_param(&self.level),
            opt_text_param(&self.target),
            opt_text_param(&self.message),
            opt_text_param(&self.span_id),
            opt_text_param(&self.trace_id),
            opt_text_param(&self.attributes),
            SqlParam::Int(created_at),
        ];
        let q = SqlQuery {
            text: String::from_str(
                "INSERT INTO logs (timestamp, service_name, level, target, message, span_id, trace_id, attributes, created_at) VALUES (?1, ?2, ?3, ?4, ?5, ?6, ?7, ?8, ?9)",
            ),
            params,
        };
        assert(params_view(q.params@) =~= seq![
            SqlParamView::Int(self.timestamp),
            text_param(self.service_name),
            level_param(self.level),
            text_param(self.target),
            text_param(self.message),
            text_param(self.span_id),
            text_param(self.trace_id),
            text_param(self.attributes),
            SqlParamView::Int(created_at),
        ]);
        q
    }
}

impl SpanRecord {
    /// The statement that stores this span, replacing any span with the same
    /// id, stamped with `created_at`.
    pub fn insert_statement(&self, created_at: i64) -> (q: SqlQuery)
        ensures
            is_statement(
                q,
                span_insert_text(),
                seq![
                    SqlParamView::Text(self.trace_id@),
                    SqlParamView::Text(self.span_id@),
                    text_param(self.parent_span_id),
                    text_param(self.service_name),
                    SqlParamView::Text(self.name@),
                    text_param(self.kind),
                    SqlParamView::Int(self.start_time),
                    int_param(self.end_time),
                    level_param(self.level),
                    text_param(self.target),
                    text_param(self.attributes),
                    text_param(self.events),
                    text_param(self.status),
                    SqlParamView::Int(created_at),
                ],
            ),
    {
        let params = vec![
            SqlParam::Text(self.trace_id.clone()),
            SqlParam::Text(self.span_id.clone()),
            opt_text_param(&self.parent_span_id),
            opt_text_param(&self.service_name),
            SqlParam::Text(self.name.clone()),
            opt_text_param(&self.kind),
            SqlParam::Int(self.start_time),
            opt_int_param(&self.end_time),
            opt_level_param(&self.level),
            opt_text_param(&self.target),
            opt_text_param(&self.attributes),
            opt_text_param(&self.events),
            opt_text_param(&self.status),
            SqlParam::Int(created_at),
        ];
        let q = SqlQuery {
            text: String::from_str(
                "INSERT OR REPLACE INTO spans (trace_id, span_id, parent_span_id, service_name, name, kind, start_time, end_time, level, target, attributes, events, status, created_at) VALUES (?1, ?2, ?3, ?4, ?5, ?6, ?7, ?8, ?9, ?10, ?11, ?12, ?13, ?14)",
            ),
            params,
        };
        assert(params_view(q.params@) =~= seq![
            SqlParamView::Text(self.trace_id@),
            SqlParamView::Text(self.span_id@),
            text_param(self.parent_span_id),
            text_param(self.service_name),
            SqlParamView::Text(self.name@),
            text_param(self.kind),
            SqlParamView::Int(self.start_time),
            int_param(self.end_time),
            level_param(self.level),
            text_param(self.target),
            text_param(self.attributes),
            text_param(self.events),
            text_param(self.status),
            SqlParamView::Int(created_at),
        ]);
        q
    }
}

impl SpanEventRecord {
    /// The statement that stores this event, stamped with `created_at`.
    pub fn insert_statement(&self, created_at: i64) -> (q: SqlQuery)
        ensures
            is_statement(
                q,
                event_insert_text(),
                seq![
                    SqlParamView::Text(self.span_id@),
                    SqlParamView::Text(self.trace_id@),
                    text_param(self.service_name),
                    SqlParamView::Text(self.name@),
                    SqlParamView::Int(self.timestamp),
                    level_param(self.level),
                    text_param(self.target),
                    text_param(self.attributes),
                    SqlParamView::Int(created_at),
                ],
            ),
    {
        let params = vec![
            SqlParam::Text(self.span_id.clone()),
            SqlParam::Text(self.trace_id.clone()),
            opt_text_param(&self.service_name),
            SqlParam::Text(self.name.clone()),
            SqlParam::Int(self.timestamp),
            opt_level_param(&self.level),
            opt_text_param(&self.target),
            opt_text_param(&self.attributes),
            SqlParam::Int(created_at),
        ];
        let q = SqlQuery {
            text: String::from_str(
                "INSERT INTO span_events (span_id, trace_id, service_name, name, timestamp, level, target, attributes, created_at) VALUES (?1, ?2, ?3, ?4, ?5, ?6, ?7, ?8, ?9)",
            ),
            params,
        };
        assert(params_view(q.params@) =~= seq![
            SqlParamView::Text(self.span_id@),
            SqlParamView::Text(self.trace_id@),
            text_param(self.service_name),
            SqlParamView::Text(self.name@),
            SqlParamView::Int(self.timestamp),
            level_param(self.level),
            text_param(self.target),
            text_param(self.attributes),
            SqlParamView::Int(created_at),
        ]);
        q
    }
}

} // verus!
