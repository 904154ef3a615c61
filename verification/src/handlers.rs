//! The records that the query API answers with, how they are ordered,
//! deduplicated and paged, and how the query parameters turn into filters.
use vstd::prelude::*;
use vstd::string::*;
use crate::db::{
    CommonFilters, CursorFilter, LogFilter, LogRecord, SpanEventFilter, SpanEventRecord,
    SpanFilter, SpanRecord, opt_view,
};
use crate::json::{is_json_document, json_parses};
use crate::level::Level;
use crate::text::{text_order, lemma_text_order_antisym, lemma_text_order_trans, compare_chars, chars_of};

verus! {

#[derive(Debug, Clone)]
pub struct LogResponse {
    pub timestamp: i64,
    pub service_name: Option<String>,
    pub level: Option<Level>,
    pub target: Option<String>,
    pub message: Option<String>,
    pub span_id: Option<String>,
    pub trace_id: Option<String>,
    /// The attributes as JSON text.
    pub attributes: Option<String>,
}

#[derive(Debug, Clone)]
pub struct SpanResponse {
    pub timestamp: i64,
    pub trace_id: String,
    pub span_id: String,
    pub parent_span_id: Option<String>,
    pub service_name: Option<String>,
    pub name: String,
    pub kind: Option<String>,
    pub start_time: i64,
    pub end_time: Option<i64>,
    pub level: Option<Level>,
    pub target: Option<String>,
    /// The attributes as JSON text.
    pub attributes: Option<String>,
    /// The events as JSON text.
    pub events: Option<String>,
    pub status: Option<String>,
}

#[derive(Debug, Clone)]
pub struct SpanEventResponse {
    pub timestamp: i64,
    pub span_id: String,
    pub trace_id: String,
    pub service_name: Option<String>,
    pub name: String,
    pub level: Option<Level>,
    pub target: Option<String>,
    /// The attributes as JSON text.
    pub attributes: Option<String>,
}

/// One record of any kind, as the records endpoint returns it.
#[derive(Debug, Clone)]
pub enum RecordResponse {
    Log(LogResponse),
    Span(SpanResponse),
    Event(SpanEventResponse),
}

/// A page of records with the cursor for the next page: the newest
/// timestamp among the records.
#[derive(Debug, Clone)]
pub struct PaginatedResponse {
    pub records: Vec<RecordResponse>,
    pub since: Option<i64>,
}

/// The key that identifies a record: a log by its timestamp and trace, a
/// span by its id, an event by its span and timestamp.
#[derive(Debug, Clone)]
pub enum RecordKey {
    Log { timestamp: i64, trace_id: Option<String> },
    Span { span_id: String },
    Event { span_id: String, timestamp: i64 },
}

pub enum RecordKeyView {
    Log { timestamp: i64, trace_id: Option<Seq<char>> },
    Span { span_id: Seq<char> },
    Event { span_id: Seq<char>, timestamp: i64 },
}

impl View for RecordKey {
    type V = RecordKeyView;

    open spec fn view(&self) -> RecordKeyView {
        match self {
            RecordKey::Log { timestamp, trace_id } => RecordKeyView::Log {
                timestamp: *timestamp,
                trace_id: opt_view(*trace_id),
            },
            RecordKey::Span { span_id } => RecordKeyView::Span { span_id: span_id@ },
            RecordKey::Event { span_id, timestamp } => RecordKeyView::Event {
                span_id: span_id@,
                timestamp: *timestamp,
            },
        }
    }
}

/// The timestamp of a record (a span's is its start time).
pub open spec fn timestamp_of(r: RecordResponse) -> i64 {
    match r {
        RecordResponse::Log(l) => l.timestamp,
        RecordResponse::Span(s) => s.timestamp,
        RecordResponse::Event(e) => e.timestamp,
    }
}

/// The key of a record.
pub open spec fn key_of(r: RecordResponse) -> RecordKeyView {
    match r {
        RecordResponse::Log(l) => RecordKeyView::Log {
            timestamp: l.timestamp,
            trace_id: opt_view(l.trace_id),
        },
        RecordResponse::Span(s) => RecordKeyView::Span { span_id: s.span_id@ },
        RecordResponse::Event(e) => RecordKeyView::Event {
            span_id: e.span_id@,
            timestamp: e.timestamp,
        },
    }
}

/// -1, 0 or 1 as `a` is below, equal to or above `b`.
pub open spec fn int_order(a: int, b: int) -> int {
    if a < b {
        -1
    } else if a > b {
        1
    } else {
        0
    }
}

/// The order of optional texts: absent before present.
pub open spec fn opt_text_order(a: Option<Seq<char>>, b: Option<Seq<char>>) -> int {
    match (a, b) {
        (None, None) => 0,
        (None, Some(_)) => -1,
        (Some(_), None) => 1,
        (Some(x), Some(y)) => text_order(x, y),
    }
}

pub open spec fn key_kind(k: RecordKeyView) -> int {
    match k {
        RecordKeyView::Log { .. } => 0,
        RecordKeyView::Span { .. } => 1,
        RecordKeyView::Event { .. } => 2,
    }
}

/// The order of keys: logs before spans before events, then field by field.
pub open spec fn key_order(a: RecordKeyView, b: RecordKeyView) -> int {
    match (a, b) {
        (
            RecordKeyView::Log { timestamp: t1, trace_id: r1 },
            RecordKeyView::Log { timestamp: t2, trace_id: r2 },
        ) => if t1 != t2 {
            int_order(t1 as int, t2 as int)
        } else {
            opt_text_order(r1, r2)
        },
        (RecordKeyView::Span { span_id: s1 }, RecordKeyView::Span { span_id: s2 }) => text_order(
            s1,
            s2,
        ),
        (
            RecordKeyView::Event { span_id: s1, timestamp: t1 },
            RecordKeyView::Event { span_id: s2, timestamp: t2 },
        ) => if s1 != s2 {
            text_order(s1, s2)
        } else {
            int_order(t1 as int, t2 as int)
        },
        _ => int_order(key_kind(a), key_kind(b)),
    }
}

/// The order of records: by timestamp, then by key.
pub open spec fn record_order(a: RecordResponse, b: RecordResponse) -> int {
    if timestamp_of(a) != timestamp_of(b) {
        int_order(timestamp_of(a) as int, timestamp_of(b) as int)
    } else {
        key_order(key_of(a), key_of(b))
    }
}

proof fn lemma_opt_text_order(a: Option<Seq<char>>, b: Option<Seq<char>>, c: Option<Seq<char>>)
    ensures
        opt_text_order(a, b) == -opt_text_order(b, a),
        -1 <= opt_text_order(a, b) <= 1,
        opt_text_order(a, b) == 0 <==> a == b,
        opt_text_order(a, b) <= 0 && opt_text_order(b, c) <= 0 ==> opt_text_order(a, c) <= 0,
{
    match (a, b) {
        (Some(x), Some(y)) => {
            lemma_text_order_antisym(x, y);
        },
        _ => {},
    }
    match (a, b, c) {
        (Some(x), Some(y), Some(z)) => {
            if text_order(x, y) <= 0 && text_order(y, z) <= 0 {
                lemma_text_order_trans(x, y, z);
            }
        },
        _ => {},
    }
}

proof fn lemma_key_order(a: RecordKeyView, b: RecordKeyView, c: RecordKeyView)
    ensures
        key_order(a, b) == -key_order(b, a),
        -1 <= key_order(a, b) <= 1,
        key_order(a, b) == 0 <==> a == b,
        key_order(a, b) <= 0 && key_order(b, c) <= 0 ==> key_order(a, c) <= 0,
{
    match (a, b, c) {
        (
            RecordKeyView::Log { timestamp: t1, trace_id: r1 },
            RecordKeyView::Log { timestamp: t2, trace_id: r2 },
            RecordKeyView::Log { timestamp: t3, trace_id: r3 },
        ) => {
            lemma_opt_text_order(r1, r2, r3);
        },
        (
            RecordKeyView::Span { span_id: s1 },
            RecordKeyView::Span { span_id: s2 },
            RecordKeyView::Span { span_id: s3 },
        ) => {
            lemma_text_order_antisym(s1, s2);
            if text_order(s1, s2) <= 0 && text_order(s2, s3) <= 0 {
                lemma_text_order_trans(s1, s2, s3);
            }
        },
        (
            RecordKeyView::Event { span_id: s1, timestamp: t1 },
            RecordKeyView::Event { span_id: s2, timestamp: t2 },
            RecordKeyView::Event { span_id: s3, timestamp: t3 },
        ) => {
            lemma_text_order_antisym(s1, s2);
            lemma_text_order_antisym(s2, s3);
            lemma_text_order_antisym(s1, s3);
            if text_order(s1, s2) <= 0 && text_order(s2, s3) <= 0 {
                lemma_text_order_trans(s1, s2, s3);
            }
        },
        _ => {
            match (a, b) {
                (RecordKeyView::Log { trace_id: r1, .. }, RecordKeyView::Log { trace_id: r2, .. }) => {
                    lemma_opt_text_order(r1, r2, r2);
                },
                (RecordKeyView::Span { span_id: s1 }, RecordKeyView::Span { span_id: s2 }) => {
                    lemma_text_order_antisym(s1, s2);
                },
                (RecordKeyView::Event { span_id: s1, .. }, RecordKeyView::Event { span_id: s2, .. }) => {
                    lemma_text_order_antisym(s1, s2);
                },
                _ => {},
            }
            match (b, c) {
                (RecordKeyView::Log { trace_id: r1, .. }, RecordKeyView::Log { trace_id: r2, .. }) => {
                    lemma_opt_text_order(r1, r2, r2);
                },
                (RecordKeyView::Span { span_id: s1 }, RecordKeyView::Span { span_id: s2 }) => {
                    lemma_text_order_antisym(s1, s2);
                },
                (RecordKeyView::Event { span_id: s1, .. }, RecordKeyView::Event { span_id: s2, .. }) => {
                    lemma_text_order_antisym(s1, s2);
                },
                _ => {},
            }
            match (a, c) {
                (RecordKeyView::Log { trace_id: r1, .. }, RecordKeyView::Log { trace_id: r2, .. }) => {
                    lemma_opt_text_order(r1, r2, r2);
                },
                (RecordKeyView::Span { span_id: s1 }, RecordKeyView::Span { span_id: s2 }) => {
                    lemma_text_order_antisym(s1, s2);
                },
                (RecordKeyView::Event { span_id: s1, .. }, RecordKeyView::Event { span_id: s2, .. }) => {
                    lemma_text_order_antisym(s1, s2);
                },
                _ => {},
            }
        },
    }
}

/// The order of records is a total preorder: antisymmetric, transitive,
/// and two records are level in it exactly when their timestamps and keys
/// agree.
pub proof fn lemma_record_order(a: RecordResponse, b: RecordResponse, c: RecordResponse)
    ensures
        record_order(a, b) == -record_order(b, a),
        -1 <= record_order(a, b) <= 1,
        record_order(a, b) == 0 <==> (timestamp_of(a) == timestamp_of(b) && key_of(a) == key_of(
            b,
        )),
        record_order(a, b) <= 0 && record_order(b, c) <= 0 ==> record_order(a, c) <= 0,
        record_order(a, b) == 0 ==> record_order(a, c) == record_order(b, c),
{
    lemma_key_order(key_of(a), key_of(b), key_of(c));
    lemma_key_order(key_of(b), key_of(c), key_of(a));
    lemma_key_order(key_of(a), key_of(c), key_of(b));
}

fn text_compare(a: &String, b: &String) -> (r: i8)
    ensures
        r == text_order(a@, b@),
{
    let x = chars_of(a.as_str());
    let y = chars_of(b.as_str());
    compare_chars(x.as_slice(), y.as_slice())
}

fn opt_text_compare(a: &Option<String>, b: &Option<String>) -> (r: i8)
    ensures
        r == opt_text_order(opt_view(*a), opt_view(*b)),
{
    match (a, b) {
        (None, None) => 0,
        (None, Some(_)) => -1,
        (Some(_), None) => 1,
        (Some(x), Some(y)) => text_compare(x, y),
    }
}

fn opt_text_eq(a: &Option<String>, b: &Option<String>) -> (r: bool)
    ensures
        r == (opt_view(*a) == opt_view(*b)),
{
    match (a, b) {
        (None, None) => true,
        (Some(x), Some(y)) => *x == *y,
        _ => false,
    }
}

fn i64_compare(a: i64, b: i64) -> (r: i8)
    ensures
        r == int_order(a as int, b as int),
{
    if a < b {
        -1
    } else if a > b {
        1
    } else {
        0
    }
}

impl RecordResponse {
    pub fn timestamp(&self) -> (t: i64)
        ensures
            t == timestamp_of(*self),
    {
        match self {
            RecordResponse::Log(log) => log.timestamp,
            RecordResponse::Span(span) => span.timestamp,
            RecordResponse::Event(event) => event.timestamp,
        }
    }

    /// The key that identifies this record.
    pub fn record_key(&self) -> (k: RecordKey)
        ensures
            k@ == key_of(*self),
    {
        match self {
            RecordResponse::Log(log) => RecordKey::Log {
                timestamp: log.timestamp,
                trace_id: match &log.trace_id {
                    Some(t) => Some(t.clone()),
                    None => None,
                },
            },
            RecordResponse::Span(span) => RecordKey::Span { span_id: span.span_id.clone() },
            RecordResponse::Event(event) => RecordKey::Event {
                span_id: event.span_id.clone(),
                timestamp: event.timestamp,
            },
        }
    }

    /// Whether two records have the same key.
    pub fn same_key(&self, other: &RecordResponse) -> (r: bool)
        ensures
            r == (key_of(*self) == key_of(*other)),
    {
        match (self, other) {
            (RecordResponse::Log(a), RecordResponse::Log(b)) => a.timestamp == b.timestamp
                && opt_text_eq(&a.trace_id, &b.trace_id),
            (RecordResponse::Span(a), RecordResponse::Span(b)) => a.span_id == b.span_id,
            (RecordResponse::Event(a), RecordResponse::Event(b)) => a.span_id == b.span_id
                && a.timestamp == b.timestamp,
            _ => false,
        }
    }

    /// Compares two records by timestamp, then kind, then key: -1, 0 or 1.
    pub fn order(&self, other: &RecordResponse) -> (r: i8)
        ensures
            r == record_order(*self, *other),
    {
        let ta = self.timestamp();
        let tb = other.timestamp();
        if ta != tb {
            return i64_compare(ta, tb);
        }
        match (self, other) {
            (RecordResponse::Log(a), RecordResponse::Log(b)) => {
                if a.timestamp != b.timestamp {
                    i64_compare(a.timestamp, b.timestamp)
                } else {
                    opt_text_compare(&a.trace_id, &b.trace_id)
                }
            },
            (RecordResponse::Span(a), RecordResponse::Span(b)) => text_compare(&a.span_id, &b.span_id),
            (RecordResponse::Event(a), RecordResponse::Event(b)) => {
                if a.span_id != b.span_id {
                    text_compare(&a.span_id, &b.span_id)
                } else {
                    i64_compare(a.timestamp, b.timestamp)
                }
            },
            (RecordResponse::Log(_), _) => -1,
            (RecordResponse::Span(_), RecordResponse::Log(_)) => 1,
            (RecordResponse::Span(_), _) => -1,
            (RecordResponse::Event(_), _) => 1,
        }
    }

    /// Compares two records for sorting (timestamp, then type, then unique
    /// key).
    pub fn cmp(&self, other: &RecordResponse) -> (r: std::cmp::Ordering)
        ensures
            (r == std::cmp::Ordering::Less) == (record_order(*self, *other) < 0),
            (r == std::cmp::Ordering::Equal) == (record_order(*self, *other) == 0),
            (r == std::cmp::Ordering::Greater) == (record_order(*self, *other) > 0),
    {
        let o = self.order(other);
        if o < 0 {
            std::cmp::Ordering::Less
        } else if o == 0 {
            std::cmp::Ordering::Equal
        } else {
            std::cmp::Ordering::Greater
        }
    }
}

/// The elements of `v` in reverse order.
pub fn reversed<T>(v: Vec<T>) -> (r: Vec<T>)
    ensures
        r@ == v@.reverse(),
{
    let ghost input = v@;
    let mut v = v;
    let mut r: Vec<T> = Vec::new();
    assert(input.take(input.len() as int) =~= input);
    while v.len() > 0
        invariant
            v@ == input.take(v@.len() as int),
            v@.len() <= input.len(),
            r@ == input.skip(v@.len() as int).reverse(),
        decreases v@.len(),
    {
        let ghost k = v@.len();
        let x = v.pop().unwrap();
        r.push(x);
        proof {
            assert(v@ =~= input.take(k - 1));
            assert(r@ =~= input.skip(k - 1).reverse());
        }
    }
    assert(input.skip(0) =~= input);
    r
}

/// Whether a sequence of records is in order.
pub open spec fn is_sorted(s: Seq<RecordResponse>) -> bool {
    forall|i: int, j: int| 0 <= i < j < s.len() ==> record_order(s[i], s[j]) <= 0
}

/// Where `x` goes in `s`: after the last record that does not come after it.
pub open spec fn insert_pos(s: Seq<RecordResponse>, x: RecordResponse) -> int
    decreases s.len(),
{
    if s.len() == 0 {
        0
    } else if record_order(s.last(), x) > 0 {
        insert_pos(s.drop_last(), x)
    } else {
        s.len() as int
    }
}

/// The stable sort of a sequence of records: each record in turn is
/// inserted after every record already placed that does not come after it,
/// so that records level in the order keep their relative order.
pub open spec fn stable_sort(s: Seq<RecordResponse>) -> Seq<RecordResponse>
    decreases s.len(),
{
    if s.len() == 0 {
        s
    } else {
        let t = stable_sort(s.drop_last());
        t.insert(insert_pos(t, s.last()), s.last())
    }
}

proof fn lemma_insert_pos(s: Seq<RecordResponse>, x: RecordResponse)
    requires
        is_sorted(s),
    ensures
        0 <= insert_pos(s, x) <= s.len(),
        forall|k: int| 0 <= k < insert_pos(s, x) ==> record_order(#[trigger] s[k], x) <= 0,
        forall|k: int| insert_pos(s, x) <= k < s.len() ==> record_order(#[trigger] s[k], x) > 0,
    decreases s.len(),
{
    if s.len() > 0 {
        if record_order(s.last(), x) > 0 {
            let t = s.drop_last();
            assert(is_sorted(t));
            lemma_insert_pos(t, x);
            assert forall|k: int| 0 <= k < t.len() implies s[k] == #[trigger] t[k] by {}
            assert forall|k: int| 0 <= k < insert_pos(s, x) implies record_order(#[trigger] s[k], x)
                <= 0 by {
                assert(s[k] == t[k]);
            }
            assert forall|k: int| insert_pos(s, x) <= k < s.len() implies record_order(
                #[trigger] s[k],
                x,
            ) > 0 by {
                if k < t.len() {
                    assert(s[k] == t[k]);
                }
            }
        } else {
            assert forall|k: int| 0 <= k < s.len() implies record_order(#[trigger] s[k], x) <= 0 by {
                if k < s.len() - 1 {
                    lemma_record_order(s[k], s.last(), x);
                }
            }
        }
    }
}

/// A position splitting a sorted sequence into records not after `x` and
/// records after `x` is the insertion position.
proof fn lemma_insert_pos_unique(s: Seq<RecordResponse>, x: RecordResponse, p: int)
    requires
        is_sorted(s),
        0 <= p <= s.len(),
        forall|k: int| 0 <= k < p ==> record_order(#[trigger] s[k], x) <= 0,
        forall|k: int| p <= k < s.len() ==> record_order(#[trigger] s[k], x) > 0,
    ensures
        insert_pos(s, x) == p,
{
    lemma_insert_pos(s, x);
    let q = insert_pos(s, x);
    if q < p {
        assert(record_order(s[q], x) > 0);
    } else if q > p {
        assert(record_order(s[p], x) > 0);
    }
}

proof fn lemma_insert_sorted(s: Seq<RecordResponse>, x: RecordResponse)
    requires
        is_sorted(s),
    ensures
        is_sorted(s.insert(insert_pos(s, x), x)),
{
    lemma_insert_pos(s, x);
    let p = insert_pos(s, x);
    let t = s.insert(p, x);
    assert forall|i: int, j: int| 0 <= i < j < t.len() implies record_order(t[i], t[j]) <= 0 by {
        if i < p && j == p {
        } else if i == p && j > p {
            lemma_record_order(s[j - 1], x, x);
        } else if i < p && j > p {
            assert(record_order(s[i], s[j - 1]) <= 0);
        } else if i > p {
            assert(record_order(s[i - 1], s[j - 1]) <= 0);
        } else {
            assert(record_order(s[i], s[j]) <= 0);
        }
    }
}

/// The stable sort is in order.
pub proof fn lemma_stable_sort_sorted(s: Seq<RecordResponse>)
    ensures
        is_sorted(stable_sort(s)),
        stable_sort(s).len() == s.len(),
    decreases s.len(),
{
    if s.len() > 0 {
        lemma_stable_sort_sorted(s.drop_last());
        lemma_insert_sorted(stable_sort(s.drop_last()), s.last());
        lemma_insert_pos(stable_sort(s.drop_last()), s.last());
    }
}

/// The stable sort rearranges the records: it holds each as often as the
/// input does.
pub proof fn lemma_stable_sort_permutes(s: Seq<RecordResponse>)
    ensures
        stable_sort(s).to_multiset() == s.to_multiset(),
    decreases s.len(),
{
    if s.len() > 0 {
        lemma_stable_sort_permutes(s.drop_last());
        lemma_stable_sort_sorted(s.drop_last());
        let t = stable_sort(s.drop_last());
        lemma_insert_pos(t, s.last());
        let p = insert_pos(t, s.last());
        vstd::seq_lib::lemma_multiset_commutative(t.take(p), t.skip(p));
        assert(t.take(p) + t.skip(p) =~= t);
        assert(t.insert(p, s.last()) =~= t.take(p).push(s.last()) + t.skip(p));
        vstd::seq_lib::lemma_multiset_commutative(t.take(p).push(s.last()), t.skip(p));
        assert(s =~= s.drop_last().push(s.last()));
        broadcast use vstd::seq_lib::group_to_multiset_ensures;
    }
}

/// The position at which `x` goes into the sorted `out`.
fn find_insert_pos(out: &Vec<RecordResponse>, x: &RecordResponse) -> (p: usize)
    requires
        is_sorted(out@),
    ensures
        p as int == insert_pos(out@, *x),
{
    let mut lo: usize = 0;
    let mut hi: usize = out.len();
    while lo < hi
        invariant
            is_sorted(out@),
            0 <= lo <= hi <= out@.len(),
            forall|k: int| 0 <= k < lo ==> record_order(#[trigger] out@[k], *x) <= 0,
            forall|k: int| hi <= k < out@.len() ==> record_order(#[trigger] out@[k], *x) > 0,
        decreases hi - lo,
    {
        let mid = lo + (hi - lo) / 2;
        if out[mid].order(x) <= 0 {
            proof {
                assert forall|k: int| 0 <= k <= mid implies record_order(#[trigger] out@[k], *x)
                    <= 0 by {
                    if k < mid {
                        lemma_record_order(out@[k], out@[mid as int], *x);
                    }
                }
            }
            lo = mid + 1;
        } else {
            proof {
                assert forall|k: int| mid <= k < out@.len() implies record_order(
                    #[trigger] out@[k],
                    *x,
                ) > 0 by {
                    if k > mid {
                        lemma_record_order(out@[mid as int], out@[k], *x);
                        lemma_record_order(*x, out@[mid as int], out@[k]);
                        lemma_record_order(out@[k], *x, out@[mid as int]);
                    }
                }
            }
            hi = mid;
        }
    }
    proof {
        lemma_insert_pos_unique(out@, *x, lo as int);
    }
    lo
}

/// Sorts records by timestamp, then kind, then key, keeping the relative
/// order of records that compare equal.
pub fn sort_records(records: Vec<RecordResponse>) -> (r: Vec<RecordResponse>)
    ensures
        r@ == stable_sort(records@),
{
    let ghost input = records@;
    let mut out: Vec<RecordResponse> = Vec::new();
    let mut i: usize = 0;
    let n = records.len();
    let mut rest = reversed(records);
    assert(input.take(0) =~= Seq::<RecordResponse>::empty());
    while i < n
        invariant
            n == input.len(),
            0 <= i <= n,
            out@ == stable_sort(input.take(i as int)),
            rest@ == input.skip(i as int).reverse(),
        decreases n - i,
    {
        proof {
            lemma_stable_sort_sorted(input.take(i as int));
        }
        let x = rest.pop().unwrap();
        proof {
            assert(x == input[i as int]);
            assert(rest@ =~= input.skip(i + 1).reverse());
            assert(input.take(i + 1).drop_last() =~= input.take(i as int));
        }
        let p = find_insert_pos(&out, &x);
        proof {
            lemma_insert_pos(out@, x);
        }
        out.insert(p, x);
        i = i + 1;
    }
    assert(input.take(n as int) =~= input);
    out
}

/// The records of `s` without those whose key equals that of the record
/// kept just before them (a sorted sequence keeps one record per run of
/// equal keys: the first).
pub open spec fn dedup(s: Seq<RecordResponse>) -> Seq<RecordResponse>
    decreases s.len(),
{
    if s.len() == 0 {
        s
    } else {
        let d = dedup(s.drop_last());
        if d.len() > 0 && key_of(d.last()) == key_of(s.last()) {
            d
        } else {
            d.push(s.last())
        }
    }
}

/// Removes from a vector of records every record whose key equals that of
/// the record kept before it.
pub fn deduplicate_records(records: &mut Vec<RecordResponse>)
    ensures
        final(records)@ == dedup(old(records)@),
{
    let ghost input = records@;
    let mut rest: Vec<RecordResponse> = Vec::new();
    std::mem::swap(records, &mut rest);
    let n = rest.len();
    let mut rest = reversed(rest);
    let mut i: usize = 0;
    assert(input.take(0) =~= Seq::<RecordResponse>::empty());
    while i < n
        invariant
            n == input.len(),
            0 <= i <= n,
            records@ == dedup(input.take(i as int)),
            rest@ == input.skip(i as int).reverse(),
        decreases n - i,
    {
        let x = rest.pop().unwrap();
        proof {
            assert(x == input[i as int]);
            assert(rest@ =~= input.skip(i + 1).reverse());
            assert(input.take(i + 1).drop_last() =~= input.take(i as int));
        }
        let len = records.len();
        if len > 0 && records[len - 1].same_key(&x) {
        } else {
            records.push(x);
        }
        i = i + 1;
    }
    assert(input.take(n as int) =~= input);
}

/// The first `max` records of `s`.
pub open spec fn page(s: Seq<RecordResponse>, max: usize) -> Seq<RecordResponse> {
    if s.len() > max {
        s.take(max as int)
    } else {
        s
    }
}

/// The newest timestamp among `s`; `None` when `s` is empty.
pub open spec fn max_timestamp(s: Seq<RecordResponse>) -> Option<i64>
    decreases s.len(),
{
    if s.len() == 0 {
        None
    } else {
        let t = timestamp_of(s.last());
        match max_timestamp(s.drop_last()) {
            None => Some(t),
            Some(m) => Some(if m >= t {
                m
            } else {
                t
            }),
        }
    }
}

/// The newest timestamp is the timestamp of one of the records, and no
/// record is newer.
pub proof fn lemma_max_timestamp(s: Seq<RecordResponse>)
    ensures
        max_timestamp(s) is None <==> s.len() == 0,
        max_timestamp(s) matches Some(m) ==> (exists|i: int| 0 <= i < s.len() && #[trigger] timestamp_of(s[i]) == m)
            && (forall|i: int| 0 <= i < s.len() ==> #[trigger] timestamp_of(s[i]) <= m),
    decreases s.len(),
{
    if s.len() > 0 {
        let t = s.drop_last();
        lemma_max_timestamp(t);
        assert forall|i: int| 0 <= i < t.len() implies #[trigger] t[i] == s[i] by {}
        let last = timestamp_of(s.last());
        assert(timestamp_of(s[s.len() - 1]) == last);
        match max_timestamp(t) {
            None => {
                assert forall|i: int| 0 <= i < s.len() implies #[trigger] timestamp_of(s[i]) <= last by {
                    assert(i == s.len() - 1);
                }
            },
            Some(m) => {
                let i = choose|i: int| 0 <= i < t.len() && #[trigger] timestamp_of(t[i]) == m;
                assert(timestamp_of(s[i]) == m);
                let mx: i64 = if m >= last { m } else { last };
                assert(max_timestamp(s) == Some(mx));
                assert forall|k: int| 0 <= k < s.len() implies #[trigger] timestamp_of(s[k]) <= mx by {
                    if k < t.len() {
                        assert(s[k] == t[k]);
                        assert(timestamp_of(t[k]) <= m);
                    }
                }
            },
        }
    }
}

impl PaginatedResponse {
    /// Keeps the first `max_records` records and sets the cursor to the
    /// newest timestamp among them.
    pub fn from_records(records: Vec<RecordResponse>, max_records: usize) -> (r: PaginatedResponse)
        ensures
            r.records@ == page(records@, max_records),
            r.since == max_timestamp(r.records@),
    {
        let mut records = records;
        records.truncate(max_records);
        let mut since: Option<i64> = None;
        let mut i: usize = 0;
        assert(records@.take(0) =~= Seq::<RecordResponse>::empty());
        while i < records.len()
            invariant
                0 <= i <= records@.len(),
                since == max_timestamp(records@.take(i as int)),
            decreases records@.len() - i,
        {
            let t = records[i].timestamp();
            assert(records@.take(i + 1).drop_last() =~= records@.take(i as int));
            since = match since {
                None => Some(t),
                Some(m) => Some(if m >= t {
                    m
                } else {
                    t
                }),
            };
            i = i + 1;
        }
        assert(records@.take(records@.len() as int) =~= records@);
        PaginatedResponse { records, since }
    }
}

/// Attributes kept only where they are a JSON document.
pub open spec fn json_or_none(a: Option<String>) -> Option<String> {
    match a {
        Some(t) => if is_json_document(t@) {
            Some(t)
        } else {
            None
        },
        None => None,
    }
}

fn keep_json(a: Option<String>) -> (r: Option<String>)
    ensures
        r == json_or_none(a),
{
    match a {
        Some(t) => if json_parses(t.as_str()) {
            Some(t)
        } else {
            None
        },
        None => None,
    }
}

/// The response for a stored log.
pub open spec fn log_response_of(l: LogRecord) -> LogResponse {
    LogResponse {
        timestamp: l.timestamp,
        service_name: l.service_name,
        level: l.level,
        target: l.target,
        message: l.message,
        span_id: l.span_id,
        trace_id: l.trace_id,
        attributes: json_or_none(l.attributes),
    }
}

/// The response for a stored span; its timestamp is its start time.
pub open spec fn span_response_of(s: SpanRecord) -> SpanResponse {
    SpanResponse {
        timestamp: s.start_time,
        trace_id: s.trace_id,
        span_id: s.span_id,
        parent_span_id: s.parent_span_id,
        service_name: s.service_name,
        name: s.name,
        kind: s.kind,
        start_time: s.start_time,
        end_time: s.end_time,
        level: s.level,
        target: s.target,
        attributes: json_or_none(s.attributes),
        events: json_or_none(s.events),
        status: s.status,
    }
}

/// The response for a stored span event.
pub open spec fn event_response_of(e: SpanEventRecord) -> SpanEventResponse {
    SpanEventResponse {
        timestamp: e.timestamp,
        span_id: e.span_id,
        trace_id: e.trace_id,
        service_name: e.service_name,
        name: e.name,
        level: e.level,
        target: e.target,
        attributes: json_or_none(e.attributes),
    }
}

impl LogResponse {
    /// The response for a stored log; its attributes are kept where they
    /// are valid JSON.
    pub fn from_record(log: LogRecord) -> (r: LogResponse)
        ensures
            r == log_response_of(log),
            r.timestamp == log.timestamp,
            r.service_name == log.service_name,
            r.level == log.level,
            r.target == log.target,
            r.message == log.message,
            r.span_id == log.span_id,
            r.trace_id == log.trace_id,
            r.attributes == json_or_none(log.attributes),
    {
        LogResponse {
            timestamp: log.timestamp,
            service_name: log.service_name,
            level: log.level,
            target: log.target,
            message: log.message,
            span_id: log.span_id,
            trace_id: log.trace_id,
            attributes: keep_json(log.attributes),
        }
    }
}

impl SpanResponse {
    /// The response for a stored span; its attributes and events are kept
    /// where they are valid JSON.
    pub fn from_record(span: SpanRecord) -> (r: SpanResponse)
        ensures
            r == span_response_of(span),
            r.timestamp == span.start_time,
            r.trace_id == span.trace_id,
            r.span_id == span.span_id,
            r.parent_span_id == span.parent_span_id,
            r.service_name == span.service_name,
            r.name == span.name,
            r.kind == span.kind,
            r.start_time == span.start_time,
            r.end_time == span.end_time,
            r.level == span.level,
            r.target == span.target,
            r.attributes == json_or_none(span.attributes),
            r.events == json_or_none(span.events),
            r.status == span.status,
    {
        SpanResponse {
            timestamp: span.start_time,
            trace_id: span.trace_id,
            span_id: span.span_id,
            parent_span_id: span.parent_span_id,
            service_name: span.service_name,
            name: span.name,
            kind: span.kind,
            start_time: span.start_time,
            end_time: span.end_time,
            level: span.level,
            target: span.target,
            attributes: keep_json(span.attributes),
            events: keep_json(span.events),
            status: span.status,
        }
    }
}

impl SpanEventResponse {
    /// The response for a stored span event; its attributes are kept where
    /// they are valid JSON.
    pub fn from_record(event: SpanEventRecord) -> (r: SpanEventResponse)
        ensures
            r == event_response_of(event),
            r.timestamp == event.timestamp,
            r.span_id == event.span_id,
            r.trace_id == event.trace_id,
            r.service_name == event.service_name,
            r.name == event.name,
            r.level == event.level,
            r.target == event.target,
            r.attributes == json_or_none(event.attributes),
    {
        SpanEventResponse {
            timestamp: event.timestamp,
            span_id: event.span_id,
            trace_id: event.trace_id,
            service_name: event.service_name,
            name: event.name,
            level: event.level,
            target: event.target,
            attributes: keep_json(event.attributes),
        }
    }
}

/// The responses for stored logs, spans and events, in that order.
pub open spec fn responses_of(
    logs: Seq<LogRecord>,
    spans: Seq<SpanRecord>,
    events: Seq<SpanEventRecord>,
) -> Seq<RecordResponse> {
    logs.map_values(|l: LogRecord| RecordResponse::Log(log_response_of(l))) + spans.map_values(
        |s: SpanRecord| RecordResponse::Span(span_response_of(s)),
    ) + events.map_values(|e: SpanEventRecord| RecordResponse::Event(event_response_of(e)))
}

/// What the records endpoint answers with: the responses sorted, with
/// adjacent duplicates removed, cut to `max` records.
pub open spec fn query_result(
    logs: Seq<LogRecord>,
    spans: Seq<SpanRecord>,
    events: Seq<SpanEventRecord>,
    max: usize,
) -> Seq<RecordResponse> {
    page(dedup(stable_sort(responses_of(logs, spans, events))), max)
}

/// Answers a records query from the logs, spans and events that its
/// filters selected: converts them to responses, sorts them, removes
/// duplicates and keeps the first `max_records`.
pub fn assemble_records(
    logs: Vec<LogRecord>,
    spans: Vec<SpanRecord>,
    events: Vec<SpanEventRecord>,
    max_records: usize,
) -> (r: PaginatedResponse)
    ensures
        r.records@ == query_result(logs@, spans@, events@, max_records),
        r.since == max_timestamp(r.records@),
{
    let ghost ls = logs@;
    let ghost ss = spans@;
    let ghost es = events@;
    let mut records: Vec<RecordResponse> = Vec::new();
    let mut logs = reversed(logs);
    let mut i: usize = 0;
    let nl = logs.len();
    while i < nl
        invariant
            nl == ls.len(),
            0 <= i <= nl,
            logs@ == ls.skip(i as int).reverse(),
            records@ == ls.take(i as int).map_values(|l: LogRecord| RecordResponse::Log(log_response_of(l))),
        decreases nl - i,
    {
        let x = logs.pop().unwrap();
        proof {
            assert(x == ls[i as int]);
            assert(logs@ =~= ls.skip(i + 1).reverse());
        }
        records.push(RecordResponse::Log(LogResponse::from_record(x)));
        assert(records@ =~= ls.take(i + 1).map_values(|l: LogRecord| RecordResponse::Log(log_response_of(l))));
        i = i + 1;
    }
    let ghost after_logs = records@;
    assert(ls.take(nl as int) =~= ls);
    let mut spans = reversed(spans);
    let mut j: usize = 0;
    let ns = spans.len();
    while j < ns
        invariant
            ns == ss.len(),
            0 <= j <= ns,
            spans@ == ss.skip(j as int).reverse(),
            records@ == after_logs + ss.take(j as int).map_values(|s: SpanRecord| RecordResponse::Span(span_response_of(s))),
        decreases ns - j,
    {
        let x = spans.pop().unwrap();
        proof {
            assert(x == ss[j as int]);
            assert(spans@ =~= ss.skip(j + 1).reverse());
        }
        records.push(RecordResponse::Span(SpanResponse::from_record(x)));
        assert(records@ =~= after_logs + ss.take(j + 1).map_values(|s: SpanRecord| RecordResponse::Span(span_response_of(s))));
        j = j + 1;
    }
    let ghost after_spans = records@;
    assert(ss.take(ns as int) =~= ss);
    let mut events = reversed(events);
    let mut k: usize = 0;
    let ne = events.len();
    while k < ne
        invariant
            ne == es.len(),
            0 <= k <= ne,
            events@ == es.skip(k as int).reverse(),
            records@ == after_spans + es.take(k as int).map_values(|e: SpanEventRecord| RecordResponse::Event(event_response_of(e))),
        decreases ne - k,
    {
        let x = events.pop().unwrap();
        proof {
            assert(x == es[k as int]);
            assert(events@ =~= es.skip(k + 1).reverse());
        }
        records.push(RecordResponse::Event(SpanEventResponse::from_record(x)));
        assert(records@ =~= after_spans + es.take(k + 1).map_values(|e: SpanEventRecord| RecordResponse::Event(event_response_of(e))));
        k = k + 1;
    }
    assert(es.take(ne as int) =~= es);
    assert(records@ =~= responses_of(ls, ss, es));
    let mut sorted = sort_records(records);
    deduplicate_records(&mut sorted);
    PaginatedResponse::from_records(sorted, max_records)
}

/// The query parameters of the records endpoint.
#[derive(Debug, Default, Clone)]
pub struct RecordQueryParams {
    pub service_name: Option<String>,
    pub level: Option<String>,
    pub target: Option<String>,
    pub message: Option<String>,
    pub span_id: Option<String>,
    pub trace_id: Option<String>,
    pub lookback: Option<i64>,
    pub since: Option<i64>,
    pub until: Option<i64>,
    /// The most logs, or initial spans, that the logs and spans endpoints
    /// answer with.
    pub limit: Option<u64>,
}

/// An error answered by the API: a bad request (400) or an internal error
/// (500), with its message.
#[derive(Debug, Clone)]
pub enum AppError {
    BadRequest(String),
    Internal(String),
}

impl AppError {
    /// The HTTP status of the error.
    pub fn status_code(&self) -> (r: u16)
        ensures
            r == (match self {
                AppError::BadRequest(_) => 400u16,
                AppError::Internal(_) => 500u16,
            }),
    {
        match self {
            AppError::BadRequest(_) => 400,
            AppError::Internal(_) => 500,
        }
    }

    /// The body of the error response: its message.
    pub fn message(&self) -> (r: String)
        ensures
            r@ == (match self {
                AppError::BadRequest(m) => m@,
                AppError::Internal(m) => m@,
            }),
    {
        match self {
            AppError::BadRequest(m) => m.clone(),
            AppError::Internal(m) => m.clone(),
        }
    }
}

/// The filters of a records query, one for each kind of record.
#[derive(Debug, Clone)]
pub struct RecordFilters {
    pub logs: LogFilter,
    pub spans: SpanFilter,
    pub events: SpanEventFilter,
}

fn clone_opt(o: &Option<String>) -> (r: Option<String>)
    ensures
        r == *o,
{
    match o {
        Some(s) => Some(s.clone()),
        None => None,
    }
}

/// The filters that query parameters ask for, with the minimum level `level`.
pub open spec fn filters_of(p: RecordQueryParams, level: Option<Level>) -> RecordFilters {
    let common = CommonFilters {
        service_name: p.service_name,
        level: level,
        target: p.target,
        message: p.message,
    };
    let cursor = CursorFilter { lookback_seconds: p.lookback, starting_at: p.since };
    RecordFilters {
        logs: LogFilter { common: common, cursor: cursor, span_id: p.span_id },
        spans: SpanFilter { common: common, cursor: cursor, span_id: p.span_id, trace_id: p.trace_id },
        events: SpanEventFilter {
            common: common,
            cursor: cursor,
            span_id: p.span_id,
            trace_id: p.trace_id,
        },
    }
}

/// The first `n` elements of `s`, or all of them where there are fewer.
pub open spec fn first_n<T>(s: Seq<T>, n: u64) -> Seq<T> {
    if s.len() > n {
        s.take(n as int)
    } else {
        s
    }
}

/// The first `n` elements of `v` (all of them where there are fewer).
pub fn first_records<T>(v: Vec<T>, n: u64) -> (r: Vec<T>)
    ensures
        r@ == first_n(v@, n),
{
    let mut v = v;
    if (v.len() as u64) > n {
        v.truncate(n as usize);
    }
    v
}

impl RecordQueryParams {
    /// The most results that the logs and spans endpoints answer with: the
    /// `limit` parameter, 1000 where it is not given.
    pub fn result_limit(&self) -> (r: u64)
        ensures
            r == match self.limit {
                Some(n) => n,
                None => 1000,
            },
    {
        match self.limit {
            Some(n) => n,
            None => 1000,
        }
    }

    /// The filters that the parameters ask for: `Ok` exactly when there is
    /// no level or the level parses; a level that does not parse is a bad
    /// request whose message repeats the parse error.
    pub fn filters(&self) -> (r: Result<RecordFilters, AppError>)
        ensures
            match r {
                Ok(f) => match self.level {
                    None => f == filters_of(*self, None),
                    Some(l) => Level::parsed(l@) is Some && f == filters_of(*self, Level::parsed(l@)),
                },
                Err(AppError::BadRequest(m)) => self.level matches Some(l) && Level::parsed(l@) is None
                    && m@ == "Invalid level: "@ + ("Invalid level: "@ + l@),
                Err(AppError::Internal(_)) => false,
            },
    {
        let level = match &self.level {
            None => None,
            Some(l) => match Level::parse_name(l.as_str()) {
                Ok(v) => Some(v),
                Err(msg) => {
                    let mut m = String::from_str("Invalid level: ");
                    m.append(msg.as_str());
                    return Err(AppError::BadRequest(m));
                },
            },
        };
        let make_common = |lv: Option<Level>| -> (c: CommonFilters)
            ensures
                c == (CommonFilters {
                    service_name: self.service_name,
                    level: lv,
                    target: self.target,
                    message: self.message,
                }),
            {
                CommonFilters {
                    service_name: clone_opt(&self.service_name),
                    level: lv,
                    target: clone_opt(&self.target),
                    message: clone_opt(&self.message),
                }
            };
        let cursor = || -> (c: CursorFilter)
            ensures
                c == (CursorFilter { lookback_seconds: self.lookback, starting_at: self.since }),
            { CursorFilter { lookback_seconds: self.lookback, starting_at: self.since } };
        Ok(RecordFilters {
            logs: LogFilter {
                common: make_common(level),
                cursor: cursor(),
                span_id: clone_opt(&self.span_id),
            },
            spans: SpanFilter {
                common: make_common(level),
                cursor: cursor(),
                span_id: clone_opt(&self.span_id),
                trace_id: clone_opt(&self.trace_id),
            },
            events: SpanEventFilter {
                common: make_common(level),
                cursor: cursor(),
                span_id: clone_opt(&self.span_id),
                trace_id: clone_opt(&self.trace_id),
            },
        })
    }
}

/// What deduplication keeps: records of its input, at most as many, no two
/// neighbours with the same key, and every key of the input.
pub proof fn lemma_dedup(s: Seq<RecordResponse>)
    ensures
        dedup(s).len() <= s.len(),
        forall|j: int| 0 <= j < dedup(s).len() ==> exists|i: int| 0 <= i < s.len() && #[trigger] dedup(s)[j] == s[i],
        forall|j: int| 0 <= j < dedup(s).len() - 1 ==> key_of(#[trigger] dedup(s)[j]) != key_of(dedup(s)[j + 1]),
        forall|i: int| #![trigger s[i]] 0 <= i < s.len() ==> exists|j: int| 0 <= j < dedup(s).len() && key_of(#[trigger] dedup(s)[j]) == key_of(s[i]),
    decreases s.len(),
{
    if s.len() > 0 {
        let t = s.drop_last();
        lemma_dedup(t);
        let d = dedup(t);
        assert forall|i: int| 0 <= i < t.len() implies #[trigger] t[i] == s[i] by {}
        if d.len() > 0 && key_of(d.last()) == key_of(s.last()) {
            assert forall|j: int| 0 <= j < dedup(s).len() implies exists|i: int| 0 <= i < s.len() && #[trigger] dedup(s)[j] == s[i] by {
                let i = choose|i: int| 0 <= i < t.len() && #[trigger] d[j] == t[i];
                assert(s[i] == t[i]);
            }
            assert forall|i: int| #![trigger s[i]] 0 <= i < s.len() implies exists|j: int| 0 <= j < dedup(s).len() && key_of(#[trigger] dedup(s)[j]) == key_of(s[i]) by {
                if i < t.len() {
                    assert(s[i] == t[i]);
                    let j = choose|j: int| 0 <= j < d.len() && key_of(#[trigger] d[j]) == key_of(t[i]);
                    assert(key_of(dedup(s)[j]) == key_of(s[i]));
                } else {
                    assert(key_of(dedup(s)[d.len() - 1]) == key_of(s[i]));
                }
            }
        } else {
            let e = d.push(s.last());
            assert(dedup(s) == e);
            assert forall|j: int| 0 <= j < e.len() implies exists|i: int| 0 <= i < s.len() && #[trigger] e[j] == s[i] by {
                if j < d.len() {
                    let i = choose|i: int| 0 <= i < t.len() && #[trigger] d[j] == t[i];
                    assert(e[j] == d[j]);
                    assert(s[i] == t[i]);
                } else {
                    assert(e[j] == s[s.len() - 1]);
                }
            }
            assert forall|j: int| 0 <= j < e.len() - 1 implies key_of(#[trigger] e[j]) != key_of(e[j + 1]) by {
                if j < d.len() - 1 {
                    assert(e[j] == d[j]);
                    assert(e[j + 1] == d[j + 1]);
                } else {
                    assert(e[j] == d.last());
                    assert(e[j + 1] == s.last());
                }
            }
            assert forall|i: int| #![trigger s[i]] 0 <= i < s.len() implies exists|j: int| 0 <= j < e.len() && key_of(#[trigger] e[j]) == key_of(s[i]) by {
                if i < t.len() {
                    assert(s[i] == t[i]);
                    let j = choose|j: int| 0 <= j < d.len() && key_of(#[trigger] d[j]) == key_of(t[i]);
                    assert(e[j] == d[j]);
                } else {
                    assert(e[d.len() as int] == s[i]);
                }
            }
        }
    }
}

/// Deduplicating a sorted sequence leaves it sorted.
pub proof fn lemma_dedup_sorted(s: Seq<RecordResponse>)
    requires
        is_sorted(s),
    ensures
        is_sorted(dedup(s)),
    decreases s.len(),
{
    if s.len() > 0 {
        let t = s.drop_last();
        assert(is_sorted(t));
        lemma_dedup_sorted(t);
        lemma_dedup(t);
        let d = dedup(t);
        if !(d.len() > 0 && key_of(d.last()) == key_of(s.last())) {
            let e = d.push(s.last());
            assert forall|i: int, j: int| 0 <= i < j < e.len() implies record_order(e[i], e[j]) <= 0 by {
                if j < d.len() {
                    assert(e[i] == d[i] && e[j] == d[j]);
                } else {
                    assert(e[i] == d[i]);
                    let k = choose|k: int| 0 <= k < t.len() && #[trigger] d[i] == t[k];
                    assert(t[k] == s[k]);
                    assert(e[j] == s[s.len() - 1]);
                }
            }
        }
    }
}

/// The records endpoint answers in order: sorted by timestamp, kind and key,
/// no two neighbours with the same key, at most `max` records, each one the
/// response for a selected log, span or event.
pub proof fn lemma_query_result(
    logs: Seq<LogRecord>,
    spans: Seq<SpanRecord>,
    events: Seq<SpanEventRecord>,
    max: usize,
)
    ensures
        is_sorted(query_result(logs, spans, events, max)),
        query_result(logs, spans, events, max).len() <= max,
        forall|j: int| 0 <= j < query_result(logs, spans, events, max).len() - 1 ==> key_of(
            #[trigger] query_result(logs, spans, events, max)[j],
        ) != key_of(query_result(logs, spans, events, max)[j + 1]),
        forall|j: int| 0 <= j < query_result(logs, spans, events, max).len() ==> #[trigger] responses_of(
            logs,
            spans,
            events,
        ).to_multiset().contains(query_result(logs, spans, events, max)[j]),
{
    let all = responses_of(logs, spans, events);
    let sorted = stable_sort(all);
    lemma_stable_sort_sorted(all);
    lemma_stable_sort_permutes(all);
    lemma_dedup(sorted);
    lemma_dedup_sorted(sorted);
    let d = dedup(sorted);
    let r = query_result(logs, spans, events, max);
    assert forall|j: int| 0 <= j < r.len() implies #[trigger] all.to_multiset().contains(r[j]) by {
        assert(r[j] == d[j]);
        let i = choose|i: int| 0 <= i < sorted.len() && #[trigger] d[j] == sorted[i];
        broadcast use vstd::seq_lib::group_to_multiset_ensures;
        assert(sorted.contains(sorted[i]));
    }
    assert forall|j: int| 0 <= j < r.len() - 1 implies key_of(#[trigger] r[j]) != key_of(r[j + 1]) by {
        assert(r[j] == d[j]);
        assert(r[j + 1] == d[j + 1]);
    }
    assert forall|i: int, j: int| 0 <= i < j < r.len() implies record_order(r[i], r[j]) <= 0 by {
        assert(r[i] == d[i]);
        assert(r[j] == d[j]);
    }
}

/// A response keeps what was stored: every field of the stored record,
/// the attributes (and a span's events) only where they are valid JSON and
/// then unchanged; a span's timestamp is its start time.
pub proof fn lemma_response_fields(l: LogRecord, sp: SpanRecord, e: SpanEventRecord)
    ensures
        log_response_of(l).timestamp == l.timestamp,
        log_response_of(l).service_name == l.service_name,
        log_response_of(l).level == l.level,
        log_response_of(l).target == l.target,
        log_response_of(l).message == l.message,
        log_response_of(l).span_id == l.span_id,
        log_response_of(l).trace_id == l.trace_id,
        log_response_of(l).attributes is Some ==> log_response_of(l).attributes == l.attributes,
        span_response_of(sp).timestamp == sp.start_time,
        span_response_of(sp).start_time == sp.start_time,
        span_response_of(sp).end_time == sp.end_time,
        span_response_of(sp).trace_id == sp.trace_id,
        span_response_of(sp).span_id == sp.span_id,
        span_response_of(sp).parent_span_id == sp.parent_span_id,
        span_response_of(sp).service_name == sp.service_name,
        span_response_of(sp).name == sp.name,
        span_response_of(sp).kind == sp.kind,
        span_response_of(sp).level == sp.level,
        span_response_of(sp).target == sp.target,
        span_response_of(sp).status == sp.status,
        span_response_of(sp).attributes is Some ==> span_response_of(sp).attributes == sp.attributes,
        span_response_of(sp).events is Some ==> span_response_of(sp).events == sp.events,
        event_response_of(e).timestamp == e.timestamp,
        event_response_of(e).span_id == e.span_id,
        event_response_of(e).trace_id == e.trace_id,
        event_response_of(e).service_name == e.service_name,
        event_response_of(e).name == e.name,
        event_response_of(e).level == e.level,
        event_response_of(e).target == e.target,
        event_response_of(e).attributes is Some ==> event_response_of(e).attributes == e.attributes,
{
}

/// Every log that a records query answers with is a stored log as it was
/// stored: same timestamp, service, level, target, message and ids.
pub proof fn lemma_query_logs_as_stored(
    logs: Seq<LogRecord>,
    spans: Seq<SpanRecord>,
    events: Seq<SpanEventRecord>,
    max: usize,
)
    ensures
        forall|j: int|
            0 <= j < query_result(logs, spans, events, max).len() ==> (#[trigger] query_result(
                logs,
                spans,
                events,
                max,
            )[j] matches RecordResponse::Log(r) ==> exists|i: int|
                0 <= i < logs.len() && (#[trigger] logs[i]).timestamp == r.timestamp && logs[i].level
                    == r.level && logs[i].service_name == r.service_name && logs[i].target == r.target
                    && logs[i].message == r.message && logs[i].span_id == r.span_id && logs[i].trace_id
                    == r.trace_id),
{
    lemma_query_result(logs, spans, events, max);
    let all = responses_of(logs, spans, events);
    let q = query_result(logs, spans, events, max);
    let ls = logs.map_values(|l: LogRecord| RecordResponse::Log(log_response_of(l)));
    let ss = spans.map_values(|s: SpanRecord| RecordResponse::Span(span_response_of(s)));
    let es = events.map_values(|e: SpanEventRecord| RecordResponse::Event(event_response_of(e)));
    assert forall|j: int| 0 <= j < q.len() implies (#[trigger] q[j] matches RecordResponse::Log(r) ==> exists|i: int|
        0 <= i < logs.len() && (#[trigger] logs[i]).timestamp == r.timestamp && logs[i].level == r.level
            && logs[i].service_name == r.service_name && logs[i].target == r.target && logs[i].message
            == r.message && logs[i].span_id == r.span_id && logs[i].trace_id == r.trace_id) by {
        if q[j] is Log {
            broadcast use vstd::seq_lib::group_to_multiset_ensures;
            assert(all.to_multiset().contains(q[j]));
            assert(all.contains(q[j]));
            let k = choose|k: int| 0 <= k < all.len() && all[k] == q[j];
            if k < ls.len() {
                assert(all[k] == ls[k]);
                assert(ls[k] == RecordResponse::Log(log_response_of(logs[k])));
            } else if k < ls.len() + ss.len() {
                assert(all[k] == ss[k - ls.len()]);
            } else {
                assert(all[k] == es[k - ls.len() - ss.len()]);
            }
        }
    }
}

} // verus!
