//! The logic of the terminal viewer: record filters in the style of
//! `tracing_subscriber` directives (`warn,my_module=debug`), the one-line
//! rendering of records, the bounded store of records received, the
//! handling of keys, and the polling cursor. Drawing and terminal input
//! are the application's.
use vstd::prelude::*;
use vstd::string::*;
use crate::handlers::{RecordResponse, RecordKey, RecordKeyView, key_of, timestamp_of, PaginatedResponse};
use crate::db::opt_view;
use crate::level::Level;
use crate::text::{
    int_text, nat_digits, i64_to_string, u64_to_string, chars_of, string_of, trim, trim_chars, split_on, split_chars, views_of, split_once_on,
    split_once_chars, has_prefix, starts_with_chars,
};

verus! {

/// A single filter directive.
#[derive(Debug, Clone)]
pub enum FilterDirective {
    /// Decides for records whose target starts with `prefix`.
    Target { prefix: String, level: Level },
    /// Decides for all records.
    Global { level: Level },
}

pub enum DirectiveView {
    Target { prefix: Seq<char>, level: Level },
    Global { level: Level },
}

impl View for FilterDirective {
    type V = DirectiveView;

    open spec fn view(&self) -> DirectiveView {
        match self {
            FilterDirective::Target { prefix, level } => DirectiveView::Target {
                prefix: prefix@,
                level: *level,
            },
            FilterDirective::Global { level } => DirectiveView::Global { level: *level },
        }
    }
}

/// Whether a record at `record_level` passes the minimum `level`: a record
/// without a level never does.
pub open spec fn passes(record_level: Option<Level>, level: Level) -> bool {
    match record_level {
        Some(l) => l.at_least(level),
        None => false,
    }
}

/// What a directive decides for a record: nothing where it does not apply
/// (a target directive applies where the record's target starts with its
/// prefix), else whether the record passes its level.
pub open spec fn directive_decision(
    d: DirectiveView,
    target: Option<Seq<char>>,
    record_level: Option<Level>,
) -> Option<bool> {
    match d {
        DirectiveView::Target { prefix, level } => match target {
            Some(t) => if has_prefix(t, prefix) {
                Some(passes(record_level, level))
            } else {
                None
            },
            None => None,
        },
        DirectiveView::Global { level } => Some(passes(record_level, level)),
    }
}

impl FilterDirective {
    pub fn matches(&self, target: Option<&str>, record_level: Option<Level>) -> (r: Option<bool>)
        ensures
            r == directive_decision(
                self@,
                match target {
                    Some(t) => Some(t@),
                    None => None,
                },
                record_level,
            ),
    {
        match self {
            FilterDirective::Target { prefix, level } => {
                match target {
                    Some(target_str) => {
                        let t = chars_of(target_str);
                        let p = chars_of(prefix.as_str());
                        if starts_with_chars(t.as_slice(), p.as_slice()) {
                            Some(
                                match record_level {
                                    Some(l) => l.is_at_least(level),
                                    None => false,
                                },
                            )
                        } else {
                            None
                        }
                    },
                    None => None,
                }
            },
            FilterDirective::Global { level } => Some(
                match record_level {
                    Some(l) => l.is_at_least(level),
                    None => false,
                },
            ),
        }
    }
}

/// A filter: directives applied in order, the first that decides wins.
#[derive(Debug, Clone, Default)]
pub struct RecordFilter {
    pub directives: Vec<FilterDirective>,
}

pub open spec fn directive_views(v: Seq<FilterDirective>) -> Seq<DirectiveView> {
    v.map_values(|d: FilterDirective| d@)
}

/// The directive that one comma-separated part of a filter text gives:
/// `target=level` (a global directive where the target is empty) or a bare
/// level; none for an empty part or a level that does not parse.
pub open spec fn directive_of(part: Seq<char>) -> Option<DirectiveView> {
    let p = trim(part);
    if p.len() == 0 {
        None
    } else {
        match split_once_on(p, '=') {
            Some((t, l)) => match Level::parsed(trim(l)) {
                Some(level) => if trim(t).len() == 0 {
                    Some(DirectiveView::Global { level })
                } else {
                    Some(DirectiveView::Target { prefix: trim(t), level })
                },
                None => None,
            },
            None => match Level::parsed(p) {
                Some(level) => Some(DirectiveView::Global { level }),
                None => None,
            },
        }
    }
}

/// The directives of a sequence of parts, in order.
pub open spec fn directives_of(parts: Seq<Seq<char>>) -> Seq<DirectiveView>
    decreases parts.len(),
{
    if parts.len() == 0 {
        Seq::empty()
    } else {
        let pre = directives_of(parts.drop_last());
        match directive_of(parts.last()) {
            Some(d) => pre.push(d),
            None => pre,
        }
    }
}

/// The directives that a filter text gives.
pub open spec fn parsed_directives(input: Seq<char>) -> Seq<DirectiveView> {
    directives_of(split_on(input, ','))
}

/// Whether a filter shows a record: the decision of the first directive
/// that decides; a record that no directive decides for is shown.
pub open spec fn filter_allows(
    ds: Seq<DirectiveView>,
    target: Option<Seq<char>>,
    record_level: Option<Level>,
) -> bool
    decreases ds.len(),
{
    if ds.len() == 0 {
        true
    } else {
        match directive_decision(ds[0], target, record_level) {
            Some(b) => b,
            None => filter_allows(ds.drop_first(), target, record_level),
        }
    }
}

fn directive_from_part(part: &Vec<char>) -> (r: Option<FilterDirective>)
    ensures
        match (r, directive_of(part@)) {
            (Some(d), Some(v)) => d@ == v,
            (None, None) => true,
            _ => false,
        },
{
    let p = trim_chars(part.as_slice());
    if p.len() == 0 {
        return None;
    }
    match split_once_chars(p.as_slice(), '=') {
        Some((t, l)) => {
            let target = trim_chars(t.as_slice());
            let level_str = trim_chars(l.as_slice());
            let level_text = string_of(level_str.as_slice());
            match Level::parse_name(level_text.as_str()) {
                Ok(level) => {
                    if target.len() == 0 {
                        Some(FilterDirective::Global { level })
                    } else {
                        Some(FilterDirective::Target { prefix: string_of(target.as_slice()), level })
                    }
                },
                Err(_) => None,
            }
        },
        None => {
            let text = string_of(p.as_slice());
            match Level::parse_name(text.as_str()) {
                Ok(level) => Some(FilterDirective::Global { level }),
                Err(_) => None,
            }
        },
    }
}

impl RecordFilter {
    /// Parses a filter text such as `warn,my_module=debug`: each
    /// comma-separated part that is a directive gives one, in order.
    pub fn parse(input: &str) -> (r: RecordFilter)
        ensures
            directive_views(r.directives@) == parsed_directives(input@),
    {
        let chars = chars_of(input);
        let parts = split_chars(chars.as_slice(), ',');
        let mut directives: Vec<FilterDirective> = Vec::new();
        let mut i: usize = 0;
        assert(views_of(parts@).take(0) =~= Seq::<Seq<char>>::empty());
        assert(directive_views(directives@) =~= Seq::<DirectiveView>::empty());
        while i < parts.len()
            invariant
                0 <= i <= parts@.len(),
                views_of(parts@) == split_on(input@, ','),
                directive_views(directives@) == directives_of(views_of(parts@).take(i as int)),
            decreases parts@.len() - i,
        {
            proof {
                assert(views_of(parts@).take(i + 1).drop_last() =~= views_of(parts@).take(i as int));
                assert(views_of(parts@).take(i + 1).last() == parts@[i as int]@);
            }
            let ghost prev = directives@;
            match directive_from_part(&parts[i]) {
                Some(d) => {
                    directives.push(d);
                    assert(directive_views(directives@) =~= directive_views(prev).push(d@));
                },
                None => {},
            }
            i = i + 1;
        }
        assert(views_of(parts@).take(parts@.len() as int) =~= views_of(parts@));
        RecordFilter { directives }
    }
}

/// The level of a record.
pub open spec fn level_of(r: RecordResponse) -> Option<Level> {
    match r {
        RecordResponse::Log(l) => l.level,
        RecordResponse::Span(s) => s.level,
        RecordResponse::Event(e) => e.level,
    }
}

/// The target of a record.
pub open spec fn target_of(r: RecordResponse) -> Option<Seq<char>> {
    match r {
        RecordResponse::Log(l) => opt_view(l.target),
        RecordResponse::Span(s) => opt_view(s.target),
        RecordResponse::Event(e) => opt_view(e.target),
    }
}

fn opt_str(o: &Option<String>) -> (r: Option<&str>)
    ensures
        match r {
            Some(s) => opt_view(*o) == Some(s@),
            None => o is None,
        },
{
    match o {
        Some(s) => Some(s.as_str()),
        None => None,
    }
}

impl RecordResponse {
    pub fn level(&self) -> (r: Option<Level>)
        ensures
            r == level_of(*self),
    {
        match self {
            RecordResponse::Log(log) => log.level,
            RecordResponse::Span(span) => span.level,
            RecordResponse::Event(event) => event.level,
        }
    }

    pub fn target(&self) -> (r: Option<&str>)
        ensures
            match r {
                Some(s) => target_of(*self) == Some(s@),
                None => target_of(*self) is None,
            },
    {
        match self {
            RecordResponse::Log(log) => opt_str(&log.target),
            RecordResponse::Span(span) => opt_str(&span.target),
            RecordResponse::Event(event) => opt_str(&event.target),
        }
    }

    /// Whether the filter shows this record: the first directive that
    /// decides for it wins; where none does, it is shown.
    pub fn matches_filter(&self, filter: &RecordFilter) -> (r: bool)
        ensures
            r == filter_allows(directive_views(filter.directives@), target_of(*self), level_of(*self)),
    {
        let record_level = self.level();
        let target = self.target();
        let ghost tv = target_of(*self);
        let ghost ds = directive_views(filter.directives@);
        let mut i: usize = 0;
        assert(ds.skip(0) =~= ds);
        while i < filter.directives.len()
            invariant
                0 <= i <= filter.directives@.len(),
                ds == directive_views(filter.directives@),
                tv == target_of(*self),
                record_level == level_of(*self),
                match target {
                    Some(s) => tv == Some(s@),
                    None => tv is None,
                },
                filter_allows(ds, tv, record_level) == filter_allows(ds.skip(i as int), tv, record_level),
            decreases filter.directives@.len() - i,
        {
            assert(ds.skip(i as int)[0] == filter.directives@[i as int]@);
            assert(ds.skip(i as int).drop_first() =~= ds.skip(i + 1));
            match filter.directives[i].matches(target, record_level) {
                Some(result) => {
                    return result;
                },
                None => {},
            }
            i = i + 1;
        }
        true
    }
}

/// An empty filter shows every record.
pub proof fn lemma_empty_filter_allows(target: Option<Seq<char>>, record_level: Option<Level>)
    ensures
        filter_allows(Seq::empty(), target, record_level),
{
}

/// Directives after a global directive never decide anything.
pub proof fn lemma_global_shadows_rest(
    ds: Seq<DirectiveView>,
    rest: Seq<DirectiveView>,
    target: Option<Seq<char>>,
    record_level: Option<Level>,
)
    requires
        exists|i: int| 0 <= i < ds.len() && ds[i] is Global,
    ensures
        filter_allows(ds + rest, target, record_level) == filter_allows(ds, target, record_level),
    decreases ds.len(),
{
    let i = choose|i: int| 0 <= i < ds.len() && ds[i] is Global;
    assert((ds + rest)[0] == ds[0]);
    if directive_decision(ds[0], target, record_level) is None {
        assert(i != 0);
        assert(ds.drop_first()[i - 1] is Global);
        lemma_global_shadows_rest(ds.drop_first(), rest, target, record_level);
        assert((ds + rest).drop_first() =~= ds.drop_first() + rest);
    }
}

/// A record without a level is shown exactly when no directive decides
/// for it.
pub proof fn lemma_levelless_record(ds: Seq<DirectiveView>, target: Option<Seq<char>>)
    ensures
        filter_allows(ds, target, None) <==> forall|i: int|
            0 <= i < ds.len() ==> #[trigger] directive_decision(ds[i], target, None) is None,
    decreases ds.len(),
{
    if ds.len() > 0 {
        lemma_levelless_record(ds.drop_first(), target);
        if directive_decision(ds[0], target, None) is None {
            assert forall|i: int| 0 <= i < ds.len() && i > 0 implies #[trigger] directive_decision(ds[i], target, None) == directive_decision(ds.drop_first()[i - 1], target, None) by {}
        }
    }
}

/// The attribute keys that the one-line rendering leaves out: the `code.*`
/// attributes, and `idle_ns`, `busy_ns`, `target` and `level`.
pub open spec fn attr_hidden(key: Seq<char>) -> bool {
    key == "idle_ns"@ || key == "busy_ns"@ || key == "target"@ || key == "level"@ || has_prefix(
        key,
        "code."@,
    )
}

fn key_eq(key: &Vec<char>, name: &str) -> (r: bool)
    ensures
        r == (key@ == name@),
{
    let n = chars_of(name);
    crate::text::chars_equal(key.as_slice(), n.as_slice())
}

/// Whether the one-line rendering leaves out an attribute.
pub fn match_attr(key: &str) -> (r: bool)
    ensures
        r == attr_hidden(key@),
{
    let k = chars_of(key);
    if key_eq(&k, "idle_ns") || key_eq(&k, "busy_ns") || key_eq(&k, "target") || key_eq(&k, "level") {
        return true;
    }
    let code = chars_of("code.");
    starts_with_chars(k.as_slice(), code.as_slice())
}

/// How a piece of a rendered line is styled: the timestamp and target
/// dimmed, the level in its colour and bold, the message plain, a span's or
/// event's name in italics, details (kind, attributes) in grey.
#[derive(Debug, Clone, Copy, PartialEq, Eq, Structural)]
pub enum SegmentStyle {
    Timestamp,
    Level(Level),
    Target,
    Message,
    Name,
    Detail,
}

/// A styled piece of a rendered line.
#[derive(Debug, Clone)]
pub struct Segment {
    pub text: String,
    pub style: SegmentStyle,
}

/// A record rendered as one line.
#[derive(Debug, Clone)]
pub struct FormattedLine {
    pub segments: Vec<Segment>,
}

pub open spec fn segments_view(v: Seq<Segment>) -> Seq<(Seq<char>, SegmentStyle)> {
    v.map_values(|s: Segment| (s.text@, s.style))
}

/// The text that `DateTime::<Utc>::from_timestamp(secs, 0)` formatted with
/// `%Y-%m-%d %H:%M:%S` gives; none where no date has that timestamp.
pub uninterp spec fn utc_seconds_text(secs: i64) -> Option<Seq<char>>;

/// `DateTime::<Utc>::from_timestamp(secs, 0)` formatted as
/// `%Y-%m-%d %H:%M:%S`. Only the name of the text is stated.
#[verifier::external_body]
fn format_utc_seconds(secs: i64) -> (r: Option<String>)
    ensures
        opt_view(r) == utc_seconds_text(secs),
{
    chrono::DateTime::<chrono::Utc>::from_timestamp(secs, 0).map(
        |dt| dt.format("%Y-%m-%d %H:%M:%S").to_string(),
    )
}

/// Integer division that rounds toward zero, as `/` on `i64` does.
pub open spec fn div_toward_zero(a: int, b: int) -> int {
    if a >= 0 {
        a / b
    } else {
        -((-a) / b)
    }
}

fn seconds_of_nanos(ns: i64) -> (r: i64)
    ensures
        r == div_toward_zero(ns as int, 1_000_000_000),
{
    if ns >= 0 {
        ns / 1_000_000_000
    } else {
        let m: i128 = 0i128 - (ns as i128);
        let q: i128 = m / 1_000_000_000i128;
        (0i128 - q) as i64
    }
}

/// The level as the line shows it, padded to five characters.
pub open spec fn level_label(l: Level) -> Seq<char> {
    match l {
        Level::Trace => "TRACE "@,
        Level::Debug => "DEBUG "@,
        Level::Info => "INFO  "@,
        Level::Warn => "WARN  "@,
        Level::Error => "ERROR "@,
        Level::Fatal => "FATAL "@,
    }
}

/// Texts joined with single spaces.
pub open spec fn join_spaced(parts: Seq<Seq<char>>) -> Seq<char>
    decreases parts.len(),
{
    if parts.len() == 0 {
        Seq::empty()
    } else if parts.len() == 1 {
        parts[0]
    } else {
        join_spaced(parts.drop_last()) + " "@ + parts.last()
    }
}

/// The `key=value` pairs of the attribute entries that the line shows.
pub open spec fn shown_pairs(entries: Seq<(Seq<char>, Seq<char>)>) -> Seq<Seq<char>>
    decreases entries.len(),
{
    if entries.len() == 0 {
        Seq::empty()
    } else {
        let pre = shown_pairs(entries.drop_last());
        let (k, v) = entries.last();
        if attr_hidden(k) {
            pre
        } else {
            pre.push(k + "="@ + v)
        }
    }
}

/// The attribute detail of a line: the shown pairs after a space, where the
/// attributes are a JSON object with any pair shown.
pub open spec fn attrs_detail(attrs: Option<String>) -> Seq<(Seq<char>, SegmentStyle)> {
    match attrs {
        Some(a) => match crate::json::object_entries(a@) {
            Some(entries) => if shown_pairs(entries).len() > 0 {
                seq![(" "@ + join_spaced(shown_pairs(entries)), SegmentStyle::Detail)]
            } else {
                Seq::empty()
            },
            None => Seq::empty(),
        },
        None => Seq::empty(),
    }
}

/// The line for a record: timestamp, level, target, then the message (or
/// span or event name, and a span's kind) and the shown attributes.
pub open spec fn line_of(r: RecordResponse) -> Seq<(Seq<char>, SegmentStyle)> {
    let secs = div_toward_zero(timestamp_of(r) as int, 1_000_000_000) as i64;
    let time = match utc_seconds_text(secs) {
        Some(t) => t,
        None => "unknown"@,
    };
    seq![(time + " "@, SegmentStyle::Timestamp)] + (match level_of(r) {
        Some(l) => seq![(level_label(l), SegmentStyle::Level(l))],
        None => Seq::empty(),
    }) + (match target_of(r) {
        Some(t) => seq![(t + ": "@, SegmentStyle::Target)],
        None => Seq::empty(),
    }) + match r {
        RecordResponse::Log(l) => (match l.message {
            Some(m) => seq![(m@, SegmentStyle::Message)],
            None => Seq::empty(),
        }) + attrs_detail(l.attributes),
        RecordResponse::Span(s) => seq![("span: "@ + s.name@, SegmentStyle::Name)] + (match s.kind {
            Some(k) => seq![(" ["@ + k@ + "]"@, SegmentStyle::Detail)],
            None => Seq::empty(),
        }) + attrs_detail(s.attributes),
        RecordResponse::Event(e) => seq![("event: "@ + e.name@, SegmentStyle::Name)] + attrs_detail(
            e.attributes,
        ),
    }
}

fn concat3(a: &str, b: &str, c: &str) -> (r: String)
    ensures
        r@ == a@ + b@ + c@,
{
    let mut s = String::from_str(a);
    s.append(b);
    s.append(c);
    s
}

fn concat2(a: &str, b: &str) -> (r: String)
    ensures
        r@ == a@ + b@,
{
    let mut s = String::from_str(a);
    s.append(b);
    s
}

fn push_segment(out: &mut Vec<Segment>, text: String, style: SegmentStyle)
    ensures
        segments_view(final(out)@) == segments_view(old(out)@).push((text@, style)),
{
    let ghost prev = out@;
    out.push(Segment { text, style });
    assert(segments_view(out@) =~= segments_view(prev).push((text@, style)));
}

fn push_attrs_detail(out: &mut Vec<Segment>, attrs: &Option<String>)
    ensures
        segments_view(final(out)@) == segments_view(old(out)@) + attrs_detail(*attrs),
{
    let ghost start = segments_view(out@);
    match attrs {
        None => {
            assert(segments_view(out@) =~= start + attrs_detail(*attrs));
        },
        Some(a) => match crate::json::json_object_entries(a.as_str()) {
            None => {
                assert(segments_view(out@) =~= start + attrs_detail(*attrs));
            },
            Some(entries) => {
                let ghost ev = entries@.map_values(|p: (String, String)| (p.0@, p.1@));
                let mut joined = String::new();
                let mut count: usize = 0;
                let mut i: usize = 0;
                assert(ev.take(0) =~= Seq::<(Seq<char>, Seq<char>)>::empty());
                while i < entries.len()
                    invariant
                        0 <= i <= entries@.len(),
                        ev == entries@.map_values(|p: (String, String)| (p.0@, p.1@)),
                        count == shown_pairs(ev.take(i as int)).len(),
                        joined@ == join_spaced(shown_pairs(ev.take(i as int))),
                        count <= i,
                    decreases entries@.len() - i,
                {
                    assert(ev.take(i + 1).drop_last() =~= ev.take(i as int));
                    assert(ev.take(i + 1).last() == ev[i as int]);
                    let (k, v) = &entries[i];
                    assert(ev[i as int] == (k@, v@));
                    let ghost pre = shown_pairs(ev.take(i as int));
                    if !match_attr(k.as_str()) {
                        let pair = concat3(k.as_str(), "=", v.as_str());
                        assert(shown_pairs(ev.take(i + 1)) == pre.push(pair@));
                        if count > 0 {
                            joined.append(" ");
                            assert(pre.push(pair@).drop_last() =~= pre);
                        } else {
                            assert(joined@ =~= Seq::<char>::empty());
                        }
                        joined.append(pair.as_str());
                        proof {
                            if count == 0 {
                                assert(joined@ =~= pair@);
                            }
                        }
                        count = count + 1;
                    }
                    i = i + 1;
                }
                assert(ev.take(ev.len() as int) =~= ev);
                if count > 0 {
                    let text = concat2(" ", joined.as_str());
                    assert(text@ =~= " "@ + joined@);
                    push_segment(out, text, SegmentStyle::Detail);
                    assert(segments_view(out@) =~= start + attrs_detail(*attrs));
                } else {
                    assert(segments_view(out@) =~= start + attrs_detail(*attrs));
                }
            },
        },
    }
}

fn level_text(l: Level) -> (r: String)
    ensures
        r@ == level_label(l),
{
    match l {
        Level::Trace => String::from_str("TRACE "),
        Level::Debug => String::from_str("DEBUG "),
        Level::Info => String::from_str("INFO  "),
        Level::Warn => String::from_str("WARN  "),
        Level::Error => String::from_str("ERROR "),
        Level::Fatal => String::from_str("FATAL "),
    }
}

/// Renders a record as one line.
pub fn format_record(record: &RecordResponse) -> (line: FormattedLine)
    ensures
        segments_view(line.segments@) == line_of(*record),
{
    let mut out: Vec<Segment> = Vec::new();
    let secs = seconds_of_nanos(record.timestamp());
    let time = match format_utc_seconds(secs) {
        Some(t) => t,
        None => String::from_str("unknown"),
    };
    let stamp = concat2(time.as_str(), " ");
    push_segment(&mut out, stamp, SegmentStyle::Timestamp);
    let ghost after_time = segments_view(out@);
    match record.level() {
        Some(l) => push_segment(&mut out, level_text(l), SegmentStyle::Level(l)),
        None => {},
    }
    let ghost after_level = segments_view(out@);
    match record.target() {
        Some(t) => push_segment(&mut out, concat2(t, ": "), SegmentStyle::Target),
        None => {},
    }
    let ghost after_target = segments_view(out@);
    match record {
        RecordResponse::Log(log) => {
            match &log.message {
                Some(m) => push_segment(&mut out, m.clone(), SegmentStyle::Message),
                None => {},
            }
            push_attrs_detail(&mut out, &log.attributes);
        },
        RecordResponse::Span(span) => {
            push_segment(&mut out, concat2("span: ", span.name.as_str()), SegmentStyle::Name);
            match &span.kind {
                Some(k) => push_segment(&mut out, concat3(" [", k.as_str(), "]"), SegmentStyle::Detail),
                None => {},
            }
            push_attrs_detail(&mut out, &span.attributes);
        },
        RecordResponse::Event(event) => {
            push_segment(&mut out, concat2("event: ", event.name.as_str()), SegmentStyle::Name);
            push_attrs_detail(&mut out, &event.attributes);
        },
    }
    proof {
        assert(segments_view(out@) =~= line_of(*record));
    }
    FormattedLine { segments: out }
}

/// Where a record goes among records: after the last that is not newer.
pub open spec fn time_pos(s: Seq<RecordResponse>, x: RecordResponse) -> int
    decreases s.len(),
{
    if s.len() == 0 {
        0
    } else if timestamp_of(s.last()) > timestamp_of(x) {
        time_pos(s.drop_last(), x)
    } else {
        s.len() as int
    }
}

/// The stable sort of records by timestamp alone (what `sort_by_key` on
/// the timestamp gives).
pub open spec fn time_sort(s: Seq<RecordResponse>) -> Seq<RecordResponse>
    decreases s.len(),
{
    if s.len() == 0 {
        s
    } else {
        let t = time_sort(s.drop_last());
        t.insert(time_pos(t, s.last()), s.last())
    }
}

pub open spec fn time_sorted(s: Seq<RecordResponse>) -> bool {
    forall|i: int, j: int| 0 <= i < j < s.len() ==> timestamp_of(s[i]) <= timestamp_of(s[j])
}

/// Whether no two records have the same key.
pub open spec fn distinct_keys(s: Seq<RecordResponse>) -> bool {
    forall|i: int, j: int| 0 <= i < j < s.len() ==> key_of(s[i]) != key_of(s[j])
}

proof fn lemma_time_pos(s: Seq<RecordResponse>, x: RecordResponse)
    requires
        time_sorted(s),
    ensures
        0 <= time_pos(s, x) <= s.len(),
        forall|k: int| 0 <= k < time_pos(s, x) ==> timestamp_of(#[trigger] s[k]) <= timestamp_of(x),
        forall|k: int| time_pos(s, x) <= k < s.len() ==> timestamp_of(#[trigger] s[k]) > timestamp_of(x),
    decreases s.len(),
{
    if s.len() > 0 {
        let t = s.drop_last();
        assert forall|k: int| 0 <= k < t.len() implies s[k] == #[trigger] t[k] by {}
        if timestamp_of(s.last()) > timestamp_of(x) {
            lemma_time_pos(t, x);
            assert forall|k: int| time_pos(s, x) <= k < s.len() implies timestamp_of(#[trigger] s[k]) > timestamp_of(x) by {
                if k < t.len() {
                    assert(s[k] == t[k]);
                }
            }
            assert forall|k: int| 0 <= k < time_pos(s, x) implies timestamp_of(#[trigger] s[k]) <= timestamp_of(x) by {
                assert(s[k] == t[k]);
            }
        } else {
            assert forall|k: int| 0 <= k < s.len() implies timestamp_of(#[trigger] s[k]) <= timestamp_of(x) by {
                if k < s.len() - 1 {
                    assert(timestamp_of(s[k]) <= timestamp_of(s[s.len() - 1]));
                }
            }
        }
    }
}

proof fn lemma_time_pos_unique(s: Seq<RecordResponse>, x: RecordResponse, p: int)
    requires
        time_sorted(s),
        0 <= p <= s.len(),
        forall|k: int| 0 <= k < p ==> timestamp_of(#[trigger] s[k]) <= timestamp_of(x),
        forall|k: int| p <= k < s.len() ==> timestamp_of(#[trigger] s[k]) > timestamp_of(x),
    ensures
        time_pos(s, x) == p,
{
    lemma_time_pos(s, x);
    let q = time_pos(s, x);
    if q < p {
        assert(timestamp_of(s[q]) > timestamp_of(x));
    } else if q > p {
        assert(timestamp_of(s[p]) > timestamp_of(x));
    }
}

/// The sort by timestamp is in order, of the same length, holds only
/// records of its input, and keeps keys distinct.
pub proof fn lemma_time_sort(s: Seq<RecordResponse>)
    ensures
        time_sorted(time_sort(s)),
        time_sort(s).len() == s.len(),
        forall|j: int| 0 <= j < time_sort(s).len() ==> exists|i: int| 0 <= i < s.len() && #[trigger] time_sort(s)[j] == s[i],
        distinct_keys(s) ==> distinct_keys(time_sort(s)),
    decreases s.len(),
{
    if s.len() > 0 {
        let u = s.drop_last();
        lemma_time_sort(u);
        let t = time_sort(u);
        let x = s.last();
        lemma_time_pos(t, x);
        let p = time_pos(t, x);
        let r = t.insert(p, x);
        assert(time_sort(s) == r);
        assert forall|k: int| 0 <= k < u.len() implies #[trigger] u[k] == s[k] by {}
        assert forall|i: int, j: int| 0 <= i < j < r.len() implies timestamp_of(r[i]) <= timestamp_of(r[j]) by {
            if i < p && j == p {
            } else if i == p && j > p {
                assert(r[j] == t[j - 1]);
            } else if i < p && j > p {
                assert(r[i] == t[i] && r[j] == t[j - 1]);
            } else if i > p {
                assert(r[i] == t[i - 1] && r[j] == t[j - 1]);
            } else {
                assert(r[i] == t[i] && r[j] == t[j]);
            }
        }
        assert forall|j: int| 0 <= j < r.len() implies exists|i: int| 0 <= i < s.len() && #[trigger] r[j] == s[i] by {
            if j < p {
                assert(r[j] == t[j]);
                let i = choose|i: int| 0 <= i < u.len() && #[trigger] t[j] == u[i];
                assert(u[i] == s[i]);
            } else if j == p {
                assert(r[j] == s[s.len() - 1]);
            } else {
                assert(r[j] == t[j - 1]);
                let i = choose|i: int| 0 <= i < u.len() && #[trigger] t[j - 1] == u[i];
                assert(u[i] == s[i]);
            }
        }
        if distinct_keys(s) {
            assert(distinct_keys(u));
            assert forall|i: int, j: int| 0 <= i < j < r.len() implies key_of(r[i]) != key_of(r[j]) by {
                if i == p || j == p {
                    let o = if i == p { j } else { i };
                    let to = if o < p { o } else { o - 1 };
                    assert(r[o] == t[to]);
                    let m = choose|m: int| 0 <= m < u.len() && #[trigger] t[to] == u[m];
                    assert(u[m] == s[m]);
                    assert(key_of(s[m]) != key_of(s[s.len() - 1]));
                } else {
                    let ti = if i < p { i } else { i - 1 };
                    let tj = if j < p { j } else { j - 1 };
                    assert(r[i] == t[ti] && r[j] == t[tj]);
                }
            }
        }
    }
}

/// Whether some record of `s` has the key `k`.
pub open spec fn has_key(s: Seq<RecordResponse>, k: RecordKeyView) -> bool {
    exists|i: int| 0 <= i < s.len() && key_of(#[trigger] s[i]) == k
}

/// The records after admitting new records in order: a record whose key is
/// already held is skipped, any other is added at the end.
pub open spec fn admitted(existing: Seq<RecordResponse>, new: Seq<RecordResponse>) -> Seq<RecordResponse>
    decreases new.len(),
{
    if new.len() == 0 {
        existing
    } else {
        let pre = admitted(existing, new.drop_last());
        if has_key(pre, key_of(new.last())) {
            pre
        } else {
            pre.push(new.last())
        }
    }
}

/// The last `max` records of `s`.
pub open spec fn keep_last(s: Seq<RecordResponse>, max: usize) -> Seq<RecordResponse> {
    if s.len() > max {
        s.skip(s.len() - max)
    } else {
        s
    }
}

/// The records held after adding `new` to `existing` with room for `max`:
/// the admitted records sorted by timestamp, of which the `max` newest are
/// kept (the older ones fall off).
pub open spec fn records_after_add(
    existing: Seq<RecordResponse>,
    new: Seq<RecordResponse>,
    max: usize,
) -> Seq<RecordResponse> {
    keep_last(time_sort(admitted(existing, new)), max)
}

/// A record together with its rendered line.
pub type ViewEntry = (RecordResponse, FormattedLine);

pub open spec fn entry_records(s: Seq<ViewEntry>) -> Seq<RecordResponse> {
    s.map_values(|e: ViewEntry| e.0)
}

/// Whether an entry's line is its record's rendering.
pub open spec fn line_fits(e: ViewEntry) -> bool {
    segments_view(e.1.segments@) == line_of(e.0)
}

/// The records received by the viewer, each with its rendered line, newest
/// last, at most `max_records` of them, no two with the same key.
pub struct SharedState {
    pub entries: Vec<ViewEntry>,
    pub max_records: usize,
}

impl SharedState {
    /// The invariant: keys distinct, lines fitting their records, the
    /// records sorted by timestamp, no more than the maximum.
    pub open spec fn wf(&self) -> bool {
        &&& distinct_keys(entry_records(self.entries@))
        &&& forall|i: int| 0 <= i < self.entries@.len() ==> line_fits(#[trigger] self.entries@[i])
        &&& time_sorted(entry_records(self.entries@))
        &&& self.entries@.len() <= self.max_records
    }

    pub open spec fn records(&self) -> Seq<RecordResponse> {
        entry_records(self.entries@)
    }

    pub fn new(max_records: usize) -> (r: SharedState)
        ensures
            r.wf(),
            r.records() == Seq::<RecordResponse>::empty(),
            r.max_records == max_records,
    {
        let r = SharedState { entries: Vec::new(), max_records };
        assert(r.records() =~= Seq::<RecordResponse>::empty());
        r
    }

    /// The line rendered for the record with key `key`, if one is held.
    pub fn get_formatted_line(&self, key: &RecordKey) -> (r: Option<&FormattedLine>)
        requires
            self.wf(),
        ensures
            match r {
                Some(line) => exists|i: int| 0 <= i < self.entries@.len() && key_of(#[trigger] self.entries@[i].0) == key@ && self.entries@[i].1 == *line,
                None => !has_key(self.records(), key@),
            },
    {
        let mut i: usize = 0;
        while i < self.entries.len()
            invariant
                0 <= i <= self.entries@.len(),
                forall|j: int| 0 <= j < i ==> key_of(#[trigger] self.entries@[j].0) != key@,
            decreases self.entries@.len() - i,
        {
            if key_matches(&self.entries[i].0, key) {
                return Some(&self.entries[i].1);
            }
            i = i + 1;
        }
        proof {
            assert forall|j: int| 0 <= j < self.records().len() implies key_of(#[trigger] self.records()[j]) != key@ by {
                assert(self.records()[j] == self.entries@[j].0);
            }
        }
        None
    }
}

/// Whether a record has the given key.
fn key_matches(r: &RecordResponse, key: &RecordKey) -> (b: bool)
    ensures
        b == (key_of(*r) == key@),
{
    let k = r.record_key();
    match (&k, key) {
        (RecordKey::Log { timestamp: t1, trace_id: a }, RecordKey::Log { timestamp: t2, trace_id: b }) => {
            *t1 == *t2 && match (a, b) {
                (None, None) => true,
                (Some(x), Some(y)) => *x == *y,
                _ => false,
            }
        },
        (RecordKey::Span { span_id: a }, RecordKey::Span { span_id: b }) => *a == *b,
        (RecordKey::Event { span_id: a, timestamp: t1 }, RecordKey::Event { span_id: b, timestamp: t2 }) => {
            *a == *b && *t1 == *t2
        },
        _ => false,
    }
}

fn holds_key(entries: &Vec<ViewEntry>, r: &RecordResponse) -> (b: bool)
    ensures
        b == has_key(entry_records(entries@), key_of(*r)),
{
    let key = r.record_key();
    let mut i: usize = 0;
    while i < entries.len()
        invariant
            0 <= i <= entries@.len(),
            key@ == key_of(*r),
            forall|j: int| 0 <= j < i ==> key_of(#[trigger] entries@[j].0) != key_of(*r),
        decreases entries@.len() - i,
    {
        if key_matches(&entries[i].0, &key) {
            assert(entry_records(entries@)[i as int] == entries@[i as int].0);
            return true;
        }
        i = i + 1;
    }
    assert forall|j: int| 0 <= j < entry_records(entries@).len() implies key_of(#[trigger] entry_records(entries@)[j]) != key_of(*r) by {
        assert(entry_records(entries@)[j] == entries@[j].0);
    }
    false
}

fn admit_records(entries: &mut Vec<ViewEntry>, new_records: Vec<RecordResponse>)
    requires
        distinct_keys(entry_records(old(entries)@)),
        forall|i: int| 0 <= i < old(entries)@.len() ==> line_fits(#[trigger] old(entries)@[i]),
    ensures
        entry_records(final(entries)@) == admitted(entry_records(old(entries)@), new_records@),
        distinct_keys(entry_records(final(entries)@)),
        forall|i: int| 0 <= i < final(entries)@.len() ==> line_fits(#[trigger] final(entries)@[i]),
{
    let ghost start = entry_records(entries@);
    let ghost input = new_records@;
    let n = new_records.len();
    let mut rest = crate::handlers::reversed(new_records);
    let mut i: usize = 0;
    assert(input.take(0) =~= Seq::<RecordResponse>::empty());
    while i < n
        invariant
            n == input.len(),
            0 <= i <= n,
            rest@ == input.skip(i as int).reverse(),
            entry_records(entries@) == admitted(start, input.take(i as int)),
            distinct_keys(entry_records(entries@)),
            forall|k: int| 0 <= k < entries@.len() ==> line_fits(#[trigger] entries@[k]),
        decreases n - i,
    {
        let r = rest.pop().unwrap();
        proof {
            assert(r == input[i as int]);
            assert(rest@ =~= input.skip(i + 1).reverse());
            assert(input.take(i + 1).drop_last() =~= input.take(i as int));
            assert(input.take(i + 1).last() == r);
        }
        if !holds_key(entries, &r) {
            let line = format_record(&r);
            let ghost prev = entries@;
            entries.push((r, line));
            proof {
                assert(entry_records(entries@) =~= entry_records(prev).push(r));
                assert forall|a: int, b: int| 0 <= a < b < entry_records(entries@).len() implies key_of(entry_records(entries@)[a]) != key_of(entry_records(entries@)[b]) by {
                    if b == prev.len() {
                        assert(entry_records(entries@)[a] == entry_records(prev)[a]);
                    } else {
                        assert(entry_records(entries@)[a] == entry_records(prev)[a]);
                        assert(entry_records(entries@)[b] == entry_records(prev)[b]);
                    }
                }
                assert forall|k: int| 0 <= k < entries@.len() implies line_fits(#[trigger] entries@[k]) by {
                    if k < prev.len() {
                        assert(entries@[k] == prev[k]);
                    }
                }
            }
        }
        i = i + 1;
    }
    assert(input.take(n as int) =~= input);
}

fn trim_oldest(entries: &mut Vec<ViewEntry>, max: usize)
    requires
        distinct_keys(entry_records(old(entries)@)),
        forall|i: int| 0 <= i < old(entries)@.len() ==> line_fits(#[trigger] old(entries)@[i]),
    ensures
        entry_records(final(entries)@) == keep_last(entry_records(old(entries)@), max),
        distinct_keys(entry_records(final(entries)@)),
        forall|i: int| 0 <= i < final(entries)@.len() ==> line_fits(#[trigger] final(entries)@[i]),
        final(entries)@.len() <= max,
{
    let len = entries.len();
    if len > max {
        let ghost before = entries@;
        let kept = entries.split_off(len - max);
        *entries = kept;
        proof {
            assert(entries@ =~= before.skip(len - max));
            assert(entry_records(entries@) =~= entry_records(before).skip(len - max));
            assert forall|a: int, b: int| 0 <= a < b < entry_records(entries@).len() implies key_of(entry_records(entries@)[a]) != key_of(entry_records(entries@)[b]) by {
                assert(entry_records(entries@)[a] == entry_records(before)[a + len - max]);
                assert(entry_records(entries@)[b] == entry_records(before)[b + len - max]);
            }
            assert forall|k: int| 0 <= k < entries@.len() implies line_fits(#[trigger] entries@[k]) by {
                assert(entries@[k] == before[k + len - max]);
            }
        }
    }
}

fn time_insert_pos(out: &Vec<ViewEntry>, x: &RecordResponse) -> (p: usize)
    requires
        time_sorted(entry_records(out@)),
    ensures
        p as int == time_pos(entry_records(out@), *x),
{
    let ghost rs = entry_records(out@);
    let t = x.timestamp();
    let mut lo: usize = 0;
    let mut hi: usize = out.len();
    while lo < hi
        invariant
            rs == entry_records(out@),
            time_sorted(rs),
            t == timestamp_of(*x),
            0 <= lo <= hi <= out@.len(),
            forall|k: int| 0 <= k < lo ==> timestamp_of(#[trigger] rs[k]) <= t,
            forall|k: int| hi <= k < rs.len() ==> timestamp_of(#[trigger] rs[k]) > t,
        decreases hi - lo,
    {
        let mid = lo + (hi - lo) / 2;
        assert(rs[mid as int] == out@[mid as int].0);
        if out[mid].0.timestamp() <= t {
            assert forall|k: int| 0 <= k <= mid implies timestamp_of(#[trigger] rs[k]) <= t by {
                if k < mid {
                    assert(timestamp_of(rs[k]) <= timestamp_of(rs[mid as int]));
                }
            }
            lo = mid + 1;
        } else {
            assert forall|k: int| mid <= k < rs.len() implies timestamp_of(#[trigger] rs[k]) > t by {
                if k > mid {
                    assert(timestamp_of(rs[mid as int]) <= timestamp_of(rs[k]));
                }
            }
            hi = mid;
        }
    }
    proof {
        lemma_time_pos_unique(rs, *x, lo as int);
    }
    lo
}

fn sort_by_time(entries: Vec<ViewEntry>) -> (r: Vec<ViewEntry>)
    requires
        forall|i: int| 0 <= i < entries@.len() ==> line_fits(#[trigger] entries@[i]),
    ensures
        entry_records(r@) == time_sort(entry_records(entries@)),
        forall|i: int| 0 <= i < r@.len() ==> line_fits(#[trigger] r@[i]),
{
    let ghost input = entries@;
    let ghost recs = entry_records(input);
    let n = entries.len();
    let mut rest = crate::handlers::reversed(entries);
    let mut out: Vec<ViewEntry> = Vec::new();
    let mut i: usize = 0;
    assert(recs.take(0) =~= Seq::<RecordResponse>::empty());
    assert(entry_records(out@) =~= Seq::<RecordResponse>::empty());
    while i < n
        invariant
            n == input.len(),
            recs == entry_records(input),
            0 <= i <= n,
            rest@ == input.skip(i as int).reverse(),
            entry_records(out@) == time_sort(recs.take(i as int)),
            forall|k: int| 0 <= k < input.len() ==> line_fits(#[trigger] input[k]),
            forall|k: int| 0 <= k < out@.len() ==> line_fits(#[trigger] out@[k]),
        decreases n - i,
    {
        let e = rest.pop().unwrap();
        proof {
            assert(e == input[i as int]);
            assert(rest@ =~= input.skip(i + 1).reverse());
            assert(recs.take(i + 1).drop_last() =~= recs.take(i as int));
            assert(recs.take(i + 1).last() == e.0);
            lemma_time_sort(recs.take(i as int));
            lemma_time_pos(entry_records(out@), e.0);
        }
        let p = time_insert_pos(&out, &e.0);
        let ghost prev = out@;
        out.insert(p, e);
        proof {
            assert(entry_records(out@) =~= entry_records(prev).insert(p as int, e.0));
            assert forall|k: int| 0 <= k < out@.len() implies line_fits(#[trigger] out@[k]) by {
                if k < p {
                    assert(out@[k] == prev[k]);
                } else if k > p {
                    assert(out@[k] == prev[k - 1]);
                }
            }
        }
        i = i + 1;
    }
    assert(recs.take(n as int) =~= recs);
    out
}

impl SharedState {
    /// Adds records received from the server: a record whose key is already
    /// held is skipped, the others are rendered and added; the records are
    /// sorted by timestamp and only the newest `max_records` kept.
    pub fn add_records(&mut self, new_records: Vec<RecordResponse>)
        requires
            old(self).wf(),
        ensures
            final(self).wf(),
            final(self).max_records == old(self).max_records,
            final(self).records() == records_after_add(old(self).records(), new_records@, old(self).max_records),
    {
        let ghost before = self.records();
        let mut entries: Vec<ViewEntry> = Vec::new();
        std::mem::swap(&mut entries, &mut self.entries);
        admit_records(&mut entries, new_records);
        let ghost adm = entry_records(entries@);
        let mut sorted = sort_by_time(entries);
        proof {
            lemma_time_sort(adm);
        }
        trim_oldest(&mut sorted, self.max_records);
        proof {
            lemma_keep_last_sorted(time_sort(adm), self.max_records);
        }
        self.entries = sorted;
    }
}

/// The last records of a sequence sorted by timestamp are sorted, and hold
/// no key twice where the sequence does not.
proof fn lemma_keep_last_sorted(s: Seq<RecordResponse>, max: usize)
    ensures
        time_sorted(s) ==> time_sorted(keep_last(s, max)),
        distinct_keys(s) ==> distinct_keys(keep_last(s, max)),
        keep_last(s, max).len() <= max || keep_last(s, max) == s,
        forall|j: int|
            0 <= j < keep_last(s, max).len() ==> #[trigger] keep_last(s, max)[j] == s[j + s.len()
                - keep_last(s, max).len()],
{
    let k = keep_last(s, max);
    let off = s.len() - k.len();
    assert forall|j: int| 0 <= j < k.len() implies #[trigger] k[j] == s[j + off] by {}
    if time_sorted(s) {
        assert forall|i: int, j: int| 0 <= i < j < k.len() implies timestamp_of(k[i]) <= timestamp_of(k[j]) by {
            assert(k[i] == s[i + off] && k[j] == s[j + off]);
        }
    }
    if distinct_keys(s) {
        assert forall|i: int, j: int| 0 <= i < j < k.len() implies key_of(k[i]) != key_of(k[j]) by {
            assert(k[i] == s[i + off] && k[j] == s[j + off]);
        }
    }
}

/// Every admitted record past the records already held is a new record
/// whose key none of them has; the records already held stay first.
proof fn lemma_admitted_origin(existing: Seq<RecordResponse>, new: Seq<RecordResponse>)
    ensures
        admitted(existing, new).len() >= existing.len(),
        forall|k: int| 0 <= k < existing.len() ==> #[trigger] admitted(existing, new)[k] == existing[k],
        forall|j: int|
            existing.len() <= j < admitted(existing, new).len() ==> new.contains(
                #[trigger] admitted(existing, new)[j],
            ) && !has_key(existing, key_of(admitted(existing, new)[j])),
    decreases new.len(),
{
    if new.len() > 0 {
        let u = new.drop_last();
        lemma_admitted_origin(existing, u);
        let pre = admitted(existing, u);
        let x = new.last();
        assert(new[new.len() - 1] == x);
        assert forall|j: int| existing.len() <= j < pre.len() implies new.contains(#[trigger] pre[j]) by {
            let i = choose|i: int| 0 <= i < u.len() && u[i] == pre[j];
            assert(new[i] == u[i]);
        }
        if !has_key(pre, key_of(x)) {
            let a = pre.push(x);
            assert forall|k: int| 0 <= k < existing.len() implies #[trigger] a[k] == existing[k] by {
                assert(a[k] == pre[k]);
            }
            assert(!has_key(existing, key_of(x))) by {
                if has_key(existing, key_of(x)) {
                    let i = choose|i: int| 0 <= i < existing.len() && key_of(#[trigger] existing[i]) == key_of(x);
                    assert(pre[i] == existing[i]);
                }
            }
            assert forall|j: int| existing.len() <= j < a.len() implies new.contains(#[trigger] a[j])
                && !has_key(existing, key_of(a[j])) by {
                if j < pre.len() {
                    assert(a[j] == pre[j]);
                }
            }
        }
    }
}

/// The records held after adding never number more than the maximum, hold
/// no key twice, and are sorted by timestamp; each was held before, or is
/// a new record whose key none of the records held before has (a key
/// already held is never added again).
pub proof fn lemma_records_after_add(existing: Seq<RecordResponse>, new: Seq<RecordResponse>, max: usize)
    requires
        distinct_keys(existing),
    ensures
        records_after_add(existing, new, max).len() <= max,
        distinct_keys(records_after_add(existing, new, max)),
        time_sorted(records_after_add(existing, new, max)),
        forall|j: int|
            0 <= j < records_after_add(existing, new, max).len() ==> existing.contains(
                #[trigger] records_after_add(existing, new, max)[j],
            ) || (new.contains(records_after_add(existing, new, max)[j]) && !has_key(
                existing,
                key_of(records_after_add(existing, new, max)[j]),
            )),
{
    lemma_admitted(existing, new);
    lemma_admitted_origin(existing, new);
    let a = admitted(existing, new);
    let t = time_sort(a);
    lemma_time_sort(a);
    lemma_keep_last_sorted(t, max);
    let r = keep_last(t, max);
    assert forall|j: int| 0 <= j < r.len() implies existing.contains(#[trigger] r[j]) || (new.contains(
        r[j],
    ) && !has_key(existing, key_of(r[j]))) by {
        let tj = j + t.len() - r.len();
        assert(r[j] == t[tj]);
        let i = choose|i: int| 0 <= i < a.len() && #[trigger] t[tj] == a[i];
        if i < existing.len() {
            assert(a[i] == existing[i]);
        } else {
            assert(new.contains(a[i]) && !has_key(existing, key_of(a[i])));
        }
    }
}

/// Admitting records keeps keys distinct.
pub proof fn lemma_admitted(existing: Seq<RecordResponse>, new: Seq<RecordResponse>)
    requires
        distinct_keys(existing),
    ensures
        distinct_keys(admitted(existing, new)),
    decreases new.len(),
{
    if new.len() > 0 {
        lemma_admitted(existing, new.drop_last());
        let pre = admitted(existing, new.drop_last());
        if !has_key(pre, key_of(new.last())) {
            let e = pre.push(new.last());
            assert forall|i: int, j: int| 0 <= i < j < e.len() implies key_of(e[i]) != key_of(e[j]) by {
                if j == pre.len() {
                    assert(e[i] == pre[i]);
                } else {
                    assert(e[i] == pre[i] && e[j] == pre[j]);
                }
            }
        }
    }
}

/// How the viewer behaves.
#[derive(Debug, Clone, Copy)]
pub struct TuiConfig {
    /// How far back, in seconds, the first poll reaches.
    pub lookback: u64,
    /// Interval between background polls (milliseconds).
    pub poll_interval_ms: u64,
    /// Maximum number of records kept.
    pub max_records: usize,
}

impl Default for TuiConfig {
    fn default() -> (r: TuiConfig)
        ensures
            r.poll_interval_ms == 500,
            r.max_records == 1000,
            r.lookback == 10,
    {
        TuiConfig { poll_interval_ms: 500, max_records: 1000, lookback: 10 }
    }
}

/// Which kinds of records are shown, and whether the filter is being edited.
#[derive(Debug, Clone, Copy, PartialEq, Eq, Structural)]
pub struct ViewState {
    pub spans: bool,
    pub events: bool,
    pub logs: bool,
    pub editing_filter: bool,
}

impl Default for ViewState {
    fn default() -> (r: ViewState)
        ensures
            r == (ViewState { spans: true, events: true, logs: true, editing_filter: false }),
    {
        ViewState { spans: true, events: true, logs: true, editing_filter: false }
    }
}

/// A key pressed in the viewer, as far as its handling tells keys apart.
#[derive(Debug, Clone, Copy, PartialEq, Eq, Structural)]
pub enum ViewKey {
    /// A character key.
    Char(char),
    /// A character key pressed with the control modifier.
    Control(char),
    Enter,
    Esc,
    Other,
}

/// What follows a key press.
#[derive(Debug, Clone, Copy, PartialEq, Eq, Structural)]
pub enum KeyOutcome {
    /// Leave the viewer.
    Quit,
    /// Go on drawing.
    Continue,
    /// The key edits the filter text; the text input takes it.
    EditInput,
}

/// The view after a character key outside filter editing, and what
/// follows it: `q` quits, `f` starts editing, and `s`, `e`, `l` show or
/// hide spans, events and logs; any other character does nothing.
pub open spec fn char_step(v: ViewState, c: char) -> (ViewState, KeyOutcome) {
    if c == 'q' {
        (v, KeyOutcome::Quit)
    } else if c == 'f' {
        (
            ViewState { spans: v.spans, events: v.events, logs: v.logs, editing_filter: true },
            KeyOutcome::Continue,
        )
    } else if c == 's' {
        (
            ViewState { spans: !v.spans, events: v.events, logs: v.logs, editing_filter: false },
            KeyOutcome::Continue,
        )
    } else if c == 'e' {
        (
            ViewState { spans: v.spans, events: !v.events, logs: v.logs, editing_filter: false },
            KeyOutcome::Continue,
        )
    } else if c == 'l' {
        (
            ViewState { spans: v.spans, events: v.events, logs: !v.logs, editing_filter: false },
            KeyOutcome::Continue,
        )
    } else {
        (v, KeyOutcome::Continue)
    }
}

/// The view after a key and what follows it. Ctrl+C (the interrupt key in
/// raw mode) quits at any time. While the filter is edited, Enter and Esc
/// end the editing (Enter also applies the text) and every other key edits
/// the text; otherwise a character, with or without the control modifier,
/// acts as `char_step` says, and other keys do nothing.
pub open spec fn key_step(v: ViewState, key: ViewKey) -> (ViewState, KeyOutcome) {
    if key == ViewKey::Control('c') {
        (v, KeyOutcome::Quit)
    } else if v.editing_filter {
        match key {
            ViewKey::Enter | ViewKey::Esc => (
                ViewState { spans: v.spans, events: v.events, logs: v.logs, editing_filter: false },
                KeyOutcome::Continue,
            ),
            _ => (v, KeyOutcome::EditInput),
        }
    } else {
        match key {
            ViewKey::Char(c) => char_step(v, c),
            ViewKey::Control(c) => char_step(v, c),
            _ => (v, KeyOutcome::Continue),
        }
    }
}

/// Whether the view shows records of this kind.
pub open spec fn kind_shown(r: RecordResponse, v: ViewState) -> bool {
    match r {
        RecordResponse::Log(_) => v.logs,
        RecordResponse::Span(_) => v.spans,
        RecordResponse::Event(_) => v.events,
    }
}

/// Whether a record is listed: the filter allows it and its kind is shown.
pub open spec fn shown(r: RecordResponse, ds: Seq<DirectiveView>, v: ViewState) -> bool {
    filter_allows(ds, target_of(r), level_of(r)) && kind_shown(r, v)
}

/// The records listed, in order.
pub open spec fn visible(s: Seq<RecordResponse>, ds: Seq<DirectiveView>, v: ViewState) -> Seq<RecordResponse>
    decreases s.len(),
{
    if s.len() == 0 {
        Seq::empty()
    } else if shown(s.last(), ds, v) {
        visible(s.drop_last(), ds, v).push(s.last())
    } else {
        visible(s.drop_last(), ds, v)
    }
}

/// The status line: the server and the number of records held.
pub open spec fn status_text(server_url: Seq<char>, count: nat) -> Seq<char> {
    "Arboretum TUI | Server: "@ + server_url + " | Records: "@ + nat_digits(count)
        + " | Press 'f' to filter, 'q' to quit"@
}

/// How far the viewer has fallen behind the server: updated within the last
/// two poll intervals, late by more than that, or stale past ten.
#[derive(Debug, Clone, Copy, PartialEq, Eq, Structural)]
pub enum Freshness {
    Current,
    Late,
    Stale,
}

/// The freshness of the records `age_ms` after the last update, polling
/// every `interval_ms`.
pub open spec fn freshness_of(age_ms: u64, interval_ms: u64) -> Freshness {
    if age_ms > 10 * interval_ms {
        Freshness::Stale
    } else if age_ms > 2 * interval_ms {
        Freshness::Late
    } else {
        Freshness::Current
    }
}

/// The time since the last update, in whole seconds.
pub open spec fn update_age_text(age_ms: u64) -> Seq<char> {
    "Updated "@ + nat_digits((age_ms / 1000) as nat) + "s ago"@
}

/// The freshness of the records `age_ms` after the last update, polling
/// every `interval_ms`.
pub fn freshness(age_ms: u64, interval_ms: u64) -> (r: Freshness)
    ensures
        r == freshness_of(age_ms, interval_ms),
{
    let age = age_ms as u128;
    let interval = interval_ms as u128;
    if age > 10 * interval {
        Freshness::Stale
    } else if age > 2 * interval {
        Freshness::Late
    } else {
        Freshness::Current
    }
}

/// The time since the last update, as the status bar shows it.
pub fn update_age(age_ms: u64) -> (r: String)
    ensures
        r@ == update_age_text(age_ms),
{
    let mut s = String::from_str("Updated ");
    let n = u64_to_string(age_ms / 1000);
    s.append(n.as_str());
    s.append("s ago");
    s
}

/// The filter line: the text itself while it is edited, else the text (or
/// `none` where it is empty) with a hint.
pub open spec fn filter_display_text(input: Seq<char>, editing: bool) -> Seq<char> {
    if editing {
        input
    } else if input.len() == 0 {
        "none (press 'f' to edit)"@
    } else {
        input + " (press 'f' to edit)"@
    }
}

/// The viewer's state: the filter in force, the view, the server.
pub struct App {
    pub filter: RecordFilter,
    pub view: ViewState,
    pub server_url: String,
}

impl App {
    pub fn new(server_url: String) -> (r: App)
        ensures
            r.filter.directives@.len() == 0,
            r.view == (ViewState { spans: true, events: true, logs: true, editing_filter: false }),
            r.server_url == server_url,
    {
        App { filter: RecordFilter { directives: Vec::new() }, view: ViewState::default(), server_url }
    }

    /// Puts the filter that `input` gives in force.
    pub fn update_filter(&mut self, input: &str)
        ensures
            directive_views(final(self).filter.directives@) == parsed_directives(input@),
            final(self).view == old(self).view,
            final(self).server_url == old(self).server_url,
    {
        self.filter = RecordFilter::parse(input);
    }

    /// Handles a key press; `input` is the filter text as edited so far.
    pub fn handle_key(&mut self, key: ViewKey, input: &str) -> (r: KeyOutcome)
        ensures
            final(self).view == key_step(old(self).view, key).0,
            r == key_step(old(self).view, key).1,
            final(self).server_url == old(self).server_url,
            (old(self).view.editing_filter && key == ViewKey::Enter) ==> directive_views(
                final(self).filter.directives@,
            ) == parsed_directives(input@),
            !(old(self).view.editing_filter && key == ViewKey::Enter) ==> final(self).filter
                == old(self).filter,
    {
        if key == ViewKey::Control('c') {
            return KeyOutcome::Quit;
        }
        if self.view.editing_filter {
            match key {
                ViewKey::Enter => {
                    self.view.editing_filter = false;
                    self.update_filter(input);
                    KeyOutcome::Continue
                },
                ViewKey::Esc => {
                    self.view.editing_filter = false;
                    KeyOutcome::Continue
                },
                _ => KeyOutcome::EditInput,
            }
        } else {
            match key {
                ViewKey::Char(c) => self.char_key(c),
                ViewKey::Control(c) => self.char_key(c),
                _ => KeyOutcome::Continue,
            }
        }
    }

    fn char_key(&mut self, c: char) -> (r: KeyOutcome)
        requires
            !old(self).view.editing_filter,
        ensures
            final(self).view == char_step(old(self).view, c).0,
            r == char_step(old(self).view, c).1,
            final(self).server_url == old(self).server_url,
            final(self).filter == old(self).filter,
    {
        if c == 'q' {
            KeyOutcome::Quit
        } else if c == 'f' {
            self.view.editing_filter = true;
            KeyOutcome::Continue
        } else if c == 's' {
            self.view.spans = !self.view.spans;
            KeyOutcome::Continue
        } else if c == 'e' {
            self.view.events = !self.view.events;
            KeyOutcome::Continue
        } else if c == 'l' {
            self.view.logs = !self.view.logs;
            KeyOutcome::Continue
        } else {
            KeyOutcome::Continue
        }
    }

    /// Whether the view shows records of this kind.
    pub fn shows_kind(&self, r: &RecordResponse) -> (b: bool)
        ensures
            b == kind_shown(*r, self.view),
    {
        match r {
            RecordResponse::Log(_) => self.view.logs,
            RecordResponse::Span(_) => self.view.spans,
            RecordResponse::Event(_) => self.view.events,
        }
    }

    /// The lines of the records listed, oldest first.
    pub fn visible_lines<'a>(&self, state: &'a SharedState) -> (r: Vec<&'a FormattedLine>)
        requires
            state.wf(),
        ensures
            r@.len() == visible(state.records(), directive_views(self.filter.directives@), self.view).len(),
            forall|i: int|
                0 <= i < r@.len() ==> segments_view(#[trigger] r@[i].segments@) == line_of(
                    visible(state.records(), directive_views(self.filter.directives@), self.view)[i],
                ),
    {
        let ghost ds = directive_views(self.filter.directives@);
        let ghost recs = state.records();
        let mut out: Vec<&'a FormattedLine> = Vec::new();
        let mut i: usize = 0;
        assert(recs.take(0) =~= Seq::<RecordResponse>::empty());
        while i < state.entries.len()
            invariant
                state.wf(),
                recs == state.records(),
                ds == directive_views(self.filter.directives@),
                0 <= i <= state.entries@.len(),
                out@.len() == visible(recs.take(i as int), ds, self.view).len(),
                forall|k: int|
                    0 <= k < out@.len() ==> segments_view(#[trigger] out@[k].segments@) == line_of(
                        visible(recs.take(i as int), ds, self.view)[k],
                    ),
            decreases state.entries@.len() - i,
        {
            let entry = &state.entries[i];
            proof {
                assert(recs[i as int] == entry.0);
                assert(recs.take(i + 1).drop_last() =~= recs.take(i as int));
                assert(recs.take(i + 1).last() == entry.0);
                assert(line_fits(state.entries@[i as int]));
            }
            if entry.0.matches_filter(&self.filter) && self.shows_kind(&entry.0) {
                let ghost prev = out@;
                out.push(&entry.1);
                proof {
                    assert forall|k: int| 0 <= k < out@.len() implies segments_view(#[trigger] out@[k].segments@) == line_of(
                        visible(recs.take(i + 1), ds, self.view)[k],
                    ) by {
                        if k < prev.len() {
                            assert(out@[k] == prev[k]);
                        }
                    }
                }
            }
            i = i + 1;
        }
        assert(recs.take(state.entries@.len() as int) =~= recs);
        out
    }

    /// The status line.
    pub fn status_line(&self, record_count: usize) -> (r: String)
        ensures
            r@ == status_text(self.server_url@, record_count as nat),
    {
        let mut s = String::from_str("Arboretum TUI | Server: ");
        s.append(self.server_url.as_str());
        s.append(" | Records: ");
        let n = u64_to_string(record_count as u64);
        s.append(n.as_str());
        s.append(" | Press 'f' to filter, 'q' to quit");
        s
    }

    /// The filter line, `input` being the filter text.
    pub fn filter_display(&self, input: &str) -> (r: String)
        ensures
            r@ == filter_display_text(input@, self.view.editing_filter),
    {
        if self.view.editing_filter {
            String::from_str(input)
        } else if chars_of(input).len() == 0 {
            String::from_str("none (press 'f' to edit)")
        } else {
            let mut s = String::from_str(input);
            s.append(" (press 'f' to edit)");
            s
        }
    }
}

/// The address polled: from the cursor where there is one, else with the
/// configured lookback.
pub open spec fn poll_url(base: Seq<char>, cursor: Option<i64>, lookback: u64) -> Seq<char> {
    match cursor {
        Some(c) => base + "/api/v1/records?cursor="@ + int_text(c as int),
        None => base + "/api/v1/records?lookback="@ + nat_digits(lookback as nat),
    }
}

/// The records of a page newer than the cursor (all of them where there is
/// no cursor), in order.
pub open spec fn newer_than(s: Seq<RecordResponse>, cursor: Option<i64>) -> Seq<RecordResponse>
    decreases s.len(),
{
    if s.len() == 0 {
        Seq::empty()
    } else if (match cursor {
        Some(c) => timestamp_of(s.last()) > c,
        None => true,
    }) {
        newer_than(s.drop_last(), cursor).push(s.last())
    } else {
        newer_than(s.drop_last(), cursor)
    }
}

/// The polling side of the viewer: the server and the cursor of the last
/// page received.
pub struct BackgroundPoller {
    pub base_url: String,
    pub cursor: Option<i64>,
    pub config: TuiConfig,
}

impl BackgroundPoller {
    pub fn new(base_url: String, config: TuiConfig) -> (r: BackgroundPoller)
        ensures
            r.base_url == base_url,
            r.cursor is None,
            r.config == config,
    {
        BackgroundPoller { base_url, cursor: None, config }
    }

    /// The address of the next poll.
    pub fn request_url(&self) -> (r: String)
        ensures
            r@ == poll_url(self.base_url@, self.cursor, self.config.lookback),
    {
        let mut s = String::from_str(self.base_url.as_str());
        match self.cursor {
            Some(c) => {
                s.append("/api/v1/records?cursor=");
                let t = i64_to_string(c);
                s.append(t.as_str());
            },
            None => {
                s.append("/api/v1/records?lookback=");
                let t = u64_to_string(self.config.lookback);
                s.append(t.as_str());
            },
        }
        s
    }

    /// Takes in a page received: the records newer than the cursor go to
    /// the store (where there are any), and the page's cursor, where it has
    /// one, becomes the cursor.
    pub fn apply_page(&mut self, page: PaginatedResponse, state: &mut SharedState) -> (r: usize)
        requires
            old(state).wf(),
        ensures
            r == newer_than(page.records@, old(self).cursor).len(),
            final(self).cursor == (match page.since {
                Some(c) => Some(c),
                None => old(self).cursor,
            }),
            final(self).base_url == old(self).base_url,
            final(self).config == old(self).config,
            final(state).wf(),
            final(state).max_records == old(state).max_records,
            final(state).records() == (if r > 0 {
                records_after_add(
                    old(state).records(),
                    newer_than(page.records@, old(self).cursor),
                    old(state).max_records,
                )
            } else {
                old(state).records()
            }),
    {
        let ghost input = page.records@;
        let cursor = self.cursor;
        let n = page.records.len();
        let mut rest = crate::handlers::reversed(page.records);
        let mut fresh: Vec<RecordResponse> = Vec::new();
        let mut i: usize = 0;
        assert(input.take(0) =~= Seq::<RecordResponse>::empty());
        while i < n
            invariant
                n == input.len(),
                0 <= i <= n,
                rest@ == input.skip(i as int).reverse(),
                fresh@ == newer_than(input.take(i as int), cursor),
            decreases n - i,
        {
            let r = rest.pop().unwrap();
            proof {
                assert(r == input[i as int]);
                assert(rest@ =~= input.skip(i + 1).reverse());
                assert(input.take(i + 1).drop_last() =~= input.take(i as int));
                assert(input.take(i + 1).last() == r);
            }
            let keep = match cursor {
                Some(c) => r.timestamp() > c,
                None => true,
            };
            if keep {
                fresh.push(r);
            }
            i = i + 1;
        }
        assert(input.take(n as int) =~= input);
        if page.since.is_some() {
            self.cursor = page.since;
        }
        let count = fresh.len();
        if count > 0 {
            state.add_records(fresh);
        }
        count
    }
}

/// Pressing `s`, `e` or `l` twice, outside filter editing, gives back the
/// view it started from.
pub proof fn lemma_toggle_twice(v: ViewState, c: char)
    requires
        !v.editing_filter,
        c == 's' || c == 'e' || c == 'l',
    ensures
        key_step(key_step(v, ViewKey::Char(c)).0, ViewKey::Char(c)).0 == v,
        key_step(v, ViewKey::Char(c)).1 == KeyOutcome::Continue,
{
}

/// The records that a page passes on are all newer than the cursor, are
/// records of the page, and come in the page's order.
pub proof fn lemma_newer_than(s: Seq<RecordResponse>, cursor: Option<i64>)
    ensures
        newer_than(s, cursor).len() <= s.len(),
        forall|i: int|
            0 <= i < newer_than(s, cursor).len() ==> (cursor matches Some(c) ==> timestamp_of(
                #[trigger] newer_than(s, cursor)[i],
            ) > c),
        forall|i: int|
            0 <= i < newer_than(s, cursor).len() ==> s.contains(#[trigger] newer_than(s, cursor)[i]),
        cursor is None ==> newer_than(s, cursor) == s,
    decreases s.len(),
{
    if s.len() > 0 {
        lemma_newer_than(s.drop_last(), cursor);
        let pre = newer_than(s.drop_last(), cursor);
        assert forall|i: int| 0 <= i < pre.len() implies s.contains(#[trigger] pre[i]) by {
            let j = choose|j: int| 0 <= j < s.drop_last().len() && s.drop_last()[j] == pre[i];
            assert(s[j] == pre[i]);
        }
        assert(s[s.len() - 1] == s.last());
        if cursor is None {
            assert(s.drop_last().push(s.last()) =~= s);
        }
    }
}

/// Ctrl+C quits whatever the view, and leaves the view as it was.
pub proof fn lemma_interrupt_quits(v: ViewState)
    ensures
        key_step(v, ViewKey::Control('c')) == (v, KeyOutcome::Quit),
{
}

/// The older the last update, the less fresh the records: freshness never
/// improves as time passes.
pub proof fn lemma_freshness_monotone(a: u64, b: u64, interval_ms: u64)
    requires
        a <= b,
    ensures
        freshness_of(a, interval_ms) == Freshness::Stale ==> freshness_of(b, interval_ms) == Freshness::Stale,
        freshness_of(a, interval_ms) == Freshness::Late ==> freshness_of(b, interval_ms) != Freshness::Current,
{
}

/// The label of a level on a line is the level's own name, padded with
/// spaces to six characters (five for the name, one to separate it).
pub proof fn lemma_level_label(l: Level)
    ensures
        level_label(l).len() == 6,
        level_label(l).subrange(0, l.name().len() as int) == l.name(),
        forall|i: int| l.name().len() <= i < 6 ==> #[trigger] level_label(l)[i] == ' ',
{
    reveal_strlit("TRACE ");
    reveal_strlit("DEBUG ");
    reveal_strlit("INFO  ");
    reveal_strlit("WARN  ");
    reveal_strlit("ERROR ");
    reveal_strlit("FATAL ");
    assert(level_label(l).subrange(0, l.name().len() as int) =~= l.name());
}

/// The line of a record with a level shows, after the time, that level's
/// name in the level's style.
pub proof fn lemma_line_level(r: RecordResponse)
    ensures
        level_of(r) matches Some(l) ==> line_of(r).len() >= 2 && line_of(r)[1].1 == SegmentStyle::Level(l)
            && line_of(r)[1].0.subrange(0, l.name().len() as int) == l.name(),
{
    if level_of(r) is Some {
        let l = level_of(r).unwrap();
        lemma_level_label(l);
        assert(line_of(r)[1] == (level_label(l), SegmentStyle::Level(l)));
    }
}

} // verus!
