//! The dashboard's log view: a bounded list of log entries built from server
//! events, with a text search and a severity filter over it.
use std::collections::VecDeque;
use vstd::prelude::*;
use vstd::string::StringExecFns;

use crate::text::{
    chars_of, contains, contains_text, is_white_space, lemma_trim_padded, occurs_at, string_of, to_lowercase, trim, trim_chars, unicode_lowercase,
};

verus! {

/// The severity of a log line.
#[derive(Clone, Copy, Debug, PartialEq, Eq, Structural)]
pub enum LogSeverity {
    Error,
    Warning,
    Info,
    Debug,
}

/// The theme colour an entry is drawn in: one per severity, and one for raw
/// events.
#[derive(Clone, Copy, Debug, PartialEq, Eq, Structural)]
pub enum LogColor {
    Error,
    Warning,
    Info,
    Debug,
    Event,
}

/// The kind of an event from the server, as far as the log view tells kinds
/// apart.
#[derive(Clone, Copy, Debug, PartialEq, Eq, Structural)]
pub enum EventKind {
    /// A log line of the given severity.
    Log(LogSeverity),
    StatisticsSummary,
    GraphStatistics,
    Tracking,
    /// Any other event.
    Other,
}

/// The raw-event settings: whether events other than log lines are shown,
/// and whether the frequent statistics and tracking events are hidden.
#[derive(Clone, Copy, Debug, PartialEq, Eq, Structural)]
pub enum RawEventsSwitch {
    Enabled { hide_spammy_events: bool },
    Disabled,
}

/// An event from the server: its timestamp, kind, type name and message text.
pub struct LogEvent {
    pub timestamp: String,
    pub kind: EventKind,
    pub event_type: String,
    pub message: String,
}

/// One line of the log view.
pub struct Entry {
    pub color: LogColor,
    pub severity: Option<LogSeverity>,
    pub timestamp: String,
    pub ty: String,
    pub message: String,
    /// The lowercased text that searches look in.
    pub search_index: String,
}

/// The abstract state of the log view.
pub struct LogsView {
    pub raw_events_config: RawEventsSwitch,
    pub entries: Seq<Entry>,
    pub log_limit: nat,
    pub search_query: Seq<char>,
    pub severity_filter: Option<LogSeverity>,
}

/// The colour of each severity.
pub open spec fn severity_color(severity: LogSeverity) -> LogColor {
    match severity {
        LogSeverity::Error => LogColor::Error,
        LogSeverity::Warning => LogColor::Warning,
        LogSeverity::Info => LogColor::Info,
        LogSeverity::Debug => LogColor::Debug,
    }
}

/// The severity of an event: that of a log line, none for other events.
pub open spec fn event_severity(kind: EventKind) -> Option<LogSeverity> {
    match kind {
        EventKind::Log(severity) => Some(severity),
        _ => None,
    }
}

/// Statistics and tracking events, which arrive many times a second.
pub open spec fn is_spammy(kind: EventKind) -> bool {
    kind is StatisticsSummary || kind is GraphStatistics || kind is Tracking
}

/// The colour an event is shown in, or `None` where it is not shown: log
/// lines always are; other events only while raw events are enabled, and the
/// frequent ones not while those are hidden.
pub open spec fn event_color(kind: EventKind, config: RawEventsSwitch) -> Option<LogColor> {
    match kind {
        EventKind::Log(severity) => Some(severity_color(severity)),
        _ => match config {
            RawEventsSwitch::Enabled { hide_spammy_events } => if !hide_spammy_events
                || !is_spammy(kind) {
                Some(LogColor::Event)
            } else {
                None
            },
            RawEventsSwitch::Disabled => None,
        },
    }
}

/// The text searched for an entry: timestamp, type and message, separated by
/// spaces.
pub open spec fn search_text(timestamp: Seq<char>, ty: Seq<char>, message: Seq<char>) -> Seq<char> {
    timestamp + seq![' '] + ty + seq![' '] + message
}

/// `entry` is the line made of `event` in `color`.
pub open spec fn entry_of_event(entry: Entry, event: LogEvent, color: LogColor) -> bool {
    &&& entry.color == color
    &&& entry.severity == event_severity(event.kind)
    &&& entry.timestamp == event.timestamp
    &&& entry.ty == event.event_type
    &&& entry.message == event.message
    &&& entry.search_index@ == unicode_lowercase(
        search_text(event.timestamp@, event.event_type@, event.message@),
    )
}

/// `entries` with `entry` appended, and the oldest dropped where that passes
/// `limit`.
pub open spec fn bounded_push(entries: Seq<Entry>, entry: Entry, limit: nat) -> Seq<Entry> {
    if entries.len() + 1 > limit {
        entries.push(entry).drop_first()
    } else {
        entries.push(entry)
    }
}

/// The search query as it is matched: trimmed and lowercased.
pub open spec fn normalized_query(query: Seq<char>) -> Seq<char> {
    unicode_lowercase(trim(query))
}

/// An entry is shown under a normalized query and a severity filter.
pub open spec fn entry_matches(entry: Entry, query: Seq<char>, filter: Option<LogSeverity>) -> bool {
    &&& query.len() == 0 || contains_text(entry.search_index@, query)
    &&& match filter {
        Some(severity) => entry.severity == Some(severity),
        None => true,
    }
}

/// The positions of the shown entries, in order.
pub open spec fn matching_positions(
    entries: Seq<Entry>,
    query: Seq<char>,
    filter: Option<LogSeverity>,
) -> Seq<int>
    decreases entries.len(),
{
    if entries.len() == 0 {
        Seq::empty()
    } else {
        let init = matching_positions(entries.drop_last(), query, filter);
        if entry_matches(entries.last(), query, filter) {
            init.push(entries.len() - 1)
        } else {
            init
        }
    }
}

/// The line that copying the log gives for one entry.
pub open spec fn copy_line(entry: Entry) -> Seq<char> {
    entry.timestamp@ + seq![' ', '['] + entry.ty@ + seq![']', ' '] + entry.message@ + seq!['\n']
}

/// The text that copying the whole log gives: one line per entry, in order.
pub open spec fn copy_text(entries: Seq<Entry>) -> Seq<char>
    decreases entries.len(),
{
    if entries.len() == 0 {
        Seq::empty()
    } else {
        copy_text(entries.drop_last()) + copy_line(entries.last())
    }
}

/// The number of entries the log view keeps.
pub const LOG_LIMIT: usize = 1000;

/// The dashboard's log tab.
pub struct LogsTab {
    raw_events_config: RawEventsSwitch,
    entries: VecDeque<Entry>,
    log_limit: usize,
    search_query: String,
    severity_filter: Option<LogSeverity>,
}

impl View for LogsTab {
    type V = LogsView;

    closed spec fn view(&self) -> LogsView {
        LogsView {
            raw_events_config: self.raw_events_config,
            entries: self.entries@,
            log_limit: self.log_limit as nat,
            search_query: self.search_query@,
            severity_filter: self.severity_filter,
        }
    }
}

impl LogsTab {
    #[verifier::type_invariant]
    closed spec fn wf(self) -> bool {
        0 < self.log_limit && self.entries@.len() <= self.log_limit
    }

    /// An empty log that shows raw events, keeps `LOG_LIMIT` entries, and
    /// has no search or filter.
    pub fn new() -> (res: LogsTab)
        ensures
            res@.raw_events_config == (RawEventsSwitch::Enabled { hide_spammy_events: false }),
            res@.entries.len() == 0,
            res@.log_limit == LOG_LIMIT,
            res@.search_query.len() == 0,
            res@.severity_filter is None,
    {
        LogsTab {
            raw_events_config: RawEventsSwitch::Enabled { hide_spammy_events: false },
            entries: VecDeque::new(),
            log_limit: LOG_LIMIT,
            search_query: String::new(),
            severity_filter: None,
        }
    }

    /// Takes the raw-event settings.
    pub fn update_settings(&mut self, config: RawEventsSwitch)
        ensures
            final(self)@ == (LogsView { raw_events_config: config, ..old(self)@ }),
    {
        proof {
            use_type_invariant(&*self);
        }
        self.raw_events_config = config;
    }

    /// Adds an event to the log, where the settings show it; the oldest entry
    /// leaves when the log is full.
    pub fn push_event(&mut self, event: LogEvent)
        ensures
            match event_color(event.kind, old(self)@.raw_events_config) {
                None => final(self)@ == old(self)@,
                Some(color) => {
                    &&& final(self)@.entries.len() > 0
                    &&& entry_of_event(final(self)@.entries.last(), event, color)
                    &&& final(self)@ == (LogsView {
                        entries: bounded_push(
                            old(self)@.entries,
                            final(self)@.entries.last(),
                            old(self)@.log_limit,
                        ),
                        ..old(self)@
                    })
                },
            },
            0 < final(self)@.log_limit,
            final(self)@.entries.len() <= final(self)@.log_limit,
    {
        proof {
            use_type_invariant(&*self);
        }
        let severity = match event.kind {
            EventKind::Log(severity) => Some(severity),
            _ => None,
        };
        let color = match event.kind {
            EventKind::Log(LogSeverity::Error) => Some(LogColor::Error),
            EventKind::Log(LogSeverity::Warning) => Some(LogColor::Warning),
            EventKind::Log(LogSeverity::Info) => Some(LogColor::Info),
            EventKind::Log(LogSeverity::Debug) => Some(LogColor::Debug),
            _ => match self.raw_events_config {
                RawEventsSwitch::Enabled { hide_spammy_events } => {
                    let spammy = match event.kind {
                        EventKind::StatisticsSummary | EventKind::GraphStatistics
                        | EventKind::Tracking => true,
                        _ => false,
                    };
                    if !hide_spammy_events || !spammy {
                        Some(LogColor::Event)
                    } else {
                        None
                    }
                },
                RawEventsSwitch::Disabled => None,
            },
        };
        assert(color == event_color(event.kind, self@.raw_events_config));
        if let Some(color) = color {
            let ghost ev = event;
            let LogEvent { timestamp, kind: _, event_type, message } = event;
            let mut text = timestamp.clone();
            text.append(" ");
            text.append(event_type.as_str());
            text.append(" ");
            text.append(message.as_str());
            proof {
                reveal_strlit(" ");
                assert(text@ =~= search_text(timestamp@, event_type@, message@));
            }
            let search_index = to_lowercase(text.as_str());
            let entry = Entry { color, severity, timestamp, ty: event_type, message, search_index };
            assert(entry_of_event(entry, ev, color));
            let ghost pushed = entry;
            let mut entries: VecDeque<Entry> = VecDeque::new();
            std::mem::swap(&mut entries, &mut self.entries);
            entries.push_back(entry);
            if entries.len() > self.log_limit {
                entries.pop_front();
            }
            assert(entries@.last() == pushed);
            self.entries = entries;
        }
    }

    /// Removes every entry.
    pub fn clear(&mut self)
        ensures
            final(self)@ == (LogsView { entries: Seq::empty(), ..old(self)@ }),
    {
        proof {
            use_type_invariant(&*self);
        }
        self.entries = VecDeque::new();
    }

    /// The number of entries.
    pub fn len(&self) -> (res: usize)
        ensures
            res == self@.entries.len(),
    {
        self.entries.len()
    }

    /// The entry at position `i`, oldest first.
    pub fn entry(&self, i: usize) -> (res: &Entry)
        requires
            i < self@.entries.len(),
        ensures
            *res == self@.entries[i as int],
    {
        &self.entries[i]
    }

    /// The search query as typed.
    pub fn search_query(&self) -> (res: &str)
        ensures
            res@ == self@.search_query,
    {
        self.search_query.as_str()
    }

    /// Replaces the search query.
    pub fn set_search_query(&mut self, query: String)
        ensures
            final(self)@ == (LogsView { search_query: query@, ..old(self)@ }),
    {
        proof {
            use_type_invariant(&*self);
        }
        self.search_query = query;
    }

    /// Empties the search query.
    pub fn clear_search(&mut self)
        ensures
            final(self)@ == (LogsView { search_query: Seq::empty(), ..old(self)@ }),
    {
        proof {
            use_type_invariant(&*self);
        }
        self.search_query = String::new();
    }

    /// The severity that entries are filtered by, if any.
    pub fn severity_filter(&self) -> (res: Option<LogSeverity>)
        ensures
            res == self@.severity_filter,
    {
        self.severity_filter
    }

    /// Filters the entries by a severity, or stops filtering.
    pub fn set_severity_filter(&mut self, filter: Option<LogSeverity>)
        ensures
            final(self)@ == (LogsView { severity_filter: filter, ..old(self)@ }),
    {
        proof {
            use_type_invariant(&*self);
        }
        self.severity_filter = filter;
    }

    /// The search query as it is matched: trimmed and lowercased.
    pub fn normalized_query(&self) -> (res: String)
        ensures
            res@ == normalized_query(self@.search_query),
    {
        let raw = chars_of(self.search_query.as_str());
        let trimmed = string_of(trim_chars(raw.as_slice()).as_slice());
        to_lowercase(trimmed.as_str())
    }

    /// The positions of the entries that the search and filter show, in order.
    pub fn matching_entries(&self) -> (res: Vec<usize>)
        ensures
            res@.len() == matching_positions(
                self@.entries,
                normalized_query(self@.search_query),
                self@.severity_filter,
            ).len(),
            forall|k: int|
                0 <= k < res@.len() ==> res@[k] == matching_positions(
                    self@.entries,
                    normalized_query(self@.search_query),
                    self@.severity_filter,
                )[k],
    {
        let query = self.normalized_query();
        self.entries_matching(query.as_str())
    }

    /// The positions of the entries that an already normalized query and the
    /// severity filter show, in order.
    pub fn entries_matching(&self, query: &str) -> (res: Vec<usize>)
        ensures
            res@.len() == matching_positions(self@.entries, query@, self@.severity_filter).len(),
            forall|k: int|
                0 <= k < res@.len() ==> res@[k] == matching_positions(
                    self@.entries,
                    query@,
                    self@.severity_filter,
                )[k],
    {
        let q = chars_of(query);
        let ghost entries = self@.entries;
        let ghost filter = self.severity_filter;
        let n = self.entries.len();
        let mut res: Vec<usize> = Vec::new();
        let mut i: usize = 0;
        while i < n
            invariant
                i <= n == entries.len(),
                entries == self@.entries,
                filter == self@.severity_filter,
                q@ == query@,
                res@.len() == matching_positions(entries.take(i as int), q@, filter).len(),
                forall|k: int|
                    0 <= k < res@.len() ==> res@[k] == matching_positions(
                        entries.take(i as int),
                        q@,
                        filter,
                    )[k],
            decreases n - i,
        {
            let entry = &self.entries[i];
            let text_ok = if q.len() == 0 {
                true
            } else {
                let index = chars_of(entry.search_index.as_str());
                contains(index.as_slice(), q.as_slice())
            };
            let severity_ok = match self.severity_filter {
                Some(severity) => match entry.severity {
                    Some(own) => own == severity,
                    None => false,
                },
                None => true,
            };
            assert(entries.take(i + 1).drop_last() =~= entries.take(i as int));
            assert(entries.take(i + 1).last() == entries[i as int]);
            if text_ok && severity_ok {
                res.push(i);
            }
            i = i + 1;
        }
        assert(entries.take(n as int) =~= entries);
        res
    }

    /// The number of entries that the search and filter show.
    pub fn match_count(&self) -> (res: usize)
        ensures
            res == matching_positions(
                self@.entries,
                normalized_query(self@.search_query),
                self@.severity_filter,
            ).len(),
    {
        self.matching_entries().len()
    }

    /// The whole log as text, one `timestamp [type] message` line per entry.
    pub fn copy_all_text(&self) -> (res: String)
        ensures
            res@ == copy_text(self@.entries),
    {
        let ghost entries = self@.entries;
        let n = self.entries.len();
        let mut res = String::new();
        let mut i: usize = 0;
        while i < n
            invariant
                i <= n == entries.len(),
                entries == self@.entries,
                res@ == copy_text(entries.take(i as int)),
            decreases n - i,
        {
            let entry = &self.entries[i];
            res.append(entry.timestamp.as_str());
            res.append(" [");
            res.append(entry.ty.as_str());
            res.append("] ");
            res.append(entry.message.as_str());
            res.append("\n");
            proof {
                reveal_strlit(" [");
                reveal_strlit("] ");
                reveal_strlit("\n");
            }
            assert(entries.take(i + 1).drop_last() =~= entries.take(i as int));
            assert(res@ =~= copy_text(entries.take(i + 1)));
            i = i + 1;
        }
        assert(entries.take(n as int) =~= entries);
        res
    }
}

/// The text shown for a severity filter, to be translated.
pub fn severity_filter_label(filter: Option<LogSeverity>) -> (res: &'static str)
    ensures
        res@ == match filter {
            None => seq!['A', 'l', 'l', ' ', 'l', 'e', 'v', 'e', 'l', 's'],
            Some(LogSeverity::Error) => seq!['E', 'r', 'r', 'o', 'r'],
            Some(LogSeverity::Warning) => seq!['W', 'a', 'r', 'n', 'i', 'n', 'g'],
            Some(LogSeverity::Info) => seq!['I', 'n', 'f', 'o'],
            Some(LogSeverity::Debug) => seq!['D', 'e', 'b', 'u', 'g'],
        },
{
    proof {
        reveal_strlit("All levels");
        reveal_strlit("Error");
        reveal_strlit("Warning");
        reveal_strlit("Info");
        reveal_strlit("Debug");
    }
    match filter {
        None => "All levels",
        Some(LogSeverity::Error) => "Error",
        Some(LogSeverity::Warning) => "Warning",
        Some(LogSeverity::Info) => "Info",
        Some(LogSeverity::Debug) => "Debug",
    }
}

/// Log lines are shown whatever the raw-event settings, in the colour of
/// their severity; other events are not shown while raw events are disabled.
pub proof fn law_log_lines_always_shown(severity: LogSeverity, kind: EventKind, config: RawEventsSwitch)
    ensures
        event_color(EventKind::Log(severity), config) == Some(severity_color(severity)),
        !(kind is Log) ==> event_color(kind, RawEventsSwitch::Disabled) is None,
{
}

/// Adding to a log within its limit keeps it within the limit, puts the new
/// entry last, and keeps the newest of the earlier entries in their order:
/// all of them, or all but the oldest when the log was full.
pub proof fn law_bounded_push_keeps_newest(entries: Seq<Entry>, entry: Entry, limit: nat)
    requires
        0 < limit,
        entries.len() <= limit,
    ensures
        bounded_push(entries, entry, limit).len() <= limit,
        bounded_push(entries, entry, limit).last() == entry,
        entries.len() < limit ==> bounded_push(entries, entry, limit) == entries.push(entry),
        entries.len() == limit ==> bounded_push(entries, entry, limit) == entries.drop_first().push(
            entry,
        ),
{
    if entries.len() == limit {
        assert(entries.push(entry).drop_first() =~= entries.drop_first().push(entry));
    }
}

/// An entry's position is listed exactly when the entry is shown, and the
/// positions come in increasing order.
pub proof fn law_matching_positions_exact(
    entries: Seq<Entry>,
    query: Seq<char>,
    filter: Option<LogSeverity>,
)
    ensures
        forall|p: int|
            matching_positions(entries, query, filter).contains(p) <==> (0 <= p < entries.len()
                && entry_matches(entries[p], query, filter)),
        forall|a: int, b: int|
            0 <= a < b < matching_positions(entries, query, filter).len() ==> matching_positions(
                entries,
                query,
                filter,
            )[a] < matching_positions(entries, query, filter)[b],
    decreases entries.len(),
{
    if entries.len() > 0 {
        let init = entries.drop_last();
        law_matching_positions_exact(init, query, filter);
        let prev = matching_positions(init, query, filter);
        assert forall|p: int| prev.contains(p) implies p < entries.len() - 1 by {
            let k = choose|k: int| 0 <= k < prev.len() && prev[k] == p;
        }
        let cur = matching_positions(entries, query, filter);
        assert forall|a: int, b: int| 0 <= a < b < cur.len() implies cur[a] < cur[b] by {
            if b < prev.len() {
                assert(cur[a] == prev[a] && cur[b] == prev[b]);
            } else {
                assert(cur[a] == prev[a]);
                assert(prev.contains(prev[a]));
            }
        }
        assert forall|p: int|
            matching_positions(entries, query, filter).contains(p) <==> (0 <= p < entries.len()
                && entry_matches(entries[p], query, filter)) by {
            if 0 <= p < entries.len() - 1 {
                assert(init[p] == entries[p]);
            }
            if entry_matches(entries.last(), query, filter) {
                let cur = prev.push(entries.len() - 1);
                if cur.contains(p) {
                    let k = choose|k: int| 0 <= k < cur.len() && cur[k] == p;
                    if k < prev.len() {
                        assert(prev.contains(p));
                    }
                }
                if prev.contains(p) {
                    let k = choose|k: int| 0 <= k < prev.len() && prev[k] == p;
                    assert(cur[k] == p);
                }
                if p == entries.len() - 1 {
                    assert(cur[prev.len() as int] == p);
                }
            }
        }
    }
}

/// With no search text and no severity filter, every entry is shown.
pub proof fn law_everything_shown_without_search(entries: Seq<Entry>)
    ensures
        matching_positions(entries, Seq::empty(), None) == Seq::new(entries.len(), |i: int| i),
    decreases entries.len(),
{
    if entries.len() > 0 {
        law_everything_shown_without_search(entries.drop_last());
        assert(matching_positions(entries, Seq::empty(), None) =~= Seq::new(
            entries.len(),
            |i: int| i,
        ));
    } else {
        assert(matching_positions(entries, Seq::empty(), None) =~= Seq::new(
            entries.len(),
            |i: int| i,
        ));
    }
}

/// An entry made of a log line carries that line's severity; other events
/// carry none. Each severity has a colour of its own, none of them the raw
/// event colour.
pub proof fn law_log_entry_carries_severity(severity: LogSeverity, other: LogSeverity, kind: EventKind)
    ensures
        event_severity(EventKind::Log(severity)) == Some(severity),
        !(kind is Log) ==> event_severity(kind) is None,
        severity != other ==> severity_color(severity) != severity_color(other),
        severity_color(severity) != LogColor::Event,
{
}

/// Under a severity filter an entry is shown only if it has exactly that
/// severity; without a search text, every entry of that severity is shown;
/// without a filter, only the search text decides.
pub proof fn law_severity_filter_exact(entry: Entry, query: Seq<char>, severity: LogSeverity)
    ensures
        entry_matches(entry, query, Some(severity)) ==> entry.severity == Some(severity),
        entry.severity == Some(severity) && query.len() == 0 ==> entry_matches(
            entry,
            query,
            Some(severity),
        ),
        entry_matches(entry, query, None) <==> (query.len() == 0 || contains_text(
            entry.search_index@,
            query,
        )),
        query.len() > 0 && entry_matches(entry, query, Some(severity)) ==> contains_text(
            entry.search_index@,
            query,
        ),
{
}

/// Events other than log lines are shown in the raw event colour while raw
/// events are enabled, except the statistics and tracking events when those
/// are hidden; none is shown while raw events are disabled.
pub proof fn law_raw_event_visibility(kind: EventKind)
    requires
        !(kind is Log),
    ensures
        event_color(kind, RawEventsSwitch::Enabled { hide_spammy_events: false }) == Some(
            LogColor::Event,
        ),
        event_color(kind, RawEventsSwitch::Enabled { hide_spammy_events: true }) is None <==> (
        kind == EventKind::StatisticsSummary || kind == EventKind::GraphStatistics || kind
            == EventKind::Tracking),
        event_color(kind, RawEventsSwitch::Enabled { hide_spammy_events: true }) is Some ==> event_color(
            kind,
            RawEventsSwitch::Enabled { hide_spammy_events: true },
        ) == Some(LogColor::Event),
        event_color(kind, RawEventsSwitch::Disabled) is None,
{
}

/// The searched text holds the timestamp, the type and the message.
pub proof fn law_search_text_holds_fields(timestamp: Seq<char>, ty: Seq<char>, message: Seq<char>)
    ensures
        contains_text(search_text(timestamp, ty, message), timestamp),
        contains_text(search_text(timestamp, ty, message), ty),
        contains_text(search_text(timestamp, ty, message), message),
{
    let t = search_text(timestamp, ty, message);
    let a = timestamp.len() as int;
    let b = a + 1 + ty.len();
    assert(t.subrange(0, a) =~= timestamp);
    assert(occurs_at(t, timestamp, 0));
    assert(t.subrange(a + 1, b) =~= ty);
    assert(occurs_at(t, ty, a + 1));
    assert(t.subrange(b + 1, t.len() as int) =~= message);
    assert(occurs_at(t, message, b + 1));
}

/// Copying the log gives each entry's line, in order, one after another.
pub proof fn law_copy_text_appends(entries: Seq<Entry>, entry: Entry)
    ensures
        copy_text(entries.push(entry)) == copy_text(entries) + copy_line(entry),
        copy_text(seq![entry]) == copy_line(entry),
        copy_line(entry).last() == '\n',
{
    assert(entries.push(entry).drop_last() =~= entries);
    assert(seq![entry].drop_last() =~= Seq::<Entry>::empty());
    assert(copy_text(Seq::<Entry>::empty()) == Seq::<char>::empty());
    assert(seq![entry].last() == entry);
    assert(copy_text(seq![entry]) == copy_text(seq![entry].drop_last()) + copy_line(entry));
    assert(Seq::<char>::empty() + copy_line(entry) =~= copy_line(entry));
}

/// Whitespace around the search query does not change what is searched for.
pub proof fn law_query_ignores_surrounding_space(w1: Seq<char>, query: Seq<char>, w2: Seq<char>)
    requires
        forall|i: int| 0 <= i < w1.len() ==> is_white_space(w1[i]),
        forall|i: int| 0 <= i < w2.len() ==> is_white_space(w2[i]),
        query.len() > 0,
        !is_white_space(query[0]),
        !is_white_space(query.last()),
    ensures
        normalized_query(w1 + query + w2) == normalized_query(query),
        normalized_query(w1 + query + w2) == unicode_lowercase(query),
{
    lemma_trim_padded(w1, query, w2);
    lemma_trim_padded(Seq::empty(), query, Seq::empty());
    assert(Seq::<char>::empty() + query + Seq::<char>::empty() =~= query);
}

} // verus!
