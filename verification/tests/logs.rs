use alvr_dashboard_core::logs::{
    severity_filter_label, EventKind, LogColor, LogEvent, LogSeverity, LogsTab, RawEventsSwitch,
    LOG_LIMIT,
};

fn event(timestamp: &str, kind: EventKind, ty: &str, message: &str) -> LogEvent {
    LogEvent {
        timestamp: timestamp.to_string(),
        kind,
        event_type: ty.to_string(),
        message: message.to_string(),
    }
}

fn log(severity: LogSeverity, message: &str) -> LogEvent {
    event("12:00:00", EventKind::Log(severity), "LOG", message)
}

#[test]
fn log_lines_get_their_severity_colour() {
    let mut tab = LogsTab::new();
    tab.push_event(log(LogSeverity::Error, "Boom"));
    tab.push_event(log(LogSeverity::Warning, "Careful"));
    tab.push_event(log(LogSeverity::Info, "Hello"));
    tab.push_event(log(LogSeverity::Debug, "Details"));
    assert_eq!(tab.len(), 4);
    assert_eq!(tab.entry(0).color, LogColor::Error);
    assert_eq!(tab.entry(1).color, LogColor::Warning);
    assert_eq!(tab.entry(2).color, LogColor::Info);
    assert_eq!(tab.entry(3).color, LogColor::Debug);
    assert_eq!(tab.entry(0).severity, Some(LogSeverity::Error));
    assert_eq!(tab.entry(0).search_index, "12:00:00 log boom");
    assert_eq!(tab.entry(0).ty, "LOG");
    assert_eq!(tab.entry(0).message, "Boom");
}

#[test]
fn raw_events_follow_the_settings() {
    let mut tab = LogsTab::new();
    tab.push_event(event("t", EventKind::Tracking, "TRACKING", "x"));
    tab.push_event(event("t", EventKind::Other, "SESSION", "y"));
    assert_eq!(tab.len(), 2);
    assert_eq!(tab.entry(0).color, LogColor::Event);
    assert_eq!(tab.entry(0).severity, None);

    tab.update_settings(RawEventsSwitch::Enabled { hide_spammy_events: true });
    tab.push_event(event("t", EventKind::StatisticsSummary, "STATS", "s"));
    tab.push_event(event("t", EventKind::GraphStatistics, "GRAPH", "g"));
    tab.push_event(event("t", EventKind::Tracking, "TRACKING", "t"));
    assert_eq!(tab.len(), 2);
    tab.push_event(event("t", EventKind::Other, "SESSION", "z"));
    assert_eq!(tab.len(), 3);

    tab.update_settings(RawEventsSwitch::Disabled);
    tab.push_event(event("t", EventKind::Other, "SESSION", "w"));
    assert_eq!(tab.len(), 3);
    tab.push_event(log(LogSeverity::Info, "still shown"));
    assert_eq!(tab.len(), 4);
}

#[test]
fn log_keeps_only_the_newest_entries() {
    let mut tab = LogsTab::new();
    for i in 0..(LOG_LIMIT + 5) {
        tab.push_event(log(LogSeverity::Info, &format!("{i}")));
    }
    assert_eq!(tab.len(), LOG_LIMIT);
    assert_eq!(tab.entry(0).message, "5");
    assert_eq!(tab.entry(LOG_LIMIT - 1).message, format!("{}", LOG_LIMIT + 4));
}

#[test]
fn search_and_severity_filter() {
    let mut tab = LogsTab::new();
    tab.push_event(log(LogSeverity::Error, "Encoder FAILED"));
    tab.push_event(log(LogSeverity::Info, "Encoder started"));
    tab.push_event(log(LogSeverity::Info, "Client connected"));
    assert_eq!(tab.match_count(), 3);

    tab.set_search_query("  ENCODER ".to_string());
    assert_eq!(tab.normalized_query(), "encoder");
    assert_eq!(tab.matching_entries(), vec![0, 1]);

    tab.set_severity_filter(Some(LogSeverity::Info));
    assert_eq!(tab.matching_entries(), vec![1]);
    assert_eq!(tab.severity_filter(), Some(LogSeverity::Info));

    tab.clear_search();
    assert_eq!(tab.search_query(), "");
    assert_eq!(tab.matching_entries(), vec![1, 2]);

    tab.set_severity_filter(Some(LogSeverity::Debug));
    assert_eq!(tab.match_count(), 0);

    tab.set_severity_filter(None);
    assert_eq!(tab.entries_matching("ENCODER"), Vec::<usize>::new());
    assert_eq!(tab.entries_matching("encoder f"), vec![0]);
    assert_eq!(tab.entries_matching(""), vec![0, 1, 2]);
    tab.set_search_query("nothing like this".to_string());
    assert_eq!(tab.match_count(), 0);
}

#[test]
fn copy_all_and_clear() {
    let mut tab = LogsTab::new();
    assert_eq!(tab.copy_all_text(), "");
    tab.push_event(event("1", EventKind::Log(LogSeverity::Info), "LOG", "a"));
    tab.push_event(event("2", EventKind::Other, "SESSION", "b c"));
    assert_eq!(tab.copy_all_text(), "1 [LOG] a\n2 [SESSION] b c\n");
    tab.clear();
    assert_eq!(tab.len(), 0);
    assert_eq!(tab.copy_all_text(), "");
}

#[test]
fn filter_labels() {
    assert_eq!(severity_filter_label(None), "All levels");
    assert_eq!(severity_filter_label(Some(LogSeverity::Error)), "Error");
    assert_eq!(severity_filter_label(Some(LogSeverity::Warning)), "Warning");
    assert_eq!(severity_filter_label(Some(LogSeverity::Info)), "Info");
    assert_eq!(severity_filter_label(Some(LogSeverity::Debug)), "Debug");
}
