use alvr_dashboard_core::env::{
    entry_action, env_lines, parse_env_line, parse_quoted_value, parse_value, value_terminated,
    EntryAction, EnvLine,
};

fn entry(line: &str) -> (String, String) {
    match parse_env_line(line) {
        EnvLine::Entry { key, raw_value } => (key, raw_value),
        _ => panic!("expected an entry for {line:?}"),
    }
}

#[test]
fn blank_and_comment_lines_are_skipped() {
    assert!(matches!(parse_env_line(""), EnvLine::Skip));
    assert!(matches!(parse_env_line("   \t "), EnvLine::Skip));
    assert!(matches!(parse_env_line("# ANDROID_HOME=/opt"), EnvLine::Skip));
    assert!(matches!(parse_env_line("   # indented comment"), EnvLine::Skip));
}

#[test]
fn plain_entry_is_trimmed() {
    assert_eq!(
        entry("  ANDROID_HOME = /opt/android  "),
        ("ANDROID_HOME".to_string(), "/opt/android".to_string())
    );
}

#[test]
fn export_prefix_is_dropped() {
    assert_eq!(
        entry("export ANDROID_NDK_HOME=/opt/ndk"),
        ("ANDROID_NDK_HOME".to_string(), "/opt/ndk".to_string())
    );
    // Without the space it is part of the key.
    assert_eq!(entry("exportX=1"), ("exportX".to_string(), "1".to_string()));
}

#[test]
fn value_may_hold_equals_signs() {
    assert_eq!(entry("A=b=c"), ("A".to_string(), "b=c".to_string()));
    assert_eq!(entry("A="), ("A".to_string(), "".to_string()));
}

#[test]
fn malformed_lines_are_reported() {
    assert!(matches!(parse_env_line("JUST_A_KEY"), EnvLine::MissingSeparator));
    assert!(matches!(parse_env_line("  = value"), EnvLine::EmptyKey));
    assert!(matches!(parse_env_line("export =x"), EnvLine::EmptyKey));
}

#[test]
fn unquoted_values_are_kept() {
    assert_eq!(parse_value(""), "");
    assert_eq!(parse_value("/opt/android sdk"), "/opt/android sdk");
    assert_eq!(parse_value("a\\nb"), "a\\nb");
}

#[test]
fn double_quoted_values_decode_escapes() {
    assert_eq!(parse_value("\"plain\""), "plain");
    assert_eq!(parse_value("\"\""), "");
    assert_eq!(parse_value("\"a\\nb\\tc\\rd\""), "a\nb\tc\rd");
    assert_eq!(parse_value("\"say \\\"hi\\\"\""), "say \"hi\"");
    // `\"` is decoded first, so its quote cannot start another escape.
    assert_eq!(parse_value("\"\\\\\"n\""), "\\\"n");
    assert_eq!(parse_quoted_value("\"x\\ty\"", '"'), "x\ty");
}

#[test]
fn single_quoted_values_are_taken_as_they_are() {
    assert_eq!(parse_value("'a\\nb'"), "a\\nb");
    assert_eq!(parse_quoted_value("'it'", '\''), "it");
    assert_eq!(parse_value("''"), "");
}

#[test]
fn unterminated_quotes_are_detected() {
    assert!(!value_terminated("\"open"));
    assert!(!value_terminated("'open"));
    assert!(!value_terminated("\""));
    assert!(!value_terminated("\"mixed'"));
    assert!(value_terminated("\"closed\""));
    assert!(value_terminated("plain\""));
    assert!(value_terminated(""));
}

#[test]
fn lines_split_like_str_lines() {
    assert_eq!(env_lines("a\r\nb\n\nc\r"), vec!["a", "b", "", "c\r"]);
    assert_eq!(env_lines("one\n"), vec!["one"]);
    assert!(env_lines("").is_empty());
    assert_eq!(env_lines("\n"), vec![""]);
}

#[test]
fn entry_actions_follow_the_loader() {
    assert!(matches!(entry_action("A".to_string(), "\"x", true), EntryAction::Keep));
    assert!(matches!(
        entry_action("A".to_string(), "\"x", false),
        EntryAction::UnterminatedQuote
    ));
    match entry_action("A".to_string(), "\"x\\ty\"", false) {
        EntryAction::Assign { key, value } => {
            assert_eq!(key, "A");
            assert_eq!(value, "x\ty");
        }
        _ => panic!("expected an assignment"),
    }
}
