use rust_course::logs::{LogAnalyzer, LogEntry, LogLevel};

fn create_test_logs() -> Vec<String> {
    vec![
        "1000|INFO|Server started".to_string(),
        "1001|DEBUG|Connection received".to_string(),
        "1002|ERROR|Failed to connect to database".to_string(),
        "invalid line".to_string(),
        "1003|WARNING|High memory usage".to_string(),
        "1004|INFO|Request processed".to_string(),
        "1005|ERROR|Timeout error".to_string(),
    ]
}

#[test]
fn test_log_entry_parse_valid() {
    let valid_line = "1000|INFO|Server started";
    let entry = LogEntry::parse(valid_line).unwrap();

    assert_eq!(entry.timestamp, 1000);
    assert_eq!(entry.level, LogLevel::Info);
    assert_eq!(entry.message, "Server started");
}

#[test]
fn test_log_entry_parse_invalid() {
    let invalid_lines = vec![
        "invalid line",
        "1000|INVALID_LEVEL|Message",
        "not_a_timestamp|INFO|Message",
        "1000|INFO", // Missing message
    ];

    for line in invalid_lines {
        assert!(LogEntry::parse(line).is_none());
    }
}

#[test]
fn test_log_entry_parse_all_levels() {
    let test_cases = vec![
        ("1000|DEBUG|Debug message", LogLevel::Debug),
        ("1001|INFO|Info message", LogLevel::Info),
        ("1002|WARNING|Warning message", LogLevel::Warning),
        ("1003|ERROR|Error message", LogLevel::Error),
    ];

    for (line, expected_level) in test_cases {
        let entry = LogEntry::parse(line).unwrap();
        assert_eq!(entry.level, expected_level);
    }
}

#[test]
fn test_log_analyzer_parse_entries() {
    let logs = create_test_logs();
    let analyzer = LogAnalyzer::new(&logs);

    let entries: Vec<_> = analyzer.parse_entries();
    assert_eq!(entries.len(), 6); // 7 lines, 1 invalid

    assert_eq!(entries[0].timestamp, 1000);
    assert_eq!(entries[0].level, LogLevel::Info);
    assert_eq!(entries[1].level, LogLevel::Debug);
}

#[test]
fn test_log_analyzer_total_entries() {
    let logs = create_test_logs();
    let analyzer = LogAnalyzer::new(&logs);

    assert_eq!(analyzer.total_entries(), 6);
}

#[test]
fn test_log_analyzer_errors_only() {
    let logs = create_test_logs();
    let analyzer = LogAnalyzer::new(&logs);

    let errors: Vec<_> = analyzer.errors_only();
    assert_eq!(errors.len(), 2);

    assert_eq!(errors[0].timestamp, 1002);
    assert_eq!(errors[0].message, "Failed to connect to database");
    assert_eq!(errors[1].timestamp, 1005);
    assert_eq!(errors[1].message, "Timeout error");
}

#[test]
fn test_log_analyzer_time_range() {
    let logs = create_test_logs();
    let analyzer = LogAnalyzer::new(&logs);

    let range_entries: Vec<_> = analyzer.in_time_range(1002, 1004);
    assert_eq!(range_entries.len(), 3);

    assert_eq!(range_entries[0].timestamp, 1002);
    assert_eq!(range_entries[1].timestamp, 1003);
    assert_eq!(range_entries[2].timestamp, 1004);
}

#[test]
fn test_log_analyzer_count_by_level() {
    let logs = create_test_logs();
    let analyzer = LogAnalyzer::new(&logs);

    let counts = analyzer.count_by_level();

    assert_eq!(counts.get(&LogLevel::Info), Some(&2));
    assert_eq!(counts.get(&LogLevel::Debug), Some(&1));
    assert_eq!(counts.get(&LogLevel::Warning), Some(&1));
    assert_eq!(counts.get(&LogLevel::Error), Some(&2));
}

#[test]
fn test_log_analyzer_most_recent() {
    let logs = create_test_logs();
    let analyzer = LogAnalyzer::new(&logs);

    let recent = analyzer.most_recent(3);
    assert_eq!(recent.len(), 3);

    // Should be in reverse chronological order (most recent first)
    assert_eq!(recent[0].timestamp, 1005);
    assert_eq!(recent[1].timestamp, 1004);
    assert_eq!(recent[2].timestamp, 1003);
}

#[test]
fn test_log_analyzer_most_recent_more_than_available() {
    let logs = create_test_logs();
    let analyzer = LogAnalyzer::new(&logs);

    let recent = analyzer.most_recent(10);
    assert_eq!(recent.len(), 6); // Should return all available entries
}

#[test]
fn test_log_analyzer_filter_by_level() {
    let logs = create_test_logs();
    let analyzer = LogAnalyzer::new(&logs);

    let info_entries: Vec<_> = analyzer.filter_by_level(LogLevel::Info);
    assert_eq!(info_entries.len(), 2);

    let warning_entries: Vec<_> = analyzer.filter_by_level(LogLevel::Warning);
    assert_eq!(warning_entries.len(), 1);
    assert_eq!(warning_entries[0].message, "High memory usage");
}

#[test]
fn test_log_analyzer_messages_containing() {
    let logs = create_test_logs();
    let analyzer = LogAnalyzer::new(&logs);

    let connection_entries: Vec<_> = analyzer.messages_containing("connect");
    assert_eq!(connection_entries.len(), 1); // "Failed to connect to database" (case sensitive)

    let server_entries: Vec<_> = analyzer.messages_containing("Server");
    assert_eq!(server_entries.len(), 1);
    assert_eq!(server_entries[0].message, "Server started");

    let nonexistent_entries: Vec<_> = analyzer.messages_containing("nonexistent");
    assert_eq!(nonexistent_entries.len(), 0);
}

#[test]
fn test_log_analyzer_empty_logs() {
    let logs = vec![];
    let analyzer = LogAnalyzer::new(&logs);

    assert_eq!(analyzer.total_entries(), 0);
    assert_eq!(analyzer.errors_only().len(), 0);
    assert_eq!(analyzer.most_recent(5).len(), 0);
    assert!(analyzer.count_by_level().is_empty());
}

#[test]
fn test_log_analyzer_all_invalid_logs() {
    let logs = vec![
        "invalid line 1".to_string(),
        "invalid line 2".to_string(),
        "also invalid".to_string(),
    ];
    let analyzer = LogAnalyzer::new(&logs);

    assert_eq!(analyzer.total_entries(), 0);
    assert_eq!(analyzer.errors_only().len(), 0);
    assert_eq!(analyzer.most_recent(5).len(), 0);
    assert!(analyzer.count_by_level().is_empty());
}

#[test]
fn test_log_analyzer_chaining_operations() {
    let logs = create_test_logs();
    let analyzer = LogAnalyzer::new(&logs);

    // Chain multiple operations: get errors in a time range
    let errors_in_range: Vec<_> = analyzer
        .in_time_range(1000, 1003)
        .into_iter()
        .filter(|entry| entry.level == LogLevel::Error)
        .collect();

    assert_eq!(errors_in_range.len(), 1);
    assert_eq!(errors_in_range[0].timestamp, 1002);
    assert_eq!(errors_in_range[0].message, "Failed to connect to database");
}

#[test]
fn test_iterator_lazy_evaluation() {
    let logs = create_test_logs();
    let analyzer = LogAnalyzer::new(&logs);

    // Creating iterators should not consume the data
    let _errors_iter = analyzer.errors_only();
    let _time_range_iter = analyzer.in_time_range(1000, 1005);

    // We should still be able to use the analyzer
    assert_eq!(analyzer.total_entries(), 6);
}

#[test]
fn test_log_level_equality() {
    assert_eq!(LogLevel::Info, LogLevel::Info);
    assert_ne!(LogLevel::Info, LogLevel::Error);
    assert_ne!(LogLevel::Debug, LogLevel::Warning);
}

#[test]
fn test_log_entry_equality() {
    let entry1 = LogEntry::new(1000, LogLevel::Info, "Test message".to_string());
    let entry2 = LogEntry::new(1000, LogLevel::Info, "Test message".to_string());
    let entry3 = LogEntry::new(1001, LogLevel::Info, "Test message".to_string());

    assert_eq!(entry1, entry2);
    assert_ne!(entry1, entry3);
}

#[test]
fn parse_accepts_plus_sign_and_rejects_overflow() {
    assert_eq!(LogEntry::parse("+7|INFO|x").unwrap().timestamp, 7);
    assert_eq!(
        LogEntry::parse("18446744073709551615|ERROR|max").unwrap().timestamp,
        u64::MAX
    );
    assert!(LogEntry::parse("18446744073709551616|ERROR|too big").is_none());
    assert!(LogEntry::parse("-1|INFO|negative").is_none());
    assert!(LogEntry::parse("|INFO|empty").is_none());
    assert!(LogEntry::parse("1|info|lowercase level").is_none());
    assert!(LogEntry::parse("1|INFO|a|b").is_none());
    assert_eq!(LogEntry::parse("5|WARNING|").unwrap().message, "");
}

#[test]
fn most_recent_keeps_line_order_reversed_on_equal_timestamps() {
    let logs = vec![
        "5|INFO|a".to_string(),
        "3|INFO|b".to_string(),
        "5|ERROR|c".to_string(),
        "1|DEBUG|d".to_string(),
    ];
    let analyzer = LogAnalyzer::new(&logs);
    let recent = analyzer.most_recent(3);
    let messages: Vec<&str> = recent.iter().map(|e| e.message.as_str()).collect();
    assert_eq!(messages, vec!["c", "a", "b"]);
    assert!(analyzer.most_recent(0).is_empty());
}

#[test]
fn counts_cover_each_level_once() {
    let logs = vec!["1|ERROR|x".to_string(), "2|ERROR|y".to_string()];
    let counts = LogAnalyzer::new(&logs).count_by_level();
    assert_eq!(counts.get(&LogLevel::Error), Some(&2));
    assert_eq!(counts.get(&LogLevel::Info), None);
    assert_eq!(counts.len(), 1);
    assert!(!counts.is_empty());
}
