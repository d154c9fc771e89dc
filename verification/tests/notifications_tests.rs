use gidterm::notifications::{
    escape_applescript, format_duration, is_quiet_hours, truncate, Notification, NotificationConfig,
    NotificationEvent, NotificationManager, NotificationPriority,
};

const NOON: u32 = 12;
const MIDNIGHT: u32 = 0;

#[test]
fn test_escape_applescript() {
    assert_eq!(escape_applescript("hello"), "hello");
    assert_eq!(escape_applescript("hello \"world\""), "hello \\\"world\\\"");
    assert_eq!(escape_applescript("line1\nline2"), "line1\\nline2");
}

#[test]
fn escape_applescript_doubles_backslashes_first() {
    assert_eq!(escape_applescript("a\\b"), "a\\\\b");
    assert_eq!(escape_applescript("\\\"\n"), "\\\\\\\"\\n");
    assert_eq!(escape_applescript(""), "");
}

#[test]
fn test_format_duration() {
    assert_eq!(format_duration(30), "30s");
    assert_eq!(format_duration(90), "1m 30s");
    assert_eq!(format_duration(3665), "1h 1m");
}

#[test]
fn format_duration_edges() {
    assert_eq!(format_duration(0), "0s");
    assert_eq!(format_duration(59), "59s");
    assert_eq!(format_duration(60), "1m 0s");
    assert_eq!(format_duration(3599), "59m 59s");
    assert_eq!(format_duration(3600), "1h 0m");
    assert_eq!(format_duration(u64::MAX), "5124095576030431h 0m");
}

#[test]
fn test_notification_config() {
    let config = NotificationConfig::default();
    assert!(config.should_notify(NotificationEvent::Complete, NOON));
    assert!(config.should_notify(NotificationEvent::Error, NOON));
    assert!(!config.should_notify(NotificationEvent::Started, NOON));
}

#[test]
fn quiet_hours_let_only_urgent_events_through() {
    let config = NotificationConfig::default();
    assert!(!config.should_notify(NotificationEvent::Complete, MIDNIGHT));
    assert!(!config.should_notify(NotificationEvent::Warning, MIDNIGHT));
    assert!(config.should_notify(NotificationEvent::Error, MIDNIGHT));
    assert!(config.should_notify(NotificationEvent::WaitingInput, 23));
    assert!(config.should_notify(NotificationEvent::Warning, 8));
    assert!(!config.should_notify(NotificationEvent::Warning, 7));
    let mut loud = config;
    loud.quiet_hours = false;
    assert!(loud.should_notify(NotificationEvent::Complete, MIDNIGHT));
    let mut off = config;
    off.enabled = false;
    assert!(!off.should_notify(NotificationEvent::Error, NOON));
    assert!(is_quiet_hours(23) && is_quiet_hours(0) && is_quiet_hours(7));
    assert!(!is_quiet_hours(8) && !is_quiet_hours(22));
}

#[test]
fn test_notification_event_emoji() {
    assert_eq!(NotificationEvent::Complete.emoji(), "✅");
    assert_eq!(NotificationEvent::Error.emoji(), "❌");
}

#[test]
fn event_priorities_and_sounds() {
    assert_eq!(NotificationEvent::Complete.default_priority(), NotificationPriority::Normal);
    assert_eq!(NotificationEvent::Error.default_priority(), NotificationPriority::High);
    assert_eq!(NotificationEvent::WaitingInput.default_priority(), NotificationPriority::High);
    assert_eq!(NotificationEvent::Started.default_priority(), NotificationPriority::Low);
    assert_eq!(NotificationEvent::Warning.default_priority(), NotificationPriority::Normal);
    assert_eq!(NotificationPriority::default(), NotificationPriority::Normal);
    assert_eq!(NotificationEvent::Complete.sound(), Some("Glass"));
    assert_eq!(NotificationEvent::Error.sound(), Some("Basso"));
    assert_eq!(NotificationEvent::WaitingInput.sound(), Some("Ping"));
    assert_eq!(NotificationEvent::Started.sound(), None);
    assert_eq!(NotificationEvent::Warning.sound(), Some("Pop"));
}

#[test]
fn truncate_keeps_short_text_and_marks_long_text() {
    assert_eq!(truncate("short", 10), "short");
    assert_eq!(truncate("exactly ten", 11), "exactly ten");
    assert_eq!(truncate("a long error message", 10), "a long ...");
    assert_eq!(truncate("abcdef", 2), "...");
}

#[test]
fn notification_builders() {
    let n = Notification::new("T", "M", NotificationEvent::Warning);
    assert_eq!(n.subtitle, None);
    assert_eq!(n.sound, None);
    let n = n.with_subtitle("proj").with_sound("Hero");
    assert_eq!(n.subtitle.as_deref(), Some("proj"));
    assert_eq!(n.sound.as_deref(), Some("Hero"));
    assert_eq!(n.formatted_title(), "⚠️ T");
}

#[test]
fn send_builds_the_script() {
    let mut manager = NotificationManager::new();
    let n = Notification::new("Task \"x\"", "line1\nline2", NotificationEvent::Error).with_subtitle("proj");
    let script = manager.send(&n, 100, NOON).unwrap();
    assert_eq!(
        script,
        "display notification \"line1\\nline2\" with title \"❌ Task \\\"x\\\"\" subtitle \"proj\" sound name \"Basso\""
    );
}

#[test]
fn send_leaves_out_empty_parts() {
    let mut config = NotificationConfig::default();
    config.sound = false;
    config.on_start = true;
    let mut manager = NotificationManager::with_config(config);
    let n = Notification::new("t", "m", NotificationEvent::Started);
    assert_eq!(
        manager.send(&n, 0, NOON).unwrap(),
        "display notification \"m\" with title \"🚀 t\""
    );
    manager.set_config(NotificationConfig::default());
    assert!(manager.send(&n, 100, NOON).is_none());
}

#[test]
fn send_drops_repeats_within_thirty_seconds() {
    let mut manager = NotificationManager::new();
    let n = Notification::new("t", "m", NotificationEvent::Complete);
    assert!(manager.send(&n, 1000, NOON).is_some());
    assert!(manager.send(&n, 1029, NOON).is_none());
    let other = Notification::new("t", "other", NotificationEvent::Complete);
    assert!(manager.send(&other, 1029, NOON).is_some());
    assert!(manager.send(&n, 1030, NOON).is_some());
    assert!(manager.send(&n, 1031, NOON).is_none());
}

#[test]
fn notify_helpers_word_their_messages() {
    let mut manager = NotificationManager::new();
    let done = manager.notify_complete("proj", "build", Some(90), 0, NOON).unwrap();
    assert_eq!(
        done,
        "display notification \"build (1m 30s)\" with title \"✅ Task Completed\" subtitle \"proj\" sound name \"Glass\""
    );
    let plain = manager.notify_complete("proj", "test", None, 0, NOON).unwrap();
    assert!(plain.starts_with("display notification \"test\" with title"));
    let long = "e".repeat(150);
    let failed = manager.notify_error("proj", "build", &long, 0, NOON).unwrap();
    let shown = format!("build: {}...", "e".repeat(97));
    assert!(failed.contains(&shown));
    assert!(!failed.contains(&"e".repeat(98)));
    let waiting = manager.notify_waiting("proj", "deploy", 0, NOON).unwrap();
    assert!(waiting.contains("\"deploy needs your attention\""));
    assert!(waiting.contains("Waiting for Input"));
    assert!(manager.notify_started("proj", "deploy", 0, NOON).is_none());
    let warned = manager.notify_warning("proj", "disk is full", 0, NOON).unwrap();
    assert!(warned.contains("\"disk is full\"") && warned.contains("Warning") && warned.contains("Pop"));
}
