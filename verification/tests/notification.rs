use alarm_clock::notification::{apple_script, notification_body};

#[test]
fn notification_body_includes_optional_target_and_title() {
    assert_eq!(
        notification_body(Some("2026-06-11 09:00 EDT"), Some("Lunch")),
        "Time is up for Lunch."
    );
    assert_eq!(
        notification_body(Some("2026-06-11 09:00 EDT"), None),
        "Time is up for 2026-06-11 09:00 EDT."
    );
    assert_eq!(notification_body(None, Some("Lunch")), "Time is up for Lunch.");
    assert_eq!(notification_body(None, None), "Time is up!");
}

#[test]
fn apple_script_escapes_quotes_and_backslashes() {
    assert_eq!(
        apple_script("Time is up for \"a\\b\"."),
        "display notification \"Time is up for \\\"a\\\\b\\\".\" with title \"Alarm clock\""
    );
}
