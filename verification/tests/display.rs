use alarm_clock::clock::Span;
use alarm_clock::display::{
    countdown_screen, countdown_status, event_from_input, event_from_key, format_duration,
    ringing_status, seconds_round_up_in_range, DisplayEvent, Key, KeyCode, TerminalInput,
};

#[test]
fn maps_countdown_cancel_keys() {
    assert_eq!(
        event_from_key(Key::new(KeyCode::Char('q'), false), false),
        DisplayEvent::Cancel
    );
    assert_eq!(event_from_key(Key::new(KeyCode::Esc, false), false), DisplayEvent::Cancel);
    assert_eq!(
        event_from_key(Key::new(KeyCode::Char('x'), false), true),
        DisplayEvent::Dismiss
    );
    assert_eq!(
        event_from_key(Key::new(KeyCode::Char(' '), false), false),
        DisplayEvent::TogglePause
    );
}

#[test]
fn control_c_cancels_and_other_keys_do_nothing() {
    assert_eq!(event_from_key(Key::new(KeyCode::Char('c'), true), false), DisplayEvent::Cancel);
    assert_eq!(event_from_key(Key::new(KeyCode::Char('c'), false), false), DisplayEvent::Idle);
    assert_eq!(event_from_key(Key::new(KeyCode::Other, false), false), DisplayEvent::Idle);
    assert_eq!(event_from_key(Key::new(KeyCode::Esc, false), true), DisplayEvent::Dismiss);
    assert_eq!(event_from_input(TerminalInput::Resize, false), DisplayEvent::Resize);
    assert_eq!(event_from_input(TerminalInput::Other, true), DisplayEvent::Idle);
}

#[test]
fn countdown_status_includes_optional_target_and_title() {
    assert_eq!(
        countdown_status("Glass", Some("2026-06-11 09:00 EDT"), Some("Lunch"), false),
        "Title: Lunch | Target: 2026-06-11 09:00 EDT | Sound: Glass | Space to pause | q/Esc/Ctrl+C to cancel"
    );
    assert_eq!(
        countdown_status("Glass", Some("2026-06-11 09:00 EDT"), None, false),
        "Target: 2026-06-11 09:00 EDT | Sound: Glass | Space to pause | q/Esc/Ctrl+C to cancel"
    );
    assert_eq!(
        countdown_status("Glass", None, Some("Lunch"), false),
        "Title: Lunch | Sound: Glass | Space to pause | q/Esc/Ctrl+C to cancel"
    );
    assert_eq!(
        countdown_status("Glass", None, None, false),
        "Sound: Glass | Space to pause | q/Esc/Ctrl+C to cancel"
    );
    assert_eq!(
        countdown_status("Glass", None, None, true),
        "Sound: Glass | PAUSED | Space to resume | q/Esc/Ctrl+C to cancel"
    );
}

#[test]
fn formats_minutes_and_hours_rounding_up() {
    assert_eq!(format_duration(Span::from_secs(90)), "01:30");
    assert_eq!(format_duration(Span::from_secs(5_400)), "01:30:00");
    assert_eq!(format_duration(Span::from_parts(59, 1)), "01:00");
    assert_eq!(format_duration(Span::zero()), "00:00");
    assert_eq!(format_duration(Span::from_secs(360_000)), "100:00:00");
}

#[test]
fn ringing_status_names_title_and_target() {
    assert_eq!(
        ringing_status(Some("09:00"), Some("Lunch")),
        "Title: Lunch | Target: 09:00 | Press any key to dismiss"
    );
    assert_eq!(ringing_status(None, Some("Lunch")), "Title: Lunch | Press any key to dismiss");
    assert_eq!(ringing_status(Some("09:00"), None), "Target: 09:00 | Press any key to dismiss");
    assert_eq!(ringing_status(None, None), "Press any key to dismiss");
}

#[test]
fn countdown_screen_drops_status_parts_that_do_not_fit() {
    let (lines, status) =
        countdown_screen(Span::from_secs(90), "standard", "Glass", Some("09:00"), Some("Lunch"), false, 60, 10);
    assert!(!lines.is_empty());
    assert_eq!(
        status.as_deref(),
        Some("Sound: Glass | Space to pause | q/Esc/Ctrl+C to cancel")
    );
    let (lines, status) =
        countdown_screen(Span::from_secs(90), "standard", "Glass", None, None, false, 4, 1);
    assert_eq!(lines, vec!["01:30".to_string()]);
    assert_eq!(status, None);
}

#[test]
fn only_spans_past_the_last_whole_second_do_not_round_up() {
    assert!(seconds_round_up_in_range(&Span::from_secs(u64::MAX)));
    assert!(seconds_round_up_in_range(&Span::from_parts(5, 1)));
    assert!(!seconds_round_up_in_range(&Span::from_parts(u64::MAX, 1)));
}
