use alarm_clock::calendar::{LocalDateTime, ZonedTime};
use alarm_clock::clock::Span;
use alarm_clock::cli::{
    direct_schedule_step, text_schedule_step, DirectAction, DirectEvent, TextAction,
};
use alarm_clock::extract::{candidates_from_spans, extract_candidates_in};
use alarm_clock::schedule::{
    duration_until, normalize_expression, parse_direct_in, parse_month, parse_time, Candidate,
    ScheduleError,
};
use alarm_clock::zone::Zone;

fn local(year: i32, month: u32, day: u32, hour: u32, minute: u32) -> LocalDateTime {
    LocalDateTime { year, month, day, hour, minute, second: 0, nanosecond: 0 }
}

fn fixed(hour: u32, minute: u32) -> ZonedTime {
    ZonedTime::new(local(2026, 6, 10, hour, minute), 7_200).unwrap()
}

fn new_york() -> Zone {
    Zone::named("America/New_York").unwrap()
}

/// A wall-clock time in New York, resolved through the zone database.
fn in_new_york(year: i32, month: u32, day: u32, hour: u32, minute: u32) -> ZonedTime {
    let t = local(year, month, day, hour, minute);
    match new_york().local_offset(&t) {
        alarm_clock::zone::LocalOffset::Single(offset) => ZonedTime::new(t, offset).unwrap(),
        other => panic!("unexpected {other:?}"),
    }
}

fn context_now() -> ZonedTime {
    in_new_york(2026, 6, 10, 8, 0)
}

#[test]
fn converts_future_target_to_countdown_duration() {
    assert_eq!(duration_until(&fixed(12, 0), &fixed(12, 1)).unwrap(), Span::from_secs(60));
}

#[test]
fn rejects_past_and_equal_targets() {
    match duration_until(&fixed(12, 0), &fixed(11, 59)).unwrap_err() {
        ScheduleError::PastTarget(t) => assert!(t.same_instant(&fixed(11, 59))),
        other => panic!("unexpected {other:?}"),
    }
    assert!(duration_until(&fixed(12, 0), &fixed(12, 0)).is_err());
}

#[test]
fn candidate_formats_resolved_target_with_zone() {
    let candidate = Candidate::new("tomorrow at 9am", fixed(9, 0), "Europe/Warsaw");
    assert_eq!(candidate.display_target(), "2026-06-10 09:00:00 +02:00 (Europe/Warsaw)");
}

#[test]
fn parses_supported_direct_expressions() {
    for (input, expected_day, expected_hour, expected_minute) in [
        ("2:50pm", 10, 14, 50),
        ("3 p.m.", 10, 15, 0),
        ("14:30", 10, 14, 30),
        ("today at 9 AM", 10, 9, 0),
        ("tomorrow at 9am", 11, 9, 0),
        ("June 12 at 09:00", 12, 9, 0),
    ] {
        let candidate = parse_direct_in(input, &context_now(), &new_york()).unwrap();
        assert_eq!(candidate.target.day(), expected_day);
        assert_eq!(candidate.target.hour(), expected_hour);
        assert_eq!(candidate.target.minute(), expected_minute);
        assert_eq!(candidate.target.second(), 0);
    }
}

#[test]
fn rejects_past_explicit_and_time_only_values() {
    assert!(matches!(
        parse_direct_in("7am", &context_now(), &new_york()),
        Err(ScheduleError::PastTarget(_))
    ));
    assert!(matches!(
        parse_direct_in("June 9 at 09:00", &context_now(), &new_york()),
        Err(ScheduleError::PastTarget(_))
    ));
}

#[test]
fn rejects_nonexistent_and_ambiguous_dst_values() {
    let spring = in_new_york(2026, 3, 7, 12, 0);
    assert!(matches!(
        parse_direct_in("March 8 at 02:30", &spring, &new_york()),
        Err(ScheduleError::NonexistentLocalTime)
    ));
    let fall = in_new_york(2026, 10, 31, 12, 0);
    assert!(matches!(
        parse_direct_in("November 1 at 01:30", &fall, &new_york()),
        Err(ScheduleError::AmbiguousLocalTime)
    ));
}

#[test]
fn extracts_one_and_multiple_explicit_candidates() {
    let one = extract_candidates_in("Please call me tomorrow at 9am.", &context_now(), &new_york());
    assert_eq!(one.len(), 1);
    assert_eq!(one[0].source, "tomorrow at 9am");

    let dotted = extract_candidates_in("Please call me at 3 p.m.", &context_now(), &new_york());
    assert_eq!(dotted.len(), 1);
    assert_eq!(dotted[0].source, "3 p.m.");

    let many = extract_candidates_in(
        "Try tomorrow at 9am or June 12 at 14:30.",
        &context_now(),
        &new_york(),
    );
    assert_eq!(many.len(), 2);
}

#[test]
fn ignores_vague_phrases_and_deduplicates_resolved_targets() {
    assert!(extract_candidates_in(
        "Let's talk later in the afternoon after lunch.",
        &context_now(),
        &new_york(),
    )
    .is_empty());
    let candidates = extract_candidates_in(
        "Use tomorrow at 9am, or June 11 at 09:00.",
        &context_now(),
        &new_york(),
    );
    assert_eq!(candidates.len(), 1);
    assert_eq!(candidates[0].source, "tomorrow at 9am");
}

#[test]
fn candidates_are_listed_with_their_targets() {
    let target = fixed(9, 0);
    let candidate = Candidate::new("tomorrow at 9am", target, "Europe/Warsaw");
    assert_eq!(
        alarm_clock::cli::candidate_summary(&candidate),
        "tomorrow at 9am -> 2026-06-10 09:00:00 +02:00 (Europe/Warsaw)"
    );
    assert_eq!(
        alarm_clock::cli::choice_line(12, &candidate),
        "12. tomorrow at 9am -> 2026-06-10 09:00:00 +02:00 (Europe/Warsaw)"
    );
}

#[test]
fn expressions_are_normalized_before_reading() {
    assert_eq!(normalize_expression("  Tomorrow  AT 9 A.M. "), "tomorrow at 9 am");
    assert_eq!(normalize_expression("3 p.m"), "3 pm");
    assert_eq!(normalize_expression("June\t12\nat 09:00"), "june 12 at 09:00");
}

#[test]
fn months_and_times_are_read() {
    assert_eq!(parse_month("june"), Some(6));
    assert_eq!(parse_month("december"), Some(12));
    assert_eq!(parse_month("June"), None);
    assert_eq!(parse_month("jun"), None);
    assert_eq!(parse_time("2:50pm"), Some((14, 50)));
    assert_eq!(parse_time("12am"), Some((0, 0)));
    assert_eq!(parse_time("12pm"), Some((12, 0)));
    assert_eq!(parse_time("9 :30 am"), Some((9, 30)));
    assert_eq!(parse_time("23:59"), Some((23, 59)));
    assert_eq!(parse_time("13pm"), None);
    assert_eq!(parse_time("9"), None);
    assert_eq!(parse_time("24:00"), None);
    assert_eq!(parse_time("9:60"), None);
    assert_eq!(parse_time("1:2:3"), None);
}

#[test]
fn direct_scheduling_confirms_before_starting() {
    let candidate = || Candidate::new("tomorrow at 9am", fixed(9, 0), "Europe/Warsaw");
    let (error_seen, action) =
        direct_schedule_step(false, DirectEvent::Parsed(Err(ScheduleError::InvalidExpression)));
    assert!(error_seen);
    assert!(matches!(action, DirectAction::Reprompt(ScheduleError::InvalidExpression)));
    let (error_seen, action) = direct_schedule_step(true, DirectEvent::Parsed(Ok(candidate())));
    assert!(error_seen);
    assert!(matches!(action, DirectAction::AskConfirmation(c) if c.source == "tomorrow at 9am"));
    let (_, action) = direct_schedule_step(false, DirectEvent::Parsed(Ok(candidate())));
    assert!(matches!(action, DirectAction::AskConfirmation(_)));
    let (_, action) = direct_schedule_step(false, DirectEvent::Confirmed(candidate(), Some(true)));
    assert!(matches!(action, DirectAction::Start(c) if c.source == "tomorrow at 9am"));
    let (_, action) = direct_schedule_step(false, DirectEvent::Confirmed(candidate(), Some(false)));
    assert!(matches!(action, DirectAction::Stop));
    let (_, action) = direct_schedule_step(false, DirectEvent::Confirmed(candidate(), None));
    assert!(matches!(action, DirectAction::AskConfirmation(_)));
    match direct_schedule_step(false, DirectEvent::NoTerminal(Ok(candidate()))).1 {
        DirectAction::Refuse(message) => assert_eq!(
            message,
            "confirmation is required before starting an alarm; detected candidate: tomorrow at 9am -> 2026-06-10 09:00:00 +02:00 (Europe/Warsaw)"
        ),
        other => panic!("unexpected {other:?}"),
    }
    let (_, action) = direct_schedule_step(
        false,
        DirectEvent::NoTerminal(Err(ScheduleError::AmbiguousLocalTime)),
    );
    assert!(matches!(action, DirectAction::Fail(ScheduleError::AmbiguousLocalTime)));
}

#[test]
fn text_scheduling_hints_refuses_or_selects() {
    let none: Vec<Candidate> = Vec::new();
    match text_schedule_step(true, true, &none) {
        TextAction::Reprompt(hint) => assert_eq!(
            hint,
            "No explicit date and time found; try `2:50pm`, `tomorrow at 9am`, or `June 12 at 09:00`."
        ),
        other => panic!("unexpected {other:?}"),
    }
    match text_schedule_step(false, true, &none) {
        TextAction::Refuse(message) => assert_eq!(
            message,
            "no explicit date and time found; try `2:50pm`, `tomorrow at 9am`, or `June 12 at 09:00`"
        ),
        other => panic!("unexpected {other:?}"),
    }
    let two = vec![
        Candidate::new("9am", fixed(9, 0), "Europe/Warsaw"),
        Candidate::new("14:30", fixed(14, 30), "Europe/Warsaw"),
    ];
    match text_schedule_step(false, false, &two) {
        TextAction::Refuse(message) => assert_eq!(
            message,
            "confirmation is required before starting an alarm; rerun interactively\n9am -> 2026-06-10 09:00:00 +02:00 (Europe/Warsaw)\n14:30 -> 2026-06-10 14:30:00 +02:00 (Europe/Warsaw)"
        ),
        other => panic!("unexpected {other:?}"),
    }
    assert!(matches!(text_schedule_step(false, true, &two), TextAction::Select(2)));
    assert!(matches!(text_schedule_step(true, false, &two), TextAction::Select(2)));
}

#[test]
fn candidates_come_from_the_spans_given() {
    let text = "Meet tomorrow at 9am or at 7am, café at 3 p.m.";
    let start = text.find("tomorrow").unwrap();
    let seven = text.find("7am").unwrap();
    let three = text.find("3 p.m").unwrap();
    let spans = vec![
        (start, start + "tomorrow at 9am".len()),
        (start + 12, start + 15),
        (seven, seven + 3),
        (three, three + "3 p.m".len()),
        (0, 1),
    ];
    let found = candidates_from_spans(text, &spans, &context_now(), &new_york());
    let sources: Vec<&str> = found.iter().map(|c| c.source.as_str()).collect();
    assert_eq!(sources, vec!["3 p.m.", "tomorrow at 9am"]);
    assert!(candidates_from_spans(text, &Vec::new(), &context_now(), &new_york()).is_empty());
}

#[test]
fn a_clock_reading_is_seen_in_a_zone() {
    let zone = new_york();
    let t = zone.time_at(1_781_092_800, 5).unwrap();
    assert_eq!(t.timestamp(), 1_781_092_800);
    assert_eq!(t.nanosecond(), 5);
    assert_eq!(t.offset_secs(), -4 * 3600);
    assert_eq!((t.year(), t.month(), t.day(), t.hour()), (2026, 6, 10, 8));
    let before_1970 = zone.time_at(-1, 0).unwrap();
    assert_eq!((before_1970.year(), before_1970.month(), before_1970.day()), (1969, 12, 31));
    let late = zone.time_at(1_781_143_200, 0).unwrap();
    assert_eq!((late.month(), late.day(), late.hour()), (6, 10, 22));
    let winter = zone.time_at(1_767_225_600, 0).unwrap();
    assert_eq!(winter.offset_secs(), -5 * 3600);
    assert!(zone.time_at(i64::MAX, 0).is_none());
    assert!(zone.time_at(i64::MIN, 0).is_none());
}
