use alarm_clock::alarm::{
    bell_due, build_alarm_request, on_countdown_event, second_to_draw, AlarmRequestError,
    APP_NAME,
};
use alarm_clock::audio::{resolve_system_sound, ResolvedSound, SoundIndex};
use alarm_clock::clock::{Moment, Span};
use alarm_clock::config::{Config, SoundSetting};
use alarm_clock::display::DisplayEvent;
use alarm_clock::timer::Countdown;

#[test]
fn package_name_is_stable() {
    assert_eq!(APP_NAME, "clck");
}

#[test]
fn scheduled_request_keeps_target_metadata() {
    let config = Config::default();
    let sound = resolve_system_sound(&SoundIndex::new(), "Glass");
    let request = build_alarm_request(
        Span::from_secs(60),
        config,
        Some("2026-06-11 09:00:00 -04:00 (America/New_York)".into()),
        Some("Resuming".into()),
        sound,
    )
    .unwrap();
    assert_eq!(
        request.target.as_deref(),
        Some("2026-06-11 09:00:00 -04:00 (America/New_York)")
    );
    assert_eq!(request.title.as_deref(), Some("Resuming"));
}

#[test]
fn zero_duration_is_refused() {
    let error = build_alarm_request(
        Span::zero(),
        Config::default(),
        None,
        None,
        ResolvedSound::TerminalBell,
    )
    .unwrap_err();
    assert_eq!(error, AlarmRequestError::ZeroDuration);
    assert_eq!(error.message(), "duration must be greater than zero");
}

fn request_for(sound: SoundSetting) -> alarm_clock::alarm::AlarmRequest {
    let config = Config { font: "banner".into(), notification: false, sound };
    build_alarm_request(Span::from_secs(5), config, None, None, ResolvedSound::TerminalBell)
        .unwrap()
}

#[test]
fn sound_names_follow_the_setting() {
    let request = request_for(SoundSetting::System("Glass".into()));
    assert_eq!(request.sound_name, "Glass");
    assert_eq!(request.font, "banner");
    assert!(!request.notification);
    assert_eq!(request.duration, Span::from_secs(5));
    assert_eq!(request_for(SoundSetting::File("/music/wake up.mp3".into())).sound_name, "wake up.mp3");
    assert_eq!(request_for(SoundSetting::File("/".into())).sound_name, "custom sound");
    assert_eq!(request_for(SoundSetting::File("music/..".into())).sound_name, "custom sound");
    assert_eq!(request_for(SoundSetting::TerminalBell).sound_name, "terminal bell");
}

#[test]
fn redraws_only_when_the_shown_second_changes() {
    assert_eq!(second_to_draw(None, &Span::from_secs(30)), Some(30));
    assert_eq!(second_to_draw(Some(30), &Span::from_secs(30)), None);
    assert_eq!(second_to_draw(Some(30), &Span::from_parts(29, 5)), None);
    assert_eq!(second_to_draw(Some(30), &Span::from_secs(29)), Some(29));
}

#[test]
fn countdown_events_cancel_pause_and_redraw() {
    let start = Moment::from_nanos(0);
    let mut timer = Countdown::new(start, Span::from_secs(60));
    let mut shown = Some(60);
    let ten = start.plus(&Span::from_secs(10));
    assert!(on_countdown_event(&mut timer, &mut shown, DisplayEvent::TogglePause, ten));
    assert!(timer.is_paused());
    assert_eq!(shown, None);
    assert_eq!(timer.remaining(start.plus(&Span::from_secs(40))), Span::from_secs(50));
    shown = Some(50);
    let forty = start.plus(&Span::from_secs(40));
    assert!(on_countdown_event(&mut timer, &mut shown, DisplayEvent::TogglePause, forty));
    assert!(!timer.is_paused());
    assert_eq!(timer.remaining(start.plus(&Span::from_secs(45))), Span::from_secs(45));
    shown = Some(45);
    assert!(on_countdown_event(&mut timer, &mut shown, DisplayEvent::Idle, forty));
    assert_eq!(shown, Some(45));
    assert!(on_countdown_event(&mut timer, &mut shown, DisplayEvent::Resize, forty));
    assert_eq!(shown, None);
    assert!(!on_countdown_event(&mut timer, &mut shown, DisplayEvent::Cancel, forty));
}

#[test]
fn bell_rings_once_a_second() {
    let last = Moment::from_nanos(5_000_000_000);
    assert!(!bell_due(last, Moment::from_nanos(5_999_999_999)));
    assert!(bell_due(last, Moment::from_nanos(6_000_000_000)));
    assert!(!bell_due(last, Moment::from_nanos(1)));
}
