use alarm_clock::clock::{Moment, Span};
use alarm_clock::timer::Countdown;

fn start() -> Moment {
    Moment::from_nanos(1_000_000_000)
}

#[test]
fn remaining_time_never_underflows() {
    let start = start();
    let timer = Countdown::new(start, Span::from_secs(90));
    assert_eq!(timer.remaining(start.plus(&Span::from_secs(30))), Span::from_secs(60));
    assert_eq!(timer.remaining(start.plus(&Span::from_secs(100))), Span::zero());
}

#[test]
fn pause_freezes_remaining_time() {
    let start = start();
    let mut timer = Countdown::new(start, Span::from_secs(60));
    let paused_at = start.plus(&Span::from_secs(10));
    timer.pause(paused_at);
    assert!(timer.is_paused());
    assert_eq!(timer.remaining(paused_at.plus(&Span::from_secs(20))), Span::from_secs(50));
}

#[test]
fn resume_continues_from_paused_remaining() {
    let start = start();
    let mut timer = Countdown::new(start, Span::from_secs(60));
    timer.pause(start.plus(&Span::from_secs(10)));
    let resumed_at = start.plus(&Span::from_secs(30));
    timer.resume(resumed_at);
    assert!(!timer.is_paused());
    assert_eq!(timer.remaining(resumed_at.plus(&Span::from_secs(5))), Span::from_secs(45));
}
