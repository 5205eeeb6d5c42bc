//! What an alarm is asked to do, and the decisions taken while it runs.
use vstd::prelude::*;
use crate::audio::{file_name, file_name_chars, ResolvedSound, ResolvedView};
use crate::clock::{Moment, Span};
use crate::config::{Config, SoundChoice, SoundSetting};
use crate::display::{ceil_fits, ceil_seconds, ceiling_seconds, DisplayEvent};
use crate::text::{chars_of, string_of};
use crate::timer::{measurable_at, paused, resumed, Countdown};

verus! {

/// The name the program is installed and configured under.
pub const APP_NAME: &'static str = "clck";

/// Everything an alarm needs to run.
#[derive(Clone, Debug)]
pub struct AlarmRequest {
    pub duration: Span,
    pub title: Option<String>,
    pub font: String,
    /// The sound's name as shown on screen.
    pub sound_name: String,
    pub sound: ResolvedSound,
    pub notification: bool,
    /// The wall-clock target, for alarms set for a date and time.
    pub target: Option<String>,
}

/// What an alarm request holds.
pub struct AlarmRequestView {
    pub duration: nat,
    pub title: Option<Seq<char>>,
    pub font: Seq<char>,
    pub sound_name: Seq<char>,
    pub sound: ResolvedView,
    pub notification: bool,
    pub target: Option<Seq<char>>,
}

pub open spec fn text_view(o: Option<String>) -> Option<Seq<char>> {
    match o {
        Some(s) => Some(s@),
        None => None,
    }
}

impl View for AlarmRequest {
    type V = AlarmRequestView;

    open spec fn view(&self) -> AlarmRequestView {
        AlarmRequestView {
            duration: self.duration@,
            title: text_view(self.title),
            font: self.font@,
            sound_name: self.sound_name@,
            sound: self.sound@,
            notification: self.notification,
            target: text_view(self.target),
        }
    }
}

/// Why an alarm was refused.
#[derive(Clone, Copy, Debug, PartialEq, Eq, Structural)]
pub enum AlarmRequestError {
    ZeroDuration,
}

impl AlarmRequestError {
    /// The message shown for the error.
    pub fn message(&self) -> (r: String)
        ensures
            r@ == "duration must be greater than zero"@,
    {
        "duration must be greater than zero".to_owned()
    }
}

/// The name shown for a sound setting: a system sound's name, a sound file's
/// file name (`custom sound` where the path has none), or `terminal bell`.
pub open spec fn sound_label(sound: SoundChoice) -> Seq<char> {
    match sound {
        SoundChoice::System(name) => name,
        SoundChoice::File(path) => match file_name(path) {
            Some(n) => n,
            None => "custom sound"@,
        },
        SoundChoice::TerminalBell => "terminal bell"@,
    }
}

fn sound_label_of(sound: &SoundSetting) -> (r: String)
    ensures
        r@ == sound_label(sound@),
{
    match sound {
        SoundSetting::System(name) => name.clone(),
        SoundSetting::File(path) => match file_name_chars(&chars_of(path.as_str())) {
            Some(n) => string_of(n.as_slice()),
            None => "custom sound".to_owned(),
        },
        SoundSetting::TerminalBell => "terminal bell".to_owned(),
    }
}

/// The request for an alarm of `duration` with the settings `effective`,
/// playing `sound` (resolved from `effective.sound`). A zero duration is
/// refused.
pub fn build_alarm_request(
    duration: Span,
    effective: Config,
    target: Option<String>,
    title: Option<String>,
    sound: ResolvedSound,
) -> (r: Result<AlarmRequest, AlarmRequestError>)
    ensures
        duration@ == 0 ==> r == Err::<AlarmRequest, AlarmRequestError>(
            AlarmRequestError::ZeroDuration,
        ),
        duration@ != 0 ==> (r matches Ok(req) && req@ == (AlarmRequestView {
            duration: duration@,
            title: text_view(title),
            font: effective.font@,
            sound_name: sound_label(effective.sound@),
            sound: sound@,
            notification: effective.notification,
            target: text_view(target),
        })),
{
    let sound_name = sound_label_of(&effective.sound);
    if duration.is_zero() {
        return Err(AlarmRequestError::ZeroDuration);
    }
    Ok(AlarmRequest {
        duration,
        title,
        font: effective.font,
        sound_name,
        sound,
        notification: effective.notification,
        target,
    })
}

// ---------------------------------------------------------------------------
// The running alarm
// ---------------------------------------------------------------------------

/// The second to draw for `remaining`, where the screen shows another one (or
/// none yet); none where it already shows this one.
pub fn second_to_draw(shown: Option<u64>, remaining: &Span) -> (r: Option<u64>)
    requires
        ceil_fits(remaining@),
    ensures
        r == (if shown == Some(ceil_seconds(remaining@) as u64) {
            None::<u64>
        } else {
            Some(ceil_seconds(remaining@) as u64)
        }),
{
    let second = ceiling_seconds(remaining);
    match shown {
        Some(s) => if s == second {
            None
        } else {
            Some(second)
        },
        None => Some(second),
    }
}

/// What the countdown does on `event` at `now`: Cancel stops it (the result
/// is false); Space pauses a running countdown and resumes a paused one;
/// both a pause toggle and a resize have the screen drawn afresh; other
/// events change nothing.
pub fn on_countdown_event(
    timer: &mut Countdown,
    shown: &mut Option<u64>,
    event: DisplayEvent,
    now: Moment,
) -> (keep_running: bool)
    requires
        measurable_at(old(timer)@, now.nanos),
    ensures
        keep_running == (event != DisplayEvent::Cancel),
        event == DisplayEvent::TogglePause ==> final(timer)@ == (if old(timer)@.resumed_at is None {
            resumed(old(timer)@, now.nanos)
        } else {
            paused(old(timer)@, now.nanos)
        }),
        event != DisplayEvent::TogglePause ==> final(timer)@ == old(timer)@,
        (event == DisplayEvent::TogglePause || event == DisplayEvent::Resize) ==> *final(shown)
            is None,
        !(event == DisplayEvent::TogglePause || event == DisplayEvent::Resize) ==> *final(shown)
            == *old(shown),
{
    match event {
        DisplayEvent::Cancel => false,
        DisplayEvent::Resize => {
            *shown = None;
            true
        },
        DisplayEvent::TogglePause => {
            if timer.is_paused() {
                timer.resume(now);
            } else {
                timer.pause(now);
            }
            *shown = None;
            true
        },
        _ => true,
    }
}

/// Whether the bell rings again at `now`: a second has passed since it last
/// rang at `last`.
pub fn bell_due(last: Moment, now: Moment) -> (r: bool)
    ensures
        r == (now.nanos >= last.nanos + 1_000_000_000),
{
    let waited = now.saturating_since(&last);
    !(waited.as_nanos() < 1_000_000_000)
}

} // verus!
