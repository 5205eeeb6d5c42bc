//! What the terminal shows: the countdown, its status line, and the ringing
//! screen; and how keys map to actions.
use vstd::prelude::*;
use crate::clock::Span;
use crate::fonts::{bundled_fonts, font_wf, preferred_fit, rendered, FontCatalog, Size};
use crate::text::{append_chars, chars_of, decimal2, push_decimal2, string_of};

verus! {

/// What a key press or a terminal change asks for.
#[derive(Clone, Copy, Debug, PartialEq, Eq, Structural)]
pub enum DisplayEvent {
    /// Nothing to do.
    Idle,
    Cancel,
    Dismiss,
    Resize,
    TogglePause,
}

/// The key of a key press.
#[derive(Clone, Copy, Debug, PartialEq, Eq, Structural)]
pub enum KeyCode {
    Char(char),
    Esc,
    Other,
}

/// A key press: the key, and whether Control was held.
#[derive(Clone, Copy, Debug, PartialEq, Eq, Structural)]
pub struct Key {
    pub code: KeyCode,
    pub control: bool,
}

impl Key {
    pub fn new(code: KeyCode, control: bool) -> (r: Key)
        ensures
            r.code == code && r.control == control,
    {
        Key { code, control }
    }
}

/// While ringing any key dismisses; while counting, `q`, Esc and Ctrl+C
/// cancel, and Space toggles the pause.
pub open spec fn key_event(key: Key, ringing: bool) -> DisplayEvent {
    if ringing {
        DisplayEvent::Dismiss
    } else {
        match key.code {
            KeyCode::Char(c) => if c == 'q' {
                DisplayEvent::Cancel
            } else if c == 'c' && key.control {
                DisplayEvent::Cancel
            } else if c == ' ' {
                DisplayEvent::TogglePause
            } else {
                DisplayEvent::Idle
            },
            KeyCode::Esc => DisplayEvent::Cancel,
            KeyCode::Other => DisplayEvent::Idle,
        }
    }
}

/// What the key press `key` asks for.
pub fn event_from_key(key: Key, ringing: bool) -> (r: DisplayEvent)
    ensures
        r == key_event(key, ringing),
{
    if ringing {
        return DisplayEvent::Dismiss;
    }
    match key.code {
        KeyCode::Char('q') | KeyCode::Esc => DisplayEvent::Cancel,
        KeyCode::Char('c') if key.control => DisplayEvent::Cancel,
        KeyCode::Char(' ') => DisplayEvent::TogglePause,
        _ => DisplayEvent::Idle,
    }
}

/// A terminal input: a key press, a resize, or anything else.
#[derive(Clone, Copy, Debug, PartialEq, Eq, Structural)]
pub enum TerminalInput {
    Key(Key),
    Resize,
    Other,
}

/// What a terminal input asks for.
pub fn event_from_input(input: TerminalInput, ringing: bool) -> (r: DisplayEvent)
    ensures
        r == match input {
            TerminalInput::Key(k) => key_event(k, ringing),
            TerminalInput::Resize => DisplayEvent::Resize,
            TerminalInput::Other => DisplayEvent::Idle,
        },
{
    match input {
        TerminalInput::Key(k) => event_from_key(k, ringing),
        TerminalInput::Resize => DisplayEvent::Resize,
        TerminalInput::Other => DisplayEvent::Idle,
    }
}

// ---------------------------------------------------------------------------
// The countdown text
// ---------------------------------------------------------------------------

/// `d` in whole seconds, rounded up.
pub open spec fn ceil_seconds(d: nat) -> nat {
    d / 1_000_000_000 + if d % 1_000_000_000 > 0 {
        1nat
    } else {
        0nat
    }
}

/// A span whose seconds, rounded up, fit `u64`.
pub open spec fn ceil_fits(d: nat) -> bool {
    ceil_seconds(d) <= u64::MAX
}

/// Whether the whole seconds of `d`, rounded up, fit `u64`: they do for
/// every span but those past the last whole second.
pub fn seconds_round_up_in_range(d: &Span) -> (r: bool)
    ensures
        r == ceil_fits(d@),
{
    !(d.as_secs() == u64::MAX && d.subsec_nanos() > 0)
}

/// The whole seconds of `d`, rounded up.
pub fn ceiling_seconds(d: &Span) -> (r: u64)
    requires
        ceil_fits(d@),
    ensures
        r == ceil_seconds(d@),
{
    d.as_secs() + if d.subsec_nanos() > 0 {
        1
    } else {
        0
    }
}

/// `HH:MM:SS` for an hour or more, otherwise `MM:SS`, of the whole seconds
/// rounded up.
pub open spec fn duration_text(d: nat) -> Seq<char> {
    let s = ceil_seconds(d);
    let hours = s / 3600;
    let minutes = (s % 3600) / 60;
    let seconds = s % 60;
    if hours > 0 {
        decimal2(hours) + ":"@ + decimal2(minutes) + ":"@ + decimal2(seconds)
    } else {
        decimal2(minutes) + ":"@ + decimal2(seconds)
    }
}

pub fn format_duration_chars(d: &Span) -> (r: Vec<char>)
    requires
        ceil_fits(d@),
    ensures
        r@ == duration_text(d@),
{
    let s = ceiling_seconds(d);
    let hours = s / 3600;
    let minutes = (s % 3600) / 60;
    let seconds = s % 60;
    let mut out: Vec<char> = Vec::new();
    proof {
        reveal_strlit(":");
    }
    if hours > 0 {
        push_decimal2(&mut out, hours);
        out.push(':');
    }
    push_decimal2(&mut out, minutes);
    out.push(':');
    push_decimal2(&mut out, seconds);
    assert(out@ =~= duration_text(d@));
    out
}

/// The countdown text for `duration`.
pub fn format_duration(duration: Span) -> (r: String)
    requires
        ceil_fits(duration@),
    ensures
        r@ == duration_text(duration@),
{
    string_of(format_duration_chars(&duration).as_slice())
}

// ---------------------------------------------------------------------------
// Status lines
// ---------------------------------------------------------------------------

pub open spec fn opt_view(o: Option<&str>) -> Option<Seq<char>> {
    match o {
        Some(s) => Some(s@),
        None => None,
    }
}

/// `Title: …`, `Target: …` where given, `Sound: …`, and the controls,
/// joined by ` | `.
pub open spec fn status_text(
    sound: Seq<char>,
    target: Option<Seq<char>>,
    title: Option<Seq<char>>,
    paused: bool,
) -> Seq<char> {
    let title_part = match title {
        Some(t) => "Title: "@ + t + " | "@,
        None => seq![],
    };
    let target_part = match target {
        Some(t) => "Target: "@ + t + " | "@,
        None => seq![],
    };
    let controls = if paused {
        "PAUSED | Space to resume | q/Esc/Ctrl+C to cancel"@
    } else {
        "Space to pause | q/Esc/Ctrl+C to cancel"@
    };
    title_part + target_part + "Sound: "@ + sound + " | "@ + controls
}

fn status_chars(sound: &str, target: Option<&str>, title: Option<&str>, paused: bool) -> (r: Vec<char>)
    ensures
        r@ == status_text(sound@, opt_view(target), opt_view(title), paused),
{
    let mut out: Vec<char> = Vec::new();
    let separator = chars_of(" | ");
    if let Some(t) = title {
        append_chars(&mut out, &chars_of("Title: "));
        append_chars(&mut out, &chars_of(t));
        append_chars(&mut out, &separator);
    }
    if let Some(t) = target {
        append_chars(&mut out, &chars_of("Target: "));
        append_chars(&mut out, &chars_of(t));
        append_chars(&mut out, &separator);
    }
    append_chars(&mut out, &chars_of("Sound: "));
    append_chars(&mut out, &chars_of(sound));
    append_chars(&mut out, &separator);
    if paused {
        append_chars(&mut out, &chars_of("PAUSED | Space to resume | q/Esc/Ctrl+C to cancel"));
    } else {
        append_chars(&mut out, &chars_of("Space to pause | q/Esc/Ctrl+C to cancel"));
    }
    assert(out@ =~= status_text(sound@, opt_view(target), opt_view(title), paused));
    out
}

/// The status line under the countdown.
pub fn countdown_status(sound: &str, target: Option<&str>, title: Option<&str>, paused: bool) -> (r: String)
    ensures
        r@ == status_text(sound@, opt_view(target), opt_view(title), paused),
{
    string_of(status_chars(sound, target, title, paused).as_slice())
}

/// The status line while ringing.
pub open spec fn ringing_text(target: Option<Seq<char>>, title: Option<Seq<char>>) -> Seq<char> {
    let title_part = match title {
        Some(t) => "Title: "@ + t + " | "@,
        None => seq![],
    };
    let target_part = match target {
        Some(t) => "Target: "@ + t + " | "@,
        None => seq![],
    };
    title_part + target_part + "Press any key to dismiss"@
}

pub fn ringing_status(target: Option<&str>, title: Option<&str>) -> (r: String)
    ensures
        r@ == ringing_text(opt_view(target), opt_view(title)),
{
    let mut out: Vec<char> = Vec::new();
    let separator = chars_of(" | ");
    if let Some(t) = title {
        append_chars(&mut out, &chars_of("Title: "));
        append_chars(&mut out, &chars_of(t));
        append_chars(&mut out, &separator);
    }
    if let Some(t) = target {
        append_chars(&mut out, &chars_of("Target: "));
        append_chars(&mut out, &chars_of(t));
        append_chars(&mut out, &separator);
    }
    append_chars(&mut out, &chars_of("Press any key to dismiss"));
    assert(out@ =~= ringing_text(opt_view(target), opt_view(title)));
    string_of(out.as_slice())
}

// ---------------------------------------------------------------------------
// Laying out the countdown screen
// ---------------------------------------------------------------------------

pub open spec fn saturating_minus(a: u16, b: u16) -> u16 {
    if a >= b {
        (a - b) as u16
    } else {
        0
    }
}

/// The room for the countdown in a terminal of `width` by `height`: two
/// columns and four lines are kept free.
pub open spec fn countdown_room(width: u16, height: u16) -> Size {
    Size { width: saturating_minus(width, 2), height: saturating_minus(height, 4) }
}

/// The countdown lines: the text drawn in the preferred font where it fits,
/// else in the largest font that fits, else the plain text.
pub open spec fn countdown_lines(d: nat, preferred: Seq<char>, width: u16, height: u16) -> Seq<Seq<char>> {
    let text = duration_text(d);
    match preferred_fit(bundled_fonts(), preferred, text, countdown_room(width, height)) {
        Some(k) => rendered(bundled_fonts()[k], text),
        None => seq![text],
    }
}

/// The fullest status line that fits `width`: with title and target, with
/// the title alone, with the target alone, or with neither; none if even
/// that is too wide.
pub open spec fn fitting_status(
    sound: Seq<char>,
    target: Option<Seq<char>>,
    title: Option<Seq<char>>,
    paused: bool,
    width: u16,
) -> Option<Seq<char>> {
    let full = status_text(sound, target, title, paused);
    let with_title = status_text(sound, None, title, paused);
    let with_target = status_text(sound, target, None, paused);
    let compact = status_text(sound, None, None, paused);
    if full.len() <= width {
        Some(full)
    } else if with_title.len() <= width {
        Some(with_title)
    } else if with_target.len() <= width {
        Some(with_target)
    } else if compact.len() <= width {
        Some(compact)
    } else {
        None
    }
}

/// The countdown screen for `remaining` in a terminal of `width` by
/// `height`: its lines and its status line.
pub fn countdown_screen(
    remaining: Span,
    preferred_font: &str,
    sound: &str,
    target: Option<&str>,
    title: Option<&str>,
    paused: bool,
    width: u16,
    height: u16,
) -> (r: (Vec<String>, Option<String>))
    requires
        ceil_fits(remaining@),
    ensures
        r.0@.map_values(|s: String| s@) == countdown_lines(remaining@, preferred_font@, width, height),
        match (r.1, fitting_status(sound@, opt_view(target), opt_view(title), paused, width)) {
            (Some(s), Some(t)) => s@ == t,
            (None, None) => true,
            _ => false,
        },
{
    let text = format_duration(remaining);
    let catalog = FontCatalog::default();
    let available = Size::new(width.saturating_sub(2), height.saturating_sub(4));
    let lines = match catalog.largest_fit_preferring(preferred_font, text.as_str(), available) {
        Some(font) => font.render(text.as_str()),
        None => {
            let mut v: Vec<String> = Vec::new();
            let ghost tv = text@;
            v.push(text);
            assert(v@.map_values(|s: String| s@) =~= seq![tv]);
            v
        },
    };
    let full = status_chars(sound, target, title, paused);
    let with_title = status_chars(sound, None, title, paused);
    let with_target = status_chars(sound, target, None, paused);
    let compact = status_chars(sound, None, None, paused);
    let w = width as usize;
    let status = if full.len() <= w {
        Some(string_of(full.as_slice()))
    } else if with_title.len() <= w {
        Some(string_of(with_title.as_slice()))
    } else if with_target.len() <= w {
        Some(string_of(with_target.as_slice()))
    } else if compact.len() <= w {
        Some(string_of(compact.as_slice()))
    } else {
        None
    };
    (lines, status)
}

} // verus!
