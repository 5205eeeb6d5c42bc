//! The text of the time-up desktop notification.
use vstd::prelude::*;
use crate::display::opt_view;
use crate::text::{append_chars, chars_of, replace, replace_chars, string_of};

verus! {

/// `Time is up for <title>.`, else `Time is up for <target>.`, else
/// `Time is up!`.
pub open spec fn body_text(target: Option<Seq<char>>, title: Option<Seq<char>>) -> Seq<char> {
    match (title, target) {
        (Some(t), _) => "Time is up for "@ + t + "."@,
        (None, Some(t)) => "Time is up for "@ + t + "."@,
        (None, None) => "Time is up!"@,
    }
}

/// The notification's body.
pub fn notification_body(target: Option<&str>, title: Option<&str>) -> (r: String)
    ensures
        r@ == body_text(opt_view(target), opt_view(title)),
{
    let named = match (title, target) {
        (Some(t), _) => Some(t),
        (None, Some(t)) => Some(t),
        (None, None) => None,
    };
    match named {
        Some(t) => {
            let mut out = chars_of("Time is up for ");
            append_chars(&mut out, &chars_of(t));
            append_chars(&mut out, &chars_of("."));
            string_of(out.as_slice())
        },
        None => "Time is up!".to_owned(),
    }
}

/// The AppleScript that posts `body` as a notification titled `Alarm clock`,
/// with backslashes and quotes escaped.
pub open spec fn apple_script_text(body: Seq<char>) -> Seq<char> {
    let escaped = replace(replace(body, "\\"@, "\\\\"@), "\""@, "\\\""@);
    "display notification \""@ + escaped + "\" with title \"Alarm clock\""@
}

/// The AppleScript for the macOS notification.
pub fn apple_script(body: &str) -> (r: String)
    ensures
        r@ == apple_script_text(body@),
{
    proof {
        reveal_strlit("\\");
        reveal_strlit("\"");
    }
    let once = replace_chars(&chars_of(body), &chars_of("\\"), &chars_of("\\\\"));
    let escaped = replace_chars(&once, &chars_of("\""), &chars_of("\\\""));
    let mut out = chars_of("display notification \"");
    append_chars(&mut out, &escaped);
    append_chars(&mut out, &chars_of("\" with title \"Alarm clock\""));
    string_of(out.as_slice())
}

} // verus!
