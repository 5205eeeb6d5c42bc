//! Answers typed at the prompts: candidate choice, confirmation, pasted
//! text, and the guided setup.
use vstd::prelude::*;
use crate::clock::Span;
use crate::config::{SoundChoice, SoundSetting};
use crate::duration::{duration_seconds, parse_duration, DurationParseError};
use crate::extract::candidate_views;
use crate::schedule::{target_text, Candidate, CandidateView, ScheduleError};
use crate::text::{
    append_chars, chars_of, decimal, join, join_exec, lower, lower_chars, parse_unsigned,
    parse_usize, push_decimal, string_of, trim, trim_chars, trim_end, trim_end_chars, views,
};

verus! {

/// Why a candidate choice was refused.
#[derive(Clone, Copy, Debug, PartialEq, Eq, Structural)]
pub enum ChoiceError {
    /// The answer is not a number.
    NotANumber,
    /// The number is not between 1 and the count, which this holds.
    OutOfRange(usize),
}

/// The index chosen by typing its 1-based number among `count` candidates.
pub open spec fn chosen_index(count: usize, input: Seq<char>) -> Result<usize, ChoiceError> {
    match parse_unsigned(trim(input), usize::MAX as nat) {
        None => Err(ChoiceError::NotANumber),
        Some(v) => if v == 0 || v > count {
            Err(ChoiceError::OutOfRange(count))
        } else {
            Ok((v - 1) as usize)
        },
    }
}

/// The 0-based index of the candidate numbered by `input`, from 1 to
/// `count`.
pub fn choose_candidate(count: usize, input: &str) -> (r: Result<usize, ChoiceError>)
    ensures
        r == chosen_index(count, input@),
{
    let t = trim_chars(&chars_of(input));
    match parse_usize(&t) {
        None => Err(ChoiceError::NotANumber),
        Some(v) => if v == 0 || v > count {
            Err(ChoiceError::OutOfRange(count))
        } else {
            Ok(v - 1)
        },
    }
}

/// The refusal of an answer that is not yes or no.
#[derive(Clone, Copy, Debug, PartialEq, Eq, Structural)]
pub struct ConfirmationError;

/// `y`/`yes` and `n`/`no`, in any ASCII case, around white space.
pub open spec fn confirmation(input: Seq<char>) -> Option<bool> {
    let a = lower(trim(input));
    if a == "y"@ || a == "yes"@ {
        Some(true)
    } else if a == "n"@ || a == "no"@ {
        Some(false)
    } else {
        None
    }
}

fn same_chars(a: &Vec<char>, b: &Vec<char>) -> (r: bool)
    ensures
        r == (a@ == b@),
{
    if a.len() != b.len() {
        return false;
    }
    let mut i: usize = 0;
    while i < a.len()
        invariant
            i <= a.len() == b.len(),
            forall|k: int| 0 <= k < i ==> a@[k] == b@[k],
        decreases a.len() - i,
    {
        if a[i] != b[i] {
            return false;
        }
        i += 1;
    }
    assert(a@ =~= b@);
    true
}

/// Whether `input` confirms (yes) or declines (no).
pub fn parse_confirmation(input: &str) -> (r: Result<bool, ConfirmationError>)
    ensures
        r matches Ok(b) ==> confirmation(input@) == Some(b),
        r is Err ==> confirmation(input@) is None,
{
    let a = lower_chars(&trim_chars(&chars_of(input)));
    if same_chars(&a, &chars_of("y")) || same_chars(&a, &chars_of("yes")) {
        Ok(true)
    } else if same_chars(&a, &chars_of("n")) || same_chars(&a, &chars_of("no")) {
        Ok(false)
    } else {
        Err(ConfirmationError)
    }
}

/// Whether a line typed in paste mode ends the text: a single `.` before any
/// trailing white space.
pub fn ends_pasted_text(line: &str) -> (r: bool)
    ensures
        r == (trim_end(line@) == "."@),
{
    same_chars(&trim_end_chars(&chars_of(line)), &chars_of("."))
}

/// The answers of the guided setup, as typed.
#[derive(Clone, Debug)]
pub struct InteractiveAnswers {
    pub duration: String,
    pub font: String,
    pub notification: bool,
    pub sound: SoundSetting,
    pub save_defaults: bool,
}

/// The answers of the guided setup, with the duration read.
#[derive(Clone, Debug)]
pub struct ValidatedInteractiveAnswers {
    pub duration: Span,
    pub font: String,
    pub notification: bool,
    pub sound: SoundSetting,
    pub save_defaults: bool,
}

impl InteractiveAnswers {
    /// The answers with the duration read, or the refused duration.
    pub fn validate(self) -> (r: Result<ValidatedInteractiveAnswers, DurationParseError>)
        ensures
            match duration_seconds(self.duration@) {
                Some(v) => r matches Ok(a) && {
                    &&& a.duration@ == v * 1_000_000_000
                    &&& a.font@ == self.font@
                    &&& a.notification == self.notification
                    &&& a.sound@ == self.sound@
                    &&& a.save_defaults == self.save_defaults
                },
                None => r matches Err(e) && e@ == trim(self.duration@),
            },
    {
        let duration = match parse_duration(self.duration.as_str()) {
            Ok(d) => d,
            Err(e) => return Err(e),
        };
        Ok(
            ValidatedInteractiveAnswers {
                duration,
                font: self.font,
                notification: self.notification,
                sound: self.sound,
                save_defaults: self.save_defaults,
            },
        )
    }
}

} // verus!

verus! {

/// `<source> -> <target> (<zone>)`: what was read, and the time it names.
pub open spec fn summary_text(c: CandidateView) -> Seq<char> {
    c.source + " -> "@ + target_text(c.target, c.timezone)
}

fn summary_chars(c: &Candidate) -> (r: Vec<char>)
    ensures
        r@ == summary_text(c@),
{
    let mut out = chars_of(c.source.as_str());
    append_chars(&mut out, &chars_of(" -> "));
    append_chars(&mut out, &chars_of(c.display_target().as_str()));
    out
}

/// A candidate as listed where no terminal is there to choose one.
pub fn candidate_summary(c: &Candidate) -> (r: String)
    ensures
        r@ == summary_text(c@),
{
    string_of(summary_chars(c).as_slice())
}

/// A candidate as offered for choice: `<number>. <source> -> <target>`.
pub fn choice_line(number: u64, c: &Candidate) -> (r: String)
    ensures
        r@ == decimal(number as nat) + ". "@ + summary_text(c@),
{
    let mut out: Vec<char> = Vec::new();
    push_decimal(&mut out, number);
    append_chars(&mut out, &chars_of(". "));
    append_chars(&mut out, &summary_chars(c));
    assert(out@ =~= decimal(number as nat) + ". "@ + summary_text(c@));
    string_of(out.as_slice())
}

} // verus!

verus! {

/// A choice, where accepted, is the index of one of the candidates offered.
pub proof fn law_choice_within_candidates(count: usize, input: Seq<char>)
    ensures
        chosen_index(count, input) matches Ok(i) ==> i < count,
{
}

} // verus!

verus! {

// ---------------------------------------------------------------------------
// Scheduling at a given time (`at`)
// ---------------------------------------------------------------------------

/// What happened while scheduling an alarm for a typed date and time.
#[derive(Debug)]
pub enum DirectEvent {
    /// The expression was read (at the terminal).
    Parsed(Result<Candidate, ScheduleError>),
    /// The answer to "start this alarm?" for the candidate: yes, no, or an
    /// answer that is neither.
    Confirmed(Candidate, Option<bool>),
    /// The expression was read where no terminal is there to confirm it.
    NoTerminal(Result<Candidate, ScheduleError>),
}

/// What to do next.
#[derive(Debug)]
pub enum DirectAction {
    /// Show the error and ask for another date and time.
    Reprompt(ScheduleError),
    /// Show the resolved target and ask whether to start.
    AskConfirmation(Candidate),
    Start(Candidate),
    /// Refuse to start, with this message.
    Refuse(String),
    /// Fail with this error.
    Fail(ScheduleError),
    /// End without starting.
    Stop,
}

/// The message where a candidate cannot be confirmed for want of a terminal.
pub open spec fn unconfirmed_text(c: CandidateView) -> Seq<char> {
    "confirmation is required before starting an alarm; detected candidate: "@ + summary_text(c)
}

/// One step of scheduling at a typed time; `had_error` says whether an
/// expression was refused before. A refused expression is shown and another
/// asked for; a resolved one is shown and must be confirmed before the alarm
/// starts; yes starts it, no ends without starting, any other answer asks
/// again. Without a terminal nothing starts: the candidate is shown in the
/// refusal, or the error is returned. The result is the new `had_error` and
/// the action.
pub fn direct_schedule_step(had_error: bool, event: DirectEvent) -> (r: (bool, DirectAction))
    ensures
        match event {
            DirectEvent::Parsed(Err(e)) => r.0 && r.1 == DirectAction::Reprompt(e),
            DirectEvent::Parsed(Ok(c)) => r.0 == had_error && r.1 == DirectAction::AskConfirmation(
                c,
            ),
            DirectEvent::Confirmed(c, Some(true)) => r.0 == had_error && r.1
                == DirectAction::Start(c),
            DirectEvent::Confirmed(_, Some(false)) => r.0 == had_error && r.1 is Stop,
            DirectEvent::Confirmed(c, None) => r.0 == had_error && r.1
                == DirectAction::AskConfirmation(c),
            DirectEvent::NoTerminal(Ok(c)) => r.0 == had_error && (r.1 matches DirectAction::Refuse(
                m,
            ) && m@ == unconfirmed_text(c@)),
            DirectEvent::NoTerminal(Err(e)) => r.0 == had_error && r.1 == DirectAction::Fail(e),
        },
{
    match event {
        DirectEvent::Parsed(Err(e)) => (true, DirectAction::Reprompt(e)),
        DirectEvent::Parsed(Ok(c)) => (had_error, DirectAction::AskConfirmation(c)),
        DirectEvent::Confirmed(c, Some(true)) => (had_error, DirectAction::Start(c)),
        DirectEvent::Confirmed(_, Some(false)) => (had_error, DirectAction::Stop),
        DirectEvent::Confirmed(c, None) => (had_error, DirectAction::AskConfirmation(c)),
        DirectEvent::NoTerminal(Ok(c)) => {
            let mut m = chars_of("confirmation is required before starting an alarm; detected candidate: ");
            append_chars(&mut m, &summary_chars(&c));
            (had_error, DirectAction::Refuse(string_of(m.as_slice())))
        },
        DirectEvent::NoTerminal(Err(e)) => (had_error, DirectAction::Fail(e)),
    }
}

// ---------------------------------------------------------------------------
// Scheduling from text (`from-text`)
// ---------------------------------------------------------------------------

/// What to do with the candidates found in a text.
#[derive(Debug)]
pub enum TextAction {
    /// Show this hint and read another text.
    Reprompt(String),
    /// Refuse to start, with this message.
    Refuse(String),
    /// Let the user choose one of this many candidates.
    Select(usize),
}

/// The hint shown when no time is found in text typed at the terminal.
pub open spec fn retry_hint() -> Seq<char> {
    "No explicit date and time found; try `2:50pm`, `tomorrow at 9am`, or `June 12 at 09:00`."@
}

/// The refusal when no time is found in piped text.
pub open spec fn nothing_found_text() -> Seq<char> {
    "no explicit date and time found; try `2:50pm`, `tomorrow at 9am`, or `June 12 at 09:00`"@
}

/// The refusal when piped text gave candidates but no terminal is there to
/// choose and confirm: every candidate, one per line.
pub open spec fn unchosen_text(cs: Seq<CandidateView>) -> Seq<char> {
    "confirmation is required before starting an alarm; rerun interactively\n"@ + join(
        cs.map_values(|c: CandidateView| summary_text(c)),
        "\n"@,
    )
}

/// What to do with the `candidates` found in a text, typed at the terminal
/// (`interactive`) or piped in, with or without a controlling terminal.
pub fn text_schedule_step(interactive: bool, has_terminal: bool, candidates: &Vec<Candidate>) -> (r:
    TextAction)
    ensures
        candidates@.len() == 0 && interactive ==> (r matches TextAction::Reprompt(m) && m@
            == retry_hint()),
        candidates@.len() == 0 && !interactive ==> (r matches TextAction::Refuse(m) && m@
            == nothing_found_text()),
        candidates@.len() > 0 && !interactive && !has_terminal ==> (r matches TextAction::Refuse(m)
            && m@ == unchosen_text(candidate_views(candidates@))),
        candidates@.len() > 0 && (interactive || has_terminal) ==> r == TextAction::Select(
            candidates@.len() as usize,
        ),
{
    if candidates.len() == 0 {
        if interactive {
            return TextAction::Reprompt(
                "No explicit date and time found; try `2:50pm`, `tomorrow at 9am`, or `June 12 at 09:00`.".to_owned(),
            );
        } else {
            return TextAction::Refuse(
                "no explicit date and time found; try `2:50pm`, `tomorrow at 9am`, or `June 12 at 09:00`".to_owned(),
            );
        }
    }
    if interactive || has_terminal {
        return TextAction::Select(candidates.len());
    }
    let ghost cs = candidate_views(candidates@);
    let mut lines: Vec<Vec<char>> = Vec::new();
    let mut i: usize = 0;
    while i < candidates.len()
        invariant
            i <= candidates@.len(),
            cs == candidate_views(candidates@),
            views(lines@) == cs.take(i as int).map_values(|c: CandidateView| summary_text(c)),
        decreases candidates.len() - i,
    {
        let ghost before = views(lines@);
        lines.push(summary_chars(&candidates[i]));
        assert(views(lines@) =~= before.push(summary_text(candidates@[i as int]@)));
        assert(cs.take(i + 1).map_values(|c: CandidateView| summary_text(c)) =~= cs.take(
            i as int,
        ).map_values(|c: CandidateView| summary_text(c)).push(summary_text(cs[i as int])));
        i += 1;
    }
    assert(cs.take(candidates@.len() as int) =~= cs);
    let mut m = chars_of("confirmation is required before starting an alarm; rerun interactively\n");
    append_chars(&mut m, &join_exec(&lines, &chars_of("\n")));
    TextAction::Refuse(string_of(m.as_slice()))
}

} // verus!
