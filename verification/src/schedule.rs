//! Wall-clock expressions: parsing one, finding them in text, and resolving
//! them to instants in a time zone.
use vstd::prelude::*;
use crate::calendar::{
    date_is_valid, days_from_epoch, following_day, instant, lemma_next_day_valid, local_seconds,
    max_epoch, min_epoch, next_day, valid_date, valid_local, valid_zoned, zoned_text, LocalDateTime, ZonedTime,
    ZonedView, MAX_YEAR, MIN_YEAR,
};
use crate::clock::Span;
use crate::zone::{zone_is_known, zone_local_offset, zone_utc_offset, LocalOffset, Zone};
use crate::text::{
    all_digits, append_chars, chars_of, copy_range, ends_with, ends_with_exec, join, join_exec, lower,
    lower_chars, parse_u32, parse_unsigned, replace, replace_chars, split_on, split_on_exec,
    starts_with, starts_with_exec, string_of, trim, trim_chars, views, words, words_exec,
};

verus! {

// ---------------------------------------------------------------------------
// Normalizing an expression
// ---------------------------------------------------------------------------

/// Trimmed, lower-cased, `a.m.`/`p.m.` spelled `am`/`pm`, and runs of white
/// space collapsed to one space.
pub open spec fn normalized(s: Seq<char>) -> Seq<char> {
    let a = lower(trim(s));
    let b = replace(a, "a.m."@, "am"@);
    let c = replace(b, "p.m."@, "pm"@);
    let d = replace(c, "a.m"@, "am"@);
    let e = replace(d, "p.m"@, "pm"@);
    join(words(e), " "@)
}

pub fn normalize_chars(s: &Vec<char>) -> (r: Vec<char>)
    ensures
        r@ == normalized(s@),
{
    let t = trim_chars(s);
    let a = lower_chars(&t);
    let am_dot = chars_of("a.m.");
    let pm_dot = chars_of("p.m.");
    let am_short = chars_of("a.m");
    let pm_short = chars_of("p.m");
    let am = chars_of("am");
    let pm = chars_of("pm");
    proof {
        reveal_strlit("a.m.");
        reveal_strlit("p.m.");
        reveal_strlit("a.m");
        reveal_strlit("p.m");
    }
    let b = replace_chars(&a, &am_dot, &am);
    let c = replace_chars(&b, &pm_dot, &pm);
    let d = replace_chars(&c, &am_short, &am);
    let e = replace_chars(&d, &pm_short, &pm);
    let ws = words_exec(&e);
    let space = chars_of(" ");
    join_exec(&ws, &space)
}

/// The expression `input` in its normal form.
pub fn normalize_expression(input: &str) -> (r: String)
    ensures
        r@ == normalized(input@),
{
    let v = chars_of(input);
    let n = normalize_chars(&v);
    string_of(n.as_slice())
}

// ---------------------------------------------------------------------------
// Parts of an expression
// ---------------------------------------------------------------------------

/// `s` trimmed, without a leading `at `.
pub open spec fn without_at(s: Seq<char>) -> Seq<char> {
    let t = trim(s);
    if starts_with(t, "at "@) {
        t.skip("at "@.len() as int)
    } else {
        t
    }
}

pub fn strip_at(s: &Vec<char>) -> (r: Vec<char>)
    ensures
        r@ == without_at(s@),
{
    let t = trim_chars(s);
    let at = chars_of("at ");
    if starts_with_exec(&t, &at) {
        let r = copy_range(&t, at.len(), t.len());
        assert(r@ =~= t@.skip(at@.len() as int));
        r
    } else {
        t
    }
}

/// The number of the month that `w` names in full, in lower case.
pub open spec fn month_number(w: Seq<char>) -> Option<u32> {
    if w == "january"@ {
        Some(1)
    } else if w == "february"@ {
        Some(2)
    } else if w == "march"@ {
        Some(3)
    } else if w == "april"@ {
        Some(4)
    } else if w == "may"@ {
        Some(5)
    } else if w == "june"@ {
        Some(6)
    } else if w == "july"@ {
        Some(7)
    } else if w == "august"@ {
        Some(8)
    } else if w == "september"@ {
        Some(9)
    } else if w == "october"@ {
        Some(10)
    } else if w == "november"@ {
        Some(11)
    } else if w == "december"@ {
        Some(12)
    } else {
        None
    }
}

fn same_chars(a: &Vec<char>, b: &Vec<char>) -> (r: bool)
    ensures
        r == (a@ == b@),
{
    if a.len() != b.len() {
        return false;
    }
    let mut i: usize = 0;
    while i < a.len()
        invariant
            i <= a.len() == b.len(),
            forall|k: int| 0 <= k < i ==> a@[k] == b@[k],
        decreases a.len() - i,
    {
        if a[i] != b[i] {
            return false;
        }
        i += 1;
    }
    assert(a@ =~= b@);
    true
}

pub fn parse_month_chars(w: &Vec<char>) -> (r: Option<u32>)
    ensures
        r == month_number(w@),
{
    if same_chars(w, &chars_of("january")) {
        Some(1)
    } else if same_chars(w, &chars_of("february")) {
        Some(2)
    } else if same_chars(w, &chars_of("march")) {
        Some(3)
    } else if same_chars(w, &chars_of("april")) {
        Some(4)
    } else if same_chars(w, &chars_of("may")) {
        Some(5)
    } else if same_chars(w, &chars_of("june")) {
        Some(6)
    } else if same_chars(w, &chars_of("july")) {
        Some(7)
    } else if same_chars(w, &chars_of("august")) {
        Some(8)
    } else if same_chars(w, &chars_of("september")) {
        Some(9)
    } else if same_chars(w, &chars_of("october")) {
        Some(10)
    } else if same_chars(w, &chars_of("november")) {
        Some(11)
    } else if same_chars(w, &chars_of("december")) {
        Some(12)
    } else {
        None
    }
}

/// The number of the month that `input` names in full, in lower case.
pub fn parse_month(input: &str) -> (r: Option<u32>)
    ensures
        r == month_number(input@),
{
    parse_month_chars(&chars_of(input))
}

/// The clock time (hour, minute) that `s` writes: `h[:mm]am`, `h[:mm]pm`
/// (hours 1 to 12), or `h:mm` (hours 0 to 23).
pub open spec fn clock_time(s: Seq<char>) -> Option<(u32, u32)> {
    let t = trim(s);
    let suffix: int = if ends_with(t, "am"@) {
        1
    } else if ends_with(t, "pm"@) {
        2
    } else {
        0
    };
    let clock = if suffix == 0 {
        t
    } else {
        trim(t.take(t.len() - 2))
    };
    if suffix == 0 && !clock.contains(':') {
        None
    } else {
        let parts = split_on(clock, ':');
        match parse_unsigned(trim(parts[0]), u32::MAX as nat) {
            None => None,
            Some(hour) => {
                let minute = if parts.len() > 1 {
                    parse_unsigned(trim(parts[1]), u32::MAX as nat)
                } else {
                    Some(0nat)
                };
                match minute {
                    None => None,
                    Some(minute) => if parts.len() > 2 || minute >= 60 {
                        None
                    } else if suffix == 1 {
                        if 1 <= hour <= 12 {
                            Some(((hour % 12) as u32, minute as u32))
                        } else {
                            None
                        }
                    } else if suffix == 2 {
                        if 1 <= hour <= 12 {
                            Some(((hour % 12 + 12) as u32, minute as u32))
                        } else {
                            None
                        }
                    } else if hour < 24 {
                        Some((hour as u32, minute as u32))
                    } else {
                        None
                    },
                }
            },
        }
    }
}

fn contains_char(s: &Vec<char>, c: char) -> (r: bool)
    ensures
        r == s@.contains(c),
{
    let mut i: usize = 0;
    while i < s.len()
        invariant
            i <= s.len(),
            forall|k: int| 0 <= k < i ==> s@[k] != c,
        decreases s.len() - i,
    {
        if s[i] == c {
            return true;
        }
        i += 1;
    }
    false
}

pub fn parse_time_chars(s: &Vec<char>) -> (r: Option<(u32, u32)>)
    ensures
        r == clock_time(s@),
{
    let t = trim_chars(s);
    let am = chars_of("am");
    let pm = chars_of("pm");
    proof {
        reveal_strlit("am");
        reveal_strlit("pm");
    }
    let suffix: u8 = if ends_with_exec(&t, &am) {
        1
    } else if ends_with_exec(&t, &pm) {
        2
    } else {
        0
    };
    let clock = if suffix == 0 {
        t
    } else {
        let head = copy_range(&t, 0, t.len() - 2);
        assert(head@ =~= t@.take(t@.len() - 2));
        trim_chars(&head)
    };
    if suffix == 0 && !contains_char(&clock, ':') {
        return None;
    }
    let parts = split_on_exec(&clock, ':');
    assert(views(parts@)[0] == parts@[0]@);
    let hour = match parse_u32(&trim_chars(&parts[0])) {
        None => return None,
        Some(h) => h,
    };
    let minute: u32 = if parts.len() > 1 {
        assert(views(parts@)[1] == parts@[1]@);
        match parse_u32(&trim_chars(&parts[1])) {
            None => return None,
            Some(m) => m,
        }
    } else {
        0
    };
    if parts.len() > 2 || minute >= 60 {
        return None;
    }
    if suffix == 1 {
        if 1 <= hour && hour <= 12 {
            Some((hour % 12, minute))
        } else {
            None
        }
    } else if suffix == 2 {
        if 1 <= hour && hour <= 12 {
            Some((hour % 12 + 12, minute))
        } else {
            None
        }
    } else if hour < 24 {
        Some((hour, minute))
    } else {
        None
    }
}

/// The clock time that `input` writes.
pub fn parse_time(input: &str) -> (r: Option<(u32, u32)>)
    ensures
        r == clock_time(input@),
{
    parse_time_chars(&chars_of(input))
}

/// A calendar date and a clock time, as (year, month, day, hour, minute).
pub type DateAndTime = (i32, u32, u32, u32, u32);

/// The date and time that the normalized expression `s` names, where
/// `today` is the current date: `today ...`, `tomorrow ...`,
/// `<month> <day> [at] ...` in the current year, or a time alone for today.
pub open spec fn date_and_time(s: Seq<char>, today: (i32, u32, u32)) -> Option<DateAndTime> {
    let (y, m, d) = today;
    let pick: Option<((i32, u32, u32), Seq<char>)> = if starts_with(s, "today"@) {
        Some((today, without_at(s.skip("today"@.len() as int))))
    } else if starts_with(s, "tomorrow"@) {
        match next_day(y as int, m as int, d as int) {
            Some((y2, m2, d2)) => Some(
                ((y2 as i32, m2 as u32, d2 as u32), without_at(s.skip("tomorrow"@.len() as int))),
            ),
            None => None,
        }
    } else {
        let parts = words(s);
        if parts.len() == 0 {
            None
        } else {
            match month_number(parts[0]) {
                Some(month) => if parts.len() < 2 {
                    None
                } else {
                    match parse_unsigned(parts[1], u32::MAX as nat) {
                        Some(day) => if valid_date(y as int, month as int, day as int) {
                            Some(((y, month, day as u32), without_at(join(parts.skip(2), " "@))))
                        } else {
                            None
                        },
                        None => None,
                    }
                },
                None => Some((today, s)),
            }
        }
    };
    match pick {
        Some((date, rest)) => match clock_time(rest) {
            Some((hour, minute)) => Some((date.0, date.1, date.2, hour, minute)),
            None => None,
        },
        None => None,
    }
}

pub fn parse_date_and_time_chars(s: &Vec<char>, today: (i32, u32, u32)) -> (r: Option<
    DateAndTime,
>)
    requires
        valid_date(today.0 as int, today.1 as int, today.2 as int),
    ensures
        r == date_and_time(s@, today),
{
    let (y, m, d) = today;
    let today_word = chars_of("today");
    let tomorrow_word = chars_of("tomorrow");
    let pick: Option<((i32, u32, u32), Vec<char>)> = if starts_with_exec(s, &today_word) {
        let rest = copy_range(s, today_word.len(), s.len());
        assert(rest@ =~= s@.skip(today_word@.len() as int));
        Some((today, strip_at(&rest)))
    } else if starts_with_exec(s, &tomorrow_word) {
        match following_day(y, m, d) {
            Some(next) => {
                let rest = copy_range(s, tomorrow_word.len(), s.len());
                assert(rest@ =~= s@.skip(tomorrow_word@.len() as int));
                Some((next, strip_at(&rest)))
            },
            None => None,
        }
    } else {
        let parts = words_exec(s);
        if parts.len() == 0 {
            None
        } else {
            assert(views(parts@)[0] == parts@[0]@);
            match parse_month_chars(&parts[0]) {
                Some(month) => if parts.len() < 2 {
                    None
                } else {
                    assert(views(parts@)[1] == parts@[1]@);
                    match parse_u32(&parts[1]) {
                        Some(day) => if date_is_valid(y, month, day) {
                            let mut tail: Vec<Vec<char>> = Vec::new();
                            let mut k: usize = 2;
                            while k < parts.len()
                                invariant
                                    2 <= k <= parts.len(),
                                    views(tail@) == views(parts@).subrange(2, k as int),
                                decreases parts.len() - k,
                            {
                                let w = copy_range(&parts[k], 0, parts[k].len());
                                assert(w@ =~= parts@[k as int]@);
                                assert(views(parts@)[k as int] == parts@[k as int]@);
                                let ghost old_tail = views(tail@);
                                tail.push(w);
                                assert(views(tail@) =~= old_tail.push(w@));
                                k += 1;
                                assert(views(tail@) =~= views(parts@).subrange(2, k as int));
                            }
                            assert(views(parts@).subrange(2, parts.len() as int) =~= views(
                                parts@,
                            ).skip(2));
                            let rest = join_exec(&tail, &chars_of(" "));
                            Some(((y, month, day), strip_at(&rest)))
                        } else {
                            None
                        },
                        None => None,
                    }
                },
                None => Some((today, copy_range(s, 0, s.len()))),
            }
        }
    };
    proof {
        assert(s@.subrange(0, s@.len() as int) =~= s@);
    }
    match pick {
        Some((date, rest)) => match parse_time_chars(&rest) {
            Some((hour, minute)) => Some((date.0, date.1, date.2, hour, minute)),
            None => None,
        },
        None => None,
    }
}

} // verus!

verus! {

// ---------------------------------------------------------------------------
// Resolving an expression
// ---------------------------------------------------------------------------

/// Why an expression does not give an alarm time.
#[derive(Clone, Copy, Debug)]
pub enum ScheduleError {
    /// No explicit date and time was found.
    InvalidExpression,
    /// The resolved time is not in the future.
    PastTarget(ZonedTime),
    /// The local time is skipped by a daylight-saving change.
    NonexistentLocalTime,
    /// The local time occurs twice because of a daylight-saving change.
    AmbiguousLocalTime,
    /// The countdown would be too long to represent.
    DurationOutOfRange,
    /// The system's local time zone could not be determined.
    LocalTimeZoneUnavailable,
}

/// What a `ScheduleError` says.
#[derive(Clone, Copy, Debug, PartialEq, Eq, Structural)]
pub enum ScheduleFault {
    InvalidExpression,
    PastTarget(ZonedView),
    NonexistentLocalTime,
    AmbiguousLocalTime,
    DurationOutOfRange,
    LocalTimeZoneUnavailable,
}

impl View for ScheduleError {
    type V = ScheduleFault;

    open spec fn view(&self) -> ScheduleFault {
        match self {
            ScheduleError::InvalidExpression => ScheduleFault::InvalidExpression,
            ScheduleError::PastTarget(t) => ScheduleFault::PastTarget(t@),
            ScheduleError::NonexistentLocalTime => ScheduleFault::NonexistentLocalTime,
            ScheduleError::AmbiguousLocalTime => ScheduleFault::AmbiguousLocalTime,
            ScheduleError::DurationOutOfRange => ScheduleFault::DurationOutOfRange,
            ScheduleError::LocalTimeZoneUnavailable => ScheduleFault::LocalTimeZoneUnavailable,
        }
    }
}

/// The countdown from `now` to `target`: the time between them where
/// `target` is later, otherwise `PastTarget`.
pub open spec fn countdown_between(now: ZonedView, target: ZonedView) -> Result<nat, ScheduleFault> {
    if instant(target) <= instant(now) {
        Err(ScheduleFault::PastTarget(target))
    } else {
        Ok((instant(target) - instant(now)) as nat)
    }
}

proof fn lemma_epoch_bounds()
    ensures
        -10_000_000_000_000 <= min_epoch(),
        max_epoch() <= 10_000_000_000_000,
{
    assert(days_from_epoch(MIN_YEAR as int, 1, 1) == -96_465_292);
    assert(days_from_epoch(MAX_YEAR as int, 12, 31) == 95_026_236);
}

/// The countdown from `now` to `target` (`target - now` as a `Duration`).
pub fn duration_until(now: &ZonedTime, target: &ZonedTime) -> (r: Result<Span, ScheduleError>)
    ensures
        r matches Ok(s) ==> countdown_between(now@, target@) == Ok::<nat, ScheduleFault>(s@),
        r matches Err(e) ==> countdown_between(now@, target@) == Err::<nat, ScheduleFault>(e@),
{
    proof {
        use_type_invariant(now);
        use_type_invariant(target);
        lemma_epoch_bounds();
    }
    let a = now.instant_nanos();
    let b = target.instant_nanos();
    if b <= a {
        return Err(ScheduleError::PastTarget(*target));
    }
    let delta = (b - a) as u128;
    match Span::from_nanos(delta) {
        Some(s) => Ok(s),
        None => Err(ScheduleError::DurationOutOfRange),
    }
}

/// The wall-clock time of a parsed expression, on the minute.
pub open spec fn local_of(dt: DateAndTime) -> LocalDateTime {
    LocalDateTime {
        year: dt.0,
        month: dt.1,
        day: dt.2,
        hour: dt.3,
        minute: dt.4,
        second: 0,
        nanosecond: 0,
    }
}

/// The date of `now`.
pub open spec fn today_of(now: ZonedView) -> (i32, u32, u32) {
    (now.local.year, now.local.month, now.local.day)
}

/// The instant that `input` names in the zone `zone`, read at `now`: the
/// wall-clock date and time that it names, resolved in the zone, and later
/// than `now`.
pub open spec fn direct_resolution(input: Seq<char>, now: ZonedView, zone: Seq<char>) -> Result<
    ZonedView,
    ScheduleFault,
> {
    match date_and_time(normalized(input), today_of(now)) {
        None => Err(ScheduleFault::InvalidExpression),
        Some(dt) => {
            let local = local_of(dt);
            match zone_local_offset(zone, local) {
                Some(LocalOffset::Single(off)) => {
                    let target = ZonedView {
                        local,
                        offset_secs: off,
                        epoch_secs: (local_seconds(local) - off) as i64,
                    };
                    match countdown_between(now, target) {
                        Ok(_) => Ok(target),
                        Err(e) => Err(e),
                    }
                },
                Some(LocalOffset::Missing) => Err(ScheduleFault::NonexistentLocalTime),
                Some(LocalOffset::Repeated) => Err(ScheduleFault::AmbiguousLocalTime),
                None => Err(ScheduleFault::LocalTimeZoneUnavailable),
            }
        },
    }
}

/// A resolved alarm time and the text it was read from.
#[derive(Clone, Debug)]
pub struct Candidate {
    pub source: String,
    pub target: ZonedTime,
    pub timezone: String,
}

/// What a candidate consists of.
pub struct CandidateView {
    pub source: Seq<char>,
    pub target: ZonedView,
    pub timezone: Seq<char>,
}

impl View for Candidate {
    type V = CandidateView;

    open spec fn view(&self) -> CandidateView {
        CandidateView { source: self.source@, target: self.target@, timezone: self.timezone@ }
    }
}

/// `target` as `YYYY-MM-DD hh:mm:ss ±hh:mm (zone)`.
pub open spec fn target_text(target: ZonedView, timezone: Seq<char>) -> Seq<char> {
    zoned_text(target) + " ("@ + timezone + ")"@
}

impl Candidate {
    pub fn new(source: &str, target: ZonedTime, timezone: &str) -> (r: Candidate)
        ensures
            r.source@ == source@,
            r.target@ == target@,
            r.timezone@ == timezone@,
    {
        Candidate { source: source.to_owned(), target, timezone: timezone.to_owned() }
    }

    /// The resolved time with its zone, for display.
    pub fn display_target(&self) -> (r: String)
        ensures
            r@ == target_text(self.target@, self.timezone@),
    {
        let mut out = self.target.text();
        append_chars(&mut out, &chars_of(" ("));
        append_chars(&mut out, &chars_of(self.timezone.as_str()));
        append_chars(&mut out, &chars_of(")"));
        string_of(out.as_slice())
    }
}

fn resolve_chars(input: &Vec<char>, now: &ZonedTime, zone: &Zone) -> (r: Result<ZonedTime, ScheduleError>)
    ensures
        r matches Ok(t) ==> direct_resolution(input@, now@, zone@) == Ok::<ZonedView, ScheduleFault>(t@),
        r matches Err(e) ==> direct_resolution(input@, now@, zone@) == Err::<ZonedView, ScheduleFault>(e@),
{
    proof {
        use_type_invariant(now);
    }
    let normalized = normalize_chars(input);
    let today = (now.year(), now.month(), now.day());
    let dt = match parse_date_and_time_chars(&normalized, today) {
        Some(dt) => dt,
        None => return Err(ScheduleError::InvalidExpression),
    };
    let local = LocalDateTime {
        year: dt.0,
        month: dt.1,
        day: dt.2,
        hour: dt.3,
        minute: dt.4,
        second: 0,
        nanosecond: 0,
    };
    proof {
        lemma_date_and_time_valid(normalized@, today);
    }
    match zone.local_offset(&local) {
        LocalOffset::Single(off) => {
            let target = match ZonedTime::new(local, off) {
                Some(t) => t,
                None => return Err(ScheduleError::LocalTimeZoneUnavailable),
            };
            proof {
                use_type_invariant(&target);
            }
            match duration_until(now, &target) {
                Ok(_) => Ok(target),
                Err(e) => Err(e),
            }
        },
        LocalOffset::Missing => Err(ScheduleError::NonexistentLocalTime),
        LocalOffset::Repeated => Err(ScheduleError::AmbiguousLocalTime),
    }
}

/// A parsed expression names a valid date and time.
pub proof fn lemma_date_and_time_valid(s: Seq<char>, today: (i32, u32, u32))
    requires
        valid_date(today.0 as int, today.1 as int, today.2 as int),
    ensures
        date_and_time(s, today) matches Some(dt) ==> valid_local(local_of(dt)),
{
    lemma_next_day_valid(today.0 as int, today.1 as int, today.2 as int);
    let t = if starts_with(s, "today"@) {
        without_at(s.skip("today"@.len() as int))
    } else {
        without_at(s.skip("tomorrow"@.len() as int))
    };
    let _ = clock_time(t);
}

/// The alarm time that `input` names in `zone`, read at `now`.
pub fn parse_direct_in(input: &str, now: &ZonedTime, zone: &Zone) -> (r: Result<
    Candidate,
    ScheduleError,
>)
    ensures
        r matches Ok(c) ==> {
            &&& direct_resolution(input@, now@, zone@) == Ok::<ZonedView, ScheduleFault>(c.target@)
            &&& c.source@ == trim(input@)
            &&& c.timezone@ == zone@
        },
        r matches Err(e) ==> direct_resolution(input@, now@, zone@) == Err::<ZonedView, ScheduleFault>(e@),
{
    let chars = chars_of(input);
    match resolve_chars(&chars, now, zone) {
        Ok(target) => {
            let source = trim_chars(&chars);
            Ok(
                Candidate {
                    source: string_of(source.as_slice()),
                    target,
                    timezone: zone.name(),
                },
            )
        },
        Err(e) => Err(e),
    }
}

/// The alarm time that `input` names in the system's zone, read at the clock
/// reading `clock_secs` seconds and `clock_nanos` nanoseconds after
/// 1970-01-01 00:00:00 UTC. Where the zone is found and the reading lies in
/// the supported range, the result is that of `parse_direct_in` for them.
pub fn parse_direct(input: &str, clock_secs: i64, clock_nanos: u32) -> (r: Result<
    Candidate,
    ScheduleError,
>)
    requires
        clock_nanos < 1_000_000_000,
    ensures
        r matches Ok(c) ==> exists|now: ZonedView, zone: Seq<char>|
            {
                &&& #[trigger] direct_resolution(input@, now, zone) == Ok::<ZonedView, ScheduleFault>(c.target@)
                &&& c.source@ == trim(input@)
                &&& c.timezone@ == zone
                &&& zone_is_known(zone)
                &&& instant(now) == clock_secs * 1_000_000_000 + clock_nanos
                &&& now.offset_secs == zone_utc_offset(zone, clock_secs)
                &&& valid_zoned(now)
            },
        r matches Err(e) ==> (e is LocalTimeZoneUnavailable || exists|now: ZonedView, zone: Seq<char>|
            #[trigger] direct_resolution(input@, now, zone) == Err::<ZonedView, ScheduleFault>(e@)
                && zone_is_known(zone) && instant(now) == clock_secs * 1_000_000_000 + clock_nanos
                && now.offset_secs == zone_utc_offset(zone, clock_secs) && valid_zoned(now)),
{
    let zone = match Zone::system() {
        Some(z) => z,
        None => return Err(ScheduleError::LocalTimeZoneUnavailable),
    };
    proof {
        use_type_invariant(&zone);
    }
    let now = match zone.time_at(clock_secs, clock_nanos) {
        Some(n) => n,
        None => return Err(ScheduleError::LocalTimeZoneUnavailable),
    };
    proof {
        use_type_invariant(&now);
    }
    parse_direct_in(input, &now, &zone)
}

} // verus!

verus! {

/// An expression is only ever resolved to a time later than the moment it is
/// read at: past and present times are refused.
pub proof fn law_resolved_target_is_later(input: Seq<char>, now: ZonedView, zone: Seq<char>)
    ensures
        direct_resolution(input, now, zone) matches Ok(t) ==> instant(t) > instant(now),
        direct_resolution(input, now, zone) matches Err(ScheduleFault::PastTarget(t)) ==> instant(t)
            <= instant(now),
{
}

} // verus!
