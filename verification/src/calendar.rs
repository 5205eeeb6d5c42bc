//! Proleptic Gregorian dates, wall-clock times and zoned date-times.
use vstd::prelude::*;
use crate::text::{append_chars, decimal, decimal2, push_decimal, push_decimal2};


verus! {

/// The first year a date can have (`chrono`'s range).
pub const MIN_YEAR: i32 = -262143;

/// The last year a date can have (`chrono`'s range).
pub const MAX_YEAR: i32 = 262142;

pub open spec fn is_leap_year(y: int) -> bool {
    y % 4 == 0 && (y % 100 != 0 || y % 400 == 0)
}

pub open spec fn days_in_month(y: int, m: int) -> int {
    if m == 2 {
        if is_leap_year(y) {
            29
        } else {
            28
        }
    } else if m == 4 || m == 6 || m == 9 || m == 11 {
        30
    } else {
        31
    }
}

/// Whether `y-m-d` is a date of the calendar within the supported years
/// (`NaiveDate::from_ymd_opt` returns `Some`).
pub open spec fn valid_date(y: int, m: int, d: int) -> bool {
    &&& MIN_YEAR <= y <= MAX_YEAR
    &&& 1 <= m <= 12
    &&& 1 <= d <= days_in_month(y, m)
}

/// The day after `y-m-d` (`NaiveDate::succ_opt`): `None` after the last
/// supported date.
pub open spec fn next_day(y: int, m: int, d: int) -> Option<(int, int, int)> {
    if d < days_in_month(y, m) {
        Some((y, m, d + 1))
    } else if m < 12 {
        Some((y, m + 1, 1))
    } else if y < MAX_YEAR {
        Some((y + 1, 1, 1))
    } else {
        None
    }
}

/// Days from 0000-01-01 to `y`-01-01.
pub open spec fn days_before_year(y: int) -> int {
    365 * y + (y + 3) / 4 - (y + 99) / 100 + (y + 399) / 400
}

/// Days from `y`-01-01 to `y`-`m`-01.
pub open spec fn days_before_month(y: int, m: int) -> int {
    let base: int = if m == 1 {
        0
    } else if m == 2 {
        31
    } else if m == 3 {
        59
    } else if m == 4 {
        90
    } else if m == 5 {
        120
    } else if m == 6 {
        151
    } else if m == 7 {
        181
    } else if m == 8 {
        212
    } else if m == 9 {
        243
    } else if m == 10 {
        273
    } else if m == 11 {
        304
    } else {
        334
    };
    if m > 2 && is_leap_year(y) {
        base + 1
    } else {
        base
    }
}

/// Days from 1970-01-01 to `y-m-d`.
pub open spec fn days_from_epoch(y: int, m: int, d: int) -> int {
    days_before_year(y) - days_before_year(1970) + days_before_month(y, m) + d - 1
}

pub fn leap_year(y: i32) -> (b: bool)
    ensures
        b == is_leap_year(y as int),
{
    // `%` of Rust and of specifications agree on whether the remainder is zero
    let a = y % 4 == 0;
    let b = y % 100 != 0;
    let c = y % 400 == 0;
    proof {
        assert((y as int) % 4 == 0 <==> (y % 4 == 0)) by (nonlinear_arith);
        assert((y as int) % 100 == 0 <==> (y % 100 == 0)) by (nonlinear_arith);
        assert((y as int) % 400 == 0 <==> (y % 400 == 0)) by (nonlinear_arith);
    }
    a && (b || c)
}

pub fn month_length(y: i32, m: u32) -> (r: u32)
    ensures
        r == days_in_month(y as int, m as int),
{
    if m == 2 {
        if leap_year(y) {
            29
        } else {
            28
        }
    } else if m == 4 || m == 6 || m == 9 || m == 11 {
        30
    } else {
        31
    }
}

pub fn date_is_valid(y: i32, m: u32, d: u32) -> (b: bool)
    ensures
        b == valid_date(y as int, m as int, d as int),
{
    MIN_YEAR <= y && y <= MAX_YEAR && 1 <= m && m <= 12 && 1 <= d && d <= month_length(y, m)
}

pub fn following_day(y: i32, m: u32, d: u32) -> (r: Option<(i32, u32, u32)>)
    requires
        valid_date(y as int, m as int, d as int),
    ensures
        r matches Some((y2, m2, d2)) ==> next_day(y as int, m as int, d as int) == Some(
            (y2 as int, m2 as int, d2 as int),
        ),
        r is None ==> next_day(y as int, m as int, d as int) is None,
{
    if d < month_length(y, m) {
        Some((y, m, d + 1))
    } else if m < 12 {
        Some((y, m + 1, 1))
    } else if y < MAX_YEAR {
        Some((y + 1, 1, 1))
    } else {
        None
    }
}

pub proof fn lemma_next_day_valid(y: int, m: int, d: int)
    requires
        valid_date(y, m, d),
    ensures
        next_day(y, m, d) matches Some((y2, m2, d2)) ==> valid_date(y2, m2, d2),
{
}

fn month_offset(m: u32) -> (r: u64)
    requires
        1 <= m <= 12,
    ensures
        r == days_before_month(0, m as int) - (if m > 2 {
            1int
        } else {
            0
        }),
{
    if m == 1 {
        0
    } else if m == 2 {
        31
    } else if m == 3 {
        59
    } else if m == 4 {
        90
    } else if m == 5 {
        120
    } else if m == 6 {
        151
    } else if m == 7 {
        181
    } else if m == 8 {
        212
    } else if m == 9 {
        243
    } else if m == 10 {
        273
    } else if m == 11 {
        304
    } else {
        334
    }
}

pub fn epoch_days(y: i32, m: u32, d: u32) -> (r: i64)
    requires
        valid_date(y as int, m as int, d as int),
    ensures
        r == days_from_epoch(y as int, m as int, d as int),
{
    let yy: u64 = (y as i64 + 400_000) as u64;
    let before_year: u64 = 365 * yy + (yy + 3) / 4 - (yy + 99) / 100 + (yy + 399) / 400;
    proof {
        let yi = y as int;
        assert(days_before_year(yi + 400_000) == days_before_year(yi) + 146_097_000);
        assert(before_year == days_before_year(yi + 400_000));
    }
    let mut before_month: u64 = month_offset(m);
    if m > 2 && leap_year(y) {
        before_month = before_month + 1;
    }
    let days: i64 = (before_year as i64) - 146_097_000 - 719_528 + (before_month as i64) + (d as i64)
        - 1;
    proof {
        assert(days_before_year(1970) == 719_528);
        assert(before_month == days_before_month(y as int, m as int));
    }
    days
}

} // verus!

verus! {

/// A calendar date and wall-clock time.
#[derive(Clone, Copy, Debug, PartialEq, Eq, Structural)]
pub struct LocalDateTime {
    pub year: i32,
    pub month: u32,
    pub day: u32,
    pub hour: u32,
    pub minute: u32,
    pub second: u32,
    pub nanosecond: u32,
}

pub open spec fn valid_local(t: LocalDateTime) -> bool {
    &&& valid_date(t.year as int, t.month as int, t.day as int)
    &&& t.hour < 24
    &&& t.minute < 60
    &&& t.second < 60
    &&& t.nanosecond < 1_000_000_000
}

/// Seconds from 1970-01-01 00:00:00 to `t`, read as a UTC time.
pub open spec fn local_seconds(t: LocalDateTime) -> int {
    days_from_epoch(t.year as int, t.month as int, t.day as int) * 86400 + t.hour * 3600
        + t.minute * 60 + t.second
}

/// The first second of the supported range, -262143-01-01 00:00:00 UTC.
pub open spec fn min_epoch() -> int {
    days_from_epoch(MIN_YEAR as int, 1, 1) * 86400
}

/// The last second of the supported range, 262142-12-31 23:59:59 UTC.
pub open spec fn max_epoch() -> int {
    days_from_epoch(MAX_YEAR as int, 12, 31) * 86400 + 86399
}

/// What a zoned date-time consists of.
#[derive(Clone, Copy, Debug, PartialEq, Eq, Structural)]
pub struct ZonedView {
    /// The wall-clock date and time.
    pub local: LocalDateTime,
    /// Seconds by which the wall clock is ahead of UTC.
    pub offset_secs: i32,
    /// Seconds from 1970-01-01 00:00:00 UTC, ignoring the fraction.
    pub epoch_secs: i64,
}

pub open spec fn valid_zoned(v: ZonedView) -> bool {
    &&& valid_local(v.local)
    &&& -86400 < v.offset_secs < 86400
    &&& v.epoch_secs == local_seconds(v.local) - v.offset_secs
    &&& min_epoch() <= v.epoch_secs <= max_epoch()
}

/// The instant that `v` names, in nanoseconds since 1970-01-01 00:00:00 UTC.
pub open spec fn instant(v: ZonedView) -> int {
    v.epoch_secs * 1_000_000_000 + v.local.nanosecond
}

/// A date-time with a fixed offset from UTC (`DateTime<FixedOffset>`).
#[derive(Clone, Copy, Debug)]
pub struct ZonedTime {
    local: LocalDateTime,
    offset_secs: i32,
    epoch_secs: i64,
}

impl View for ZonedTime {
    type V = ZonedView;

    closed spec fn view(&self) -> ZonedView {
        ZonedView { local: self.local, offset_secs: self.offset_secs, epoch_secs: self.epoch_secs }
    }
}

/// Seconds from 1970-01-01 00:00:00 to `t`, read as a UTC time.
pub fn local_seconds_exec(t: &LocalDateTime) -> (r: i64)
    requires
        valid_local(*t),
    ensures
        r == local_seconds(*t),
{
    let days = epoch_days(t.year, t.month, t.day);
    days * 86400 + (t.hour as i64) * 3600 + (t.minute as i64) * 60 + (t.second as i64)
}

impl ZonedTime {
    #[verifier::type_invariant]
    pub open spec fn well_formed(self) -> bool {
        valid_zoned(self@)
    }

    /// The wall-clock time `local` at `offset_secs` ahead of UTC; `None` where
    /// `local` is no valid date and time, the offset is a day or more, or the
    /// instant falls outside the supported range.
    pub fn new(local: LocalDateTime, offset_secs: i32) -> (r: Option<ZonedTime>)
        ensures
            r matches Some(z) ==> z@.local == local && z@.offset_secs == offset_secs,
            r is Some <==> (valid_local(local) && -86400 < offset_secs < 86400 && min_epoch()
                <= local_seconds(local) - offset_secs <= max_epoch()),
    {
        if !(date_is_valid(local.year, local.month, local.day) && local.hour < 24 && local.minute
            < 60 && local.second < 60 && local.nanosecond < 1_000_000_000) {
            return None;
        }
        if !(-86400 < offset_secs && offset_secs < 86400) {
            return None;
        }
        let epoch = local_seconds_exec(&local) - (offset_secs as i64);
        let lo = epoch_days(MIN_YEAR, 1, 1) * 86400;
        let hi = epoch_days(MAX_YEAR, 12, 31) * 86400 + 86399;
        if epoch < lo || epoch > hi {
            return None;
        }
        Some(ZonedTime { local, offset_secs, epoch_secs: epoch })
    }

    pub fn local(&self) -> (r: LocalDateTime)
        ensures
            r == self@.local,
    {
        self.local
    }

    pub fn year(&self) -> (r: i32)
        ensures
            r == self@.local.year,
    {
        self.local.year
    }

    pub fn month(&self) -> (r: u32)
        ensures
            r == self@.local.month,
    {
        self.local.month
    }

    pub fn day(&self) -> (r: u32)
        ensures
            r == self@.local.day,
    {
        self.local.day
    }

    pub fn hour(&self) -> (r: u32)
        ensures
            r == self@.local.hour,
    {
        self.local.hour
    }

    pub fn minute(&self) -> (r: u32)
        ensures
            r == self@.local.minute,
    {
        self.local.minute
    }

    pub fn second(&self) -> (r: u32)
        ensures
            r == self@.local.second,
    {
        self.local.second
    }

    pub fn nanosecond(&self) -> (r: u32)
        ensures
            r == self@.local.nanosecond,
    {
        self.local.nanosecond
    }

    pub fn offset_secs(&self) -> (r: i32)
        ensures
            r == self@.offset_secs,
    {
        self.offset_secs
    }

    /// Seconds since 1970-01-01 00:00:00 UTC (`DateTime::timestamp`).
    pub fn timestamp(&self) -> (r: i64)
        ensures
            r == self@.epoch_secs,
    {
        self.epoch_secs
    }

    /// Nanoseconds since 1970-01-01 00:00:00 UTC.
    pub fn instant_nanos(&self) -> (r: i128)
        ensures
            r == instant(self@),
    {
        proof {
            use_type_invariant(self);
        }
        (self.epoch_secs as i128) * 1_000_000_000 + (self.local.nanosecond as i128)
    }

    /// Whether `self` and `other` name the same instant (`==` of `DateTime`).
    pub fn same_instant(&self, other: &ZonedTime) -> (r: bool)
        ensures
            r == (instant(self@) == instant(other@)),
    {
        self.instant_nanos() == other.instant_nanos()
    }

    /// Whether `self` is earlier than `other` (`<` of `DateTime`).
    pub fn is_before(&self, other: &ZonedTime) -> (r: bool)
        ensures
            r == (instant(self@) < instant(other@)),
    {
        self.instant_nanos() < other.instant_nanos()
    }
}

// ---------------------------------------------------------------------------
// Display, as `format("%Y-%m-%d %H:%M:%S %:z")` writes it
// ---------------------------------------------------------------------------

/// `n` in decimal, padded with zeros to at least `width` digits.
pub open spec fn zero_padded(n: nat, width: nat) -> Seq<char> {
    let digits = decimal(n);
    if digits.len() < width {
        Seq::new((width - digits.len()) as nat, |i: int| '0') + digits
    } else {
        digits
    }
}

/// `%Y`: four digits for the years 0 to 9999, otherwise a sign and at least
/// four digits.
pub open spec fn year_text(y: int) -> Seq<char> {
    if 0 <= y <= 9999 {
        zero_padded(y as nat, 4)
    } else if y < 0 {
        seq!['-'] + zero_padded((-y) as nat, 4)
    } else {
        seq!['+'] + zero_padded(y as nat, 4)
    }
}

/// `%:z`: the offset rounded to whole minutes, as `+hh:mm` or `-hh:mm`.
pub open spec fn offset_text(off: int) -> Seq<char> {
    let sign = if off < 0 {
        '-'
    } else {
        '+'
    };
    let a = if off < 0 {
        -off
    } else {
        off
    };
    let minutes = (a + 30) / 60;
    seq![sign] + decimal2((minutes / 60) as nat) + seq![':'] + decimal2((minutes % 60) as nat)
}

pub open spec fn zoned_text(v: ZonedView) -> Seq<char> {
    year_text(v.local.year as int) + seq!['-'] + decimal2(v.local.month as nat) + seq!['-']
        + decimal2(v.local.day as nat) + seq![' '] + decimal2(v.local.hour as nat) + seq![':']
        + decimal2(v.local.minute as nat) + seq![':'] + decimal2(v.local.second as nat) + seq![' ']
        + offset_text(v.offset_secs as int)
}

/// Appends `n` padded with zeros to at least `width` digits.
pub fn push_zero_padded(out: &mut Vec<char>, n: u64, width: usize)
    ensures
        final(out)@ == old(out)@ + zero_padded(n as nat, width as nat),
{
    let mut digits: Vec<char> = Vec::new();
    push_decimal(&mut digits, n);
    assert(digits@ =~= decimal(n as nat));
    if digits.len() < width {
        let ghost before = out@;
        let mut k: usize = 0;
        let fill = width - digits.len();
        while k < fill
            invariant
                k <= fill,
                out@ == before + Seq::new(k as nat, |i: int| '0'),
            decreases fill - k,
        {
            out.push('0');
            k += 1;
            assert(out@ =~= before + Seq::new(k as nat, |i: int| '0'));
        }
        append_chars(out, &digits);
        assert(out@ =~= old(out)@ + zero_padded(n as nat, width as nat));
    } else {
        append_chars(out, &digits);
    }
}

pub fn push_year(out: &mut Vec<char>, y: i32)
    ensures
        final(out)@ == old(out)@ + year_text(y as int),
{
    if 0 <= y && y <= 9999 {
        push_zero_padded(out, y as u64, 4);
    } else if y < 0 {
        out.push('-');
        let a: u64 = (-(y as i64)) as u64;
        push_zero_padded(out, a, 4);
        assert(out@ =~= old(out)@ + year_text(y as int));
    } else {
        out.push('+');
        push_zero_padded(out, y as u64, 4);
        assert(out@ =~= old(out)@ + year_text(y as int));
    }
}

pub fn push_offset(out: &mut Vec<char>, off: i32)
    ensures
        final(out)@ == old(out)@ + offset_text(off as int),
{
    let sign = if off < 0 {
        '-'
    } else {
        '+'
    };
    let a: u64 = if off < 0 {
        (-(off as i64)) as u64
    } else {
        off as u64
    };
    let minutes = (a + 30) / 60;
    out.push(sign);
    push_decimal2(out, minutes / 60);
    out.push(':');
    push_decimal2(out, minutes % 60);
    assert(out@ =~= old(out)@ + offset_text(off as int));
}

impl ZonedTime {
    /// The text `YYYY-MM-DD hh:mm:ss ±hh:mm`.
    pub fn text(&self) -> (r: Vec<char>)
        ensures
            r@ == zoned_text(self@),
    {
        let mut out: Vec<char> = Vec::new();
        push_year(&mut out, self.local.year);
        out.push('-');
        push_decimal2(&mut out, self.local.month as u64);
        out.push('-');
        push_decimal2(&mut out, self.local.day as u64);
        out.push(' ');
        push_decimal2(&mut out, self.local.hour as u64);
        out.push(':');
        push_decimal2(&mut out, self.local.minute as u64);
        out.push(':');
        push_decimal2(&mut out, self.local.second as u64);
        out.push(' ');
        push_offset(&mut out, self.offset_secs);
        assert(out@ =~= zoned_text(self@));
        out
    }
}

} // verus!

verus! {

proof fn lemma_year_length(y: int)
    ensures
        days_before_year(y + 1) - days_before_year(y) == if is_leap_year(y) {
            366int
        } else {
            365int
        },
{
    assert((y + 4) / 4 - (y + 3) / 4 == if y % 4 == 0 {
        1int
    } else {
        0int
    }) by (nonlinear_arith);
    assert((y + 100) / 100 - (y + 99) / 100 == if y % 100 == 0 {
        1int
    } else {
        0int
    }) by (nonlinear_arith);
    assert((y + 400) / 400 - (y + 399) / 400 == if y % 400 == 0 {
        1int
    } else {
        0int
    }) by (nonlinear_arith);
    assert(y % 400 == 0 ==> y % 100 == 0 && y % 4 == 0) by (nonlinear_arith);
    assert(y % 100 == 0 ==> y % 4 == 0) by (nonlinear_arith);
}

/// Day numbers follow the calendar: the day after a date is numbered one
/// more, across the ends of months and years alike.
pub proof fn law_next_day_is_one_day_later(y: int, m: int, d: int)
    requires
        valid_date(y, m, d),
    ensures
        next_day(y, m, d) matches Some((y2, m2, d2)) ==> days_from_epoch(y2, m2, d2)
            == days_from_epoch(y, m, d) + 1,
{
    if d == days_in_month(y, m) && m == 12 {
        lemma_year_length(y);
    }
}

/// Day numbers count from 1970-01-01, which is day zero.
pub proof fn law_epoch_is_day_zero()
    ensures
        days_from_epoch(1970, 1, 1) == 0,
{
}

} // verus!
