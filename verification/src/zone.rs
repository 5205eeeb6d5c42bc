//! IANA time zones, through `chrono-tz` and `iana-time-zone`.
use vstd::prelude::*;
use chrono::{DateTime, Datelike, NaiveDate, Offset, TimeZone, Timelike};
use chrono_tz::Tz;
use crate::calendar::{
    instant, local_seconds, max_epoch, min_epoch, valid_local, LocalDateTime, ZonedTime, MAX_YEAR,
    MIN_YEAR,
};

verus! {

/// How a wall-clock time maps to an instant in a time zone.
#[derive(Clone, Copy, Debug, PartialEq, Eq, Structural)]
pub enum LocalOffset {
    /// The time occurs once, this many seconds ahead of UTC.
    Single(i32),
    /// The time is skipped (a daylight-saving gap).
    Missing,
    /// The time occurs twice (a daylight-saving overlap).
    Repeated,
}

/// Whether `chrono-tz` knows the zone `name` (`name.parse::<Tz>()` succeeds).
pub uninterp spec fn zone_is_known(name: Seq<char>) -> bool;

/// What `Tz::from_local_datetime` gives for `local` in the zone `name`,
/// `None` where the zone is unknown.
pub uninterp spec fn zone_local_offset(name: Seq<char>, local: LocalDateTime) -> Option<LocalOffset>;

/// `name.parse::<chrono_tz::Tz>()`: whether the zone database has `name`.
#[verifier::external_body]
fn zone_known(name: &str) -> (r: bool)
    ensures
        r == zone_is_known(name@),
{
    name.parse::<Tz>().is_ok()
}

/// `Tz::from_local_datetime` for the zone `name` and the wall-clock time
/// `local`. Claims: the result is the named function of the arguments; it is
/// `Some` exactly for a known zone; a single offset is less than a day and
/// puts the instant within `chrono`'s range (`from_local_datetime` answers
/// `None` otherwise). Which offset the zone database gives is not stated.
#[verifier::external_body]
fn local_offset_in(name: &str, local: &LocalDateTime) -> (r: Option<LocalOffset>)
    requires
        valid_local(*local),
    ensures
        r == zone_local_offset(name@, *local),
        r is Some <==> zone_is_known(name@),
        r matches Some(LocalOffset::Single(off)) ==> -86400 < off < 86400 && min_epoch()
            <= local_seconds(*local) - off <= max_epoch(),
{
    let tz: Tz = name.parse().ok()?;
    let naive = NaiveDate::from_ymd_opt(local.year, local.month, local.day)?.and_hms_nano_opt(
        local.hour,
        local.minute,
        local.second,
        local.nanosecond,
    )?;
    Some(
        match tz.from_local_datetime(&naive) {
            chrono::LocalResult::Single(t) => LocalOffset::Single(t.offset().fix().local_minus_utc()),
            chrono::LocalResult::None => LocalOffset::Missing,
            chrono::LocalResult::Ambiguous(_, _) => LocalOffset::Repeated,
        },
    )
}

/// The offset from UTC, in seconds, that the zone `name` has at the instant
/// `secs` seconds after 1970-01-01 00:00:00 UTC (`offset_from_utc_datetime`).
pub uninterp spec fn zone_utc_offset(name: Seq<char>, secs: i64) -> i32;

/// `DateTime::from_timestamp(secs, nanos)` seen in the zone `name`
/// (`with_timezone`): the wall-clock fields and the offset. Claims: the
/// result is `Some` exactly for a known zone and an instant within `chrono`'s
/// range; the offset is the zone's offset at that instant, the named function
/// of the zone and the instant, and is under a day; the nanoseconds are kept; a wall-clock
/// time whose year is within the range is a valid one that names the instant;
/// and the year is within the range where the instant is a day or more inside
/// it (at the very ends `chrono` may give the day just outside its range).
#[verifier::external_body]
fn time_in_zone(name: &str, secs: i64, nanos: u32) -> (r: Option<(LocalDateTime, i32)>)
    requires
        nanos < 1_000_000_000,
    ensures
        r is Some <==> (zone_is_known(name@) && min_epoch() <= secs <= max_epoch()),
        r matches Some((l, off)) ==> off == zone_utc_offset(name@, secs),
        r matches Some((l, off)) ==> -86400 < off < 86400 && l.nanosecond == nanos && (MIN_YEAR
            <= l.year <= MAX_YEAR ==> valid_local(l) && local_seconds(l) - off == secs) && (min_epoch()
            + 86400 <= secs <= max_epoch() - 86400 ==> MIN_YEAR <= l.year <= MAX_YEAR),
{
    let tz: Tz = name.parse().ok()?;
    let t = DateTime::from_timestamp(secs, nanos)?.with_timezone(&tz);
    let local = LocalDateTime {
        year: t.year(),
        month: t.month(),
        day: t.day(),
        hour: t.hour(),
        minute: t.minute(),
        second: t.second(),
        nanosecond: t.nanosecond(),
    };
    Some((local, t.offset().fix().local_minus_utc()))
}

/// `iana_time_zone::get_timezone()`: the system's zone name, where it can be
/// found. Nothing is claimed of the value, which depends on the machine.
#[verifier::external_body]
fn system_zone_name() -> Option<String> {
    iana_time_zone::get_timezone().ok()
}

/// An IANA time zone known to the zone database.
#[derive(Debug)]
pub struct Zone {
    name: String,
}

impl View for Zone {
    type V = Seq<char>;

    closed spec fn view(&self) -> Seq<char> {
        self.name@
    }
}

impl Zone {
    #[verifier::type_invariant]
    pub open spec fn known(self) -> bool {
        zone_is_known(self@)
    }

    /// The zone called `name`, where the zone database has it.
    pub fn named(name: &str) -> (r: Option<Zone>)
        ensures
            r matches Some(z) ==> z@ == name@,
            r is Some <==> zone_is_known(name@),
    {
        if zone_known(name) {
            Some(Zone { name: name.to_owned() })
        } else {
            None
        }
    }

    /// The system's local zone, where it can be found and is known.
    pub fn system() -> (r: Option<Zone>)
        ensures
            r matches Some(z) ==> zone_is_known(z@),
    {
        match system_zone_name() {
            Some(name) => Zone::named(name.as_str()),
            None => None,
        }
    }

    /// The zone's name, as `Display` of `Tz` writes it.
    pub fn name(&self) -> (r: String)
        ensures
            r@ == self@,
    {
        self.name.clone()
    }

    /// How the wall-clock time `local` maps to an instant in this zone.
    pub fn local_offset(&self, local: &LocalDateTime) -> (r: LocalOffset)
        requires
            valid_local(*local),
        ensures
            zone_local_offset(self@, *local) == Some(r),
            r matches LocalOffset::Single(off) ==> -86400 < off < 86400 && min_epoch()
                <= local_seconds(*local) - off <= max_epoch(),
    {
        proof {
            use_type_invariant(self);
        }
        match local_offset_in(self.name.as_str(), local) {
            Some(o) => o,
            None => LocalOffset::Missing,
        }
    }

    /// The instant `secs` seconds and `nanos` nanoseconds after
    /// 1970-01-01 00:00:00 UTC, seen in this zone: at the zone's offset for that
    /// instant, so that its wall-clock date and time are the zone's at that
    /// instant. It is `None` only where the
    /// instant or its wall-clock date falls outside the supported range.
    pub fn time_at(&self, secs: i64, nanos: u32) -> (r: Option<ZonedTime>)
        requires
            nanos < 1_000_000_000,
        ensures
            r matches Some(t) ==> instant(t@) == secs * 1_000_000_000 + nanos && t@.offset_secs
                == zone_utc_offset(self@, secs),
            r matches Some(t) ==> t@.epoch_secs == secs && local_seconds(t@.local) == secs
                + t@.offset_secs && t@.local.nanosecond == nanos,
            min_epoch() + 86400 <= secs <= max_epoch() - 86400 ==> r is Some,
    {
        proof {
            use_type_invariant(self);
        }
        match time_in_zone(self.name.as_str(), secs, nanos) {
            Some((local, offset)) => match ZonedTime::new(local, offset) {
                Some(t) => {
                    proof {
                        use_type_invariant(&t);
                    }
                    Some(t)
                },
                None => None,
            },
            None => None,
        }
    }
}

} // verus!
