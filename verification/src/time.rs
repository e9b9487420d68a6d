//! Points in time, as the sessions and the store record them.

use vstd::prelude::*;

verus! {

/// The first second that a timestamp can name: the year -262143 begins.
pub const MIN_SECS: i64 = -8_334_601_228_800;

/// The last second that a timestamp can name: the year 262142 ends.
pub const MAX_SECS: i64 = 8_210_266_876_799;

/// The first second of the year 0.
pub const YEAR_0_SECS: i64 = -62_167_219_200;

/// The last second of the year 9999.
pub const YEAR_9999_SECS: i64 = 253_402_300_799;

/// A point in time, in UTC.
///
/// `secs` counts the seconds since 1970. `nanos` counts the nanoseconds since
/// that second began; from one billion on it lies in the leap second that
/// follows it.
#[derive(Debug, Clone, Copy, PartialEq, Eq, Structural)]
pub struct Timestamp {
    pub secs: i64,
    pub nanos: u32,
}

impl Timestamp {
    /// The calendar holds this moment, and leap seconds only end a minute.
    pub open spec fn wf(self) -> bool {
        &&& MIN_SECS <= self.secs <= MAX_SECS
        &&& self.nanos < 2_000_000_000
        &&& self.nanos >= 1_000_000_000 ==> self.secs % 60 == 59
    }

    /// A moment that the clock can show: since 1970, and in no leap second.
    pub open spec fn is_clock_reading(self) -> bool {
        &&& self.wf()
        &&& 0 <= self.secs
        &&& self.nanos < 1_000_000_000
    }

    /// This moment comes before the other.
    pub open spec fn is_before(self, other: Timestamp) -> bool {
        self.secs < other.secs || (self.secs == other.secs && self.nanos < other.nanos)
    }

    /// The year is written with four digits.
    pub open spec fn has_four_digit_year(self) -> bool {
        YEAR_0_SECS <= self.secs <= YEAR_9999_SECS
    }

    /// The moment with the given numbers, if the calendar holds it.
    pub fn new(secs: i64, nanos: u32) -> (moment: Option<Timestamp>)
        ensures
            moment is Some <==> (Timestamp { secs, nanos }).wf(),
            moment matches Some(t) ==> t.secs == secs && t.nanos == nanos,
    {
        if secs < MIN_SECS || MAX_SECS < secs || nanos >= 2_000_000_000 {
            return None;
        }
        if nanos >= 1_000_000_000 {
            let from_start: i64 = secs - MIN_SECS;
            if from_start % 60 != 59 {
                return None;
            }
        }
        Some(Timestamp { secs, nanos })
    }

    /// Whether the calendar holds this moment.
    pub fn is_valid(self) -> (answer: bool)
        ensures
            answer == self.wf(),
    {
        Timestamp::new(self.secs, self.nanos).is_some()
    }

    /// Whether this moment comes before the other.
    pub fn before(self, other: Timestamp) -> (answer: bool)
        ensures
            answer == self.is_before(other),
    {
        self.secs < other.secs || (self.secs == other.secs && self.nanos < other.nanos)
    }
}

/// The seconds of the moment `hours` hours before `t`. Counting back from
/// within a leap second starts at the second that follows it.
pub open spec fn secs_hours_before(t: Timestamp, hours: int) -> int {
    if t.nanos >= 1_000_000_000 && hours > 0 {
        t.secs + 1 - 3600 * hours
    } else {
        t.secs - 3600 * hours
    }
}

/// The nanoseconds of the moment `hours` hours before `t`. A moment in a leap
/// second stays in it only if it does not move.
pub open spec fn nanos_hours_before(t: Timestamp, hours: int) -> int {
    if t.nanos >= 1_000_000_000 && hours != 0 {
        t.nanos - 1_000_000_000
    } else {
        t.nanos as int
    }
}

/// The calendar holds the moment `hours` hours before `t`.
pub open spec fn in_calendar_hours_before(t: Timestamp, hours: int) -> bool {
    MIN_SECS <= secs_hours_before(t, hours) <= MAX_SECS
}

/// The clock, read through `chrono::Utc::now`.
///
/// What it shows is not stated, only that it is a moment since 1970 that the
/// calendar holds and that lies in no leap second.
#[verifier::external_body]
pub(crate) fn utc_now() -> (now: Timestamp)
    ensures
        now.is_clock_reading(),
{
    let now = chrono::Utc::now();
    Timestamp { secs: now.timestamp(), nanos: now.timestamp_subsec_nanos() }
}

/// The moment `hours` hours before `t`, through `DateTime::checked_sub_signed`
/// of `chrono` with a `TimeDelta::try_hours`.
///
/// There is none exactly where it would lie outside of the calendar. An hour
/// has 3600 seconds; where `t` lies in a leap second, the count starts from the
/// second after it when it goes back, and from the one before when it goes on.
#[verifier::external_body]
pub(crate) fn hours_before(t: Timestamp, hours: i64) -> (moment: Option<Timestamp>)
    requires
        t.wf(),
    ensures
        moment is Some <==> in_calendar_hours_before(t, hours as int),
        moment matches Some(m) ==> m.wf() && m.secs == secs_hours_before(t, hours as int)
            && m.nanos == nanos_hours_before(t, hours as int),
{
    let from = chrono::DateTime::from_timestamp(t.secs, t.nanos)?;
    let to = from.checked_sub_signed(chrono::TimeDelta::try_hours(hours)?)?;
    Some(Timestamp { secs: to.timestamp(), nanos: to.timestamp_subsec_nanos() })
}

/// The text that `DateTime::to_rfc3339` of `chrono` gives for a moment in UTC.
pub uninterp spec fn rfc3339_text(secs: i64, nanos: u32) -> Seq<char>;

/// The moment in UTC that `DateTime::parse_from_rfc3339` of `chrono` reads in a
/// text, if it reads one.
pub uninterp spec fn rfc3339_moment(text: Seq<char>) -> Option<(i64, u32)>;

/// A moment as text, through `DateTime::to_rfc3339` of `chrono`.
///
/// The text is named `rfc3339_text`. `chrono` reads it back as the same moment
/// where the year has four digits, and does not read it elsewhere: such a year
/// is written with a sign.
#[verifier::external_body]
pub(crate) fn to_rfc3339(t: Timestamp) -> (text: String)
    requires
        t.wf(),
    ensures
        text@ == rfc3339_text(t.secs, t.nanos),
        rfc3339_moment(text@) == if t.has_four_digit_year() {
            Some((t.secs, t.nanos))
        } else {
            None
        },
{
    chrono::DateTime::from_timestamp(t.secs, t.nanos).unwrap().to_rfc3339()
}

/// The moment that a text names, through `DateTime::parse_from_rfc3339` of
/// `chrono` and a change of the time zone to UTC.
///
/// The result is named `rfc3339_moment`; the calendar holds it.
#[verifier::external_body]
pub(crate) fn from_rfc3339(text: &str) -> (moment: Option<Timestamp>)
    ensures
        moment is Some <==> rfc3339_moment(text@) is Some,
        moment matches Some(t) ==> t.wf() && rfc3339_moment(text@) == Some((t.secs, t.nanos)),
{
    let read = chrono::DateTime::parse_from_rfc3339(text).ok()?;
    let utc = read.with_timezone(&chrono::Utc);
    Some(Timestamp { secs: utc.timestamp(), nanos: utc.timestamp_subsec_nanos() })
}

/// The moment that a text names, or the given one where it names none.
pub fn moment_or(text: &str, otherwise: Timestamp) -> (moment: Timestamp)
    ensures
        match rfc3339_moment(text@) {
            Some((secs, nanos)) => moment == (Timestamp { secs, nanos }),
            None => moment == otherwise,
        },
        otherwise.wf() ==> moment.wf(),
{
    match from_rfc3339(text) {
        Some(t) => t,
        None => otherwise,
    }
}

/// The first moment of the calendar.
pub open spec fn first_moment() -> Timestamp {
    Timestamp { secs: MIN_SECS, nanos: 0 }
}

/// The moment `age_hours` hours before `now`, or the first of the calendar
/// where it does not reach back that far. What came before it is older than
/// `age_hours`.
pub open spec fn cutoff_of(now: Timestamp, age_hours: u64) -> Timestamp {
    if in_calendar_hours_before(now, age_hours as int) {
        Timestamp {
            secs: secs_hours_before(now, age_hours as int) as i64,
            nanos: nanos_hours_before(now, age_hours as int) as u32,
        }
    } else {
        first_moment()
    }
}

/// The moment before which a turn is older than `age_hours`.
pub fn archive_cutoff(now: Timestamp, age_hours: u64) -> (cutoff: Timestamp)
    requires
        now.wf(),
    ensures
        cutoff == cutoff_of(now, age_hours),
        cutoff.wf(),
{
    let first = Timestamp { secs: MIN_SECS, nanos: 0 };
    if age_hours > i64::MAX as u64 {
        return first;
    }
    match hours_before(now, age_hours as i64) {
        Some(cutoff) => cutoff,
        None => first,
    }
}

} // verus!
