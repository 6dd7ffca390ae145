//! Moments in time, as the cache notes them down.
use vstd::prelude::*;

verus! {

/// A moment: the seconds since the start of 1970 in UTC, and the nanoseconds into
/// that second. A leap second counts as the second before it, with nanoseconds
/// beyond a thousand million.
#[derive(Debug, Clone, Copy, PartialEq, Eq, Structural)]
pub struct Moment {
    pub secs: i64,
    pub nanos: u32,
}

/// The first second of the year 0.
pub const FIRST_SECOND: i64 = -62_167_219_200;

/// The last second of the year 9999.
pub const LAST_SECOND: i64 = 253_402_300_799;

/// The first second that `chrono` knows, of the year -262143.
pub const EARLIEST: i64 = -8_334_601_228_800;

/// The last second that `chrono` knows, of the year 262142.
pub const LATEST: i64 = 8_210_266_876_799;

/// The second is of a year that is written with four digits and no sign.
pub open spec fn has_plain_year(secs: i64) -> bool {
    FIRST_SECOND <= secs <= LAST_SECOND
}

/// The moment that `chrono::DateTime::parse_from_rfc3339` reads from a text;
/// `None` where it reports an error.
pub uninterp spec fn moment_of(text: Seq<char>) -> Option<Moment>;

/// How `chrono::DateTime::to_rfc3339_opts` writes a moment in UTC, to the second.
pub uninterp spec fn stamp_of(secs: i64) -> Seq<char>;

/// `chrono::DateTime::parse_from_rfc3339`, a function of the text alone. The
/// moment is taken out of its result by `timestamp` and `timestamp_subsec_nanos`;
/// the latter stays below two thousand million.
#[verifier::external_body]
pub(crate) fn parse_moment(text: &str) -> (moment: Option<Moment>)
    ensures
        moment == moment_of(text@),
{
    let parsed = chrono::DateTime::parse_from_rfc3339(text).ok();
    parsed.map(|t| Moment { secs: t.timestamp(), nanos: t.timestamp_subsec_nanos() })
}

/// `chrono::DateTime::to_rfc3339_opts` on a moment in UTC, to the second and with
/// a final `Z`, a function of the moment alone. For the years 0 to 9999, which have
/// four digits and no sign, `parse_from_rfc3339` reads the same second back; any
/// other year it writes with a sign, which `parse_from_rfc3339` refuses.
#[verifier::external_body]
pub(crate) fn write_moment(secs: i64) -> (text: String)
    requires
        EARLIEST <= secs <= LATEST,
    ensures
        text@ == stamp_of(secs),
        moment_of(text@) == (if has_plain_year(secs) {
            Some(Moment { secs, nanos: 0 })
        } else {
            None
        }),
{
    let moment = chrono::DateTime::from_timestamp(secs, 0).unwrap_or_default();
    moment.to_rfc3339_opts(chrono::SecondsFormat::Secs, true)
}

impl Moment {
    /// How far into its day the moment is, in seconds.
    pub open spec fn second_of_day(self) -> int {
        self.secs as int % 86_400
    }

    /// The nanoseconds from `then` to this moment. A leap second that lies between
    /// the two times of day is counted.
    pub open spec fn nanos_since(self, then: Moment) -> int {
        let leap: int = if self.second_of_day() > then.second_of_day() && then.nanos
            >= 1_000_000_000 {
            1
        } else if self.second_of_day() < then.second_of_day() && self.nanos >= 1_000_000_000 {
            -1
        } else {
            0
        };
        (self.secs - then.secs + leap) * 1_000_000_000 + self.nanos - then.nanos
    }

    /// Fewer than `hours` whole hours have passed since `then`.
    pub open spec fn within_hours(self, then: Moment, hours: u32) -> bool {
        self.nanos_since(then) < hours * 3_600_000_000_000
    }

    fn clock_time(self) -> (second: i64)
        ensures
            second == self.second_of_day(),
    {
        match self.secs.checked_rem_euclid(86_400) {
            Some(second) => second,
            None => 0,
        }
    }

    /// Whether fewer than `hours` whole hours have passed since `then`.
    pub fn is_within(self, then: Moment, hours: u32) -> (r: bool)
        ensures
            r == self.within_hours(then, hours),
    {
        let mine = self.clock_time();
        let other = then.clock_time();
        let leap: i128 = if mine > other && then.nanos >= 1_000_000_000 {
            1
        } else if mine < other && self.nanos >= 1_000_000_000 {
            -1
        } else {
            0
        };
        let secs: i128 = self.secs as i128 - then.secs as i128 + leap;
        let nanos: i128 = secs * 1_000_000_000 + self.nanos as i128 - then.nanos as i128;
        nanos < hours as i128 * 3_600_000_000_000
    }
}

// ------------------------------------------------------------------ laws

/// From a moment to itself no time passes, and back as much as forth. Between moments that
/// are no leap seconds it is the seconds and nanoseconds between them; a leap second that
/// lies between counts as one.
pub proof fn law_elapsed(a: Moment, b: Moment)
    ensures
        a.nanos_since(a) == 0,
        a.nanos_since(b) == -b.nanos_since(a),
        a.nanos < 1_000_000_000 && b.nanos < 1_000_000_000 ==> a.nanos_since(b) == (a.secs
            * 1_000_000_000 + a.nanos) - (b.secs * 1_000_000_000 + b.nanos),
        a.nanos < 1_000_000_000 && b.nanos >= 1_000_000_000 && a.secs as int % 86_400
            > b.secs as int % 86_400 ==> a.nanos_since(b) == (a.secs + 1) * 1_000_000_000 + a.nanos
            - (b.secs * 1_000_000_000 + b.nanos),
{
}

/// Less than a number of hours means less than 3600 seconds for each.
pub proof fn law_within_hours(a: Moment, b: Moment, hours: u32)
    ensures
        a.within_hours(b, hours) <==> a.nanos_since(b) < hours * 3600 * 1_000_000_000,
{
}

} // verus!
