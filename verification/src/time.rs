//! Points in time and spans of time.
use chrono::{DateTime, Utc};
use vstd::prelude::*;

verus! {

/// Nanoseconds in a second.
pub const NANOS_PER_SECOND: i128 = 1_000_000_000;

/// A point in time: seconds since the Unix epoch and nanoseconds on top. A point within a
/// leap second belongs to the second before it, with a second's worth of nanoseconds or
/// more.
#[derive(Clone, Copy, Debug, PartialEq, Eq, Structural)]
pub struct Timestamp {
    pub secs: i64,
    pub nanos: u32,
}

/// A number of nanoseconds in whole seconds, rounded towards zero.
pub open spec fn whole_seconds(nanos: int) -> int {
    if nanos >= 0 {
        nanos / 1_000_000_000
    } else {
        -((-nanos) / 1_000_000_000)
    }
}

/// A number of seconds from a setting, read as a signed 64-bit number.
pub open spec fn signed_seconds(secs: u64) -> int {
    if secs <= i64::MAX {
        secs as int
    } else {
        secs - 0x1_0000_0000_0000_0000
    }
}

/// A signed 64-bit number of seconds, read as an unsigned one.
pub open spec fn unsigned_seconds(secs: i64) -> int {
    if secs >= 0 {
        secs as int
    } else {
        secs + 0x1_0000_0000_0000_0000
    }
}

impl Timestamp {
    /// Nanoseconds since the Unix epoch, those of a leap second added on top.
    pub open spec fn value(self) -> int {
        self.secs * 1_000_000_000 + self.nanos
    }

    /// Whether the point lies in a leap second.
    pub open spec fn in_leap(self) -> bool {
        self.nanos >= 1_000_000_000
    }

    /// Whether `self` is an earlier point than `other`: by the second, then by the
    /// nanoseconds, so that a leap second comes before the second that follows it.
    pub open spec fn before(self, other: Timestamp) -> bool {
        self.secs < other.secs || (self.secs == other.secs && self.nanos < other.nanos)
    }

    /// The second of the day.
    pub open spec fn second_of_day(self) -> int {
        self.secs as int % 86_400
    }

    /// Nanoseconds from `earlier` to this point. A leap second at the one end counts where
    /// the time of day at the other lies beyond it.
    pub open spec fn span(self, earlier: Timestamp) -> int {
        let leap: int = if earlier.in_leap() && self.second_of_day() > earlier.second_of_day() {
            1
        } else if self.in_leap() && self.second_of_day() < earlier.second_of_day() {
            -1
        } else {
            0
        };
        self.value() - earlier.value() + leap * 1_000_000_000
    }

    /// Whole seconds from `earlier` to this point, rounded towards zero.
    pub open spec fn elapsed(self, earlier: Timestamp) -> int {
        whole_seconds(self.span(earlier))
    }

    /// The second that a point comes to lie in when it is moved by `secs`. A point in a
    /// leap second that is moved back starts from the second that follows.
    pub open spec fn moved_second(self, secs: int) -> int {
        if self.in_leap() && secs < 0 {
            self.secs + 1 + secs
        } else {
            self.secs + secs
        }
    }

    /// The nanoseconds of a point that is moved by `secs`.
    pub open spec fn moved_nanos(self, secs: int) -> int {
        if self.in_leap() && secs != 0 {
            self.nanos - 1_000_000_000
        } else {
            self.nanos as int
        }
    }

    /// Whether the point lies more than `window` seconds before `now`.
    pub open spec fn outdated(self, now: Timestamp, window: int) -> bool {
        let second = now.moved_second(-window);
        self.secs < second || (self.secs == second && self.nanos < now.moved_nanos(-window))
    }

    /// The point `secs` seconds later, or the last one that can be told.
    pub open spec fn later(self, secs: i64) -> Timestamp {
        let at = self.moved_second(secs as int);
        Timestamp {
            secs: if at > i64::MAX {
                i64::MAX
            } else if at < i64::MIN {
                i64::MIN
            } else {
                at as i64
            },
            nanos: self.moved_nanos(secs as int) as u32,
        }
    }

    /// The number of the day in UTC, counted from the epoch.
    pub open spec fn day_number(self) -> i64 {
        (self.secs as int / 86_400) as i64
    }

    /// Nanoseconds since the epoch where they fit 64 bits, else zero.
    pub open spec fn line_nanos(self) -> int {
        if i64::MIN <= self.value() <= i64::MAX {
            self.value()
        } else {
            0
        }
    }

    fn nanoseconds(self) -> (r: i128)
        ensures
            r == self.value(),
            -10_000_000_000_000_000_000_000_000_000 < r < 10_000_000_000_000_000_000_000_000_000,
    {
        (self.secs as i128) * NANOS_PER_SECOND + (self.nanos as i128)
    }

    /// Whether the point lies more than `window` seconds before `now`.
    pub fn is_outdated(self, now: Timestamp, window: i64) -> (r: bool)
        ensures
            r == self.outdated(now, window as int),
    {
        let mut second: i128 = (now.secs as i128) - (window as i128);
        let mut nanos: u32 = now.nanos;
        if now.nanos >= 1_000_000_000 && window != 0 {
            nanos = nanos - 1_000_000_000;
            if window > 0 {
                second = second + 1;
            }
        }
        (self.secs as i128) < second || (self.secs as i128 == second && self.nanos < nanos)
    }

    /// Whether `self` is an earlier point than `other`.
    pub fn is_before(self, other: Timestamp) -> (r: bool)
        ensures
            r == self.before(other),
    {
        self.secs < other.secs || (self.secs == other.secs && self.nanos < other.nanos)
    }

    fn day_second(self) -> (r: i64)
        ensures
            r == self.second_of_day(),
    {
        if self.secs >= 0 {
            self.secs % DAY
        } else {
            DAY - 1 - (-1 - self.secs) % DAY
        }
    }

    fn nanos_since(self, earlier: Timestamp) -> (r: i128)
        ensures
            r == self.span(earlier),
            -30_000_000_000_000_000_000_000_000_000 < r < 30_000_000_000_000_000_000_000_000_000,
    {
        let difference: i128 = self.nanoseconds() - earlier.nanoseconds();
        let here: i64 = self.day_second();
        let there: i64 = earlier.day_second();
        if earlier.nanos >= 1_000_000_000 && here > there {
            difference + NANOS_PER_SECOND
        } else if self.nanos >= 1_000_000_000 && here < there {
            difference - NANOS_PER_SECOND
        } else {
            difference
        }
    }

    /// Whole seconds from `earlier` to this point, rounded towards zero.
    pub fn seconds_since(self, earlier: Timestamp) -> (r: i128)
        ensures
            r == self.elapsed(earlier),
            -100_000_000_000_000_000_000 < r < 100_000_000_000_000_000_000,
    {
        let span: i128 = self.nanos_since(earlier);
        if span >= 0 {
            span / NANOS_PER_SECOND
        } else {
            0 - (0 - span) / NANOS_PER_SECOND
        }
    }

    /// Whether at least `secs` seconds lie between `earlier` and this point.
    pub fn is_past(self, earlier: Timestamp, secs: i64) -> (r: bool)
        ensures
            r == (self.span(earlier) >= secs * 1_000_000_000),
    {
        self.nanos_since(earlier) >= (secs as i128) * NANOS_PER_SECOND
    }

    /// The point `secs` seconds later.
    pub fn plus_seconds(self, secs: i64) -> (r: Timestamp)
        ensures
            r == self.later(secs),
    {
        let mut at: i128 = (self.secs as i128) + (secs as i128);
        let mut nanos: u32 = self.nanos;
        if self.nanos >= 1_000_000_000 && secs != 0 {
            nanos = nanos - 1_000_000_000;
            if secs < 0 {
                at = at + 1;
            }
        }
        let held: i64 = if at > i64::MAX as i128 {
            i64::MAX
        } else if at < i64::MIN as i128 {
            i64::MIN
        } else {
            at as i64
        };
        Timestamp { secs: held, nanos }
    }

    /// The number of the day in UTC, counted from the epoch.
    pub fn day(self) -> (r: i64)
        ensures
            r == self.day_number(),
    {
        if self.secs >= 0 {
            self.secs / DAY
        } else {
            let before: i64 = (-1 - self.secs) / DAY;
            -1 - before
        }
    }

    /// Nanoseconds since the epoch where they fit 64 bits, else zero.
    pub fn nanos_or_zero(self) -> (r: i64)
        ensures
            r == self.line_nanos(),
    {
        let n: i128 = self.nanoseconds();
        if n < i64::MIN as i128 || n > i64::MAX as i128 {
            0
        } else {
            n as i64
        }
    }

    /// Seconds since the epoch, as an unsigned number.
    pub fn epoch(self) -> (r: u64)
        ensures
            r == unsigned_seconds(self.secs),
    {
        if self.secs >= 0 {
            self.secs as u64
        } else {
            ((self.secs as i128) + 0x1_0000_0000_0000_0000) as u64
        }
    }
}

/// Reads a number of seconds from a setting as a signed 64-bit number.
pub fn signed(secs: u64) -> (r: i64)
    ensures
        r == signed_seconds(secs),
{
    if secs <= i64::MAX as u64 {
        secs as i64
    } else {
        ((secs as i128) - 0x1_0000_0000_0000_0000) as i64
    }
}

/// The first second that `chrono` can tell: the start of the year -262143.
pub const FIRST_SECOND: i64 = -8_334_601_228_800;

/// The last second that `chrono` can tell: the end of the year 262142.
pub const LAST_SECOND: i64 = 8_210_266_876_799;

/// Seconds and nanoseconds of `Utc::now`. The clock decides which; the point is
/// one that `chrono` can tell.
#[verifier::external_body]
fn read_clock() -> (r: (i64, u32))
    ensures
        FIRST_SECOND <= r.0 <= LAST_SECOND,
        r.1 < 2_000_000_000,
{
    let now = Utc::now();
    (now.timestamp(), now.timestamp_subsec_nanos())
}

/// What parsing a text as a `DateTime<Utc>` gives: seconds since the epoch and
/// nanoseconds; `None` where the text is no point in time.
pub uninterp spec fn parsed_instant(text: Seq<char>) -> Option<(i64, u32)>;

/// Parses a `DateTime<Utc>` through `FromStr` and drops the error. The claim is
/// only that the result is determined by the characters of the text.
#[verifier::external_body]
fn read_instant(text: &str) -> (r: Option<(i64, u32)>)
    ensures
        r == parsed_instant(text@),
{
    let parsed = text.parse::<DateTime<Utc>>();
    parsed.ok().map(|t| (t.timestamp(), t.timestamp_subsec_nanos()))
}

/// Calls `DateTime::from_timestamp` with no nanoseconds: it gives back the same
/// second where `chrono` can tell it, and nothing otherwise.
#[verifier::external_body]
fn read_epoch(secs: i64) -> (r: Option<(i64, u32)>)
    ensures
        r == if FIRST_SECOND <= secs <= LAST_SECOND { Some((secs, 0u32)) } else { None },
{
    DateTime::<Utc>::from_timestamp(secs, 0).map(|t| (t.timestamp(), t.timestamp_subsec_nanos()))
}

/// The calendar date of a second since the epoch in UTC, written `%Y-%m-%d` by
/// `chrono`.
pub uninterp spec fn civil_date(secs: i64) -> Seq<char>;

/// Takes the date of `DateTime::from_timestamp` and writes it through
/// `NaiveDate::format`; seconds that `chrono` cannot tell are left out. The claim
/// is only that the text is determined by the second.
#[verifier::external_body]
fn write_date(secs: i64) -> (r: String)
    requires
        FIRST_SECOND <= secs <= LAST_SECOND,
    ensures
        r@ == civil_date(secs),
{
    let t = DateTime::<Utc>::from_timestamp(secs, 0).unwrap();
    t.date_naive().format("%Y-%m-%d").to_string()
}

/// The present moment. Which one that is, the clock decides: nothing is said of it but
/// that `chrono` can tell it, and that its nanoseconds run over a second at most by a
/// leap second.
pub fn utc_now() -> (r: Timestamp)
    ensures
        FIRST_SECOND <= r.secs <= LAST_SECOND,
        r.nanos < 2_000_000_000,
{
    let (secs, nanos) = read_clock();
    Timestamp { secs, nanos }
}

/// The moment a text names, if it names one.
pub open spec fn instant_of(text: Seq<char>) -> Option<Timestamp> {
    match parsed_instant(text) {
        Some((secs, nanos)) => Some(Timestamp { secs, nanos }),
        None => None,
    }
}

/// Reads a moment from a text.
pub fn parse_timestamp(text: &str) -> (r: Option<Timestamp>)
    ensures
        r == instant_of(text@),
{
    match read_instant(text) {
        Some((secs, nanos)) => Some(Timestamp { secs, nanos }),
        None => None,
    }
}

/// The moment a number of seconds after the epoch, where `chrono` can tell it.
pub fn from_epoch(secs: i64) -> (r: Option<Timestamp>)
    ensures
        r == if FIRST_SECOND <= secs <= LAST_SECOND {
            Some(Timestamp { secs, nanos: 0 })
        } else {
            None
        },
{
    match read_epoch(secs) {
        Some((secs, nanos)) => Some(Timestamp { secs, nanos }),
        None => None,
    }
}

/// Seconds in a day.
pub const DAY: i64 = 86_400;

/// The calendar dates of yesterday and today, seen from a moment; `None` where
/// one of them is out of the calendar's range.
pub fn last_two_dates(now: Timestamp) -> (r: Option<(String, String)>)
    ensures
        r is Some <==> FIRST_SECOND + DAY <= now.secs <= LAST_SECOND,
        r matches Some(dates) ==> dates.0@ == civil_date((now.secs - DAY) as i64) && dates.1@
            == civil_date(now.secs),
{
    if now.secs < FIRST_SECOND + DAY || now.secs > LAST_SECOND {
        return None;
    }
    Some((write_date(now.secs - DAY), write_date(now.secs)))
}

/// Of two points one comes before the other, or they are the same; no point comes before
/// itself, and what comes before an earlier point comes before a later one. Outside of leap
/// seconds the order is that of the nanoseconds since the epoch.
pub proof fn law_points_come_in_order(a: Timestamp, b: Timestamp, c: Timestamp)
    ensures
        a.before(b) || b.before(a) || a == b,
        a.before(b) ==> !b.before(a) && a != b,
        a.before(b) && b.before(c) ==> a.before(c),
        !a.in_leap() && !b.in_leap() ==> (a.before(b) <==> a.value() < b.value()),
{
}

/// Outside of leap seconds the time between two points is the difference of their
/// nanoseconds since the epoch; in seconds it loses what is below a second.
pub proof fn law_elapsed_time_is_a_difference(earlier: Timestamp, now: Timestamp)
    requires
        !earlier.in_leap(),
        !now.in_leap(),
    ensures
        now.span(earlier) == now.value() - earlier.value(),
        earlier.value() <= now.value() ==> now.elapsed(earlier) * 1_000_000_000 <= now.value()
            - earlier.value() < (now.elapsed(earlier) + 1) * 1_000_000_000,
        now.elapsed(earlier) == -earlier.elapsed(now),
{
}

/// A point that is moved by some seconds lies that many seconds away, and moving it back
/// brings it to where it was.
pub proof fn law_moved_points_lie_that_far_away(at: Timestamp, secs: i64)
    requires
        !at.in_leap(),
        i64::MIN <= at.secs + secs <= i64::MAX,
        secs > i64::MIN,
    ensures
        at.later(secs).value() == at.value() + secs * 1_000_000_000,
        at.later(secs).elapsed(at) == secs,
        at.later(secs).later((-secs) as i64) == at,
{
}

/// A point is outdated where it lies more than the window before now, to the nanosecond.
pub proof fn law_outdated_is_beyond_the_window(at: Timestamp, now: Timestamp, window: int)
    requires
        !at.in_leap(),
        !now.in_leap(),
    ensures
        at.outdated(now, window) <==> at.value() < now.value() - window * 1_000_000_000,
{
}

/// A day has its own seconds: those from its start up to the start of the next.
pub proof fn law_days_have_their_seconds(at: Timestamp)
    ensures
        at.day_number() * 86_400 <= at.secs < (at.day_number() + 1) * 86_400,
        at.second_of_day() == at.secs - at.day_number() * 86_400,
{
}

/// A leap second comes after the second before it and before the one after it, and counts as
/// a second on the way from the one to the other within a day.
pub proof fn law_leap_seconds_lie_between(at: Timestamp, before: Timestamp, after: Timestamp)
    requires
        1_000_000_000 <= at.nanos < 2_000_000_000,
        before.secs == at.secs,
        before.nanos == at.nanos - 1_000_000_000,
        after.secs == at.secs + 1,
        after.nanos == before.nanos,
        at.second_of_day() < 86_399,
    ensures
        before.before(at),
        at.before(after),
        at.elapsed(before) == 1,
        after.elapsed(at) == 1,
{
    assert(after.second_of_day() == at.second_of_day() + 1);
}

/// A setting of so many seconds means that many.
pub proof fn law_seconds_are_taken_as_they_are(secs: u64)
    requires
        secs <= i64::MAX,
    ensures
        signed_seconds(secs) == secs,
        unsigned_seconds(secs as i64) == secs,
{
}

/// A line is stamped to the nanosecond, or with zero where the nanoseconds since the epoch
/// do not fit 64 bits.
pub proof fn law_lines_are_stamped_to_the_nanosecond(at: Timestamp)
    ensures
        ({
            let nanos = at.secs * 1_000_000_000 + at.nanos;
            &&& i64::MIN <= nanos <= i64::MAX ==> at.line_nanos() == nanos
            &&& nanos > i64::MAX || nanos < i64::MIN ==> at.line_nanos() == 0
        }),
{
}

/// A point in a leap second that is moved leaves it, forward from the second that it
/// lengthens and back from the one that follows; one that is not moved stays.
pub proof fn law_points_leave_leap_seconds(at: Timestamp, secs: i64)
    requires
        1_000_000_000 <= at.nanos < 2_000_000_000,
        i64::MIN <= at.secs + secs < i64::MAX,
    ensures
        secs == 0 ==> at.later(secs) == at,
        secs > 0 ==> at.later(secs).value() == at.value() - 1_000_000_000 + secs * 1_000_000_000,
        secs < 0 ==> at.later(secs).value() == at.value() + secs * 1_000_000_000,
        secs != 0 ==> !at.later(secs).in_leap(),
{
}

} // verus!
