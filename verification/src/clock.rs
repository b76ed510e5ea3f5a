//! Instants on the UTC time line, and the calendar arithmetic that the rules need.
use vstd::prelude::*;

verus! {

pub const SECS_PER_DAY: i64 = 86_400;

pub const NANOS_PER_SEC: u32 = 1_000_000_000;

/// The first second that chrono's `DateTime<Utc>` can hold.
pub const MIN_SECS: i64 = -8_334_601_228_800;

/// The last second that chrono's `DateTime<Utc>` can hold.
pub const MAX_SECS: i64 = 8_210_266_876_799;

/// An instant: whole seconds since 1970-01-01T00:00:00Z, and nanoseconds within the second.
#[derive(Clone, Copy, Debug, PartialEq, Eq, Structural)]
pub struct Timestamp {
    pub secs: i64,
    pub nanos: u32,
}

/// `a / b` rounded toward zero, for a positive `b`.
pub open spec fn truncated_div(a: int, b: int) -> int {
    if a >= 0 {
        a / b
    } else {
        -((-a) / b)
    }
}

/// The weekday of a day counted from 1970-01-01 (a Thursday); Sunday is 0.
pub open spec fn weekday_of_day(day: int) -> int {
    (day + 4) % 7
}

impl Timestamp {
    /// Whether the instant lies in the calendar's range, with a fraction below one second.
    pub open spec fn valid(self) -> bool {
        MIN_SECS <= self.secs <= MAX_SECS && self.nanos < NANOS_PER_SEC
    }

    /// Nanoseconds since 1970-01-01T00:00:00Z.
    pub open spec fn instant(self) -> int {
        self.secs * 1_000_000_000 + self.nanos
    }

    /// The day that holds the instant, counted from 1970-01-01.
    pub open spec fn day(self) -> int {
        self.secs as int / 86_400
    }

    /// The weekday; Sunday is 0.
    pub open spec fn weekday(self) -> int {
        weekday_of_day(self.day())
    }

    /// Minutes since midnight.
    pub open spec fn minute_of_day(self) -> int {
        (self.secs as int % 86_400) / 60
    }

    /// Whole seconds from `earlier` to `self`, rounded toward zero.
    pub open spec fn secs_since(self, earlier: Timestamp) -> int {
        truncated_div(self.instant() - earlier.instant(), 1_000_000_000)
    }

    /// Whole minutes from `earlier` to `self`, rounded toward zero.
    pub open spec fn mins_since(self, earlier: Timestamp) -> int {
        truncated_div(self.secs_since(earlier), 60)
    }

    /// Whole days from `earlier` to `self`, rounded toward zero.
    pub open spec fn days_since(self, earlier: Timestamp) -> int {
        truncated_div(self.secs_since(earlier), 86_400)
    }

    /// Whether `self` comes before `other` on the time line.
    pub open spec fn precedes(self, other: Timestamp) -> bool {
        self.secs < other.secs || (self.secs == other.secs && self.nanos < other.nanos)
    }

    /// Whether `self` comes before `other` on the time line.
    pub fn earlier_than(self, other: Timestamp) -> (b: bool)
        ensures
            b == self.precedes(other),
    {
        self.secs < other.secs || (self.secs == other.secs && self.nanos < other.nanos)
    }

    /// The instant `seconds` later.
    pub open spec fn later_by(self, seconds: int) -> Timestamp {
        Timestamp { secs: (self.secs + seconds) as i64, nanos: self.nanos }
    }

    /// The instant `seconds` later.
    pub fn plus_seconds(self, seconds: i64) -> (t: Timestamp)
        requires
            i64::MIN <= self.secs + seconds <= i64::MAX,
        ensures
            t == self.later_by(seconds as int),
    {
        Timestamp { secs: self.secs + seconds, nanos: self.nanos }
    }

    /// Whole seconds from `earlier` to `self`, rounded toward zero.
    pub fn seconds_since(self, earlier: Timestamp) -> (s: i64)
        requires
            self.valid(),
            earlier.valid(),
        ensures
            s == self.secs_since(earlier),
            -20_000_000_000_000 < s < 20_000_000_000_000,
    {
        let d: i64 = self.secs - earlier.secs;
        if d > 0 && self.nanos < earlier.nanos {
            d - 1
        } else if d < 0 && self.nanos > earlier.nanos {
            d + 1
        } else {
            d
        }
    }

    /// The day that holds the instant, counted from 1970-01-01.
    pub fn day_number(self) -> (d: i64)
        ensures
            d == self.day(),
    {
        floor_div(self.secs, SECS_PER_DAY)
    }

    /// The weekday; Sunday is 0.
    pub fn days_from_sunday(self) -> (w: u32)
        ensures
            w == self.weekday(),
            w < 7,
    {
        weekday(self.day_number())
    }

    /// Minutes since midnight.
    pub fn minutes_from_midnight(self) -> (m: u32)
        requires
            self.valid(),
        ensures
            m == self.minute_of_day(),
            m < 1440,
    {
        let day: i64 = self.day_number();
        let rest: i64 = self.secs - day * SECS_PER_DAY;
        (rest / 60) as u32
    }
}

/// `a / b` rounded down, for a positive `b`.
pub fn floor_div(a: i64, b: i64) -> (q: i64)
    requires
        b > 1,
    ensures
        q == a as int / b as int,
        q * b <= a < q * b + b,
        -5_000_000_000_000_000_000 < q < 5_000_000_000_000_000_000,
{
    let q: i64 = a / b;
    proof {
        let (ai, bi) = (a as int, b as int);
        if ai >= 0 {
            assert(q == ai / bi);
            vstd::arithmetic::div_mod::lemma_fundamental_div_mod(ai, bi);
            vstd::arithmetic::div_mod::lemma_div_is_ordered_by_denominator(ai, 2, bi);
            vstd::arithmetic::div_mod::lemma_div_pos_is_pos(ai, bi);
        } else {
            let p = (-ai) / bi;
            assert(q == -p);
            vstd::arithmetic::div_mod::lemma_fundamental_div_mod(-ai, bi);
            vstd::arithmetic::div_mod::lemma_fundamental_div_mod(ai, bi);
            vstd::arithmetic::div_mod::lemma_div_is_ordered_by_denominator(-ai, 2, bi);
            vstd::arithmetic::div_mod::lemma_div_pos_is_pos(-ai, bi);
            assert(bi * (-p) == -(bi * p)) by (nonlinear_arith);
            assert((-ai) == bi * p + (-ai) % bi);
            assert(0 <= (-ai) % bi < bi);
            if (-ai) % bi == 0 {
                assert(ai == (-p) * bi + 0) by (nonlinear_arith)
                    requires
                        (-ai) == bi * p + 0,
                ;
                vstd::arithmetic::div_mod::lemma_fundamental_div_mod_converse(ai, bi, -p, 0);
            } else {
                assert(ai == (-p - 1) * bi + (bi - (-ai) % bi)) by (nonlinear_arith)
                    requires
                        (-ai) == bi * p + (-ai) % bi,
                ;
                vstd::arithmetic::div_mod::lemma_fundamental_div_mod_converse(
                    ai,
                    bi,
                    -p - 1,
                    bi - (-ai) % bi,
                );
            }
        }
    }
    assert(q as int * b as int == b as int * q as int) by (nonlinear_arith);
    if a < 0 && q * b != a {
        q - 1
    } else {
        q
    }
}

/// The weekday of a day counted from 1970-01-01; Sunday is 0.
pub fn weekday(day: i64) -> (w: u32)
    requires
        day < i64::MAX - 4,
    ensures
        w == weekday_of_day(day as int),
        w < 7,
{
    let shifted: i64 = day + 4;
    let week: i64 = floor_div(shifted, 7);
    (shifted - week * 7) as u32
}

// ---------------------------------------------------------------------------------------------
// RFC 3339

/// The first second of year 0, in seconds since 1970.
pub const YEAR_ZERO: i64 = -62_167_219_200;

/// The last second of year 9999, in seconds since 1970.
pub const YEAR_9999: i64 = 253_402_300_799;

/// What chrono's `DateTime::<Utc>::to_rfc3339` writes for the instant of whole seconds and
/// nanoseconds since 1970.
pub uninterp spec fn rfc3339_written(secs: i64, nanos: u32) -> Seq<char>;

/// The whole seconds and nanoseconds since 1970 of the instant that chrono's
/// `DateTime::parse_from_rfc3339` reads in a text; `None` where it reports an error.
pub uninterp spec fn rfc3339_read(text: Seq<char>) -> Option<(i64, u32)>;

/// chrono's `DateTime::<Utc>::to_rfc3339`, a function of the instant. It writes the nanoseconds in
/// full, so within the years of four digits that RFC 3339 knows, what it writes is read back as
/// the same instant.
#[verifier::external_body]
pub(crate) fn write_rfc3339(t: Timestamp) -> (s: String)
    requires
        t.valid(),
    ensures
        s@ == rfc3339_written(t.secs, t.nanos),
        YEAR_ZERO <= t.secs <= YEAR_9999 ==> rfc3339_read(s@) == Some((t.secs, t.nanos)),
{
    chrono::DateTime::<chrono::Utc>::from_timestamp(t.secs, t.nanos).unwrap().to_rfc3339()
}

/// chrono's `DateTime::parse_from_rfc3339`, a function of the text: the instant, or that the text
/// holds none.
#[verifier::external_body]
fn read_rfc3339(text: &str) -> (r: Option<(i64, u32)>)
    ensures
        r == rfc3339_read(text@),
{
    match chrono::DateTime::parse_from_rfc3339(text) {
        Ok(t) => Some((t.timestamp(), t.timestamp_subsec_nanos())),
        Err(_) => None,
    }
}

/// The instant that a text reads as.
pub open spec fn rfc3339_time(text: Seq<char>) -> Option<Timestamp> {
    match rfc3339_read(text) {
        Some((secs, nanos)) => Some(Timestamp { secs, nanos }),
        None => None,
    }
}

/// The instant that an RFC 3339 text names; `None` where it is malformed.
pub fn parse_rfc3339(value: &str) -> (r: Option<Timestamp>)
    ensures
        r == rfc3339_time(value@),
{
    match read_rfc3339(value) {
        Some((secs, nanos)) => Some(Timestamp { secs, nanos }),
        None => None,
    }
}

// ---------------------------------------------------------------------------------------------
// Laws

/// Weekdays follow one another, Saturday is followed by Sunday, and 1970-01-01 was a Thursday.
pub proof fn law_weekdays_follow_one_another(day: int)
    ensures
        weekday_of_day(0) == 4,
        0 <= weekday_of_day(day) < 7,
        weekday_of_day(day) < 6 ==> weekday_of_day(day + 1) == weekday_of_day(day) + 1,
        weekday_of_day(day) == 6 ==> weekday_of_day(day + 1) == 0,
{
}

/// An instant lies in its day, and in its minute of the day.
pub proof fn law_instant_lies_in_its_minute(t: Timestamp)
    requires
        t.nanos < 1_000_000_000,
    ensures
        0 <= t.minute_of_day() < 1440,
        t.weekday() == weekday_of_day(t.day()),
        (t.day() * 1440 + t.minute_of_day()) * 60 * 1_000_000_000 <= t.instant() < (t.day() * 1440
            + t.minute_of_day() + 1) * 60 * 1_000_000_000,
{
}

/// One instant precedes another exactly where it lies before it on the time line.
pub proof fn law_instants_are_ordered(a: Timestamp, b: Timestamp)
    requires
        a.nanos < 1_000_000_000,
        b.nanos < 1_000_000_000,
    ensures
        a.precedes(b) <==> a.instant() < b.instant(),
        a.instant() == b.instant() ==> a == b,
{
}

/// The seconds between two instants are those that fit between them, and have a sign; minutes and
/// days are whole ones of these.
pub proof fn law_whole_seconds_between(a: Timestamp, b: Timestamp)
    ensures
        a.instant() <= b.instant() ==> b.secs_since(a) * 1_000_000_000 <= b.instant() - a.instant()
            < (b.secs_since(a) + 1) * 1_000_000_000,
        a.secs_since(b) == -b.secs_since(a),
        b.secs_since(a) >= 0 ==> b.mins_since(a) * 60 <= b.secs_since(a) < (b.mins_since(a) + 1)
            * 60,
        b.secs_since(a) >= 0 ==> b.days_since(a) * 86_400 <= b.secs_since(a) < (b.days_since(a) + 1)
            * 86_400,
        a.mins_since(b) == -b.mins_since(a),
        a.days_since(b) == -b.days_since(a),
{
}

/// A later instant lies as many seconds later.
pub proof fn law_later_instants(t: Timestamp, seconds: int)
    requires
        i64::MIN <= t.secs + seconds <= i64::MAX,
    ensures
        t.later_by(seconds).instant() == t.instant() + seconds * 1_000_000_000,
{
}

/// Every second of the calendar, the first and the last among them, is valid with a fraction below
/// one second, and with no other; a second before the first or after the last is not.
pub proof fn law_calendar_has_both_its_ends(t: Timestamp)
    ensures
        t.secs == MIN_SECS || t.secs == MAX_SECS ==> (t.valid() <==> t.nanos < 1_000_000_000),
        t.secs < MIN_SECS || t.secs > MAX_SECS ==> !t.valid(),
        t.nanos >= 1_000_000_000 ==> !t.valid(),
{
}

} // verus!
