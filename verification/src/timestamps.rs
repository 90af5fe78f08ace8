//! Points in time: the clock, the calendar and RFC 3339 text.
use crate::text::{decimal_spec, long_decimal, padded, padded_spec};
use crate::value::Timestamp;
use vstd::prelude::*;

verus! {

/// Reads `std::time::SystemTime::now`, as the time since `UNIX_EPOCH` in whole
/// seconds and the nanoseconds of the current one; nothing when the clock
/// stands before 1970. The nanoseconds are always less than a second.
#[verifier::external_body]
fn system_clock() -> (r: Option<(u64, u32)>)
    ensures
        r matches Some(t) ==> t.1 < 1_000_000_000,
{
    match std::time::SystemTime::now().duration_since(std::time::UNIX_EPOCH) {
        Ok(elapsed) => Some((elapsed.as_secs(), elapsed.subsec_nanos())),
        Err(_) => None,
    }
}

/// The seconds and nanoseconds since 1970, zero for an earlier clock.
pub(crate) fn since_epoch() -> (r: (u64, u32))
    ensures
        r.1 < 1_000_000_000,
{
    match system_clock() {
        Some(t) => t,
        None => (0, 0),
    }
}

/// A number of seconds as the wire carries it: at most the largest.
pub open spec fn clamp_seconds(seconds: nat) -> i64 {
    if seconds <= i64::MAX {
        seconds as i64
    } else {
        i64::MAX
    }
}

/// The point in time that is this long after 1970.
pub fn timestamp_at(seconds: u64, nanos: u32) -> (r: Timestamp)
    requires
        nanos < 1_000_000_000,
    ensures
        r.seconds == clamp_seconds(seconds as nat),
        r.nanos == nanos,
{
    Timestamp {
        seconds: if seconds <= i64::MAX as u64 {
            seconds as i64
        } else {
            i64::MAX
        },
        nanos: nanos as i32,
    }
}

/// Whether a timestamp lies at or after 1970 with a proper fraction.
pub open spec fn is_current(t: Timestamp) -> bool {
    t.seconds >= 0 && 0 <= t.nanos < 1_000_000_000
}

/// The current time.
pub fn timestamp_now() -> (r: Timestamp)
    ensures
        is_current(r),
{
    let (seconds, nanos) = since_epoch();
    timestamp_at(seconds, nanos)
}

/// The current time in whole seconds since 1970.
pub fn unix_now() -> (r: u64) {
    since_epoch().0
}

/// The current time in whole seconds since 1970, as a signed number.
pub fn unix_now_i64() -> (r: i64)
    ensures
        r >= 0,
{
    timestamp_now().seconds
}

/// The milliseconds since 1970, at most the largest number.
pub open spec fn millis_at_spec(seconds: nat, nanos: nat) -> int {
    let exact = seconds * 1000 + nanos / 1_000_000;
    if exact <= i64::MAX {
        exact as int
    } else {
        i64::MAX as int
    }
}

/// The milliseconds since 1970 at a point in time.
pub fn millis_at(seconds: u64, nanos: u32) -> (r: i64)
    ensures
        r == millis_at_spec(seconds as nat, nanos as nat),
{
    let exact: u128 = seconds as u128 * 1000 + (nanos / 1_000_000) as u128;
    if exact <= i64::MAX as u128 {
        exact as i64
    } else {
        i64::MAX
    }
}

/// The current time in milliseconds since 1970.
pub fn now_ms() -> (r: i64)
    ensures
        r >= 0,
{
    let (seconds, nanos) = since_epoch();
    millis_at(seconds, nanos)
}

/// Writes the milliseconds since 1970 at a point in time.
pub fn millis_text(seconds: u64, nanos: u32) -> (r: String)
    ensures
        r@ == decimal_spec((seconds * 1000 + nanos / 1_000_000) as nat),
{
    long_decimal(seconds as u128 * 1000 + (nanos / 1_000_000) as u128)
}

/// The current time in milliseconds since 1970, as text.
pub fn now_millis() -> (r: String)
    ensures
        exists|millis: nat| r@ == #[trigger] decimal_spec(millis),
{
    let (seconds, nanos) = since_epoch();
    millis_text(seconds, nanos)
}

/// Whether a year has a 29th of February.
pub open spec fn is_leap(year: int) -> bool {
    year % 4 == 0 && (year % 100 != 0 || year % 400 == 0)
}

/// How many days a month has.
pub open spec fn month_length(year: int, month: int) -> int {
    if month == 2 {
        if is_leap(year) {
            29
        } else {
            28
        }
    } else if month == 4 || month == 6 || month == 9 || month == 11 {
        30
    } else {
        31
    }
}

/// Whether a date is one of the Gregorian calendar.
pub open spec fn is_date(year: int, month: int, day: int) -> bool {
    1 <= month <= 12 && 1 <= day <= month_length(year, month)
}

/// How many leap years there are from year 1 up to the year before.
pub open spec fn leaps_before(year: int) -> int {
    (year - 1) / 4 - (year - 1) / 100 + (year - 1) / 400
}

/// The days from 1970 to the first day of a year.
pub open spec fn days_before_year(year: int) -> int {
    365 * (year - 1970) + leaps_before(year) - 477
}

/// The days from the first day of a year to the first day of a month.
pub open spec fn days_before_month(year: int, month: int) -> int
    decreases month,
{
    if month <= 1 {
        0
    } else {
        days_before_month(year, month - 1) + month_length(year, month - 1)
    }
}

/// The days from 1970-01-01 to a date.
pub open spec fn day_number(year: int, month: int, day: int) -> int {
    days_before_year(year) + days_before_month(year, month) + day - 1
}

/// The calendar counts the days of 1970 from zero, and each year begins where
/// the one before ends.
pub proof fn years_follow_each_other(year: int)
    ensures
        day_number(1970, 1, 1) == 0,
        days_before_year(year + 1) == days_before_year(year) + if is_leap(year) {
            366int
        } else {
            365int
        },
{
    assert(days_before_month(1970, 1) == 0);
}

/// The days before each month of a year.
pub proof fn months_unfold(year: int)
    ensures
        days_before_month(year, 1) == 0,
        days_before_month(year, 2) == 31,
        days_before_month(year, 3) == 59 + if is_leap(year) {
            1int
        } else {
            0int
        },
        days_before_month(year, 4) == days_before_month(year, 3) + 31,
        days_before_month(year, 5) == days_before_month(year, 3) + 61,
        days_before_month(year, 6) == days_before_month(year, 3) + 92,
        days_before_month(year, 7) == days_before_month(year, 3) + 122,
        days_before_month(year, 8) == days_before_month(year, 3) + 153,
        days_before_month(year, 9) == days_before_month(year, 3) + 184,
        days_before_month(year, 10) == days_before_month(year, 3) + 214,
        days_before_month(year, 11) == days_before_month(year, 3) + 245,
        days_before_month(year, 12) == days_before_month(year, 3) + 275,
        days_before_month(year, 13) == days_before_month(year, 3) + 306,
{
    reveal_with_fuel(days_before_month, 14);
}

/// Two dates with the same number are the same.
pub proof fn day_number_tells_dates_apart(
    y1: int,
    m1: int,
    d1: int,
    y2: int,
    m2: int,
    d2: int,
)
    requires
        is_date(y1, m1, d1),
        is_date(y2, m2, d2),
        day_number(y1, m1, d1) == day_number(y2, m2, d2),
    ensures
        y1 == y2 && m1 == m2 && d1 == d2,
{
    months_unfold(y1);
    months_unfold(y2);
    years_follow_each_other(y1);
    years_follow_each_other(y2);
    if y1 < y2 {
        years_grow(y1 + 1, y2);
    } else if y2 < y1 {
        years_grow(y2 + 1, y1);
    }
}

/// Later years begin later.
pub proof fn years_grow(a: int, b: int)
    requires
        a <= b,
    ensures
        days_before_year(a) <= days_before_year(b),
    decreases b - a,
{
    if a < b {
        years_grow(a, b - 1);
        years_follow_each_other(b - 1);
    }
}

/// A date of the calendar.
#[derive(Clone, Copy, PartialEq, Eq, Debug, Structural)]
pub struct Date {
    pub year: i64,
    pub month: u8,
    pub day: u8,
}

/// The first of March of the year `400 e + 100 c + 4 q + y`.
proof fn march_first(e: int, c: int, q: int, y: int)
    requires
        0 <= c <= 3,
        0 <= q <= 24,
        0 <= y <= 3,
    ensures
        ({
            let year = 400 * e + 100 * c + 4 * q + y;
            &&& day_number(year, 3, 1) == 146_097 * e + 36_524 * c + 1_461 * q + 365 * y - 719_468
            &&& days_before_year(year + 1) == day_number(year, 3, 1) + 306
            &&& is_leap(year + 1) == (y == 3 && (q != 24 || c == 3))
        }),
{
    let year = 400 * e + 100 * c + 4 * q + y;
    months_unfold(year);
    years_follow_each_other(year);
    assert(is_leap(year) == (y == 0 && (q != 0 || c == 0)));
    if y > 0 {
        assert((year - 1) / 4 == 100 * e + 25 * c + q);
        assert((year - 1) / 100 == 4 * e + c);
        assert((year - 1) / 400 == e);
    } else if q > 0 {
        assert((year - 1) / 4 == 100 * e + 25 * c + q - 1);
        assert((year - 1) / 100 == 4 * e + c);
        assert((year - 1) / 400 == e);
    } else if c > 0 {
        assert((year - 1) / 4 == 100 * e + 25 * c - 1);
        assert((year - 1) / 100 == 4 * e + c - 1);
        assert((year - 1) / 400 == e);
    } else {
        assert((year - 1) / 4 == 100 * e - 1);
        assert((year - 1) / 100 == 4 * e - 1);
        assert((year - 1) / 400 == e - 1);
    }
}

/// The days from the first of March to the first day of the month `slot`
/// months later.
spec fn march_offset(slot: int) -> int {
    (153 * slot + 2) / 5
}

proof fn march_offsets()
    ensures
        march_offset(0) == 0,
        march_offset(1) == 31,
        march_offset(2) == 61,
        march_offset(3) == 92,
        march_offset(4) == 122,
        march_offset(5) == 153,
        march_offset(6) == 184,
        march_offset(7) == 214,
        march_offset(8) == 245,
        march_offset(9) == 275,
        march_offset(10) == 306,
        march_offset(11) == 337,
{
}

proof fn slot_of_day(of_year: int, slot: int)
    requires
        0 <= of_year <= 365,
        slot == (5 * of_year + 2) / 153,
    ensures
        0 <= slot <= 11,
        march_offset(slot) <= of_year,
        slot < 11 ==> of_year < march_offset(slot + 1),
{
}

/// Where a day lies: the 400 years, the century, the four years and the year
/// that it falls into, each beginning in March, and the day of that year.
struct Place {
    era: i64,
    century: i64,
    quad: i64,
    y: i64,
    of_year: i64,
}

fn place_of_day(days: i64) -> (r: Place)
    requires
        -200_000_000_000_000 <= days <= 200_000_000_000_000,
    ensures
        -2_000_000_000 <= r.era <= 2_000_000_000,
        0 <= r.century <= 3,
        0 <= r.quad <= 24,
        0 <= r.y <= 3,
        0 <= r.of_year <= 365,
        r.of_year == 365 ==> r.y == 3 && (r.quad != 24 || r.century == 3),
        days == 146_097 * r.era + 36_524 * r.century + 1_461 * r.quad + 365 * r.y + r.of_year
            - 719_468,
{
    let z: i64 = days + 719_468;
    let era: i64 = if z >= 0 {
        z / 146_097
    } else {
        -((-(z + 1)) / 146_097) - 1
    };
    let of_era: i64 = z - era * 146_097;
    assert(0 <= of_era < 146_097);
    let century: i64 = if of_era / 36_524 < 3 {
        of_era / 36_524
    } else {
        3
    };
    let of_century: i64 = of_era - century * 36_524;
    assert(0 <= of_century <= 36_524);
    let quad: i64 = if of_century / 1_461 < 24 {
        of_century / 1_461
    } else {
        24
    };
    let of_quad: i64 = of_century - quad * 1_461;
    assert(0 <= of_quad <= 1_460);
    let y: i64 = if of_quad / 365 < 3 {
        of_quad / 365
    } else {
        3
    };
    let of_year: i64 = of_quad - y * 365;
    Place { era, century, quad, y, of_year }
}

/// The date of a day, counted from 1970-01-01.
pub fn date_of_day(days: i64) -> (r: Date)
    requires
        -200_000_000_000_000 <= days <= 200_000_000_000_000,
    ensures
        is_date(r.year as int, r.month as int, r.day as int),
        day_number(r.year as int, r.month as int, r.day as int) == days,
        -1_000_000_000_000 <= r.year <= 1_000_000_000_000,
{
    let place = place_of_day(days);
    let year: i64 = 400 * place.era + 100 * place.century + 4 * place.quad + place.y;
    let slot: i64 = (5 * place.of_year + 2) / 153;
    proof {
        slot_of_day(place.of_year as int, slot as int);
    }
    let day: i64 = place.of_year - (153 * slot + 2) / 5 + 1;
    proof {
        march_first(
            place.era as int,
            place.century as int,
            place.quad as int,
            place.y as int,
        );
        march_offsets();
        assert(day == place.of_year - march_offset(slot as int) + 1);
    }
    if slot < 10 {
        let month: i64 = slot + 3;
        proof {
            months_unfold(year as int);
            assert(march_offset(slot as int) == days_before_month(year as int, month as int)
                - days_before_month(year as int, 3));
            assert(march_offset(slot + 1) - march_offset(slot as int) == month_length(
                year as int,
                month as int,
            ));
        }
        Date { year, month: month as u8, day: day as u8 }
    } else {
        let month: i64 = slot - 9;
        proof {
            months_unfold(year + 1);
            assert(march_offset(slot as int) - 306 == days_before_month(year + 1, month as int));
        }
        Date { year: year + 1, month: month as u8, day: day as u8 }
    }
}

/// A year with at least four characters, its sign being one of them.
pub open spec fn year_text(year: int) -> Seq<char> {
    if year < 0 {
        seq!['-'] + padded_spec((-year) as nat, 3)
    } else {
        padded_spec(year as nat, 4)
    }
}

/// A date and a time of day as RFC 3339 text in UTC.
pub open spec fn rfc3339_text(
    year: int,
    month: int,
    day: int,
    second_of_day: int,
    millis: int,
) -> Seq<char> {
    year_text(year) + "-"@ + padded_spec(month as nat, 2) + "-"@ + padded_spec(day as nat, 2)
        + "T"@ + padded_spec((second_of_day / 3600) as nat, 2) + ":"@ + padded_spec(
        (second_of_day % 3600 / 60) as nat,
        2,
    ) + ":"@ + padded_spec((second_of_day % 60) as nat, 2) + "."@ + padded_spec(millis as nat, 3)
        + "Z"@
}

/// Whether a text is the RFC 3339 form of the second `seconds` since 1970 with
/// the given milliseconds.
pub open spec fn is_rfc3339_of(text: Seq<char>, seconds: int, millis: int) -> bool {
    exists|year: int, month: int, day: int|
        #![trigger is_date(year, month, day)]
        is_date(year, month, day) && day_number(year, month, day) == seconds / 86_400 && text
            == rfc3339_text(year, month, day, seconds % 86_400, millis)
}

/// A second has one RFC 3339 form.
pub proof fn rfc3339_is_unique(a: Seq<char>, b: Seq<char>, seconds: int, millis: int)
    requires
        is_rfc3339_of(a, seconds, millis),
        is_rfc3339_of(b, seconds, millis),
    ensures
        a == b,
{
    let (y1, m1, d1) = choose|year: int, month: int, day: int|
        #![trigger is_date(year, month, day)]
        is_date(year, month, day) && day_number(year, month, day) == seconds / 86_400 && a
            == rfc3339_text(year, month, day, seconds % 86_400, millis);
    let (y2, m2, d2) = choose|year: int, month: int, day: int|
        #![trigger is_date(year, month, day)]
        is_date(year, month, day) && day_number(year, month, day) == seconds / 86_400 && b
            == rfc3339_text(year, month, day, seconds % 86_400, millis);
    day_number_tells_dates_apart(y1, m1, d1, y2, m2, d2);
}

fn write_year(year: i64) -> (r: String)
    requires
        year > i64::MIN,
    ensures
        r@ == year_text(year as int),
{
    if year < 0 {
        let mut out = String::new();
        out.push('-');
        out.append(padded((-year) as u64, 3).as_str());
        assert(out@ =~= year_text(year as int));
        out
    } else {
        padded(year as u64, 4)
    }
}

fn write_rfc3339(seconds: i64, millis: u64) -> (r: String)
    ensures
        is_rfc3339_of(r@, seconds as int, millis as int),
{
    let days: i64 = if seconds >= 0 {
        seconds / 86_400
    } else {
        -((-(seconds + 1)) / 86_400) - 1
    };
    assert(days == seconds as int / 86_400);
    let of_day: u64 = if seconds >= 0 {
        (seconds % 86_400) as u64
    } else {
        (86_399 - (-(seconds + 1)) % 86_400) as u64
    };
    assert(of_day == seconds as int % 86_400);
    let date = date_of_day(days);
    let mut out = write_year(date.year);
    out.append("-");
    out.append(padded(date.month as u64, 2).as_str());
    out.append("-");
    out.append(padded(date.day as u64, 2).as_str());
    out.append("T");
    out.append(padded(of_day / 3600, 2).as_str());
    out.append(":");
    out.append(padded(of_day % 3600 / 60, 2).as_str());
    out.append(":");
    out.append(padded(of_day % 60, 2).as_str());
    out.append(".");
    out.append(padded(millis, 3).as_str());
    out.append("Z");
    assert(is_date(date.year as int, date.month as int, date.day as int));
    assert(out@ == rfc3339_text(
        date.year as int,
        date.month as int,
        date.day as int,
        seconds as int % 86_400,
        millis as int,
    ));
    out
}

/// Writes a second since 1970 as RFC 3339 text.
pub fn timestamp_from_unix(seconds: i64) -> (r: String)
    ensures
        is_rfc3339_of(r@, seconds as int, 0),
{
    write_rfc3339(seconds, 0)
}

/// Writes a point in time as RFC 3339 text with milliseconds; what lies before
/// 1970 is written as 1970.
pub fn timestamp_rfc3339(value: &Timestamp) -> (r: String)
    ensures
        is_rfc3339_of(
            r@,
            if value.seconds > 0 {
                value.seconds as int
            } else {
                0
            },
            if value.nanos > 0 {
                value.nanos as int / 1_000_000
            } else {
                0
            },
        ),
{
    let seconds: i64 = if value.seconds > 0 {
        value.seconds
    } else {
        0
    };
    let millis: u64 = if value.nanos > 0 {
        (value.nanos / 1_000_000) as u64
    } else {
        0
    };
    write_rfc3339(seconds, millis)
}

/// The current second as RFC 3339 text.
pub fn chrono_timestamp() -> (r: String)
    ensures
        exists|seconds: int| 0 <= seconds <= i64::MAX && #[trigger] is_rfc3339_of(r@, seconds, 0),
{
    let seconds = unix_now_i64();
    timestamp_from_unix(seconds)
}

} // verus!
