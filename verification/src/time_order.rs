//! The order of points in time and that of their texts agree.
use crate::text::{decimal_spec, digit_char, padded_spec, text_less};
use crate::timestamps::{
    day_number, day_number_tells_dates_apart, is_date, is_rfc3339_of, months_unfold, rfc3339_text,
    years_follow_each_other, years_grow,
};
use vstd::prelude::*;

verus! {

proof fn two_digits(n: nat)
    requires
        n < 100,
    ensures
        padded_spec(n, 2) == seq![digit_char(n as int / 10), digit_char(n as int % 10)],
{
    reveal_with_fuel(decimal_spec, 3);
    assert(padded_spec(n, 2) =~= seq![digit_char(n as int / 10), digit_char(n as int % 10)]);
}

proof fn three_digits(n: nat)
    requires
        n < 1000,
    ensures
        padded_spec(n, 3).len() == 3,
{
    reveal_with_fuel(decimal_spec, 4);
}

proof fn four_digits(n: nat)
    requires
        n < 10_000,
    ensures
        padded_spec(n, 4) == seq![
            digit_char(n as int / 1000),
            digit_char(n as int / 100 % 10),
            digit_char(n as int / 10 % 10),
            digit_char(n as int % 10),
        ],
{
    reveal_with_fuel(decimal_spec, 5);
    assert(padded_spec(n, 4) =~= seq![
        digit_char(n as int / 1000),
        digit_char(n as int / 100 % 10),
        digit_char(n as int / 10 % 10),
        digit_char(n as int % 10),
    ]);
}

proof fn less_at(a: Seq<char>, b: Seq<char>, k: int)
    requires
        0 <= k < a.len(),
        k < b.len(),
        forall|i: int| 0 <= i < k ==> #[trigger] a[i] == b[i],
        a[k] < b[k],
    ensures
        text_less(a, b),
    decreases k,
{
    if k > 0 {
        assert(a[0] == b[0]);
        assert forall|i: int| 0 <= i < k - 1 implies #[trigger] a.drop_first()[i]
            == b.drop_first()[i] by {
            assert(a[i + 1] == b[i + 1]);
        }
        less_at(a.drop_first(), b.drop_first(), k - 1);
    }
}

/// Whether a text begins with the digits of a point in time.
pub open spec fn reads(
    text: Seq<char>,
    year: int,
    month: int,
    day: int,
    hour: int,
    minute: int,
    second: int,
) -> bool {
    &&& text.len() == 24
    &&& text[0] == digit_char(year / 1000)
    &&& text[1] == digit_char(year / 100 % 10)
    &&& text[2] == digit_char(year / 10 % 10)
    &&& text[3] == digit_char(year % 10)
    &&& text[4] == '-'
    &&& text[5] == digit_char(month / 10)
    &&& text[6] == digit_char(month % 10)
    &&& text[7] == '-'
    &&& text[8] == digit_char(day / 10)
    &&& text[9] == digit_char(day % 10)
    &&& text[10] == 'T'
    &&& text[11] == digit_char(hour / 10)
    &&& text[12] == digit_char(hour % 10)
    &&& text[13] == ':'
    &&& text[14] == digit_char(minute / 10)
    &&& text[15] == digit_char(minute % 10)
    &&& text[16] == ':'
    &&& text[17] == digit_char(second / 10)
    &&& text[18] == digit_char(second % 10)
}

/// The text of a point in time of a year of four digits.
proof fn rfc3339_digits(year: int, month: int, day: int, second_of_day: int, millis: int)
    requires
        0 <= year < 10_000,
        1 <= month <= 12,
        1 <= day <= 31,
        0 <= second_of_day < 86_400,
        0 <= millis < 1000,
    ensures
        reads(
            rfc3339_text(year, month, day, second_of_day, millis),
            year,
            month,
            day,
            second_of_day / 3600,
            second_of_day % 3600 / 60,
            second_of_day % 60,
        ),
{
    reveal_strlit("-");
    reveal_strlit("T");
    reveal_strlit(":");
    reveal_strlit(".");
    reveal_strlit("Z");
    four_digits(year as nat);
    two_digits(month as nat);
    two_digits(day as nat);
    two_digits((second_of_day / 3600) as nat);
    two_digits((second_of_day % 3600 / 60) as nat);
    two_digits((second_of_day % 60) as nat);
    three_digits(millis as nat);
}

proof fn years_of_four_digits(year: int, month: int, day: int)
    requires
        is_date(year, month, day),
        -719_528 <= day_number(year, month, day) <= 2_932_896,
    ensures
        0 <= year < 10_000,
{
    months_unfold(year);
    years_follow_each_other(year);
    if year < 0 {
        years_grow(year + 1, 0);
    } else if year >= 10_000 {
        years_grow(10_000, year);
    }
}

/// A later day has a later year, or a later month of the same year, or a later
/// day of the same month.
pub proof fn later_days_have_later_dates(y1: int, m1: int, d1: int, y2: int, m2: int, d2: int)
    requires
        is_date(y1, m1, d1),
        is_date(y2, m2, d2),
        day_number(y1, m1, d1) < day_number(y2, m2, d2),
    ensures
        y1 < y2 || (y1 == y2 && (m1 < m2 || (m1 == m2 && d1 < d2))),
{
    months_unfold(y1);
    months_unfold(y2);
    years_follow_each_other(y2);
    if y1 > y2 {
        years_grow(y2 + 1, y1);
    }
}

proof fn digit_less(d: int, e: int)
    requires
        0 <= d < e <= 9,
    ensures
        digit_char(d) < digit_char(e),
{
}

/// A larger number of two digits is greater at its first digit that differs.
proof fn two_digits_differ(a: Seq<char>, b: Seq<char>, k: int, x: int, y: int)
    requires
        0 <= k,
        k + 1 < a.len(),
        k + 1 < b.len(),
        0 <= x < y < 100,
        a[k] == digit_char(x / 10) && a[k + 1] == digit_char(x % 10),
        b[k] == digit_char(y / 10) && b[k + 1] == digit_char(y % 10),
        forall|i: int| 0 <= i < k ==> #[trigger] a[i] == b[i],
    ensures
        text_less(a, b),
{
    if x / 10 < y / 10 {
        digit_less(x / 10, y / 10);
        less_at(a, b, k);
    } else {
        assert(x / 10 == y / 10);
        digit_less(x % 10, y % 10);
        less_at(a, b, k + 1);
    }
}

proof fn last_digit(x: int)
    requires
        0 <= x,
    ensures
        x == 10 * (x / 10) + x % 10,
        0 <= x % 10 <= 9,
        0 <= x / 10,
{
}

proof fn digits_of(x: int)
    requires
        0 <= x < 10_000,
    ensures
        x == 1000 * (x / 1000) + 100 * (x / 100 % 10) + 10 * (x / 10 % 10) + x % 10,
        0 <= x / 1000 <= 9,
        0 <= x / 100 % 10 <= 9,
        0 <= x / 10 % 10 <= 9,
        0 <= x % 10 <= 9,
{
    vstd::arithmetic::div_mod::lemma_div_denominator(x, 10, 10);
    vstd::arithmetic::div_mod::lemma_div_denominator(x, 100, 10);
    last_digit(x);
    last_digit(x / 10);
    last_digit(x / 100);
}

proof fn first_difference(
    a: Seq<char>,
    b: Seq<char>,
    x: (int, int, int, int),
    y: (int, int, int, int),
)
    requires
        4 <= a.len(),
        4 <= b.len(),
        0 <= x.0 <= 9 && 0 <= x.1 <= 9 && 0 <= x.2 <= 9 && 0 <= x.3 <= 9,
        0 <= y.0 <= 9 && 0 <= y.1 <= 9 && 0 <= y.2 <= 9 && 0 <= y.3 <= 9,
        1000 * x.0 + 100 * x.1 + 10 * x.2 + x.3 < 1000 * y.0 + 100 * y.1 + 10 * y.2 + y.3,
        a[0] == digit_char(x.0) && a[1] == digit_char(x.1) && a[2] == digit_char(x.2) && a[3]
            == digit_char(x.3),
        b[0] == digit_char(y.0) && b[1] == digit_char(y.1) && b[2] == digit_char(y.2) && b[3]
            == digit_char(y.3),
    ensures
        text_less(a, b),
{
    if x.0 < y.0 {
        digit_less(x.0, y.0);
        less_at(a, b, 0);
    } else if x.1 < y.1 {
        digit_less(x.1, y.1);
        less_at(a, b, 1);
    } else if x.2 < y.2 {
        digit_less(x.2, y.2);
        less_at(a, b, 2);
    } else {
        digit_less(x.3, y.3);
        less_at(a, b, 3);
    }
}

proof fn four_digits_differ(a: Seq<char>, b: Seq<char>, x: int, y: int)
    requires
        4 <= a.len(),
        4 <= b.len(),
        0 <= x < y < 10_000,
        a[0] == digit_char(x / 1000) && a[1] == digit_char(x / 100 % 10),
        a[2] == digit_char(x / 10 % 10) && a[3] == digit_char(x % 10),
        b[0] == digit_char(y / 1000) && b[1] == digit_char(y / 100 % 10),
        b[2] == digit_char(y / 10 % 10) && b[3] == digit_char(y % 10),
    ensures
        text_less(a, b),
{
    digits_of(x);
    digits_of(y);
    first_difference(
        a,
        b,
        (x / 1000, x / 100 % 10, x / 10 % 10, x % 10),
        (y / 1000, y / 100 % 10, y / 10 % 10, y % 10),
    );
}

/// A time of day and a date, from the largest part to the smallest.
pub type Parts = (int, int, int, int, int, int);

/// Whether the parts of a point in time are numbers of as many digits as they
/// are written with.
pub open spec fn is_written(p: Parts) -> bool {
    0 <= p.0 < 10_000 && 0 <= p.1 < 100 && 0 <= p.2 < 100 && 0 <= p.3 < 100 && 0 <= p.4 < 100
        && 0 <= p.5 < 100
}

/// Whether one point in time comes before another, part by part.
#[verifier::opaque]
pub open spec fn comes_before(x: Parts, y: Parts) -> bool {
    x.0 < y.0 || (x.0 == y.0 && (x.1 < y.1 || (x.1 == y.1 && (x.2 < y.2 || (x.2 == y.2 && (x.3
        < y.3 || (x.3 == y.3 && (x.4 < y.4 || (x.4 == y.4 && x.5 < y.5)))))))))
}

proof fn parts_differ(a: Seq<char>, b: Seq<char>, x: Parts, y: Parts)
    requires
        is_written(x),
        is_written(y),
        reads(a, x.0, x.1, x.2, x.3, x.4, x.5),
        reads(b, y.0, y.1, y.2, y.3, y.4, y.5),
        comes_before(x, y),
    ensures
        text_less(a, b),
{
    reveal(comes_before);
    if x.0 < y.0 {
        four_digits_differ(a, b, x.0, y.0);
    } else if x.1 < y.1 {
        two_digits_differ(a, b, 5, x.1, y.1);
    } else if x.2 < y.2 {
        two_digits_differ(a, b, 8, x.2, y.2);
    } else if x.3 < y.3 {
        two_digits_differ(a, b, 11, x.3, y.3);
    } else if x.4 < y.4 {
        two_digits_differ(a, b, 14, x.4, y.4);
    } else {
        two_digits_differ(a, b, 17, x.5, y.5);
    }
}

proof fn clock_grows(s: int, t: int)
    requires
        0 <= s < t < 86_400,
    ensures
        s / 3600 < t / 3600 || (s / 3600 == t / 3600 && (s % 3600 / 60 < t % 3600 / 60 || (s % 3600
            / 60 == t % 3600 / 60 && s % 60 < t % 60))),
{
}

proof fn clock_is_written(s: int)
    requires
        0 <= s < 86_400,
    ensures
        0 <= s / 3600 < 24,
        0 <= s % 3600 / 60 < 60,
        0 <= s % 60 < 60,
{
}

/// The parts of a date and a second of the day.
pub open spec fn parts_of(year: int, month: int, day: int, s: int) -> Parts {
    (year, month, day, s / 3600, s % 3600 / 60, s % 60)
}

proof fn text_is_read(year: int, month: int, day: int, s: int)
    requires
        is_date(year, month, day),
        -719_528 <= day_number(year, month, day) <= 2_932_896,
        0 <= s < 86_400,
    ensures
        ({
            let p = parts_of(year, month, day, s);
            &&& is_written(p)
            &&& reads(rfc3339_text(year, month, day, s, 0), p.0, p.1, p.2, p.3, p.4, p.5)
        }),
{
    years_of_four_digits(year, month, day);
    rfc3339_digits(year, month, day, s, 0);
    clock_is_written(s);
}

proof fn days_come_before(
    y1: int,
    m1: int,
    d1: int,
    s: int,
    y2: int,
    m2: int,
    d2: int,
    t: int,
)
    requires
        is_date(y1, m1, d1),
        is_date(y2, m2, d2),
        day_number(y1, m1, d1) < day_number(y2, m2, d2),
    ensures
        comes_before(parts_of(y1, m1, d1, s), parts_of(y2, m2, d2, t)),
{
    reveal(comes_before);
    later_days_have_later_dates(y1, m1, d1, y2, m2, d2);
}

proof fn times_come_before(year: int, month: int, day: int, s: int, t: int)
    requires
        0 <= s < t < 86_400,
    ensures
        comes_before(parts_of(year, month, day, s), parts_of(year, month, day, t)),
{
    reveal(comes_before);
    clock_grows(s, t);
}

/// In the years 0000 to 9999 the text of a second takes 24 characters, and the
/// texts of later seconds are greater.
pub proof fn later_seconds_have_greater_texts(
    a: Seq<char>,
    b: Seq<char>,
    earlier: int,
    later: int,
)
    requires
        -62_167_219_200 <= earlier < later <= 253_402_300_799,
        is_rfc3339_of(a, earlier, 0),
        is_rfc3339_of(b, later, 0),
    ensures
        a.len() == 24,
        b.len() == 24,
        text_less(a, b),
{
    let (y1, m1, d1) = choose|year: int, month: int, day: int|
        #![trigger is_date(year, month, day)]
        is_date(year, month, day) && day_number(year, month, day) == earlier / 86_400 && a
            == rfc3339_text(year, month, day, earlier % 86_400, 0);
    let (y2, m2, d2) = choose|year: int, month: int, day: int|
        #![trigger is_date(year, month, day)]
        is_date(year, month, day) && day_number(year, month, day) == later / 86_400 && b
            == rfc3339_text(year, month, day, later % 86_400, 0);
    texts_differ(a, b, earlier, later, y1, m1, d1, y2, m2, d2);
}

proof fn texts_differ(
    a: Seq<char>,
    b: Seq<char>,
    earlier: int,
    later: int,
    y1: int,
    m1: int,
    d1: int,
    y2: int,
    m2: int,
    d2: int,
)
    requires
        -62_167_219_200 <= earlier < later <= 253_402_300_799,
        is_date(y1, m1, d1),
        is_date(y2, m2, d2),
        day_number(y1, m1, d1) == earlier / 86_400,
        day_number(y2, m2, d2) == later / 86_400,
        a == rfc3339_text(y1, m1, d1, earlier % 86_400, 0),
        b == rfc3339_text(y2, m2, d2, later % 86_400, 0),
    ensures
        a.len() == 24,
        b.len() == 24,
        text_less(a, b),
{
    days_and_seconds(earlier, later);
    let s = earlier % 86_400;
    let t = later % 86_400;
    text_is_read(y1, m1, d1, s);
    text_is_read(y2, m2, d2, t);
    if earlier / 86_400 < later / 86_400 {
        days_come_before(y1, m1, d1, s, y2, m2, d2, t);
    } else {
        day_number_tells_dates_apart(y1, m1, d1, y2, m2, d2);
        times_come_before(y1, m1, d1, s, t);
    }
    parts_differ(a, b, parts_of(y1, m1, d1, s), parts_of(y2, m2, d2, t));
}

proof fn days_and_seconds(earlier: int, later: int)
    requires
        -62_167_219_200 <= earlier < later <= 253_402_300_799,
    ensures
        -719_528 <= earlier / 86_400 <= later / 86_400 <= 2_932_896,
        0 <= earlier % 86_400 < 86_400,
        0 <= later % 86_400 < 86_400,
        earlier / 86_400 == later / 86_400 ==> earlier % 86_400 < later % 86_400,
{
}

} // verus!
