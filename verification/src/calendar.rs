//! Moments in universal time and the counts of milliseconds that they stand for.

use time::OffsetDateTime;
use vstd::prelude::*;

verus! {

/// The last millisecond that has a moment: the end of the year 9999.
pub const LAST_UNIX_MS: u64 = 253_402_300_799_999;

/// A moment in universal time.
#[derive(Clone, Copy, Debug, PartialEq, Eq, Structural)]
pub struct UtcMoment {
    pub year: u16,
    pub month: u8,
    pub day: u8,
    pub hour: u8,
    pub minute: u8,
    pub second: u8,
    pub millisecond: u16,
}

/// The year has a day more.
pub open spec fn leap(year: int) -> bool {
    year % 4 == 0 && (year % 100 != 0 || year % 400 == 0)
}

/// How many years up to this one have a day more.
pub open spec fn leaps(year: int) -> int {
    year / 4 - year / 100 + year / 400
}

/// How many days lie between the Unix epoch and the start of the year.
pub open spec fn days_before_year(year: int) -> int {
    365 * (year - 1970) + leaps(year - 1) - leaps(1969)
}

/// How many days of the year lie before the month. There is a thirteenth month
/// behind the last.
pub open spec fn days_before_month(year: int, month: int) -> int {
    let common: int = if month <= 1 {
        0
    } else if month == 2 {
        31
    } else if month == 3 {
        59
    } else if month == 4 {
        90
    } else if month == 5 {
        120
    } else if month == 6 {
        151
    } else if month == 7 {
        181
    } else if month == 8 {
        212
    } else if month == 9 {
        243
    } else if month == 10 {
        273
    } else if month == 11 {
        304
    } else if month == 12 {
        334
    } else {
        365
    };
    if month > 2 && leap(year) {
        common + 1
    } else {
        common
    }
}

/// How many days the month has.
pub open spec fn days_in_month(year: int, month: int) -> int {
    days_before_month(year, month + 1) - days_before_month(year, month)
}

impl UtcMoment {
    /// The calendar has the moment, not before the Unix epoch and in a year of four
    /// digits.
    pub open spec fn valid(self) -> bool {
        &&& 1970 <= self.year <= 9999
        &&& 1 <= self.month <= 12
        &&& 1 <= self.day <= days_in_month(self.year as int, self.month as int)
        &&& self.hour < 24
        &&& self.minute < 60
        &&& self.second < 60
        &&& self.millisecond < 1000
    }

    /// How many whole days lie between the Unix epoch and the moment.
    pub open spec fn day_number(self) -> int {
        days_before_year(self.year as int) + days_before_month(self.year as int, self.month as int)
            + self.day - 1
    }

    /// How many milliseconds of its day lie before the moment.
    pub open spec fn time_of_day(self) -> int {
        self.hour * 3_600_000 + self.minute * 60_000 + self.second * 1000 + self.millisecond
    }

    /// How many milliseconds lie between the Unix epoch and the moment.
    pub open spec fn unix_ms(self) -> int {
        self.day_number() * 86_400_000 + self.time_of_day()
    }

    /// The moment is that of a count of milliseconds.
    pub open spec fn marks(self, unix_ms: u64) -> bool {
        self.valid() && self.unix_ms() == unix_ms
    }
}

/// The moment of a count of milliseconds since the Unix epoch.
pub open spec fn moment_of(unix_ms: u64) -> UtcMoment {
    choose|moment: UtcMoment| #[trigger] moment.marks(unix_ms)
}

/// `time::OffsetDateTime::from_unix_timestamp_nanos` and the parts of its result.
/// Up to the end of the year 9999 they are the moment of the Gregorian calendar
/// that the count stands for. A greater count is refused, with this text.
#[verifier::external_body]
fn read_utc(unix_ms: u64) -> (r: Result<UtcMoment, String>)
    ensures
        match r {
            Ok(moment) => unix_ms <= LAST_UNIX_MS && moment.marks(unix_ms),
            Err(text) => unix_ms > LAST_UNIX_MS && text@ == "timestamp was not in range"@,
        },
{
    match OffsetDateTime::from_unix_timestamp_nanos(i128::from(unix_ms) * 1_000_000) {
        Ok(moment) => Ok(UtcMoment {
            year: moment.year() as u16,
            month: u8::from(moment.month()),
            day: moment.day(),
            hour: moment.hour(),
            minute: moment.minute(),
            second: moment.second(),
            millisecond: moment.millisecond(),
        }),
        Err(error) => Err(error.to_string()),
    }
}

/// The moment of a count of milliseconds since the Unix epoch, or why it has none.
pub fn utc_moment(unix_ms: u64) -> (r: Result<UtcMoment, String>)
    ensures
        match r {
            Ok(moment) => unix_ms <= LAST_UNIX_MS && moment == moment_of(unix_ms)
                && moment.marks(unix_ms),
            Err(text) => unix_ms > LAST_UNIX_MS && text@ == "timestamp was not in range"@,
        },
{
    match read_utc(unix_ms) {
        Ok(moment) => {
            proof {
                law_one_moment_for_each_millisecond(moment, moment_of(unix_ms));
            }
            Ok(moment)
        },
        Err(text) => Err(text),
    }
}

// ---------------------------------------------------------------------------
// Laws

/// One moment is before another.
pub open spec fn earlier(a: UtcMoment, b: UtcMoment) -> bool {
    a.year < b.year || a.year == b.year && (a.month < b.month || a.month == b.month && (a.day
        < b.day || a.day == b.day && (a.hour < b.hour || a.hour == b.hour && (a.minute < b.minute
        || a.minute == b.minute && (a.second < b.second || a.second == b.second && a.millisecond
        < b.millisecond)))))
}

/// A year follows the one before it.
proof fn lemma_next_year(year: int)
    requires
        year >= 1970,
    ensures
        days_before_year(year + 1) == days_before_year(year) + days_before_month(year, 13),
{
    assert(year / 4 - (year - 1) / 4 == if year % 4 == 0 { 1int } else { 0 });
    assert(year / 100 - (year - 1) / 100 == if year % 100 == 0 { 1int } else { 0 });
    assert(year / 400 - (year - 1) / 400 == if year % 400 == 0 { 1int } else { 0 });
    assert(year % 400 == 0 ==> year % 100 == 0);
    assert(year % 100 == 0 ==> year % 4 == 0);
}

/// Later years start later.
proof fn lemma_years_ascend(a: int, b: int)
    requires
        1970 <= a <= b,
    ensures
        days_before_year(a) <= days_before_year(b),
    decreases b - a,
{
    if a < b {
        lemma_years_ascend(a, b - 1);
        lemma_next_year(b - 1);
    }
}

/// An earlier moment has fewer milliseconds before it.
pub proof fn law_earlier_moments_come_first(a: UtcMoment, b: UtcMoment)
    requires
        a.valid(),
        b.valid(),
        earlier(a, b),
    ensures
        a.unix_ms() < b.unix_ms(),
{
    lemma_next_year(a.year as int);
    if a.year < b.year {
        lemma_years_ascend(a.year + 1, b.year as int);
        assert(a.day_number() < b.day_number());
    } else if a.month < b.month {
        assert(a.day_number() < b.day_number());
    }
}

/// Each count of milliseconds has no more than one moment.
pub proof fn law_one_moment_for_each_millisecond(a: UtcMoment, b: UtcMoment)
    requires
        a.valid(),
        b.valid(),
        a.unix_ms() == b.unix_ms(),
    ensures
        a == b,
{
    if earlier(a, b) {
        law_earlier_moments_come_first(a, b);
    }
    if earlier(b, a) {
        law_earlier_moments_come_first(b, a);
    }
}

/// The year that a day lies in.
proof fn lemma_year_of(day: int, year: int) -> (r: int)
    requires
        1970 <= year,
        0 <= day < days_before_year(year),
    ensures
        1970 <= r < year,
        days_before_year(r) <= day < days_before_year(r + 1),
    decreases year,
{
    if year > 1970 && day < days_before_year(year - 1) {
        lemma_year_of(day, year - 1)
    } else {
        year - 1
    }
}

/// The month that a day of a year lies in.
proof fn lemma_month_of(year: int, day: int, month: int) -> (r: int)
    requires
        1 <= month <= 13,
        0 <= day < days_before_month(year, month),
    ensures
        1 <= r < month,
        days_before_month(year, r) <= day < days_before_month(year, r + 1),
    decreases month,
{
    if month > 1 && day < days_before_month(year, month - 1) {
        lemma_month_of(year, day, month - 1)
    } else {
        month - 1
    }
}

/// Each millisecond from the Unix epoch to the end of the year 9999 has its moment.
pub proof fn law_every_millisecond_has_its_moment(unix_ms: u64)
    requires
        unix_ms <= LAST_UNIX_MS,
    ensures
        moment_of(unix_ms).marks(unix_ms),
{
    let count = unix_ms as int;
    let days = count / 86_400_000;
    let rest = count % 86_400_000;
    let year = lemma_year_of(days, 10000);
    lemma_next_year(year);
    let within = days - days_before_year(year);
    let month = lemma_month_of(year, within, 13);
    let day = within - days_before_month(year, month) + 1;
    let moment = UtcMoment {
        year: year as u16,
        month: month as u8,
        day: day as u8,
        hour: (rest / 3_600_000) as u8,
        minute: (rest % 3_600_000 / 60_000) as u8,
        second: (rest % 60_000 / 1000) as u8,
        millisecond: (rest % 1000) as u16,
    };
    assert(days_in_month(year, month) <= 31);
    assert(moment.day_number() == days);
    assert(moment.time_of_day() == rest);
    assert(moment.marks(unix_ms));
}

/// Each month has the days that the calendar gives it, February one more in a leap year;
/// a year is as long as its months, and the next begins when it ends.
pub proof fn law_months_and_years_have_their_days(year: int, month: int)
    requires
        1970 <= year,
        1 <= month <= 12,
    ensures
        month == 1 || month == 3 || month == 5 || month == 7 || month == 8 || month == 10 || month
            == 12 ==> days_in_month(year, month) == 31,
        month == 4 || month == 6 || month == 9 || month == 11 ==> days_in_month(year, month) == 30,
        month == 2 && year % 4 == 0 && (year % 100 != 0 || year % 400 == 0) ==> days_in_month(
            year,
            month,
        ) == 29,
        month == 2 && !(year % 4 == 0 && (year % 100 != 0 || year % 400 == 0)) ==> days_in_month(
            year,
            month,
        ) == 28,
        days_before_month(year, 1) == 0,
        days_before_year(1970) == 0,
        days_before_year(year + 1) == days_before_year(year) + days_before_month(year, 13),
{
}

/// The time of a day counts its hours, minutes, seconds and milliseconds, and a day has
/// as many milliseconds as its hours hold.
pub proof fn law_moment_counts_its_milliseconds(moment: UtcMoment, next: UtcMoment)
    requires
        moment.valid(),
        next.valid(),
    ensures
        (UtcMoment { millisecond: 0, ..moment }).unix_ms() + moment.millisecond == moment.unix_ms(),
        (UtcMoment { second: 0, ..moment }).unix_ms() + moment.second * 1000 == moment.unix_ms(),
        (UtcMoment { minute: 0, ..moment }).unix_ms() + moment.minute * 60 * 1000
            == moment.unix_ms(),
        (UtcMoment { hour: 0, ..moment }).unix_ms() + moment.hour * 60 * 60 * 1000
            == moment.unix_ms(),
        next == (UtcMoment { day: next.day, ..moment }) ==> next.unix_ms() - moment.unix_ms() == (
        next.day - moment.day) * 24 * 60 * 60 * 1000,
{
}

} // verus!
