//! Proleptic Gregorian calendar dates, modelled exactly and backed by chrono.

use chrono::Datelike;
use vstd::prelude::*;

verus! {

/// Smallest year chrono's `NaiveDate` represents.
pub const MIN_YEAR: i32 = -262143;

/// Largest year chrono's `NaiveDate` represents.
pub const MAX_YEAR: i32 = 262142;

/// A calendar date (year, month 1-12, day 1-31). Valid values satisfy `wf`.
#[derive(Clone, Copy, Debug, PartialEq, Eq, Structural)]
pub struct Date {
    pub year: i32,
    pub month: u32,
    pub day: u32,
}

pub open spec fn is_leap_year(y: int) -> bool {
    y % 4 == 0 && (y % 100 != 0 || y % 400 == 0)
}

/// Number of days of month `m` in year `y`.
pub open spec fn month_len(y: int, m: int) -> int {
    if m == 2 {
        if is_leap_year(y) { 29 } else { 28 }
    } else if m == 4 || m == 6 || m == 9 || m == 11 {
        30
    } else {
        31
    }
}

/// A year/month/day triple that chrono accepts as a date.
pub open spec fn valid_ymd(y: int, m: int, d: int) -> bool {
    &&& MIN_YEAR <= y <= MAX_YEAR
    &&& 1 <= m <= 12
    &&& 1 <= d <= month_len(y, m)
}

/// Days in the years before year `y` (day 1 is 0001-01-01).
pub open spec fn days_before_year(y: int) -> int {
    365 * (y - 1) + (y - 1) / 4 - (y - 1) / 100 + (y - 1) / 400
}

/// Days in the months of year `y` before month `m`.
pub open spec fn days_before_month(y: int, m: int) -> int {
    let leap: int = if is_leap_year(y) { 1 } else { 0 };
    if m <= 1 {
        0
    } else if m == 2 {
        31
    } else if m == 3 {
        59 + leap
    } else if m == 4 {
        90 + leap
    } else if m == 5 {
        120 + leap
    } else if m == 6 {
        151 + leap
    } else if m == 7 {
        181 + leap
    } else if m == 8 {
        212 + leap
    } else if m == 9 {
        243 + leap
    } else if m == 10 {
        273 + leap
    } else if m == 11 {
        304 + leap
    } else {
        334 + leap
    }
}

/// Serial day number: 0001-01-01 is day 1, consecutive dates differ by one.
pub open spec fn day_number(d: Date) -> int {
    days_before_year(d.year as int) + days_before_month(d.year as int, d.month as int) + d.day
}

/// Day of the week, 0 = Monday ... 6 = Sunday (0001-01-01 was a Monday).
pub open spec fn weekday_index(d: Date) -> int {
    (day_number(d) - 1) % 7
}

pub open spec fn first_date() -> Date {
    Date { year: MIN_YEAR, month: 1, day: 1 }
}

pub open spec fn last_date() -> Date {
    Date { year: MAX_YEAR, month: 12, day: 31 }
}

/// The calendar date before `d`, if representable.
pub open spec fn spec_pred(d: Date) -> Option<Date> {
    if d.day > 1 {
        Some(Date { year: d.year, month: d.month, day: (d.day - 1) as u32 })
    } else if d.month > 1 {
        Some(
            Date {
                year: d.year,
                month: (d.month - 1) as u32,
                day: month_len(d.year as int, d.month - 1) as u32,
            },
        )
    } else if d.year > MIN_YEAR {
        Some(Date { year: (d.year - 1) as i32, month: 12, day: 31 })
    } else {
        None
    }
}

impl Date {
    pub open spec fn wf(self) -> bool {
        valid_ymd(self.year as int, self.month as int, self.day as int)
    }
}

/// Text chrono's `%Y-%m-%d` produces for a date (depends on the date alone).
pub uninterp spec fn chrono_ymd_text(d: Date) -> Seq<char>;

/// Date chrono's `%Y-%m-%d` parser reads from a text (depends on the text alone).
pub uninterp spec fn chrono_parse_ymd(s: Seq<char>) -> Option<Date>;

/// Two decimal digits of `n` (0..=99).
pub open spec fn two_digits(n: int) -> Seq<char> {
    seq![(('0' as int) + n / 10) as char, (('0' as int) + n % 10) as char]
}

/// `YYYY-MM-DD` with a four-digit zero-padded year, for years 0..=9999.
pub open spec fn ymd_text(d: Date) -> Seq<char> {
    two_digits(d.year / 100) + two_digits((d.year % 100) as int) + seq!['-'] + two_digits(d.month as int)
        + seq!['-'] + two_digits(d.day as int)
}

/// chrono `NaiveDate::from_ymd_opt`: `Some` exactly for valid triples.
#[verifier::external_body]
pub(crate) fn ymd_opt(y: i32, m: u32, d: u32) -> (r: Option<Date>)
    ensures
        r == (if valid_ymd(y as int, m as int, d as int) {
            Some(Date { year: y, month: m, day: d })
        } else {
            None::<Date>
        }),
{
    match chrono::NaiveDate::from_ymd_opt(y, m, d) {
        Some(_) => Some(Date { year: y, month: m, day: d }),
        None => None,
    }
}

/// chrono `NaiveDate::pred_opt`: the previous calendar day, `None` before the first date.
#[verifier::external_body]
pub(crate) fn date_pred(d: Date) -> (r: Option<Date>)
    requires
        d.wf(),
    ensures
        r == spec_pred(d),
{
    match chrono::NaiveDate::from_ymd_opt(d.year, d.month, d.day).unwrap().pred_opt() {
        Some(p) => Some(Date { year: p.year(), month: p.month(), day: p.day() }),
        None => None,
    }
}

/// chrono `Weekday::num_days_from_monday` of a date's weekday.
#[verifier::external_body]
pub(crate) fn weekday_from_monday(d: Date) -> (r: u32)
    requires
        d.wf(),
    ensures
        r as int == weekday_index(d),
{
    chrono::NaiveDate::from_ymd_opt(d.year, d.month, d.day).unwrap().weekday().num_days_from_monday()
}

/// chrono `NaiveDate::checked_add_signed` with a whole number of days: the date `n` days
/// later (earlier for negative `n`), `None` outside chrono's range.
#[verifier::external_body]
pub(crate) fn add_days(d: Date, n: i64) -> (r: Option<Date>)
    requires
        d.wf(),
    ensures
        r is Some <==> day_number(first_date()) <= day_number(d) + n <= day_number(last_date()),
        r matches Some(x) ==> x.wf() && day_number(x) == day_number(d) + n,
{
    let base = chrono::NaiveDate::from_ymd_opt(d.year, d.month, d.day).unwrap();
    let moved = match chrono::TimeDelta::try_days(n) {
        Some(delta) => base.checked_add_signed(delta),
        None => None,
    };
    match moved {
        Some(p) => Some(Date { year: p.year(), month: p.month(), day: p.day() }),
        None => None,
    }
}

/// chrono `NaiveDate::signed_duration_since(..).num_days()`: whole days from `b` to `a`.
#[verifier::external_body]
pub(crate) fn days_between(a: Date, b: Date) -> (r: i64)
    requires
        a.wf(),
        b.wf(),
    ensures
        r == day_number(a) - day_number(b),
{
    let x = chrono::NaiveDate::from_ymd_opt(a.year, a.month, a.day).unwrap();
    let y = chrono::NaiveDate::from_ymd_opt(b.year, b.month, b.day).unwrap();
    x.signed_duration_since(y).num_days()
}

/// chrono `NaiveDate::format("%Y-%m-%d")`: zero-padded `YYYY-MM-DD` for years 0..=9999.
#[verifier::external_body]
pub(crate) fn format_ymd(d: Date) -> (r: String)
    requires
        d.wf(),
    ensures
        r@ == chrono_ymd_text(d),
        0 <= d.year <= 9999 ==> r@ == ymd_text(d),
{
    chrono::NaiveDate::from_ymd_opt(d.year, d.month, d.day).unwrap().format("%Y-%m-%d").to_string()
}

/// chrono `NaiveDate::parse_from_str(s, "%Y-%m-%d")`; whatever it accepts is a valid date.
#[verifier::external_body]
pub(crate) fn parse_ymd(s: &str) -> (r: Option<Date>)
    ensures
        r == chrono_parse_ymd(s@),
        r matches Some(x) ==> x.wf(),
{
    match chrono::NaiveDate::parse_from_str(s, "%Y-%m-%d") {
        Ok(p) => Some(Date { year: p.year(), month: p.month(), day: p.day() }),
        Err(_) => None,
    }
}

/// Day of the year, 1 for January 1st.
pub open spec fn ordinal(d: Date) -> int {
    days_before_month(d.year as int, d.month as int) + d.day
}

/// Weekday (0 = Monday) of January 1st of year `y`.
pub open spec fn jan1_weekday(y: int) -> int {
    days_before_year(y) % 7
}

/// Weeks of ISO year `y`: 53 when it starts on a Thursday, or on a Wednesday in a leap
/// year; 52 otherwise.
pub open spec fn iso_weeks_in_year(y: int) -> int {
    if jan1_weekday(y) == 3 || (jan1_weekday(y) == 2 && is_leap_year(y)) {
        53
    } else {
        52
    }
}

/// ISO 8601 week number: weeks start on Monday and week 1 holds the year's first
/// Thursday; early January days may fall in the last week of the year before, late
/// December days in week 1 of the next.
pub open spec fn iso_week(d: Date) -> int {
    let w = (ordinal(d) - (weekday_index(d) + 1) + 10) / 7;
    if w < 1 {
        iso_weeks_in_year(d.year - 1)
    } else if w > iso_weeks_in_year(d.year as int) {
        1
    } else {
        w
    }
}

/// Weeks of ISO year `y`, from the weekday of its January 1st.
fn weeks_in_year_of(jan1_wd: u32, leap: bool) -> (r: u32)
    ensures
        r == (if jan1_wd == 3 || (jan1_wd == 2 && leap) { 53u32 } else { 52u32 }),
{
    if jan1_wd == 3 || (jan1_wd == 2 && leap) {
        53
    } else {
        52
    }
}

/// Whether year `y` is a leap year (`y` within chrono's years, or the one before).
fn leap_of(y: i64) -> (r: bool)
    requires
        MIN_YEAR - 1 <= y <= MAX_YEAR,
    ensures
        r == is_leap_year(y as int),
{
    let z: u64 = (y + 400000) as u64;
    proof {
        let yi = y as int;
        assert(z as int == yi + 400000);
        assert((yi + 400000) % 4 == yi % 4);
        assert((yi + 400000) % 100 == yi % 100);
        assert((yi + 400000) % 400 == yi % 400);
    }
    z % 4 == 0 && (z % 100 != 0 || z % 400 == 0)
}

proof fn lemma_mod7_back(a: int, l: int)
    requires
        0 <= l <= 1,
    ensures
        ((a + 365 + l) % 7 + 6 - l) % 7 == a % 7,
{
    assert(a == 7 * (a / 7) + a % 7);
    assert(a + 365 + l == 7 * (a / 7 + 52) + (a % 7 + 1 + l));
}

/// January 1st of the year before `y` falls one weekday earlier, two after a leap year.
proof fn lemma_prev_jan1(y: int)
    ensures
        jan1_weekday(y - 1) == (jan1_weekday(y) + 6 - (if is_leap_year(y - 1) { 1int } else { 0 })) % 7,
{
    lemma_year_length(y - 1);
    lemma_mod7_back(days_before_year(y - 1), if is_leap_year(y - 1) { 1int } else { 0 });
}

/// The ISO 8601 week number of a date, 1 to 53 (what chrono's `iso_week().week()` gives).
pub fn iso_week_number(d: Date) -> (r: u32)
    requires
        d.wf(),
    ensures
        r as int == iso_week(d),
        1 <= r <= 53,
{
    let jan1 = Date { year: d.year, month: 1, day: 1 };
    let ord = days_between(d, jan1) + 1;
    let wd = weekday_from_monday(d) as i64;
    let jw = weekday_from_monday(jan1);
    proof {
        assert(day_number(jan1) - 1 == days_before_year(d.year as int));
        assert(jan1_weekday(d.year as int) == jw);
        assert(ord == ordinal(d));
    }
    let w = (ord - (wd + 1) + 10) / 7;
    if w < 1 {
        let prev_leap = leap_of(d.year as i64 - 1);
        proof {
            lemma_prev_jan1(d.year as int);
        }
        let pj: u32 = (jw + 6 - if prev_leap { 1u32 } else { 0u32 }) % 7;
        weeks_in_year_of(pj, prev_leap)
    } else {
        let cur_leap = leap_of(d.year as i64);
        let n = weeks_in_year_of(jw, cur_leap);
        if w > n as i64 {
            1
        } else {
            w as u32
        }
    }
}

/// The local calendar date and wall-clock time of day.
#[derive(Clone, Copy, Debug, PartialEq, Eq, Structural)]
pub struct LocalNow {
    pub date: Date,
    pub hour: u32,
    pub minute: u32,
    pub second: u32,
}

impl LocalNow {
    pub open spec fn wf(self) -> bool {
        &&& self.date.wf()
        &&& self.hour < 24
        &&& self.minute < 60
        &&& self.second < 60
    }

    pub open spec fn spec_secs(self) -> int {
        self.hour * 3600 + self.minute * 60 + self.second
    }

    /// Seconds since local midnight.
    pub fn secs_of_day(&self) -> (r: u32)
        requires
            self.wf(),
        ensures
            r as int == self.spec_secs(),
            r < 86400,
    {
        self.hour * 3600 + self.minute * 60 + self.second
    }
}

/// chrono `Local.from_local_datetime(..).single()`: the Unix milliseconds of the local
/// wall-clock time `h:m:00` on `d` in the machine's time zone, `None` when that time names
/// no instant or two (daylight-saving gaps and overlaps). The zone decides which, and
/// the value; nothing is stated of the result.
#[verifier::external_body]
pub(crate) fn local_wall_ms(d: Date, h: u32, m: u32) -> (r: Option<i64>)
    requires
        d.wf(),
        h < 24,
        m < 60,
{
    let nd = chrono::NaiveDate::from_ymd_opt(d.year, d.month, d.day).unwrap();
    let ndt = nd.and_hms_opt(h, m, 0).unwrap();
    match chrono::TimeZone::from_local_datetime(&chrono::Local, &ndt).single() {
        Some(t) => Some(t.timestamp_millis()),
        None => None,
    }
}

/// chrono `Local::now()`: the current local date and time of day. Which moment comes back
/// depends on the clock and the time zone; only its validity is stated.
#[verifier::external_body]
pub(crate) fn local_now() -> (r: LocalNow)
    ensures
        r.wf(),
{
    let n = chrono::Local::now();
    LocalNow {
        date: Date { year: n.year(), month: n.month(), day: n.day() },
        hour: chrono::Timelike::hour(&n),
        minute: chrono::Timelike::minute(&n),
        second: chrono::Timelike::second(&n),
    }
}

/// Number of days in month `m` of year `y` (the day before the first of the next month).
pub fn days_in_month(y: i32, m: u32) -> (r: u32)
    requires
        MIN_YEAR <= y <= MAX_YEAR,
        1 <= m <= 12,
        !(y == MAX_YEAR && m == 12),
    ensures
        r as int == month_len(y as int, m as int),
{
    let (ny, nm) = if m == 12 {
        (y + 1, 1u32)
    } else {
        (y, m + 1)
    };
    let first = ymd_opt(ny, nm, 1).unwrap();
    let last = date_pred(first).unwrap();
    last.day
}

/// Monday of the week containing `d`.
pub fn week_start_of(d: Date) -> (r: Date)
    requires
        d.wf(),
        d.year > MIN_YEAR,
    ensures
        r.wf(),
        weekday_index(r) == 0,
        day_number(r) <= day_number(d) <= day_number(r) + 6,
{
    let wd = weekday_from_monday(d);
    proof {
        lemma_day_number_bounds(d);
    }
    let r = add_days(d, -(wd as i64)).unwrap();
    proof {
        let x = day_number(d) - 1;
        assert(x == 7 * (x / 7) + x % 7);
        assert((x - x % 7) % 7 == 0);
    }
    r
}

/// Every valid date lies between the first and last representable dates, and a date
/// after the first year is at least a week past the first date.
pub proof fn lemma_day_number_bounds(d: Date)
    requires
        d.wf(),
    ensures
        day_number(first_date()) <= day_number(d) <= day_number(last_date()),
        d.year > MIN_YEAR ==> day_number(d) >= day_number(first_date()) + 7,
{
    lemma_days_before_year_monotone(MIN_YEAR as int, d.year as int);
    if d.year < MAX_YEAR {
        lemma_year_length(d.year as int);
        lemma_days_before_year_monotone(d.year + 1, MAX_YEAR as int);
    }
    if d.year > MIN_YEAR {
        lemma_days_before_year_monotone(MIN_YEAR + 1, d.year as int);
        lemma_year_length(MIN_YEAR as int);
    }
}

/// The year after `y` starts `365` or `366` days later.
pub proof fn lemma_year_length(y: int)
    ensures
        days_before_year(y + 1) == days_before_year(y) + 365 + (if is_leap_year(y) { 1int } else { 0 }),
{
    assert((y / 4 - (y - 1) / 4 == 1) == (y % 4 == 0)) by {
        assert(y == 4 * (y / 4) + y % 4);
        assert(y - 1 == 4 * ((y - 1) / 4) + (y - 1) % 4);
    }
    assert(0 <= y / 4 - (y - 1) / 4 <= 1) by {
        assert(y == 4 * (y / 4) + y % 4);
        assert(y - 1 == 4 * ((y - 1) / 4) + (y - 1) % 4);
    }
    assert((y / 100 - (y - 1) / 100 == 1) == (y % 100 == 0)) by {
        assert(y == 100 * (y / 100) + y % 100);
        assert(y - 1 == 100 * ((y - 1) / 100) + (y - 1) % 100);
    }
    assert(0 <= y / 100 - (y - 1) / 100 <= 1) by {
        assert(y == 100 * (y / 100) + y % 100);
        assert(y - 1 == 100 * ((y - 1) / 100) + (y - 1) % 100);
    }
    assert((y / 400 - (y - 1) / 400 == 1) == (y % 400 == 0)) by {
        assert(y == 400 * (y / 400) + y % 400);
        assert(y - 1 == 400 * ((y - 1) / 400) + (y - 1) % 400);
    }
    assert(0 <= y / 400 - (y - 1) / 400 <= 1) by {
        assert(y == 400 * (y / 400) + y % 400);
        assert(y - 1 == 400 * ((y - 1) / 400) + (y - 1) % 400);
    }
    assert(y % 100 == 0 ==> y % 4 == 0) by {
        assert(y == 100 * (y / 100) + y % 100);
        assert(y == 4 * (y / 4) + y % 4);
    }
    assert(y % 400 == 0 ==> y % 100 == 0) by {
        assert(y == 400 * (y / 400) + y % 400);
        assert(y == 100 * (y / 100) + y % 100);
    }
}

/// Later years start later: at least 365 days per year in between.
pub proof fn lemma_days_before_year_monotone(a: int, b: int)
    requires
        a <= b,
    ensures
        days_before_year(a) + 365 * (b - a) <= days_before_year(b),
    decreases b - a,
{
    if a < b {
        lemma_days_before_year_monotone(a, b - 1);
        lemma_year_length(b - 1);
    }
}

} // verus!
