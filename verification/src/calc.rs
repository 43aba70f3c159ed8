//! Today's working clock: worked time, time to the end of the day, payday
//! countdown and the monthly workday divisor. Amounts of money are derived
//! from these by the caller.

use crate::clock;
use crate::clock::schedule_secs_of;
use crate::config::Config;
use crate::date;
use crate::date::{days_between, days_in_month, weekday_from_monday, ymd_opt, Date, LocalNow, MAX_YEAR};
use crate::holiday;
use crate::holiday::{weekday_count, HolidayCache};
use vstd::prelude::*;

verus! {

/// Part of the segment [s, e] already elapsed at `now` (all in seconds of the day).
pub open spec fn overlap_spec(now: int, s: int, e: int) -> int {
    if now <= s {
        0
    } else if now >= e {
        e - s
    } else {
        now - s
    }
}

/// Seconds of the segment [s, e] elapsed at `now`.
pub fn overlap(now: i64, s: i64, e: i64) -> (r: i64)
    requires
        -1_000_000_000_000_000 <= s <= 1_000_000_000_000_000,
        -1_000_000_000_000_000 <= e <= 1_000_000_000_000_000,
        -1_000_000_000_000_000 <= now <= 1_000_000_000_000_000,
    ensures
        r == overlap_spec(now as int, s as int, e as int),
{
    if now <= s {
        0
    } else if now >= e {
        e - s
    } else {
        now - s
    }
}

/// Seconds of the working day: morning plus afternoon segment, never negative.
pub open spec fn daily_seconds_spec<M>(cfg: Config<M>) -> int {
    let am = clock::schedule_secs(cfg.am_end@) - clock::schedule_secs(cfg.am_start@);
    let pm = clock::schedule_secs(cfg.pm_end@) - clock::schedule_secs(cfg.pm_start@);
    if am + pm > 0 {
        am + pm
    } else {
        0
    }
}

/// Seconds of the working day (morning plus afternoon, never negative).
pub fn daily_seconds<M>(cfg: &Config<M>) -> (r: i64)
    ensures
        r == daily_seconds_spec(*cfg),
        r >= 0,
{
    let am = schedule_secs_of(cfg.am_end.as_str()) as i64 - schedule_secs_of(cfg.am_start.as_str()) as i64;
    let pm = schedule_secs_of(cfg.pm_end.as_str()) as i64 - schedule_secs_of(cfg.pm_start.as_str()) as i64;
    if am + pm > 0 {
        am + pm
    } else {
        0
    }
}

pub open spec fn clamp_day(payday: int, len: int) -> int {
    if payday < 1 {
        1
    } else if payday > len {
        len
    } else {
        payday
    }
}

/// The next pay date on or after `today`; pay days beyond a month's end fall on its last day.
pub open spec fn next_payday(today: Date, payday: int) -> Date {
    let pd = clamp_day(payday, date::month_len(today.year as int, today.month as int));
    if pd >= today.day {
        Date { year: today.year, month: today.month, day: pd as u32 }
    } else {
        let ny = if today.month == 12 { today.year + 1 } else { today.year as int };
        let nm = if today.month == 12 { 1 } else { today.month + 1 };
        Date { year: ny as i32, month: nm as u32, day: clamp_day(payday, date::month_len(ny, nm)) as u32 }
    }
}

/// Days from `today` to the next pay day (0 when today is pay day).
pub fn days_to_payday(today: Date, payday: u32) -> (r: i64)
    requires
        today.wf(),
        today.year < MAX_YEAR,
    ensures
        r == date::day_number(next_payday(today, payday as int)) - date::day_number(today),
{
    let dim = days_in_month(today.year, today.month);
    let pd = if payday < 1 {
        1
    } else if payday > dim {
        dim
    } else {
        payday
    };
    let next = if pd >= today.day {
        ymd_opt(today.year, today.month, pd).unwrap()
    } else {
        let (ny, nm) = if today.month == 12 {
            (today.year + 1, 1u32)
        } else {
            (today.year, today.month + 1)
        };
        let dim2 = days_in_month(ny, nm);
        let pd2 = if payday < 1 {
            1
        } else if payday > dim2 {
            dim2
        } else {
            payday
        };
        ymd_opt(ny, nm, pd2).unwrap()
    };
    days_between(next, today)
}

/// What the "time to end of day" line shows.
#[derive(Clone, Copy, Debug, PartialEq, Eq, Structural)]
pub enum OffLabel {
    /// Not a workday: "今天休息".
    Rest,
    /// The afternoon segment is over: "已下班".
    Off,
    /// Seconds left until the end of the afternoon segment.
    Remaining(u64),
}

/// Today's clock, without any amount of money.
#[derive(Clone, Copy, Debug)]
pub struct DayTimes {
    pub is_workday: bool,
    /// Seconds worked so far (morning and afternoon overlap).
    pub worked_secs: i64,
    /// Seconds to the end of the afternoon segment (0 on rest days and after work).
    pub to_off_secs: i64,
    /// The afternoon segment is over on a workday.
    pub off_work: bool,
    /// Seconds of the working day.
    pub daily_seconds: i64,
    /// Days to the next pay day.
    pub days_to_pay: i64,
    /// What the end-of-day line shows.
    pub off_label: OffLabel,
}

pub open spec fn seg_secs(s: Seq<char>) -> int {
    clock::schedule_secs(s)
}

/// Seconds worked at `now` (seconds of the day): the elapsed parts of the morning and
/// afternoon segments; the lunch break between them does not count.
pub open spec fn worked_spec<M>(cfg: Config<M>, now: int) -> int {
    overlap_spec(now, seg_secs(cfg.am_start@), seg_secs(cfg.am_end@)) + overlap_spec(
        now,
        seg_secs(cfg.pm_start@),
        seg_secs(cfg.pm_end@),
    )
}

/// Each segment ends no earlier than it starts.
pub open spec fn segments_ordered<M>(cfg: Config<M>) -> bool {
    &&& seg_secs(cfg.am_start@) <= seg_secs(cfg.am_end@)
    &&& seg_secs(cfg.pm_start@) <= seg_secs(cfg.pm_end@)
}

/// Worked time never decreases during the day and is capped at the working day: once
/// both segments are over it equals the day's seconds, and later it stays there.
pub proof fn law_earnings_capped<M>(cfg: Config<M>, n1: int, n2: int)
    requires
        segments_ordered(cfg),
        n1 <= n2,
    ensures
        0 <= worked_spec(cfg, n1) <= worked_spec(cfg, n2) <= daily_seconds_spec(cfg),
        n1 >= seg_secs(cfg.am_end@) && n1 >= seg_secs(cfg.pm_end@) ==> worked_spec(cfg, n1)
            == daily_seconds_spec(cfg),
{
}

/// Today's clock at `now` for a day that is (or is not) a workday.
pub fn day_times<M>(cfg: &Config<M>, is_workday: bool, now: LocalNow) -> (r: DayTimes)
    requires
        now.wf(),
        now.date.year < MAX_YEAR,
    ensures
        r.is_workday == is_workday,
        r.worked_secs == worked_spec(*cfg, now.spec_secs()),
        r.off_work == (is_workday && now.spec_secs() >= seg_secs(cfg.pm_end@)),
        r.to_off_secs == (if !is_workday || now.spec_secs() >= seg_secs(cfg.pm_end@) {
            0
        } else {
            seg_secs(cfg.pm_end@) - now.spec_secs()
        }),
        r.off_label == (if !is_workday {
            OffLabel::Rest
        } else if now.spec_secs() >= seg_secs(cfg.pm_end@) {
            OffLabel::Off
        } else {
            OffLabel::Remaining((seg_secs(cfg.pm_end@) - now.spec_secs()) as u64)
        }),
        r.daily_seconds == daily_seconds_spec(*cfg),
        r.days_to_pay == date::day_number(next_payday(now.date, cfg.payday as int))
            - date::day_number(now.date),
{
    let daily = daily_seconds(cfg);
    let now_s = now.secs_of_day() as i64;
    let am_s = schedule_secs_of(cfg.am_start.as_str()) as i64;
    let am_e = schedule_secs_of(cfg.am_end.as_str()) as i64;
    let pm_s = schedule_secs_of(cfg.pm_start.as_str()) as i64;
    let pm_e = schedule_secs_of(cfg.pm_end.as_str()) as i64;
    let worked = overlap(now_s, am_s, am_e) + overlap(now_s, pm_s, pm_e);
    let off_work = is_workday && now_s >= pm_e;
    let to_off = if !is_workday {
        0
    } else if now_s >= pm_e {
        0
    } else {
        pm_e - now_s
    };
    let off_label = if !is_workday {
        OffLabel::Rest
    } else if now_s >= pm_e {
        OffLabel::Off
    } else {
        OffLabel::Remaining((pm_e - now_s) as u64)
    };
    let days_to_pay = days_to_payday(now.date, cfg.payday);
    DayTimes {
        is_workday,
        worked_secs: worked,
        to_off_secs: to_off,
        off_work,
        daily_seconds: daily,
        days_to_pay,
        off_label,
    }
}

/// Workday divisor of the month of `today`: manual override, else the holiday table,
/// else Monday-to-Friday days.
pub fn current_monthly_workdays<M>(cfg: &Config<M>, hol: &HolidayCache, today: Date) -> (r: u32)
    requires
        today.wf(),
        today.year < MAX_YEAR,
    ensures
        r == (match cfg.workdays_override {
            Some(n) => n,
            None => {
                let days = holiday::workdays_upto(
                    hol.days@,
                    today.year as int,
                    today.month as int,
                    date::month_len(today.year as int, today.month as int),
                );
                if hol.year == today.year && hol.days@.len() != 0 && days != 0 {
                    days as u32
                } else {
                    holiday::weekdays_upto(
                        today.year as int,
                        today.month as int,
                        date::month_len(today.year as int, today.month as int),
                    ) as u32
                }
            },
        }),
{
    if let Some(n) = cfg.workdays_override {
        return n;
    }
    if let Some(n) = hol.month_workdays(today.year, today.month) {
        return n;
    }
    weekday_count(today.year, today.month)
}

/// Whether a date is worked: the holiday table when it knows the date, else Monday-Friday.
pub open spec fn workday_on_spec(days: Map<i64, u8>, d: Date) -> bool {
    match holiday::type_in(days, d) {
        Some(t) => holiday::is_work_type(t),
        None => date::weekday_index(d) < 5,
    }
}

/// Whether a date is worked: the holiday table when it knows the date, else Monday-Friday.
pub fn is_workday_on(hol: &HolidayCache, d: Date) -> (r: bool)
    requires
        d.wf(),
    ensures
        r == workday_on_spec(hol.days@, d),
{
    match hol.is_workday(d) {
        Some(v) => v,
        None => weekday_from_monday(d) < 5,
    }
}

} // verus!
