//! Overtime rules: which day a lock-screen departure belongs to, the kind of
//! that day, when overtime starts, how many half hours count, and the checks
//! of a manual entry. Fees are `valid half hours × rate`; the rate is chosen
//! here and multiplied by the caller.

use crate::clock;
use crate::clock::{hm_string, parse_hm_parts, parse_hm_secs};
use crate::config::Config;
use crate::date;
use crate::date::{
    date_pred, days_between, format_ymd, local_now, parse_ymd, weekday_from_monday, Date,
    LocalNow,
};
use crate::holiday;
use crate::holiday::{HolidayCache, DAY_HOLIDAY, DAY_MAKEUP, DAY_WEEKEND, DAY_WORK};
use vstd::prelude::*;
use vstd::string::*;

verus! {

/// Record source: computed from a lock-screen departure; later automatic records may replace it.
pub const SOURCE_AUTO: i32 = 0;

/// Record source: entered by hand; automatic records never replace it.
pub const SOURCE_MANUAL: i32 = 1;

/// Departures before 06:00 (seconds of the day) belong to the previous day.
pub const CROSS_MIDNIGHT_BEFORE_SECS: u64 = 21600;

/// Seconds of a day.
pub const DAY_SECS: u64 = 86400;

/// Kind of an overtime day: decides when overtime starts and which rate applies.
#[derive(Clone, Copy, Debug, PartialEq, Eq, Structural)]
pub enum DayKind {
    /// Workday, make-up workdays included.
    Workday,
    /// Ordinary weekend or a rest day moved by the holiday schedule.
    Weekend,
    /// Public holiday.
    Holiday,
}

pub open spec fn kind_label(k: DayKind) -> Seq<char> {
    match k {
        DayKind::Workday => "工作日"@,
        DayKind::Weekend => "休息日"@,
        DayKind::Holiday => "法定节假日"@,
    }
}

impl DayKind {
    /// Not a workday (subject to the rest-day overtime switch).
    pub fn is_rest(self) -> (r: bool)
        ensures
            r == (self != DayKind::Workday),
    {
        !matches!(self, DayKind::Workday)
    }

    /// Display name of the kind.
    pub fn label(self) -> (r: &'static str)
        ensures
            r@ == kind_label(self),
    {
        match self {
            DayKind::Workday => "工作日",
            DayKind::Weekend => "休息日",
            DayKind::Holiday => "法定节假日",
        }
    }
}

/// The day a departure belongs to, its end in seconds of that day, and whether it crossed
/// midnight: departures before 06:00 belong to the previous day and end 24 h later.
pub open spec fn resolve_spec(lock: LocalNow) -> (Date, int, bool) {
    if lock.spec_secs() < CROSS_MIDNIGHT_BEFORE_SECS {
        let prev = match date::spec_pred(lock.date) {
            Some(p) => p,
            None => lock.date,
        };
        (prev, lock.spec_secs() + DAY_SECS, true)
    } else {
        (lock.date, lock.spec_secs(), false)
    }
}

/// Day, end (seconds of that day, past 86400 after midnight) and midnight flag of a departure.
pub fn resolve_overtime_day(lock_time: LocalNow) -> (r: (Date, u64, bool))
    requires
        lock_time.wf(),
    ensures
        r.0 == resolve_spec(lock_time).0,
        r.1 as int == resolve_spec(lock_time).1,
        r.2 == resolve_spec(lock_time).2,
        r.0.wf(),
        r.1 < 2 * DAY_SECS,
        r.2 ==> r.1 >= DAY_SECS,
{
    let day_secs = lock_time.secs_of_day() as u64;
    if day_secs < CROSS_MIDNIGHT_BEFORE_SECS {
        let prev = match date_pred(lock_time.date) {
            Some(p) => p,
            None => lock_time.date,
        };
        (prev, day_secs + DAY_SECS, true)
    } else {
        (lock_time.date, day_secs, false)
    }
}

/// Kind of a date: the holiday table's type when it knows the date, else Saturday and
/// Sunday are weekend.
pub open spec fn day_kind_spec(d: Date, days: Option<Map<i64, u8>>) -> DayKind {
    let known = match days {
        Some(m) => holiday::type_in(m, d),
        None => None,
    };
    match known {
        Some(t) => if t == DAY_WORK || t == DAY_MAKEUP {
            DayKind::Workday
        } else if t == DAY_WEEKEND {
            DayKind::Weekend
        } else if t == DAY_HOLIDAY {
            DayKind::Holiday
        } else {
            fallback_kind(d)
        },
        None => fallback_kind(d),
    }
}

pub open spec fn fallback_kind(d: Date) -> DayKind {
    if date::weekday_index(d) >= 5 {
        DayKind::Weekend
    } else {
        DayKind::Workday
    }
}

pub open spec fn table_of(holiday: Option<&HolidayCache>) -> Option<Map<i64, u8>> {
    match holiday {
        Some(c) => Some(c.days@),
        None => None,
    }
}

/// Kind of a date (holiday table first, weekday fallback).
pub fn day_kind(date: Date, holiday: Option<&HolidayCache>) -> (r: DayKind)
    requires
        date.wf(),
    ensures
        r == day_kind_spec(date, table_of(holiday)),
{
    if let Some(c) = holiday {
        match c.day_type(date) {
            Some(t) => {
                if t == DAY_WORK || t == DAY_MAKEUP {
                    return DayKind::Workday;
                } else if t == DAY_WEEKEND {
                    return DayKind::Weekend;
                } else if t == DAY_HOLIDAY {
                    return DayKind::Holiday;
                }
            },
            None => {},
        }
    }
    if weekday_from_monday(date) >= 5 {
        DayKind::Weekend
    } else {
        DayKind::Workday
    }
}

/// Overtime start on rest days when none is configured.
pub open spec fn rest_start_default() -> Seq<char> {
    "09:00"@
}

/// Overtime start text of a kind of day: workdays use `overtime_start` (else the afternoon
/// end), rest days and holidays use `weekend_ot_start` (else 09:00).
pub open spec fn ot_start_text<M>(cfg: Config<M>, kind: DayKind) -> Seq<char> {
    match kind {
        DayKind::Workday => match cfg.overtime_start {
            Some(s) => s@,
            None => cfg.pm_end@,
        },
        _ => match cfg.weekend_ot_start {
            Some(s) => s@,
            None => rest_start_default(),
        },
    }
}

/// Overtime start text of a kind of day.
pub fn ot_start_of<'a, M>(cfg: &'a Config<M>, kind: DayKind) -> (r: &'a str)
    ensures
        r@ == ot_start_text(*cfg, kind),
{
    match kind {
        DayKind::Workday => match &cfg.overtime_start {
            Some(s) => s.as_str(),
            None => cfg.pm_end.as_str(),
        },
        _ => match &cfg.weekend_ot_start {
            Some(s) => s.as_str(),
            None => "09:00",
        },
    }
}

/// Hourly overtime rate of a kind of day: holidays fall back to the rest-day rate, rest
/// days fall back to the workday rate.
pub open spec fn rate_spec<M>(cfg: Config<M>, kind: DayKind) -> M {
    match kind {
        DayKind::Workday => cfg.overtime_rate,
        DayKind::Weekend => match cfg.overtime_rate_weekend {
            Some(r) => r,
            None => cfg.overtime_rate,
        },
        DayKind::Holiday => match cfg.overtime_rate_holiday {
            Some(r) => r,
            None => match cfg.overtime_rate_weekend {
                Some(r) => r,
                None => cfg.overtime_rate,
            },
        },
    }
}

/// Each kind of day has its own overtime rate when one is set and falls back one step
/// otherwise (holiday to rest day, rest day to workday); a kind's rate never depends on
/// the rates of the kinds after it in that chain: the workday rate ignores the rest-day
/// and holiday rates, the rest-day rate ignores the holiday rate.
pub proof fn law_rate_fallbacks<M>(a: Config<M>, b: Config<M>)
    ensures
        rate_spec(a, DayKind::Workday) == a.overtime_rate,
        a.overtime_rate_weekend matches Some(w) ==> rate_spec(a, DayKind::Weekend) == w,
        a.overtime_rate_weekend is None ==> rate_spec(a, DayKind::Weekend) == a.overtime_rate,
        a.overtime_rate_holiday matches Some(h) ==> rate_spec(a, DayKind::Holiday) == h,
        a.overtime_rate_holiday is None ==> rate_spec(a, DayKind::Holiday) == rate_spec(a, DayKind::Weekend),
        a.overtime_rate == b.overtime_rate ==> rate_spec(a, DayKind::Workday) == rate_spec(b, DayKind::Workday),
        a.overtime_rate == b.overtime_rate && a.overtime_rate_weekend == b.overtime_rate_weekend ==> rate_spec(
            a,
            DayKind::Weekend,
        ) == rate_spec(b, DayKind::Weekend),
{
}

/// Hourly overtime rate of a kind of day.
pub fn rate_of<M>(cfg: &Config<M>, kind: DayKind) -> (r: &M)
    ensures
        *r == rate_spec(*cfg, kind),
        kind == DayKind::Workday ==> *r == cfg.overtime_rate,
        kind == DayKind::Weekend ==> (cfg.overtime_rate_weekend matches Some(w) ==> *r == w)
            && (cfg.overtime_rate_weekend is None ==> *r == cfg.overtime_rate),
        kind == DayKind::Holiday ==> (cfg.overtime_rate_holiday matches Some(h) ==> *r == h)
            && (cfg.overtime_rate_holiday is None ==> *r == rate_spec(*cfg, DayKind::Weekend)),
{
    proof {
        law_rate_fallbacks(*cfg, *cfg);
    }
    match kind {
        DayKind::Workday => &cfg.overtime_rate,
        DayKind::Weekend => match &cfg.overtime_rate_weekend {
            Some(r) => r,
            None => &cfg.overtime_rate,
        },
        DayKind::Holiday => match &cfg.overtime_rate_holiday {
            Some(r) => r,
            None => match &cfg.overtime_rate_weekend {
                Some(r) => r,
                None => &cfg.overtime_rate,
            },
        },
    }
}

/// Counted overtime in half hours: nothing under one hour, else whole half hours.
pub open spec fn valid_half_hours_spec(raw_secs: int) -> int {
    if raw_secs < 3600 {
        0
    } else {
        raw_secs / 1800
    }
}

/// Counted overtime in half hours of `raw_secs` seconds (under one hour counts nothing).
pub fn valid_half_hours(raw_secs: u64) -> (r: u64)
    ensures
        r as int == valid_half_hours_spec(raw_secs as int),
        r == 0 || r >= 2,
{
    if raw_secs < 3600 {
        0
    } else {
        raw_secs / 1800
    }
}

/// One day's overtime, without amounts of money.
#[derive(Debug)]
pub struct OvertimeCalc {
    pub date: Date,
    /// `YYYY-MM-DD` of the day.
    pub date_text: String,
    /// Departure `HH:MM` (the time of day, also after midnight).
    pub lock_time: String,
    /// Overtime start `HH:MM`.
    pub ot_start: String,
    /// Raw overtime in tenths of an hour, rounded half up.
    pub raw_tenths: u64,
    /// Counted overtime in half hours.
    pub valid_half_hours: u64,
    /// Kind of the day (selects the rate).
    pub kind: DayKind,
    /// The meal allowance is added.
    pub with_meal: bool,
    /// `SOURCE_AUTO` or `SOURCE_MANUAL`.
    pub source: i32,
    /// The departure was after midnight.
    pub cross_midnight: bool,
}

/// Seconds of a start text, 0 when it is not `H:M` (only used where it is).
pub open spec fn start_secs(s: Seq<char>) -> int {
    match clock::hm_secs(s) {
        Some(x) => x,
        None => 0,
    }
}

/// A record is produced: the switch allows the day, the start text parses and the
/// departure is at least one hour after it.
pub open spec fn record_exists<M>(
    lock_secs: int,
    start: Seq<char>,
    cfg: Config<M>,
    kind: DayKind,
) -> bool {
    &&& !(kind != DayKind::Workday && !cfg.weekend_overtime)
    &&& clock::hm_secs(start) is Some
    &&& lock_secs >= start_secs(start) + 3600
}

/// What a produced record holds.
pub open spec fn record_matches<M>(
    c: OvertimeCalc,
    d: Date,
    lock_secs: int,
    cross: bool,
    start: Seq<char>,
    cfg: Config<M>,
    kind: DayKind,
) -> bool {
    let raw = lock_secs - start_secs(start);
    &&& c.date == d
    &&& c.date_text@ == date::chrono_ymd_text(d)
    &&& c.lock_time@ == clock::hm_text((if cross { lock_secs - DAY_SECS } else { lock_secs }) as nat)
    &&& c.ot_start@ == clock::hm_text((start_secs(start)) as nat)
    &&& c.raw_tenths == (raw + 180) / 360
    &&& c.valid_half_hours == valid_half_hours_spec(raw)
    &&& c.kind == kind
    &&& c.with_meal == cfg.overtime_meal_enabled
    &&& c.source == SOURCE_AUTO
    &&& c.cross_midnight == cross
}

pub open spec fn chosen_start<M>(over: Option<&str>, cfg: Config<M>, kind: DayKind) -> Seq<char> {
    match over {
        Some(s) => s@,
        None => ot_start_text(cfg, kind),
    }
}

/// One day's overtime from its end (`lock_secs`, seconds of the day, 24 h added after
/// midnight) and its start (the override, else the kind's configured start). `None`
/// when the rest-day switch is off for a rest day, the start is not `H:M`, or less than
/// one hour was worked past the start.
pub fn compute_record<M>(
    date: Date,
    lock_secs: u64,
    cross_midnight: bool,
    ot_start_override: Option<&str>,
    cfg: &Config<M>,
    kind: DayKind,
) -> (r: Option<OvertimeCalc>)
    requires
        date.wf(),
        lock_secs < 2 * DAY_SECS,
        cross_midnight ==> lock_secs >= DAY_SECS,
    ensures
        r is Some <==> record_exists(
            lock_secs as int,
            chosen_start(ot_start_override, *cfg, kind),
            *cfg,
            kind,
        ),
        r matches Some(c) ==> record_matches(
            c,
            date,
            lock_secs as int,
            cross_midnight,
            chosen_start(ot_start_override, *cfg, kind),
            *cfg,
            kind,
        ),
{
    if kind.is_rest() && !cfg.weekend_overtime {
        return None;
    }
    let start_str = match ot_start_override {
        Some(s) => s,
        None => ot_start_of(cfg, kind),
    };
    let start_secs = match parse_hm_secs(start_str) {
        Some(x) => x,
        None => return None,
    };
    if lock_secs <= start_secs {
        return None;
    }
    let raw = lock_secs - start_secs;
    let valid = valid_half_hours(raw);
    if valid < 2 {
        return None;
    }
    let shown = if cross_midnight {
        lock_secs - DAY_SECS
    } else {
        lock_secs
    };
    Some(
        OvertimeCalc {
            date,
            date_text: format_ymd(date),
            lock_time: hm_string(shown),
            ot_start: hm_string(start_secs),
            raw_tenths: (raw + 180) / 360,
            valid_half_hours: valid,
            kind,
            with_meal: cfg.overtime_meal_enabled,
            source: SOURCE_AUTO,
            cross_midnight,
        },
    )
}

/// Overtime of a lock-screen departure, on the day the departure belongs to.
pub fn calc_record_auto<M>(
    lock_time: LocalNow,
    cfg: &Config<M>,
    holiday: Option<&HolidayCache>,
) -> (r: Option<OvertimeCalc>)
    requires
        lock_time.wf(),
    ensures
        ({
            let (d, secs, cross) = resolve_spec(lock_time);
            let kind = day_kind_spec(d, table_of(holiday));
            let start = ot_start_text(*cfg, kind);
            &&& r is Some <==> record_exists(secs, start, *cfg, kind)
            &&& r matches Some(c) ==> record_matches(c, d, secs, cross, start, *cfg, kind)
        }),
{
    let (date, secs, cross) = resolve_overtime_day(lock_time);
    let kind = day_kind(date, holiday);
    compute_record(date, secs, cross, None, cfg, kind)
}

/// A manual entry: day, departure time, optional start override, after-midnight flag.
#[derive(Clone, Debug)]
pub struct ManualOvertimeInput {
    /// `YYYY-MM-DD`
    pub date: String,
    /// Departure `HH:MM`.
    pub lock_time: String,
    /// Overtime start `HH:MM` replacing the configured one.
    pub ot_start: Option<String>,
    /// The departure was after midnight (24 h are added).
    pub cross_midnight: bool,
}

/// Hours and minutes of a departure text: `H:M` with an hour below 24 and a minute below 60.
pub open spec fn lock_parts(s: Seq<char>) -> Option<(nat, nat)> {
    match clock::hm_parts(s) {
        Some(p) => if p.0 < 24 && p.1 < 60 {
            Some(p)
        } else {
            None
        },
        None => None,
    }
}

/// End of a manual entry in seconds of its day (24 h added after midnight).
pub open spec fn manual_lock_secs(input: ManualOvertimeInput) -> int {
    match lock_parts(input.lock_time@) {
        Some(p) => 3600 * p.0 + 60 * p.1 + (if input.cross_midnight { DAY_SECS as int } else { 0 }),
        None => 0,
    }
}

/// Start text of a manual entry: its override, else the kind's configured start.
pub open spec fn manual_start<M>(input: ManualOvertimeInput, cfg: Config<M>, kind: DayKind) -> Seq<char> {
    match input.ot_start {
        Some(s) => s@,
        None => ot_start_text(cfg, kind),
    }
}

/// The error a manual entry gets, in the order the checks are made; `None` when it is
/// accepted. `today` is the local date, `lock_is_local` whether the departure names one
/// local instant.
pub open spec fn manual_error<M>(
    input: ManualOvertimeInput,
    cfg: Config<M>,
    days: Option<Map<i64, u8>>,
    today: Date,
    lock_is_local: bool,
) -> Option<Seq<char>> {
    match date::chrono_parse_ymd(input.date@) {
        None => Some("日期格式错误"@),
        Some(d) => if date::day_number(d) > date::day_number(today) {
            Some("不能添加未来日期的加班记录"@)
        } else {
            let kind = day_kind_spec(d, days);
            if kind != DayKind::Workday && !cfg.weekend_overtime {
                Some(kind_label(kind) + "加班功能未开启，请在设置中开启「休息日 / 节假日加班」"@)
            } else if lock_parts(input.lock_time@) is None || !lock_is_local {
                Some("下班时间格式错误，应为 HH:MM"@)
            } else {
                let start = manual_start(input, cfg, kind);
                let ls = manual_lock_secs(input);
                if clock::hm_secs(start) is None {
                    Some("加班起算时间格式错误"@)
                } else if ls <= start_secs(start) {
                    Some("下班时间 "@ + input.lock_time@ + " 需晚于加班起算时间 "@ + start)
                } else if ls < start_secs(start) + 3600 {
                    Some("加班时长不足 1 小时，无法生成有效记录"@)
                } else {
                    None
                }
            }
        },
    }
}

/// What `save_manual_at` gives for one local date and time-zone answer.
pub open spec fn manual_outcome<M>(
    r: Result<OvertimeCalc, String>,
    input: ManualOvertimeInput,
    cfg: Config<M>,
    days: Option<Map<i64, u8>>,
    today: Date,
    lock_is_local: bool,
) -> bool {
    match r {
        Err(e) => manual_error(input, cfg, days, today, lock_is_local) == Some(e@),
        Ok(c) => {
            &&& manual_error(input, cfg, days, today, lock_is_local) is None
            &&& date::chrono_parse_ymd(input.date@) matches Some(d) && {
                let kind = day_kind_spec(d, days);
                record_matches(
                    c,
                    d,
                    manual_lock_secs(input),
                    input.cross_midnight,
                    manual_start(input, cfg, kind),
                    cfg,
                    kind,
                )
            }
        },
    }
}

/// Checks a manual entry against the local date `today` and builds its record.
pub fn save_manual_at<M>(
    input: &ManualOvertimeInput,
    cfg: &Config<M>,
    holiday: Option<&HolidayCache>,
    today: Date,
    lock_is_local: bool,
) -> (r: Result<OvertimeCalc, String>)
    requires
        today.wf(),
    ensures
        manual_outcome(r, *input, *cfg, table_of(holiday), today, lock_is_local),
{
    let d = match parse_ymd(input.date.as_str()) {
        Some(d) => d,
        None => return Err(String::from_str("日期格式错误")),
    };
    if days_between(d, today) > 0 {
        return Err(String::from_str("不能添加未来日期的加班记录"));
    }
    let kind = day_kind(d, holiday);
    if kind.is_rest() && !cfg.weekend_overtime {
        let mut e = String::from_str(kind.label());
        e.append("加班功能未开启，请在设置中开启「休息日 / 节假日加班」");
        return Err(e);
    }
    let (h, m) = match parse_hm_parts(input.lock_time.as_str()) {
        Some((h, m)) => {
            if h < 24 && m < 60 && lock_is_local {
                (h, m)
            } else {
                return Err(String::from_str("下班时间格式错误，应为 HH:MM"));
            }
        },
        None => return Err(String::from_str("下班时间格式错误，应为 HH:MM")),
    };
    let start_str: &str = match &input.ot_start {
        Some(s) => s.as_str(),
        None => ot_start_of(cfg, kind),
    };
    let start_secs = match parse_hm_secs(start_str) {
        Some(x) => x,
        None => return Err(String::from_str("加班起算时间格式错误")),
    };
    let lock_secs = h * 3600 + m * 60 + if input.cross_midnight {
        DAY_SECS
    } else {
        0
    };
    if lock_secs <= start_secs {
        let mut e = String::from_str("下班时间 ");
        e.append(input.lock_time.as_str());
        e.append(" 需晚于加班起算时间 ");
        e.append(start_str);
        return Err(e);
    }
    if valid_half_hours(lock_secs - start_secs) < 2 {
        return Err(String::from_str("加班时长不足 1 小时，无法生成有效记录"));
    }
    match compute_record(d, lock_secs, input.cross_midnight, Some(start_str), cfg, kind) {
        Some(c) => Ok(c),
        None => Err(String::from_str("无法生成加班记录")),
    }
}

/// Checks a manual entry against today's local date and builds its record (storing it
/// is the caller's part). Which day is today depends on the clock, and whether the
/// departure names one local instant on the time zone; the result is what
/// `save_manual_at` gives for some valid date and some answer.
pub fn save_manual<M>(
    input: ManualOvertimeInput,
    cfg: &Config<M>,
    holiday: Option<&HolidayCache>,
) -> (r: Result<OvertimeCalc, String>)
    ensures
        exists|today: Date, local: bool|
            today.wf() && #[trigger] manual_outcome(r, input, *cfg, table_of(holiday), today, local),
{
    let today = local_now().date;
    let local = match (parse_ymd(input.date.as_str()), parse_hm_parts(input.lock_time.as_str())) {
        (Some(d), Some((h, m))) => {
            if h < 24 && m < 60 {
                date::local_wall_ms(d, h as u32, m as u32).is_some()
            } else {
                true
            }
        },
        _ => true,
    };
    save_manual_at(&input, cfg, holiday, today, local)
}

/// A date text names a day after `today`; texts that are not dates count as future.
pub open spec fn is_future_spec(date: Seq<char>, today: Date) -> bool {
    match date::chrono_parse_ymd(date) {
        Some(d) => date::day_number(d) > date::day_number(today),
        None => true,
    }
}

/// Whether a date text names a day after `today` (texts that are not dates do).
pub fn is_future_on(date: &str, today: Date) -> (r: bool)
    requires
        today.wf(),
    ensures
        r == is_future_spec(date@, today),
{
    match parse_ymd(date) {
        Some(d) => days_between(d, today) > 0,
        None => true,
    }
}

/// Whether a date text names a day after the current local date.
pub fn is_future(date: &str) -> (r: bool)
    ensures
        exists|today: Date| today.wf() && r == #[trigger] is_future_spec(date@, today),
{
    is_future_on(date, local_now().date)
}

/// The error a deletion request gets before the store is touched.
pub open spec fn delete_error(date: Seq<char>, today: Date) -> Option<Seq<char>> {
    if is_future_spec(date, today) {
        Some("不能删除未来日期的记录"@)
    } else if date::chrono_parse_ymd(date) is None {
        Some("日期格式错误"@)
    } else {
        None
    }
}

/// Checks a deletion request against the local date `today`.
pub fn delete_manual_at(date: &str, today: Date) -> (r: Result<(), String>)
    requires
        today.wf(),
    ensures
        r is Ok <==> delete_error(date@, today) is None,
        r matches Err(e) ==> delete_error(date@, today) == Some(e@),
{
    if is_future_on(date, today) {
        return Err(String::from_str("不能删除未来日期的记录"));
    }
    if parse_ymd(date).is_none() {
        return Err(String::from_str("日期格式错误"));
    }
    Ok(())
}

/// Checks a deletion request against today's local date (removing the row is the
/// caller's part).
pub fn delete_manual(date: &str) -> (r: Result<(), String>)
    ensures
        exists|today: Date|
            today.wf() && (r is Ok <==> #[trigger] delete_error(date@, today) is None) && (r matches Err(
                e,
            ) ==> delete_error(date@, today) == Some(e@)),
{
    delete_manual_at(date, local_now().date)
}

/// Outcome of a deletion that removed `rows` rows: none removed is an error.
pub fn deleted_rows_result(rows: u64) -> (r: Result<(), String>)
    ensures
        r is Ok <==> rows > 0,
        r matches Err(e) ==> e@ == "未找到该日期的加班记录"@,
{
    if rows == 0 {
        Err(String::from_str("未找到该日期的加班记录"))
    } else {
        Ok(())
    }
}

/// Year and month of a `YYYY-MM-DD` text.
pub fn month_of(date: &str) -> (r: Option<(i32, u32)>)
    ensures
        r == (match date::chrono_parse_ymd(date@) {
            Some(d) => Some((d.year, d.month)),
            None => None::<(i32, u32)>,
        }),
{
    match parse_ymd(date) {
        Some(d) => Some((d.year, d.month)),
        None => None,
    }
}

/// Counted overtime is the raw time floored to half hours, and nothing under an hour.
pub proof fn law_valid_hours_floor(raw_secs: int)
    requires
        raw_secs >= 3600,
    ensures
        1800 * valid_half_hours_spec(raw_secs) <= raw_secs < 1800 * (valid_half_hours_spec(raw_secs) + 1),
        valid_half_hours_spec(raw_secs) >= 2,
{
}

/// More raw time never counts less.
pub proof fn law_valid_hours_monotone(a: int, b: int)
    requires
        0 <= a <= b,
    ensures
        valid_half_hours_spec(a) <= valid_half_hours_spec(b),
{
    if a >= 3600 {
        assert(a / 1800 <= b / 1800) by (nonlinear_arith)
            requires
                a <= b,
                a >= 0,
        ;
    }
}

/// A make-up workday counts as a workday whatever day of the week it is, so its
/// overtime starts at the workday start and does not depend on the rest-day switch.
pub proof fn law_makeup_day_is_workday<M>(d: Date, days: Map<i64, u8>, cfg: Config<M>, lock_secs: int)
    requires
        holiday::type_in(days, d) == Some(DAY_MAKEUP),
    ensures
        day_kind_spec(d, Some(days)) == DayKind::Workday,
        record_exists(lock_secs, ot_start_text(cfg, DayKind::Workday), cfg, DayKind::Workday)
            == record_exists(
            lock_secs,
            ot_start_text(Config { weekend_overtime: !cfg.weekend_overtime, ..cfg }, DayKind::Workday),
            Config { weekend_overtime: !cfg.weekend_overtime, ..cfg },
            DayKind::Workday,
        ),
{
}

/// Whether a write replaces the stored row of its date.
pub open spec fn replaces(existing_source: Option<i32>, force: bool) -> bool {
    existing_source is None || force || existing_source == Some(SOURCE_AUTO)
}

/// Source of a date's stored row after a write of `source` (`force` for manual writes).
pub open spec fn source_after(existing_source: Option<i32>, source: i32, force: bool) -> Option<i32> {
    if replaces(existing_source, force) {
        Some(source)
    } else {
        existing_source
    }
}

/// Once a manual record is written, automatic writes never replace it; a manual write
/// replaces anything; an automatic write replaces an automatic record.
pub proof fn law_manual_never_overwritten_by_auto(existing_source: Option<i32>, autos: nat)
    ensures
        auto_writes(source_after(existing_source, SOURCE_MANUAL, true), autos) == Some(SOURCE_MANUAL),
        source_after(Some(SOURCE_AUTO), SOURCE_AUTO, false) == Some(SOURCE_AUTO),
        source_after(existing_source, SOURCE_MANUAL, true) == Some(SOURCE_MANUAL),
    decreases autos,
{
    if autos > 0 {
        law_manual_never_overwritten_by_auto(existing_source, (autos - 1) as nat);
    }
}

/// Source of a row after `n` automatic writes.
pub open spec fn auto_writes(existing_source: Option<i32>, n: nat) -> Option<i32>
    decreases n,
{
    if n == 0 {
        existing_source
    } else {
        source_after(auto_writes(existing_source, (n - 1) as nat), SOURCE_AUTO, false)
    }
}

/// The lock still to handle: the last one, when tracking is on and it was not handled.
pub open spec fn lock_pick(enabled: bool, last_lock: Option<i64>, seen: Option<i64>) -> Option<i64> {
    if enabled && last_lock is Some && last_lock != seen {
        last_lock
    } else {
        None
    }
}

/// The handled lock after trying to store the record of `picked` (`persist` is the
/// outcome of the write, `None` when nothing had to be written).
pub open spec fn seen_after(seen: Option<i64>, picked: i64, persist: Option<Result<(), String>>) -> Option<i64> {
    if persist matches Some(Err(_)) {
        seen
    } else {
        Some(picked)
    }
}

/// A lock is handled once when its record was stored (or nothing had to be stored),
/// and handled again on the next check when the write failed.
pub proof fn law_lock_handled_once(enabled: bool, ts: i64, seen: Option<i64>, persist: Option<Result<(), String>>)
    requires
        lock_pick(enabled, Some(ts), seen) == Some(ts),
    ensures
        !(persist matches Some(Err(_))) ==> lock_pick(enabled, Some(ts), seen_after(seen, ts, persist)) is None,
        persist matches Some(Err(_)) ==> lock_pick(enabled, Some(ts), seen_after(seen, ts, persist)) == Some(ts),
{
}

/// The screen lock to turn into an overtime record: with overtime tracking on, the
/// last lock when it has not been handled yet.
pub fn lock_to_process(enabled: bool, last_lock: Option<i64>, seen: Option<i64>) -> (r: Option<i64>)
    ensures
        r == lock_pick(enabled, last_lock, seen),
{
    if !enabled {
        return None;
    }
    match last_lock {
        Some(ts) => match seen {
            Some(s) => if s == ts {
                None
            } else {
                Some(ts)
            },
            None => Some(ts),
        },
        None => None,
    }
}

/// Whether a stored row is replaced by a new one: a new date is always written, a
/// manual write replaces anything, an automatic write replaces automatic rows only.
pub fn upsert_replaces(existing_source: Option<i32>, force: bool) -> (r: bool)
    ensures
        r == replaces(existing_source, force),
        existing_source == Some(SOURCE_MANUAL) && !force ==> !r,
{
    match existing_source {
        None => true,
        Some(s) => force || s == SOURCE_AUTO,
    }
}

/// Whether a lock event counts as handled: nothing to store, or stored; a failed write
/// leaves it for the next round.
pub fn should_mark_lock_seen(persist: Option<Result<(), String>>) -> (r: bool)
    ensures
        r == !(persist matches Some(Err(_))),
{
    match persist {
        None => true,
        Some(Ok(())) => true,
        Some(Err(_)) => false,
    }
}

} // verus!
