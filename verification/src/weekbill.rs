//! The week bill: seven days of salary basis, overtime, activity counts and
//! slacking seconds folded into one plan. Money is not computed here: each day
//! says which salary applies and carries the month's workday divisor; the
//! caller turns that into amounts.

use crate::app_usage;
use crate::app_usage::is_slack_app;
use crate::calc::is_workday_on;
use crate::clock;
use crate::clock::push_decimal;
use crate::config;
use crate::config::{effective_workdays_override, Config};
use crate::date;
use crate::date::{
    add_days, days_between, format_ymd, iso_week_number, weekday_from_monday, Date, MAX_YEAR,
};
use crate::holiday;
use crate::holiday::{builtin_cache, weekday_count, HolidayCache};
use vstd::prelude::*;
use vstd::string::*;

pub use crate::date::week_start_of;

verus! {

/// Largest magnitude of a per-day count or total accepted from storage.
pub const ROW_BOUND: i64 = 1_000_000_000_000_000_000;

/// Chinese weekday name, 0 = Monday.
pub open spec fn weekday_cn_spec(i: int) -> Seq<char> {
    if i == 0 {
        "周一"@
    } else if i == 1 {
        "周二"@
    } else if i == 2 {
        "周三"@
    } else if i == 3 {
        "周四"@
    } else if i == 4 {
        "周五"@
    } else if i == 5 {
        "周六"@
    } else {
        "周日"@
    }
}

/// Chinese weekday name of a date.
pub fn weekday_cn(d: Date) -> (r: String)
    requires
        d.wf(),
    ensures
        r@ == weekday_cn_spec(date::weekday_index(d)),
{
    let w = weekday_from_monday(d);
    let s = if w == 0 {
        "周一"
    } else if w == 1 {
        "周二"
    } else if w == 2 {
        "周三"
    } else if w == 3 {
        "周四"
    } else if w == 4 {
        "周五"
    } else if w == 5 {
        "周六"
    } else {
        "周日"
    };
    String::from_str(s)
}

/// The holiday table used for a year: the current one for its own year or when no
/// built-in schedule covers the year, else the built-in schedule.
pub open spec fn table_for(cur: HolidayCache, y: int) -> (i32, Map<i64, u8>) {
    if cur.year == y || !holiday::has_builtin(y) {
        (cur.year, cur.days@)
    } else {
        (y as i32, holiday::builtin_days(y))
    }
}

/// Whether a date is worked, by the table of its own year (weekday fallback).
pub open spec fn workday_of_spec(d: Date, cur: HolidayCache) -> bool {
    crate::calc::workday_on_spec(table_for(cur, d.year as int).1, d)
}

/// Whether a date is worked, by the table of its own year (weekday fallback); no
/// network access.
pub fn is_workday_of(d: Date, cur: &HolidayCache) -> (r: bool)
    requires
        d.wf(),
    ensures
        r == workday_of_spec(d, *cur),
{
    if cur.year == d.year {
        return is_workday_on(cur, d);
    }
    match builtin_cache(d.year) {
        Some(c) => is_workday_on(&c, d),
        None => is_workday_on(cur, d),
    }
}

/// Workday divisor of a month: the override in force, else the table's count, else
/// Monday-to-Friday days.
pub open spec fn monthly_workdays_spec<M>(y: int, m: int, cfg: Config<M>, cur: HolidayCache) -> int {
    match config::effective_override_spec(
        cfg.workdays_override,
        config::opt_view(cfg.workdays_override_for),
        y,
        m as nat,
    ) {
        Some(v) => v as int,
        None => {
            let (ty, days) = table_for(cur, y);
            let n = holiday::workdays_upto(days, y, m, date::month_len(y, m));
            if ty == y && days.len() != 0 && n != 0 {
                n as int
            } else {
                holiday::weekdays_upto(y, m, date::month_len(y, m)) as int
            }
        },
    }
}

/// Workday divisor of a month (override, holiday table of that year, weekdays).
pub fn monthly_workdays_of<M>(year: i32, month: u32, cfg: &Config<M>, cur: &HolidayCache) -> (r: u32)
    requires
        holiday::countable_month(year as int, month as int),
    ensures
        r as int == monthly_workdays_spec(year as int, month as int, *cfg, *cur),
{
    if let Some(v) = effective_workdays_override(cfg, year, month) {
        return v;
    }
    proof {
        holiday::lemma_workdays_upto_le(
            table_for(*cur, year as int).1,
            year as int,
            month as int,
            date::month_len(year as int, month as int),
        );
    }
    let found = if cur.year == year {
        cur.month_workdays(year, month)
    } else {
        match builtin_cache(year) {
            Some(c) => c.month_workdays(year, month),
            None => cur.month_workdays(year, month),
        }
    };
    match found {
        Some(n) => n,
        None => weekday_count(year, month),
    }
}

/// Overtime of one day from storage: its date text, its summed amount and its summed
/// counted hours expressed in half hours.
#[derive(Debug)]
pub struct OtDay<M> {
    pub date: String,
    pub total: M,
    pub valid_half_hours: i64,
}

/// Activity of one day from storage: all events, keys and clicks.
#[derive(Clone, Debug)]
pub struct ActDay {
    pub date: String,
    pub events: i64,
    pub keys: i64,
    pub clicks: i64,
}

/// Foreground seconds of one application on one day.
#[derive(Clone, Debug)]
pub struct AppDaySecs {
    pub date: String,
    pub app: String,
    pub seconds: i64,
}

/// Which salary a day earns.
#[derive(Clone, Copy, Debug, PartialEq, Eq, Structural)]
pub enum SalaryBasis {
    /// Not a workday: nothing.
    Rest,
    /// Today: what has been earned so far.
    Today,
    /// A past workday: a full day (monthly salary over the month's workdays).
    FullDay,
    /// A workday still to come: nothing yet.
    NotYet,
}

/// One day of the bill, without amounts of money.
#[derive(Debug)]
pub struct DayPlan {
    pub date: Date,
    /// `YYYY-MM-DD`
    pub date_text: String,
    /// `周一` .. `周日`
    pub weekday: String,
    pub is_workday: bool,
    /// Workday divisor of the day's month.
    pub monthly_workdays: u32,
    pub salary: SalaryBasis,
    /// Index of the overtime row of the day (its amount is the day's overtime pay).
    pub ot_row: Option<usize>,
    pub ot_half_hours: i64,
    pub act_events: i64,
    pub keys: i64,
    pub clicks: i64,
    /// Foreground seconds of all applications.
    pub front_seconds: i64,
    /// Foreground seconds of slacking applications.
    pub slack_seconds: i64,
    /// Any monitoring evidence: events or foreground seconds.
    pub has_record: bool,
}

/// The week, without amounts of money.
#[derive(Debug)]
pub struct WeekPlan {
    pub week_start: String,
    pub week_end: String,
    /// `第 N 周` (ISO week of the Monday).
    pub week_no: String,
    pub days: Vec<DayPlan>,
    /// Workdays with a record; `None` when activity and application monitoring are both off.
    pub work_days: Option<i64>,
    /// Workdays with a record (also when monitoring is off).
    pub attended_days: i64,
    pub ot_half_hours: i64,
    pub keys_total: i64,
    pub clicks_total: i64,
    /// Slacking seconds of attended workdays.
    pub slack_work: i64,
    /// Foreground seconds of attended workdays.
    pub front_work: i64,
    /// Day with the most overtime (first of equals), when any day has overtime.
    pub hardest: Option<usize>,
    /// Day with the highest positive slacking share (first of equals) among days with a record.
    pub slackiest: Option<usize>,
}

/// Index of the last overtime row of a date.
pub open spec fn last_ot<M>(rows: Seq<OtDay<M>>, key: Seq<char>) -> Option<int>
    decreases rows.len(),
{
    if rows.len() == 0 {
        None
    } else if rows.last().date@ == key {
        Some(rows.len() - 1)
    } else {
        last_ot(rows.drop_last(), key)
    }
}

/// Index of the last activity row of a date.
pub open spec fn last_act(rows: Seq<ActDay>, key: Seq<char>) -> Option<int>
    decreases rows.len(),
{
    if rows.len() == 0 {
        None
    } else if rows.last().date@ == key {
        Some(rows.len() - 1)
    } else {
        last_act(rows.drop_last(), key)
    }
}

/// Foreground seconds of a date.
pub open spec fn front_sum(rows: Seq<AppDaySecs>, key: Seq<char>) -> int
    decreases rows.len(),
{
    if rows.len() == 0 {
        0
    } else {
        front_sum(rows.drop_last(), key) + if rows.last().date@ == key {
            rows.last().seconds as int
        } else {
            0
        }
    }
}

/// Slacking seconds of a date.
pub open spec fn slack_sum(rows: Seq<AppDaySecs>, key: Seq<char>) -> int
    decreases rows.len(),
{
    if rows.len() == 0 {
        0
    } else {
        slack_sum(rows.drop_last(), key) + if rows.last().date@ == key
            && app_usage::slack_apps_spec().contains(rows.last().app@) {
            rows.last().seconds as int
        } else {
            0
        }
    }
}

/// Seconds of all rows.
pub open spec fn all_sum(rows: Seq<AppDaySecs>) -> int
    decreases rows.len(),
{
    if rows.len() == 0 {
        0
    } else {
        all_sum(rows.drop_last()) + rows.last().seconds
    }
}

/// Rows the week can be built from without overflow.
pub open spec fn rows_in_bounds<M>(ot: Seq<OtDay<M>>, act: Seq<ActDay>, app: Seq<AppDaySecs>) -> bool {
    &&& forall|i: int|
        0 <= i < ot.len() ==> -ROW_BOUND <= #[trigger] ot[i].valid_half_hours <= ROW_BOUND
    &&& forall|i: int|
        0 <= i < act.len() ==> -ROW_BOUND <= (#[trigger] act[i]).keys <= ROW_BOUND && act[i].clicks
            <= ROW_BOUND
    &&& forall|i: int| 0 <= i < app.len() ==> 0 <= #[trigger] app[i].seconds
    &&& all_sum(app) <= ROW_BOUND
}

/// What the plan of one day holds: `d` is the day, `today` the local date.
pub open spec fn day_matches<M>(
    p: DayPlan,
    d: Date,
    today: Date,
    cfg: Config<M>,
    cur: HolidayCache,
    ot: Seq<OtDay<M>>,
    act: Seq<ActDay>,
    app: Seq<AppDaySecs>,
) -> bool {
    let key = date::chrono_ymd_text(d);
    let wd = workday_of_spec(d, cur);
    &&& p.date == d
    &&& p.date_text@ == key
    &&& p.weekday@ == weekday_cn_spec(date::weekday_index(d))
    &&& p.is_workday == wd
    &&& p.monthly_workdays as int == monthly_workdays_spec(d.year as int, d.month as int, cfg, cur)
    &&& p.salary == (if !wd {
        SalaryBasis::Rest
    } else if d == today {
        SalaryBasis::Today
    } else if date::day_number(d) < date::day_number(today) {
        SalaryBasis::FullDay
    } else {
        SalaryBasis::NotYet
    })
    &&& (match last_ot(ot, key) {
        Some(j) => p.ot_row == Some(j as usize) && p.ot_half_hours == ot[j].valid_half_hours,
        None => p.ot_row is None && p.ot_half_hours == 0,
    })
    &&& (match last_act(act, key) {
        Some(j) => p.act_events == act[j].events && p.keys == act[j].keys && p.clicks == (if act[j].clicks
            > 0 {
            act[j].clicks
        } else {
            0
        }),
        None => p.act_events == 0 && p.keys == 0 && p.clicks == 0,
    })
    &&& p.front_seconds == front_sum(app, key)
    &&& p.slack_seconds == slack_sum(app, key)
    &&& p.has_record == (p.act_events > 0 || p.front_seconds > 0)
}

proof fn lemma_sums_bounded(rows: Seq<AppDaySecs>, key: Seq<char>)
    requires
        forall|i: int| 0 <= i < rows.len() ==> 0 <= #[trigger] rows[i].seconds,
    ensures
        0 <= slack_sum(rows, key) <= front_sum(rows, key) <= all_sum(rows),
    decreases rows.len(),
{
    if rows.len() > 0 {
        let t = rows.drop_last();
        assert forall|i: int| 0 <= i < t.len() implies 0 <= #[trigger] t[i].seconds by {
            assert(t[i] == rows[i]);
        }
        lemma_sums_bounded(t, key);
        assert(0 <= rows[rows.len() - 1].seconds);
    }
}

proof fn lemma_all_sum_prefix(rows: Seq<AppDaySecs>, i: int)
    requires
        0 <= i <= rows.len(),
        forall|k: int| 0 <= k < rows.len() ==> 0 <= #[trigger] rows[k].seconds,
    ensures
        0 <= all_sum(rows.subrange(0, i)) <= all_sum(rows),
    decreases rows.len(),
{
    if rows.len() > 0 {
        let t = rows.drop_last();
        assert forall|k: int| 0 <= k < t.len() implies 0 <= #[trigger] t[k].seconds by {
            assert(t[k] == rows[k]);
        }
        if i < rows.len() {
            assert(rows.subrange(0, i) == t.subrange(0, i));
            lemma_all_sum_prefix(t, i);
        } else {
            assert(rows.subrange(0, i) == rows);
            lemma_all_sum_prefix(t, t.len() as int);
            assert(t.subrange(0, t.len() as int) == t);
            assert(0 <= rows[rows.len() - 1].seconds);
        }
    }
}

/// Foreground and slacking seconds of a date.
fn app_seconds_of(app: &Vec<AppDaySecs>, key: &str) -> (r: (i64, i64))
    requires
        forall|i: int| 0 <= i < app@.len() ==> 0 <= #[trigger] app@[i].seconds,
        all_sum(app@) <= ROW_BOUND,
    ensures
        r.0 == front_sum(app@, key@),
        r.1 == slack_sum(app@, key@),
        0 <= r.1 <= r.0 <= ROW_BOUND,
{
    let mut front: i64 = 0;
    let mut slack: i64 = 0;
    let mut i: usize = 0;
    while i < app.len()
        invariant
            i <= app@.len(),
            forall|k: int| 0 <= k < app@.len() ==> 0 <= #[trigger] app@[k].seconds,
            all_sum(app@) <= ROW_BOUND,
            front == front_sum(app@.subrange(0, i as int), key@),
            slack == slack_sum(app@.subrange(0, i as int), key@),
            0 <= slack <= front <= all_sum(app@.subrange(0, i as int)),
        decreases app@.len() - i,
    {
        let row = &app[i];
        proof {
            let pre = app@.subrange(0, i as int);
            let post = app@.subrange(0, i + 1);
            assert(post.drop_last() == pre);
            assert(post.last() == app@[i as int]);
            lemma_all_sum_prefix(app@, i + 1);
            assert forall|k: int| 0 <= k < post.len() implies 0 <= #[trigger] post[k].seconds by {
                assert(post[k] == app@[k]);
            }
            lemma_sums_bounded(post, key@);
        }
        if text_matches(&row.date, key) {
            front = front + row.seconds;
            if is_slack_app(row.app.as_str()) {
                slack = slack + row.seconds;
            }
        }
        i += 1;
    }
    proof {
        assert(app@.subrange(0, app@.len() as int) == app@);
    }
    (front, slack)
}

fn text_matches(s: &String, key: &str) -> (r: bool)
    ensures
        r == (s@ == key@),
{
    clock::text_eq(s.as_str(), key)
}

/// Index of the last overtime row of a date.
fn find_ot<M>(ot: &Vec<OtDay<M>>, key: &str) -> (r: Option<usize>)
    ensures
        r matches Some(j) ==> last_ot(ot@, key@) == Some(j as int) && j < ot@.len(),
        r is None ==> last_ot(ot@, key@) is None,
{
    let mut found: Option<usize> = None;
    let mut i: usize = 0;
    while i < ot.len()
        invariant
            i <= ot@.len(),
            found matches Some(j) ==> last_ot(ot@.subrange(0, i as int), key@) == Some(j as int)
                && j < i,
            found is None ==> last_ot(ot@.subrange(0, i as int), key@) is None,
        decreases ot@.len() - i,
    {
        proof {
            let post = ot@.subrange(0, i + 1);
            assert(post.drop_last() == ot@.subrange(0, i as int));
            assert(post.last() == ot@[i as int]);
        }
        if text_matches(&ot[i].date, key) {
            found = Some(i);
        }
        i += 1;
    }
    proof {
        assert(ot@.subrange(0, ot@.len() as int) == ot@);
    }
    found
}

/// Index of the last activity row of a date.
fn find_act(act: &Vec<ActDay>, key: &str) -> (r: Option<usize>)
    ensures
        r matches Some(j) ==> last_act(act@, key@) == Some(j as int) && j < act@.len(),
        r is None ==> last_act(act@, key@) is None,
{
    let mut found: Option<usize> = None;
    let mut i: usize = 0;
    while i < act.len()
        invariant
            i <= act@.len(),
            found matches Some(j) ==> last_act(act@.subrange(0, i as int), key@) == Some(j as int)
                && j < i,
            found is None ==> last_act(act@.subrange(0, i as int), key@) is None,
        decreases act@.len() - i,
    {
        proof {
            let post = act@.subrange(0, i + 1);
            assert(post.drop_last() == act@.subrange(0, i as int));
            assert(post.last() == act@[i as int]);
        }
        if text_matches(&act[i].date, key) {
            found = Some(i);
        }
        i += 1;
    }
    proof {
        assert(act@.subrange(0, act@.len() as int) == act@);
    }
    found
}

/// The plan of one day.
pub fn day_plan<M>(
    d: Date,
    today: Date,
    cfg: &Config<M>,
    cur: &HolidayCache,
    ot: &Vec<OtDay<M>>,
    act: &Vec<ActDay>,
    app: &Vec<AppDaySecs>,
) -> (r: DayPlan)
    requires
        d.wf(),
        today.wf(),
        holiday::countable_month(d.year as int, d.month as int),
        rows_in_bounds(ot@, act@, app@),
    ensures
        day_matches(r, d, today, *cfg, *cur, ot@, act@, app@),
        -ROW_BOUND <= r.ot_half_hours <= ROW_BOUND,
        -ROW_BOUND <= r.keys <= ROW_BOUND,
        0 <= r.clicks <= ROW_BOUND,
        0 <= r.slack_seconds <= r.front_seconds <= ROW_BOUND,
{
    let key = format_ymd(d);
    let wd = is_workday_of(d, cur);
    let mw = monthly_workdays_of(d.year, d.month, cfg, cur);
    let salary = if !wd {
        SalaryBasis::Rest
    } else if d == today {
        SalaryBasis::Today
    } else if days_between(d, today) < 0 {
        SalaryBasis::FullDay
    } else {
        SalaryBasis::NotYet
    };
    let (ot_row, ot_half) = match find_ot(ot, key.as_str()) {
        Some(j) => (Some(j), ot[j].valid_half_hours),
        None => (None, 0),
    };
    let (events, keys, clicks) = match find_act(act, key.as_str()) {
        Some(j) => {
            let row = &act[j];
            (row.events, row.keys, if row.clicks > 0 {
                row.clicks
            } else {
                0
            })
        },
        None => (0, 0, 0),
    };
    let (front, slack) = app_seconds_of(app, key.as_str());
    DayPlan {
        date: d,
        weekday: weekday_cn(d),
        date_text: key,
        is_workday: wd,
        monthly_workdays: mw,
        salary,
        ot_row,
        ot_half_hours: ot_half,
        act_events: events,
        keys,
        clicks,
        front_seconds: front,
        slack_seconds: slack,
        has_record: events > 0 || front > 0,
    }
}

/// A day counts as attended: a workday with a record.
pub open spec fn attended(p: DayPlan) -> bool {
    p.is_workday && p.has_record
}

pub open spec fn attended_count(ds: Seq<DayPlan>) -> int
    decreases ds.len(),
{
    if ds.len() == 0 {
        0
    } else {
        attended_count(ds.drop_last()) + if attended(ds.last()) { 1int } else { 0 }
    }
}

pub open spec fn ot_total(ds: Seq<DayPlan>) -> int
    decreases ds.len(),
{
    if ds.len() == 0 {
        0
    } else {
        ot_total(ds.drop_last()) + ds.last().ot_half_hours
    }
}

pub open spec fn keys_total(ds: Seq<DayPlan>) -> int
    decreases ds.len(),
{
    if ds.len() == 0 {
        0
    } else {
        keys_total(ds.drop_last()) + ds.last().keys
    }
}

pub open spec fn clicks_total(ds: Seq<DayPlan>) -> int
    decreases ds.len(),
{
    if ds.len() == 0 {
        0
    } else {
        clicks_total(ds.drop_last()) + ds.last().clicks
    }
}

pub open spec fn slack_work_total(ds: Seq<DayPlan>) -> int
    decreases ds.len(),
{
    if ds.len() == 0 {
        0
    } else {
        slack_work_total(ds.drop_last()) + if attended(ds.last()) {
            ds.last().slack_seconds as int
        } else {
            0
        }
    }
}

pub open spec fn front_work_total(ds: Seq<DayPlan>) -> int
    decreases ds.len(),
{
    if ds.len() == 0 {
        0
    } else {
        front_work_total(ds.drop_last()) + if attended(ds.last()) {
            ds.last().front_seconds as int
        } else {
            0
        }
    }
}

/// The day with the most overtime: scanning in order, a day replaces the current pick
/// only with strictly more (positive) overtime.
pub open spec fn hardest_of(ds: Seq<DayPlan>) -> Option<int>
    decreases ds.len(),
{
    if ds.len() == 0 {
        None
    } else {
        let prev = hardest_of(ds.drop_last());
        let d = ds.last();
        if d.ot_half_hours > 0 && match prev {
            None => true,
            Some(j) => d.ot_half_hours > ds[j].ot_half_hours,
        } {
            Some(ds.len() - 1)
        } else {
            prev
        }
    }
}

/// A day's slacking share is positive.
pub open spec fn slack_positive(p: DayPlan) -> bool {
    p.front_seconds > 0 && p.slack_seconds > 0
}

/// Day `a`'s slacking share exceeds day `b`'s.
pub open spec fn share_above(a: DayPlan, b: DayPlan) -> bool {
    a.slack_seconds * b.front_seconds > b.slack_seconds * a.front_seconds
}

/// The day with the highest positive slacking share among days with a record; scanning
/// in order, a day replaces the current pick only with a strictly higher share.
pub open spec fn slackiest_of(ds: Seq<DayPlan>) -> Option<int>
    decreases ds.len(),
{
    if ds.len() == 0 {
        None
    } else {
        let prev = slackiest_of(ds.drop_last());
        let d = ds.last();
        if d.has_record && slack_positive(d) && match prev {
            None => true,
            Some(j) => share_above(d, ds[j]),
        } {
            Some(ds.len() - 1)
        } else {
            prev
        }
    }
}

proof fn lemma_pick_in_range(ds: Seq<DayPlan>)
    ensures
        hardest_of(ds) matches Some(j) ==> 0 <= j < ds.len() && ds[j].ot_half_hours > 0,
        slackiest_of(ds) matches Some(j) ==> 0 <= j < ds.len() && slack_positive(ds[j]),
    decreases ds.len(),
{
    if ds.len() > 0 {
        let t = ds.drop_last();
        lemma_pick_in_range(t);
        if let Some(j) = hardest_of(t) {
            assert(ds[j] == t[j]);
        }
        if let Some(j) = slackiest_of(t) {
            assert(ds[j] == t[j]);
        }
    }
}

/// Option of an index as an integer.
pub open spec fn opt_int(r: Option<usize>) -> Option<int> {
    match r {
        Some(j) => Some(j as int),
        None => None,
    }
}

/// Day `j` is the hardest: it has counted overtime and no day has more; of equally hard
/// days the first. No day is the hardest when none has overtime.
pub open spec fn is_hardest(ds: Seq<DayPlan>, r: Option<int>) -> bool {
    match r {
        Some(j) => {
            &&& 0 <= j < ds.len()
            &&& ds[j].ot_half_hours > 0
            &&& forall|k: int|
                0 <= k < ds.len() ==> (#[trigger] ds[k]).ot_half_hours < ds[j].ot_half_hours || (
                ds[k].ot_half_hours == ds[j].ot_half_hours && j <= k)
        },
        None => forall|k: int| 0 <= k < ds.len() ==> (#[trigger] ds[k]).ot_half_hours <= 0,
    }
}

/// Day `j` is the slackiest: a day with a record and a positive slacking share
/// (slacking seconds over foreground seconds), and no day with a record has a higher
/// share; of equal shares the first. None when no day with a record has slacking time.
pub open spec fn is_slackiest(ds: Seq<DayPlan>, r: Option<int>) -> bool {
    match r {
        Some(j) => {
            &&& 0 <= j < ds.len()
            &&& ds[j].has_record
            &&& ds[j].front_seconds > 0
            &&& ds[j].slack_seconds > 0
            &&& forall|k: int|
                0 <= k < ds.len() && (#[trigger] ds[k]).has_record && ds[k].front_seconds > 0 ==> {
                    &&& ds[k].slack_seconds * ds[j].front_seconds <= ds[j].slack_seconds * ds[k].front_seconds
                    &&& (k < j ==> ds[k].slack_seconds * ds[j].front_seconds < ds[j].slack_seconds
                        * ds[k].front_seconds)
                }
        },
        None => forall|k: int|
            0 <= k < ds.len() && (#[trigger] ds[k]).has_record && ds[k].front_seconds > 0 ==> ds[k].slack_seconds
                <= 0,
    }
}

/// The hardest day is the first day with the most counted overtime, if any has some.
pub proof fn law_hardest_has_most_overtime(ds: Seq<DayPlan>)
    ensures
        is_hardest(ds, hardest_of(ds)),
    decreases ds.len(),
{
    if ds.len() > 0 {
        let t = ds.drop_last();
        law_hardest_has_most_overtime(t);
        assert forall|k: int| 0 <= k < t.len() implies ds[k] == t[k] by {}
    }
}

proof fn lemma_share_chain(sk: int, fk: int, sj: int, fj: int, sd: int, fd: int)
    requires
        fk > 0,
        fj > 0,
        fd > 0,
        sk * fj <= sj * fk,
        sj * fd < sd * fj,
    ensures
        sk * fd < sd * fk,
{
    assert(sk * fj * fd <= sj * fk * fd) by (nonlinear_arith)
        requires
            sk * fj <= sj * fk,
            fd > 0,
    ;
    assert(sj * fd * fk < sd * fj * fk) by (nonlinear_arith)
        requires
            sj * fd < sd * fj,
            fk > 0,
    ;
    assert(sk * fd * fj < sd * fk * fj) by (nonlinear_arith)
        requires
            sk * fj * fd <= sj * fk * fd,
            sj * fd * fk < sd * fj * fk,
    ;
    assert(sk * fd < sd * fk) by (nonlinear_arith)
        requires
            sk * fd * fj < sd * fk * fj,
            fj > 0,
    ;
}

proof fn lemma_share_pos(sd: int, fk: int)
    requires
        sd > 0,
        fk > 0,
    ensures
        0 * 1 < sd * fk,
        sd * fk > 0,
{
    assert(sd * fk > 0) by (nonlinear_arith)
        requires
            sd > 0,
            fk > 0,
    ;
}

/// The slackiest day has the highest slacking share among days with a record (the
/// first of equal shares), and there is one exactly when some such day has slacking
/// time.
pub proof fn law_slackiest_has_highest_share(ds: Seq<DayPlan>)
    requires
        forall|k: int| 0 <= k < ds.len() ==> 0 <= (#[trigger] ds[k]).slack_seconds,
    ensures
        is_slackiest(ds, slackiest_of(ds)),
    decreases ds.len(),
{
    if ds.len() > 0 {
        let n = ds.len() as int;
        let t = ds.drop_last();
        assert forall|k: int| 0 <= k < t.len() implies ds[k] == t[k] by {}
        law_slackiest_has_highest_share(t);
        lemma_pick_in_range(t);
        let d = ds[n - 1];
        let prev = slackiest_of(t);
        match slackiest_of(ds) {
            Some(j) => {
                if j == n - 1 {
                    assert forall|k: int|
                        0 <= k < n && (#[trigger] ds[k]).has_record && ds[k].front_seconds > 0 implies {
                        &&& ds[k].slack_seconds * ds[j].front_seconds <= ds[j].slack_seconds * ds[k].front_seconds
                        &&& (k < j ==> ds[k].slack_seconds * ds[j].front_seconds < ds[j].slack_seconds
                            * ds[k].front_seconds)
                    } by {
                        if k < n - 1 {
                            assert(t[k] == ds[k]);
                            match prev {
                                Some(p) => {
                                    assert(t[p] == ds[p]);
                                    lemma_share_chain(
                                        ds[k].slack_seconds as int,
                                        ds[k].front_seconds as int,
                                        ds[p].slack_seconds as int,
                                        ds[p].front_seconds as int,
                                        d.slack_seconds as int,
                                        d.front_seconds as int,
                                    );
                                },
                                None => {
                                    assert(ds[k].slack_seconds == 0);
                                    lemma_share_pos(d.slack_seconds as int, ds[k].front_seconds as int);
                                },
                            }
                        }
                    }
                } else {
                    assert(prev == Some(j));
                    assert(t[j] == ds[j]);
                    assert forall|k: int|
                        0 <= k < n && (#[trigger] ds[k]).has_record && ds[k].front_seconds > 0 implies {
                        &&& ds[k].slack_seconds * ds[j].front_seconds <= ds[j].slack_seconds * ds[k].front_seconds
                        &&& (k < j ==> ds[k].slack_seconds * ds[j].front_seconds < ds[j].slack_seconds
                            * ds[k].front_seconds)
                    } by {
                        if k < n - 1 {
                            assert(t[k] == ds[k]);
                        } else {
                            if d.slack_seconds == 0 {
                                assert(0 * ds[j].front_seconds <= ds[j].slack_seconds * d.front_seconds) by (nonlinear_arith)
                                    requires
                                        ds[j].slack_seconds > 0,
                                        d.front_seconds > 0,
                                ;
                            }
                        }
                    }
                }
            },
            None => {
                assert(prev is None);
                assert forall|k: int|
                    0 <= k < n && (#[trigger] ds[k]).has_record && ds[k].front_seconds > 0 implies ds[k].slack_seconds
                    <= 0 by {
                    if k < n - 1 {
                        assert(t[k] == ds[k]);
                    }
                }
            },
        }
    }
}

proof fn lemma_product_bound(a: int, b: int)
    requires
        0 <= a <= ROW_BOUND,
        0 <= b <= ROW_BOUND,
    ensures
        0 <= a * b <= ROW_BOUND * ROW_BOUND,
{
    assert(0 <= a * b <= ROW_BOUND * ROW_BOUND) by (nonlinear_arith)
        requires
            0 <= a <= ROW_BOUND,
            0 <= b <= ROW_BOUND,
    ;
}

/// The hardest day after one more day is added.
fn next_hardest(days: &Vec<DayPlan>, prev: Option<usize>) -> (r: Option<usize>)
    requires
        days@.len() > 0,
        match hardest_of(days@.drop_last()) {
            Some(j) => prev == Some(j as usize),
            None => prev is None,
        },
    ensures
        match hardest_of(days@) {
            Some(j) => r == Some(j as usize),
            None => r is None,
        },
        is_hardest(days@, opt_int(r)),
{
    let n = days.len();
    proof {
        law_hardest_has_most_overtime(days@);
        lemma_pick_in_range(days@);
    }
    let ghost before = days@.drop_last();
    proof {
        lemma_pick_in_range(before);
        if let Some(j) = hardest_of(before) {
            assert(days@[j] == before[j]);
        }
    }
    let last = &days[n - 1];
    if last.ot_half_hours > 0 && match prev {
        None => true,
        Some(j) => last.ot_half_hours > days[j].ot_half_hours,
    } {
        Some(n - 1)
    } else {
        prev
    }
}

/// The slackiest day after one more day is added.
fn next_slackiest(days: &Vec<DayPlan>, prev: Option<usize>) -> (r: Option<usize>)
    requires
        days@.len() > 0,
        forall|k: int|
            0 <= k < days@.len() ==> 0 <= (#[trigger] days@[k]).slack_seconds <= days@[k].front_seconds
                <= ROW_BOUND,
        match slackiest_of(days@.drop_last()) {
            Some(j) => prev == Some(j as usize),
            None => prev is None,
        },
    ensures
        match slackiest_of(days@) {
            Some(j) => r == Some(j as usize),
            None => r is None,
        },
        is_slackiest(days@, opt_int(r)),
{
    let n = days.len();
    proof {
        law_slackiest_has_highest_share(days@);
        lemma_pick_in_range(days@);
    }
    let ghost before = days@.drop_last();
    proof {
        lemma_pick_in_range(before);
        if let Some(j) = slackiest_of(before) {
            assert(days@[j] == before[j]);
        }
    }
    let last = &days[n - 1];
    proof {
        if let Some(j) = prev {
            lemma_product_bound(last.slack_seconds as int, days@[j as int].front_seconds as int);
            lemma_product_bound(days@[j as int].slack_seconds as int, last.front_seconds as int);
        }
    }
    if last.has_record && last.front_seconds > 0 && last.slack_seconds > 0 && match prev {
        None => true,
        Some(j) => (last.slack_seconds as i128) * (days[j].front_seconds as i128) > (
        days[j].slack_seconds as i128) * (last.front_seconds as i128),
    } {
        Some(n - 1)
    } else {
        prev
    }
}

/// `第 N 周`
pub open spec fn week_no_text(n: nat) -> Seq<char> {
    "第 "@ + clock::decimal(n) + " 周"@
}

/// What the week plan holds for the week starting on `ws`.
pub open spec fn week_matches<M>(
    w: WeekPlan,
    ws: Date,
    today: Date,
    cfg: Config<M>,
    cur: HolidayCache,
    ot: Seq<OtDay<M>>,
    act: Seq<ActDay>,
    app: Seq<AppDaySecs>,
) -> bool {
    let ds = w.days@;
    &&& ds.len() == 7
    &&& forall|i: int|
        0 <= i < 7 ==> (#[trigger] ds[i]).date.wf() && date::day_number(ds[i].date)
            == date::day_number(ws) + i && day_matches(ds[i], ds[i].date, today, cfg, cur, ot, act, app)
    &&& w.week_start@ == date::chrono_ymd_text(ws)
    &&& w.week_end@ == date::chrono_ymd_text(ds[6].date)
    &&& w.week_no@ == week_no_text(date::iso_week(ws) as nat)
    &&& w.attended_days == attended_count(ds)
    &&& w.work_days == (if cfg.monitor_activity || cfg.monitor_app_usage {
        Some(w.attended_days)
    } else {
        None
    })
    &&& w.ot_half_hours == ot_total(ds)
    &&& w.keys_total == keys_total(ds)
    &&& w.clicks_total == clicks_total(ds)
    &&& w.slack_work == slack_work_total(ds)
    &&& w.front_work == front_work_total(ds)
    &&& (match hardest_of(ds) {
        Some(j) => w.hardest == Some(j as usize),
        None => w.hardest is None,
    })
    &&& (match slackiest_of(ds) {
        Some(j) => w.slackiest == Some(j as usize),
        None => w.slackiest is None,
    })
    &&& is_hardest(ds, opt_int(w.hardest))
    &&& is_slackiest(ds, opt_int(w.slackiest))
}

/// `第 N 周` of a Monday.
fn week_no_string(ws: Date) -> (r: String)
    requires
        ws.wf(),
    ensures
        r@ == week_no_text(date::iso_week(ws) as nat),
{
    let n = iso_week_number(ws);
    let mut s = String::from_str("第 ");
    push_decimal(&mut s, n as u64);
    s.append(" 周");
    s
}

/// The plan of the week starting on `ws`, with `today` as the local date; the rows are
/// what storage holds for that week.
pub fn assemble<M>(
    ws: Date,
    today: Date,
    cfg: &Config<M>,
    cur: &HolidayCache,
    ot: &Vec<OtDay<M>>,
    act: &Vec<ActDay>,
    app: &Vec<AppDaySecs>,
) -> (r: WeekPlan)
    requires
        ws.wf(),
        today.wf(),
        date::day_number(ws) + 6 < date::day_number(last_month_first()),
        rows_in_bounds(ot@, act@, app@),
    ensures
        week_matches(r, ws, today, *cfg, *cur, ot@, act@, app@),
{
    let mut days: Vec<DayPlan> = Vec::new();
    let mut attended_days: i64 = 0;
    let mut ot_half: i64 = 0;
    let mut keys: i64 = 0;
    let mut clicks: i64 = 0;
    let mut slack_work: i64 = 0;
    let mut front_work: i64 = 0;
    let mut hardest: Option<usize> = None;
    let mut slackiest: Option<usize> = None;
    proof {
        date::lemma_day_number_bounds(ws);
    }
    let mut i: usize = 0;
    while i < 7
        invariant
            ws.wf(),
            today.wf(),
            date::day_number(ws) + 6 < date::day_number(last_month_first()),
            rows_in_bounds(ot@, act@, app@),
            i <= 7,
            days@.len() == i,
            forall|k: int|
                0 <= k < i ==> (#[trigger] days@[k]).date.wf() && date::day_number(days@[k].date)
                    == date::day_number(ws) + k && day_matches(
                    days@[k],
                    days@[k].date,
                    today,
                    *cfg,
                    *cur,
                    ot@,
                    act@,
                    app@,
                ),
            forall|k: int|
                0 <= k < i ==> -ROW_BOUND <= (#[trigger] days@[k]).ot_half_hours <= ROW_BOUND
                    && -ROW_BOUND <= days@[k].keys <= ROW_BOUND && 0 <= days@[k].clicks <= ROW_BOUND
                    && 0 <= days@[k].slack_seconds <= days@[k].front_seconds <= ROW_BOUND,
            attended_days == attended_count(days@),
            ot_half == ot_total(days@),
            keys == keys_total(days@),
            clicks == clicks_total(days@),
            slack_work == slack_work_total(days@),
            front_work == front_work_total(days@),
            0 <= attended_days <= i,
            -(i as int) * ROW_BOUND <= ot_half <= (i as int) * ROW_BOUND,
            -(i as int) * ROW_BOUND <= keys <= (i as int) * ROW_BOUND,
            0 <= clicks <= (i as int) * ROW_BOUND,
            0 <= slack_work <= front_work <= (i as int) * ROW_BOUND,
            match hardest_of(days@) {
                Some(j) => hardest == Some(j as usize),
                None => hardest is None,
            },
            match slackiest_of(days@) {
                Some(j) => slackiest == Some(j as usize),
                None => slackiest is None,
            },
        decreases 7 - i,
    {
        proof {
            date::lemma_day_number_bounds(ws);
            date::lemma_day_number_bounds(last_month_first());
        }
        let d = add_days(ws, i as i64).unwrap();
        let p = day_plan(d, today, cfg, cur, ot, act, app);
        let ghost before = days@;
        if p.is_workday && p.has_record {
            attended_days += 1;
            slack_work = slack_work + p.slack_seconds;
            front_work = front_work + p.front_seconds;
        }
        ot_half = ot_half + p.ot_half_hours;
        keys = keys + p.keys;
        clicks = clicks + p.clicks;
        days.push(p);
        proof {
            assert(days@.drop_last() == before);
            assert forall|k: int| 0 <= k < i implies days@[k] == before[k] by {}
        }
        hardest = next_hardest(&days, hardest);
        slackiest = next_slackiest(&days, slackiest);
        i += 1;
    }
    proof {
        lemma_pick_in_range(days@);
        law_hardest_has_most_overtime(days@);
        law_slackiest_has_highest_share(days@);
    }
    let week_start = format_ymd(ws);
    let week_end = format_ymd(days[6].date);
    let work_days = if cfg.monitor_activity || cfg.monitor_app_usage {
        Some(attended_days)
    } else {
        None
    };
    WeekPlan {
        week_start,
        week_end,
        week_no: week_no_string(ws),
        days,
        work_days,
        attended_days,
        ot_half_hours: ot_half,
        keys_total: keys,
        clicks_total: clicks,
        slack_work,
        front_work,
        hardest,
        slackiest,
    }
}

/// The first day of the last month chrono represents (its days have no next month).
pub open spec fn last_month_first() -> Date {
    Date { year: MAX_YEAR, month: 12, day: 1 }
}

pub open spec fn offset_weeks(o: int) -> int {
    if o > 0 {
        o
    } else {
        0
    }
}

/// The first day of the year after the first year chrono represents.
pub open spec fn second_year_first() -> Date {
    Date { year: (date::MIN_YEAR + 1) as i32, month: 1, day: 1 }
}

/// The first day of the year after the first year chrono represents.
pub fn second_year_first_date() -> (r: Date)
    ensures
        r == second_year_first(),
{
    Date { year: date::MIN_YEAR + 1, month: 1, day: 1 }
}

/// Monday of the week `week_offset` weeks before the one holding `today` (negative
/// offsets count as the current week).
pub fn bill_week_start(today: Date, week_offset: i64) -> (ws: Date)
    requires
        today.wf(),
        date::day_number(today) - 7 * offset_weeks(week_offset as int) >= date::day_number(
            second_year_first(),
        ),
    ensures
        ws.wf(),
        date::weekday_index(ws) == 0,
        date::day_number(ws) <= date::day_number(today) - 7 * offset_weeks(week_offset as int)
            <= date::day_number(ws) + 6,
{
    let off: i64 = if week_offset > 0 {
        week_offset
    } else {
        0
    };
    proof {
        date::lemma_day_number_bounds(today);
        date::lemma_year_length(date::MIN_YEAR as int);
    }
    let d = add_days(today, -(off * 7)).unwrap();
    proof {
        if d.year == date::MIN_YEAR {
            assert(date::days_before_month(d.year as int, d.month as int) + d.day <= 366);
        }
    }
    week_start_of(d)
}

} // verus!
