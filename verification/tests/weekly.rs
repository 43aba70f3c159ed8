use std::collections::HashMap;

use niuma_timer::config::Config;
use niuma_timer::date::Date;
use niuma_timer::holiday::HolidayCache;
use niuma_timer::insights::{
    body_bill_assemble, hour_heatmap_assemble, week_bounds, week_bounds_at, week_bounds_on, DayEvents, HourRow,
    InputTotals,
};
use niuma_timer::weekbill::{
    assemble, bill_week_start, is_workday_of, monthly_workdays_of, week_start_of, weekday_cn,
    ActDay, AppDaySecs, OtDay, SalaryBasis, WeekPlan,
};

fn date(y: i32, m: u32, d: u32) -> Date {
    Date { year: y, month: m, day: d }
}

fn naive(d: Date) -> chrono::NaiveDate {
    chrono::NaiveDate::from_ymd_opt(d.year, d.month, d.day).unwrap()
}

/// Whole days from `b` to `a`, counted by chrono.
fn days_between(a: Date, b: Date) -> i64 {
    (naive(a) - naive(b)).num_days()
}

fn cfg_salary(s: f64) -> Config<f64> {
    Config::with_amounts(s, 20.0, 20.0)
}

/// An empty table for 2026: every day falls back to Monday-Friday.
fn hol() -> HolidayCache {
    HolidayCache { year: 2026, fetched_at: 0, days: HashMap::new() }
}

fn f(v: f64) -> f64 {
    (v * 100.0).round() / 100.0
}

/// Salary of a planned day (money is computed outside the library).
fn salary(cfg: &Config<f64>, plan: &WeekPlan, i: usize, today_earned: f64) -> f64 {
    let d = &plan.days[i];
    match d.salary {
        SalaryBasis::FullDay if cfg.monthly_salary > 0.0 && d.monthly_workdays > 0 => {
            cfg.monthly_salary / d.monthly_workdays as f64
        }
        SalaryBasis::Today => today_earned,
        _ => 0.0,
    }
}

fn ot_total(plan: &WeekPlan, ot: &[OtDay<f64>], i: usize) -> f64 {
    plan.days[i].ot_row.map(|j| ot[j].total).unwrap_or(0.0)
}

fn week(ws: Date, cfg: &Config<f64>, ot: &Vec<OtDay<f64>>, act: &Vec<ActDay>, app: &Vec<AppDaySecs>) -> WeekPlan {
    let t = naive(ws) + chrono::TimeDelta::days(6);
    let today = date(chrono::Datelike::year(&t), chrono::Datelike::month(&t), chrono::Datelike::day(&t));
    assemble(ws, today, cfg, &hol(), ot, act, app)
}

fn act_row(date: &str) -> ActDay {
    // moves 100, left 10, dbl 2, right 3, wheel 50, mid 1, xbtn 0, keys 200
    ActDay {
        date: date.into(),
        events: 100 + 10 + 2 + 3 + 50 + 1 + 0 + 200,
        keys: 200,
        clicks: 10 - 2 + 3 + 1 + 0,
    }
}

#[test]
fn week_start_alignment() {
    assert_eq!(week_start_of(date(2026, 9, 9)), date(2026, 9, 7));
    assert_eq!(week_start_of(date(2026, 9, 7)), date(2026, 9, 7));
    assert_eq!(week_start_of(date(2026, 9, 13)), date(2026, 9, 7));
}

#[test]
fn cross_month_full_salary() {
    let c = cfg_salary(22000.0);
    let bill = week(date(2026, 8, 31), &c, &vec![], &vec![], &vec![]);
    assert_eq!(bill.week_start, "2026-08-31");
    assert_eq!(bill.week_end, "2026-09-06");
    assert_eq!(bill.week_no, "第 36 周");
    assert_eq!(bill.days[0].monthly_workdays, 21);
    assert_eq!(bill.days[1].monthly_workdays, 22);
    assert_eq!(f(salary(&c, &bill, 0, 0.0)), f(22000.0 / 21.0));
    assert_eq!(f(salary(&c, &bill, 1, 0.0)), f(22000.0 / 22.0));
    assert_eq!(f(salary(&c, &bill, 5, 0.0)), 0.0);
    assert!(!bill.days[5].is_workday);
    let base: f64 = (0..7).map(|i| salary(&c, &bill, i, 0.0)).sum();
    assert_eq!(f(base), f(22000.0 / 21.0 + 4.0 * 22000.0 / 22.0));
    assert_eq!(bill.ot_half_hours, 0);
    let fee: f64 = (0..7).map(|i| ot_total(&bill, &vec![], i)).sum();
    assert!(bill.days.iter().all(|d| d.ot_row.is_none()));
    assert_eq!(f(base + fee), f(base));
}

#[test]
fn rest_day_salary_zero_but_ot_recorded() {
    let c = cfg_salary(10000.0);
    let ot = vec![OtDay { date: "2026-09-12".into(), total: 205.0, valid_half_hours: 8 }];
    let bill = week(date(2026, 9, 7), &c, &ot, &vec![], &vec![]);
    assert_eq!(f(salary(&c, &bill, 5, 0.0)), 0.0);
    assert!(!bill.days[5].is_workday);
    assert_eq!(bill.days[5].salary, SalaryBasis::Rest);
    assert_eq!(f(ot_total(&bill, &ot, 5)), 205.0);
    let fee: f64 = (0..7).map(|i| ot_total(&bill, &ot, i)).sum();
    assert_eq!(f(fee), 205.0);
    assert_eq!(bill.work_days, Some(0));
}

#[test]
fn act_aggregation() {
    let c = cfg_salary(10000.0);
    let bill = week(date(2026, 9, 7), &c, &vec![], &vec![act_row("2026-09-08")], &vec![]);
    let d = &bill.days[1];
    assert_eq!(d.act_events, 366);
    assert_eq!(d.keys, 200);
    assert_eq!(d.clicks, 12);
    assert_eq!(bill.keys_total, 200);
    assert_eq!(bill.clicks_total, 12);
    assert!(d.has_record);
    assert_eq!(bill.work_days, Some(1));
}

#[test]
fn slack_rate_and_cost_by_day() {
    let c = cfg_salary(22000.0);
    let app = vec![
        AppDaySecs { date: "2026-09-08".into(), app: "VS Code".into(), seconds: 3600 },
        AppDaySecs { date: "2026-09-08".into(), app: "网易云音乐".into(), seconds: 1200 },
    ];
    let bill = week(date(2026, 9, 7), &c, &vec![], &vec![], &app);
    let d = &bill.days[1];
    assert_eq!(d.slack_seconds, 1200);
    assert_eq!(d.front_seconds, 4800);
    assert_eq!(f(d.slack_seconds as f64 / d.front_seconds as f64), 0.25);
    assert_eq!(f(bill.slack_work as f64 / bill.front_work as f64), 0.25);
    let hourly = 22000.0 / d.monthly_workdays as f64 / 8.0;
    assert_eq!(f(bill.slack_work as f64 / 3600.0 * hourly), f(1200.0 / 3600.0 * 125.0));
    let s = bill.slackiest.unwrap();
    assert_eq!(bill.days[s].date_text, "2026-09-08");
    assert_eq!(bill.days[s].weekday, "周二");
    assert_eq!(bill.front_work, 4800);
}

#[test]
fn today_realtime_future_zero() {
    let c = cfg_salary(22000.0);
    let bill = assemble(date(2026, 9, 7), date(2026, 9, 9), &c, &hol(), &vec![], &vec![], &vec![]);
    assert_eq!(f(salary(&c, &bill, 0, 123.0)), f(22000.0 / 22.0));
    assert_eq!(bill.days[2].salary, SalaryBasis::Today);
    assert_eq!(f(salary(&c, &bill, 2, 123.0)), 123.0);
    assert_eq!(bill.days[3].salary, SalaryBasis::NotYet);
    assert_eq!(f(salary(&c, &bill, 3, 123.0)), 0.0);
    assert_eq!(f(salary(&c, &bill, 4, 123.0)), 0.0);
    assert!(bill.days[3].is_workday);
}

#[test]
fn hardest_selection() {
    let c = cfg_salary(10000.0);
    let ot = vec![
        OtDay { date: "2026-09-08".into(), total: 100.0, valid_half_hours: 4 },
        OtDay { date: "2026-09-10".into(), total: 300.0, valid_half_hours: 10 },
        OtDay { date: "2026-09-12".into(), total: 150.0, valid_half_hours: 6 },
    ];
    let bill = week(date(2026, 9, 7), &c, &ot, &vec![], &vec![]);
    let h = bill.hardest.unwrap();
    assert_eq!(bill.days[h].date_text, "2026-09-10");
    assert_eq!(bill.days[h].ot_half_hours, 10);
    let fee: f64 = (0..7).map(|i| ot_total(&bill, &ot, i)).sum();
    assert_eq!(f(fee), 550.0);
    assert_eq!(bill.attended_days, 0);
    assert_eq!(bill.ot_half_hours, 20);
}

#[test]
fn monitors_off_work_days_null() {
    let mut c = cfg_salary(10000.0);
    c.monitor_activity = false;
    c.monitor_app_usage = false;
    let bill = week(date(2026, 9, 7), &c, &vec![], &vec![act_row("2026-09-08")], &vec![]);
    assert_eq!(bill.work_days, None);
    assert_eq!(bill.attended_days, 1);
}

#[test]
fn empty_week_all_zero() {
    let c = cfg_salary(0.0);
    let bill = week(date(2026, 9, 7), &c, &vec![], &vec![], &vec![]);
    let total: f64 = (0..7).map(|i| salary(&c, &bill, i, 0.0)).sum();
    assert_eq!(f(total), 0.0);
    assert!(bill.days.iter().all(|d| !d.has_record));
    assert!(bill.hardest.is_none());
    assert!(bill.slackiest.is_none());
    assert_eq!(bill.front_work, 0);
    assert_eq!(bill.slack_work, 0);
}

#[test]
fn week_helpers() {
    assert_eq!(weekday_cn(date(2026, 9, 13)), "周日");
    assert!(is_workday_of(date(2026, 9, 14), &hol()));
    // 2025 is looked up in the built-in schedule: National Day is not worked
    assert!(!is_workday_of(date(2025, 10, 1), &hol()));
    let mut c = cfg_salary(10000.0);
    assert_eq!(monthly_workdays_of(2025, 10, &c, &hol()), 18);
    c.workdays_override = Some(19);
    c.workdays_override_for = Some("2025-10".into());
    assert_eq!(monthly_workdays_of(2025, 10, &c, &hol()), 19);
    assert_eq!(monthly_workdays_of(2025, 11, &c, &hol()), 20);
    assert_eq!(bill_week_start(date(2026, 9, 9), 0), date(2026, 9, 7));
    assert_eq!(bill_week_start(date(2026, 9, 9), 2), date(2026, 8, 24));
    assert_eq!(bill_week_start(date(2026, 9, 9), -3), date(2026, 9, 7));
}

fn row(date: &str, hour: i64, value: i64) -> HourRow {
    HourRow { date: date.into(), hour, value }
}

#[test]
fn heatmap_aggregates_three_sources() {
    let (ws, we) = (date(2026, 9, 7), date(2026, 9, 13));
    let act = vec![row("2026-09-07", 9, 366)];
    let front = vec![row("2026-09-07", 9, 1800)];
    let audio = vec![row("2026-09-07", 9, 600)];
    let hm = hour_heatmap_assemble(ws, we, &act, &front, &audio);
    assert_eq!(hm.cells.len(), 1);
    let c = &hm.cells[0];
    assert_eq!((c.date.as_str(), c.hour), ("2026-09-07", 9));
    assert_eq!(c.events, 366);
    assert_eq!(c.front_secs, 1800);
    assert_eq!(c.audio_secs, 600);
    assert_eq!(hm.peak_hour, Some(9));
    assert_eq!(hm.week_start, "2026-09-07");
}

#[test]
fn heatmap_peak_across_days() {
    let (ws, we) = (date(2026, 9, 7), date(2026, 9, 13));
    let act = vec![row("2026-09-07", 9, 250), row("2026-09-08", 9, 250), row("2026-09-08", 10, 600)];
    let hm = hour_heatmap_assemble(ws, we, &act, &vec![], &vec![]);
    assert_eq!(hm.cells.len(), 3);
    assert_eq!(hm.peak_hour, Some(10));
}

#[test]
fn heatmap_empty_week() {
    let (ws, we) = (date(2026, 9, 7), date(2026, 9, 13));
    let hm = hour_heatmap_assemble(ws, we, &vec![], &vec![row("2026-09-07", 3, 5)], &vec![]);
    assert!(hm.cells.is_empty());
    assert_eq!(hm.peak_hour, None);
}

#[test]
fn heatmap_cells_are_ordered_and_ties_take_the_later_hour() {
    let (ws, we) = (date(2026, 9, 7), date(2026, 9, 13));
    let act = vec![row("2026-09-08", 10, 5), row("2026-09-07", 11, 5), row("2026-09-07", 9, 1)];
    let hm = hour_heatmap_assemble(ws, we, &act, &vec![], &vec![]);
    let keys: Vec<(String, i64)> = hm.cells.iter().map(|c| (c.date.clone(), c.hour)).collect();
    assert_eq!(
        keys,
        vec![("2026-09-07".to_string(), 9), ("2026-09-07".to_string(), 11), ("2026-09-08".to_string(), 10)]
    );
    assert_eq!(hm.peak_hour, Some(11));
}

#[test]
fn body_clicks_and_totals() {
    let (ws, we) = (date(2026, 9, 7), date(2026, 9, 13));
    let rows = vec![DayEvents { date: "2026-09-07".into(), events: 366 }];
    let totals = InputTotals { clicks: 12, keys: 200, moves: 100, pixels: 500, wheel_ticks: 5 };
    let bb = body_bill_assemble(ws, we, &rows, totals);
    assert_eq!(bb.totals.clicks, 12);
    assert_eq!(bb.totals.keys, 200);
    assert_eq!(bb.totals.moves, 100);
    assert_eq!(bb.totals.pixels, 500);
    assert_eq!(bb.totals.wheel_ticks, 5);
    assert_eq!(bb.days.len(), 7);
    assert_eq!(bb.days[0].date, "2026-09-07");
    assert_eq!(bb.days[0].weekday, "周一");
    assert_eq!(bb.days[0].events, 366);
    assert_eq!(bb.days[6].date, "2026-09-13");
    assert_eq!(bb.busiest.as_ref().unwrap().weekday, "周一");
}

#[test]
fn body_empty_week() {
    let (ws, we) = (date(2026, 9, 7), date(2026, 9, 13));
    let totals = InputTotals { clicks: 0, keys: 0, moves: 0, pixels: 0, wheel_ticks: 0 };
    let bb = body_bill_assemble(ws, we, &vec![], totals);
    assert_eq!(bb.totals.clicks, 0);
    assert_eq!(bb.days.len(), 7);
    assert!(bb.days.iter().all(|d| d.events == 0));
    assert!(bb.busiest.is_none());
}

#[test]
fn trend_window_is_eight_weeks() {
    let (newest, _) = week_bounds(0).unwrap();
    let (earliest, _) = week_bounds(7).unwrap();
    assert_eq!(days_between(newest, earliest), 49);
    let today = date(2026, 9, 9);
    let (n, _) = week_bounds_on(today, 0);
    let (e, _) = week_bounds_on(today, 7);
    assert_eq!(days_between(n, e), 49);
}

#[test]
fn week_bounds_caps_future() {
    let (ws_neg, _) = week_bounds(-5).unwrap();
    let (ws_zero, we) = week_bounds(0).unwrap();
    assert_eq!(ws_neg, ws_zero);
    assert_eq!(days_between(we, ws_zero), 6);
    assert!(week_bounds(i64::MAX).is_none());
    let today = date(2026, 9, 9);
    assert_eq!(week_bounds_on(today, -5), week_bounds_on(today, 0));
    assert_eq!(week_bounds_on(today, 0), (date(2026, 9, 7), date(2026, 9, 13)));
}

#[test]
fn week_bounds_at_fixed_today() {
    let today = date(2026, 9, 9);
    assert_eq!(week_bounds_at(today, 0), Some((date(2026, 9, 7), date(2026, 9, 13))));
    assert_eq!(week_bounds_at(today, 1), Some((date(2026, 8, 31), date(2026, 9, 6))));
    assert_eq!(week_bounds_at(today, -3), Some((date(2026, 9, 7), date(2026, 9, 13))));
    assert_eq!(week_bounds_at(today, i64::MAX), None);
    assert_eq!(week_bounds_at(date(262142, 12, 31), 0), None);
}
