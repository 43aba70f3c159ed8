use niuma_timer::overtime::lock_to_process;
use std::collections::HashMap;

use niuma_timer::clock::{hm_string, parse_hm_secs};
use niuma_timer::config::Config;
use niuma_timer::date::{Date, LocalNow};
use niuma_timer::holiday::{key_of, HolidayCache};
use niuma_timer::overtime::{
    calc_record_auto, compute_record, day_kind, delete_manual_at, deleted_rows_result,
    is_future_on, month_of, ot_start_of, rate_of, resolve_overtime_day, save_manual,
    save_manual_at, should_mark_lock_seen, upsert_replaces, valid_half_hours, DayKind,
    ManualOvertimeInput, DAY_SECS, SOURCE_AUTO, SOURCE_MANUAL,
};

fn default_cfg() -> Config<f64> {
    Config::with_amounts(10000.0, 20.0, 20.0)
}

fn date(y: i32, m: u32, d: u32) -> Date {
    Date { year: y, month: m, day: d }
}

fn secs_of(h: u64, m: u64) -> u64 {
    h * 3600 + m * 60
}

fn lock_dt(y: i32, m: u32, d: u32, hh: u32, mm: u32) -> LocalNow {
    LocalNow { date: date(y, m, d), hour: hh, minute: mm, second: 0 }
}

fn holiday_with(entries: &[(i32, u32, u32, u8)]) -> HolidayCache {
    let mut days = HashMap::new();
    for (y, m, d, t) in entries {
        days.insert(key_of(date(*y, *m, *d)), *t);
    }
    HolidayCache { year: 2026, fetched_at: 1, days }
}

/// Pay of a record in the configured rate (money stays outside the library).
fn fee(half_hours: u64, rate: f64) -> f64 {
    half_hours as f64 * 0.5 * rate
}

#[test]
fn calc_valid_hours_rounds_down() {
    let h = |hours: f64| valid_half_hours((hours * 3600.0).round() as u64);
    assert_eq!(h(0.5), 0);
    assert_eq!(h(0.99), 0);
    assert_eq!(h(1.0), 2);
    assert_eq!(h(1.3), 2);
    assert_eq!(h(1.6), 3);
    assert_eq!(h(2.0), 4);
    assert_eq!(h(2.4), 4);
    assert_eq!(h(2.6), 5);
    assert_eq!(h(3.0), 6);
    assert_eq!(h(8.9), 17);
}

#[test]
fn to_min_option() {
    assert_eq!(parse_hm_secs("18:00"), Some(1080 * 60));
    assert_eq!(parse_hm_secs("18:30"), Some(1110 * 60));
    assert!(parse_hm_secs("abc").is_none());
    assert!(parse_hm_secs("18:xx").is_none());
    assert!(parse_hm_secs("18").is_none());
}

#[test]
fn format_hm_basic() {
    assert_eq!(hm_string(540 * 60), "09:00");
    assert_eq!(hm_string(1110 * 60), "18:30");
    assert_eq!(hm_string(60 * 60), "01:00");
    assert_eq!(hm_string(0), "00:00");
}

#[test]
fn parse_lock_datetime_basic() {
    let cfg = default_cfg();
    let today = date(2026, 9, 30);
    let input = |d: &str, t: &str| ManualOvertimeInput {
        date: d.into(),
        lock_time: t.into(),
        ot_start: None,
        cross_midnight: false,
    };
    assert!(save_manual_at(&input("2026-08-19", "20:30"), &cfg, None, today, true).is_ok());
    assert_eq!(
        save_manual_at(&input("2026-08-19", "25:00"), &cfg, None, today, true).unwrap_err(),
        "下班时间格式错误，应为 HH:MM"
    );
    assert_eq!(
        save_manual_at(&input("2026-13-01", "20:30"), &cfg, None, today, true).unwrap_err(),
        "日期格式错误"
    );
    assert_eq!(
        save_manual_at(&input("2026-08-19", "20"), &cfg, None, today, true).unwrap_err(),
        "下班时间格式错误，应为 HH:MM"
    );
}

#[test]
fn compute_record_weekday_valid() {
    let cfg = default_cfg();
    let r = compute_record(date(2026, 8, 19), secs_of(20, 30), false, Some("18:00"), &cfg, DayKind::Workday)
        .expect("a record");
    assert_eq!(r.date_text, "2026-08-19");
    assert_eq!(r.lock_time, "20:30");
    assert_eq!(r.ot_start, "18:00");
    assert_eq!(r.raw_tenths, 25);
    assert_eq!(r.valid_half_hours, 5);
    assert_eq!(fee(r.valid_half_hours, *rate_of(&cfg, r.kind)), 50.0);
    assert!(r.with_meal);
    assert_eq!(fee(r.valid_half_hours, *rate_of(&cfg, r.kind)) + cfg.overtime_meal, 70.0);
    assert_eq!(r.source, SOURCE_AUTO);
}

#[test]
fn compute_record_short_overtime_none() {
    let cfg = default_cfg();
    assert!(compute_record(date(2026, 8, 19), secs_of(18, 30), false, Some("18:00"), &cfg, DayKind::Workday)
        .is_none());
}

#[test]
fn compute_record_weekend_disabled_none() {
    let cfg = default_cfg();
    assert!(compute_record(date(2026, 8, 22), secs_of(22, 0), false, Some("18:00"), &cfg, DayKind::Weekend)
        .is_none());
}

#[test]
fn compute_record_weekend_enabled_some() {
    let mut cfg = default_cfg();
    cfg.weekend_overtime = true;
    let r = compute_record(date(2026, 8, 22), secs_of(22, 0), false, Some("18:00"), &cfg, DayKind::Weekend)
        .expect("weekend switch on");
    assert_eq!(r.valid_half_hours, 8);
    assert_eq!(fee(r.valid_half_hours, *rate_of(&cfg, r.kind)), 80.0);
    assert_eq!(fee(r.valid_half_hours, *rate_of(&cfg, r.kind)) + cfg.overtime_meal, 100.0);
}

#[test]
fn compute_record_custom_start() {
    let cfg = default_cfg();
    let r = compute_record(date(2026, 8, 19), secs_of(20, 30), false, Some("19:00"), &cfg, DayKind::Workday)
        .expect("a record");
    assert_eq!(r.ot_start, "19:00");
    assert_eq!(r.raw_tenths, 15);
    assert_eq!(r.valid_half_hours, 3);
    assert_eq!(fee(r.valid_half_hours, *rate_of(&cfg, r.kind)), 30.0);
    assert_eq!(fee(r.valid_half_hours, *rate_of(&cfg, r.kind)) + cfg.overtime_meal, 50.0);
}

#[test]
fn compute_record_bad_start_is_none() {
    let cfg = default_cfg();
    assert!(compute_record(date(2026, 8, 19), secs_of(20, 30), false, Some("x"), &cfg, DayKind::Workday)
        .is_none());
}

#[test]
fn calc_record_defaults_to_pm_end() {
    let cfg = default_cfg();
    let r = calc_record_auto(lock_dt(2026, 8, 19, 20, 0), &cfg, None).expect("a record");
    assert_eq!(r.ot_start, "18:00");
    assert_eq!(r.valid_half_hours, 4);
}

#[test]
fn day_kind_reads_holiday_types() {
    let c = holiday_with(&[(2026, 9, 25, 0), (2026, 9, 26, 1), (2026, 9, 27, 2), (2026, 10, 1, 3)]);
    assert_eq!(day_kind(date(2026, 9, 25), Some(&c)), DayKind::Workday);
    assert_eq!(day_kind(date(2026, 9, 26), Some(&c)), DayKind::Weekend);
    assert_eq!(day_kind(date(2026, 9, 27), Some(&c)), DayKind::Workday);
    assert_eq!(day_kind(date(2026, 10, 1), Some(&c)), DayKind::Holiday);
}

#[test]
fn day_kind_falls_back_without_holiday_data() {
    assert_eq!(day_kind(date(2026, 8, 22), None), DayKind::Weekend);
    assert_eq!(day_kind(date(2026, 8, 19), None), DayKind::Workday);
    let c = holiday_with(&[(2026, 8, 20, 9)]);
    assert_eq!(day_kind(date(2026, 8, 20), Some(&c)), DayKind::Workday, "unknown type");
    assert_eq!(day_kind(date(2026, 8, 23), Some(&c)), DayKind::Weekend, "date not in table");
}

#[test]
fn rest_day_starts_at_09_by_default() {
    let mut cfg = default_cfg();
    cfg.weekend_overtime = true;
    let r = calc_record_auto(lock_dt(2026, 8, 22, 14, 0), &cfg, None).expect("rest day record");
    assert_eq!(r.ot_start, "09:00");
    assert_eq!(r.valid_half_hours, 10);
    assert_eq!(fee(r.valid_half_hours, *rate_of(&cfg, r.kind)), 100.0);
    assert_eq!(fee(r.valid_half_hours, *rate_of(&cfg, r.kind)) + cfg.overtime_meal, 120.0);
}

#[test]
fn rest_day_switch_off_means_none() {
    let cfg = default_cfg();
    assert!(calc_record_auto(lock_dt(2026, 8, 22, 22, 0), &cfg, None).is_none());
}

#[test]
fn rate_falls_back_chain() {
    let mut cfg = default_cfg();
    assert_eq!(*rate_of(&cfg, DayKind::Workday), 20.0);
    assert_eq!(*rate_of(&cfg, DayKind::Weekend), 20.0);
    assert_eq!(*rate_of(&cfg, DayKind::Holiday), 20.0);
    cfg.overtime_rate_weekend = Some(40.0);
    assert_eq!(*rate_of(&cfg, DayKind::Weekend), 40.0);
    assert_eq!(*rate_of(&cfg, DayKind::Holiday), 40.0);
    cfg.overtime_rate_holiday = Some(60.0);
    assert_eq!(*rate_of(&cfg, DayKind::Holiday), 60.0);
    assert_eq!(*rate_of(&cfg, DayKind::Workday), 20.0);
}

#[test]
fn holiday_uses_holiday_rate() {
    let mut cfg = default_cfg();
    cfg.weekend_overtime = true;
    cfg.overtime_rate_holiday = Some(60.0);
    let c = holiday_with(&[(2026, 10, 1, 3)]);
    let r = calc_record_auto(lock_dt(2026, 10, 1, 17, 0), &cfg, Some(&c)).expect("holiday record");
    assert_eq!(r.ot_start, "09:00");
    assert_eq!(r.valid_half_hours, 16);
    assert_eq!(fee(r.valid_half_hours, *rate_of(&cfg, r.kind)), 480.0);
}

#[test]
fn makeup_workday_ignores_rest_switch() {
    let cfg = default_cfg();
    let c = holiday_with(&[(2026, 9, 27, 2)]);
    let r = calc_record_auto(lock_dt(2026, 9, 27, 21, 0), &cfg, Some(&c)).expect("make-up day");
    assert_eq!(r.ot_start, "18:00");
    assert_eq!(r.valid_half_hours, 6);
}

#[test]
fn save_manual_rest_day_requires_switch() {
    let cfg = default_cfg();
    let input = ManualOvertimeInput {
        date: "2026-08-22".into(),
        lock_time: "20:00".into(),
        ot_start: None,
        cross_midnight: false,
    };
    let err = save_manual(input, &cfg, None).unwrap_err();
    assert!(err.contains("休息日"), "{err}");
}

#[test]
fn resolve_overtime_day_normal_hours() {
    let (d, s, c) = resolve_overtime_day(lock_dt(2026, 9, 11, 20, 30));
    assert_eq!(d, date(2026, 9, 11));
    assert_eq!(s, 1230 * 60);
    assert!(!c);
}

#[test]
fn resolve_overtime_day_after_midnight_belongs_to_previous_day() {
    let (d, s, c) = resolve_overtime_day(lock_dt(2026, 9, 12, 1, 30));
    assert_eq!(d, date(2026, 9, 11));
    assert_eq!(s, 1530 * 60);
    assert!(c);
}

#[test]
fn resolve_overtime_day_threshold_is_0600() {
    let (d1, _, c1) = resolve_overtime_day(lock_dt(2026, 9, 12, 5, 59));
    assert_eq!(d1, date(2026, 9, 11));
    assert!(c1);
    let (d2, _, c2) = resolve_overtime_day(lock_dt(2026, 9, 12, 6, 0));
    assert_eq!(d2, date(2026, 9, 12));
    assert!(!c2);
}

#[test]
fn calc_record_auto_crosses_midnight() {
    let cfg = default_cfg();
    let r = calc_record_auto(lock_dt(2026, 9, 12, 1, 30), &cfg, None).expect("overnight record");
    assert_eq!(r.date_text, "2026-09-11");
    assert_eq!(r.lock_time, "01:30");
    assert!(r.cross_midnight);
    assert_eq!(r.raw_tenths, 75);
    assert_eq!(r.valid_half_hours, 15);
    assert_eq!(fee(r.valid_half_hours, *rate_of(&cfg, r.kind)), 150.0);
    assert_eq!(fee(r.valid_half_hours, *rate_of(&cfg, r.kind)) + cfg.overtime_meal, 170.0);
}

#[test]
fn old_behavior_cross_midnight_yielded_nothing() {
    let cfg = default_cfg();
    assert!(compute_record(date(2026, 9, 12), 90 * 60, false, Some("18:00"), &cfg, DayKind::Workday)
        .is_none());
}

#[test]
fn manual_cross_midnight_uses_same_rule() {
    let cfg = default_cfg();
    let r = compute_record(date(2026, 9, 11), 90 * 60 + DAY_SECS, true, Some("18:00"), &cfg, DayKind::Workday)
        .expect("overnight manual record");
    assert_eq!(r.valid_half_hours, 15);
    assert!(r.cross_midnight);
    assert_eq!(r.lock_time, "01:30");
}

#[test]
fn save_manual_without_cross_flag_reports_error() {
    let cfg = default_cfg();
    let input = ManualOvertimeInput {
        date: "2026-09-11".into(),
        lock_time: "01:30".into(),
        ot_start: None,
        cross_midnight: false,
    };
    let err = save_manual(input, &cfg, None).unwrap_err();
    assert!(err.contains("晚于"), "{err}");
}

#[test]
fn save_manual_errors_in_order() {
    let mut cfg = default_cfg();
    let today = date(2026, 9, 30);
    let mk = |d: &str, t: &str, s: Option<&str>, x: bool| ManualOvertimeInput {
        date: d.into(),
        lock_time: t.into(),
        ot_start: s.map(|v| v.to_string()),
        cross_midnight: x,
    };
    assert_eq!(
        save_manual_at(&mk("2026-10-01", "20:00", None, false), &cfg, None, today, true).unwrap_err(),
        "不能添加未来日期的加班记录"
    );
    assert_eq!(
        save_manual_at(&mk("2026-09-26", "20:00", None, false), &cfg, None, today, true).unwrap_err(),
        "休息日加班功能未开启，请在设置中开启「休息日 / 节假日加班」"
    );
    assert_eq!(
        save_manual_at(&mk("2026-09-11", "20:00", None, false), &cfg, None, today, false).unwrap_err(),
        "下班时间格式错误，应为 HH:MM"
    );
    assert_eq!(
        save_manual_at(&mk("2026-09-11", "20:00", Some("bad"), false), &cfg, None, today, true).unwrap_err(),
        "加班起算时间格式错误"
    );
    assert_eq!(
        save_manual_at(&mk("2026-09-11", "01:30", None, false), &cfg, None, today, true).unwrap_err(),
        "下班时间 01:30 需晚于加班起算时间 18:00"
    );
    assert_eq!(
        save_manual_at(&mk("2026-09-11", "18:40", None, false), &cfg, None, today, true).unwrap_err(),
        "加班时长不足 1 小时，无法生成有效记录"
    );
    let r = save_manual_at(&mk("2026-09-11", "01:30", None, true), &cfg, None, today, true).unwrap();
    assert_eq!(r.valid_half_hours, 15);
    cfg.weekend_overtime = true;
    let r = save_manual_at(&mk("2026-09-26", "12:00", None, false), &cfg, None, today, true).unwrap();
    assert_eq!(r.ot_start, "09:00");
    assert_eq!(r.valid_half_hours, 6);
}

#[test]
fn auto_upsert_never_overwrites_manual_record() {
    assert!(!upsert_replaces(Some(SOURCE_MANUAL), false));
}

#[test]
fn auto_upsert_overwrites_previous_auto_record() {
    assert!(upsert_replaces(Some(SOURCE_AUTO), false));
    assert!(upsert_replaces(None, false));
}

#[test]
fn manual_upsert_overwrites_anything() {
    assert!(upsert_replaces(Some(SOURCE_MANUAL), true));
    assert!(upsert_replaces(Some(SOURCE_AUTO), true));
}

#[test]
fn lock_write_failure_is_not_consumed() {
    assert!(should_mark_lock_seen(None));
    assert!(should_mark_lock_seen(Some(Ok(()))));
    assert!(!should_mark_lock_seen(Some(Err("disk full".into()))));
}

#[test]
fn delete_and_future_checks() {
    let today = date(2026, 9, 30);
    assert!(is_future_on("2026-10-01", today));
    assert!(!is_future_on("2026-09-30", today));
    assert!(is_future_on("junk", today));
    assert!(delete_manual_at("2026-09-01", today).is_ok());
    assert!(delete_manual_at("2026-10-01", today).is_err());
    assert_eq!(deleted_rows_result(0).unwrap_err(), "未找到该日期的加班记录");
    assert!(deleted_rows_result(2).is_ok());
    assert_eq!(month_of("2026-09-01"), Some((2026, 9)));
    assert_eq!(month_of("2026-9"), None);
}

#[test]
fn start_texts_by_kind() {
    let mut cfg = default_cfg();
    assert_eq!(ot_start_of(&cfg, DayKind::Workday), "18:00");
    assert_eq!(ot_start_of(&cfg, DayKind::Weekend), "09:00");
    cfg.overtime_start = Some("19:30".into());
    cfg.weekend_ot_start = Some("10:00".into());
    assert_eq!(ot_start_of(&cfg, DayKind::Workday), "19:30");
    assert_eq!(ot_start_of(&cfg, DayKind::Holiday), "10:00");
    assert!(DayKind::Holiday.is_rest());
    assert!(!DayKind::Workday.is_rest());
    assert_eq!(DayKind::Weekend.label(), "休息日");
}

#[test]
fn locks_are_handled_once() {
    assert_eq!(lock_to_process(true, Some(100), None), Some(100));
    assert_eq!(lock_to_process(true, Some(100), Some(100)), None);
    assert_eq!(lock_to_process(true, Some(200), Some(100)), Some(200));
    assert_eq!(lock_to_process(false, Some(200), None), None);
    assert_eq!(lock_to_process(true, None, None), None);
}
