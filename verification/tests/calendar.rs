use niuma_timer::holiday::{all_mirrors_failed, feed_urls, holiday_after_fetch, startup_holiday};
use chrono::Datelike;
use niuma_timer::maintain::{icon_is_stale, storage_info_of};
use std::collections::HashMap;

use niuma_timer::calc::{
    current_monthly_workdays, day_times, days_to_payday, daily_seconds, is_workday_on, overlap,
    OffLabel,
};
use niuma_timer::clock::{
    decimal_string, duration_format_of, format_duration_hm, format_duration_hms, hm_string,
    parse_hm_parts, parse_hm_secs, schedule_secs_of, text_eq, DurationFormat,
};
use niuma_timer::config::{
    effective_workdays_override, stamp_override_month, stamp_override_month_at, ym_string, Config,
};
use niuma_timer::date::{days_in_month, iso_week_number, week_start_of, Date, LocalNow};
use niuma_timer::holiday::{
    builtin_cache, expand_year, key_of, parse_holiday_cn, weekday_count, HolidayCache,
    HolidayFeed, HolidayFeedDay, DAY_HOLIDAY, DAY_MAKEUP, DAY_WEEKEND, DAY_WORK,
};
use niuma_timer::insights::text_lt;
use niuma_timer::maintain::{cutoff_for, earliest_of, icon_cutoff, shrink_worth_noting};

fn d(y: i32, m: u32, dd: u32) -> Date {
    Date { year: y, month: m, day: dd }
}

fn default_cfg() -> Config<f64> {
    Config::with_amounts(10000.0, 20.0, 20.0)
}

fn cfg_with_retention(days: u32) -> Config<f64> {
    let mut c = default_cfg();
    c.retention_days = days;
    c
}

#[test]
fn override_from_other_month_is_ignored() {
    let mut cfg = default_cfg();
    cfg.workdays_override = Some(18);
    cfg.workdays_override_for = Some("2026-10".into());
    assert_eq!(effective_workdays_override(&cfg, 2026, 10), Some(18));
    assert_eq!(effective_workdays_override(&cfg, 2026, 11), None);
}

#[test]
fn stamp_override_month_only_once() {
    let mut cfg = default_cfg();
    cfg.workdays_override = Some(18);
    assert!(stamp_override_month(&mut cfg));
    let stamped = cfg.workdays_override_for.clone();
    assert!(stamped.is_some());
    assert!(!stamp_override_month(&mut cfg));
    assert_eq!(cfg.workdays_override_for, stamped);
}

#[test]
fn stamp_uses_the_given_month_and_unstamped_override_applies() {
    let mut cfg = default_cfg();
    assert!(!stamp_override_month_at(&mut cfg, 2026, 3), "nothing to stamp without an override");
    cfg.workdays_override = Some(20);
    assert_eq!(effective_workdays_override(&cfg, 2031, 1), Some(20));
    assert!(stamp_override_month_at(&mut cfg, 2026, 3));
    assert_eq!(cfg.workdays_override_for.as_deref(), Some("2026-03"));
    assert_eq!(ym_string(987, 12), "0987-12");
}

#[test]
fn default_settings() {
    let c = default_cfg();
    assert_eq!(c.am_start, "09:00");
    assert_eq!(c.am_end, "12:00");
    assert_eq!(c.pm_start, "13:00");
    assert_eq!(c.pm_end, "18:00");
    assert_eq!(c.payday, 10);
    assert_eq!(c.duration_format, "hms");
    assert!(c.overtime_meal_enabled);
    assert!(!c.weekend_overtime);
    assert!(c.monitor_activity && c.monitor_app_usage && c.monitor_audio);
    assert_eq!(c.tagline_style, "dynamic");
    assert!(c.remind_sedentary_enabled);
    assert_eq!(c.remind_sedentary_minutes, 50);
}

#[test]
fn builtin_october_2026_is_18_workdays() {
    let c = builtin_cache(2026).expect("2026 has a built-in table");
    assert_eq!(c.month_workdays(2026, 10), Some(18));
    assert_eq!(weekday_count(2026, 10), 22);
    let c25 = builtin_cache(2025).unwrap();
    assert_eq!(c25.month_workdays(2025, 10), Some(18));
}

#[test]
fn builtin_spring_festival_and_makeup_day() {
    let c = builtin_cache(2026).unwrap();
    assert_eq!(c.days[&key_of(d(2026, 2, 17))], 3);
    assert_eq!(c.is_workday(d(2026, 2, 17)), Some(false));
    assert_eq!(c.days[&key_of(d(2026, 2, 14))], 2);
    assert_eq!(c.is_workday(d(2026, 2, 14)), Some(true));
    assert_eq!(c.days[&key_of(d(2026, 2, 28))], 2);
    assert_eq!(c.is_workday(d(2026, 2, 28)), Some(true));
}

#[test]
fn builtin_missing_year_is_none() {
    assert!(builtin_cache(2030).is_none());
}

#[test]
fn builtin_covers_whole_year() {
    for y in [2025, 2026] {
        let c = builtin_cache(y).unwrap();
        let dim: usize = (1..=12).map(|m| days_in_month(y, m) as usize).sum();
        assert_eq!(c.days.len(), dim, "{y}");
    }
}

#[test]
fn holiday_table_lookups() {
    let c = builtin_cache(2026).unwrap();
    assert_eq!(c.day_type(d(2026, 10, 1)), Some(DAY_HOLIDAY));
    assert_eq!(c.day_type(d(2026, 10, 10)), Some(DAY_MAKEUP));
    assert_eq!(c.day_type(d(2026, 11, 14)), Some(DAY_WEEKEND));
    assert_eq!(c.day_type(d(2026, 11, 16)), Some(DAY_WORK));
    assert_eq!(c.day_type(d(2027, 1, 4)), None);
    assert_eq!(c.month_workdays(2027, 1), None, "another year");
    let empty = HolidayCache { year: 2026, fetched_at: 0, days: HashMap::new() };
    assert_eq!(empty.month_workdays(2026, 10), None);
}

#[test]
fn expand_year_types_every_day() {
    let mut ov = HashMap::new();
    ov.insert(key_of(d(2027, 1, 1)), true);
    ov.insert(key_of(d(2027, 1, 2)), false);
    let m = expand_year(&ov, 2027);
    assert_eq!(m.len(), 365);
    assert_eq!(m[&key_of(d(2027, 1, 1))], DAY_HOLIDAY);
    assert_eq!(m[&key_of(d(2027, 1, 2))], DAY_MAKEUP);
    assert_eq!(m[&key_of(d(2027, 1, 3))], DAY_WEEKEND);
    assert_eq!(m[&key_of(d(2027, 1, 4))], DAY_WORK);
}

#[test]
fn holiday_feed_is_parsed() {
    let feed = HolidayFeed {
        year: Some(2027),
        days: vec![
            HolidayFeedDay { date: Some("2027-02-06".into()), is_off: Some(true) },
            HolidayFeedDay { date: Some("2027-02-13".into()), is_off: Some(false) },
            HolidayFeedDay { date: Some("garbage".into()), is_off: Some(true) },
            HolidayFeedDay { date: None, is_off: Some(true) },
        ],
    };
    let m = parse_holiday_cn(&feed, 2026).unwrap();
    assert_eq!(m.len(), 365);
    assert_eq!(m[&key_of(d(2027, 2, 6))], DAY_HOLIDAY);
    assert_eq!(m[&key_of(d(2027, 2, 13))], DAY_MAKEUP);
    assert_eq!(m[&key_of(d(2027, 2, 8))], DAY_WORK);
}

#[test]
fn default_config_keeps_everything() {
    assert_eq!(default_cfg().retention_days, 0);
    let today = d(2026, 9, 11);
    assert_eq!(cutoff_for(&cfg_with_retention(0), today), None);
}

#[test]
fn cutoff_is_today_minus_retention() {
    let today = d(2026, 9, 11);
    assert_eq!(cutoff_for(&cfg_with_retention(365), today), Some(d(2025, 9, 11)));
    let t = d(2027, 9, 11);
    assert_eq!(cutoff_for(&cfg_with_retention(365), t), Some(d(2026, 9, 11)));
}

#[test]
fn date_string_order_matches_chronological_order() {
    let pairs = [
        ("2026-09-30", "2026-10-01"),
        ("2026-12-31", "2027-01-01"),
        ("2026-01-09", "2026-01-10"),
    ];
    for (a, b) in pairs {
        let da = chrono::NaiveDate::parse_from_str(a, "%Y-%m-%d").unwrap();
        let db_ = chrono::NaiveDate::parse_from_str(b, "%Y-%m-%d").unwrap();
        assert!(da < db_, "{a} before {b}");
        assert!(text_lt(a, b));
        assert!(!text_lt(b, a));
    }
}

#[test]
fn upkeep_helpers() {
    assert_eq!(icon_cutoff(d(2026, 9, 11)), d(2026, 3, 15));
    assert_eq!(icon_cutoff(d(2027, 1, 10)), d(2026, 7, 14));
    let mins = vec![Some("2026-03-01".to_string()), None, Some("2025-12-31".to_string())];
    assert_eq!(earliest_of(&mins), Some("2025-12-31".to_string()));
    assert_eq!(earliest_of(&vec![None, None]), None);
    assert!(shrink_worth_noting(4 * 1024 * 1024, 0));
    assert!(!shrink_worth_noting(100_000, 100_000 - 65_535));
    assert!(shrink_worth_noting(100_000, 100_000 - 65_536));
}

#[test]
fn dates_through_chrono() {
    assert_eq!(days_in_month(2026, 2), 28);
    assert_eq!(days_in_month(2024, 2), 29);
    assert_eq!(days_in_month(2026, 12), 31);
    assert_eq!(week_start_of(d(2026, 8, 22)), d(2026, 8, 17));
    assert_eq!(week_start_of(d(2026, 9, 13)), d(2026, 9, 7));
    assert_eq!(week_start_of(d(2026, 9, 7)), d(2026, 9, 7));
    assert_eq!(week_start_of(d(2027, 1, 1)), d(2026, 12, 28));
    assert_eq!(days_to_payday(d(2026, 12, 31), 1), 1);
}

#[test]
fn clock_texts() {
    assert_eq!(parse_hm_secs("18:00"), Some(1080 * 60));
    assert_eq!(parse_hm_parts("7:5"), Some((7, 5)));
    assert_eq!(parse_hm_secs("1:2:3"), None);
    assert_eq!(schedule_secs_of("9"), 540 * 60);
    assert_eq!(schedule_secs_of("x"), 0);
    assert_eq!(hm_string(3 * 3600 + 29 * 60 + 31), "03:30");
    assert_eq!(format_duration_hms(3 * 3600 + 2 * 60 + 1), "3小时2分1秒");
    assert_eq!(format_duration_hms(61), "1分1秒");
    assert_eq!(format_duration_hm(3 * 3600 + 2 * 60 + 1), "3小时2分");
    assert_eq!(duration_format_of("hm"), DurationFormat::Hm);
    assert_eq!(duration_format_of("hms"), DurationFormat::Hms);
    assert_eq!(decimal_string(1203), "1203");
    assert!(text_eq("牛马", "牛马"));
    assert!(!text_eq("牛马", "牛"));
}

#[test]
fn working_clock() {
    let cfg = default_cfg();
    assert_eq!(daily_seconds(&cfg), 480 * 60);
    assert_eq!(overlap(100, 50, 80), 30);
    assert_eq!(overlap(60, 50, 80), 10);
    assert_eq!(overlap(10, 50, 80), 0);
    let now = LocalNow { date: d(2026, 9, 11), hour: 14, minute: 30, second: 0 };
    let t = day_times(&cfg, true, now);
    assert_eq!(t.worked_secs, 3 * 3600 + 90 * 60);
    assert_eq!(t.to_off_secs, 3 * 3600 + 30 * 60);
    assert!(!t.off_work);
    assert_eq!(t.off_label, OffLabel::Remaining(3 * 3600 + 30 * 60));
    assert_eq!(t.days_to_pay, 29);
    let late = LocalNow { date: d(2026, 9, 11), hour: 19, minute: 0, second: 0 };
    let t = day_times(&cfg, true, late);
    assert!(t.off_work);
    assert_eq!(t.off_label, OffLabel::Off);
    assert_eq!(t.worked_secs, 8 * 3600);
    let t = day_times(&cfg, false, late);
    assert_eq!(t.off_label, OffLabel::Rest);
    assert_eq!(t.to_off_secs, 0);
}

#[test]
fn payday_countdown() {
    assert_eq!(days_to_payday(d(2026, 9, 10), 10), 0);
    assert_eq!(days_to_payday(d(2026, 9, 11), 10), 29);
    assert_eq!(days_to_payday(d(2026, 2, 1), 31), 27, "clamped to the month's end");
    assert_eq!(days_to_payday(d(2026, 12, 20), 5), 16);
}

#[test]
fn monthly_divisor_chain() {
    let mut cfg = default_cfg();
    let hol = builtin_cache(2026).unwrap();
    assert_eq!(current_monthly_workdays(&cfg, &hol, d(2026, 10, 15)), 18);
    assert_eq!(current_monthly_workdays(&cfg, &hol, d(2027, 10, 15)), 21);
    cfg.workdays_override = Some(20);
    assert_eq!(current_monthly_workdays(&cfg, &hol, d(2026, 10, 15)), 20);
    assert!(!is_workday_on(&hol, d(2026, 10, 1)));
    assert!(is_workday_on(&hol, d(2026, 10, 10)));
    assert!(!is_workday_on(&hol, d(2027, 1, 2)));
    assert!(is_workday_on(&hol, d(2027, 1, 4)));
}

#[test]
fn holiday_source_after_a_fetch() {
    let mut fetched = HashMap::new();
    fetched.insert(key_of(d(2026, 1, 1)), DAY_HOLIDAY);
    let (c, persist) = holiday_after_fetch(2026, Ok(fetched.clone())).unwrap();
    assert!(persist);
    assert_eq!(c.year, 2026);
    assert_eq!(c.days, fetched);
    let (c, persist) = holiday_after_fetch(2025, Err("offline".into())).unwrap();
    assert!(!persist);
    assert_eq!(c.days.len(), 365);
    assert_eq!(
        holiday_after_fetch(2031, Err("offline".into())).unwrap_err(),
        "节假日数据获取失败，且内置表未收录 2031 年：offline"
    );
    assert!(startup_holiday(2031, None).is_none());
    assert_eq!(startup_holiday(2026, None).unwrap().days.len(), 365);
    let stored = HolidayCache { year: 2026, fetched_at: 7, days: fetched.clone() };
    assert_eq!(startup_holiday(2026, Some(stored)).unwrap().fetched_at, 7);
    let urls = feed_urls(2027);
    assert_eq!(urls[0], "https://cdn.jsdelivr.net/gh/NateScarlet/holiday-cn@master/2027.json");
    assert_eq!(urls[2], "https://gcore.jsdelivr.net/gh/NateScarlet/holiday-cn@master/2027.json");
    assert_eq!(all_mirrors_failed("HTTP 404"), "节假日数据获取失败（已尝试多个数据源）: HTTP 404");
}

#[test]
fn storage_snapshot_and_stale_icons() {
    let cfg = cfg_with_retention(30);
    let mins = vec![None, Some("2026-05-01".to_string()), Some("2026-04-30".to_string())];
    let info = storage_info_of(&cfg, 100, 5, 3, 999, &mins);
    assert_eq!(info.earliest_date.as_deref(), Some("2026-04-30"));
    assert_eq!((info.db_bytes, info.wal_bytes, info.icon_files, info.icon_bytes), (100, 5, 3, 999));
    assert_eq!(info.retention_days, 30);
    assert!(icon_is_stale(true, d(2026, 1, 1), d(2026, 1, 2)));
    assert!(!icon_is_stale(true, d(2026, 1, 2), d(2026, 1, 2)));
    assert!(!icon_is_stale(false, d(2026, 1, 1), d(2026, 1, 2)));
}

#[test]
fn earnings_stop_at_the_end_of_the_day() {
    let cfg = default_cfg();
    let at = |h: u32, m: u32| day_times(&cfg, true, LocalNow { date: d(2026, 9, 11), hour: h, minute: m, second: 0 }).worked_secs;
    assert_eq!(at(8, 0), 0);
    assert_eq!(at(12, 30), 3 * 3600, "the lunch break does not count");
    assert_eq!(at(13, 0), 3 * 3600);
    assert_eq!(at(18, 0), 8 * 3600);
    assert_eq!(at(23, 59), 8 * 3600);
}

#[test]
fn clock_texts_with_decimal_fractions() {
    assert_eq!(parse_hm_secs("18.5:00"), Some(18 * 3600 + 1800));
    assert_eq!(parse_hm_secs("9:30.5"), Some(9 * 3600 + 30 * 60 + 30));
    assert_eq!(parse_hm_secs(".5:0"), Some(1800));
    assert_eq!(parse_hm_secs("18.:0"), Some(18 * 3600));
    assert_eq!(parse_hm_secs("0.001:0"), Some(3));
    assert_eq!(parse_hm_secs("1.2.3:0"), None);
    assert_eq!(parse_hm_secs(".:30"), None);
    assert_eq!(schedule_secs_of("9.5"), 9 * 3600 + 1800);
    assert_eq!(schedule_secs_of("."), 0);
    assert_eq!(schedule_secs_of("8.25:30"), 8 * 3600 + 900 + 1800);
}

#[test]
fn iso_weeks_match_chrono() {
    assert_eq!(iso_week_number(d(2026, 1, 1)), 1);
    assert_eq!(iso_week_number(d(2021, 1, 1)), 53);
    assert_eq!(iso_week_number(d(2024, 12, 30)), 1);
    assert_eq!(iso_week_number(d(2026, 8, 31)), 36);
    let mut day = chrono::NaiveDate::from_ymd_opt(1995, 1, 1).unwrap();
    let end = chrono::NaiveDate::from_ymd_opt(2035, 12, 31).unwrap();
    while day <= end {
        let ours = iso_week_number(d(day.year(), day.month(), day.day()));
        assert_eq!(ours, day.iso_week().week(), "{day}");
        day = day.succ_opt().unwrap();
    }
    for (y, m, dd) in [(-262143, 1, 1), (-262143, 1, 3), (262142, 12, 31), (-1, 1, 1), (0, 1, 2), (400, 12, 31)] {
        let n = chrono::NaiveDate::from_ymd_opt(y, m, dd).unwrap();
        assert_eq!(iso_week_number(d(y, m, dd)), n.iso_week().week(), "{n}");
    }
}
