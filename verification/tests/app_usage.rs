use chrono::TimeZone;
use niuma_timer::win::IconRgba;
use niuma_timer::app_usage::{
    display_name_of, exe_name_lower, hourly_buckets, icon_png, is_self_exe, is_slack_app, png_data_url,
    front_app, known_display_name, set_enabled, should_record, split_at_cuts, split_by_hour, strip_extension_of,
    trim_text, CurApp, CurState, HourCut, Whitelist,
};
use niuma_timer::date::Date;

fn local_ms(y: i32, mo: u32, d: u32, h: u32, mi: u32, s: u32) -> u64 {
    chrono::Local
        .with_ymd_and_hms(y, mo, d, h, mi, s)
        .unwrap()
        .timestamp_millis() as u64
}

#[test]
fn take_segment_advances_baseline_correctly() {
    let mut cur = CurState::new();
    cur.app = None;
    cur.since_ms = 0;
    let (_, secs) = cur.take_segment(1_000_000);
    assert_eq!(secs, 0, "the first call only sets the baseline");
    assert_eq!(cur.since_ms, 1_000_000);

    let (_, secs) = cur.take_segment(1_010_900);
    assert_eq!(secs, 10, "10.9 s counts 10 s");
    assert_eq!(cur.since_ms, 1_010_000, "the 900 ms fraction stays for the next segment");
    let (_, secs) = cur.take_segment(1_011_000);
    assert_eq!(secs, 1);
    assert_eq!(cur.since_ms, 1_011_000);

    let (_, secs) = cur.take_segment(1_011_000 + 3_600_000);
    assert_eq!(secs, 60, "one hour of sleep credits at most 60 s");
    assert_eq!(cur.since_ms, 1_011_000 + 3_600_000);
    let (_, secs) = cur.take_segment(1_011_000 + 3_600_000 + 10_000);
    assert_eq!(secs, 10);
}

#[test]
fn segment_is_attributed_to_outgoing_app() {
    let mut cur = CurState::new();
    let old = CurApp { display: "微信".into(), exe_path: "C:/WeChat.exe".into() };
    cur.app = Some(old.clone());
    cur.since_ms = 2_000_000;
    let (app, secs) = cur.take_segment(2_009_000);
    assert_eq!(secs, 9);
    assert_eq!(app.map(|a| a.display), Some("微信".to_string()));
    cur.set_app(Some(CurApp { display: "Chrome".into(), exe_path: "C:/chrome.exe".into() }));
    let (app, secs) = cur.take_segment(2_010_000);
    assert_eq!(secs, 1);
    assert_eq!(app.map(|a| a.display), Some("Chrome".to_string()));
}

#[test]
fn split_by_hour_splits_across_hour_and_day() {
    let start = local_ms(2026, 9, 3, 10, 0, 0);
    let parts = split_by_hour(start, start + 10_000, 10);
    assert_eq!(parts.len(), 1);
    assert_eq!(parts[0].1, 10);
    assert_eq!(parts[0].2, 10);

    let start = local_ms(2026, 9, 3, 10, 59, 55);
    let parts = split_by_hour(start, start + 10_000, 10);
    assert_eq!(parts.len(), 2);
    assert_eq!(parts[0].1, 10);
    assert_eq!(parts[0].2, 5);
    assert_eq!(parts[1].1, 11);
    assert_eq!(parts[1].2, 5);

    let start = local_ms(2026, 9, 3, 23, 59, 55);
    let parts = split_by_hour(start, start + 10_000, 10);
    assert_eq!(parts.len(), 2);
    assert_eq!(parts[0].1, 23);
    assert_eq!(parts[0].2, 5);
    assert_eq!(parts[1].1, 0);
    assert_eq!(parts[1].2, 5);
    assert_ne!(parts[0].0, parts[1].0);

    let cases = [
        (local_ms(2026, 9, 3, 10, 59, 55), 10u64),
        (local_ms(2026, 9, 3, 23, 59, 59), 60u64),
        (local_ms(2026, 9, 3, 8, 0, 0), 1u64),
    ];
    for (start, secs) in cases {
        let parts = split_by_hour(start, start + secs * 1000, secs);
        let sum: i64 = parts.iter().map(|p| p.2).sum();
        assert_eq!(sum, secs as i64, "{parts:?}");
    }
}

#[test]
fn split_by_hour_dates_are_formatted() {
    let start = local_ms(2026, 9, 3, 23, 59, 55);
    let parts = split_by_hour(start, start + 10_000, 10);
    assert_eq!(parts[0].0, "2026-09-03");
    assert_eq!(parts[1].0, "2026-09-04");
}

#[test]
fn split_by_hour_empty_inputs() {
    assert!(split_by_hour(1000, 2000, 0).is_empty());
    assert!(split_by_hour(2000, 2000, 5).is_empty());
    // a span shorter than a second still books its seconds at the start hour
    let start = local_ms(2026, 9, 3, 9, 30, 0);
    let parts = split_by_hour(start, start + 500, 1);
    assert_eq!(parts.len(), 1);
    assert_eq!(parts[0].1, 9);
    assert_eq!(parts[0].2, 1);
}

#[test]
fn known_names_and_fallbacks() {
    assert_eq!(known_display_name("wechat.exe"), Some("微信".to_string()));
    assert_eq!(known_display_name("code.exe"), Some("VS Code".to_string()));
    assert_eq!(known_display_name("unknown.exe"), None);
    assert_eq!(display_name_of("chrome.exe", Some("Something else")), "Google Chrome");
    assert_eq!(display_name_of("foo.exe", Some("  Foo Editor \t")), "Foo Editor");
    assert_eq!(display_name_of("foo.exe", Some("   ")), "foo");
    assert_eq!(display_name_of("foo.bar.exe", None), "foo.bar");
    assert_eq!(display_name_of("noext", None), "noext");
    assert_eq!(strip_extension_of("a.b.c"), "a.b");
    assert_eq!(trim_text("  x y  "), "x y");
}

#[test]
fn slack_and_self() {
    assert!(is_slack_app("网易云音乐"));
    assert!(is_slack_app("Steam"));
    assert!(!is_slack_app("VS Code"));
    assert!(is_self_exe("niuma-timer.exe"));
    assert!(!is_self_exe("chrome.exe"));
}

#[test]
fn exe_names_are_lower_case_file_names() {
    assert_eq!(exe_name_lower("C:\\Program Files\\Tencent\\WeChat.EXE"), "wechat.exe");
    assert_eq!(exe_name_lower("Code.exe"), "code.exe");
    assert_eq!(exe_name_lower("D:\\Ÿ\\ÀB.EXE"), "àb.exe");
}

#[test]
fn whitelist_compares_in_lower_case() {
    let mut w = Whitelist::new();
    assert!(w.in_whitelist("Anything"));
    w.set_whitelist(true, vec![]);
    assert!(w.in_whitelist("Anything"));
    w.set_whitelist(true, vec!["Google Chrome".to_string(), "微信".to_string()]);
    assert!(w.in_whitelist("google chrome"));
    assert!(w.in_whitelist("微信"));
    assert!(!w.in_whitelist("Steam"));
    w.set_whitelist(false, vec!["微信".to_string()]);
    assert!(w.in_whitelist("Steam"));
}

#[test]
fn record_needs_input_within_idle_threshold() {
    assert!(should_record(5, true, false, true, 1_000_000, 1_000_000 - 300_000));
    assert!(!should_record(5, true, false, true, 1_000_000, 1_000_000 - 300_001));
    assert!(!should_record(0, true, false, true, 1_000_000, 1_000_000));
    assert!(!should_record(5, false, false, true, 1_000_000, 1_000_000));
    assert!(!should_record(5, true, true, true, 1_000_000, 1_000_000));
    assert!(!should_record(5, true, false, false, 1_000_000, 1_000_000));
}

#[test]
fn hourly_buckets_fill_24_hours() {
    let rows = vec![(3, 100), (23, 7), (24, 9), (-1, 4), (3, 200)];
    let b = hourly_buckets(&rows);
    assert_eq!(b.len(), 24);
    assert_eq!(b[3], 200);
    assert_eq!(b[23], 7);
    assert_eq!(b[0], 0);
    let mut on = true;
    set_enabled(&mut on, false);
    assert!(!on);
}

#[test]
fn data_urls_are_base64() {
    assert_eq!(png_data_url(b""), "data:image/png;base64,");
    assert_eq!(png_data_url(b"a"), "data:image/png;base64,YQ==");
    assert_eq!(png_data_url(b"ab"), "data:image/png;base64,YWI=");
    assert_eq!(png_data_url(b"abc"), "data:image/png;base64,YWJj");
    assert_eq!(png_data_url(&[0xfb, 0xff, 0x00, 0x3e]), "data:image/png;base64,+/8APg==");
}

#[test]
fn icon_png_decodes_to_the_same_pixels() {
    let rgba: Vec<u8> = (0..(3 * 2 * 4)).map(|i| (i * 7) as u8).collect();
    let icon = IconRgba { width: 3, height: 2, rgba: rgba.clone() };
    let png_bytes = icon_png(&icon).unwrap();
    assert_eq!(&png_bytes[..8], &[137, 80, 78, 71, 13, 10, 26, 10]);
    let decoder = png::Decoder::new(png_bytes.as_slice());
    let mut reader = decoder.read_info().unwrap();
    let mut buf = vec![0u8; reader.output_buffer_size()];
    let info = reader.next_frame(&mut buf).unwrap();
    assert_eq!((info.width, info.height), (3, 2));
    assert_eq!(&buf[..info.buffer_size()], rgba.as_slice());
    assert!(icon_png(&IconRgba { width: 0, height: 0, rgba: vec![] }).is_none());
}

fn cut(at_ms: u64, y: i32, m: u32, d: u32, hour: u32, next_ms: u64) -> HourCut {
    HourCut { at_ms, date: Date { year: y, month: m, day: d }, hour, next_ms }
}

#[test]
fn split_at_cuts_credits_each_hour_up_to_its_end() {
    let cuts = vec![cut(0, 2026, 9, 3, 23, 5_000), cut(5_000, 2026, 9, 4, 0, 3_605_000)];
    let parts = split_at_cuts(&cuts, 10_500, 10);
    assert_eq!(parts, vec![("2026-09-03".to_string(), 23, 5), ("2026-09-04".to_string(), 0, 5)]);
}

#[test]
fn split_at_cuts_gives_rounding_leftover_to_last_part() {
    let cuts = vec![cut(0, 2026, 9, 3, 10, 5_500), cut(5_500, 2026, 9, 3, 11, 3_605_500)];
    let parts = split_at_cuts(&cuts, 10_000, 10);
    assert_eq!(parts, vec![("2026-09-03".to_string(), 10, 5), ("2026-09-03".to_string(), 11, 5)]);
}

#[test]
fn split_at_cuts_stops_when_seconds_are_spent() {
    let cuts = vec![cut(0, 2026, 9, 3, 10, 7_000), cut(7_000, 2026, 9, 3, 11, 20_000)];
    let parts = split_at_cuts(&cuts, 20_000, 4);
    assert_eq!(parts, vec![("2026-09-03".to_string(), 10, 4)]);
    assert!(split_at_cuts(&vec![cut(0, 2026, 9, 3, 10, 400)], 400, 3).is_empty());
    assert!(split_at_cuts(&vec![], 400, 3).is_empty());
}

#[test]
fn front_app_applies_self_and_whitelist() {
    let mut wl = Whitelist::new();
    assert!(front_app("C:\\bin\\niuma-timer.exe", None, &wl).is_none());
    let a = front_app("C:\\Program Files\\Tencent\\WeChat.EXE", None, &wl).unwrap();
    assert_eq!(a.exe_path, "C:\\Program Files\\Tencent\\WeChat.EXE");
    assert_eq!(a.display, display_name_of("wechat.exe", None));
    wl.set_whitelist(true, vec!["Chrome".to_string()]);
    assert!(front_app("C:\\Program Files\\Tencent\\WeChat.EXE", None, &wl).is_none());
}

#[test]
fn switch_app_settles_the_old_application_first() {
    let mut s = CurState::new();
    let first = CurApp { display: "A".into(), exe_path: "a.exe".into() };
    assert_eq!(s.switch_app(1_000, Some(first)).1, 0);
    let second = CurApp { display: "B".into(), exe_path: "b.exe".into() };
    let (prev, secs) = s.switch_app(4_500, Some(second));
    assert_eq!(prev.map(|a| a.display), Some("A".to_string()));
    assert_eq!(secs, 3);
    assert_eq!(s.app.as_ref().map(|a| a.display.as_str()), Some("B"));
    assert_eq!(s.since_ms, 4_000);
}
