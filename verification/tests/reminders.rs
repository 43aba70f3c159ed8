use niuma_timer::scheduler::Beats;
use niuma_timer::lock_monitor::{LockState, WTS_SESSION_LOCK, WTS_SESSION_UNLOCK};
use niuma_timer::pause::Pause;
use niuma_timer::remind::{
    sedentary_texts, should_remind, should_remind_offwork, RemindState, IDLE_REST_MS,
};
use niuma_timer::remote::{is_remote_active, remote_device_signature, RemoteDevices, REMOTE_WINDOW_MS};
use niuma_timer::date::Date;

const M: i64 = 60_000;

#[test]
fn pause_state_machine() {
    let mut p = Pause::new();
    p.set_manual(false);
    assert!(!p.is_paused());
    p.set_manual(true);
    assert!(p.is_paused(), "paused after manual pause");
    assert!(p.view().paused);
    p.set_manual(false);
    assert!(!p.is_paused());
    p.set_manual(false);
}

#[test]
fn sedentary_requires_active_state() {
    assert!(!should_remind(100 * M, 40 * M, 99 * M as u64, true, false, 50, 0));
    assert!(!should_remind(100 * M, 40 * M, 99 * M as u64, false, true, 50, 0));
    assert!(!should_remind(100 * M, 0, 99 * M as u64, false, false, 50, 0));
}

#[test]
fn sedentary_idle_five_minutes_resets() {
    let idle = IDLE_REST_MS;
    assert!(!should_remind(100 * M, 40 * M, (100 * M - idle) as u64, false, false, 50, 0));
    assert!(should_remind(100 * M, 40 * M, (100 * M - idle + 1) as u64, false, false, 50, 0));
}

#[test]
fn sedentary_threshold_boundary() {
    let since = 50 * M;
    let now = since + 50 * M;
    assert!(should_remind(now, since, (now - 1) as u64, false, false, 50, 0));
    assert!(!should_remind(now - 1, since, (now - 2) as u64, false, false, 50, 0));
}

#[test]
fn sedentary_cooldown_suppresses_repeat() {
    let since = 50 * M;
    let now = since + 50 * M;
    assert!(!should_remind(now, since, (now - 1) as u64, false, false, 50, now - 4 * M));
    assert!(should_remind(now, since, (now - 1) as u64, false, false, 50, now - 5 * M));
    assert!(should_remind(now, since, (now - 1) as u64, false, false, 50, 0));
}

#[test]
fn offwork_conditions() {
    // times of day in seconds
    assert!(should_remind_offwork(false, true, 18 * 3600, 18 * 3600, true));
    assert!(!should_remind_offwork(false, false, 19 * 3600, 18 * 3600, true));
    assert!(!should_remind_offwork(false, true, (17 * 60 + 59) * 60, 18 * 3600, true));
    assert!(!should_remind_offwork(true, true, 19 * 3600, 18 * 3600, true));
    assert!(!should_remind_offwork(false, true, 19 * 3600, 18 * 3600, false));
}

#[test]
fn notify_texts_shared_by_real_and_test_paths() {
    let (title, body) = sedentary_texts(50);
    assert_eq!(title, "该起来活动了");
    assert!(body.contains("50 分钟"), "minutes appear in the text: {body}");
}

#[test]
fn reset_state_clears_all_remind_marks() {
    let mut s = RemindState::new();
    s.offwork_done = true;
    s.offwork_date = Some(Date { year: 2026, month: 5, day: 6 });
    s.last_sed_remind = 12345;
    s.sed_since = 67890;
    s.reset_state();
    assert!(!s.offwork_done);
    assert!(s.offwork_date.is_none());
    assert_eq!(s.last_sed_remind, 0);
    assert_eq!(s.sed_since, 0);
}

#[test]
fn sedentary_tick_fires_once_then_cools_down() {
    let mut s = RemindState::new();
    // first active tick starts the period
    assert!(!s.sedentary_tick(true, 10 * M, (10 * M) as u64, false, false, 50));
    assert_eq!(s.sed_since, 10 * M);
    // fifty minutes later it fires and restarts
    assert!(s.sedentary_tick(true, 60 * M, (60 * M) as u64, false, false, 50));
    assert_eq!(s.sed_since, 0);
    assert_eq!(s.last_sed_remind, 60 * M);
    // switched off: the period is cleared
    s.sed_since = 5;
    assert!(!s.sedentary_tick(false, 61 * M, (61 * M) as u64, false, false, 50));
    assert_eq!(s.sed_since, 0);
}

#[test]
fn sedentary_tick_locked_clears_period() {
    let mut s = RemindState::new();
    s.sed_since = 3 * M;
    assert!(!s.sedentary_tick(true, 100 * M, (100 * M) as u64, false, true, 50));
    assert_eq!(s.sed_since, 0);
}

#[test]
fn offwork_tick_fires_once_per_day() {
    let d1 = Date { year: 2026, month: 5, day: 6 };
    let d2 = Date { year: 2026, month: 5, day: 7 };
    let mut s = RemindState::new();
    assert!(!s.offwork_tick(d1, true, true, 17 * 3600, 18 * 3600, true));
    assert!(s.offwork_tick(d1, true, true, 18 * 3600, 18 * 3600, true));
    assert!(!s.offwork_tick(d1, true, true, 19 * 3600, 18 * 3600, true));
    assert!(s.offwork_tick(d2, true, true, 19 * 3600, 18 * 3600, true));
    assert!(!s.offwork_tick(d2, false, true, 19 * 3600, 18 * 3600, true) && s.offwork_done);
}

#[test]
fn force_sedentary_moves_start_back() {
    let mut s = RemindState::new();
    s.last_sed_remind = 7;
    s.force_sedentary_since(100 * M, 50);
    assert_eq!(s.sed_since, 50 * M);
    assert_eq!(s.last_sed_remind, 0);
    s.force_sedentary_since(100 * M, 0);
    assert_eq!(s.sed_since, 99 * M);
}

#[test]
fn sedentary_text_negative_minutes() {
    let (_, body) = sedentary_texts(-3);
    assert!(body.contains("-3 分钟"));
}

#[test]
fn signature_hits_known_remotes() {
    assert!(remote_device_signature("ROOT\\RDP_KBD\\0000"));
    assert!(remote_device_signature("ACPI\\SunloginRemote\\1"));
    assert!(remote_device_signature("HID\\ToDesk_Virtual_KB\\2"));
    assert!(remote_device_signature("USB\\VID_1234&PID_UU\\3"));
}

#[test]
fn signature_skips_physical() {
    assert!(!remote_device_signature("HID\\VID_046D&PID_C52B\\4"));
    assert!(!remote_device_signature("ACPI\\Virtual_Keyboard\\5"));
    assert!(!remote_device_signature(""));
}

#[test]
fn active_window_boundary() {
    let now: u64 = 10_000_000;
    assert!(is_remote_active(false, Some(now - 59_000), now, REMOTE_WINDOW_MS));
    assert!(!is_remote_active(false, Some(now - 61_000), now, REMOTE_WINDOW_MS));
    assert!(!is_remote_active(false, None, now, REMOTE_WINDOW_MS));
    assert!(is_remote_active(true, None, now, REMOTE_WINDOW_MS));
}

#[test]
fn remote_devices_classify_once() {
    let mut d = RemoteDevices::new();
    d.observe(1, Some("HID\\VID_046D&PID_C52B\\4"), 100);
    assert_eq!(d.classified(1), Some(false));
    assert_eq!(d.last_remote_ms, None);
    d.observe(2, Some("ROOT\\RDP_KBD\\0000"), 200);
    assert_eq!(d.classified(2), Some(true));
    assert_eq!(d.last_remote_ms, Some(200));
    // a known physical device never refreshes the remote time
    d.observe(1, Some("ROOT\\RDP_KBD\\0000"), 300);
    assert_eq!(d.last_remote_ms, Some(200));
    d.observe(2, None, 400);
    assert_eq!(d.last_remote_ms, Some(400));
    d.observe(3, None, 500);
    assert_eq!(d.classified(3), Some(false));
    assert_eq!(d.classified(4), None);
}

#[test]
fn unlock_keeps_lock_time() {
    let mut s = LockState::new();
    assert!(!s.is_away());
    s.on_session_change(WTS_SESSION_LOCK, 1000);
    assert!(s.is_away());
    assert_eq!(s.last_lock_timestamp(), Some(1000));
    s.on_session_change(WTS_SESSION_UNLOCK, 2000);
    assert!(!s.is_away());
    assert_eq!(s.last_lock_timestamp(), Some(1000));
    s.on_session_change(0x5, 3000);
    assert_eq!(s.last_lock_timestamp(), Some(1000));
}

#[test]
fn beats_schedule_periodic_work() {
    let today = Date { year: 2026, month: 5, day: 6 };
    let mut b = Beats::new();
    let mut fives = 0;
    let mut tens = 0;
    let mut upkeep = 0;
    for i in 1..=120u64 {
        let t = b.on_beat(i > 100, today);
        assert!(t.refresh_tray);
        assert_eq!(t.emit_visibility, i == 1 || i == 101);
        fives += t.rollover_and_overtime as u32;
        tens += t.flush as u32;
        upkeep += t.maintenance as u32;
    }
    assert_eq!((fives, tens, upkeep), (24, 12, 1), "the upkeep runs once a day");
    let next = Date { year: 2026, month: 5, day: 7 };
    let mut ran = false;
    for _ in 0..60 {
        ran |= b.on_beat(true, next).maintenance;
    }
    assert!(ran, "a new day runs the upkeep again");
}
