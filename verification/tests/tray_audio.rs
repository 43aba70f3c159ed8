use niuma_timer::audio_usage::{
    accumulate_heard, credit, media_app_of, needs_icon, sample_dt, MsTable,
};
use niuma_timer::tray::{
    HoverController, HoverMsg, HoverObs, Phase, ShowOutcome, CLICK_COOLDOWN_MS, FADE_MS,
    HOVER_SHOW_DELAY_MS, MAX_VISIBLE_MS, WATCHDOG_INTERVAL_MS,
};

type Ctl = HoverController<(i32, i32), (i32, i32, i32, i32)>;

fn obs(inside: Option<bool>, visible: bool) -> HoverObs {
    HoverObs { cursor_in_region: inside, card_visible: visible }
}

fn shown_at(now: u64) -> Ctl {
    let mut c = Ctl::new();
    c.handle(HoverMsg::Enter((10, 10)), now, obs(Some(true), false));
    c.apply_show((10, 10), ShowOutcome::Shown((0, 0, 100, 100)), now + HOVER_SHOW_DELAY_MS);
    c
}

#[test]
fn hover_shows_after_delay() {
    let t0: u64 = 1_700_000_000_000;
    let mut c = Ctl::new();
    assert_eq!(c.next_wakeup(t0), None);
    let fx = c.handle(HoverMsg::Enter((5, 6)), t0, obs(Some(true), false));
    assert!(fx.show.is_none());
    assert_eq!(c.phase, Phase::Pending { show_at: t0 + HOVER_SHOW_DELAY_MS });
    assert_eq!(c.next_wakeup(t0 + 100), Some(300));
    // a second Enter keeps the deadline
    c.handle(HoverMsg::Enter((7, 8)), t0 + 200, obs(Some(true), false));
    assert_eq!(c.phase, Phase::Pending { show_at: t0 + 400 });
    assert!(c.on_timeout(t0 + 300, obs(Some(true), false)).show.is_none());
    let fx = c.on_timeout(t0 + 400, obs(Some(true), false));
    assert_eq!(fx.show, Some((7, 8)));
    c.apply_show((7, 8), ShowOutcome::Shown((0, 0, 1, 1)), t0 + 400);
    assert!(matches!(c.phase, Phase::Shown { fading: false, .. }));
    assert_eq!(c.card_rect, Some((0, 0, 1, 1)));
    assert!(c.next_wakeup(t0 + 400).unwrap() <= WATCHDOG_INTERVAL_MS);
}

#[test]
fn enter_right_after_start_waits_for_the_cooldown() {
    // the click time starts at 0: within 1.5 s of the clock's zero an Enter waits longer
    let mut c = Ctl::new();
    c.handle(HoverMsg::Enter((1, 1)), 1000, obs(Some(true), false));
    assert_eq!(c.phase, Phase::Pending { show_at: 1500 });
}

#[test]
fn leave_before_delay_cancels() {
    let mut c = Ctl::new();
    c.handle(HoverMsg::Enter((1, 1)), 0, obs(Some(true), false));
    c.handle(HoverMsg::Leave, 100, obs(Some(false), false));
    assert_eq!(c.phase, Phase::Hidden);
    assert!(c.pending_pos.is_none());
    assert!(c.on_timeout(1000, obs(None, false)).show.is_none());
}

#[test]
fn click_hides_and_cooldown_delays_the_next_show() {
    let mut c = shown_at(10_000);
    let fx = c.handle(HoverMsg::Click, 11_000, obs(Some(true), true));
    assert!(fx.emit_hide && fx.hide_window);
    assert_eq!(c.phase, Phase::Hidden);
    assert!(c.in_click_cooldown(11_000 + CLICK_COOLDOWN_MS - 1));
    assert!(!c.in_click_cooldown(11_000 + CLICK_COOLDOWN_MS));
    c.handle(HoverMsg::Enter((2, 2)), 11_200, obs(Some(true), false));
    assert_eq!(c.phase, Phase::Pending { show_at: 11_000 + CLICK_COOLDOWN_MS });
}

#[test]
fn double_click_opens_main_and_fades() {
    let mut c = shown_at(0);
    let fx = c.handle(HoverMsg::DoubleClick, 1000, obs(Some(true), true));
    assert!(fx.open_main && fx.emit_hide);
    assert_eq!(c.phase, Phase::Shown { fading: true, fade_deadline: Some(1000 + FADE_MS) });
    assert!(!c.on_timeout(1000 + FADE_MS - 1, obs(None, true)).hide_window);
    assert!(c.on_timeout(1000 + FADE_MS, obs(None, true)).hide_window);
    assert_eq!(c.phase, Phase::Hidden);
}

#[test]
fn watchdog_hides_after_two_polls_outside() {
    let mut c = shown_at(0);
    let fx = c.on_timeout(500, obs(Some(false), true));
    assert!(!fx.emit_hide);
    c.on_timeout(650, obs(Some(true), true));
    assert_eq!(c.gone_polls, 0, "back inside resets the count");
    c.on_timeout(800, obs(Some(false), true));
    let fx = c.on_timeout(950, obs(Some(false), true));
    assert!(fx.emit_hide);
    assert!(matches!(c.phase, Phase::Shown { fading: true, .. }));
}

#[test]
fn overstay_hides_the_card() {
    let mut c = shown_at(0);
    let fx = c.on_timeout(HOVER_SHOW_DELAY_MS + MAX_VISIBLE_MS, obs(Some(true), true));
    assert!(fx.overstay && fx.emit_hide);
}

#[test]
fn show_signal_is_repeated_four_times() {
    let mut c = shown_at(0);
    let base = HOVER_SHOW_DELAY_MS;
    let mut sent = 0;
    for t in [base + 200, base + 500, base + 1000, base + 1800, base + 3000] {
        if c.on_timeout(t, obs(Some(true), true)).emit_show {
            sent += 1;
        }
    }
    assert_eq!(sent, 4);
    c.on_timeout(base + 3100, obs(Some(true), true));
    assert!(c.retry_base.is_none());
}

#[test]
fn ready_and_menu_hide() {
    let mut c = Ctl::new();
    assert!(c.handle(HoverMsg::Ready, 0, obs(None, false)).show.is_none());
    c.handle(HoverMsg::Enter((3, 3)), 0, obs(Some(true), false));
    assert_eq!(c.handle(HoverMsg::Ready, 10, obs(None, false)).show, Some((3, 3)));
    let fx = c.handle(HoverMsg::MenuHide, 20, obs(None, false));
    assert!(fx.hide_window);
    assert!(c.pending_pos.is_none());
    assert_eq!(c.phase, Phase::Hidden);
    c.apply_show((3, 3), ShowOutcome::NoWindow, 30);
    assert_eq!(c.pending_pos, Some((3, 3)));
    assert_eq!(c.phase, Phase::Hidden);
}

#[test]
fn sample_time_is_capped() {
    assert_eq!(sample_dt(150), 150);
    assert_eq!(sample_dt(399), 399);
    assert_eq!(sample_dt(5000), 400);
}

#[test]
fn table_of_milliseconds() {
    let mut t = MsTable::new();
    assert_eq!(t.get("a"), 0);
    t.put("a", 5);
    t.put("b", 7);
    t.put("a", 9);
    assert_eq!(t.get("a"), 9);
    assert_eq!(t.get("b"), 7);
    assert_eq!(t.entries.len(), 2);
}

#[test]
fn heard_applications_count_once_per_sample() {
    let mut acc = MsTable::new();
    let apps = vec!["Spotify".to_string(), "Spotify".to_string(), "微信".to_string()];
    accumulate_heard(&mut acc, &apps, &vec![true, true, false], 200);
    assert_eq!(acc.get("Spotify"), 200);
    assert_eq!(acc.get("微信"), 0);
}

#[test]
fn credit_carries_fractions() {
    let mut pending = MsTable::new();
    pending.put("Spotify", 900);
    let due = credit(&mut pending, &vec![("Spotify".to_string(), 2300), ("VLC".to_string(), 500)]);
    assert_eq!(due, vec![("Spotify".to_string(), 3)]);
    assert_eq!(pending.get("Spotify"), 200);
    assert_eq!(pending.get("VLC"), 500);
    let due = credit(&mut pending, &vec![("VLC".to_string(), 600)]);
    assert_eq!(due, vec![("VLC".to_string(), 1)]);
    assert_eq!(pending.get("VLC"), 100);
}

#[test]
fn media_applications() {
    assert_eq!(media_app_of(0, Some("C:\\x\\spotify.exe"), None), None);
    assert_eq!(media_app_of(12, None, None), None);
    assert_eq!(media_app_of(12, Some("C:\\x\\niuma-timer.exe"), None), None);
    assert_eq!(media_app_of(12, Some("C:\\x\\Spotify.exe"), None), Some("Spotify".to_string()));
    assert_eq!(media_app_of(12, Some("C:\\x\\foo.exe"), Some("Foo Player")), Some("Foo Player".to_string()));
    assert!(needs_icon(&vec!["A".to_string()], "B"));
    assert!(!needs_icon(&vec!["A".to_string()], "A"));
}

#[test]
fn due_show_that_cannot_show_goes_idle() {
    for outcome in [ShowOutcome::Disabled, ShowOutcome::NoWindow] {
        let mut c = Ctl::new();
        c.handle(HoverMsg::Enter((5, 5)), 10_000, obs(Some(true), false));
        let due = 10_000 + HOVER_SHOW_DELAY_MS;
        let fx = c.on_timeout(due, obs(Some(true), false));
        assert_eq!(fx.show, Some((5, 5)));
        c.apply_show((5, 5), outcome, due);
        assert_eq!(c.phase, Phase::Hidden);
        assert_eq!(c.next_wakeup(due + 1), None);
        let kept = matches!(outcome, ShowOutcome::NoWindow);
        assert_eq!(c.pending_pos.is_some(), kept);
    }
}
