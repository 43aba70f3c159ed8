use niuma_timer::activity::{
    consume_key, day_from_rows, is_key_press, isqrt, pack_key, set_enabled, summary, top_indices, unpack_key,
    vk_name, DayState, HourBucket, KeyDetail, KeyFilter, KeyQueue, MouseTracker, PendingCounts,
    KEYQ_CAP, RI_MOUSE_LEFT_BUTTON_DOWN, RI_MOUSE_RIGHT_BUTTON_DOWN, RI_MOUSE_WHEEL,
};
use niuma_timer::win::RawMouse;

fn bucket(moves: u64, keys: u64) -> HourBucket {
    let mut b = HourBucket::zero();
    b.moves = moves;
    b.keys = keys;
    b
}

#[test]
fn bucket_add_and_events() {
    let mut a = bucket(3, 4);
    a.pixels = 100;
    let mut b = bucket(1, 1);
    b.left = 2;
    b.pixels = 5;
    a.add(&b);
    assert_eq!(a.moves, 4);
    assert_eq!(a.keys, 5);
    assert_eq!(a.left, 2);
    assert_eq!(a.pixels, 105);
    // travel is not an event
    assert_eq!(a.total_events(), 4 + 5 + 2);
}

#[test]
fn key_names() {
    assert_eq!(vk_name(0x0D), "回车");
    assert_eq!(vk_name(0x41), "A");
    assert_eq!(vk_name(0x30), "0");
    assert_eq!(vk_name(0x09), "Tab");
    assert_eq!(vk_name(0xFF), "VK0xFF");
}

#[test]
fn key_detail_keeps_codes_sorted() {
    let mut k = KeyDetail::new();
    k.set(0x41, 3);
    k.set(0x0D, 7);
    k.set(0x41, 9);
    assert_eq!(k.get(0x41), Some(9));
    assert_eq!(k.get(0x0D), Some(7));
    assert_eq!(k.get(0x42), None);
    assert_eq!(k.entries, vec![(0x0D, 7), (0x41, 9)]);
}

#[test]
fn flush_merges_into_the_hour_and_rolls_the_day() {
    let mut d = DayState::new("2026-05-06".to_string());
    let mut p = PendingCounts::new();
    p.record_key(0x41);
    p.record_key(0x41);
    p.bucket.moves = 10;
    let pending = p.take();
    assert_eq!(p.bucket, HourBucket::zero());
    assert!(d.can_flush(&"2026-05-06".to_string(), 9, &pending));
    let done = d.flush("2026-05-06".to_string(), 9, &pending);
    assert!(done.is_none());
    assert_eq!(d.hourly[9].keys, 2);
    assert_eq!(d.hourly[9].moves, 10);
    assert_eq!(d.key_detail.get(0x41), Some(2));
    // hours past 23 land in 23
    let done = d.flush("2026-05-06".to_string(), 30, &pending);
    assert!(done.is_none());
    assert_eq!(d.hourly[23].keys, 2);
    assert_eq!(d.key_detail.get(0x41), Some(4));
    // a new date hands back the finished day
    let done = d.flush("2026-05-07".to_string(), 0, &pending).unwrap();
    assert_eq!(done.date, "2026-05-06");
    assert_eq!(done.hourly[9].keys, 2);
    assert_eq!(d.date, "2026-05-07");
    assert_eq!(d.hourly[0].keys, 2);
    assert_eq!(d.hourly[9].keys, 0);
    assert_eq!(d.key_detail.get(0x41), Some(2));
}

#[test]
fn flush_refused_when_a_counter_would_overflow() {
    let mut d = DayState::new("d".to_string());
    d.hourly[3].moves = u64::MAX;
    let mut p = PendingCounts::new();
    p.bucket.moves = 1;
    assert!(!d.can_flush(&"d".to_string(), 3, &p));
    assert!(d.can_flush(&"e".to_string(), 3, &p));
}

#[test]
fn summary_totals_and_top_keys() {
    let mut d = DayState::new("2026-05-06".to_string());
    d.hourly[8] = bucket(5, 1);
    d.hourly[9] = bucket(0, 3);
    for (k, c) in [(0x41u32, 5u64), (0x42, 9), (0x43, 1), (0x44, 9)] {
        d.key_detail.set(k, c);
    }
    let s = summary(&d, true);
    assert_eq!(s.date, "2026-05-06");
    assert_eq!(s.totals.moves, 5);
    assert_eq!(s.totals.keys, 4);
    assert_eq!(s.active_hours, 2);
    assert!(s.hook_ok);
    let names: Vec<(String, u64)> = s.top_keys.iter().map(|k| (k.key.clone(), k.count)).collect();
    assert_eq!(
        names,
        vec![
            ("B".to_string(), 9),
            ("D".to_string(), 9),
            ("A".to_string(), 5),
            ("C".to_string(), 1)
        ]
    );
}

#[test]
fn top_indices_limits_and_orders() {
    let entries: Vec<(u32, u64)> = (0..15u32).map(|i| (i, (i as u64 * 7) % 11)).collect();
    let sel = top_indices(&entries, 10);
    assert_eq!(sel.len(), 10);
    for w in sel.windows(2) {
        assert!(entries[w[0]].1 >= entries[w[1]].1);
    }
    assert!(top_indices(&entries, 0).is_empty());
    assert_eq!(top_indices(&vec![(1, 1)], 10), vec![0]);
}

#[test]
fn day_rebuilt_from_rows() {
    let rows = vec![(2i64, bucket(1, 1)), (2, bucket(4, 4)), (25, bucket(9, 9))];
    let keys = vec![(0x41i64, 3i64), (0x41, 6), (0x0D, 2)];
    let d = day_from_rows("x".to_string(), &rows, &keys);
    assert_eq!(d.hourly.len(), 24);
    assert_eq!(d.hourly[2], bucket(4, 4));
    assert_eq!(d.key_detail.get(0x41), Some(6));
    assert_eq!(d.key_detail.get(0x0D), Some(2));
}

#[test]
fn key_words_round_trip() {
    let w = pack_key(0x141, 123_456);
    assert_eq!(w, 123_456 * 256 + 0x41);
    assert_eq!(unpack_key(w), (0x41, 123_456));
    assert_eq!(unpack_key(pack_key(0x0D, u32::MAX)), (0x0D, u32::MAX));
}

#[test]
fn key_queue_is_fifo_and_bounded() {
    let mut q = KeyQueue::new();
    assert_eq!(q.pop(), None);
    assert!(q.push(1));
    assert!(q.push(2));
    assert_eq!(q.pop(), Some(1));
    for i in 0..(KEYQ_CAP as u64 - 1) {
        assert!(q.push(100 + i));
    }
    assert!(!q.push(999), "a full queue drops the word");
    assert_eq!(q.pop(), Some(2));
    assert_eq!(q.pop(), Some(100));
}

#[test]
fn held_key_repeats_are_not_counted() {
    let mut f = KeyFilter::new();
    let mut p = PendingCounts::new();
    assert!(consume_key(&mut f, &mut p, pack_key(0x41, 1000)));
    assert!(!consume_key(&mut f, &mut p, pack_key(0x41, 1030)));
    assert!(consume_key(&mut f, &mut p, pack_key(0x41, 1080)));
    assert!(consume_key(&mut f, &mut p, pack_key(0x42, 1081)));
    assert_eq!(p.bucket.keys, 3);
    assert_eq!(p.per_key[0x41], 2);
    assert_eq!(p.per_key[0x42], 1);
    // the tick counter wraps
    let mut f = KeyFilter::new();
    assert!(f.accept(5, u32::MAX - 10));
    assert!(!f.accept(5, 20));
    assert!(f.accept(5, 100));
}

#[test]
fn integer_square_root() {
    assert_eq!(isqrt(0), 0);
    assert_eq!(isqrt(24), 4);
    assert_eq!(isqrt(25), 5);
    assert_eq!(isqrt(3 * 3 + 4 * 4), 5);
    assert_eq!(isqrt(u64::MAX as u128), 4_294_967_295);
}

#[test]
fn mouse_travel_clicks_and_wheel() {
    let mut t = MouseTracker::new();
    let mut p = PendingCounts::new();
    let mv = RawMouse { flags: 0, button_flags: 0, button_data: 0, last_x: 1, last_y: 0 };
    t.on_raw_mouse(&mut p, mv, Some((0, 0)), None, 0, 500);
    assert_eq!(p.bucket.moves, 1);
    assert_eq!(p.bucket.pixels, 0, "no travel before the first sample");
    t.on_raw_mouse(&mut p, mv, Some((3, 4)), None, 0, 500);
    assert_eq!(p.bucket.moves, 2);
    assert_eq!(p.bucket.pixels, 5);

    let click = RawMouse {
        flags: 2,
        button_flags: RI_MOUSE_LEFT_BUTTON_DOWN,
        button_data: 0,
        last_x: 0,
        last_y: 0,
    };
    t.on_raw_mouse(&mut p, click, None, Some((10, 10)), 1000, 500);
    t.on_raw_mouse(&mut p, click, None, Some((12, 11)), 1200, 500);
    assert_eq!(p.bucket.left, 2);
    assert_eq!(p.bucket.dbl, 1);
    t.on_raw_mouse(&mut p, click, None, Some((40, 40)), 1300, 500);
    assert_eq!(p.bucket.dbl, 1, "too far away for a double click");
    assert_eq!(p.bucket.moves, 2, "a click without movement is no sample");

    let wheel = RawMouse {
        flags: 2,
        button_flags: RI_MOUSE_WHEEL | RI_MOUSE_RIGHT_BUTTON_DOWN,
        button_data: -240,
        last_x: 0,
        last_y: 0,
    };
    t.on_raw_mouse(&mut p, wheel, None, None, 1400, 500);
    assert_eq!(p.bucket.wheel, 1);
    assert_eq!(p.bucket.wheel_ticks, 240);
    assert_eq!(p.bucket.right, 1);
}

#[test]
fn key_break_is_not_a_press() {
    assert!(is_key_press(0));
    assert!(!is_key_press(1));
    assert!(is_key_press(2));
}

#[test]
fn switching_activity_off_stops_raw_input_once() {
    let mut on = true;
    assert!(!set_enabled(&mut on, true));
    assert!(set_enabled(&mut on, false));
    assert!(!on);
    assert!(!set_enabled(&mut on, false));
    assert!(!set_enabled(&mut on, true));
    assert!(on);
}
