use niuma_timer::win::{icon_dims, icon_from_bgra, MAX_ICON_PX};
use niuma_timer::activity::RI_MOUSE_LEFT_BUTTON_DOWN;
use niuma_timer::win::{
    parse_raw_input, raw_input_len_ok, RawEvent, HEADER_LEN, KEYBOARD_LEN, MOUSE_LEN, RIM_TYPEHID,
    RIM_TYPEKEYBOARD, RIM_TYPEMOUSE, RI_KEY_BREAK,
};

/// Size of the whole raw input structure (header and the largest device union, x64).
const RAWINPUT_LEN: usize = 48;

fn put_u16(b: &mut [u8], at: usize, v: u16) {
    b[at..at + 2].copy_from_slice(&v.to_le_bytes());
}

fn put_u32(b: &mut [u8], at: usize, v: u32) {
    b[at..at + 4].copy_from_slice(&v.to_le_bytes());
}

fn header(dw_type: u32, dw_size: u32) -> Vec<u8> {
    let mut b = vec![0u8; RAWINPUT_LEN];
    put_u32(&mut b, 0, dw_type);
    put_u32(&mut b, 4, dw_size);
    b
}

#[test]
fn parse_raw_input_accepts_short_keyboard_payload() {
    let len = HEADER_LEN + KEYBOARD_LEN;
    let mut raw = header(RIM_TYPEKEYBOARD, len as u32);
    put_u16(&mut raw, 30, 65);
    let bytes = &raw[..len];
    assert_eq!(parse_raw_input(bytes), Some(RawEvent::Keyboard { vk: 65, up: false }));
}

#[test]
fn parse_raw_input_marks_key_break_as_up() {
    let len = HEADER_LEN + KEYBOARD_LEN;
    let mut raw = header(RIM_TYPEKEYBOARD, len as u32);
    put_u16(&mut raw, 30, 27);
    put_u16(&mut raw, 26, RI_KEY_BREAK);
    assert_eq!(parse_raw_input(&raw[..len]), Some(RawEvent::Keyboard { vk: 27, up: true }));
}

#[test]
fn parse_raw_input_reads_mouse_union() {
    let mut raw = header(RIM_TYPEMOUSE, (HEADER_LEN + MOUSE_LEN) as u32);
    put_u16(&mut raw, 24, 0);
    put_u32(&mut raw, 36, 3i32 as u32);
    put_u32(&mut raw, 40, (-4i32) as u32);
    put_u16(&mut raw, 28, RI_MOUSE_LEFT_BUTTON_DOWN);
    put_u16(&mut raw, 30, 120);
    match parse_raw_input(&raw[..RAWINPUT_LEN]) {
        Some(RawEvent::Mouse(m)) => {
            assert_eq!((m.last_x, m.last_y), (3, -4));
            assert_eq!(m.button_flags, RI_MOUSE_LEFT_BUTTON_DOWN);
            assert_eq!(m.button_data, 120);
            assert_eq!(m.flags, 0);
        }
        other => panic!("expected Mouse, got {other:?}"),
    }
}

#[test]
fn parse_raw_input_reads_negative_wheel() {
    let mut raw = header(RIM_TYPEMOUSE, (HEADER_LEN + MOUSE_LEN) as u32);
    put_u16(&mut raw, 30, (-240i16) as u16);
    match parse_raw_input(&raw) {
        Some(RawEvent::Mouse(m)) => assert_eq!(m.button_data, -240),
        other => panic!("expected Mouse, got {other:?}"),
    }
}

#[test]
fn parse_raw_input_rejects_truncated_buffer() {
    let raw = header(RIM_TYPEMOUSE, (HEADER_LEN + MOUSE_LEN) as u32);
    assert_eq!(parse_raw_input(&raw[..HEADER_LEN + 4]), None);
    assert_eq!(parse_raw_input(&[0u8; 4]), None);
    // a declared size too small for the device type is refused too
    let short = header(RIM_TYPEMOUSE, (HEADER_LEN + MOUSE_LEN - 1) as u32);
    assert_eq!(parse_raw_input(&short), None);
    let hid = header(RIM_TYPEHID, RAWINPUT_LEN as u32);
    assert_eq!(parse_raw_input(&hid), None);
}

#[test]
fn keyboard_payload_is_shorter_than_rawinput() {
    let kb = HEADER_LEN + KEYBOARD_LEN;
    assert!(kb < RAWINPUT_LEN);
    assert_eq!(HEADER_LEN + MOUSE_LEN, RAWINPUT_LEN);
}

#[test]
fn raw_input_len_ok_checks_per_device_type() {
    let kb = (HEADER_LEN + KEYBOARD_LEN) as u32;
    assert!(raw_input_len_ok(RIM_TYPEKEYBOARD, kb));
    assert!(raw_input_len_ok(RIM_TYPEKEYBOARD, kb + 8));
    assert!(!raw_input_len_ok(RIM_TYPEKEYBOARD, kb - 1));
    let ms = (HEADER_LEN + MOUSE_LEN) as u32;
    assert!(raw_input_len_ok(RIM_TYPEMOUSE, ms));
    assert!(!raw_input_len_ok(RIM_TYPEMOUSE, ms - 1));
    if kb < ms {
        assert!(!raw_input_len_ok(RIM_TYPEMOUSE, kb));
    }
    assert!(!raw_input_len_ok(RIM_TYPEHID, ms));
}

#[test]
fn icon_pixels_are_converted() {
    assert_eq!(icon_dims(32, 16), Some((32, 16)));
    assert_eq!(icon_dims(0, 16), None);
    assert_eq!(icon_dims(129, 16), None);
    assert_eq!(icon_dims(MAX_ICON_PX as i32, MAX_ICON_PX as i32), Some((128, 128)));
    let bgra = vec![1u8, 2, 3, 4, 5, 6, 7, 8];
    let icon = icon_from_bgra(2, 1, bgra).unwrap();
    assert_eq!(icon.rgba, vec![3, 2, 1, 4, 7, 6, 5, 8]);
    assert_eq!((icon.width, icon.height), (2, 1));
    assert!(icon_from_bgra(2, 2, vec![0u8; 8]).is_none());
}
