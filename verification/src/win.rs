//! Raw input payloads: the checks on their length and their decoding from the
//! bytes the system hands over (64-bit Windows layout: a 24-byte header, then a
//! 16-byte keyboard or a 24-byte mouse structure, little-endian).

use vstd::prelude::*;

verus! {

/// Device type of mouse input.
pub const RIM_TYPEMOUSE: u32 = 0;

/// Device type of keyboard input.
pub const RIM_TYPEKEYBOARD: u32 = 1;

/// Device type of other human-interface devices.
pub const RIM_TYPEHID: u32 = 2;

/// Size of the raw input header.
pub const HEADER_LEN: usize = 24;

/// Size of the keyboard structure.
pub const KEYBOARD_LEN: usize = 16;

/// Size of the mouse structure.
pub const MOUSE_LEN: usize = 24;

/// Flag of a key release.
pub const RI_KEY_BREAK: u16 = 1;

/// Bytes a payload of a device type needs; `None` for types that are not read.
pub open spec fn needed_len(dw_type: u32) -> Option<int> {
    if dw_type == RIM_TYPEKEYBOARD {
        Some(HEADER_LEN + KEYBOARD_LEN)
    } else if dw_type == RIM_TYPEMOUSE {
        Some(HEADER_LEN + MOUSE_LEN)
    } else {
        None
    }
}

/// Whether a payload of `dw_size` bytes is long enough for its device type (keyboard
/// 40 bytes, mouse 48); other device types are never read.
pub fn raw_input_len_ok(dw_type: u32, dw_size: u32) -> (r: bool)
    ensures
        r == (needed_len(dw_type) matches Some(n) && dw_size >= n),
{
    let need: u32 = if dw_type == RIM_TYPEKEYBOARD {
        40
    } else if dw_type == RIM_TYPEMOUSE {
        48
    } else {
        return false;
    };
    dw_size >= need
}

/// The fields of a mouse payload that are used.
#[derive(Clone, Copy, Debug, PartialEq, Eq, Structural)]
pub struct RawMouse {
    /// 0 relative move, 1 absolute move.
    pub flags: u16,
    /// Button down/up bits (several may be set).
    pub button_flags: u16,
    /// Wheel delta (signed, usually multiples of 120).
    pub button_data: i16,
    pub last_x: i32,
    pub last_y: i32,
}

/// A decoded payload.
#[derive(Clone, Copy, Debug, PartialEq, Eq, Structural)]
pub enum RawEvent {
    /// Virtual-key code and whether the key went up.
    Keyboard { vk: u16, up: bool },
    Mouse(RawMouse),
}

pub open spec fn le_u16(b: Seq<u8>, at: int) -> int {
    b[at] + 256 * b[at + 1]
}

pub open spec fn le_u32(b: Seq<u8>, at: int) -> int {
    le_u16(b, at) + 65536 * le_u16(b, at + 2)
}

/// Two's complement value of a 16-bit pattern.
pub open spec fn signed16(v: int) -> int {
    if v >= 0x8000 {
        v - 0x1_0000
    } else {
        v
    }
}

/// Two's complement value of a 32-bit pattern.
pub open spec fn signed32(v: int) -> int {
    if v >= 0x8000_0000 {
        v - 0x1_0000_0000
    } else {
        v
    }
}

/// The event a payload decodes to: the header fits, its declared size is enough for its
/// device type, the buffer holds that much; then the keyboard or mouse fields.
pub open spec fn parse_spec(b: Seq<u8>) -> Option<RawEvent> {
    if b.len() < HEADER_LEN {
        None
    } else {
        let t = le_u32(b, 0);
        let size = le_u32(b, 4);
        match needed_len(t as u32) {
            None => None,
            Some(n) => if size < n || b.len() < n {
                None
            } else if t == RIM_TYPEMOUSE {
                Some(
                    RawEvent::Mouse(
                        RawMouse {
                            flags: le_u16(b, 24) as u16,
                            button_flags: le_u16(b, 28) as u16,
                            button_data: signed16(le_u16(b, 30)) as i16,
                            last_x: signed32(le_u32(b, 36)) as i32,
                            last_y: signed32(le_u32(b, 40)) as i32,
                        },
                    ),
                )
            } else {
                Some(
                    RawEvent::Keyboard {
                        vk: le_u16(b, 30) as u16,
                        up: le_u16(b, 26) % 2 == 1,
                    },
                )
            },
        }
    }
}

fn read_u16(b: &[u8], at: usize) -> (r: u16)
    requires
        at + 2 <= b@.len(),
    ensures
        r as int == le_u16(b@, at as int),
{
    b[at] as u16 + 256 * (b[at + 1] as u16)
}

fn read_u32(b: &[u8], at: usize) -> (r: u32)
    requires
        at + 4 <= b@.len(),
    ensures
        r as int == le_u32(b@, at as int),
{
    let _n = b.len();
    let lo = read_u16(b, at) as u32;
    let hi = read_u16(b, at + 2) as u32;
    assert(hi <= 65535);
    assert(65536 * hi <= 65536 * 65535) by (nonlinear_arith)
        requires
            hi <= 65535,
    ;
    lo + 65536 * hi
}

fn to_i16(v: u16) -> (r: i16)
    ensures
        r as int == signed16(v as int),
{
    if v >= 0x8000 {
        (v as i32 - 0x1_0000) as i16
    } else {
        v as i16
    }
}

fn to_i32(v: u32) -> (r: i32)
    ensures
        r as int == signed32(v as int),
{
    if v >= 0x8000_0000 {
        (v as i64 - 0x1_0000_0000) as i32
    } else {
        v as i32
    }
}

/// Decodes a raw input payload; `None` unless the header, the declared size and the
/// buffer all suffice for a keyboard or mouse structure (the payload is never read
/// past what was checked).
pub fn parse_raw_input(buf: &[u8]) -> (r: Option<RawEvent>)
    ensures
        r == parse_spec(buf@),
{
    if buf.len() < HEADER_LEN {
        return None;
    }
    let t = read_u32(buf, 0);
    let size = read_u32(buf, 4);
    if !raw_input_len_ok(t, size) {
        return None;
    }
    let need: usize = if t == RIM_TYPEKEYBOARD {
        40
    } else {
        48
    };
    if buf.len() < need {
        return None;
    }
    if t == RIM_TYPEMOUSE {
        Some(
            RawEvent::Mouse(
                RawMouse {
                    flags: read_u16(buf, 24),
                    button_flags: read_u16(buf, 28),
                    button_data: to_i16(read_u16(buf, 30)),
                    last_x: to_i32(read_u32(buf, 36)),
                    last_y: to_i32(read_u32(buf, 40)),
                },
            ),
        )
    } else {
        let flags = read_u16(buf, 26);
        Some(RawEvent::Keyboard { vk: read_u16(buf, 30), up: flags % 2 == 1 })
    }
}

/// Largest icon side that is extracted.
pub const MAX_ICON_PX: u32 = 128;

/// Pixels of an application icon: RGBA rows from the top, four bytes per pixel.
#[derive(Clone, Debug)]
pub struct IconRgba {
    pub width: u32,
    pub height: u32,
    pub rgba: Vec<u8>,
}

impl IconRgba {
    /// The buffer holds exactly the picture.
    pub open spec fn wf(&self) -> bool {
        self.rgba@.len() == self.width * self.height * 4
    }
}

/// Width and height of an icon bitmap that is extracted: both positive and at most
/// `MAX_ICON_PX`.
pub fn icon_dims(bm_width: i32, bm_height: i32) -> (r: Option<(u32, u32)>)
    ensures
        r == (if 0 < bm_width <= MAX_ICON_PX && 0 < bm_height <= MAX_ICON_PX {
            Some((bm_width as u32, bm_height as u32))
        } else {
            None::<(u32, u32)>
        }),
{
    if bm_width <= 0 || bm_height <= 0 {
        return None;
    }
    let w = bm_width as u32;
    let h = bm_height as u32;
    if w > MAX_ICON_PX || h > MAX_ICON_PX {
        return None;
    }
    Some((w, h))
}

/// Pixel `k` of `rgba` is pixel `k` of `bgra` with the first and third bytes swapped,
/// for each of the first `n` pixels.
pub open spec fn red_blue_swapped(rgba: Seq<u8>, bgra: Seq<u8>, n: int) -> bool {
    forall|k: int|
        0 <= k < n ==> {
            &&& #[trigger] rgba[4 * k] == bgra[4 * k + 2]
            &&& rgba[4 * k + 1] == bgra[4 * k + 1]
            &&& rgba[4 * k + 2] == bgra[4 * k]
            &&& rgba[4 * k + 3] == bgra[4 * k + 3]
        }
}

/// The RGBA picture of a 32-bit BGRA bitmap (red and blue swapped in every pixel);
/// `None` when the buffer does not hold `width * height` pixels.
pub fn icon_from_bgra(width: u32, height: u32, bgra: Vec<u8>) -> (r: Option<IconRgba>)
    requires
        width <= MAX_ICON_PX,
        height <= MAX_ICON_PX,
    ensures
        (bgra@.len() == width * height * 4) <==> r is Some,
        r matches Some(icon) ==> {
            &&& icon.width == width
            &&& icon.height == height
            &&& icon.wf()
            &&& red_blue_swapped(icon.rgba@, bgra@, width * height)
        },
{
    assert(width * height <= 128 * 128) by (nonlinear_arith)
        requires
            width <= 128,
            height <= 128,
    ;
    let n: usize = (width * height) as usize;
    if bgra.len() != n * 4 {
        return None;
    }
    let ghost src = bgra@;
    let mut rgba = bgra;
    let mut k: usize = 0;
    while k < n
        invariant
            n == width * height,
            n <= 128 * 128,
            src.len() == n * 4,
            rgba@.len() == n * 4,
            k <= n,
            forall|j: int|
                0 <= j < k ==> {
                    &&& #[trigger] rgba@[4 * j] == src[4 * j + 2]
                    &&& rgba@[4 * j + 1] == src[4 * j + 1]
                    &&& rgba@[4 * j + 2] == src[4 * j]
                    &&& rgba@[4 * j + 3] == src[4 * j + 3]
                },
            forall|i: int| 4 * k <= i < 4 * n ==> rgba@[i] == src[i],
        decreases n - k,
    {
        let ghost before = rgba@;
        let b = rgba[4 * k];
        let r = rgba[4 * k + 2];
        rgba.set(4 * k, r);
        rgba.set(4 * k + 2, b);
        proof {
            assert(rgba@ == before.update(4 * k as int, r).update(4 * k + 2, b));
            assert(before[4 * k + 2] == src[4 * k + 2]);
            assert(before[4 * k + 1] == src[4 * k + 1]);
            assert(before[4 * k + 3] == src[4 * k + 3]);
            assert(before[4 * k as int] == src[4 * k as int]);
            assert forall|j: int| 0 <= j < k + 1 implies {
                &&& #[trigger] rgba@[4 * j] == src[4 * j + 2]
                &&& rgba@[4 * j + 1] == src[4 * j + 1]
                &&& rgba@[4 * j + 2] == src[4 * j]
                &&& rgba@[4 * j + 3] == src[4 * j + 3]
            } by {
                if j < k {
                    assert(4 * j + 3 < 4 * k);
                    assert(before[4 * j] == src[4 * j + 2]);
                    assert(before[4 * j + 1] == src[4 * j + 1]);
                    assert(before[4 * j + 2] == src[4 * j]);
                    assert(before[4 * j + 3] == src[4 * j + 3]);
                }
            }
            assert forall|i: int| 4 * (k + 1) <= i < 4 * n implies rgba@[i] == src[i] by {
                assert(rgba@[i] == before[i]);
            }
        }
        k += 1;
    }
    let icon = IconRgba { width, height, rgba };
    proof {
        assert(icon.rgba@ == rgba@);
        assert(src == bgra@);
        assert(n * 4 == width * height * 4);
        assert(icon.wf());
        assert(red_blue_swapped(rgba@, src, n as int));
    }
    Some(icon)
}

} // verus!
