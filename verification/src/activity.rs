//! Mouse and keyboard activity: hourly buckets of counts, per-key counts, the
//! raw-input decisions (movement, double clicks, wheel, key repeats), the key
//! queue between the input callback and its worker, and the day summary with
//! the most used keys.

use crate::clock;
use crate::clock::{new_string, push_char, push_decimal};
use crate::win::RawMouse;
use vstd::prelude::*;
use vstd::string::*;

verus! {

/// Counts of one hour.
#[derive(Clone, Copy, Debug, PartialEq, Eq, Structural)]
pub struct HourBucket {
    /// Mouse movement samples.
    pub moves: u64,
    /// Mouse travel in pixels.
    pub pixels: u64,
    /// Left button presses (both presses of a double click included).
    pub left: u64,
    /// Double clicks.
    pub dbl: u64,
    pub right: u64,
    /// Wheel events.
    pub wheel: u64,
    /// Wheel travel (120 per notch).
    pub wheel_ticks: u64,
    pub mid: u64,
    /// Side-button presses.
    pub xbtn: u64,
    /// Key presses (held-key repeats left out).
    pub keys: u64,
}

pub open spec fn bucket_events(b: HourBucket) -> int {
    b.moves + b.left + b.dbl + b.right + b.wheel + b.mid + b.xbtn + b.keys
}

pub open spec fn bucket_sum(a: HourBucket, b: HourBucket) -> HourBucket {
    HourBucket {
        moves: (a.moves + b.moves) as u64,
        pixels: (a.pixels + b.pixels) as u64,
        left: (a.left + b.left) as u64,
        dbl: (a.dbl + b.dbl) as u64,
        right: (a.right + b.right) as u64,
        wheel: (a.wheel + b.wheel) as u64,
        wheel_ticks: (a.wheel_ticks + b.wheel_ticks) as u64,
        mid: (a.mid + b.mid) as u64,
        xbtn: (a.xbtn + b.xbtn) as u64,
        keys: (a.keys + b.keys) as u64,
    }
}

/// Every field of `a + b` fits in 64 bits.
pub open spec fn can_add(a: HourBucket, b: HourBucket) -> bool {
    &&& a.moves + b.moves <= u64::MAX
    &&& a.pixels + b.pixels <= u64::MAX
    &&& a.left + b.left <= u64::MAX
    &&& a.dbl + b.dbl <= u64::MAX
    &&& a.right + b.right <= u64::MAX
    &&& a.wheel + b.wheel <= u64::MAX
    &&& a.wheel_ticks + b.wheel_ticks <= u64::MAX
    &&& a.mid + b.mid <= u64::MAX
    &&& a.xbtn + b.xbtn <= u64::MAX
    &&& a.keys + b.keys <= u64::MAX
}

pub open spec fn zero_bucket() -> HourBucket {
    HourBucket {
        moves: 0,
        pixels: 0,
        left: 0,
        dbl: 0,
        right: 0,
        wheel: 0,
        wheel_ticks: 0,
        mid: 0,
        xbtn: 0,
        keys: 0,
    }
}

impl HourBucket {
    /// All zero.
    pub fn zero() -> (r: Self)
        ensures
            r == zero_bucket(),
    {
        HourBucket {
            moves: 0,
            pixels: 0,
            left: 0,
            dbl: 0,
            right: 0,
            wheel: 0,
            wheel_ticks: 0,
            mid: 0,
            xbtn: 0,
            keys: 0,
        }
    }

    /// Events of the hour (travel and wheel distance left out).
    pub fn total_events(&self) -> (r: u64)
        requires
            bucket_events(*self) <= u64::MAX,
        ensures
            r == bucket_events(*self),
    {
        self.moves + self.left + self.dbl + self.right + self.wheel + self.mid + self.xbtn + self.keys
    }

    /// Adds another bucket field by field.
    pub fn add(&mut self, o: &HourBucket)
        requires
            can_add(*old(self), *o),
        ensures
            *final(self) == bucket_sum(*old(self), *o),
    {
        self.moves = self.moves + o.moves;
        self.pixels = self.pixels + o.pixels;
        self.left = self.left + o.left;
        self.dbl = self.dbl + o.dbl;
        self.right = self.right + o.right;
        self.wheel = self.wheel + o.wheel;
        self.wheel_ticks = self.wheel_ticks + o.wheel_ticks;
        self.mid = self.mid + o.mid;
        self.xbtn = self.xbtn + o.xbtn;
        self.keys = self.keys + o.keys;
    }
}

/// Upper-case hexadecimal digit.
pub open spec fn hex_char(d: int) -> char {
    if d < 10 {
        (('0' as int) + d) as char
    } else {
        (('A' as int) + d - 10) as char
    }
}

/// Upper-case hexadecimal rendering.
pub open spec fn hex(n: nat) -> Seq<char>
    decreases n,
{
    if n < 16 {
        seq![hex_char(n as int)]
    } else {
        hex(n / 16) + seq![hex_char((n % 16) as int)]
    }
}

fn hex_digit(d: u64) -> (c: char)
    requires
        d < 16,
    ensures
        c == hex_char(d as int),
{
    if d < 10 {
        clock::digit_to_char(d)
    } else if d == 10 {
        'A'
    } else if d == 11 {
        'B'
    } else if d == 12 {
        'C'
    } else if d == 13 {
        'D'
    } else if d == 14 {
        'E'
    } else {
        'F'
    }
}

fn push_hex(s: &mut String, n: u64)
    ensures
        final(s)@ == old(s)@ + hex(n as nat),
    decreases n,
{
    if n >= 16 {
        push_hex(s, n / 16);
    }
    let c = hex_digit(n % 16);
    push_char(s, c);
    proof {
        if n >= 16 {
            assert(hex(n as nat) == hex((n / 16) as nat) + seq![hex_char((n % 16) as int)]);
        }
    }
}

/// Display name of a virtual-key code.
pub open spec fn vk_name_spec(vk: u32) -> Seq<char> {
    if vk == 0x08 {
        "退格"@
    } else if vk == 0x09 {
        "Tab"@
    } else if vk == 0x0D {
        "回车"@
    } else if vk == 0x10 {
        "Shift"@
    } else if vk == 0x11 {
        "Ctrl"@
    } else if vk == 0x12 {
        "Alt"@
    } else if vk == 0x13 {
        "Pause"@
    } else if vk == 0x14 {
        "大写锁定"@
    } else if vk == 0x1B {
        "Esc"@
    } else if vk == 0x20 {
        "空格"@
    } else if vk == 0x21 {
        "PgUp"@
    } else if vk == 0x22 {
        "PgDn"@
    } else if vk == 0x23 {
        "End"@
    } else if vk == 0x24 {
        "Home"@
    } else if vk == 0x25 {
        "←"@
    } else if vk == 0x26 {
        "↑"@
    } else if vk == 0x27 {
        "→"@
    } else if vk == 0x28 {
        "↓"@
    } else if vk == 0x2C {
        "截屏"@
    } else if vk == 0x2D {
        "Insert"@
    } else if vk == 0x2E {
        "Delete"@
    } else if vk == 0x5B || vk == 0x5C {
        "Win"@
    } else if vk == 0x5D {
        "菜单键"@
    } else if 0x30 <= vk <= 0x39 {
        seq![(('0' as int) + (vk - 0x30)) as char]
    } else if 0x41 <= vk <= 0x5A {
        seq![(('A' as int) + (vk - 0x41)) as char]
    } else if 0x60 <= vk <= 0x69 {
        "小键盘"@ + clock::decimal((vk - 0x60) as nat)
    } else if 0x70 <= vk <= 0x87 {
        "F"@ + clock::decimal((vk - 0x70 + 1) as nat)
    } else if vk == 0xBA {
        ";"@
    } else if vk == 0xBB {
        "+"@
    } else if vk == 0xBC {
        ","@
    } else if vk == 0xBD {
        "-"@
    } else if vk == 0xBE {
        "."@
    } else if vk == 0xBF {
        "/"@
    } else if vk == 0xC0 {
        "`"@
    } else if vk == 0xDB {
        "["@
    } else if vk == 0xDC {
        "\\"@
    } else if vk == 0xDD {
        "]"@
    } else if vk == 0xDE {
        "'"@
    } else {
        "VK0x"@ + hex(vk as nat)
    }
}

/// Display name of a virtual-key code (`VK0x..` for codes without a name).
pub fn vk_name(vk: u32) -> (r: String)
    ensures
        r@ == vk_name_spec(vk),
{
    let fixed: Option<&str> = if vk == 0x08 {
        Some("退格")
    } else if vk == 0x09 {
        Some("Tab")
    } else if vk == 0x0D {
        Some("回车")
    } else if vk == 0x10 {
        Some("Shift")
    } else if vk == 0x11 {
        Some("Ctrl")
    } else if vk == 0x12 {
        Some("Alt")
    } else if vk == 0x13 {
        Some("Pause")
    } else if vk == 0x14 {
        Some("大写锁定")
    } else if vk == 0x1B {
        Some("Esc")
    } else if vk == 0x20 {
        Some("空格")
    } else if vk == 0x21 {
        Some("PgUp")
    } else if vk == 0x22 {
        Some("PgDn")
    } else if vk == 0x23 {
        Some("End")
    } else if vk == 0x24 {
        Some("Home")
    } else if vk == 0x25 {
        Some("←")
    } else if vk == 0x26 {
        Some("↑")
    } else if vk == 0x27 {
        Some("→")
    } else if vk == 0x28 {
        Some("↓")
    } else if vk == 0x2C {
        Some("截屏")
    } else if vk == 0x2D {
        Some("Insert")
    } else if vk == 0x2E {
        Some("Delete")
    } else if vk == 0x5B || vk == 0x5C {
        Some("Win")
    } else if vk == 0x5D {
        Some("菜单键")
    } else {
        None
    };
    if let Some(t) = fixed {
        return String::from_str(t);
    }
    if 0x30 <= vk && vk <= 0x39 {
        let mut s = new_string();
        push_char(&mut s, clock::digit_to_char((vk - 0x30) as u64));
        return s;
    }
    if 0x41 <= vk && vk <= 0x5A {
        let mut s = new_string();
        push_char(&mut s, letter((vk - 0x41) as u8));
        return s;
    }
    if 0x60 <= vk && vk <= 0x69 {
        let mut s = String::from_str("小键盘");
        push_decimal(&mut s, (vk - 0x60) as u64);
        return s;
    }
    if 0x70 <= vk && vk <= 0x87 {
        let mut s = String::from_str("F");
        push_decimal(&mut s, (vk - 0x70 + 1) as u64);
        return s;
    }
    let sym: Option<&str> = if vk == 0xBA {
        Some(";")
    } else if vk == 0xBB {
        Some("+")
    } else if vk == 0xBC {
        Some(",")
    } else if vk == 0xBD {
        Some("-")
    } else if vk == 0xBE {
        Some(".")
    } else if vk == 0xBF {
        Some("/")
    } else if vk == 0xC0 {
        Some("`")
    } else if vk == 0xDB {
        Some("[")
    } else if vk == 0xDC {
        Some("\\")
    } else if vk == 0xDD {
        Some("]")
    } else if vk == 0xDE {
        Some("'")
    } else {
        None
    };
    if let Some(t) = sym {
        return String::from_str(t);
    }
    let mut s = String::from_str("VK0x");
    push_hex(&mut s, vk as u64);
    s
}

/// Upper-case letter `A + i`.
fn letter(i: u8) -> (c: char)
    requires
        i < 26,
    ensures
        c == (('A' as int) + i) as char,
{
    ((65u8 + i) as char)
}

/// Count recorded for a key code: the first entry with that code.
pub open spec fn key_count(s: Seq<(u32, u64)>, k: u32) -> Option<u64>
    decreases s.len(),
{
    if s.len() == 0 {
        None
    } else if s[0].0 == k {
        Some(s[0].1)
    } else {
        key_count(s.drop_first(), k)
    }
}

/// Key codes strictly increasing.
pub open spec fn keys_sorted(s: Seq<(u32, u64)>) -> bool {
    forall|i: int, j: int| 0 <= i < j < s.len() ==> s[i].0 < s[j].0
}

/// In a sorted list the count of a code is the entry holding it.
pub proof fn lemma_key_count_index(s: Seq<(u32, u64)>, k: u32)
    requires
        keys_sorted(s),
    ensures
        forall|i: int| 0 <= i < s.len() && s[i].0 == k ==> key_count(s, k) == Some(s[i].1),
        (forall|i: int| 0 <= i < s.len() ==> s[i].0 != k) ==> key_count(s, k) is None,
    decreases s.len(),
{
    if s.len() > 0 {
        let t = s.drop_first();
        assert(keys_sorted(t)) by {
            assert forall|i: int, j: int| 0 <= i < j < t.len() implies t[i].0 < t[j].0 by {
                assert(t[i] == s[i + 1] && t[j] == s[j + 1]);
            }
        }
        lemma_key_count_index(t, k);
        assert forall|i: int| 0 <= i < s.len() && s[i].0 == k implies key_count(s, k) == Some(s[i].1) by {
            if i > 0 {
                assert(s[i] == t[i - 1]);
                assert(s[0].0 < s[i].0);
            }
        }
        if forall|i: int| 0 <= i < s.len() ==> s[i].0 != k {
            assert forall|i: int| 0 <= i < t.len() implies t[i].0 != k by {
                assert(t[i] == s[i + 1]);
            }
        }
    }
}

/// Per-key press counts, ordered by key code.
#[derive(Clone, Debug)]
pub struct KeyDetail {
    pub entries: Vec<(u32, u64)>,
}

impl KeyDetail {
    pub open spec fn wf(&self) -> bool {
        keys_sorted(self.entries@)
    }

    pub open spec fn count(&self, k: u32) -> Option<u64> {
        key_count(self.entries@, k)
    }

    pub fn new() -> (r: Self)
        ensures
            r.wf(),
            r.entries@.len() == 0,
            forall|k: u32| r.count(k) is None,
    {
        KeyDetail { entries: Vec::new() }
    }

    /// Index of code `k`, or where it belongs.
    fn locate(&self, k: u32) -> (r: (usize, bool))
        requires
            self.wf(),
        ensures
            r.0 <= self.entries@.len(),
            forall|i: int| 0 <= i < r.0 ==> self.entries@[i].0 < k,
            r.1 <==> (r.0 < self.entries@.len() && self.entries@[r.0 as int].0 == k),
            forall|i: int| r.0 <= i < self.entries@.len() && !r.1 ==> self.entries@[i].0 > k,
            forall|i: int| r.0 < i < self.entries@.len() ==> self.entries@[i].0 > k,
    {
        let mut i: usize = 0;
        while i < self.entries.len() && self.entries[i].0 < k
            invariant
                i <= self.entries@.len(),
                keys_sorted(self.entries@),
                forall|j: int| 0 <= j < i ==> self.entries@[j].0 < k,
            decreases self.entries@.len() - i,
        {
            i += 1;
        }
        let found = i < self.entries.len() && self.entries[i].0 == k;
        (i, found)
    }

    /// The count of code `k`.
    pub fn get(&self, k: u32) -> (r: Option<u64>)
        requires
            self.wf(),
        ensures
            r == self.count(k),
    {
        let (i, found) = self.locate(k);
        proof {
            lemma_key_count_index(self.entries@, k);
        }
        if found {
            Some(self.entries[i].1)
        } else {
            None
        }
    }

    /// Sets the count of code `k`.
    pub fn set(&mut self, k: u32, v: u64)
        requires
            old(self).wf(),
        ensures
            final(self).wf(),
            final(self).count(k) == Some(v),
            forall|o: u32| o != k ==> final(self).count(o) == old(self).count(o),
    {
        let (i, found) = self.locate(k);
        let ghost s = self.entries@;
        if found {
            self.entries.set(i, (k, v));
        } else {
            self.entries.insert(i, (k, v));
        }
        proof {
            let t = self.entries@;
            assert(keys_sorted(t)) by {
                assert forall|a: int, b: int| 0 <= a < b < t.len() implies t[a].0 < t[b].0 by {
                    if !found {
                        if a < i && b > i {
                            assert(t[a] == s[a] && t[b] == s[b - 1]);
                        } else if a < i && b < i {
                            assert(t[a] == s[a] && t[b] == s[b]);
                        } else if a == i {
                            assert(t[b] == s[b - 1]);
                        } else if b == i {
                            assert(t[a] == s[a]);
                        } else {
                            assert(t[a] == s[a - 1] && t[b] == s[b - 1]);
                        }
                    }
                }
            }
            lemma_key_count_index(t, k);
            assert(t[i as int].0 == k);
            assert forall|o: u32| o != k implies key_count(t, o) == key_count(s, o) by {
                lemma_key_count_index(t, o);
                lemma_key_count_index(s, o);
                if exists|j: int| 0 <= j < s.len() && s[j].0 == o {
                    let j = choose|j: int| 0 <= j < s.len() && s[j].0 == o;
                    if found {
                        assert(t[j] == s[j]);
                    } else if j < i {
                        assert(t[j] == s[j]);
                    } else {
                        assert(t[j + 1] == s[j]);
                    }
                } else {
                    assert forall|j: int| 0 <= j < t.len() implies t[j].0 != o by {
                        if found {
                            if j != i {
                                assert(t[j] == s[j]);
                            }
                        } else if j < i {
                            assert(t[j] == s[j]);
                        } else if j > i {
                            assert(t[j] == s[j - 1]);
                        }
                    }
                }
            }
        }
    }
}

/// Counts not yet merged into the day: the counters the input callbacks raise and
/// the presses per key code (256 slots).
#[derive(Clone, Debug)]
pub struct PendingCounts {
    pub bucket: HourBucket,
    pub per_key: Vec<u64>,
}

/// The day being counted: its date, 24 hourly buckets and the per-key counts.
#[derive(Clone, Debug)]
pub struct DayState {
    pub date: String,
    pub hourly: Vec<HourBucket>,
    pub key_detail: KeyDetail,
}

impl DayState {
    pub open spec fn wf(&self) -> bool {
        &&& self.hourly@.len() == 24
        &&& self.key_detail.wf()
    }

    /// An empty day.
    pub fn new(date: String) -> (r: Self)
        ensures
            r.wf(),
            r.date == date,
            forall|h: int| 0 <= h < 24 ==> r.hourly@[h] == zero_bucket(),
            forall|k: u32| r.key_detail.count(k) is None,
    {
        let mut hourly: Vec<HourBucket> = Vec::new();
        let mut i: usize = 0;
        while i < 24
            invariant
                i <= 24,
                hourly@.len() == i,
                forall|h: int| 0 <= h < i ==> hourly@[h] == zero_bucket(),
            decreases 24 - i,
        {
            hourly.push(HourBucket::zero());
            i += 1;
        }
        DayState { date, hourly, key_detail: KeyDetail::new() }
    }
}

/// Count of a code after `v` more presses are merged (nothing changes for 0).
pub open spec fn merged_count(base: Option<u64>, v: u64) -> Option<u64> {
    if v > 0 {
        Some(
            (match base {
                Some(c) => c,
                None => 0,
            } + v) as u64,
        )
    } else {
        base
    }
}

/// Hour bucket a clock hour lands in (23 at most).
pub open spec fn hour_slot(h: u32) -> int {
    if h > 23 {
        23
    } else {
        h as int
    }
}

impl DayState {
    /// The day the pending counts are merged into: this one, or a fresh one for another date.
    pub open spec fn merge_base(&self, today: Seq<char>) -> (Seq<HourBucket>, Seq<(u32, u64)>) {
        if self.date@ == today {
            (self.hourly@, self.key_detail.entries@)
        } else {
            (Seq::new(24, |_i: int| zero_bucket()), Seq::empty())
        }
    }

    /// Merging the pending counts cannot overflow.
    pub open spec fn flush_fits(&self, today: Seq<char>, hour: u32, p: PendingCounts) -> bool {
        let (hs, kd) = self.merge_base(today);
        &&& can_add(hs[hour_slot(hour)], p.bucket)
        &&& forall|k: int|
            0 <= k < 256 ==> match key_count(kd, k as u32) {
                Some(c) => c + #[trigger] p.per_key@[k] <= u64::MAX,
                None => true,
            }
    }

    /// Whether merging the pending counts stays within 64 bits.
    pub fn can_flush(&self, today: &String, hour: u32, p: &PendingCounts) -> (r: bool)
        requires
            self.wf(),
            p.per_key@.len() == 256,
        ensures
            r == self.flush_fits(today@, hour, *p),
    {
        let same = crate::clock::text_eq(self.date.as_str(), today.as_str());
        let h: usize = if hour > 23 {
            23
        } else {
            hour as usize
        };
        if same {
            let b = self.hourly[h];
            let o = p.bucket;
            if !(b.moves <= u64::MAX - o.moves && b.pixels <= u64::MAX - o.pixels && b.left
                <= u64::MAX - o.left && b.dbl <= u64::MAX - o.dbl && b.right <= u64::MAX - o.right
                && b.wheel <= u64::MAX - o.wheel && b.wheel_ticks <= u64::MAX - o.wheel_ticks
                && b.mid <= u64::MAX - o.mid && b.xbtn <= u64::MAX - o.xbtn && b.keys <= u64::MAX
                - o.keys) {
                return false;
            }
            let mut k: usize = 0;
            while k < 256
                invariant
                    k <= 256,
                    p.per_key@.len() == 256,
                    self.wf(),
                    self.date@ == today@,
                    forall|j: int|
                        0 <= j < k ==> match self.key_detail.count(j as u32) {
                            Some(c) => c + #[trigger] p.per_key@[j] <= u64::MAX,
                            None => true,
                        },
                decreases 256 - k,
            {
                match self.key_detail.get(k as u32) {
                    Some(c) => {
                        if c > u64::MAX - p.per_key[k] {
                            proof {
                                let kk: int = k as int;
                                assert(key_count(self.key_detail.entries@, kk as u32) == Some(c));
                                assert(!(match key_count(self.key_detail.entries@, kk as u32) {
                                    Some(c) => c + p.per_key@[kk] <= u64::MAX,
                                    None => true,
                                }));
                            }
                            return false;
                        }
                    },
                    None => {},
                }
                k += 1;
            }
            true
        } else {
            let o = p.bucket;
            proof {
                assert(Seq::new(24, |_i: int| zero_bucket())[hour_slot(hour)] == zero_bucket());
                assert forall|k: int| 0 <= k < 256 implies match key_count(Seq::<(u32, u64)>::empty(), k as u32) {
                    Some(c) => c + #[trigger] p.per_key@[k] <= u64::MAX,
                    None => true,
                } by {}
            }
            true
        }
    }

    /// Merges the pending counts into hour `hour` of the day `today`. When the day has
    /// changed, the finished day is handed back (to be stored) and counting restarts
    /// from an empty day.
    pub fn flush(&mut self, today: String, hour: u32, p: &PendingCounts) -> (done: Option<DayState>)
        requires
            old(self).wf(),
            p.per_key@.len() == 256,
            old(self).flush_fits(today@, hour, *p),
        ensures
            final(self).wf(),
            final(self).date@ == today@,
            old(self).date@ == today@ ==> done is None,
            old(self).date@ != today@ ==> done == Some(*old(self)),
            final(self).hourly@ == old(self).merge_base(today@).0.update(
                hour_slot(hour),
                bucket_sum(old(self).merge_base(today@).0[hour_slot(hour)], p.bucket),
            ),
            forall|k: u32|
                #![trigger final(self).key_detail.count(k)]
                k < 256 ==> final(self).key_detail.count(k) == merged_count(
                    key_count(old(self).merge_base(today@).1, k),
                    p.per_key@[k as int],
                ),
            forall|k: u32|
                #![trigger final(self).key_detail.count(k)]
                k >= 256 ==> final(self).key_detail.count(k) == key_count(old(self).merge_base(today@).1, k),
    {
        let same = crate::clock::text_eq(self.date.as_str(), today.as_str());
        let mut done: Option<DayState> = None;
        if !same {
            let mut fresh = DayState::new(today);
            std::mem::swap(self, &mut fresh);
            done = Some(fresh);
            proof {
                assert(self.hourly@ =~= Seq::new(24, |_i: int| zero_bucket()));
            }
        }
        let ghost base_kd = self.key_detail;
        let h: usize = if hour > 23 {
            23
        } else {
            hour as usize
        };
        let mut b = self.hourly[h];
        b.add(&p.bucket);
        self.hourly.set(h, b);
        let ghost hourly_after = self.hourly@;
        let mut k: usize = 0;
        while k < 256
            invariant
                k <= 256,
                p.per_key@.len() == 256,
                self.hourly@ == hourly_after,
                self.date@ == today@,
                self.key_detail.wf(),
                base_kd.wf(),
                forall|j: int|
                    0 <= j < 256 ==> match base_kd.count(j as u32) {
                        Some(c) => c + #[trigger] p.per_key@[j] <= u64::MAX,
                        None => true,
                    },
                forall|j: u32|
                    #![trigger self.key_detail.count(j)]
                    j < k ==> self.key_detail.count(j) == merged_count(base_kd.count(j), p.per_key@[j as int]),
                forall|j: u32| #![trigger self.key_detail.count(j)] j >= k ==> self.key_detail.count(j) == base_kd.count(j),
            decreases 256 - k,
        {
            let v = p.per_key[k];
            if v > 0 {
                let c = match self.key_detail.get(k as u32) {
                    Some(c) => c,
                    None => 0,
                };
                proof {
                    assert(self.key_detail.count(k as u32) == base_kd.count(k as u32));
                    let kk: int = k as int;
                    assert((kk as u32) == k as u32);
                }
                self.key_detail.set(k as u32, c + v);
            }
            k += 1;
        }
        done
    }
}

/// Buckets whose running totals and event counts stay within 64 bits.
pub open spec fn totals_fit(hs: Seq<HourBucket>) -> bool
    decreases hs.len(),
{
    if hs.len() == 0 {
        true
    } else {
        totals_fit(hs.drop_last()) && can_add(hourly_total(hs.drop_last()), hs.last()) && bucket_events(
            hs.last(),
        ) <= u64::MAX
    }
}

/// Field-by-field total of buckets.
pub open spec fn hourly_total(hs: Seq<HourBucket>) -> HourBucket
    decreases hs.len(),
{
    if hs.len() == 0 {
        zero_bucket()
    } else {
        bucket_sum(hourly_total(hs.drop_last()), hs.last())
    }
}

/// Buckets with at least one event.
pub open spec fn active_count(hs: Seq<HourBucket>) -> int
    decreases hs.len(),
{
    if hs.len() == 0 {
        0
    } else {
        active_count(hs.drop_last()) + if bucket_events(hs.last()) > 0 { 1int } else { 0 }
    }
}

/// One entry of the most used keys.
#[derive(Clone, Debug)]
pub struct KeyCount {
    pub key: String,
    pub count: u64,
}

/// The day's activity as shown.
#[derive(Clone, Debug)]
pub struct ActivitySummary {
    pub date: String,
    pub hourly: Vec<HourBucket>,
    pub totals: HourBucket,
    /// The ten most pressed keys, most pressed first.
    pub top_keys: Vec<KeyCount>,
    /// Hours with any event.
    pub active_hours: u64,
    /// Raw input is registered.
    pub hook_ok: bool,
}

/// `sel` picks the `limit` largest counts (or all), largest first, each entry once, and
/// no entry left out counts more than one picked.
pub open spec fn top_selection(entries: Seq<(u32, u64)>, sel: Seq<int>, limit: int) -> bool {
    &&& sel.len() == (if entries.len() < limit { entries.len() as int } else { limit })
    &&& forall|i: int| 0 <= i < sel.len() ==> 0 <= #[trigger] sel[i] < entries.len()
    &&& forall|i: int, j: int| 0 <= i < j < sel.len() ==> sel[i] != sel[j]
    &&& forall|i: int, j: int|
        0 <= i < j < sel.len() ==> entries[sel[i]].1 >= entries[sel[j]].1
    &&& forall|e: int, i: int|
        0 <= e < entries.len() && !sel.contains(e) && 0 <= i < sel.len() ==> (#[trigger] entries[e]).1
            <= entries[#[trigger] sel[i]].1
}

/// Indices of the `limit` largest counts, largest first (the earlier entry of equals).
pub fn top_indices(entries: &Vec<(u32, u64)>, limit: usize) -> (sel: Vec<usize>)
    ensures
        top_selection(entries@, sel@.map_values(|x: usize| x as int), limit as int),
{
    let n = entries.len();
    let mut taken: Vec<bool> = Vec::new();
    let mut i: usize = 0;
    while i < n
        invariant
            i <= n,
            n == entries@.len(),
            taken@.len() == i,
            forall|j: int| 0 <= j < i ==> !taken@[j],
        decreases n - i,
    {
        taken.push(false);
        i += 1;
    }
    let mut sel: Vec<usize> = Vec::new();
    let want: usize = if n < limit {
        n
    } else {
        limit
    };
    while sel.len() < want
        invariant
            n == entries@.len(),
            taken@.len() == n,
            want == (if n < limit { n } else { limit }),
            sel@.len() <= want,
            forall|q: int| 0 <= q < sel@.len() ==> (#[trigger] sel@[q]) < n,
            forall|q: int, r: int| 0 <= q < r < sel@.len() ==> sel@[q] != sel@[r],
            forall|q: int, r: int|
                0 <= q < r < sel@.len() ==> entries@[sel@[q] as int].1 >= entries@[sel@[r] as int].1,
            forall|j: int| 0 <= j < n ==> (taken@[j] <==> sel@.contains(j as usize)),
            forall|e: int, q: int|
                0 <= e < n && !taken@[e] && 0 <= q < sel@.len() ==> (#[trigger] entries@[e]).1 <= entries@[#[trigger] sel@[q] as int].1,
        decreases want - sel@.len(),
    {
        proof {
            let free = count_free(taken@, n as int);
            lemma_free_count(taken@, sel@, n as int);
        }
        let mut best: usize = n;
        let mut j: usize = 0;
        while j < n
            invariant
                n == entries@.len(),
                taken@.len() == n,
                j <= n,
                best == n || (best < j && !taken@[best as int]),
                best < n ==> forall|e: int| 0 <= e < j && !taken@[e] ==> entries@[e].1 <= entries@[best as int].1,
                best == n ==> forall|e: int| 0 <= e < j ==> taken@[e],
            decreases n - j,
        {
            if !taken[j] && (best == n || entries[j].1 > entries[best].1) {
                best = j;
            }
            j += 1;
        }
        proof {
            if best == n {
                lemma_free_count(taken@, sel@, n as int);
                assert(false);
            }
        }
        let ghost old_sel = sel@;
        taken.set(best, true);
        sel.push(best);
        proof {
            assert forall|jj: int| 0 <= jj < n implies (taken@[jj] <==> sel@.contains(jj as usize)) by {
                if jj == best {
                    assert(sel@[sel@.len() - 1] == best);
                } else {
                    if sel@.contains(jj as usize) {
                        let q = choose|q: int| 0 <= q < sel@.len() && sel@[q] == jj as usize;
                        assert(q < old_sel.len());
                        assert(old_sel[q] == jj as usize);
                    }
                    if old_sel.contains(jj as usize) {
                        let q = choose|q: int| 0 <= q < old_sel.len() && old_sel[q] == jj as usize;
                        assert(sel@[q] == jj as usize);
                    }
                }
            }
            assert forall|q: int, r: int| 0 <= q < r < sel@.len() implies sel@[q] != sel@[r] by {
                if r == sel@.len() - 1 {
                    assert(old_sel.contains(sel@[q]));
                }
            }
        }
    }
    proof {
        let ss = sel@.map_values(|x: usize| x as int);
        assert forall|e: int| 0 <= e < n && !ss.contains(e) implies !taken@[e] by {
            if taken@[e] {
                let q = choose|q: int| 0 <= q < sel@.len() && sel@[q] == e as usize;
                assert(ss[q] == e);
            }
        }
    }
    sel
}

/// Entries not yet taken.
pub open spec fn count_free(taken: Seq<bool>, n: int) -> int
    decreases n,
{
    if n <= 0 {
        0
    } else {
        count_free(taken, n - 1) + if !taken[n - 1] { 1int } else { 0 }
    }
}

proof fn lemma_free_count(taken: Seq<bool>, sel: Seq<usize>, n: int)
    requires
        0 <= n,
        taken.len() == n,
        forall|q: int| 0 <= q < sel.len() ==> (#[trigger] sel[q]) < n,
        forall|q: int, r: int| 0 <= q < r < sel.len() ==> sel[q] != sel[r],
        forall|j: int| 0 <= j < n ==> (taken[j] <==> sel.contains(j as usize)),
        sel.len() < n,
        n <= usize::MAX,
    ensures
        exists|j: int| 0 <= j < n && !taken[j],
{
    if forall|j: int| 0 <= j < n ==> taken[j] {
        // Every index is picked, so the picks cover 0..n: too many for `sel`.
        let f = |j: int| j as usize;
        let s = Set::new(|x: usize| (x as int) < n);
        let t = sel.to_set();
        assert(s.subset_of(t)) by {
            assert forall|x: usize| s.contains(x) implies t.contains(x) by {
                assert(taken[x as int]);
            }
        }
        vstd::set_lib::lemma_int_range(0, n);
        lemma_usize_range_len(n);
        sel.unique_seq_to_set();
        vstd::set_lib::lemma_len_subset(s, t);
        assert(false);
    }
}

proof fn lemma_usize_range_len(n: int)
    requires
        0 <= n,
        n <= usize::MAX + 1,
    ensures
        Set::new(|x: usize| (x as int) < n).finite(),
        Set::new(|x: usize| (x as int) < n).len() == n,
    decreases n,
{
    let s = Set::new(|x: usize| (x as int) < n);
    if n == 0 {
        assert(s =~= Set::empty());
    } else {
        lemma_usize_range_len(n - 1);
        let p = Set::new(|x: usize| (x as int) < n - 1);
        assert(s =~= p.insert((n - 1) as usize));
    }
}

/// Whether the day's totals and event counts stay within 64 bits.
pub fn totals_fit_of(hourly: &Vec<HourBucket>) -> (r: bool)
    ensures
        r == totals_fit(hourly@),
{
    let mut acc = HourBucket::zero();
    let mut i: usize = 0;
    while i < hourly.len()
        invariant
            i <= hourly@.len(),
            totals_fit(hourly@.subrange(0, i as int)),
            acc == hourly_total(hourly@.subrange(0, i as int)),
        decreases hourly@.len() - i,
    {
        let b = hourly[i];
        proof {
            let post = hourly@.subrange(0, i + 1);
            assert(post.drop_last() == hourly@.subrange(0, i as int));
            assert(post.last() == b);
        }
        let fits = acc.moves <= u64::MAX - b.moves && acc.pixels <= u64::MAX - b.pixels && acc.left
            <= u64::MAX - b.left && acc.dbl <= u64::MAX - b.dbl && acc.right <= u64::MAX - b.right
            && acc.wheel <= u64::MAX - b.wheel && acc.wheel_ticks <= u64::MAX - b.wheel_ticks
            && acc.mid <= u64::MAX - b.mid && acc.xbtn <= u64::MAX - b.xbtn && acc.keys <= u64::MAX
            - b.keys;
        let ev_fits = events_fit(&b);
        if !fits || !ev_fits {
            proof {
                lemma_totals_fit_prefix(hourly@, i as int + 1);
            }
            return false;
        }
        acc.add(&b);
        i += 1;
    }
    proof {
        assert(hourly@.subrange(0, hourly@.len() as int) == hourly@);
    }
    true
}

/// A prefix of buckets that fit fits too.
proof fn lemma_totals_fit_prefix(hs: Seq<HourBucket>, n: int)
    requires
        0 <= n <= hs.len(),
        !totals_fit(hs.subrange(0, n)),
    ensures
        !totals_fit(hs),
    decreases hs.len() - n,
{
    if n < hs.len() {
        assert(hs.subrange(0, n + 1).drop_last() == hs.subrange(0, n));
        lemma_totals_fit_prefix(hs, n + 1);
    } else {
        assert(hs.subrange(0, n) == hs);
    }
}

fn events_fit(b: &HourBucket) -> (r: bool)
    ensures
        r == (bucket_events(*b) <= u64::MAX),
{
    let sum: u128 = b.moves as u128 + b.left as u128 + b.dbl as u128 + b.right as u128 + b.wheel as u128
        + b.mid as u128 + b.xbtn as u128 + b.keys as u128;
    sum <= u64::MAX as u128
}

/// The day's summary: the buckets, their total, the hours with events and the ten
/// most pressed keys.
pub fn summary(d: &DayState, hook_ok: bool) -> (r: ActivitySummary)
    requires
        d.wf(),
        totals_fit(d.hourly@),
    ensures
        r.date@ == d.date@,
        r.hourly@ == d.hourly@,
        r.totals == hourly_total(d.hourly@),
        r.active_hours == active_count(d.hourly@),
        r.hook_ok == hook_ok,
        exists|sel: Seq<int>|
            #![trigger top_selection(d.key_detail.entries@, sel, 10)]
            top_selection(d.key_detail.entries@, sel, 10) && sel.len() == r.top_keys@.len() && forall|i: int|
                0 <= i < sel.len() ==> (#[trigger] r.top_keys@[i]).key@ == vk_name_spec(
                    d.key_detail.entries@[sel[i]].0,
                ) && r.top_keys@[i].count == d.key_detail.entries@[sel[i]].1,
{
    let mut totals = HourBucket::zero();
    let mut active: u64 = 0;
    let mut hourly: Vec<HourBucket> = Vec::new();
    let mut i: usize = 0;
    while i < d.hourly.len()
        invariant
            i <= d.hourly@.len(),
            d.hourly@.len() == 24,
            totals_fit(d.hourly@),
            hourly@ == d.hourly@.subrange(0, i as int),
            totals == hourly_total(d.hourly@.subrange(0, i as int)),
            active as int == active_count(d.hourly@.subrange(0, i as int)),
            active <= i,
        decreases d.hourly@.len() - i,
    {
        let b = d.hourly[i];
        proof {
            let post = d.hourly@.subrange(0, i + 1);
            assert(post.drop_last() == d.hourly@.subrange(0, i as int));
            assert(post.last() == b);
            lemma_totals_fit_prefix_holds(d.hourly@, i as int + 1);
        }
        totals.add(&b);
        if b.total_events() > 0 {
            active += 1;
        }
        hourly.push(b);
        i += 1;
    }
    proof {
        assert(d.hourly@.subrange(0, d.hourly@.len() as int) == d.hourly@);
    }
    let sel = top_indices(&d.key_detail.entries, 10);
    let mut top: Vec<KeyCount> = Vec::new();
    let mut k: usize = 0;
    let ghost ss = sel@.map_values(|x: usize| x as int);
    while k < sel.len()
        invariant
            k <= sel@.len(),
            ss == sel@.map_values(|x: usize| x as int),
            top_selection(d.key_detail.entries@, ss, 10),
            top@.len() == k,
            forall|q: int|
                0 <= q < k ==> (#[trigger] top@[q]).key@ == vk_name_spec(d.key_detail.entries@[ss[q]].0)
                    && top@[q].count == d.key_detail.entries@[ss[q]].1,
        decreases sel@.len() - k,
    {
        proof {
            assert(ss[k as int] == sel@[k as int] as int);
            assert(0 <= ss[k as int] < d.key_detail.entries@.len());
        }
        let e = d.key_detail.entries[sel[k]];
        top.push(KeyCount { key: vk_name(e.0), count: e.1 });
        k += 1;
    }
    ActivitySummary { date: d.date.clone(), hourly, totals, top_keys: top, active_hours: active, hook_ok }
}

/// Every prefix of buckets that fit fits too.
proof fn lemma_totals_fit_prefix_holds(hs: Seq<HourBucket>, n: int)
    requires
        0 <= n <= hs.len(),
        totals_fit(hs),
    ensures
        totals_fit(hs.subrange(0, n)),
    decreases hs.len() - n,
{
    if n < hs.len() {
        lemma_totals_fit_prefix_holds(hs, n + 1);
        assert(hs.subrange(0, n + 1).drop_last() == hs.subrange(0, n));
    } else {
        assert(hs.subrange(0, n) == hs);
    }
}

/// Bucket of the last stored row of an hour.
pub open spec fn stored_bucket(rows: Seq<(i64, HourBucket)>, h: int) -> HourBucket
    decreases rows.len(),
{
    if rows.len() == 0 {
        zero_bucket()
    } else if rows.last().0 == h {
        rows.last().1
    } else {
        stored_bucket(rows.drop_last(), h)
    }
}

/// Count of the last stored key row of a code (codes are read as 32-bit values).
pub open spec fn stored_key(rows: Seq<(i64, i64)>, k: u32) -> Option<u64>
    decreases rows.len(),
{
    if rows.len() == 0 {
        None
    } else if (rows.last().0 as u32) == k {
        Some(rows.last().1 as u64)
    } else {
        stored_key(rows.drop_last(), k)
    }
}

/// A day rebuilt from its stored rows: each hour from the last row of that hour (rows
/// outside 0..24 are ignored), each key from the last row of that code.
pub fn day_from_rows(date: String, hour_rows: &Vec<(i64, HourBucket)>, key_rows: &Vec<(i64, i64)>) -> (r: DayState)
    ensures
        r.wf(),
        r.date == date,
        forall|h: int| 0 <= h < 24 ==> r.hourly@[h] == stored_bucket(hour_rows@, h),
        forall|k: u32| r.key_detail.count(k) == stored_key(key_rows@, k),
{
    let mut d = DayState::new(date);
    let mut i: usize = 0;
    while i < hour_rows.len()
        invariant
            i <= hour_rows@.len(),
            d.wf(),
            d.date == date,
            forall|k: u32| d.key_detail.count(k) is None,
            forall|h: int| 0 <= h < 24 ==> d.hourly@[h] == stored_bucket(hour_rows@.subrange(0, i as int), h),
        decreases hour_rows@.len() - i,
    {
        let (h, b) = hour_rows[i];
        proof {
            let post = hour_rows@.subrange(0, i + 1);
            assert(post.drop_last() == hour_rows@.subrange(0, i as int));
            assert(post.last() == hour_rows@[i as int]);
        }
        if 0 <= h && h < 24 {
            d.hourly.set(h as usize, b);
        }
        i += 1;
    }
    proof {
        assert(hour_rows@.subrange(0, hour_rows@.len() as int) == hour_rows@);
    }
    let mut j: usize = 0;
    while j < key_rows.len()
        invariant
            j <= key_rows@.len(),
            d.wf(),
            d.date == date,
            forall|h: int| 0 <= h < 24 ==> d.hourly@[h] == stored_bucket(hour_rows@, h),
            forall|k: u32| d.key_detail.count(k) == stored_key(key_rows@.subrange(0, j as int), k),
        decreases key_rows@.len() - j,
    {
        let (vk, count) = key_rows[j];
        proof {
            let post = key_rows@.subrange(0, j + 1);
            assert(post.drop_last() == key_rows@.subrange(0, j as int));
            assert(post.last() == key_rows@[j as int]);
        }
        d.key_detail.set(vk as u32, count as u64);
        j += 1;
    }
    proof {
        assert(key_rows@.subrange(0, key_rows@.len() as int) == key_rows@);
    }
    d
}

/// Capacity of the key queue.
pub const KEYQ_CAP: usize = 1024;

/// Key code (low 8 bits) and message time (the 32 bits above) in one word.
pub open spec fn pack_spec(vk: u32, time: u32) -> u64 {
    (time as int * 256 + vk as int % 256) as u64
}

/// Packs a key code (its low 8 bits) and a message time into one queue word.
pub fn pack_key(vk: u32, time: u32) -> (r: u64)
    ensures
        r == pack_spec(vk, time),
{
    let r = ((time as u64) << 8u64) | ((vk & 0xff) as u64);
    proof {
        let t = time as u64;
        let v = (vk & 0xff) as u64;
        assert(vk & 0xff == vk % 256) by (bit_vector);
        assert(v < 256);
        assert((t << 8u64) | v == t * 256 + v) by (bit_vector)
            requires
                t < 0x1_0000_0000,
                v < 256,
        ;
    }
    r
}

/// Key code and message time of a queue word.
pub fn unpack_key(v: u64) -> (r: (u32, u32))
    ensures
        r.0 as int == v % 256,
        r.1 as int == (v / 256) % 0x1_0000_0000,
{
    let code = (v & 0xff) as u32;
    let time = #[verifier::truncate] ((v >> 8u64) as u32);
    proof {
        assert(v & 0xff == v % 256) by (bit_vector);
        assert(((v >> 8u64) as u32) as u64 == (v / 256) % 0x1_0000_0000) by (bit_vector);
    }
    (code, time)
}

/// Unpacking a packed word gives back the key code's low 8 bits and the time.
pub proof fn law_pack_round_trip(vk: u32, time: u32)
    ensures
        pack_spec(vk, time) % 256 == vk % 256,
        (pack_spec(vk, time) / 256) % 0x1_0000_0000 == time,
{
    let p = time as int * 256 + vk as int % 256;
    assert(p < 0x1_0000_0000 * 256);
    assert(p % 256 == vk as int % 256) by (nonlinear_arith)
        requires
            p == time as int * 256 + vk as int % 256,
            0 <= vk as int % 256 < 256,
    ;
    assert(p / 256 == time as int) by (nonlinear_arith)
        requires
            p == time as int * 256 + vk as int % 256,
            0 <= vk as int % 256 < 256,
    ;
}

/// Queue of key words between the input callback (producer) and the worker (consumer).
/// `head` and `tail` count pushes and pops; the words in between are queued.
#[derive(Debug)]
pub struct KeyQueue {
    pub buf: Vec<u64>,
    pub head: u64,
    pub tail: u64,
}

impl KeyQueue {
    pub open spec fn wf(&self) -> bool {
        &&& self.buf@.len() == KEYQ_CAP
        &&& self.tail <= self.head
        &&& self.head - self.tail <= KEYQ_CAP
    }

    /// The queued words, oldest first.
    pub open spec fn view(&self) -> Seq<u64> {
        Seq::new(
            (self.head - self.tail) as nat,
            |i: int| self.buf@[((self.tail + i) % (KEYQ_CAP as int)) as int],
        )
    }

    /// An empty queue.
    pub fn new() -> (r: Self)
        ensures
            r.wf(),
            r.view() == Seq::<u64>::empty(),
    {
        let mut buf: Vec<u64> = Vec::new();
        let mut i: usize = 0;
        while i < KEYQ_CAP
            invariant
                i <= KEYQ_CAP,
                buf@.len() == i,
            decreases KEYQ_CAP - i,
        {
            buf.push(0);
            i += 1;
        }
        KeyQueue { buf, head: 0, tail: 0 }
    }

    /// Appends a word; a full queue drops it (the input path never waits).
    pub fn push(&mut self, v: u64) -> (pushed: bool)
        requires
            old(self).wf(),
        ensures
            final(self).wf(),
            pushed ==> final(self).view() == old(self).view().push(v),
            !pushed ==> final(self).view() == old(self).view(),
            pushed <== old(self).view().len() < KEYQ_CAP && old(self).head < u64::MAX,
    {
        if self.head - self.tail >= KEYQ_CAP as u64 || self.head == u64::MAX {
            return false;
        }
        let ghost before = self.view();
        let idx = (self.head % (KEYQ_CAP as u64)) as usize;
        self.buf.set(idx, v);
        self.head = self.head + 1;
        proof {
            assert forall|i: int| 0 <= i < before.len() implies #[trigger] self.view()[i] == before[i] by {
                let a = (self.tail + i) % (KEYQ_CAP as int);
                assert(a != idx) by {
                    lemma_mod_distinct(self.tail as int, i, (self.head - 1 - self.tail) as int);
                }
            }
            assert(self.view() =~= before.push(v));
        }
        true
    }

    /// Takes the oldest word, if any.
    pub fn pop(&mut self) -> (r: Option<u64>)
        requires
            old(self).wf(),
        ensures
            final(self).wf(),
            old(self).view().len() == 0 ==> r is None && final(self).view() == old(self).view(),
            old(self).view().len() > 0 ==> r == Some(old(self).view()[0]) && final(self).view()
                == old(self).view().drop_first(),
    {
        if self.tail == self.head {
            return None;
        }
        let ghost before = self.view();
        let v = self.buf[(self.tail % (KEYQ_CAP as u64)) as usize];
        self.tail = self.tail + 1;
        proof {
            assert forall|i: int| 0 <= i < self.view().len() implies #[trigger] self.view()[i]
                == before.drop_first()[i] by {
                assert((self.tail + i) == (old(self).tail + (i + 1)));
            }
            assert(self.view() =~= before.drop_first());
        }
        Some(v)
    }
}

/// Distinct positions less than one capacity apart fall into distinct slots.
proof fn lemma_mod_distinct(t: int, i: int, j: int)
    requires
        0 <= t,
        0 <= i < j < KEYQ_CAP,
    ensures
        (t + i) % (KEYQ_CAP as int) != (t + j) % (KEYQ_CAP as int),
{
    let c = KEYQ_CAP as int;
    assert((t + i) % c != (t + j) % c) by (nonlinear_arith)
        requires
            0 <= t,
            0 <= i < j < c,
            c == 1024,
    {
        if (t + i) % c == (t + j) % c {
            assert((t + j) - (t + i) == c * ((t + j) / c - (t + i) / c));
        }
    }
}

/// Milliseconds from `b` to `a` on a 32-bit tick counter that wraps around.
pub open spec fn ticks_since(a: u32, b: u32) -> int {
    if a >= b {
        a - b
    } else {
        a + 0x1_0000_0000 - b
    }
}

fn ticks_between(a: u32, b: u32) -> (r: u32)
    ensures
        r as int == ticks_since(a, b),
{
    if a >= b {
        a - b
    } else {
        ((a as u64 + 0x1_0000_0000u64) - b as u64) as u32
    }
}

/// Presses of the same key closer than this are held-key repeats.
pub const KEY_REPEAT_MS: u32 = 50;

/// Last press time per key code, to leave held-key repeats out.
#[derive(Clone, Debug)]
pub struct KeyFilter {
    pub last_time: Vec<u32>,
}

impl KeyFilter {
    pub open spec fn wf(&self) -> bool {
        self.last_time@.len() == 256
    }

    pub fn new() -> (r: Self)
        ensures
            r.wf(),
            forall|k: int| 0 <= k < 256 ==> r.last_time@[k] == 0,
    {
        let mut last_time: Vec<u32> = Vec::new();
        let mut i: usize = 0;
        while i < 256
            invariant
                i <= 256,
                last_time@.len() == i,
                forall|k: int| 0 <= k < i ==> last_time@[k] == 0,
            decreases 256 - i,
        {
            last_time.push(0);
            i += 1;
        }
        KeyFilter { last_time }
    }

    /// Whether a press counts: codes below 256 count when at least 50 ms passed since
    /// that key's previous press (whose time is then replaced); other codes always count.
    pub fn accept(&mut self, vk: u32, time: u32) -> (counted: bool)
        requires
            old(self).wf(),
        ensures
            final(self).wf(),
            vk < 256 ==> counted == (ticks_since(time, old(self).last_time@[vk as int]) >= KEY_REPEAT_MS)
                && final(self).last_time@ == old(self).last_time@.update(vk as int, time),
            vk >= 256 ==> counted && final(self).last_time@ == old(self).last_time@,
    {
        if vk < 256 {
            let i = vk as usize;
            let last = self.last_time[i];
            let counted = ticks_between(time, last) >= KEY_REPEAT_MS;
            self.last_time.set(i, time);
            counted
        } else {
            true
        }
    }
}

/// 64-bit counter step of an input counter (wraps like the atomic counters).
pub open spec fn bump(c: u64, n: u64) -> u64 {
    if c + n > u64::MAX {
        (c + n - 0x1_0000_0000_0000_0000) as u64
    } else {
        (c + n) as u64
    }
}

fn bumped(c: u64, n: u64) -> (r: u64)
    ensures
        r == bump(c, n),
{
    if c > u64::MAX - n {
        ((c as u128 + n as u128) - 0x1_0000_0000_0000_0000u128) as u64
    } else {
        c + n
    }
}

impl PendingCounts {
    pub open spec fn wf(&self) -> bool {
        self.per_key@.len() == 256
    }

    /// Nothing pending.
    pub fn new() -> (r: Self)
        ensures
            r.wf(),
            r.bucket == zero_bucket(),
            forall|k: int| 0 <= k < 256 ==> r.per_key@[k] == 0,
    {
        let mut per_key: Vec<u64> = Vec::new();
        let mut i: usize = 0;
        while i < 256
            invariant
                i <= 256,
                per_key@.len() == i,
                forall|k: int| 0 <= k < i ==> per_key@[k] == 0,
            decreases 256 - i,
        {
            per_key.push(0);
            i += 1;
        }
        PendingCounts { bucket: HourBucket::zero(), per_key }
    }

    /// Takes everything pending, leaving nothing.
    pub fn take(&mut self) -> (r: PendingCounts)
        requires
            old(self).wf(),
        ensures
            r == *old(self),
            final(self).wf(),
            final(self).bucket == zero_bucket(),
            forall|k: int| 0 <= k < 256 ==> final(self).per_key@[k] == 0,
    {
        let mut fresh = PendingCounts::new();
        std::mem::swap(self, &mut fresh);
        fresh
    }

    /// Records a counted key press.
    pub fn record_key(&mut self, vk: u32)
        requires
            old(self).wf(),
        ensures
            final(self).wf(),
            final(self).bucket == (HourBucket { keys: bump(old(self).bucket.keys, 1), ..old(self).bucket }),
            vk < 256 ==> final(self).per_key@ == old(self).per_key@.update(
                vk as int,
                bump(old(self).per_key@[vk as int], 1),
            ),
            vk >= 256 ==> final(self).per_key@ == old(self).per_key@,
    {
        self.bucket.keys = bumped(self.bucket.keys, 1);
        if vk < 256 {
            let i = vk as usize;
            let c = self.per_key[i];
            self.per_key.set(i, bumped(c, 1));
        }
    }
}

/// Handles one dequeued key word: a press that is not a held-key repeat is counted.
pub fn consume_key(filter: &mut KeyFilter, pending: &mut PendingCounts, word: u64) -> (counted: bool)
    requires
        old(filter).wf(),
        old(pending).wf(),
    ensures
        final(filter).wf(),
        final(pending).wf(),
        ({
            let vk = (word % 256) as u32;
            let time = ((word / 256) % 0x1_0000_0000) as u32;
            &&& counted == (ticks_since(time, old(filter).last_time@[vk as int]) >= KEY_REPEAT_MS)
            &&& final(filter).last_time@ == old(filter).last_time@.update(vk as int, time)
            &&& counted ==> final(pending).bucket.keys == bump(old(pending).bucket.keys, 1)
                && final(pending).per_key@ == old(pending).per_key@.update(
                vk as int,
                bump(old(pending).per_key@[vk as int], 1),
            )
            &&& !counted ==> *final(pending) == *old(pending)
        }),
{
    let (vk, time) = unpack_key(word);
    let counted = filter.accept(vk, time);
    if counted {
        pending.record_key(vk);
    }
    counted
}

/// `r` is the whole part of the square root of `n`.
pub open spec fn is_root(r: nat, n: nat) -> bool {
    r * r <= n < (r + 1) * (r + 1)
}

/// Whole part of the square root.
pub open spec fn sqrt_floor(n: nat) -> nat {
    choose|r: nat| #[trigger] is_root(r, n)
}

proof fn lemma_sqrt_unique(r: nat, s: nat, n: nat)
    requires
        r * r <= n < (r + 1) * (r + 1),
        s * s <= n < (s + 1) * (s + 1),
    ensures
        r == s,
{
    if r < s {
        assert((r + 1) * (r + 1) <= s * s) by (nonlinear_arith)
            requires
                r + 1 <= s,
        ;
    } else if s < r {
        assert((s + 1) * (s + 1) <= r * r) by (nonlinear_arith)
            requires
                s + 1 <= r,
        ;
    }
}

/// Whole part of the square root of `n` (below 2^66).
pub fn isqrt(n: u128) -> (r: u64)
    requires
        n < 0x4_0000_0000_0000_0000,
    ensures
        r as nat == sqrt_floor(n as nat),
{
    let mut lo: u128 = 0;
    let mut hi: u128 = 0x2_0000_0000;
    assert(hi * hi == 0x4_0000_0000_0000_0000) by (nonlinear_arith)
        requires
            hi == 0x2_0000_0000,
    ;
    while hi - lo > 1
        invariant
            lo < hi <= 0x2_0000_0000,
            lo * lo <= n,
            n < hi * hi,
        decreases hi - lo,
    {
        let mid = lo + (hi - lo) / 2;
        assert(mid * mid <= 0x4_0000_0000_0000_0000) by (nonlinear_arith)
            requires
                mid <= 0x2_0000_0000,
        ;
        if mid * mid <= n {
            lo = mid;
        } else {
            hi = mid;
        }
    }
    proof {
        assert(hi == lo + 1);
        let r = lo as nat;
        let nn = n as nat;
        assert(r * r <= nn && nn < (r + 1) * (r + 1));
        let c = sqrt_floor(nn);
        assert(is_root(r, nn));
        assert(is_root(c, nn));
        lemma_sqrt_unique(r, c, nn);
    }
    lo as u64
}

pub const RI_MOUSE_LEFT_BUTTON_DOWN: u16 = 0x0001;

pub const RI_MOUSE_RIGHT_BUTTON_DOWN: u16 = 0x0004;

pub const RI_MOUSE_MIDDLE_BUTTON_DOWN: u16 = 0x0010;

pub const RI_MOUSE_BUTTON_4_DOWN: u16 = 0x0040;

pub const RI_MOUSE_BUTTON_5_DOWN: u16 = 0x0100;

pub const RI_MOUSE_WHEEL: u16 = 0x0400;

pub const RI_MOUSE_HWHEEL: u16 = 0x0800;

/// Cursor position of the previous movement sample (`i32::MIN` before the first) and
/// the previous left press (tick time and position), for travel and double clicks.
#[derive(Clone, Copy, Debug, PartialEq, Eq, Structural)]
pub struct MouseTracker {
    pub last_x: i32,
    pub last_y: i32,
    pub last_lbtn_time: u32,
    pub last_lbtn_x: i32,
    pub last_lbtn_y: i32,
}

/// Absolute value of a 16-bit wheel delta.
pub open spec fn wheel_amount(d: i16) -> u64 {
    if d < 0 {
        (-(d as int)) as u64
    } else {
        d as u64
    }
}

pub open spec fn abs_int(x: int) -> int {
    if x < 0 {
        -x
    } else {
        x
    }
}

/// A mouse payload counts as a movement sample.
pub open spec fn is_move(m: RawMouse) -> bool {
    m.flags == 0 || m.flags == 1 || m.last_x != 0 || m.last_y != 0
}

/// A left press completes a double click exactly when it comes after the previous left
/// press by a positive number of ticks below the system double-click time, within 5
/// pixels of it in each direction; a press the double-click time or more later never
/// does.
pub proof fn law_double_click_window(t: MouseTracker, now: u32, pt: (i32, i32), dbl_time: u32)
    ensures
        is_double(t, now, pt, dbl_time) <==> (0 < ticks_since(now, t.last_lbtn_time) < dbl_time && -5 <= pt.0
            - t.last_lbtn_x <= 5 && -5 <= pt.1 - t.last_lbtn_y <= 5),
        ticks_since(now, t.last_lbtn_time) >= dbl_time ==> !is_double(t, now, pt, dbl_time),
{
}

/// A left press at `pt` and tick `now` completes a double click.
pub open spec fn is_double(t: MouseTracker, now: u32, pt: (i32, i32), dbl_time: u32) -> bool {
    let dt = ticks_since(now, t.last_lbtn_time);
    dt > 0 && dt < dbl_time && abs_int(pt.0 - t.last_lbtn_x) <= 5 && abs_int(pt.1 - t.last_lbtn_y) <= 5
}

/// Travel between two samples in whole pixels.
pub open spec fn travel(t: MouseTracker, pt: (i32, i32)) -> u64 {
    if t.last_x != i32::MIN && t.last_y != i32::MIN && (pt.0 != t.last_x || pt.1 != t.last_y) {
        let dx = pt.0 - t.last_x;
        let dy = pt.1 - t.last_y;
        sqrt_floor((dx * dx + dy * dy) as nat) as u64
    } else {
        0
    }
}

impl MouseTracker {
    pub fn new() -> (r: Self)
        ensures
            r.last_x == i32::MIN,
            r.last_y == i32::MIN,
            r.last_lbtn_time == 0,
            r.last_lbtn_x == 0,
            r.last_lbtn_y == 0,
    {
        MouseTracker { last_x: i32::MIN, last_y: i32::MIN, last_lbtn_time: 0, last_lbtn_x: 0, last_lbtn_y: 0 }
    }

    /// Counts a mouse payload. `cursor` is the cursor position read for the movement,
    /// `click_cursor` the one read for a left press, `now` the message tick time and
    /// `dbl_time` the system double-click time. Counters wrap like the atomic ones.
    pub fn on_raw_mouse(
        &mut self,
        pending: &mut PendingCounts,
        m: RawMouse,
        cursor: Option<(i32, i32)>,
        click_cursor: Option<(i32, i32)>,
        now: u32,
        dbl_time: u32,
    )
        requires
            old(pending).wf(),
        ensures
            final(pending).wf(),
            final(pending).per_key@ == old(pending).per_key@,
            final(pending).bucket.keys == old(pending).bucket.keys,
            ({
                let t = *old(self);
                let b = old(pending).bucket;
                let moved = is_move(m) && cursor is Some;
                let bf = m.button_flags;
                let left = bf & RI_MOUSE_LEFT_BUTTON_DOWN != 0;
                &&& final(pending).bucket.moves == (if moved { bump(b.moves, 1) } else { b.moves })
                &&& final(pending).bucket.pixels == (if moved { bump(b.pixels, travel(t, cursor->0)) } else { b.pixels })
                &&& (moved ==> final(self).last_x == (cursor->0).0 && final(self).last_y == (cursor->0).1)
                &&& (!moved ==> final(self).last_x == t.last_x && final(self).last_y == t.last_y)
                &&& final(pending).bucket.left == (if left { bump(b.left, 1) } else { b.left })
                &&& final(pending).bucket.dbl == (if left && click_cursor is Some && is_double(
                    t,
                    now,
                    click_cursor->0,
                    dbl_time,
                ) {
                    bump(b.dbl, 1)
                } else {
                    b.dbl
                })
                &&& (left && click_cursor is Some ==> final(self).last_lbtn_time == now
                    && final(self).last_lbtn_x == (click_cursor->0).0 && final(self).last_lbtn_y
                    == (click_cursor->0).1)
                &&& (!(left && click_cursor is Some) ==> final(self).last_lbtn_time == t.last_lbtn_time
                    && final(self).last_lbtn_x == t.last_lbtn_x && final(self).last_lbtn_y == t.last_lbtn_y)
                &&& final(pending).bucket.right == (if bf & RI_MOUSE_RIGHT_BUTTON_DOWN != 0 {
                    bump(b.right, 1)
                } else {
                    b.right
                })
                &&& final(pending).bucket.mid == (if bf & RI_MOUSE_MIDDLE_BUTTON_DOWN != 0 {
                    bump(b.mid, 1)
                } else {
                    b.mid
                })
                &&& final(pending).bucket.xbtn == (if bf & RI_MOUSE_BUTTON_4_DOWN != 0 || bf
                    & RI_MOUSE_BUTTON_5_DOWN != 0 {
                    bump(b.xbtn, 1)
                } else {
                    b.xbtn
                })
                &&& final(pending).bucket.wheel == (if bf & RI_MOUSE_WHEEL != 0 || bf & RI_MOUSE_HWHEEL
                    != 0 {
                    bump(b.wheel, 1)
                } else {
                    b.wheel
                })
                &&& final(pending).bucket.wheel_ticks == (if bf & RI_MOUSE_WHEEL != 0 || bf
                    & RI_MOUSE_HWHEEL != 0 {
                    bump(b.wheel_ticks, wheel_amount(m.button_data))
                } else {
                    b.wheel_ticks
                })
            }),
            ({
                let t = *old(self);
                let b = old(pending).bucket;
                let dt = ticks_since(now, t.last_lbtn_time);
                final(pending).bucket.dbl == (if m.button_flags & RI_MOUSE_LEFT_BUTTON_DOWN != 0
                    && click_cursor is Some && 0 < dt < dbl_time && abs_int((click_cursor->0).0 - t.last_lbtn_x)
                    <= 5 && abs_int((click_cursor->0).1 - t.last_lbtn_y) <= 5 {
                    bump(b.dbl, 1)
                } else {
                    b.dbl
                })
            }),
    {
        proof {
            law_double_click_window(*old(self), now, click_cursor.unwrap_or((0, 0)), dbl_time);
        }
        let bf = m.button_flags;
        let moved = m.flags == 0 || m.flags == 1 || m.last_x != 0 || m.last_y != 0;
        if moved {
            if let Some((x, y)) = cursor {
                pending.bucket.moves = bumped(pending.bucket.moves, 1);
                let mut dist: u64 = 0;
                if self.last_x != i32::MIN && self.last_y != i32::MIN {
                    let dx = x as i64 - self.last_x as i64;
                    let dy = y as i64 - self.last_y as i64;
                    if dx != 0 || dy != 0 {
                        let ax = if dx < 0 {
                            (-dx) as u128
                        } else {
                            dx as u128
                        };
                        let ay = if dy < 0 {
                            (-dy) as u128
                        } else {
                            dy as u128
                        };
                        proof {
                            assert(ax * ax <= 0x1_0000_0000 * 0x1_0000_0000) by (nonlinear_arith)
                                requires
                                    ax <= 0x1_0000_0000,
                            ;
                            assert(ay * ay <= 0x1_0000_0000 * 0x1_0000_0000) by (nonlinear_arith)
                                requires
                                    ay <= 0x1_0000_0000,
                            ;
                            assert(ax * ax == dx * dx) by (nonlinear_arith)
                                requires
                                    ax == abs_int(dx as int),
                            ;
                            assert(ay * ay == dy * dy) by (nonlinear_arith)
                                requires
                                    ay == abs_int(dy as int),
                            ;
                        }
                        dist = isqrt(ax * ax + ay * ay);
                    }
                }
                pending.bucket.pixels = bumped(pending.bucket.pixels, dist);
                self.last_x = x;
                self.last_y = y;
            }
        }
        if bf & RI_MOUSE_LEFT_BUTTON_DOWN != 0 {
            pending.bucket.left = bumped(pending.bucket.left, 1);
            if let Some((px, py)) = click_cursor {
                let dt = ticks_between(now, self.last_lbtn_time);
                let dx = abs_i64(px as i64 - self.last_lbtn_x as i64);
                let dy = abs_i64(py as i64 - self.last_lbtn_y as i64);
                if dt > 0 && dt < dbl_time && dx <= 5 && dy <= 5 {
                    pending.bucket.dbl = bumped(pending.bucket.dbl, 1);
                }
                self.last_lbtn_time = now;
                self.last_lbtn_x = px;
                self.last_lbtn_y = py;
            }
        }
        if bf & RI_MOUSE_RIGHT_BUTTON_DOWN != 0 {
            pending.bucket.right = bumped(pending.bucket.right, 1);
        }
        if bf & RI_MOUSE_MIDDLE_BUTTON_DOWN != 0 {
            pending.bucket.mid = bumped(pending.bucket.mid, 1);
        }
        if bf & RI_MOUSE_BUTTON_4_DOWN != 0 || bf & RI_MOUSE_BUTTON_5_DOWN != 0 {
            pending.bucket.xbtn = bumped(pending.bucket.xbtn, 1);
        }
        if bf & RI_MOUSE_WHEEL != 0 || bf & RI_MOUSE_HWHEEL != 0 {
            pending.bucket.wheel = bumped(pending.bucket.wheel, 1);
            let d = m.button_data;
            let amount: u64 = if d < 0 {
                (-(d as i32)) as u64
            } else {
                d as u64
            };
            pending.bucket.wheel_ticks = bumped(pending.bucket.wheel_ticks, amount);
        }
    }
}

fn abs_i64(x: i64) -> (r: i64)
    requires
        x > i64::MIN,
    ensures
        r as int == abs_int(x as int),
{
    if x < 0 {
        -x
    } else {
        x
    }
}

/// Whether a keyboard payload is a key press (a release is not counted).
pub fn is_key_press(flags: u16) -> (r: bool)
    ensures
        r == (flags & crate::win::RI_KEY_BREAK == 0),
{
    flags & crate::win::RI_KEY_BREAK == 0
}

/// Switches activity monitoring to `v`; returns whether the raw-input thread is to be
/// told to stop (monitoring was on and is now off, so its devices are released). Turning
/// it on asks nothing: the input thread registers again on its own.
pub fn set_enabled(flag: &mut bool, v: bool) -> (stop_input: bool)
    ensures
        *final(flag) == v,
        stop_input == (*old(flag) && !v),
{
    let prev = *flag;
    *flag = v;
    prev && !v
}

} // verus!
