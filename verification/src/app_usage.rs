//! Foreground application time: display names of processes, the whitelist,
//! the segment clock that credits time to the application that was in front,
//! and the split of a segment at local hour boundaries.

use chrono::{Datelike, TimeZone, Timelike};
use crate::clock::{new_string, push_char, text_eq};
use crate::date;
use crate::date::{format_ymd, local_now, Date};
use vstd::prelude::*;
use vstd::string::*;

verus! {

/// Known processes as (lower-case executable name, display name).
pub open spec fn known_map_spec() -> Seq<(Seq<char>, Seq<char>)> {
    seq![
        ("wechat.exe"@, "微信"@),
        ("weixin.exe"@, "微信"@),
        ("wechatappex.exe"@, "微信"@),
        ("dingtalk.exe"@, "钉钉"@),
        ("wemeetapp.exe"@, "腾讯会议"@),
        ("feishu.exe"@, "飞书"@),
        ("wecom.exe"@, "企业微信"@),
        ("wps.exe"@, "WPS Office"@),
        ("winword.exe"@, "Word"@),
        ("excel.exe"@, "Excel"@),
        ("powerpnt.exe"@, "PowerPoint"@),
        ("onenote.exe"@, "OneNote"@),
        ("notepad.exe"@, "记事本"@),
        ("code.exe"@, "VS Code"@),
        ("cloudmusic.exe"@, "网易云音乐"@),
        ("qqmusic.exe"@, "QQ音乐"@),
        ("kugou.exe"@, "酷狗音乐"@),
        ("bilibili.exe"@, "哔哩哔哩"@),
        ("iqiyi.exe"@, "爱奇艺"@),
        ("qqlive.exe"@, "腾讯视频"@),
        ("youku.exe"@, "优酷"@),
        ("douyin.exe"@, "抖音"@),
        ("kuaishou.exe"@, "快手"@),
        ("potplayermini64.exe"@, "PotPlayer"@),
        ("vlc.exe"@, "VLC"@),
        ("wmplayer.exe"@, "Windows Media Player"@),
        ("spotify.exe"@, "Spotify"@),
        ("thunder.exe"@, "迅雷"@),
        ("baidunetdisk.exe"@, "百度网盘"@),
        ("chrome.exe"@, "Google Chrome"@),
        ("msedge.exe"@, "Microsoft Edge"@),
        ("firefox.exe"@, "Firefox"@),
        ("steam.exe"@, "Steam"@),
        ("leagueclient.exe"@, "英雄联盟"@),
        ("everything.exe"@, "Everything"@),
        ("7zfm.exe"@, "7-Zip"@),
    ]
}

fn known_map() -> (r: [(&'static str, &'static str); 36])
    ensures
        forall|i: int|
            0 <= i < 36 ==> (#[trigger] r@[i]).0@ == known_map_spec()[i].0 && r@[i].1@
                == known_map_spec()[i].1,
{
    [
        ("wechat.exe", "微信"),
        ("weixin.exe", "微信"),
        ("wechatappex.exe", "微信"),
        ("dingtalk.exe", "钉钉"),
        ("wemeetapp.exe", "腾讯会议"),
        ("feishu.exe", "飞书"),
        ("wecom.exe", "企业微信"),
        ("wps.exe", "WPS Office"),
        ("winword.exe", "Word"),
        ("excel.exe", "Excel"),
        ("powerpnt.exe", "PowerPoint"),
        ("onenote.exe", "OneNote"),
        ("notepad.exe", "记事本"),
        ("code.exe", "VS Code"),
        ("cloudmusic.exe", "网易云音乐"),
        ("qqmusic.exe", "QQ音乐"),
        ("kugou.exe", "酷狗音乐"),
        ("bilibili.exe", "哔哩哔哩"),
        ("iqiyi.exe", "爱奇艺"),
        ("qqlive.exe", "腾讯视频"),
        ("youku.exe", "优酷"),
        ("douyin.exe", "抖音"),
        ("kuaishou.exe", "快手"),
        ("potplayermini64.exe", "PotPlayer"),
        ("vlc.exe", "VLC"),
        ("wmplayer.exe", "Windows Media Player"),
        ("spotify.exe", "Spotify"),
        ("thunder.exe", "迅雷"),
        ("baidunetdisk.exe", "百度网盘"),
        ("chrome.exe", "Google Chrome"),
        ("msedge.exe", "Microsoft Edge"),
        ("firefox.exe", "Firefox"),
        ("steam.exe", "Steam"),
        ("leagueclient.exe", "英雄联盟"),
        ("everything.exe", "Everything"),
        ("7zfm.exe", "7-Zip"),
    ]
}

/// Display name of the first known entry for an executable name.
pub open spec fn known_display(m: Seq<(Seq<char>, Seq<char>)>, exe: Seq<char>) -> Option<Seq<char>>
    decreases m.len(),
{
    if m.len() == 0 {
        None
    } else if m[0].0 == exe {
        Some(m[0].1)
    } else {
        known_display(m.drop_first(), exe)
    }
}

/// Display name of a known executable (lower-case file name), if it is known.
pub fn known_display_name(exe_name_lower: &str) -> (r: Option<String>)
    ensures
        r matches Some(s) ==> known_display(known_map_spec(), exe_name_lower@) == Some(s@),
        r is None ==> known_display(known_map_spec(), exe_name_lower@) is None,
{
    let map = known_map();
    let ghost m = known_map_spec();
    let mut i: usize = 0;
    proof {
        assert(m.subrange(0, 36) == m);
    }
    while i < 36
        invariant
            i <= 36,
            m == known_map_spec(),
            m.len() == 36,
            forall|k: int|
                0 <= k < 36 ==> (#[trigger] map@[k]).0@ == m[k].0 && map@[k].1@ == m[k].1,
            known_display(m, exe_name_lower@) == known_display(m.subrange(i as int, 36), exe_name_lower@),
        decreases 36 - i,
    {
        let (exe, display) = map[i];
        proof {
            let rest = m.subrange(i as int, 36);
            assert(rest[0] == m[i as int]);
            assert(rest.drop_first() == m.subrange(i + 1, 36));
        }
        if text_eq(exe_name_lower, exe) {
            return Some(String::from_str(display));
        }
        i += 1;
    }
    None
}

/// Unicode `White_Space` characters (what `str::trim` removes).
pub open spec fn is_white(c: char) -> bool {
    ||| ('\u{9}' <= c && c <= '\u{d}')
    ||| c == ' '
    ||| c == '\u{85}'
    ||| c == '\u{a0}'
    ||| c == '\u{1680}'
    ||| ('\u{2000}' <= c && c <= '\u{200a}')
    ||| c == '\u{2028}'
    ||| c == '\u{2029}'
    ||| c == '\u{202f}'
    ||| c == '\u{205f}'
    ||| c == '\u{3000}'
}

/// Number of leading white-space characters.
pub open spec fn lead_white(s: Seq<char>) -> nat
    decreases s.len(),
{
    if s.len() > 0 && is_white(s[0]) {
        1 + lead_white(s.drop_first())
    } else {
        0
    }
}

/// Number of trailing white-space characters.
pub open spec fn trail_white(s: Seq<char>) -> nat
    decreases s.len(),
{
    if s.len() > 0 && is_white(s.last()) {
        1 + trail_white(s.drop_last())
    } else {
        0
    }
}

/// A text without its leading and trailing white space.
pub open spec fn trimmed(s: Seq<char>) -> Seq<char> {
    let a = lead_white(s);
    if a == s.len() {
        Seq::empty()
    } else {
        s.subrange(a as int, s.len() - trail_white(s))
    }
}

proof fn lemma_lead_white(s: Seq<char>, i: int)
    requires
        0 <= i <= s.len(),
        forall|k: int| 0 <= k < i ==> is_white(#[trigger] s[k]),
    ensures
        lead_white(s) >= i,
        lead_white(s) <= s.len(),
        i < s.len() && !is_white(s[i]) ==> lead_white(s) == i,
    decreases i,
{
    lemma_lead_white_bound(s);
    if i > 0 {
        let t = s.drop_first();
        assert forall|k: int| 0 <= k < i - 1 implies is_white(#[trigger] t[k]) by {
            assert(t[k] == s[k + 1]);
        }
        lemma_lead_white(t, i - 1);
    } else if s.len() > 0 && !is_white(s[0]) {
    }
}

proof fn lemma_lead_white_bound(s: Seq<char>)
    ensures
        lead_white(s) <= s.len(),
        lead_white(s) < s.len() ==> !is_white(s[lead_white(s) as int]),
        forall|k: int| 0 <= k < lead_white(s) ==> is_white(#[trigger] s[k]),
    decreases s.len(),
{
    if s.len() > 0 && is_white(s[0]) {
        let t = s.drop_first();
        lemma_lead_white_bound(t);
        assert forall|k: int| 0 <= k < lead_white(s) implies is_white(#[trigger] s[k]) by {
            if k > 0 {
                assert(s[k] == t[k - 1]);
            }
        }
    }
}

proof fn lemma_trail_white_bound(s: Seq<char>)
    ensures
        trail_white(s) <= s.len(),
        trail_white(s) < s.len() ==> !is_white(s[s.len() - 1 - trail_white(s)]),
        forall|k: int| s.len() - trail_white(s) <= k < s.len() ==> is_white(#[trigger] s[k]),
    decreases s.len(),
{
    if s.len() > 0 && is_white(s.last()) {
        let t = s.drop_last();
        lemma_trail_white_bound(t);
        assert forall|k: int| s.len() - trail_white(s) <= k < s.len() implies is_white(
            #[trigger] s[k],
        ) by {
            if k < s.len() - 1 {
                assert(s[k] == t[k]);
            }
        }
    }
}

/// Whether a character is white space.
fn white_char(c: char) -> (r: bool)
    ensures
        r == is_white(c),
{
    ('\u{9}' <= c && c <= '\u{d}') || c == ' ' || c == '\u{85}' || c == '\u{a0}' || c == '\u{1680}'
        || ('\u{2000}' <= c && c <= '\u{200a}') || c == '\u{2028}' || c == '\u{2029}' || c
        == '\u{202f}' || c == '\u{205f}' || c == '\u{3000}'
}

/// The text without leading and trailing white space.
pub fn trim_text(s: &str) -> (r: String)
    ensures
        r@ == trimmed(s@),
{
    let n = s.unicode_len();
    let mut a: usize = 0;
    proof {
        lemma_lead_white_bound(s@);
        lemma_trail_white_bound(s@);
    }
    while a < n && white_char(s.get_char(a))
        invariant
            n == s@.len(),
            a <= n,
            forall|k: int| 0 <= k < a ==> is_white(#[trigger] s@[k]),
        decreases n - a,
    {
        a += 1;
    }
    proof {
        lemma_lead_white(s@, a as int);
    }
    let mut out = new_string();
    if a == n {
        return out;
    }
    let mut b: usize = n;
    while b > a && white_char(s.get_char(b - 1))
        invariant
            n == s@.len(),
            a < n,
            a <= b <= n,
            !is_white(s@[a as int]),
            forall|k: int| b <= k < n ==> is_white(#[trigger] s@[k]),
        decreases b,
    {
        b -= 1;
    }
    proof {
        assert(b > a);
        assert(trail_white(s@) == n - b) by {
            lemma_trail_exact(s@, (n - b) as nat);
        }
    }
    let mut i = a;
    while i < b
        invariant
            n == s@.len(),
            a <= i <= b <= n,
            out@ == s@.subrange(a as int, i as int),
        decreases b - i,
    {
        push_char(&mut out, s.get_char(i));
        proof {
            assert(s@.subrange(a as int, i + 1) == s@.subrange(a as int, i as int).push(s@[i as int]));
        }
        i += 1;
    }
    out
}

proof fn lemma_trail_exact(s: Seq<char>, t: nat)
    requires
        t < s.len(),
        forall|k: int| s.len() - t <= k < s.len() ==> is_white(#[trigger] s[k]),
        !is_white(s[s.len() - 1 - t]),
    ensures
        trail_white(s) == t,
    decreases t,
{
    if t > 0 {
        let u = s.drop_last();
        assert forall|k: int| u.len() - (t - 1) <= k < u.len() implies is_white(#[trigger] u[k]) by {
            assert(u[k] == s[k]);
        }
        assert(u[u.len() - 1 - (t - 1)] == s[s.len() - 1 - t]);
        lemma_trail_exact(u, (t - 1) as nat);
        assert(is_white(s.last()));
    }
}

/// Index of the last `.` in a text, if any.
pub open spec fn last_dot(s: Seq<char>) -> Option<int>
    decreases s.len(),
{
    if s.len() == 0 {
        None
    } else if s.last() == '.' {
        Some(s.len() - 1)
    } else {
        last_dot(s.drop_last())
    }
}

/// An executable name without its extension (the part before the last `.`).
pub open spec fn strip_extension(s: Seq<char>) -> Seq<char> {
    match last_dot(s) {
        Some(i) => s.subrange(0, i),
        None => s,
    }
}

/// Display name of a process: the known-name table, else its trimmed, non-empty file
/// description, else the executable name without extension.
pub open spec fn display_name_spec(exe_name_lower: Seq<char>, file_desc: Option<Seq<char>>) -> Seq<char> {
    match known_display(known_map_spec(), exe_name_lower) {
        Some(d) => d,
        None => match file_desc {
            Some(fd) => if trimmed(fd).len() > 0 {
                trimmed(fd)
            } else {
                strip_extension(exe_name_lower)
            },
            None => strip_extension(exe_name_lower),
        },
    }
}

pub open spec fn opt_str_view(s: Option<&str>) -> Option<Seq<char>> {
    match s {
        Some(t) => Some(t@),
        None => None,
    }
}

/// Display name of a process from its lower-case executable name and, when the
/// executable has one, its version-resource file description.
pub fn display_name_of(exe_name_lower: &str, file_desc: Option<&str>) -> (r: String)
    ensures
        r@ == display_name_spec(exe_name_lower@, opt_str_view(file_desc)),
{
    if let Some(d) = known_display_name(exe_name_lower) {
        return d;
    }
    if let Some(fd) = file_desc {
        let t = trim_text(fd);
        if t.unicode_len() > 0 {
            return t;
        }
    }
    strip_extension_of(exe_name_lower)
}

/// The executable name without its extension.
pub fn strip_extension_of(s: &str) -> (r: String)
    ensures
        r@ == strip_extension(s@),
{
    let n = s.unicode_len();
    let mut j: usize = n;
    proof {
        assert(s@.subrange(0, n as int) == s@);
    }
    while j > 0 && s.get_char(j - 1) != '.'
        invariant
            n == s@.len(),
            j <= n,
            last_dot(s@) == last_dot(s@.subrange(0, j as int)),
        decreases j,
    {
        proof {
            assert(s@.subrange(0, j as int).drop_last() == s@.subrange(0, j - 1));
        }
        j -= 1;
    }
    let end: usize = if j == 0 {
        proof {
            assert(s@.subrange(0, 0) == Seq::<char>::empty());
        }
        n
    } else {
        proof {
            assert(s@.subrange(0, j as int).last() == '.');
        }
        j - 1
    };
    let mut out = new_string();
    let mut i: usize = 0;
    while i < end
        invariant
            n == s@.len(),
            end <= n,
            i <= end,
            out@ == s@.subrange(0, i as int),
        decreases end - i,
    {
        push_char(&mut out, s.get_char(i));
        proof {
            assert(s@.subrange(0, i + 1) == s@.subrange(0, i as int).push(s@[i as int]));
        }
        i += 1;
    }
    proof {
        assert(s@.subrange(0, n as int) == s@);
    }
    out
}

/// Display names counted as slacking: music, video, live streaming and games among the
/// known applications. This fixed list is this library's own rule; there is no
/// configurable category table behind it.
pub open spec fn slack_apps_spec() -> Seq<Seq<char>> {
    seq![
        "网易云音乐"@,
        "QQ音乐"@,
        "酷狗音乐"@,
        "哔哩哔哩"@,
        "爱奇艺"@,
        "腾讯视频"@,
        "优酷"@,
        "抖音"@,
        "快手"@,
        "PotPlayer"@,
        "VLC"@,
        "Windows Media Player"@,
        "Spotify"@,
        "Steam"@,
        "英雄联盟"@,
    ]
}

fn slack_apps() -> (r: [&'static str; 15])
    ensures
        forall|i: int| 0 <= i < 15 ==> (#[trigger] r@[i])@ == slack_apps_spec()[i],
{
    [
        "网易云音乐",
        "QQ音乐",
        "酷狗音乐",
        "哔哩哔哩",
        "爱奇艺",
        "腾讯视频",
        "优酷",
        "抖音",
        "快手",
        "PotPlayer",
        "VLC",
        "Windows Media Player",
        "Spotify",
        "Steam",
        "英雄联盟",
    ]
}

/// Whether an application's time counts as slacking.
pub fn is_slack_app(app: &str) -> (r: bool)
    ensures
        r == slack_apps_spec().contains(app@),
{
    let names = slack_apps();
    let mut i: usize = 0;
    while i < 15
        invariant
            i <= 15,
            forall|k: int| 0 <= k < 15 ==> (#[trigger] names@[k])@ == slack_apps_spec()[k],
            forall|k: int| 0 <= k < i ==> slack_apps_spec()[k] != app@,
        decreases 15 - i,
    {
        if text_eq(app, names[i]) {
            proof {
                assert(slack_apps_spec()[i as int] == app@);
            }
            return true;
        }
        i += 1;
    }
    false
}

/// Executable name of this program: its own windows are not counted.
pub open spec fn self_exe() -> Seq<char> {
    "niuma-timer.exe"@
}

/// Whether a lower-case executable name is this program.
pub fn is_self_exe(exe_name_lower: &str) -> (r: bool)
    ensures
        r == (exe_name_lower@ == self_exe()),
{
    text_eq(exe_name_lower, "niuma-timer.exe")
}

/// Lower-case form std's `str::to_lowercase` gives a text (Unicode `Lowercase` mapping,
/// a function of the text alone).
pub uninterp spec fn std_lowercase(s: Seq<char>) -> Seq<char>;

/// std `str::to_lowercase`.
#[verifier::external_body]
pub(crate) fn to_lowercase(s: &str) -> (r: String)
    ensures
        r@ == std_lowercase(s@),
{
    s.to_lowercase()
}

/// Index of the last `\` in a text, if any.
pub open spec fn last_backslash(s: Seq<char>) -> Option<int>
    decreases s.len(),
{
    if s.len() == 0 {
        None
    } else if s.last() == '\\' {
        Some(s.len() - 1)
    } else {
        last_backslash(s.drop_last())
    }
}

/// File name of a Windows path: the text after the last `\`.
pub open spec fn file_name_spec(path: Seq<char>) -> Seq<char> {
    match last_backslash(path) {
        Some(i) => path.subrange(i + 1, path.len() as int),
        None => path,
    }
}

/// The lower-case executable name of a process path.
pub fn exe_name_lower(path: &str) -> (r: String)
    ensures
        r@ == std_lowercase(file_name_spec(path@)),
{
    let n = path.unicode_len();
    let mut j: usize = n;
    proof {
        assert(path@.subrange(0, n as int) == path@);
    }
    while j > 0 && path.get_char(j - 1) != '\\'
        invariant
            n == path@.len(),
            j <= n,
            last_backslash(path@) == last_backslash(path@.subrange(0, j as int)),
            forall|k: int| j <= k < n ==> path@[k] != '\\',
        decreases j,
    {
        proof {
            assert(path@.subrange(0, j as int).drop_last() == path@.subrange(0, j - 1));
        }
        j -= 1;
    }
    proof {
        if j == 0 {
            assert(path@.subrange(0, 0) == Seq::<char>::empty());
        } else {
            assert(path@.subrange(0, j as int).last() == '\\');
        }
    }
    let mut name = new_string();
    let mut i: usize = j;
    while i < n
        invariant
            n == path@.len(),
            j <= i <= n,
            name@ == path@.subrange(j as int, i as int),
        decreases n - i,
    {
        push_char(&mut name, path.get_char(i));
        proof {
            assert(path@.subrange(j as int, i + 1) == path@.subrange(j as int, i as int).push(path@[i as int]));
        }
        i += 1;
    }
    proof {
        if j == 0 {
            assert(path@.subrange(0, n as int) == path@);
        }
    }
    to_lowercase(name.as_str())
}

/// The whitelist: when enabled and not empty, only listed display names are counted
/// (compared in lower case).
#[derive(Clone, Debug)]
pub struct Whitelist {
    pub enabled: bool,
    pub names: Vec<String>,
}

/// A display name is counted under the whitelist.
pub open spec fn whitelisted(enabled: bool, names: Seq<String>, display: Seq<char>) -> bool {
    !enabled || names.len() == 0 || exists|i: int|
        0 <= i < names.len() && std_lowercase(#[trigger] names[i]@) == std_lowercase(display)
}

impl Whitelist {
    pub fn new() -> (r: Self)
        ensures
            !r.enabled,
            r.names@.len() == 0,
    {
        Whitelist { enabled: false, names: Vec::new() }
    }

    /// Replaces the switch and the list.
    pub fn set_whitelist(&mut self, enabled: bool, list: Vec<String>)
        ensures
            final(self).enabled == enabled,
            final(self).names == list,
    {
        self.enabled = enabled;
        self.names = list;
    }

    /// Whether an application is counted.
    pub fn in_whitelist(&self, display: &str) -> (r: bool)
        ensures
            r == whitelisted(self.enabled, self.names@, display@),
    {
        if !self.enabled {
            return true;
        }
        if self.names.len() == 0 {
            return true;
        }
        let d = to_lowercase(display);
        let mut i: usize = 0;
        while i < self.names.len()
            invariant
                i <= self.names@.len(),
                d@ == std_lowercase(display@),
                forall|k: int| 0 <= k < i ==> std_lowercase(#[trigger] self.names@[k]@) != std_lowercase(display@),
            decreases self.names@.len() - i,
        {
            let w = to_lowercase(self.names[i].as_str());
            if text_eq(w.as_str(), d.as_str()) {
                return true;
            }
            i += 1;
        }
        false
    }
}

/// The application in front: display name and executable path.
#[derive(Clone, Debug)]
pub struct CurApp {
    pub display: String,
    pub exe_path: String,
}

fn copy_app(a: &Option<CurApp>) -> (r: Option<CurApp>)
    ensures
        r == *a,
{
    match a {
        Some(c) => Some(CurApp { display: c.display.clone(), exe_path: c.exe_path.clone() }),
        None => None,
    }
}

/// A segment is credited at most this long (after sleep the clock jumps).
pub const MAX_SEGMENT_MS: u64 = 60_000;

/// The application in front and the start of the running segment (monotonic
/// milliseconds; 0 = no baseline yet).
#[derive(Clone, Debug)]
pub struct CurState {
    pub app: Option<CurApp>,
    pub since_ms: u64,
}

impl CurState {
    pub fn new() -> (r: Self)
        ensures
            r.app is None,
            r.since_ms == 0,
    {
        CurState { app: None, since_ms: 0 }
    }

    /// Segment start after taking a segment at `now`, and the whole seconds credited.
    pub open spec fn segment_spec(self, now: u64) -> (u64, u64) {
        if self.since_ms == 0 {
            (now, 0)
        } else {
            let raw: int = if now >= self.since_ms { now - self.since_ms } else { 0 };
            if raw > MAX_SEGMENT_MS {
                (now, MAX_SEGMENT_MS / 1000)
            } else {
                ((self.since_ms + (raw / 1000) * 1000) as u64, (raw / 1000) as u64)
            }
        }
    }

    /// Closes the running segment at `now` (monotonic): returns the application it belongs
    /// to and its whole seconds. The first call only sets the baseline; the start advances
    /// by the credited whole seconds so that fractions carry over; after a jump of more
    /// than a minute at most a minute is credited and the start moves to `now`.
    pub fn take_segment(&mut self, now: u64) -> (r: (Option<CurApp>, u64))
        ensures
            final(self).app == old(self).app,
            final(self).since_ms == old(self).segment_spec(now).0,
            r.1 == old(self).segment_spec(now).1,
            old(self).since_ms == 0 ==> r.0 is None,
            old(self).since_ms != 0 ==> r.0 == old(self).app,
    {
        let since = self.since_ms;
        if since == 0 {
            self.since_ms = now;
            return (None, 0);
        }
        let raw = now.saturating_sub(since);
        if raw > MAX_SEGMENT_MS {
            self.since_ms = now;
            return (copy_app(&self.app), MAX_SEGMENT_MS / 1000);
        }
        let secs = raw / 1000;
        self.since_ms = since + secs * 1000;
        (copy_app(&self.app), secs)
    }

    /// Records the application now in front (`None`: nothing to count).
    pub fn set_app(&mut self, app: Option<CurApp>)
        ensures
            final(self).app == app,
            final(self).since_ms == old(self).since_ms,
    {
        self.app = app;
    }

    /// A switch of the application in front at `now`: the running segment is closed
    /// first and belongs to the application that was in front (returned with its whole
    /// seconds, as `take_segment` gives them); the new one counts from there on.
    pub fn switch_app(&mut self, now: u64, app: Option<CurApp>) -> (r: (Option<CurApp>, u64))
        ensures
            final(self).app == app,
            final(self).since_ms == old(self).segment_spec(now).0,
            r.1 == old(self).segment_spec(now).1,
            old(self).since_ms == 0 ==> r.0 is None,
            old(self).since_ms != 0 ==> r.0 == old(self).app,
    {
        let r = self.take_segment(now);
        self.set_app(app);
        r
    }
}

/// The application a foreground process counts as: none for this program itself and
/// for applications outside the whitelist; otherwise its display name and its path.
pub open spec fn front_app_spec(path: Seq<char>, file_desc: Option<Seq<char>>, wl: Whitelist) -> Option<(Seq<char>, Seq<char>)> {
    let exe = std_lowercase(file_name_spec(path));
    let display = display_name_spec(exe, file_desc);
    if exe == self_exe() || !whitelisted(wl.enabled, wl.names@, display) {
        None
    } else {
        Some((display, path))
    }
}

/// The application a foreground process with executable `path` (and version-info
/// description `file_desc`) counts as, under the whitelist `wl`.
pub fn front_app(path: &str, file_desc: Option<&str>, wl: &Whitelist) -> (r: Option<CurApp>)
    ensures
        match front_app_spec(path@, opt_str_view(file_desc), *wl) {
            None => r is None,
            Some((d, p)) => (r matches Some(c) && c.display@ == d && c.exe_path@ == p),
        },
{
    let exe = exe_name_lower(path);
    if is_self_exe(exe.as_str()) {
        return None;
    }
    let display = display_name_of(exe.as_str(), file_desc);
    if !wl.in_whitelist(display.as_str()) {
        return None;
    }
    Some(CurApp { display, exe_path: path.to_string() })
}

/// A taken segment keeps its fraction: the start advances by exactly the credited
/// seconds, and less than a second stays uncredited (short of the jump limit).
pub proof fn law_segment_keeps_fraction(s: CurState, now: u64)
    requires
        s.since_ms != 0,
        now >= s.since_ms,
        now - s.since_ms <= MAX_SEGMENT_MS,
    ensures
        s.segment_spec(now).0 == s.since_ms + 1000 * s.segment_spec(now).1,
        now - s.segment_spec(now).0 < 1000,
{
}

/// Idle for longer than this (milliseconds) the application in front is not counted.
pub const IDLE_THRESHOLD_MS: u64 = 300_000;

/// A segment is recorded: it has seconds and an application, the session is not locked,
/// monitoring is on, and there was input within the idle threshold (wall clock).
pub fn should_record(secs: u64, has_app: bool, away: bool, enabled: bool, now_wall_ms: u64, last_input_ms: u64) -> (r: bool)
    ensures
        r == (secs > 0 && has_app && !away && enabled && (if now_wall_ms >= last_input_ms {
            now_wall_ms - last_input_ms
        } else {
            0
        }) <= IDLE_THRESHOLD_MS),
{
    secs > 0 && has_app && !away && enabled && now_wall_ms.saturating_sub(last_input_ms) <= IDLE_THRESHOLD_MS
}

/// chrono `Local.timestamp_millis_opt(..).single()`: the local year, month, day and hour
/// of a Unix time in milliseconds in the machine's time zone (`None` when it names no
/// single local moment). The zone decides the values, and near the ends of chrono's
/// range the year may lie past its dates; only that the hour is below 24 is stated.
#[verifier::external_body]
fn local_fields_at(ms: u64) -> (r: Option<(i32, u32, u32, u32)>)
    ensures
        r matches Some((_, _, _, h)) ==> h < 24,
{
    match chrono::Local.timestamp_millis_opt(ms as i64).single() {
        Some(dt) => Some((dt.year(), dt.month(), dt.day(), dt.hour())),
        None => None,
    }
}

/// The local date and hour of a Unix time, when they name a date chrono represents.
fn local_hour_of(ms: u64) -> (r: Option<(Date, u32)>)
    ensures
        r matches Some((d, h)) ==> d.wf() && h < 24,
{
    match local_fields_at(ms) {
        Some((y, m, d, h)) => match date::ymd_opt(y, m, d) {
            Some(x) => Some((x, h)),
            None => None,
        },
        None => None,
    }
}

/// The next local full hour after `ms`: the local hour one hour later, at minute zero,
/// as Unix milliseconds (`None` when out of range or not a single instant).
fn next_hour_boundary(ms: u64) -> (r: Option<i64>) {
    if ms > u64::MAX - 3_600_000 {
        return None;
    }
    match local_hour_of(ms + 3_600_000) {
        Some((d, h)) => date::local_wall_ms(d, h, 0),
        None => None,
    }
}

/// Where a part of a span starts: the instant `at_ms`, its local date and hour, and the
/// next local full hour `next_ms` after it.
#[derive(Clone, Copy, Debug, PartialEq, Eq, Structural)]
pub struct HourCut {
    pub at_ms: u64,
    pub date: Date,
    pub hour: u32,
    pub next_ms: u64,
}

/// Where the part starting at `c` ends: its next full hour, or the end of the span.
pub open spec fn cut_end(c: HourCut, end_ms: u64) -> int {
    if c.next_ms < end_ms {
        c.next_ms as int
    } else {
        end_ms as int
    }
}

/// Whole seconds from `c` to where its part ends.
pub open spec fn cut_avail(c: HourCut, end_ms: u64) -> int {
    if cut_end(c, end_ms) > c.at_ms {
        (cut_end(c, end_ms) - c.at_ms) / 1000
    } else {
        0
    }
}

/// Seconds the part at `c` gets while `r` seconds are left to credit.
pub open spec fn cut_secs(c: HourCut, end_ms: u64, r: int) -> int {
    if cut_avail(c, end_ms) < r {
        cut_avail(c, end_ms)
    } else {
        r
    }
}

/// The (date, hour, seconds) parts of cuts taken in order with `r` seconds to credit:
/// each cut gets its whole seconds up to its end, as far as seconds are left; cuts that
/// get none make no part.
pub open spec fn cut_parts(cuts: Seq<HourCut>, end_ms: u64, r: int) -> Seq<(Date, int, int)>
    decreases cuts.len(),
{
    if cuts.len() == 0 {
        Seq::empty()
    } else {
        let s = cut_secs(cuts[0], end_ms, r);
        let rest = cut_parts(cuts.drop_first(), end_ms, r - s);
        if s > 0 {
            seq![(cuts[0].date, cuts[0].hour as int, s)] + rest
        } else {
            rest
        }
    }
}

/// Seconds left over after the cuts, lost to rounding.
pub open spec fn cut_left(cuts: Seq<HourCut>, end_ms: u64, r: int) -> int
    decreases cuts.len(),
{
    if cuts.len() == 0 {
        r
    } else {
        cut_left(cuts.drop_first(), end_ms, r - cut_secs(cuts[0], end_ms, r))
    }
}

/// The parts with the leftover seconds added to the last one.
pub open spec fn with_remainder(ps: Seq<(Date, int, int)>, left: int) -> Seq<(Date, int, int)> {
    if ps.len() > 0 {
        ps.update(ps.len() - 1, (ps.last().0, ps.last().1, ps.last().2 + left))
    } else {
        ps
    }
}

/// The stored parts are the parts with their dates as chrono's `%Y-%m-%d` text (zero
/// padded `YYYY-MM-DD` for years 0 to 9999).
pub open spec fn dated_parts(out: Seq<(String, i64, i64)>, ps: Seq<(Date, int, int)>) -> bool {
    &&& out.len() == ps.len()
    &&& forall|i: int|
        0 <= i < out.len() ==> {
            &&& (#[trigger] out[i]).0@ == date::chrono_ymd_text(ps[i].0)
            &&& (0 <= ps[i].0.year <= 9999 ==> out[i].0@ == date::ymd_text(ps[i].0))
            &&& out[i].1 == ps[i].1
            &&& out[i].2 == ps[i].2
        }
}

/// Local hour `(a, ha)` comes before local hour `(b, hb)`.
pub open spec fn hour_before(a: Date, ha: int, b: Date, hb: int) -> bool {
    date::day_number(a) < date::day_number(b) || (date::day_number(a) == date::day_number(b) && ha < hb)
}

/// The cuts name strictly later local hours, in order.
pub open spec fn cuts_ascending(cuts: Seq<HourCut>) -> bool {
    forall|i: int, j: int|
        0 <= i < j < cuts.len() ==> hour_before(
            #[trigger] cuts[i].date,
            cuts[i].hour as int,
            #[trigger] cuts[j].date,
            cuts[j].hour as int,
        )
}

/// The parts name strictly later local hours, in order (so no hour repeats).
pub open spec fn parts_ascending(ps: Seq<(Date, int, int)>) -> bool {
    forall|i: int, j: int| 0 <= i < j < ps.len() ==> hour_before(#[trigger] ps[i].0, ps[i].1, #[trigger] ps[j].0, ps[j].1)
}

/// The cuts of the span `[start_ms, end_ms)`: the first at its start, each next one where
/// the part before it ends, each valid, ending after it starts, and in ascending hours.
pub open spec fn hour_cuts_of(cuts: Seq<HourCut>, start_ms: u64, end_ms: u64) -> bool {
    &&& (cuts.len() > 0 ==> cuts[0].at_ms == start_ms)
    &&& forall|k: int|
        0 <= k < cuts.len() ==> (#[trigger] cuts[k]).date.wf() && cuts[k].hour < 24 && cuts[k].at_ms
            < cut_end(cuts[k], end_ms)
    &&& forall|k: int| 0 <= k < cuts.len() - 1 ==> (#[trigger] cuts[k + 1]).at_ms == cut_end(cuts[k], end_ms)
    &&& cuts_ascending(cuts)
}

/// Seconds of all parts.
pub open spec fn parts_total(parts: Seq<(String, i64, i64)>) -> int
    decreases parts.len(),
{
    if parts.len() == 0 {
        0
    } else {
        parts_total(parts.drop_last()) + parts.last().2
    }
}

/// Seconds of all (date, hour, seconds) parts.
pub open spec fn ps_total(ps: Seq<(Date, int, int)>) -> int
    decreases ps.len(),
{
    if ps.len() == 0 {
        0
    } else {
        ps_total(ps.drop_last()) + ps.last().2
    }
}

/// The parts of a span whose cuts are given: each cut credits its whole seconds up to the
/// next full hour or the end of the span, as long as seconds of `secs` are left; what
/// rounding leaves over goes to the last part. No part is made when no cut gets a second.
pub fn split_at_cuts(cuts: &Vec<HourCut>, end_ms: u64, secs: u64) -> (out: Vec<(String, i64, i64)>)
    requires
        secs <= i64::MAX as u64,
        forall|k: int| 0 <= k < cuts@.len() ==> (#[trigger] cuts@[k]).date.wf(),
    ensures
        dated_parts(
            out@,
            with_remainder(cut_parts(cuts@, end_ms, secs as int), cut_left(cuts@, end_ms, secs as int)),
        ),
        out@.len() > 0 ==> parts_total(out@) == secs,
        forall|i: int| 0 <= i < out@.len() ==> (#[trigger] out@[i]).2 > 0,
{
    let mut out: Vec<(String, i64, i64)> = Vec::new();
    let ghost mut ps: Seq<(Date, int, int)> = Seq::empty();
    let mut remaining = secs;
    let mut i: usize = 0;
    proof {
        assert(cuts@.skip(0) == cuts@);
    }
    while i < cuts.len()
        invariant
            i <= cuts@.len(),
            secs <= i64::MAX as u64,
            remaining <= secs,
            forall|k: int| 0 <= k < cuts@.len() ==> (#[trigger] cuts@[k]).date.wf(),
            dated_parts(out@, ps),
            ps + cut_parts(cuts@.skip(i as int), end_ms, remaining as int) == cut_parts(cuts@, end_ms, secs as int),
            cut_left(cuts@.skip(i as int), end_ms, remaining as int) == cut_left(cuts@, end_ms, secs as int),
            ps_total(ps) + remaining == secs,
            forall|k: int| 0 <= k < ps.len() ==> (#[trigger] ps[k]).2 > 0,
            parts_total(out@) == ps_total(ps),
        decreases cuts@.len() - i,
    {
        let c = cuts[i];
        let ce: u64 = if c.next_ms < end_ms {
            c.next_ms
        } else {
            end_ms
        };
        let avail: u64 = if ce > c.at_ms {
            (ce - c.at_ms) / 1000
        } else {
            0
        };
        let s: u64 = if avail < remaining {
            avail
        } else {
            remaining
        };
        let ghost tail = cuts@.skip(i as int);
        proof {
            assert(tail[0] == c);
            assert(tail.drop_first() == cuts@.skip(i + 1));
            assert(s as int == cut_secs(c, end_ms, remaining as int));
        }
        if s > 0 {
            let ghost old_out = out@;
            let ghost old_ps = ps;
            let text = format_ymd(c.date);
            out.push((text, c.hour as i64, s as i64));
            proof {
                ps = ps.push((c.date, c.hour as int, s as int));
                assert(ps.drop_last() == old_ps);
                assert(out@.drop_last() == old_out);
                assert forall|k: int| 0 <= k < out@.len() implies {
                    &&& (#[trigger] out@[k]).0@ == date::chrono_ymd_text(ps[k].0)
                    &&& (0 <= ps[k].0.year <= 9999 ==> out@[k].0@ == date::ymd_text(ps[k].0))
                    &&& out@[k].1 == ps[k].1
                    &&& out@[k].2 == ps[k].2
                } by {
                    if k < old_out.len() {
                        assert(out@[k] == old_out[k]);
                        assert(ps[k] == old_ps[k]);
                    }
                }
                assert(old_ps + (seq![(c.date, c.hour as int, s as int)] + cut_parts(
                    cuts@.skip(i + 1),
                    end_ms,
                    remaining - s,
                )) == ps + cut_parts(cuts@.skip(i + 1), end_ms, remaining - s));
            }
            remaining = remaining - s;
        }
        i += 1;
    }
    proof {
        assert(cuts@.skip(i as int) == Seq::<HourCut>::empty());
        assert(ps + Seq::<(Date, int, int)>::empty() == ps);
    }
    let ghost base = ps;
    if remaining > 0 && out.len() > 0 {
        let ghost full = out@;
        let (d, h, s) = out.pop().unwrap();
        proof {
            assert(full.drop_last() == out@);
            assert(full.last() == (d, h, s));
            assert(base.last().2 == s);
            assert(ps_total(base) == ps_total(base.drop_last()) + s);
            lemma_ps_total_nonneg(base.drop_last());
        }
        out.push((d, h, s + remaining as i64));
        proof {
            let last = base.len() - 1;
            ps = base.update(last, (base.last().0, base.last().1, base.last().2 + remaining));
            assert(out@.drop_last() == full.drop_last());
            assert(ps.drop_last() == base.drop_last());
            assert forall|k: int| 0 <= k < out@.len() implies {
                &&& (#[trigger] out@[k]).0@ == date::chrono_ymd_text(ps[k].0)
                &&& (0 <= ps[k].0.year <= 9999 ==> out@[k].0@ == date::ymd_text(ps[k].0))
                &&& out@[k].1 == ps[k].1
                &&& out@[k].2 == ps[k].2
            } by {
                if k < last {
                    assert(out@[k] == full[k]);
                } else {
                    assert(full[k] == (d, h, s));
                }
            }
            assert(parts_total(out@) == parts_total(full.drop_last()) + s + remaining);
        }
    }
    proof {
        assert(ps == with_remainder(base, remaining as int));
    }
    out
}

proof fn lemma_ps_total_nonneg(ps: Seq<(Date, int, int)>)
    requires
        forall|k: int| 0 <= k < ps.len() ==> (#[trigger] ps[k]).2 > 0,
    ensures
        ps_total(ps) >= 0,
    decreases ps.len(),
{
    if ps.len() > 0 {
        let t = ps.drop_last();
        assert forall|k: int| 0 <= k < t.len() implies (#[trigger] t[k]).2 > 0 by {
            assert(t[k] == ps[k]);
        }
        lemma_ps_total_nonneg(t);
        assert(ps[ps.len() - 1].2 > 0);
    }
}

/// Every part comes after a local hour that all cuts come after; parts of valid cuts are
/// valid with positive seconds.
proof fn lemma_parts_after(cuts: Seq<HourCut>, end_ms: u64, r: int, d: Date, h: int, check_after: bool)
    requires
        r >= 0,
        forall|k: int| 0 <= k < cuts.len() ==> (#[trigger] cuts[k]).date.wf() && cuts[k].hour < 24,
        check_after ==> forall|k: int|
            0 <= k < cuts.len() ==> hour_before(d, h, (#[trigger] cuts[k]).date, cuts[k].hour as int),
    ensures
        forall|k: int|
            0 <= k < cut_parts(cuts, end_ms, r).len() ==> {
                &&& (#[trigger] cut_parts(cuts, end_ms, r)[k]).0.wf()
                &&& 0 <= cut_parts(cuts, end_ms, r)[k].1 < 24
                &&& cut_parts(cuts, end_ms, r)[k].2 > 0
                &&& (check_after ==> hour_before(d, h, cut_parts(cuts, end_ms, r)[k].0, cut_parts(cuts, end_ms, r)[k].1))
            },
    decreases cuts.len(),
{
    if cuts.len() > 0 {
        let t = cuts.drop_first();
        let s = cut_secs(cuts[0], end_ms, r);
        assert forall|k: int| 0 <= k < t.len() implies (#[trigger] t[k]).date.wf() && t[k].hour < 24 by {
            assert(t[k] == cuts[k + 1]);
        }
        if check_after {
            assert forall|k: int| 0 <= k < t.len() implies hour_before(d, h, (#[trigger] t[k]).date, t[k].hour as int) by {
                assert(t[k] == cuts[k + 1]);
            }
        }
        lemma_parts_after(t, end_ms, r - s, d, h, check_after);
        let rest = cut_parts(t, end_ms, r - s);
        if s > 0 {
            let ps = cut_parts(cuts, end_ms, r);
            assert(ps == seq![(cuts[0].date, cuts[0].hour as int, s)] + rest);
            assert forall|k: int| 0 <= k < ps.len() implies {
                &&& (#[trigger] ps[k]).0.wf()
                &&& 0 <= ps[k].1 < 24
                &&& ps[k].2 > 0
                &&& (check_after ==> hour_before(d, h, ps[k].0, ps[k].1))
            } by {
                if k > 0 {
                    assert(ps[k] == rest[k - 1]);
                }
            }
        }
    }
}

/// Parts of cuts in ascending hours are in ascending hours.
proof fn lemma_parts_ascending(cuts: Seq<HourCut>, end_ms: u64, r: int)
    requires
        r >= 0,
        forall|k: int| 0 <= k < cuts.len() ==> (#[trigger] cuts[k]).date.wf() && cuts[k].hour < 24,
        cuts_ascending(cuts),
    ensures
        parts_ascending(cut_parts(cuts, end_ms, r)),
    decreases cuts.len(),
{
    if cuts.len() > 0 {
        let t = cuts.drop_first();
        let s = cut_secs(cuts[0], end_ms, r);
        assert forall|k: int| 0 <= k < t.len() implies (#[trigger] t[k]).date.wf() && t[k].hour < 24 by {
            assert(t[k] == cuts[k + 1]);
        }
        assert forall|i: int, j: int| 0 <= i < j < t.len() implies hour_before(
            #[trigger] t[i].date,
            t[i].hour as int,
            #[trigger] t[j].date,
            t[j].hour as int,
        ) by {
            assert(t[i] == cuts[i + 1]);
            assert(t[j] == cuts[j + 1]);
        }
        lemma_parts_ascending(t, end_ms, r - s);
        let rest = cut_parts(t, end_ms, r - s);
        if s > 0 {
            assert forall|k: int| 0 <= k < t.len() implies hour_before(
                cuts[0].date,
                cuts[0].hour as int,
                (#[trigger] t[k]).date,
                t[k].hour as int,
            ) by {
                assert(t[k] == cuts[k + 1]);
            }
            lemma_parts_after(t, end_ms, r - s, cuts[0].date, cuts[0].hour as int, true);
            let ps = cut_parts(cuts, end_ms, r);
            assert(ps == seq![(cuts[0].date, cuts[0].hour as int, s)] + rest);
            assert forall|i: int, j: int| 0 <= i < j < ps.len() implies hour_before(
                #[trigger] ps[i].0,
                ps[i].1,
                #[trigger] ps[j].0,
                ps[j].1,
            ) by {
                assert(ps[j] == rest[j - 1]);
                if i > 0 {
                    assert(ps[i] == rest[i - 1]);
                }
            }
        }
    }
}

/// Splits the wall-clock span `[start_ms, end_ms)` of `secs` seconds at local hour
/// boundaries into (date, hour, seconds) parts. The cuts are read in the machine's time
/// zone: each starts where the part before it ended, at the local hour of that instant,
/// and ends at the next local full hour. The parts are `split_at_cuts` of those cuts, and
/// always add up to `secs`; when no part could be cut, all seconds go to one local hour
/// (that of the start, or of now when the start has none).
pub fn split_by_hour(start_ms: u64, end_ms: u64, secs: u64) -> (out: Vec<(String, i64, i64)>)
    requires
        secs <= i64::MAX as u64,
    ensures
        secs == 0 || end_ms <= start_ms ==> out@.len() == 0,
        secs > 0 && end_ms > start_ms ==> out@.len() > 0 && parts_total(out@) == secs,
        forall|i: int| 0 <= i < out@.len() ==> (#[trigger] out@[i]).2 > 0 && 0 <= out@[i].1 <= 23,
        secs > 0 && end_ms > start_ms ==> exists|cuts: Seq<HourCut>|
            #[trigger] hour_cuts_of(cuts, start_ms, end_ms) && (if cut_parts(cuts, end_ms, secs as int).len() > 0 {
                dated_parts(
                    out@,
                    with_remainder(cut_parts(cuts, end_ms, secs as int), cut_left(cuts, end_ms, secs as int)),
                )
            } else {
                out@.len() == 1
            }),
        exists|ps: Seq<(Date, int, int)>|
            #[trigger] dated_parts(out@, ps) && parts_ascending(ps) && forall|k: int|
                0 <= k < ps.len() ==> (#[trigger] ps[k]).0.wf() && 0 <= ps[k].1 < 24,
{
    let mut out: Vec<(String, i64, i64)> = Vec::new();
    if secs == 0 || end_ms <= start_ms {
        proof {
            assert(dated_parts(out@, Seq::<(Date, int, int)>::empty()));
        }
        return out;
    }
    let mut cuts: Vec<HourCut> = Vec::new();
    let mut remaining = secs;
    let mut cur = start_ms;
    while cur < end_ms && remaining > 0
        invariant
            start_ms < end_ms,
            remaining <= secs,
            cur <= end_ms,
            hour_cuts_of(cuts@, start_ms, end_ms),
            cuts@.len() == 0 ==> cur == start_ms,
            cuts@.len() > 0 ==> cur == cut_end(cuts@.last(), end_ms),
        decreases end_ms - cur,
    {
        let (date, hour) = match local_hour_of(cur) {
            Some(x) => x,
            None => break,
        };
        let n = cuts.len();
        if n > 0 {
            let p = cuts[n - 1];
            let dd = date::days_between(date, p.date);
            if !(dd > 0 || (dd == 0 && hour > p.hour)) {
                break;
            }
        }
        let next_ms: u64 = match next_hour_boundary(cur) {
            Some(x) => if x < 0 {
                0
            } else {
                x as u64
            },
            None => end_ms,
        };
        let seg_end = if next_ms < end_ms {
            next_ms
        } else {
            end_ms
        };
        if seg_end <= cur {
            break;
        }
        let c = HourCut { at_ms: cur, date, hour, next_ms };
        let ghost before = cuts@;
        cuts.push(c);
        proof {
            assert(cuts@.drop_last() == before);
            assert forall|k: int| 0 <= k < cuts@.len() implies (#[trigger] cuts@[k]).date.wf() && cuts@[k].hour
                < 24 && cuts@[k].at_ms < cut_end(cuts@[k], end_ms) by {
                if k < before.len() {
                    assert(cuts@[k] == before[k]);
                }
            }
            assert forall|k: int| 0 <= k < cuts@.len() - 1 implies (#[trigger] cuts@[k + 1]).at_ms == cut_end(
                cuts@[k],
                end_ms,
            ) by {
                assert(cuts@[k] == before[k]);
                if k + 1 < before.len() {
                    assert(cuts@[k + 1] == before[k + 1]);
                }
            }
            assert forall|i: int, j: int| 0 <= i < j < cuts@.len() implies hour_before(
                #[trigger] cuts@[i].date,
                cuts@[i].hour as int,
                #[trigger] cuts@[j].date,
                cuts@[j].hour as int,
            ) by {
                assert(cuts@[i] == before[i]);
                if j < before.len() {
                    assert(cuts@[j] == before[j]);
                } else if i < n - 1 {
                    assert(hour_before(before[i].date, before[i].hour as int, before[n - 1].date, before[n - 1].hour as int));
                }
            }
        }
        let avail = (seg_end - cur) / 1000;
        let s = if avail < remaining {
            avail
        } else {
            remaining
        };
        remaining = remaining - s;
        cur = seg_end;
    }
    proof {
        assert forall|k: int| 0 <= k < cuts@.len() implies (#[trigger] cuts@[k]).date.wf() by {
            assert(cuts@[k].date.wf() && cuts@[k].hour < 24 && cuts@[k].at_ms < cut_end(cuts@[k], end_ms));
        }
    }
    out = split_at_cuts(&cuts, end_ms, secs);
    proof {
        lemma_parts_after(cuts@, end_ms, secs as int, Date { year: 0, month: 1, day: 1 }, 0, false);
        lemma_parts_ascending(cuts@, end_ms, secs as int);
        let ps = cut_parts(cuts@, end_ms, secs as int);
        let pr = with_remainder(ps, cut_left(cuts@, end_ms, secs as int));
        assert forall|k: int| 0 <= k < pr.len() implies (#[trigger] pr[k]).0.wf() && 0 <= pr[k].1 < 24 by {
            assert(pr[k].0 == ps[k].0 && pr[k].1 == ps[k].1);
        }
        assert forall|i: int, j: int| 0 <= i < j < pr.len() implies hour_before(
            #[trigger] pr[i].0,
            pr[i].1,
            #[trigger] pr[j].0,
            pr[j].1,
        ) by {
            assert(pr[i].0 == ps[i].0 && pr[i].1 == ps[i].1);
            assert(pr[j].0 == ps[j].0 && pr[j].1 == ps[j].1);
        }
        assert(dated_parts(out@, pr));
        assert(hour_cuts_of(cuts@, start_ms, end_ms));
    }
    if out.len() == 0 {
        let (d, h) = match local_hour_of(start_ms) {
            Some(x) => x,
            None => {
                let now = local_now();
                (now.date, now.hour)
            },
        };
        out.push((format_ymd(d), h as i64, secs as i64));
        proof {
            let ps1 = seq![(d, h as int, secs as int)];
            assert(dated_parts(out@, ps1));
            assert(parts_ascending(ps1));
            assert(out@.drop_last() == Seq::<(String, i64, i64)>::empty());
            assert(parts_total(out@.drop_last()) == 0);
            assert(parts_total(out@) == secs);
            assert(hour_cuts_of(cuts@, start_ms, end_ms));
        }
    }
    out
}

/// Seconds per hour of the day from (hour, seconds) rows: the last row of each hour,
/// rows outside 0..24 ignored, hours without rows 0.
pub open spec fn hour_value(rows: Seq<(i64, i64)>, h: int) -> i64
    decreases rows.len(),
{
    if rows.len() == 0 {
        0
    } else if rows.last().0 == h {
        rows.last().1
    } else {
        hour_value(rows.drop_last(), h)
    }
}

/// The 24 hourly values of the rows.
pub fn hourly_buckets(rows: &Vec<(i64, i64)>) -> (r: Vec<i64>)
    ensures
        r@.len() == 24,
        forall|h: int| 0 <= h < 24 ==> r@[h] == hour_value(rows@, h),
{
    let mut out: Vec<i64> = Vec::new();
    let mut k: usize = 0;
    while k < 24
        invariant
            k <= 24,
            out@.len() == k,
            forall|h: int| 0 <= h < k ==> out@[h] == 0,
        decreases 24 - k,
    {
        out.push(0);
        k += 1;
    }
    let mut i: usize = 0;
    while i < rows.len()
        invariant
            i <= rows@.len(),
            out@.len() == 24,
            forall|h: int| 0 <= h < 24 ==> out@[h] == hour_value(rows@.subrange(0, i as int), h),
        decreases rows@.len() - i,
    {
        let (h, v) = rows[i];
        proof {
            let post = rows@.subrange(0, i + 1);
            assert(post.drop_last() == rows@.subrange(0, i as int));
            assert(post.last() == rows@[i as int]);
        }
        if 0 <= h && h < 24 {
            out.set(h as usize, v);
        }
        i += 1;
    }
    proof {
        assert(rows@.subrange(0, rows@.len() as int) == rows@);
    }
    out
}

/// One application of the day's summary.
#[derive(Clone, Debug)]
pub struct AppUsageItem {
    pub app: String,
    pub seconds: i64,
    /// Icon as a PNG data URL, when one is cached.
    pub icon: Option<String>,
}

/// The day's application time.
#[derive(Clone, Debug)]
pub struct AppUsageSummary {
    /// `YYYY-MM-DD`
    pub date: String,
    /// Applications, longest first.
    pub apps: Vec<AppUsageItem>,
    /// Seconds per hour of the day.
    pub hourly: Vec<i64>,
    /// Foreground monitoring works.
    pub watch_ok: bool,
}

/// Switches monitoring on or off.
pub fn set_enabled(flag: &mut bool, v: bool)
    ensures
        *final(flag) == v,
{
    *flag = v;
}

/// Character of a 6-bit value in the standard base64 alphabet.
pub open spec fn b64_char(v: int) -> char {
    if v < 26 {
        (('A' as int) + v) as char
    } else if v < 52 {
        (('a' as int) + (v - 26)) as char
    } else if v < 62 {
        (('0' as int) + (v - 52)) as char
    } else if v == 62 {
        '+'
    } else {
        '/'
    }
}

/// Standard base64 with `=` padding (RFC 4648): every three bytes become four characters.
pub open spec fn base64_text(s: Seq<u8>) -> Seq<char>
    decreases s.len(),
{
    if s.len() == 0 {
        Seq::empty()
    } else {
        let b0 = s[0] as int;
        let b1 = if s.len() > 1 { s[1] as int } else { 0 };
        let b2 = if s.len() > 2 { s[2] as int } else { 0 };
        let c0 = b64_char(b0 / 4);
        let c1 = b64_char((b0 % 4) * 16 + b1 / 16);
        let c2 = b64_char((b1 % 16) * 4 + b2 / 64);
        let c3 = b64_char(b2 % 64);
        if s.len() == 1 {
            seq![c0, c1, '=', '=']
        } else if s.len() == 2 {
            seq![c0, c1, c2, '=']
        } else {
            seq![c0, c1, c2, c3] + base64_text(s.skip(3))
        }
    }
}

/// base64 `STANDARD.encode` (standard alphabet, padded).
#[verifier::external_body]
fn base64_encode(bytes: &[u8]) -> (r: String)
    requires
        bytes@.len() <= usize::MAX / 2,
    ensures
        r@ == base64_text(bytes@),
{
    base64::Engine::encode(&base64::engine::general_purpose::STANDARD, bytes)
}

/// `data:image/png;base64,...` of PNG bytes.
pub fn png_data_url(png: &[u8]) -> (r: String)
    requires
        png@.len() <= usize::MAX / 2,
    ensures
        r@ == "data:image/png;base64,"@ + base64_text(png@),
{
    let mut s = String::from_str("data:image/png;base64,");
    let b = base64_encode(png);
    s.append(b.as_str());
    s
}

/// PNG file the `png` crate writes for an 8-bit RGBA picture (signature, header, the
/// filtered and compressed rows, end); a function of the picture alone.
pub uninterp spec fn png_rgba8(width: u32, height: u32, rgba: Seq<u8>) -> Seq<u8>;

/// The PNG signature every file starts with.
pub open spec fn png_signature() -> Seq<u8> {
    seq![137u8, 80, 78, 71, 13, 10, 26, 10]
}

/// png `Encoder` for 8-bit RGBA, header then image data, written to memory. Dimensions
/// are positive and the buffer holds the picture, so neither step fails.
#[verifier::external_body]
fn encode_png(width: u32, height: u32, rgba: &[u8]) -> (r: Vec<u8>)
    requires
        0 < width <= crate::win::MAX_ICON_PX,
        0 < height <= crate::win::MAX_ICON_PX,
        rgba@.len() == width * height * 4,
    ensures
        r@ == png_rgba8(width, height, rgba@),
        r@.len() >= 8,
        r@.subrange(0, 8) == png_signature(),
{
    let mut out: Vec<u8> = Vec::new();
    {
        let mut enc = png::Encoder::new(&mut out, width, height);
        enc.set_color(png::ColorType::Rgba);
        enc.set_depth(png::BitDepth::Eight);
        let mut writer = enc.write_header().unwrap();
        writer.write_image_data(rgba).unwrap();
    }
    out
}

/// The PNG file of an icon; `None` for an empty picture.
pub fn icon_png(icon: &crate::win::IconRgba) -> (r: Option<Vec<u8>>)
    requires
        icon.wf(),
        icon.width <= crate::win::MAX_ICON_PX,
        icon.height <= crate::win::MAX_ICON_PX,
    ensures
        (icon.width > 0 && icon.height > 0) <==> r is Some,
        r matches Some(v) ==> v@ == png_rgba8(icon.width, icon.height, icon.rgba@) && v@.subrange(0, 8)
            == png_signature(),
{
    if icon.width == 0 || icon.height == 0 {
        return None;
    }
    Some(encode_png(icon.width, icon.height, icon.rgba.as_slice()))
}

} // verus!
