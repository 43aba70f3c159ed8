//! Application settings. Money amounts are a type parameter `M`: the library
//! only moves them around, it never computes with them.

use crate::clock;
use crate::clock::{chars_of, decimal_string, new_string, push_char, push_chars, push_pad2};
use crate::date::local_now;
use vstd::prelude::*;
use vstd::string::*;

verus! {

/// All persisted settings.
#[derive(Clone, Debug)]
pub struct Config<M> {
    /// Monthly salary.
    pub monthly_salary: M,
    /// Morning start `HH:MM`.
    pub am_start: String,
    /// Morning end `HH:MM`.
    pub am_end: String,
    /// Afternoon start `HH:MM`.
    pub pm_start: String,
    /// Afternoon end `HH:MM`.
    pub pm_end: String,
    /// Manual override of this month's workday count.
    pub workdays_override: Option<u32>,
    /// The `YYYY-MM` month the override belongs to.
    pub workdays_override_for: Option<String>,
    /// Pay day of the month (1-31).
    pub payday: u32,
    /// Duration layout: `hms`, `hm` or decimal hours.
    pub duration_format: String,
    /// Show the coloured hover card instead of the system tooltip.
    pub tray_hover_card: bool,
    /// Overtime tracking switch.
    pub overtime_enabled: bool,
    /// Overtime start `HH:MM` on workdays (None = afternoon end).
    pub overtime_start: Option<String>,
    /// Overtime pay per hour.
    pub overtime_rate: M,
    /// Meal allowance switch.
    pub overtime_meal_enabled: bool,
    /// Meal allowance amount.
    pub overtime_meal: M,
    /// Count overtime on rest days and public holidays.
    pub weekend_overtime: bool,
    /// Overtime start on rest days (None = 09:00).
    pub weekend_ot_start: Option<String>,
    /// Rest-day rate (None = workday rate).
    pub overtime_rate_weekend: Option<M>,
    /// Holiday rate (None = rest-day rate, then workday rate).
    pub overtime_rate_holiday: Option<M>,
    /// Only count whitelisted applications.
    pub app_whitelist_enabled: bool,
    /// Application display names counted when the whitelist is on.
    pub app_whitelist: Vec<String>,
    /// Mouse/keyboard activity monitoring.
    pub monitor_activity: bool,
    /// Foreground application monitoring.
    pub monitor_app_usage: bool,
    /// Audio playback monitoring.
    pub monitor_audio: bool,
    /// Subtitle style of the home page.
    pub tagline_style: String,
    /// Custom subtitle text.
    pub tagline_custom: String,
    /// Days of history kept (0 = forever).
    pub retention_days: u32,
    /// Sedentary reminder switch.
    pub remind_sedentary_enabled: bool,
    /// Minutes of continuous activity before a sedentary reminder.
    pub remind_sedentary_minutes: u32,
    /// Off-work reminder switch.
    pub remind_offwork_enabled: bool,
}

pub fn default_true() -> (r: bool)
    ensures
        r,
{
    true
}

pub fn default_overtime_meal_enabled() -> (r: bool)
    ensures
        r,
{
    true
}

/// `hms`
pub fn default_duration_format() -> (r: String)
    ensures
        r@ == seq!['h', 'm', 's'],
{
    let mut s = new_string();
    push_char(&mut s, 'h');
    push_char(&mut s, 'm');
    push_char(&mut s, 's');
    s
}

/// `dynamic`
pub fn default_tagline_style() -> (r: String)
    ensures
        r@ == seq!['d', 'y', 'n', 'a', 'm', 'i', 'c'],
{
    let mut s = new_string();
    push_chars(&mut s, &['d', 'y', 'n', 'a', 'm', 'i', 'c']);
    s
}

/// `HH:MM` text of a whole hour and minute.
pub fn hm_literal(h: u64, m: u64) -> (r: String)
    requires
        h < 100,
        m < 60,
    ensures
        r@ == clock::pad2(h as nat) + seq![':'] + clock::pad2(m as nat),
{
    let mut s = new_string();
    push_pad2(&mut s, h);
    push_char(&mut s, ':');
    push_pad2(&mut s, m);
    s
}

impl<M> Config<M> {
    /// Default settings with the given money amounts (salary, overtime rate, meal).
    pub fn with_amounts(monthly_salary: M, overtime_rate: M, overtime_meal: M) -> (r: Self)
        ensures
            r.monthly_salary == monthly_salary,
            r.overtime_rate == overtime_rate,
            r.overtime_meal == overtime_meal,
            r.am_start@ == clock::hm_text(9 * 3600),
            r.am_end@ == clock::hm_text(12 * 3600),
            r.pm_start@ == clock::hm_text(13 * 3600),
            r.pm_end@ == clock::hm_text(18 * 3600),
            r.workdays_override is None,
            r.workdays_override_for is None,
            r.payday == 10,
            r.duration_format@ == seq!['h', 'm', 's'],
            r.tray_hover_card,
            !r.overtime_enabled,
            r.overtime_start is None,
            r.overtime_meal_enabled,
            !r.weekend_overtime,
            r.weekend_ot_start is None,
            r.overtime_rate_weekend is None,
            r.overtime_rate_holiday is None,
            !r.app_whitelist_enabled,
            r.app_whitelist@.len() == 0,
            r.monitor_activity,
            r.monitor_app_usage,
            r.monitor_audio,
            r.tagline_style@ == seq!['d', 'y', 'n', 'a', 'm', 'i', 'c'],
            r.tagline_custom@.len() == 0,
            r.retention_days == 0,
            r.remind_sedentary_enabled,
            r.remind_sedentary_minutes == 50,
            r.remind_offwork_enabled,
    {
        Config {
            monthly_salary,
            am_start: hm_literal(9, 0),
            am_end: hm_literal(12, 0),
            pm_start: hm_literal(13, 0),
            pm_end: hm_literal(18, 0),
            workdays_override: None,
            workdays_override_for: None,
            payday: 10,
            duration_format: default_duration_format(),
            tray_hover_card: true,
            overtime_enabled: false,
            overtime_start: None,
            overtime_rate,
            overtime_meal_enabled: true,
            overtime_meal,
            weekend_overtime: false,
            weekend_ot_start: None,
            overtime_rate_weekend: None,
            overtime_rate_holiday: None,
            app_whitelist_enabled: false,
            app_whitelist: Vec::new(),
            monitor_activity: true,
            monitor_app_usage: true,
            monitor_audio: true,
            tagline_style: default_tagline_style(),
            tagline_custom: new_string(),
            retention_days: 0,
            remind_sedentary_enabled: true,
            remind_sedentary_minutes: 50,
            remind_offwork_enabled: true,
        }
    }
}

/// `n` zero-padded to at least `w` digits.
pub open spec fn zero_pad(n: nat, w: nat) -> Seq<char> {
    Seq::new((if w > clock::decimal(n).len() { w - clock::decimal(n).len() } else { 0 }) as nat, |_i: int| '0')
        + clock::decimal(n)
}

/// `{:04}-{:02}` of a year and month (a negative year keeps its sign inside the width).
pub open spec fn ym_text(y: int, m: nat) -> Seq<char> {
    (if y >= 0 {
        zero_pad(y as nat, 4)
    } else {
        seq!['-'] + zero_pad((-y) as nat, 3)
    }) + seq!['-'] + clock::pad2(m)
}

/// Appends `n` zero-padded to at least `w` digits.
pub fn push_zero_padded(s: &mut String, n: u64, w: u64)
    ensures
        final(s)@ == old(s)@ + zero_pad(n as nat, w as nat),
{
    let digits = decimal_string(n);
    let len = digits.unicode_len() as u64;
    let pad = if w > len {
        w - len
    } else {
        0
    };
    let mut i: u64 = 0;
    let ghost start = s@;
    while i < pad
        invariant
            i <= pad,
            s@ == start + Seq::new(i as nat, |_k: int| '0'),
        decreases pad - i,
    {
        push_char(s, '0');
        proof {
            assert(Seq::new((i + 1) as nat, |_k: int| '0') == Seq::new(i as nat, |_k: int| '0').push('0'));
        }
        i += 1;
    }
    push_chars(s, chars_of(digits.as_str()).as_slice());
}

/// The `YYYY-MM` key of a month.
pub fn ym_string(y: i32, m: u32) -> (r: String)
    ensures
        r@ == ym_text(y as int, m as nat),
{
    let mut s = new_string();
    if y >= 0 {
        push_zero_padded(&mut s, y as u64, 4);
    } else {
        push_char(&mut s, '-');
        let a: u64 = (-(y as i64)) as u64;
        push_zero_padded(&mut s, a, 3);
    }
    push_char(&mut s, '-');
    push_pad2(&mut s, m as u64);
    s
}

/// Override in force for a month: the override of that month, or an unstamped one.
pub open spec fn effective_override_spec(
    n: Option<u32>,
    stamp: Option<Seq<char>>,
    y: int,
    m: nat,
) -> Option<u32> {
    match n {
        None => None,
        Some(v) => match stamp {
            Some(ym) => if ym == ym_text(y, m) { Some(v) } else { None },
            None => Some(v),
        },
    }
}

pub open spec fn opt_view(s: Option<String>) -> Option<Seq<char>> {
    match s {
        Some(t) => Some(t@),
        None => None,
    }
}

/// The workday override, only when it belongs to the given month (or carries no month).
pub fn effective_workdays_override<M>(cfg: &Config<M>, year: i32, month: u32) -> (r: Option<u32>)
    ensures
        r == effective_override_spec(
            cfg.workdays_override,
            opt_view(cfg.workdays_override_for),
            year as int,
            month as nat,
        ),
{
    let n = match cfg.workdays_override {
        Some(n) => n,
        None => return None,
    };
    match &cfg.workdays_override_for {
        Some(for_ym) => {
            let ym = ym_string(year, month);
            if *for_ym == ym {
                Some(n)
            } else {
                None
            }
        },
        None => Some(n),
    }
}

/// Month stamp of an override after stamping at (`y`, `m`): an unstamped override gets
/// that month, anything else is kept.
pub open spec fn stamped(n: Option<u32>, stamp: Option<Seq<char>>, y: int, m: nat) -> Option<Seq<char>> {
    if n is Some && stamp is None {
        Some(ym_text(y, m))
    } else {
        stamp
    }
}

/// An override is stamped once: stamping again, in any month, keeps the first stamp;
/// the stamped override serves its own month and no month with another key.
pub proof fn law_stamp_once(n: Option<u32>, stamp: Option<Seq<char>>, y: int, m: nat, y2: int, m2: nat)
    ensures
        stamped(n, stamped(n, stamp, y, m), y2, m2) == stamped(n, stamp, y, m),
        stamp is None ==> effective_override_spec(n, stamped(n, stamp, y, m), y, m) == n,
        stamp is None && ym_text(y2, m2) != ym_text(y, m) ==> effective_override_spec(
            n,
            stamped(n, stamp, y, m),
            y2,
            m2,
        ) is None,
{
}

/// Stamps an unstamped override with the given month; true when it changed.
pub fn stamp_override_month_at<M>(cfg: &mut Config<M>, year: i32, month: u32) -> (changed: bool)
    ensures
        changed == (old(cfg).workdays_override is Some && old(cfg).workdays_override_for is None),
        opt_view(final(cfg).workdays_override_for) == stamped(
            old(cfg).workdays_override,
            opt_view(old(cfg).workdays_override_for),
            year as int,
            month as nat,
        ),
        !changed ==> final(cfg).workdays_override_for == old(cfg).workdays_override_for,
        final(cfg).workdays_override == old(cfg).workdays_override,
        final(cfg).monthly_salary == old(cfg).monthly_salary,
        final(cfg).payday == old(cfg).payday,
{
    if cfg.workdays_override.is_some() && cfg.workdays_override_for.is_none() {
        cfg.workdays_override_for = Some(ym_string(year, month));
        true
    } else {
        false
    }
}

/// Stamps an unstamped override with the current local month; true when it changed.
pub fn stamp_override_month<M>(cfg: &mut Config<M>) -> (changed: bool)
    ensures
        changed == (old(cfg).workdays_override is Some && old(cfg).workdays_override_for is None),
        !changed ==> final(cfg).workdays_override_for == old(cfg).workdays_override_for,
        changed ==> final(cfg).workdays_override_for is Some,
        final(cfg).workdays_override == old(cfg).workdays_override,
{
    let now = local_now();
    stamp_override_month_at(cfg, now.date.year, now.date.month)
}

} // verus!
