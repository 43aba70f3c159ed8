//! Reminders: the sedentary reminder (continuous activity past a threshold,
//! with a cool-down) and the once-a-day off-work reminder. Times are wall-clock
//! milliseconds; the texts are built here, sending them is the caller's part.

use crate::clock::push_decimal;
use crate::date::Date;
use vstd::prelude::*;
use vstd::string::*;

verus! {

/// Five minutes without input count as a rest: continuous activity restarts.
pub const IDLE_REST_MS: i64 = 300_000;

/// No second sedentary reminder within five minutes.
pub const REMIND_COOLDOWN_MS: i64 = 300_000;

/// Largest threshold in minutes whose milliseconds fit in 64 bits.
pub const MAX_THRESHOLD_MIN: i64 = 153_722_867_280_912;

/// `a - b`, clamped to the 64-bit range.
pub open spec fn sat_sub(a: i64, b: i64) -> i64 {
    if a - b > i64::MAX {
        i64::MAX
    } else if a - b < i64::MIN {
        i64::MIN
    } else {
        (a - b) as i64
    }
}

fn saturating_diff(a: i64, b: i64) -> (r: i64)
    ensures
        r == sat_sub(a, b),
{
    let d: i128 = a as i128 - b as i128;
    if d > i64::MAX as i128 {
        i64::MAX
    } else if d < i64::MIN as i128 {
        i64::MIN
    } else {
        d as i64
    }
}

/// The time of the last input on the signed clock (values past `i64::MAX` wrap).
pub open spec fn input_time(last_input_ms: u64) -> i64 {
    if last_input_ms > i64::MAX as u64 {
        (last_input_ms - 0x1_0000_0000_0000_0000) as i64
    } else {
        last_input_ms as i64
    }
}

fn input_time_of(last_input_ms: u64) -> (r: i64)
    ensures
        r == input_time(last_input_ms),
{
    if last_input_ms > i64::MAX as u64 {
        (last_input_ms as i128 - 0x1_0000_0000_0000_0000i128) as i64
    } else {
        last_input_ms as i64
    }
}

/// A sedentary reminder is due: not paused or locked, a running activity period, input
/// within the last five minutes, the period at least the threshold (at least one
/// minute), and no reminder within the cool-down (never reminded counts as none).
pub open spec fn should_remind_spec(
    now_ms: i64,
    active_since_ms: i64,
    last_input_ms: u64,
    paused: bool,
    away: bool,
    threshold_min: i64,
    last_remind_ms: i64,
) -> bool {
    let threshold = (if threshold_min < 1 { 1 } else { threshold_min }) * 60_000;
    &&& !paused
    &&& !away
    &&& active_since_ms > 0
    &&& sat_sub(now_ms, input_time(last_input_ms)) < IDLE_REST_MS
    &&& sat_sub(now_ms, active_since_ms) >= threshold
    &&& (last_remind_ms <= 0 || sat_sub(now_ms, last_remind_ms) >= REMIND_COOLDOWN_MS)
}

/// Everything but the length of the activity period allows a sedentary reminder: not
/// paused or locked, a running period, input within five minutes, and no reminder within
/// the cool-down (or none yet).
pub open spec fn sedentary_gates_open(
    now_ms: i64,
    active_since_ms: i64,
    last_input_ms: u64,
    paused: bool,
    away: bool,
    last_remind_ms: i64,
) -> bool {
    &&& !paused
    &&& !away
    &&& active_since_ms > 0
    &&& sat_sub(now_ms, input_time(last_input_ms)) < IDLE_REST_MS
    &&& (last_remind_ms <= 0 || sat_sub(now_ms, last_remind_ms) >= REMIND_COOLDOWN_MS)
}

/// With the other conditions met, the reminder is due exactly when the activity period
/// has lasted the threshold (in minutes, at least one) or longer; a smaller threshold is
/// due whenever a larger one is; nothing is due while paused, locked or idle.
pub proof fn law_sedentary_threshold(
    now_ms: i64,
    active_since_ms: i64,
    last_input_ms: u64,
    paused: bool,
    away: bool,
    threshold_min: i64,
    last_remind_ms: i64,
)
    ensures
        sedentary_gates_open(now_ms, active_since_ms, last_input_ms, paused, away, last_remind_ms)
            && threshold_min >= 1 && now_ms >= active_since_ms ==> (should_remind_spec(
            now_ms,
            active_since_ms,
            last_input_ms,
            paused,
            away,
            threshold_min,
            last_remind_ms,
        ) <==> now_ms - active_since_ms >= threshold_min * 60_000),
        threshold_min < 1 ==> should_remind_spec(
            now_ms,
            active_since_ms,
            last_input_ms,
            paused,
            away,
            threshold_min,
            last_remind_ms,
        ) == should_remind_spec(now_ms, active_since_ms, last_input_ms, paused, away, 1, last_remind_ms),
        forall|smaller: i64|
            1 <= smaller <= threshold_min && should_remind_spec(
                now_ms,
                active_since_ms,
                last_input_ms,
                paused,
                away,
                threshold_min,
                last_remind_ms,
            ) ==> #[trigger] should_remind_spec(
                now_ms,
                active_since_ms,
                last_input_ms,
                paused,
                away,
                smaller,
                last_remind_ms,
            ),
        paused || away || sat_sub(now_ms, input_time(last_input_ms)) >= IDLE_REST_MS ==> !should_remind_spec(
            now_ms,
            active_since_ms,
            last_input_ms,
            paused,
            away,
            threshold_min,
            last_remind_ms,
        ),
{
}

/// Whether a sedentary reminder is due.
pub fn should_remind(
    now_ms: i64,
    active_since_ms: i64,
    last_input_ms: u64,
    paused: bool,
    away: bool,
    threshold_min: i64,
    last_remind_ms: i64,
) -> (r: bool)
    requires
        threshold_min <= MAX_THRESHOLD_MIN,
    ensures
        r == should_remind_spec(
            now_ms,
            active_since_ms,
            last_input_ms,
            paused,
            away,
            threshold_min,
            last_remind_ms,
        ),
        sedentary_gates_open(now_ms, active_since_ms, last_input_ms, paused, away, last_remind_ms)
            && threshold_min >= 1 && now_ms >= active_since_ms ==> (r <==> now_ms - active_since_ms
            >= threshold_min * 60_000),
{
    proof {
        law_sedentary_threshold(now_ms, active_since_ms, last_input_ms, paused, away, threshold_min, last_remind_ms);
    }
    if paused || away || active_since_ms <= 0 {
        return false;
    }
    if saturating_diff(now_ms, input_time_of(last_input_ms)) >= IDLE_REST_MS {
        return false;
    }
    let threshold = (if threshold_min < 1 {
        1
    } else {
        threshold_min
    }) * 60_000;
    if saturating_diff(now_ms, active_since_ms) < threshold {
        return false;
    }
    last_remind_ms <= 0 || saturating_diff(now_ms, last_remind_ms) >= REMIND_COOLDOWN_MS
}

/// The off-work reminder is due: not yet today, a workday, past the afternoon end and
/// some monitoring record today (times in seconds of the day).
pub fn should_remind_offwork(
    today_done: bool,
    is_workday: bool,
    now_secs: u64,
    pm_end_secs: u64,
    has_record_today: bool,
) -> (r: bool)
    ensures
        r == (!today_done && is_workday && now_secs >= pm_end_secs && has_record_today),
{
    !today_done && is_workday && now_secs >= pm_end_secs && has_record_today
}

/// The reminder state: start of the running activity period (0 = none), time of the
/// last sedentary reminder (0 = never), and whether the off-work reminder fired on `date`.
#[derive(Clone, Copy, Debug, PartialEq, Eq, Structural)]
pub struct RemindState {
    pub sed_since: i64,
    pub last_sed_remind: i64,
    pub offwork_done: bool,
    pub offwork_date: Option<Date>,
}

impl RemindState {
    /// Nothing running, nothing sent.
    pub fn new() -> (r: Self)
        ensures
            r.sed_since == 0,
            r.last_sed_remind == 0,
            !r.offwork_done,
            r.offwork_date is None,
    {
        RemindState { sed_since: 0, last_sed_remind: 0, offwork_done: false, offwork_date: None }
    }

    /// Start of the activity period after a tick: cleared when paused, locked or idle
    /// five minutes, started at `now` when none runs, else kept.
    pub open spec fn since_after(self, now_ms: i64, last_input_ms: u64, paused: bool, away: bool) -> i64 {
        if paused || away || sat_sub(now_ms, input_time(last_input_ms)) >= IDLE_REST_MS {
            0
        } else if self.sed_since == 0 {
            now_ms
        } else {
            self.sed_since
        }
    }

    /// Whether a sedentary tick at `now_ms` fires.
    pub open spec fn sedentary_fires(
        self,
        enabled: bool,
        now_ms: i64,
        last_input_ms: u64,
        paused: bool,
        away: bool,
        threshold_min: i64,
    ) -> bool {
        enabled && should_remind_spec(
            now_ms,
            self.since_after(now_ms, last_input_ms, paused, away),
            last_input_ms,
            paused,
            away,
            threshold_min,
            self.last_sed_remind,
        )
    }

    /// One sedentary tick at `now_ms`; true when the reminder fires (the period then
    /// restarts and the cool-down begins). A switched-off reminder only clears the period.
    pub fn sedentary_tick(
        &mut self,
        enabled: bool,
        now_ms: i64,
        last_input_ms: u64,
        paused: bool,
        away: bool,
        threshold_min: i64,
    ) -> (fire: bool)
        requires
            threshold_min <= MAX_THRESHOLD_MIN,
        ensures
            fire == old(self).sedentary_fires(enabled, now_ms, last_input_ms, paused, away, threshold_min),
            !enabled ==> *final(self) == (RemindState { sed_since: 0, ..*old(self) }),
            enabled && fire ==> *final(self) == (RemindState {
                sed_since: 0,
                last_sed_remind: now_ms,
                ..*old(self)
            }),
            enabled && !fire ==> *final(self) == (RemindState {
                sed_since: old(self).since_after(now_ms, last_input_ms, paused, away),
                ..*old(self)
            }),
    {
        if !enabled {
            self.sed_since = 0;
            return false;
        }
        let idle = saturating_diff(now_ms, input_time_of(last_input_ms));
        if paused || away || idle >= IDLE_REST_MS {
            self.sed_since = 0;
        } else if self.sed_since == 0 {
            self.sed_since = now_ms;
        }
        let fire = should_remind(
            now_ms,
            self.sed_since,
            last_input_ms,
            paused,
            away,
            threshold_min,
            self.last_sed_remind,
        );
        if fire {
            self.sed_since = 0;
            self.last_sed_remind = now_ms;
        }
        fire
    }

    /// State and outcome of an off-work tick on `today`.
    pub open spec fn offwork_step(
        self,
        today: Date,
        enabled: bool,
        is_workday: bool,
        now_secs: u64,
        pm_end_secs: u64,
        has_record_today: bool,
    ) -> (RemindState, bool) {
        let done = self.offwork_done && self.offwork_date == Some(today);
        let fire = !done && enabled && is_workday && now_secs >= pm_end_secs && has_record_today;
        (RemindState { offwork_date: Some(today), offwork_done: done || fire, ..self }, fire)
    }

    /// One off-work tick on `today`: a new day clears the sent mark; the reminder fires
    /// once a day when enabled, on a workday, past the afternoon end, with a record today.
    pub fn offwork_tick(
        &mut self,
        today: Date,
        enabled: bool,
        is_workday: bool,
        now_secs: u64,
        pm_end_secs: u64,
        has_record_today: bool,
    ) -> (fire: bool)
        ensures
            (*final(self), fire) == old(self).offwork_step(
                today,
                enabled,
                is_workday,
                now_secs,
                pm_end_secs,
                has_record_today,
            ),
    {
        if self.offwork_date != Some(today) {
            self.offwork_date = Some(today);
            self.offwork_done = false;
        }
        if self.offwork_done || !enabled {
            return false;
        }
        if !should_remind_offwork(self.offwork_done, is_workday, now_secs, pm_end_secs, has_record_today) {
            return false;
        }
        self.offwork_done = true;
        true
    }

    /// Clears every reminder mark.
    pub fn reset_state(&mut self)
        ensures
            *final(self) == RemindState::new_spec(),
    {
        self.offwork_done = false;
        self.offwork_date = None;
        self.last_sed_remind = 0;
        self.sed_since = 0;
    }

    pub open spec fn new_spec() -> Self {
        RemindState { sed_since: 0, last_sed_remind: 0, offwork_done: false, offwork_date: None }
    }

    /// Moves the start of the activity period `minutes` (at least one) back from `now_ms`
    /// and clears the cool-down, so that the next tick sees a long period.
    pub fn force_sedentary_since(&mut self, now_ms: i64, minutes: i64)
        requires
            minutes <= MAX_THRESHOLD_MIN,
            now_ms - (if minutes < 1 { 1 } else { minutes }) * 60_000 >= i64::MIN,
        ensures
            final(self).sed_since == now_ms - (if minutes < 1 { 1 } else { minutes }) * 60_000,
            final(self).last_sed_remind == 0,
            final(self).offwork_done == old(self).offwork_done,
            final(self).offwork_date == old(self).offwork_date,
    {
        let back = (if minutes < 1 {
            1
        } else {
            minutes
        }) * 60_000;
        self.sed_since = now_ms - back;
        self.last_sed_remind = 0;
    }
}

/// No second sedentary reminder within the cool-down: while the last reminder lies
/// less than five minutes back, no tick fires. (The time of the last reminder only
/// changes when a tick fires, so this holds for every tick in between.)
pub proof fn law_sedentary_cooldown(
    s: RemindState,
    enabled: bool,
    now_ms: i64,
    last_input_ms: u64,
    paused: bool,
    away: bool,
    threshold_min: i64,
)
    requires
        s.last_sed_remind > 0,
        sat_sub(now_ms, s.last_sed_remind) < REMIND_COOLDOWN_MS,
    ensures
        !s.sedentary_fires(enabled, now_ms, last_input_ms, paused, away, threshold_min),
{
}

/// A sedentary reminder restarts the activity period: the very next tick does not
/// fire again, whatever its time.
pub proof fn law_sedentary_restarts(
    s: RemindState,
    now_ms: i64,
    last_input_ms: u64,
    paused: bool,
    away: bool,
    threshold_min: i64,
    now2: i64,
    input2: u64,
)
    requires
        s.sedentary_fires(true, now_ms, last_input_ms, paused, away, threshold_min),
    ensures
        !(RemindState { sed_since: 0, last_sed_remind: now_ms, ..s }).sedentary_fires(
            true,
            now2,
            input2,
            paused,
            away,
            threshold_min,
        ),
{
}

/// The off-work reminder fires at most once a day: after it fired on `today`, another
/// tick on the same day does not fire.
pub proof fn law_offwork_once_a_day(
    s: RemindState,
    today: Date,
    enabled: bool,
    is_workday: bool,
    now_secs: u64,
    pm_end_secs: u64,
    has_record_today: bool,
    enabled2: bool,
    is_workday2: bool,
    now2: u64,
    has_record2: bool,
)
    requires
        s.offwork_step(today, enabled, is_workday, now_secs, pm_end_secs, has_record_today).1,
    ensures
        !s.offwork_step(today, enabled, is_workday, now_secs, pm_end_secs, has_record_today).0.offwork_step(
            today,
            enabled2,
            is_workday2,
            now2,
            pm_end_secs,
            has_record2,
        ).1,
{
}

/// Decimal text of a signed number.
pub open spec fn signed_decimal(n: int) -> Seq<char> {
    if n < 0 {
        seq!['-'] + crate::clock::decimal((-n) as nat)
    } else {
        crate::clock::decimal(n as nat)
    }
}

/// Title and body of the sedentary reminder.
pub fn sedentary_texts(minutes: i64) -> (r: (String, String))
    ensures
        r.0@ == "该起来活动了"@,
        r.1@ == "已连续搬砖 "@ + signed_decimal(minutes as int) + " 分钟，起来喝口水 🐎"@,
{
    let title = String::from_str("该起来活动了");
    let mut body = String::from_str("已连续搬砖 ");
    if minutes < 0 {
        crate::clock::push_char(&mut body, '-');
        let a: u64 = (-(minutes as i128)) as u64;
        push_decimal(&mut body, a);
    } else {
        push_decimal(&mut body, minutes as u64);
    }
    body.append(" 分钟，起来喝口水 🐎");
    (title, body)
}

} // verus!
