//! The tray hover card as a state machine: the delayed show, the click
//! cooldown, the fade-out, the watchdog that hides the card once the cursor
//! has left, the overstay limit and the repeated show signal. The caller owns
//! the windows: it reports what it observed (cursor inside the active region,
//! card visible) and performs the effects each step returns. Times are
//! milliseconds of one monotonic clock.

use vstd::prelude::*;

verus! {

/// Delay before a card shows after the cursor enters the tray icon.
pub const HOVER_SHOW_DELAY_MS: u64 = 400;

/// After a click the card does not show for this long.
pub const CLICK_COOLDOWN_MS: u64 = 1500;

/// Watchdog period while the card is visible.
pub const WATCHDOG_INTERVAL_MS: u64 = 150;

/// A visible card is hidden after this long whatever else happens.
pub const MAX_VISIBLE_MS: u64 = 20000;

/// Time the fade-out animation gets before the window is hidden by force.
pub const FADE_MS: u64 = 450;

/// Clock values the controller accepts.
pub const TIME_LIMIT: u64 = 0x4000_0000_0000_0000;

/// Delays of the repeated show signal after the first one.
pub open spec fn retry_delay(i: int) -> u64 {
    if i == 0 {
        200
    } else if i == 1 {
        500
    } else if i == 2 {
        1000
    } else {
        1800
    }
}

/// Number of repeated show signals.
pub const RETRY_COUNT: usize = 4;

fn retry_delay_of(i: usize) -> (r: u64)
    requires
        i < RETRY_COUNT,
    ensures
        r == retry_delay(i as int),
{
    if i == 0 {
        200
    } else if i == 1 {
        500
    } else if i == 2 {
        1000
    } else {
        1800
    }
}

/// Stage of the card.
#[derive(Clone, Copy, Debug, PartialEq, Eq, Structural)]
pub enum Phase {
    /// Nothing shown, nothing scheduled.
    Hidden,
    /// The cursor entered; the card shows at `show_at` if nothing cancels it.
    Pending { show_at: u64 },
    /// Visible; `fading` while the fade-out runs, with the time the window is hidden by force.
    Shown { fading: bool, fade_deadline: Option<u64> },
}

/// Everything the hover card remembers. `P` is a screen position, `R` a rectangle.
#[derive(Clone, Copy, Debug)]
pub struct HoverController<P, R> {
    /// Anchor of the latest hover (used by a late page-ready signal and the delayed show).
    pub pending_pos: Option<P>,
    /// Time of the last click.
    pub last_click_ms: u64,
    /// Rectangle of the visible card.
    pub card_rect: Option<R>,
    pub phase: Phase,
    /// Consecutive watchdog polls that found the cursor outside.
    pub gone_polls: u32,
    /// When the card was shown.
    pub shown_at: Option<u64>,
    /// Base time and next index of the repeated show signal.
    pub retry_base: Option<u64>,
    pub retry_idx: usize,
}

/// A message from the tray or the card page. Enter and Move carry the anchor the
/// caller derived from the cursor position.
#[derive(Clone, Copy, Debug)]
pub enum HoverMsg<P> {
    Enter(P),
    Move(P),
    Leave,
    Click,
    DoubleClick,
    Ready,
    MenuHide,
}

/// What the caller observed just before a step.
#[derive(Clone, Copy, Debug)]
pub struct HoverObs {
    /// Cursor inside the tray icon or the card (padded); `None` when it could not be read.
    pub cursor_in_region: Option<bool>,
    /// The card window is visible.
    pub card_visible: bool,
}

/// What the caller does after a step.
#[derive(Clone, Copy, Debug)]
pub struct HoverEffects<P> {
    /// Try to show the card at this anchor, then report with `apply_show`.
    pub show: Option<P>,
    /// Push fresh data to the visible card.
    pub refresh_data: bool,
    /// Send the fade-out signal.
    pub emit_hide: bool,
    /// Hide the card window now.
    pub hide_window: bool,
    /// Send the show signal again.
    pub emit_show: bool,
    /// Open the main window.
    pub open_main: bool,
    /// The card stayed too long and was hidden.
    pub overstay: bool,
}

/// How an attempt to show ended: the card is switched off, its window could not be
/// made, or it is shown in the rectangle.
#[derive(Clone, Copy, Debug)]
pub enum ShowOutcome<R> {
    Disabled,
    NoWindow,
    Shown(R),
}

pub open spec fn no_effects<P>() -> HoverEffects<P> {
    HoverEffects {
        show: None,
        refresh_data: false,
        emit_hide: false,
        hide_window: false,
        emit_show: false,
        open_main: false,
        overstay: false,
    }
}

fn none_effects<P>() -> (r: HoverEffects<P>)
    ensures
        r == no_effects::<P>(),
{
    HoverEffects {
        show: None,
        refresh_data: false,
        emit_hide: false,
        hide_window: false,
        emit_show: false,
        open_main: false,
        overstay: false,
    }
}

/// Milliseconds from `b` to `a`, 0 when `a` is earlier.
pub open spec fn since(a: u64, b: u64) -> u64 {
    if a >= b {
        (a - b) as u64
    } else {
        0
    }
}

impl<P: Copy, R: Copy> HoverController<P, R> {
    /// Stored times stay within reach of the clock limit; counters stay small.
    pub open spec fn wf(self) -> bool {
        &&& self.gone_polls <= 1
        &&& self.retry_idx <= RETRY_COUNT
        &&& self.last_click_ms <= TIME_LIMIT
        &&& (self.phase matches Phase::Pending { show_at } ==> show_at <= TIME_LIMIT + CLICK_COOLDOWN_MS)
        &&& (self.phase matches Phase::Shown { fade_deadline: Some(d), .. } ==> d <= TIME_LIMIT + FADE_MS)
        &&& (self.shown_at matches Some(t) ==> t <= TIME_LIMIT)
        &&& (self.retry_base matches Some(t) ==> t <= TIME_LIMIT)
    }

    /// The idle controller.
    pub fn new() -> (r: Self)
        ensures
            r.wf(),
            r.phase == Phase::Hidden,
            r.pending_pos is None,
            r.card_rect is None,
            r.last_click_ms == 0,
            r.gone_polls == 0,
            r.shown_at is None,
            r.retry_base is None,
            r.retry_idx == 0,
    {
        HoverController {
            pending_pos: None,
            last_click_ms: 0,
            card_rect: None,
            phase: Phase::Hidden,
            gone_polls: 0,
            shown_at: None,
            retry_base: None,
            retry_idx: 0,
        }
    }

    /// Within the click cooldown at `now`.
    pub open spec fn cooldown_spec(self, now: u64) -> bool {
        since(now, self.last_click_ms) < CLICK_COOLDOWN_MS
    }

    pub fn in_click_cooldown(&self, now: u64) -> (r: bool)
        ensures
            r == self.cooldown_spec(now),
    {
        now.saturating_sub(self.last_click_ms) < CLICK_COOLDOWN_MS
    }

    /// Fade out: a visible card starts its fade-out with a forced hide 450 ms later,
    /// an invisible one is simply hidden.
    pub open spec fn hide_spec(self, visible: bool, now: u64) -> Self {
        if visible {
            HoverController {
                card_rect: None,
                phase: Phase::Shown { fading: true, fade_deadline: Some((now + FADE_MS) as u64) },
                ..self
            }
        } else {
            HoverController { card_rect: None, phase: Phase::Hidden, gone_polls: 0, ..self }
        }
    }

    /// Hide at once, without fade-out.
    pub open spec fn hide_instant_spec(self) -> Self {
        HoverController {
            card_rect: None,
            retry_base: None,
            retry_idx: 0,
            phase: Phase::Hidden,
            gone_polls: 0,
            ..self
        }
    }

    fn do_hide(&mut self, visible: bool, now: u64)
        requires
            now <= TIME_LIMIT,
        ensures
            *final(self) == old(self).hide_spec(visible, now),
    {
        self.card_rect = None;
        if visible {
            self.phase = Phase::Shown { fading: true, fade_deadline: Some(now + FADE_MS) };
            return;
        }
        self.phase = Phase::Hidden;
        self.gone_polls = 0;
    }

    fn do_hide_instant(&mut self)
        ensures
            *final(self) == old(self).hide_instant_spec(),
    {
        self.card_rect = None;
        self.retry_base = None;
        self.retry_idx = 0;
        self.phase = Phase::Hidden;
        self.gone_polls = 0;
    }

    /// State after a message.
    pub open spec fn handle_state(self, msg: HoverMsg<P>, now: u64, obs: HoverObs) -> Self {
        match msg {
            HoverMsg::Enter(a) => match self.phase {
                Phase::Pending { .. } => HoverController { pending_pos: Some(a), ..self },
                Phase::Shown { .. } => HoverController { pending_pos: Some(a), ..self },
                Phase::Hidden => HoverController {
                    pending_pos: Some(a),
                    phase: Phase::Pending {
                        show_at: if self.cooldown_spec(now) {
                            (now + (CLICK_COOLDOWN_MS - since(now, self.last_click_ms))) as u64
                        } else {
                            (now + HOVER_SHOW_DELAY_MS) as u64
                        },
                    },
                    ..self
                },
            },
            HoverMsg::Move(a) => match self.phase {
                Phase::Pending { .. } => HoverController { pending_pos: Some(a), ..self },
                _ => self,
            },
            HoverMsg::Leave => match self.phase {
                Phase::Pending { .. } => HoverController {
                    phase: Phase::Hidden,
                    pending_pos: None,
                    ..self
                },
                Phase::Shown { fading: false, .. } => if obs.cursor_in_region == Some(false) {
                    self.hide_spec(obs.card_visible, now)
                } else {
                    self
                },
                _ => self,
            },
            HoverMsg::Click => HoverController {
                last_click_ms: now,
                pending_pos: None,
                ..self
            }.hide_instant_spec(),
            HoverMsg::DoubleClick => HoverController { last_click_ms: now, ..self }.hide_spec(
                obs.card_visible,
                now,
            ),
            HoverMsg::Ready => self,
            HoverMsg::MenuHide => HoverController { pending_pos: None, ..self }.hide_instant_spec(),
        }
    }

    /// Effects of a message.
    pub open spec fn handle_effects(self, msg: HoverMsg<P>, now: u64, obs: HoverObs) -> HoverEffects<P> {
        match msg {
            HoverMsg::Enter(_) => HoverEffects {
                refresh_data: self.phase is Shown && obs.card_visible,
                ..no_effects()
            },
            HoverMsg::Move(_) => HoverEffects {
                refresh_data: self.phase is Shown && obs.card_visible,
                ..no_effects()
            },
            HoverMsg::Leave => HoverEffects {
                emit_hide: (self.phase matches Phase::Shown { fading: false, .. })
                    && obs.cursor_in_region == Some(false) && obs.card_visible,
                ..no_effects()
            },
            HoverMsg::Click => HoverEffects { emit_hide: true, hide_window: true, ..no_effects() },
            HoverMsg::DoubleClick => HoverEffects {
                emit_hide: obs.card_visible,
                open_main: true,
                ..no_effects()
            },
            HoverMsg::Ready => HoverEffects { show: self.pending_pos, ..no_effects() },
            HoverMsg::MenuHide => HoverEffects { emit_hide: true, hide_window: true, ..no_effects() },
        }
    }

    /// Handles one message. Repeated Enter events keep a pending deadline and never
    /// demote a visible card; Enter during the click cooldown schedules the card for
    /// the end of the cooldown; Click and MenuHide hide at once and forget the anchor.
    pub fn handle(&mut self, msg: HoverMsg<P>, now: u64, obs: HoverObs) -> (fx: HoverEffects<P>)
        requires
            old(self).wf(),
            now <= TIME_LIMIT,
        ensures
            final(self).wf(),
            *final(self) == old(self).handle_state(msg, now, obs),
            fx == old(self).handle_effects(msg, now, obs),
    {
        let mut fx = none_effects();
        match msg {
            HoverMsg::Enter(a) => {
                match self.phase {
                    Phase::Pending { .. } => {
                        self.pending_pos = Some(a);
                    },
                    Phase::Shown { .. } => {
                        self.pending_pos = Some(a);
                        fx.refresh_data = obs.card_visible;
                    },
                    Phase::Hidden => {
                        self.pending_pos = Some(a);
                        if self.in_click_cooldown(now) {
                            let remain = CLICK_COOLDOWN_MS - now.saturating_sub(self.last_click_ms);
                            self.phase = Phase::Pending { show_at: now + remain };
                        } else {
                            self.phase = Phase::Pending { show_at: now + HOVER_SHOW_DELAY_MS };
                        }
                    },
                }
            },
            HoverMsg::Move(a) => {
                match self.phase {
                    Phase::Pending { .. } => {
                        self.pending_pos = Some(a);
                    },
                    Phase::Shown { .. } => {
                        fx.refresh_data = obs.card_visible;
                    },
                    Phase::Hidden => {},
                }
            },
            HoverMsg::Leave => {
                match self.phase {
                    Phase::Pending { .. } => {
                        self.phase = Phase::Hidden;
                        self.pending_pos = None;
                    },
                    Phase::Shown { fading: false, .. } => {
                        if obs.cursor_in_region == Some(false) {
                            fx.emit_hide = obs.card_visible;
                            self.do_hide(obs.card_visible, now);
                        }
                    },
                    _ => {},
                }
            },
            HoverMsg::Click => {
                self.last_click_ms = now;
                self.phase = Phase::Hidden;
                self.pending_pos = None;
                self.do_hide_instant();
                fx.emit_hide = true;
                fx.hide_window = true;
            },
            HoverMsg::DoubleClick => {
                self.last_click_ms = now;
                fx.emit_hide = obs.card_visible;
                self.do_hide(obs.card_visible, now);
                fx.open_main = true;
            },
            HoverMsg::Ready => {
                fx.show = self.pending_pos;
            },
            HoverMsg::MenuHide => {
                self.phase = Phase::Hidden;
                self.pending_pos = None;
                self.do_hide_instant();
                fx.emit_hide = true;
                fx.hide_window = true;
            },
        }
        fx
    }

    /// State after an attempt to show the card at `anchor`. A card switched off ends the
    /// pending show and forgets the anchor; a card whose window is not there yet ends it
    /// too but keeps the anchor, which the page's ready signal shows it at. Either way
    /// the controller is idle again, so the timer does not fire for an expired show.
    pub open spec fn show_state(self, anchor: P, outcome: ShowOutcome<R>, now: u64) -> Self {
        match outcome {
            ShowOutcome::Disabled => HoverController { phase: Phase::Hidden, pending_pos: None, ..self },
            ShowOutcome::NoWindow => HoverController { phase: Phase::Hidden, pending_pos: Some(anchor), ..self },
            ShowOutcome::Shown(rect) => HoverController {
                pending_pos: Some(anchor),
                card_rect: Some(rect),
                retry_base: Some(now),
                retry_idx: 0,
                phase: Phase::Shown { fading: false, fade_deadline: None },
                shown_at: Some(now),
                gone_polls: 0,
                ..self
            },
        }
    }

    /// Records how an attempt to show the card ended.
    pub fn apply_show(&mut self, anchor: P, outcome: ShowOutcome<R>, now: u64)
        requires
            old(self).wf(),
            now <= TIME_LIMIT,
        ensures
            final(self).wf(),
            *final(self) == old(self).show_state(anchor, outcome, now),
    {
        match outcome {
            ShowOutcome::Disabled => {
                self.phase = Phase::Hidden;
                self.pending_pos = None;
            },
            ShowOutcome::NoWindow => {
                self.phase = Phase::Hidden;
                self.pending_pos = Some(anchor);
            },
            ShowOutcome::Shown(rect) => {
                self.pending_pos = Some(anchor);
                self.card_rect = Some(rect);
                self.retry_base = Some(now);
                self.retry_idx = 0;
                self.phase = Phase::Shown { fading: false, fade_deadline: None };
                self.shown_at = Some(now);
                self.gone_polls = 0;
            },
        }
    }

    /// The card has been visible for the maximum time.
    pub open spec fn overstayed(self, now: u64) -> bool {
        self.shown_at matches Some(st) && since(now, st) >= MAX_VISIBLE_MS
    }

    /// Repeated show signal after the watchdog: the next one is sent when due, the
    /// schedule is dropped after the last one.
    pub open spec fn retry_state(self, now: u64) -> (Self, bool) {
        match self.retry_base {
            Some(b) => if self.retry_idx < RETRY_COUNT {
                if now >= b + retry_delay(self.retry_idx as int) {
                    (HoverController { retry_idx: (self.retry_idx + 1) as usize, ..self }, true)
                } else {
                    (self, false)
                }
            } else {
                (HoverController { retry_base: None, ..self }, false)
            },
            None => (self, false),
        }
    }

    /// State and effects when the timer fires.
    pub open spec fn timeout_spec(self, now: u64, obs: HoverObs) -> (Self, HoverEffects<P>) {
        match self.phase {
            Phase::Hidden => (self, no_effects()),
            Phase::Pending { show_at } => if now >= show_at {
                if !self.cooldown_spec(now) && self.pending_pos is Some {
                    (self, HoverEffects { show: self.pending_pos, ..no_effects() })
                } else {
                    (HoverController { phase: Phase::Hidden, pending_pos: None, ..self }, no_effects())
                }
            } else {
                (self, no_effects())
            },
            Phase::Shown { fading: true, fade_deadline } => match fade_deadline {
                Some(d) => if now >= d {
                    (
                        HoverController {
                            phase: Phase::Hidden,
                            card_rect: None,
                            retry_base: None,
                            ..self
                        },
                        HoverEffects { hide_window: true, ..no_effects() },
                    )
                } else {
                    (self, no_effects())
                },
                None => (self, no_effects()),
            },
            Phase::Shown { fading: false, .. } => if self.overstayed(now) {
                (
                    self.hide_spec(obs.card_visible, now),
                    HoverEffects { emit_hide: obs.card_visible, overstay: true, ..no_effects() },
                )
            } else {
                match obs.cursor_in_region {
                    Some(true) => {
                        let s = HoverController { gone_polls: 0, ..self };
                        let (t, e) = s.retry_state(now);
                        (t, HoverEffects { emit_show: e, ..no_effects() })
                    },
                    Some(false) => if self.gone_polls + 1 >= 2 {
                        (
                            HoverController { gone_polls: 0, ..self.hide_spec(obs.card_visible, now) },
                            HoverEffects { emit_hide: obs.card_visible, ..no_effects() },
                        )
                    } else {
                        let s = HoverController { gone_polls: (self.gone_polls + 1) as u32, ..self };
                        let (t, e) = s.retry_state(now);
                        (t, HoverEffects { emit_show: e, ..no_effects() })
                    },
                    None => {
                        let (t, e) = self.retry_state(now);
                        (t, HoverEffects { emit_show: e, ..no_effects() })
                    },
                }
            },
        }
    }

    /// Runs the timed work: the delayed show, the forced hide after a fade-out, the
    /// overstay limit, the watchdog (two consecutive polls outside hide the card) and
    /// the repeated show signal.
    pub fn on_timeout(&mut self, now: u64, obs: HoverObs) -> (fx: HoverEffects<P>)
        requires
            old(self).wf(),
            now <= TIME_LIMIT,
        ensures
            final(self).wf(),
            (*final(self), fx) == old(self).timeout_spec(now, obs),
    {
        let mut fx = none_effects();
        match self.phase {
            Phase::Hidden => {
                return fx;
            },
            Phase::Pending { show_at } => {
                if now >= show_at {
                    if !self.in_click_cooldown(now) {
                        if let Some(anchor) = self.pending_pos {
                            fx.show = Some(anchor);
                            return fx;
                        }
                    }
                    self.phase = Phase::Hidden;
                    self.pending_pos = None;
                }
                return fx;
            },
            Phase::Shown { fading: true, fade_deadline } => {
                if let Some(d) = fade_deadline {
                    if now >= d {
                        fx.hide_window = true;
                        self.phase = Phase::Hidden;
                        self.card_rect = None;
                        self.retry_base = None;
                    }
                }
                return fx;
            },
            Phase::Shown { fading: false, .. } => {},
        }
        if let Some(st) = self.shown_at {
            if now.saturating_sub(st) >= MAX_VISIBLE_MS {
                fx.overstay = true;
                fx.emit_hide = obs.card_visible;
                self.do_hide(obs.card_visible, now);
                return fx;
            }
        }
        match obs.cursor_in_region {
            Some(true) => {
                self.gone_polls = 0;
            },
            Some(false) => {
                self.gone_polls = self.gone_polls + 1;
                if self.gone_polls >= 2 {
                    fx.emit_hide = obs.card_visible;
                    self.do_hide(obs.card_visible, now);
                    self.gone_polls = 0;
                    return fx;
                }
            },
            None => {},
        }
        if let Some(base) = self.retry_base {
            if self.retry_idx < RETRY_COUNT {
                let t = base + retry_delay_of(self.retry_idx);
                if now >= t {
                    fx.emit_show = true;
                    self.retry_idx = self.retry_idx + 1;
                }
            } else {
                self.retry_base = None;
            }
        }
        fx
    }

    /// Milliseconds until the next timed work; `None` when idle (wait for a message).
    pub open spec fn wakeup_spec(self, now: u64) -> Option<u64> {
        match self.phase {
            Phase::Hidden => None,
            Phase::Pending { show_at } => Some(since(show_at, now)),
            Phase::Shown { fading, fade_deadline } => {
                let a = WATCHDOG_INTERVAL_MS;
                let b = match self.shown_at {
                    Some(st) => min_u64(a, since((st + MAX_VISIBLE_MS) as u64, now)),
                    None => a,
                };
                let c = match fade_deadline {
                    Some(d) => if fading {
                        min_u64(b, since(d, now))
                    } else {
                        b
                    },
                    None => b,
                };
                let d = match self.retry_base {
                    Some(base) => if self.retry_idx < RETRY_COUNT {
                        min_u64(c, since((base + retry_delay(self.retry_idx as int)) as u64, now))
                    } else {
                        c
                    },
                    None => c,
                };
                Some(d)
            },
        }
    }

    /// Milliseconds until the next timed work (at most the watchdog period while the
    /// card is visible); `None` when idle.
    pub fn next_wakeup(&self, now: u64) -> (r: Option<u64>)
        requires
            self.wf(),
            now <= TIME_LIMIT,
        ensures
            r == self.wakeup_spec(now),
            r is None <==> self.phase == Phase::Hidden,
            self.phase is Shown ==> (r matches Some(t) && t <= WATCHDOG_INTERVAL_MS),
    {
        match self.phase {
            Phase::Hidden => None,
            Phase::Pending { show_at } => Some(show_at.saturating_sub(now)),
            Phase::Shown { fading, fade_deadline } => {
                let mut min = WATCHDOG_INTERVAL_MS;
                if let Some(st) = self.shown_at {
                    let remain = (st + MAX_VISIBLE_MS).saturating_sub(now);
                    min = min_of(min, remain);
                }
                if fading {
                    if let Some(d) = fade_deadline {
                        min = min_of(min, d.saturating_sub(now));
                    }
                }
                if let Some(base) = self.retry_base {
                    if self.retry_idx < RETRY_COUNT {
                        let t = base + retry_delay_of(self.retry_idx);
                        min = min_of(min, t.saturating_sub(now));
                    }
                }
                Some(min)
            },
        }
    }
}

pub open spec fn min_u64(a: u64, b: u64) -> u64 {
    if a <= b {
        a
    } else {
        b
    }
}

fn min_of(a: u64, b: u64) -> (r: u64)
    ensures
        r == min_u64(a, b),
{
    if a <= b {
        a
    } else {
        b
    }
}

/// The timer never asks to show the card during the click cooldown.
pub proof fn law_no_show_in_cooldown<P: Copy, R: Copy>(c: HoverController<P, R>, now: u64, obs: HoverObs)
    ensures
        c.timeout_spec(now, obs).1.show is Some ==> !c.cooldown_spec(now),
{
}

/// A click hides the card at once, and hovering within the next 1.5 s schedules the
/// card for exactly the end of the cooldown.
pub proof fn law_click_cooldown<P: Copy, R: Copy>(
    c: HoverController<P, R>,
    t: u64,
    obs: HoverObs,
    a: P,
    t2: u64,
    obs2: HoverObs,
)
    requires
        t <= t2 < t + CLICK_COOLDOWN_MS,
    ensures
        c.handle_state(HoverMsg::Click, t, obs).phase == Phase::Hidden,
        c.handle_effects(HoverMsg::Click, t, obs).hide_window,
        c.handle_state(HoverMsg::Click, t, obs).handle_state(HoverMsg::Enter(a), t2, obs2).phase
            == (Phase::Pending { show_at: (t + CLICK_COOLDOWN_MS) as u64 }),
{
}

/// Hovering again never demotes a visible card and never moves a pending deadline.
pub proof fn law_enter_keeps_phase<P: Copy, R: Copy>(c: HoverController<P, R>, a: P, now: u64, obs: HoverObs)
    requires
        !(c.phase is Hidden),
    ensures
        c.handle_state(HoverMsg::Enter(a), now, obs).phase == c.phase,
        c.handle_state(HoverMsg::Enter(a), now, obs).pending_pos == Some(a),
{
}

/// The watchdog hides a visible card after two consecutive polls with the cursor
/// outside (the second poll starts the fade-out).
pub proof fn law_watchdog_two_polls<P: Copy, R: Copy>(c: HoverController<P, R>, t1: u64, t2: u64)
    requires
        c.wf(),
        c.phase == (Phase::Shown { fading: false, fade_deadline: None }),
        c.gone_polls == 0,
        !c.overstayed(t1),
        !c.overstayed(t2),
        t2 <= TIME_LIMIT,
    ensures
        ({
            let outside = HoverObs { cursor_in_region: Some(false), card_visible: true };
            let (c1, fx1) = c.timeout_spec(t1, outside);
            let (c2, fx2) = c1.timeout_spec(t2, outside);
            &&& !fx1.emit_hide
            &&& fx2.emit_hide
            &&& c2.phase == (Phase::Shown { fading: true, fade_deadline: Some((t2 + FADE_MS) as u64) })
        }),
{
    let outside = HoverObs { cursor_in_region: Some(false), card_visible: true };
    let c1 = c.timeout_spec(t1, outside).0;
    assert(c1.phase == c.phase);
    assert(c1.gone_polls == 1);
    assert(c1.shown_at == c.shown_at);
}

/// A due show never leaves the timer spinning: whatever the attempt to show ends in,
/// the card is no longer pending, so the next wake-up is the watchdog's (when shown) or
/// none at all (idle until the next message).
pub proof fn law_show_attempt_never_spins<P: Copy, R: Copy>(
    c: HoverController<P, R>,
    now: u64,
    obs: HoverObs,
    outcome: ShowOutcome<R>,
    later: u64,
)
    requires
        c.timeout_spec(now, obs).1.show is Some,
    ensures
        ({
            let (c1, fx) = c.timeout_spec(now, obs);
            let c2 = c1.show_state(fx.show.unwrap(), outcome, now);
            &&& !(c2.phase is Pending)
            &&& (c2.phase is Hidden ==> c2.wakeup_spec(later) is None)
            &&& (c2.phase is Shown ==> (c2.wakeup_spec(later) matches Some(t) && t <= WATCHDOG_INTERVAL_MS))
        }),
{
}

} // verus!
