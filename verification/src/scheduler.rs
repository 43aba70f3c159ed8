//! The one-second beat that drives the periodic work: which tasks run on a beat
//! (tray refresh every beat, day rollover and the overtime lock check every five,
//! activity flush and application settlement every ten, the daily upkeep once a
//! day), and when the window visibility is announced. The caller sleeps, runs
//! the tasks and reports the visibility and the local date.

use crate::date::Date;
use vstd::prelude::*;

verus! {

/// Beats between rollover and overtime lock checks.
pub const EVERY_5S: u64 = 5;

/// Beats between activity flushes and application settlements.
pub const EVERY_10S: u64 = 10;

/// Beats between checks whether the daily upkeep is due.
pub const EVERY_60S: u64 = 60;

/// Beat counter, the last announced window visibility and the day of the last upkeep.
#[derive(Clone, Copy, Debug, PartialEq, Eq, Structural)]
pub struct Beats {
    pub beats: u64,
    pub last_visible: Option<bool>,
    pub last_maint: Option<Date>,
}

/// The tasks of one beat.
#[derive(Clone, Copy, Debug, PartialEq, Eq, Structural)]
pub struct BeatTasks {
    /// Announce the (changed) visibility of the main window.
    pub emit_visibility: bool,
    /// Refresh the tray status.
    pub refresh_tray: bool,
    /// Check for a new day and for a new screen lock.
    pub rollover_and_overtime: bool,
    /// Flush activity counts and settle application time.
    pub flush: bool,
    /// Run the daily upkeep.
    pub maintenance: bool,
}

/// The counter after one more beat (wrapping at the 64-bit limit).
pub open spec fn next_beat(b: u64) -> u64 {
    if b == u64::MAX {
        0
    } else {
        (b + 1) as u64
    }
}

impl Beats {
    /// No beat yet, nothing announced, no upkeep run.
    pub fn new() -> (r: Self)
        ensures
            r.beats == 0,
            r.last_visible is None,
            r.last_maint is None,
    {
        Beats { beats: 0, last_visible: None, last_maint: None }
    }

    /// State and tasks of a beat that sees the window `visible` on local date `today`.
    pub open spec fn beat_spec(self, visible: bool, today: Date) -> (Beats, BeatTasks) {
        let b = next_beat(self.beats);
        let maint = b % EVERY_60S == 0 && self.last_maint != Some(today);
        (
            Beats {
                beats: b,
                last_visible: Some(visible),
                last_maint: if maint { Some(today) } else { self.last_maint },
            },
            BeatTasks {
                emit_visibility: self.last_visible != Some(visible),
                refresh_tray: true,
                rollover_and_overtime: b % EVERY_5S == 0,
                flush: b % EVERY_10S == 0,
                maintenance: maint,
            },
        )
    }

    /// Counts a beat and says which tasks run on it.
    pub fn on_beat(&mut self, visible: bool, today: Date) -> (t: BeatTasks)
        ensures
            (*final(self), t) == old(self).beat_spec(visible, today),
    {
        let b = if self.beats == u64::MAX {
            0
        } else {
            self.beats + 1
        };
        let emit = match self.last_visible {
            Some(v) => v != visible,
            None => true,
        };
        let maint = b % EVERY_60S == 0 && self.last_maint != Some(today);
        self.beats = b;
        self.last_visible = Some(visible);
        if maint {
            self.last_maint = Some(today);
        }
        BeatTasks {
            emit_visibility: emit,
            refresh_tray: true,
            rollover_and_overtime: b % EVERY_5S == 0,
            flush: b % EVERY_10S == 0,
            maintenance: maint,
        }
    }
}

/// The daily upkeep runs at most once a day: once it ran on `today`, no later beat on
/// the same day runs it again; and an unchanged visibility is not announced again.
pub proof fn law_upkeep_once_a_day(s: Beats, visible: bool, today: Date, visible2: bool)
    requires
        s.beat_spec(visible, today).1.maintenance,
    ensures
        !s.beat_spec(visible, today).0.beat_spec(visible2, today).1.maintenance,
        s.beat_spec(visible, today).0.last_maint == Some(today),
        !s.beat_spec(visible, today).0.beat_spec(visible, today).1.emit_visibility,
{
}

/// Every tenth beat also runs the five-beat tasks.
pub proof fn law_flush_beats_check_locks(s: Beats, visible: bool, today: Date)
    ensures
        s.beat_spec(visible, today).1.flush ==> s.beat_spec(visible, today).1.rollover_and_overtime,
{
}

} // verus!
