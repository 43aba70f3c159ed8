//! Screen lock tracking: a lock makes the user "away" (time-based counting
//! pauses) and records when it happened; an unlock ends the away state.

use vstd::prelude::*;

verus! {

/// Session-change message.
pub const WM_WTSSESSION_CHANGE: u32 = 0x02B1;

/// Session locked.
pub const WTS_SESSION_LOCK: u32 = 0x7;

/// Session unlocked.
pub const WTS_SESSION_UNLOCK: u32 = 0x8;

/// Away flag and the Unix time of the last lock.
#[derive(Clone, Copy, Debug, PartialEq, Eq, Structural)]
pub struct LockState {
    pub away: bool,
    pub last_lock: Option<i64>,
}

impl LockState {
    /// Present, never locked.
    pub fn new() -> (r: Self)
        ensures
            !r.away,
            r.last_lock is None,
    {
        LockState { away: false, last_lock: None }
    }

    /// State after a session event at Unix time `now`: a lock sets away and records
    /// the time, an unlock clears away, other events change nothing.
    pub open spec fn after(self, event: u32, now: i64) -> Self {
        if event == WTS_SESSION_LOCK {
            LockState { away: true, last_lock: Some(now) }
        } else if event == WTS_SESSION_UNLOCK {
            LockState { away: false, ..self }
        } else {
            self
        }
    }

    /// Handles a session event at Unix time `now`.
    pub fn on_session_change(&mut self, event: u32, now: i64)
        ensures
            *final(self) == old(self).after(event, now),
    {
        if event == WTS_SESSION_LOCK {
            self.away = true;
            self.last_lock = Some(now);
        } else if event == WTS_SESSION_UNLOCK {
            self.away = false;
        }
    }

    /// Whether the session is locked.
    pub fn is_away(&self) -> (r: bool)
        ensures
            r == self.away,
    {
        self.away
    }

    /// Unix time of the last lock.
    pub fn last_lock_timestamp(&self) -> (r: Option<i64>)
        ensures
            r == self.last_lock,
    {
        self.last_lock
    }
}

/// An unlock keeps the time of the lock before it, and locking again replaces it.
pub proof fn law_unlock_keeps_lock_time(s: LockState, t1: i64, t2: i64)
    ensures
        s.after(WTS_SESSION_LOCK, t1).after(WTS_SESSION_UNLOCK, t2).last_lock == Some(t1),
        !s.after(WTS_SESSION_LOCK, t1).after(WTS_SESSION_UNLOCK, t2).away,
        s.after(WTS_SESSION_LOCK, t1).after(WTS_SESSION_LOCK, t2).last_lock == Some(t2),
{
}

} // verus!
