//! The presentation timer: a countdown started by the first navigation
//! button press, shown in seconds, that completes when the configured time
//! has elapsed.

use vstd::prelude::*;

use crate::settings::clamp_to;

verus! {

/// Where the countdown stands.
#[derive(Clone, Copy, Debug, PartialEq, Eq, Structural)]
pub enum TimerState {
    Idle,
    Running,
    Completed,
}

impl TimerState {
    /// The state's name as the control service shows it.
    pub fn as_str(self) -> (r: &'static str)
        ensures
            r@ == timer_state_name(self),
    {
        match self {
            TimerState::Idle => "idle",
            TimerState::Running => "running",
            TimerState::Completed => "completed",
        }
    }
}

/// The name of a timer state.
pub open spec fn timer_state_name(s: TimerState) -> Seq<char> {
    match s {
        TimerState::Idle => "idle"@,
        TimerState::Running => "running"@,
        TimerState::Completed => "completed"@,
    }
}

/// Shortest configurable duration in seconds.
pub const MIN_DURATION_SECONDS: i32 = 60;

/// Longest configurable duration in seconds.
pub const MAX_DURATION_SECONDS: i32 = 10800;

/// The presentation timer. Times are milliseconds of a monotonic clock.
#[derive(Clone, Copy, Debug, PartialEq, Eq, Structural)]
pub struct PresentationTimer {
    pub enabled: bool,
    pub state: TimerState,
    pub duration_seconds: i32,
    pub remaining_seconds: i32,
    pub deadline: Option<u64>,
}

/// Whole seconds left until `deadline`, rounded up.
pub open spec fn seconds_left(deadline: u64, now: u64) -> int {
    (deadline - now + 999) / 1000
}

/// The seconds shown for `deadline` at `now`: those left, at most the
/// largest `i32`.
pub open spec fn shown_seconds(deadline: u64, now: u64) -> i32 {
    if seconds_left(deadline, now) > i32::MAX {
        i32::MAX
    } else {
        seconds_left(deadline, now) as i32
    }
}

/// The timer advanced to `now`, and whether its countdown completed then:
/// before the deadline it shows the seconds left; at or after it, it is
/// completed and shows zero.
pub open spec fn updated(t: PresentationTimer, now: u64) -> (PresentationTimer, bool) {
    match t.deadline {
        None => (t, false),
        Some(d) => if now < d {
            (PresentationTimer { remaining_seconds: shown_seconds(d, now), ..t }, false)
        } else {
            (
                PresentationTimer {
                    state: TimerState::Completed,
                    remaining_seconds: 0,
                    deadline: None,
                    ..t
                },
                true,
            )
        },
    }
}

/// A countdown completes once: after the update that completes it, later
/// updates neither complete it again nor change it.
pub proof fn lemma_completes_once(t: PresentationTimer, a: u64, b: u64)
    requires
        updated(t, a).1,
    ensures
        updated(updated(t, a).0, b) == (updated(t, a).0, false),
{
}

/// As time passes, the seconds a countdown shows never grow.
pub proof fn lemma_countdown_never_grows(t: PresentationTimer, a: u64, b: u64)
    requires
        a <= b,
        t.deadline is Some,
    ensures
        updated(t, b).0.remaining_seconds <= updated(t, a).0.remaining_seconds,
{
    let d = t.deadline->0;
    if b < d {
        vstd::arithmetic::div_mod::lemma_div_is_ordered(
            d - b + 999,
            d - a + 999,
            1000,
        );
    } else if a < d {
        assert(seconds_left(d, a) >= 1);
    }
}

impl PresentationTimer {
    /// A disabled, idle timer of `duration_seconds`.
    pub fn new(duration_seconds: i32) -> (t: PresentationTimer)
        ensures
            t == (PresentationTimer {
                enabled: false,
                state: TimerState::Idle,
                duration_seconds,
                remaining_seconds: duration_seconds,
                deadline: None,
            }),
    {
        PresentationTimer {
            enabled: false,
            state: TimerState::Idle,
            duration_seconds,
            remaining_seconds: duration_seconds,
            deadline: None,
        }
    }

    /// Enable or disable the timer; disabling resets it.
    pub fn set_enabled(&mut self, enabled: bool)
        ensures
            old(self).enabled == enabled ==> *final(self) == *old(self),
            old(self).enabled != enabled && enabled ==> *final(self) == (PresentationTimer {
                enabled: true,
                ..*old(self)
            }),
            old(self).enabled != enabled && !enabled ==> *final(self) == (PresentationTimer {
                enabled: false,
                state: TimerState::Idle,
                remaining_seconds: old(self).duration_seconds,
                deadline: None,
                ..*old(self)
            }),
    {
        if self.enabled == enabled {
            return ;
        }
        self.enabled = enabled;
        if !enabled {
            self.reset();
        }
    }

    /// Set the duration, limited to one minute up to three hours; an idle
    /// timer shows the new duration.
    pub fn set_duration(&mut self, seconds: i32)
        ensures
            ({
                let s = clamp_to(seconds, MIN_DURATION_SECONDS, MAX_DURATION_SECONDS);
                if s == old(self).duration_seconds {
                    *final(self) == *old(self)
                } else {
                    *final(self) == (PresentationTimer {
                        duration_seconds: s,
                        remaining_seconds: if old(self).state == TimerState::Idle {
                            s
                        } else {
                            old(self).remaining_seconds
                        },
                        ..*old(self)
                    })
                }
            }),
    {
        let s = if seconds < MIN_DURATION_SECONDS {
            MIN_DURATION_SECONDS
        } else if seconds > MAX_DURATION_SECONDS {
            MAX_DURATION_SECONDS
        } else {
            seconds
        };
        if s == self.duration_seconds {
            return ;
        }
        self.duration_seconds = s;
        if self.state == TimerState::Idle {
            self.remaining_seconds = s;
        }
    }

    /// Start the countdown at `now`: only when enabled, and unless
    /// restarting only when idle. A duration below zero counts as one
    /// minute.
    pub fn start(&mut self, restart: bool, now: u64)
        requires
            now <= u64::MAX - 2_147_483_647_000,
        ensures
            (!old(self).enabled || (!restart && old(self).state != TimerState::Idle))
                ==> *final(self) == *old(self),
            old(self).enabled && (restart || old(self).state == TimerState::Idle) ==> *final(self)
                == (PresentationTimer {
                state: TimerState::Running,
                remaining_seconds: if old(self).duration_seconds < 0 {
                    60
                } else {
                    old(self).duration_seconds
                },
                deadline: Some(
                    (now + 1000 * (if old(self).duration_seconds < 0 {
                        60
                    } else {
                        old(self).duration_seconds as int
                    })) as u64,
                ),
                ..*old(self)
            }),
    {
        if !self.enabled {
            return ;
        }
        if !restart && self.state != TimerState::Idle {
            return ;
        }
        let seconds: i32 = if self.duration_seconds < 0 {
            60
        } else {
            self.duration_seconds
        };
        self.deadline = Some(now + 1000 * (seconds as u64));
        self.remaining_seconds = seconds;
        self.state = TimerState::Running;
    }

    /// Stop the countdown and show the full duration again.
    pub fn reset(&mut self)
        ensures
            *final(self) == (PresentationTimer {
                state: TimerState::Idle,
                remaining_seconds: old(self).duration_seconds,
                deadline: None,
                ..*old(self)
            }),
    {
        self.deadline = None;
        self.remaining_seconds = self.duration_seconds;
        self.state = TimerState::Idle;
    }

    /// Advance the countdown to `now`. Returns whether it completed now.
    pub fn update(&mut self, now: u64) -> (completed: bool)
        ensures
            (*final(self), completed) == updated(*old(self), now),
    {
        let d = match self.deadline {
            None => {
                return false;
            },
            Some(d) => d,
        };
        if now < d {
            let millis = d - now;
            let left = millis / 1000 + if millis % 1000 == 0 {
                0
            } else {
                1
            };
            assert(left == seconds_left(d, now));
            self.remaining_seconds = if left > i32::MAX as u64 {
                i32::MAX
            } else {
                left as i32
            };
            return false;
        }
        self.deadline = None;
        self.remaining_seconds = 0;
        self.state = TimerState::Completed;
        true
    }
}

} // verus!
