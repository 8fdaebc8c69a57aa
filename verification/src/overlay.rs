//! The overlay side of the application: how presenter events and control
//! requests move the spotlight, the pointer deltas the overlay draws, the
//! button and battery state shown, and when the desktop's shake-cursor
//! effect is held back. What else an event asks for (loading a device's
//! settings, starting the timer, the editor's recording) is returned for
//! the caller to carry out.

use vstd::prelude::*;

use crate::hid_report::{navigation_pressed, spec_navigation_pressed, PresenterReport};
use crate::hidpp::{BatteryInfo, BatteryStatus};
use crate::input_event::InputEvent;
use crate::input_mapping::MappedAction;
use crate::presenter::SpecialInput;

verus! {

/// What the overlay shows and what it remembers of the presenter.
#[derive(Clone, Copy, Debug, PartialEq, Eq, Structural)]
pub struct OverlayState {
    /// The spotlight is switched off by the user.
    pub overlay_disabled: bool,
    /// The spotlight shows.
    pub overlay_active: bool,
    /// The preview closes by itself after a while.
    pub preview_timeout_enabled: bool,
    /// The last pointer movement.
    pub pointer_delta_x: i32,
    pub pointer_delta_y: i32,
    /// Counts the pointer movements, wrapping around.
    pub motion_serial: i32,
    /// A navigation key of the presenter is down.
    pub navigation_pressed: bool,
    /// The presenter's buttons are grabbed and forwarded.
    pub button_forwarding: bool,
    /// The battery level in percent, `-1` when unknown.
    pub battery_level: i32,
    /// The battery status, when known.
    pub battery_status: Option<BatteryStatus>,
    /// The desktop's shake-cursor effect is held back.
    pub shake_cursor_suppressed: bool,
}

/// An event of the presenter's monitoring.
pub enum PresenterEvent {
    /// A presenter was found at this hidraw path.
    Connected(String),
    /// The presenter went away.
    Disconnected,
    /// A standard report of the presenter.
    Report(PresenterReport),
    /// Pointer movement taken from the event nodes.
    Motion { x: i32, y: i32 },
    /// Button forwarding started or stopped.
    ButtonForwarding(bool),
    /// The battery was read.
    Battery(BatteryInfo),
    /// A mapped input sequence asked for an action.
    MappedAction(MappedAction),
    /// A frame was recorded for the mapping editor.
    InputRecorded(Vec<InputEvent>),
    /// The editor's recording ended.
    InputRecordingFinished,
    /// Input synthesised from a Spotlight notification.
    SpecialInput(SpecialInput),
}

/// What an event leaves for the caller to do.
pub enum PresenterFollowUp {
    Nothing,
    /// Take up the presenter at this path.
    Connected(String),
    /// Let go of the presenter that went away.
    Disconnected,
    /// Start the presentation timer, unless it runs.
    StartTimer,
    /// Load the next preset.
    CyclePresets,
    /// Hand a recorded frame to the mapping editor.
    InputRecorded(Vec<InputEvent>),
    /// Finish the mapping editor's recording.
    FinishRecording,
    /// Hand synthesised input to button forwarding.
    SpecialInput(SpecialInput),
}

/// The serial after `n`, wrapping around.
pub open spec fn next_serial(n: i32) -> i32 {
    if n == i32::MAX {
        i32::MIN
    } else {
        (n + 1) as i32
    }
}

/// The state after a pointer movement: the spotlight shows unless it is
/// switched off, and the preview no longer closes by itself.
pub open spec fn moved(s: OverlayState, x: i32, y: i32) -> OverlayState {
    OverlayState {
        pointer_delta_x: x,
        pointer_delta_y: y,
        motion_serial: next_serial(s.motion_serial),
        overlay_active: if s.overlay_disabled {
            s.overlay_active
        } else {
            true
        },
        preview_timeout_enabled: false,
        ..s
    }
}

/// The state after `e`, and what is left to do.
pub open spec fn after_event(s: OverlayState, e: PresenterEvent) -> (OverlayState, PresenterFollowUp) {
    match e {
        PresenterEvent::Connected(path) => (s, PresenterFollowUp::Connected(path)),
        PresenterEvent::Disconnected => (
            OverlayState { battery_level: -1i32, battery_status: None, ..s },
            PresenterFollowUp::Disconnected,
        ),
        PresenterEvent::Report(PresenterReport::Pointer(p)) => if p.x == 0 && p.y == 0 {
            (s, PresenterFollowUp::Nothing)
        } else {
            (moved(s, p.x as i32, p.y as i32), PresenterFollowUp::Nothing)
        },
        PresenterEvent::Report(PresenterReport::Keyboard(k)) => {
            let pressed = spec_navigation_pressed(k);
            (
                OverlayState { navigation_pressed: pressed, ..s },
                if pressed && !s.navigation_pressed {
                    PresenterFollowUp::StartTimer
                } else {
                    PresenterFollowUp::Nothing
                },
            )
        },
        PresenterEvent::Motion { x, y } => (moved(s, x, y), PresenterFollowUp::Nothing),
        PresenterEvent::ButtonForwarding(active) => (
            OverlayState { button_forwarding: active, ..s },
            PresenterFollowUp::Nothing,
        ),
        PresenterEvent::Battery(info) => (
            OverlayState {
                battery_level: info.current_level as i32,
                battery_status: Some(info.status),
                ..s
            },
            PresenterFollowUp::Nothing,
        ),
        PresenterEvent::MappedAction(action) => match action {
            MappedAction::CyclePresets => (s, PresenterFollowUp::CyclePresets),
            MappedAction::ToggleSpotlight => (
                OverlayState { overlay_active: !s.overlay_active, ..s },
                PresenterFollowUp::Nothing,
            ),
            _ => (s, PresenterFollowUp::Nothing),
        },
        PresenterEvent::InputRecorded(frame) => (s, PresenterFollowUp::InputRecorded(frame)),
        PresenterEvent::InputRecordingFinished => (s, PresenterFollowUp::FinishRecording),
        PresenterEvent::SpecialInput(input) => (s, PresenterFollowUp::SpecialInput(input)),
    }
}

impl OverlayState {
    /// The state at start-up: no movement yet, no presenter, the battery
    /// unknown.
    pub fn new(overlay_disabled: bool, overlay_preview: bool) -> (s: OverlayState)
        ensures
            s == (OverlayState {
                overlay_disabled,
                overlay_active: overlay_preview,
                preview_timeout_enabled: overlay_preview,
                pointer_delta_x: 0,
                pointer_delta_y: 0,
                motion_serial: 0,
                navigation_pressed: false,
                button_forwarding: false,
                battery_level: -1i32,
                battery_status: None,
                shake_cursor_suppressed: false,
            }),
    {
        OverlayState {
            overlay_disabled,
            overlay_active: overlay_preview,
            preview_timeout_enabled: overlay_preview,
            pointer_delta_x: 0,
            pointer_delta_y: 0,
            motion_serial: 0,
            navigation_pressed: false,
            button_forwarding: false,
            battery_level: -1,
            battery_status: None,
            shake_cursor_suppressed: false,
        }
    }

    fn move_pointer(&mut self, x: i32, y: i32)
        ensures
            *final(self) == moved(*old(self), x, y),
    {
        self.pointer_delta_x = x;
        self.pointer_delta_y = y;
        self.motion_serial = if self.motion_serial == i32::MAX {
            i32::MIN
        } else {
            self.motion_serial + 1
        };
        if !self.overlay_disabled {
            self.overlay_active = true;
        }
        self.preview_timeout_enabled = false;
    }

    /// Take in one event of the presenter's monitoring; return what is left
    /// for the caller to do.
    pub fn on_presenter_event(&mut self, event: PresenterEvent) -> (r: PresenterFollowUp)
        ensures
            (*final(self), r) == after_event(*old(self), event),
    {
        match event {
            PresenterEvent::Connected(path) => PresenterFollowUp::Connected(path),
            PresenterEvent::Disconnected => {
                self.battery_level = -1;
                self.battery_status = None;
                PresenterFollowUp::Disconnected
            },
            PresenterEvent::Report(PresenterReport::Pointer(p)) => {
                if p.x != 0 || p.y != 0 {
                    self.move_pointer(p.x as i32, p.y as i32);
                }
                PresenterFollowUp::Nothing
            },
            PresenterEvent::Report(PresenterReport::Keyboard(k)) => {
                let pressed = navigation_pressed(&k);
                let start = pressed && !self.navigation_pressed;
                self.navigation_pressed = pressed;
                if start {
                    PresenterFollowUp::StartTimer
                } else {
                    PresenterFollowUp::Nothing
                }
            },
            PresenterEvent::Motion { x, y } => {
                self.move_pointer(x, y);
                PresenterFollowUp::Nothing
            },
            PresenterEvent::ButtonForwarding(active) => {
                self.button_forwarding = active;
                PresenterFollowUp::Nothing
            },
            PresenterEvent::Battery(info) => {
                self.battery_level = info.current_level as i32;
                self.battery_status = Some(info.status);
                PresenterFollowUp::Nothing
            },
            PresenterEvent::MappedAction(action) => match action {
                MappedAction::CyclePresets => PresenterFollowUp::CyclePresets,
                MappedAction::ToggleSpotlight => {
                    self.overlay_active = !self.overlay_active;
                    PresenterFollowUp::Nothing
                },
                _ => PresenterFollowUp::Nothing,
            },
            PresenterEvent::InputRecorded(frame) => PresenterFollowUp::InputRecorded(frame),
            PresenterEvent::InputRecordingFinished => PresenterFollowUp::FinishRecording,
            PresenterEvent::SpecialInput(input) => PresenterFollowUp::SpecialInput(input),
        }
    }

    /// A request to show or hide the spotlight: honoured unless the
    /// spotlight is switched off, and then the preview no longer closes by
    /// itself.
    pub fn set_spotlight_active(&mut self, active: bool)
        ensures
            old(self).overlay_disabled ==> *final(self) == *old(self),
            !old(self).overlay_disabled ==> *final(self) == (OverlayState {
                overlay_active: active,
                preview_timeout_enabled: false,
                ..*old(self)
            }),
    {
        if !self.overlay_disabled {
            self.overlay_active = active;
            self.preview_timeout_enabled = false;
        }
    }

    /// A request to switch the spotlight on or off.
    pub fn set_overlay_enabled(&mut self, enabled: bool)
        ensures
            *final(self) == (OverlayState { overlay_disabled: !enabled, ..*old(self) }),
    {
        self.overlay_disabled = !enabled;
    }

    /// What to do about the shake-cursor effect: hold it back while the
    /// spotlight shows, give it back otherwise.
    pub fn shake_cursor_change(&self) -> (r: ShakeCursorChange)
        ensures
            r == shake_cursor_change_for(*self),
    {
        let suppress = self.overlay_active && !self.overlay_disabled;
        if suppress && !self.shake_cursor_suppressed {
            ShakeCursorChange::Suppress
        } else if !suppress && self.shake_cursor_suppressed {
            ShakeCursorChange::Restore
        } else {
            ShakeCursorChange::Keep
        }
    }

    /// Record the outcome of a change to the shake-cursor effect: only a
    /// change that succeeded changes what is held back.
    pub fn shake_cursor_changed(&mut self, change: ShakeCursorChange, succeeded: bool)
        ensures
            *final(self) == shake_cursor_after(*old(self), change, succeeded),
    {
        if succeeded {
            match change {
                ShakeCursorChange::Suppress => self.shake_cursor_suppressed = true,
                ShakeCursorChange::Restore => self.shake_cursor_suppressed = false,
                ShakeCursorChange::Keep => {},
            }
        }
    }
}

/// A change to the desktop's shake-cursor effect.
#[derive(Clone, Copy, Debug, PartialEq, Eq, Structural)]
pub enum ShakeCursorChange {
    /// Hold the effect back.
    Suppress,
    /// Give the effect back.
    Restore,
    /// Leave it as it is.
    Keep,
}

/// The shake-cursor effect is to be held back while the spotlight shows.
pub open spec fn shake_cursor_change_for(s: OverlayState) -> ShakeCursorChange {
    let suppress = s.overlay_active && !s.overlay_disabled;
    if suppress && !s.shake_cursor_suppressed {
        ShakeCursorChange::Suppress
    } else if !suppress && s.shake_cursor_suppressed {
        ShakeCursorChange::Restore
    } else {
        ShakeCursorChange::Keep
    }
}

/// The state once `change` was tried with the given outcome.
pub open spec fn shake_cursor_after(s: OverlayState, change: ShakeCursorChange, succeeded: bool) -> OverlayState {
    if !succeeded {
        s
    } else {
        match change {
            ShakeCursorChange::Suppress => OverlayState { shake_cursor_suppressed: true, ..s },
            ShakeCursorChange::Restore => OverlayState { shake_cursor_suppressed: false, ..s },
            ShakeCursorChange::Keep => s,
        }
    }
}

/// The event reports pointer movement: motion from the event nodes, or a
/// pointer report that moved.
pub open spec fn is_movement(e: PresenterEvent) -> bool {
    match e {
        PresenterEvent::Motion { .. } => true,
        PresenterEvent::Report(PresenterReport::Pointer(p)) => p.x != 0 || p.y != 0,
        _ => false,
    }
}

/// While the spotlight is switched off and hidden, no presenter event but
/// the mapped toggle action makes it show, and none switches it on.
pub proof fn lemma_switched_off_spotlight_stays_hidden(s: OverlayState, e: PresenterEvent)
    requires
        s.overlay_disabled,
        !s.overlay_active,
        !(e matches PresenterEvent::MappedAction(MappedAction::ToggleSpotlight)),
    ensures
        after_event(s, e).0.overlay_disabled,
        !after_event(s, e).0.overlay_active,
{
}

/// Every reported movement advances the motion serial by one, wrapping
/// around; no other event changes it.
pub proof fn lemma_movements_counted(s: OverlayState, e: PresenterEvent)
    ensures
        after_event(s, e).0.motion_serial == if is_movement(e) {
            next_serial(s.motion_serial)
        } else {
            s.motion_serial
        },
{
}

/// The presentation timer is asked to start exactly when a keyboard report
/// brings a navigation key down that was not down before; holding it down
/// over further reports asks nothing more.
pub proof fn lemma_timer_starts_on_new_press(s: OverlayState, e: PresenterEvent, f: PresenterEvent)
    ensures
        (after_event(s, e).1 is StartTimer) <==> (e matches PresenterEvent::Report(
            PresenterReport::Keyboard(k),
        ) && spec_navigation_pressed(k) && !s.navigation_pressed),
        (e matches PresenterEvent::Report(PresenterReport::Keyboard(k)) && spec_navigation_pressed(k))
            ==> !(after_event(after_event(s, e).0, f).1 is StartTimer),
{
}

/// Once a change to the shake-cursor effect succeeds, the effect is held
/// back exactly while the spotlight shows.
pub proof fn lemma_shake_cursor_follows_spotlight(s: OverlayState)
    ensures
        shake_cursor_after(s, shake_cursor_change_for(s), true).shake_cursor_suppressed == (
        s.overlay_active && !s.overlay_disabled),
{
}

/// The mapped toggle action flips whether the spotlight shows, and only
/// that: toggling twice gives the state back, and it asks nothing more.
pub proof fn lemma_toggle_flips_spotlight(s: OverlayState)
    ensures
        after_event(s, PresenterEvent::MappedAction(MappedAction::ToggleSpotlight)).0.overlay_active
            != s.overlay_active,
        after_event(
            after_event(s, PresenterEvent::MappedAction(MappedAction::ToggleSpotlight)).0,
            PresenterEvent::MappedAction(MappedAction::ToggleSpotlight),
        ).0 == s,
        after_event(s, PresenterEvent::MappedAction(MappedAction::ToggleSpotlight)).1 is Nothing,
{
}

} // verus!
