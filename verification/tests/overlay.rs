use projecteur_core::hid_report::{KeyboardReport, PointerReport, PresenterReport};
use projecteur_core::hidpp::{BatteryInfo, BatteryStatus};
use projecteur_core::input_event::{InputEvent, EV_KEY};
use projecteur_core::input_mapping::MappedAction;
use projecteur_core::overlay::{OverlayState, PresenterEvent, PresenterFollowUp, ShakeCursorChange};
use projecteur_core::presenter::SpecialInput;

fn pointer(x: i16, y: i16) -> PresenterEvent {
    PresenterEvent::Report(PresenterReport::Pointer(PointerReport {
        buttons: 0,
        x,
        y,
        wheel: 0,
        pan: 0,
    }))
}

fn keyboard(usage: u8) -> PresenterEvent {
    PresenterEvent::Report(PresenterReport::Keyboard(KeyboardReport {
        modifiers: 0,
        usages: [usage, 0, 0, 0, 0, 0],
    }))
}

#[test]
fn a_new_overlay_knows_no_presenter() {
    let state = OverlayState::new(false, true);
    assert!(state.overlay_active);
    assert!(state.preview_timeout_enabled);
    assert_eq!(state.battery_level, -1);
    assert_eq!(state.battery_status, None);
    assert_eq!(state.motion_serial, 0);
}

#[test]
fn movement_shows_the_spotlight_and_is_counted() {
    let mut state = OverlayState::new(false, true);
    assert!(matches!(state.on_presenter_event(pointer(0, 0)), PresenterFollowUp::Nothing));
    assert_eq!(state.motion_serial, 0);
    assert!(state.preview_timeout_enabled);
    state.overlay_active = false;
    assert!(matches!(state.on_presenter_event(pointer(-3, 4)), PresenterFollowUp::Nothing));
    assert_eq!((state.pointer_delta_x, state.pointer_delta_y), (-3, 4));
    assert_eq!(state.motion_serial, 1);
    assert!(state.overlay_active);
    assert!(!state.preview_timeout_enabled);
    state.motion_serial = i32::MAX;
    state.on_presenter_event(PresenterEvent::Motion { x: 7, y: 0 });
    assert_eq!(state.motion_serial, i32::MIN);
    assert_eq!((state.pointer_delta_x, state.pointer_delta_y), (7, 0));
}

#[test]
fn a_switched_off_spotlight_stays_hidden() {
    let mut state = OverlayState::new(true, false);
    state.on_presenter_event(pointer(5, 5));
    state.on_presenter_event(PresenterEvent::Motion { x: 1, y: 1 });
    state.set_spotlight_active(true);
    assert!(!state.overlay_active);
    assert_eq!(state.motion_serial, 2);
    state.on_presenter_event(PresenterEvent::MappedAction(MappedAction::ToggleSpotlight));
    assert!(state.overlay_active);
    state.set_overlay_enabled(true);
    assert!(!state.overlay_disabled);
    state.set_spotlight_active(false);
    assert!(!state.overlay_active);
    assert!(!state.preview_timeout_enabled);
}

#[test]
fn the_timer_starts_on_a_new_navigation_press_only() {
    let mut state = OverlayState::new(false, false);
    assert!(matches!(state.on_presenter_event(keyboard(0x4f)), PresenterFollowUp::StartTimer));
    assert!(state.navigation_pressed);
    assert!(matches!(state.on_presenter_event(keyboard(0x50)), PresenterFollowUp::Nothing));
    assert!(matches!(state.on_presenter_event(keyboard(0)), PresenterFollowUp::Nothing));
    assert!(!state.navigation_pressed);
    assert!(matches!(state.on_presenter_event(keyboard(0x50)), PresenterFollowUp::StartTimer));
    assert!(matches!(state.on_presenter_event(keyboard(0x28)), PresenterFollowUp::Nothing));
}

#[test]
fn battery_and_forwarding_are_shown_until_the_presenter_leaves() {
    let mut state = OverlayState::new(false, false);
    state.on_presenter_event(PresenterEvent::ButtonForwarding(true));
    assert!(state.button_forwarding);
    state.on_presenter_event(PresenterEvent::Battery(BatteryInfo {
        current_level: 80,
        next_reported_level: 70,
        status: BatteryStatus::Charging,
    }));
    assert_eq!(state.battery_level, 80);
    assert_eq!(state.battery_status, Some(BatteryStatus::Charging));
    assert!(matches!(
        state.on_presenter_event(PresenterEvent::Disconnected),
        PresenterFollowUp::Disconnected
    ));
    assert_eq!(state.battery_level, -1);
    assert_eq!(state.battery_status, None);
}

#[test]
fn other_events_are_left_to_the_caller() {
    let mut state = OverlayState::new(false, false);
    let before = state;
    match state.on_presenter_event(PresenterEvent::Connected("/dev/hidraw3".to_owned())) {
        PresenterFollowUp::Connected(path) => assert_eq!(path, "/dev/hidraw3"),
        _ => panic!("expected the connection to be handed on"),
    }
    assert!(matches!(
        state.on_presenter_event(PresenterEvent::MappedAction(MappedAction::CyclePresets)),
        PresenterFollowUp::CyclePresets
    ));
    let frame = vec![InputEvent { event_type: EV_KEY, code: 30, value: 1 }];
    match state.on_presenter_event(PresenterEvent::InputRecorded(frame.clone())) {
        PresenterFollowUp::InputRecorded(recorded) => assert_eq!(recorded, frame),
        _ => panic!("expected the recorded frame to be handed on"),
    }
    assert!(matches!(
        state.on_presenter_event(PresenterEvent::InputRecordingFinished),
        PresenterFollowUp::FinishRecording
    ));
    match state.on_presenter_event(PresenterEvent::SpecialInput(SpecialInput::Hold(0x0e10))) {
        PresenterFollowUp::SpecialInput(input) => assert_eq!(input, SpecialInput::Hold(0x0e10)),
        _ => panic!("expected the synthesised input to be handed on"),
    }
    assert!(matches!(
        state.on_presenter_event(PresenterEvent::MappedAction(MappedAction::VolumeControl)),
        PresenterFollowUp::Nothing
    ));
    assert_eq!(state, before);
}

#[test]
fn the_shake_cursor_effect_is_held_back_while_the_spotlight_shows() {
    let mut state = OverlayState::new(false, false);
    assert_eq!(state.shake_cursor_change(), ShakeCursorChange::Keep);
    state.set_spotlight_active(true);
    assert_eq!(state.shake_cursor_change(), ShakeCursorChange::Suppress);
    state.shake_cursor_changed(ShakeCursorChange::Suppress, false);
    assert!(!state.shake_cursor_suppressed);
    state.shake_cursor_changed(ShakeCursorChange::Suppress, true);
    assert!(state.shake_cursor_suppressed);
    assert_eq!(state.shake_cursor_change(), ShakeCursorChange::Keep);
    state.set_overlay_enabled(false);
    assert_eq!(state.shake_cursor_change(), ShakeCursorChange::Restore);
    state.shake_cursor_changed(ShakeCursorChange::Restore, true);
    assert!(!state.shake_cursor_suppressed);
}
