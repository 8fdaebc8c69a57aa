use projecteur_core::input_event::{InputEvent, EV_KEY, EV_REL};
use projecteur_core::input_mapping::{MappedAction, NativeKeySequence};
use projecteur_core::labels::{
    input_event_name, input_sequence_label, mapped_action_label, native_key_label,
    special_move_name,
};
use projecteur_core::presenter::{modifier_only_native_key, predefined_native_key};

fn key(code: u16, value: i32) -> InputEvent {
    InputEvent { event_type: EV_KEY, code, value }
}

#[test]
fn events_are_named_for_their_presenter() {
    assert_eq!(input_event_name("Device_046d_c53e", key(106, 1)), "Next");
    assert_eq!(input_event_name("Device_046d_b506", key(105, 1)), "Back");
    assert_eq!(input_event_name("Device_0c45_8101", key(109, 1)), "Down");
    assert_eq!(input_event_name("Device_0c45_8101", key(104, 1)), "Up");
    assert_eq!(input_event_name("Device_0c45_8101", key(0x110, 1)), "Click");
    assert_eq!(input_event_name("Device_1234_5678", key(0x0e10, 1)), "Next Hold");
    assert_eq!(input_event_name("Device_1234_5678", key(0x0e11, 1)), "Back Hold");
    assert_eq!(input_event_name("Device_1234_5678", key(106, 1)), "6a");
    assert_eq!(input_event_name("Device_1234_5678", key(0, 1)), "0");
}

#[test]
fn sequences_show_presses_releases_and_taps() {
    let g = "Device_046d_c53e";
    assert_eq!(input_sequence_label(g, &vec![]), "None");
    assert_eq!(input_sequence_label(g, &vec![vec![key(106, 1)]]), "[Next↓]");
    assert_eq!(input_sequence_label(g, &vec![vec![key(106, 0)]]), "[Next↑]");
    assert_eq!(
        input_sequence_label(g, &vec![vec![key(106, 1)], vec![key(106, 0)], vec![key(105, 1)]]),
        "[Next↓↑] [Back↓]"
    );
    assert_eq!(input_sequence_label(g, &vec![vec![]]), "None");
    let moved = InputEvent { event_type: EV_REL, code: 0, value: 2 };
    assert_eq!(
        input_sequence_label(g, &vec![vec![moved], vec![moved]]),
        "[0↓↑]"
    );
}

#[test]
fn held_button_movements_have_names() {
    let next = vec![vec![key(0x0ff0, 1); 3]];
    let back = vec![vec![key(0x0ff1, 1); 3]];
    assert_eq!(special_move_name(&next), Some("Next Hold Move"));
    assert_eq!(special_move_name(&back), Some("Back Hold Move"));
    assert_eq!(special_move_name(&vec![vec![key(0x0ff1, 1); 2]]), None);
    assert_eq!(input_sequence_label("Device_046d_c53e", &next), "Next Hold Move");
}

#[test]
fn actions_are_labelled() {
    let names = vec!["Ctrl+A".to_owned(), "B".to_owned()];
    assert_eq!(mapped_action_label(&MappedAction::CyclePresets, &[]), "Cycle Presets");
    assert_eq!(mapped_action_label(&MappedAction::ToggleSpotlight, &[]), "Toggle Spotlight");
    assert_eq!(mapped_action_label(&MappedAction::ScrollHorizontal, &[]), "Scroll Horizontal");
    assert_eq!(mapped_action_label(&MappedAction::ScrollVertical, &[]), "Scroll Vertical");
    assert_eq!(mapped_action_label(&MappedAction::VolumeControl, &[]), "Volume Control");
    assert_eq!(
        mapped_action_label(&MappedAction::KeySequence(NativeKeySequence::default()), &names),
        "None"
    );
    let custom = NativeKeySequence {
        qt_keys: vec![1, 2],
        native_sequence: vec![vec![key(30, 1)]],
        native_modifiers: vec![0, 0],
    };
    assert_eq!(native_key_label(&custom, &names), "Ctrl+A, B");
    assert_eq!(
        native_key_label(&predefined_native_key(62, 0x0900_0033, 4), &names),
        "Alt+F4"
    );
    assert_eq!(native_key_label(&modifier_only_native_key(125, 64), &names), "Meta");
}
