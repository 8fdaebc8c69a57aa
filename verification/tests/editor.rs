use projecteur_core::editor::{
    add_mapping, apply_recorded_input, apply_recorded_shortcut, mapping_rows, relative_preset_index, remove_mapping,
    set_mapping_action, set_predefined_key, set_special_input, MappingRow,
};
use projecteur_core::input_event::{InputEvent, EV_KEY};
use projecteur_core::input_mapping::{InputMapping, MappedAction, NativeKeySequence};
use projecteur_core::presenter::predefined_native_key;

fn key(code: u16, value: i32) -> InputEvent {
    InputEvent { event_type: EV_KEY, code, value }
}

fn mapping(code: u16, action: MappedAction) -> InputMapping {
    InputMapping { input: vec![vec![key(code, 1)]], action }
}

fn names(values: &[&str]) -> Vec<String> {
    values.iter().map(|v| (*v).to_owned()).collect()
}

#[test]
fn rows_show_labels_duplicates_and_action_types() {
    let items = vec![
        mapping(106, MappedAction::ToggleSpotlight),
        mapping(106, MappedAction::CyclePresets),
        InputMapping {
            input: vec![vec![key(0x0ff0, 1); 3]],
            action: MappedAction::ScrollVertical,
        },
        mapping(
            105,
            MappedAction::KeySequence(NativeKeySequence {
                qt_keys: vec![65],
                native_sequence: vec![vec![key(30, 1)]],
                native_modifiers: vec![0],
            }),
        ),
    ];
    let key_names = vec![vec![], vec![], vec![], names(&["A"])];
    let rows = mapping_rows("Device_046d_c53e", &items, &key_names);
    assert_eq!(
        rows,
        vec![
            MappingRow {
                row: 0,
                input: "[Next↓]".to_owned(),
                duplicate: true,
                move_input: false,
                action_type: 3,
                action: "Toggle Spotlight".to_owned(),
            },
            MappingRow {
                row: 1,
                input: "[Next↓]".to_owned(),
                duplicate: true,
                move_input: false,
                action_type: 2,
                action: "Cycle Presets".to_owned(),
            },
            MappingRow {
                row: 2,
                input: "Next Hold Move".to_owned(),
                duplicate: false,
                move_input: true,
                action_type: 12,
                action: "Scroll Vertical".to_owned(),
            },
            MappingRow {
                row: 3,
                input: "[Back↓]".to_owned(),
                duplicate: false,
                move_input: false,
                action_type: 1,
                action: "A".to_owned(),
            },
        ]
    );
}

#[test]
fn action_types_must_suit_the_input() {
    let mut items = vec![mapping(106, MappedAction::ToggleSpotlight)];
    assert!(!set_mapping_action(&mut items, 0, 11));
    assert!(!set_mapping_action(&mut items, 1, 2));
    assert!(!set_mapping_action(&mut items, -1, 2));
    assert!(set_mapping_action(&mut items, 0, 2));
    assert_eq!(items[0].action, MappedAction::CyclePresets);
    assert!(set_mapping_action(&mut items, 0, 1));
    assert_eq!(items[0].action, MappedAction::KeySequence(NativeKeySequence::default()));

    assert!(set_special_input(&mut items, 0, "Back Hold Move"));
    assert_eq!(items[0].input, vec![vec![key(0x0ff1, 1); 3]]);
    assert_eq!(items[0].action, MappedAction::ScrollVertical);
    assert!(!set_mapping_action(&mut items, 0, 3));
    assert!(set_mapping_action(&mut items, 0, 13));
    assert_eq!(items[0].action, MappedAction::VolumeControl);
    assert!(set_special_input(&mut items, 0, "Next Hold Move"));
    assert_eq!(items[0].action, MappedAction::VolumeControl);
    assert!(!set_special_input(&mut items, 0, "Sideways"));
    assert!(!set_special_input(&mut items, 3, "Next Hold Move"));
}

#[test]
fn predefined_shortcuts_replace_key_sequences_only() {
    let mut items = vec![
        mapping(106, MappedAction::KeySequence(NativeKeySequence::default())),
        mapping(105, MappedAction::CyclePresets),
    ];
    assert!(set_predefined_key(&mut items, 0, "Alt+Tab"));
    assert_eq!(
        items[0].action,
        MappedAction::KeySequence(predefined_native_key(15, 0x0900_0001, 4))
    );
    assert!(!set_predefined_key(&mut items, 1, "Alt+Tab"));
    assert!(!set_predefined_key(&mut items, 0, "Ctrl+Q"));
    assert!(set_predefined_key(&mut items, 0, "None"));
    assert_eq!(items[0].action, MappedAction::KeySequence(NativeKeySequence::default()));
}

#[test]
fn rows_are_added_and_removed() {
    let mut items = Vec::new();
    assert_eq!(add_mapping(&mut items), 0);
    assert_eq!(add_mapping(&mut items), 1);
    assert_eq!(items.len(), 2);
    assert!(items[0].input.is_empty());
    assert!(!remove_mapping(&mut items, 2));
    assert!(!remove_mapping(&mut items, -1));
    assert!(remove_mapping(&mut items, 0));
    assert_eq!(items.len(), 1);
}

#[test]
fn recorded_shortcuts_need_a_key() {
    let mut items = vec![mapping(106, MappedAction::CyclePresets)];
    assert!(!apply_recorded_shortcut(&mut items, 0, NativeKeySequence::default()));
    let alt_f4 = predefined_native_key(62, 0x0900_0033, 4);
    assert!(!apply_recorded_shortcut(&mut items, 1, alt_f4.clone()));
    assert!(apply_recorded_shortcut(&mut items, 0, alt_f4.clone()));
    assert_eq!(items[0].action, MappedAction::KeySequence(alt_f4));
}

#[test]
fn presets_cycle_in_both_directions() {
    let list = names(&["A", "B", "C"]);
    assert_eq!(relative_preset_index(&list, "A", 1), Some(1));
    assert_eq!(relative_preset_index(&list, "C", 1), Some(0));
    assert_eq!(relative_preset_index(&list, "A", -1), Some(2));
    assert_eq!(relative_preset_index(&list, "B", -1), Some(0));
    assert_eq!(relative_preset_index(&list, "missing", 1), Some(0));
    assert_eq!(relative_preset_index(&list, "missing", -1), Some(2));
    assert_eq!(relative_preset_index(&[], "A", 1), None);
}

#[test]
fn recorded_inputs_adjust_the_action() {
    let mut items = vec![mapping(106, MappedAction::CyclePresets)];
    assert!(!apply_recorded_input(&mut items, 0, vec![]));
    assert!(!apply_recorded_input(&mut items, 1, vec![vec![key(1, 1)]]));
    assert!(apply_recorded_input(&mut items, 0, vec![vec![key(0x0ff0, 1); 3]]));
    assert_eq!(items[0].action, MappedAction::ScrollVertical);
    assert!(apply_recorded_input(&mut items, 0, vec![vec![key(105, 1)], vec![key(105, 0)]]));
    assert_eq!(items[0].input, vec![vec![key(105, 1)], vec![key(105, 0)]]);
    assert_eq!(items[0].action, MappedAction::KeySequence(NativeKeySequence::default()));
}
