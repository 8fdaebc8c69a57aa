use projecteur_core::cli::CliOptions;
use projecteur_core::device_scan::{DeviceNode, DeviceNodeKind, DiscoveredDevice};
use projecteur_core::hidpp::Message;
use projecteur_core::input_event::{sync_event, InputEvent, EV_KEY, EV_REL, REL_X, REL_Y};
use projecteur_core::input_mapping::{InputMapping, MappedAction};
use projecteur_core::labels::{canonical_input_mappings, input_sequence_label, native_key_label};
use projecteur_core::presenter::{
    battery_device_index_for_path, decode_hold_notification, normalized_recording_frame,
    predefined_native_key, preferred_button_path, preferred_button_paths, relative_motion,
    relative_motion_fits, HoldNotificationState, PresenterSelection, SpecialInput,
};
use projecteur_core::screencast::{screen_region, ScreenRegion};
use projecteur_core::{Bus, DeviceId};

fn args(values: &[&str]) -> Vec<String> {
    values.iter().map(|v| (*v).to_owned()).collect()
}

fn parse(values: &[&str]) -> Result<CliOptions, String> {
    CliOptions::parse(&args(values), None)
}

#[test]
fn parses_config_argument_and_window_flag() {
    let options = parse(&["--show-window", "--cfg", "/tmp/projecteur-test.rc"]).unwrap();

    assert!(options.show_window);
    assert!(!options.overlay_preview);
    assert!(options.config_path_is_explicit);
    assert!(options.uinput_enabled);
    assert_eq!(options.presenter, PresenterSelection::Auto);
    assert_eq!(
        options.config_path,
        Some("/tmp/projecteur-test.rc".to_owned())
    );
}

#[test]
fn parses_legacy_config_argument_and_diagnostic_window_flag() {
    let options = parse(&["--show-window", "--cfg", "/tmp/projecteur-test.rc"]).unwrap();

    assert!(options.show_window);
    assert!(!options.overlay_preview);
    assert!(options.config_path_is_explicit);
    assert!(options.uinput_enabled);
    assert_eq!(options.presenter, PresenterSelection::Auto);
    assert_eq!(
        options.config_path,
        Some("/tmp/projecteur-test.rc".to_owned())
    );
}

#[test]
fn backend_parses_overlay_preview_flag() {
    let options = parse(&["--overlay-preview"]).unwrap();

    assert!(options.overlay_preview);
}

#[test]
fn backend_parses_legacy_desktop_flags() {
    let options = parse(&["--show-dialog", "--hide-systray-icon", "--disable-overlay"]).unwrap();

    assert!(options.show_window);
    assert!(!options.tray_visible);
    assert!(options.overlay_disabled);
}

#[test]
fn backend_validates_screen_capture_regions() {
    assert_eq!(
        screen_region(-1920, 0, 1920, 1080),
        Some(ScreenRegion {
            x: -1920,
            y: 0,
            width: 1920,
            height: 1080,
        })
    );
    assert_eq!(screen_region(0, 0, 0, 1080), None);
    assert_eq!(screen_region(0, 0, 1920, -1), None);
}

#[test]
fn backend_parses_presenter_path_forms() {
    let separated = parse(&["--presenter", "/dev/hidraw5"]).unwrap();
    let equals = parse(&["--presenter=/dev/hidraw6"]).unwrap();

    assert_eq!(
        separated.presenter,
        PresenterSelection::Explicit("/dev/hidraw5".to_owned())
    );
    assert_eq!(
        equals.presenter,
        PresenterSelection::Explicit("/dev/hidraw6".to_owned())
    );
}

#[test]
fn backend_parses_presenter_auto_and_disabled_modes() {
    let automatic = parse(&["--presenter=auto"]).unwrap();
    let disabled = parse(&["--no-presenter"]).unwrap();

    assert_eq!(automatic.presenter, PresenterSelection::Auto);
    assert_eq!(disabled.presenter, PresenterSelection::Disabled);
}

#[test]
fn backend_parses_uinput_disable_aliases() {
    let legacy = parse(&["--disable-uinput"]).unwrap();
    let concise = parse(&["--no-uinput"]).unwrap();

    assert!(!legacy.uinput_enabled);
    assert!(!concise.uinput_enabled);
}

#[test]
fn parses_additional_devices_and_startup_commands() {
    let options = parse(&["--additional-device=04b3:310c:Demo", "--command", "spot=on"]).unwrap();

    assert_eq!(options.additional_devices.len(), 1);
    assert_eq!(options.additional_devices[0].name, "Demo");
    assert_eq!(options.startup_commands, ["spot=on"]);
}

#[test]
fn backend_parses_equals_form_and_rejects_a_missing_path() {
    let options = parse(&["--cfg=/tmp/projecteur-test.rc"]).unwrap();
    assert_eq!(
        options.config_path,
        Some("/tmp/projecteur-test.rc".to_owned())
    );

    let error = parse(&["--cfg"]).unwrap_err();
    assert_eq!(error, "--cfg requires a file path");
}

#[test]
fn command_line_errors_and_defaults() {
    assert_eq!(parse(&["--cfg="]).unwrap_err(), "--cfg requires a file path");
    assert_eq!(
        parse(&["--presenter"]).unwrap_err(),
        "--presenter requires a hidraw path"
    );
    assert_eq!(
        parse(&["-D"]).unwrap_err(),
        "-D requires VENDOR:PRODUCT[:NAME]"
    );
    assert_eq!(parse(&["--command"]).unwrap_err(), "--command requires a command");
    assert_eq!(
        parse(&["-D", "04b3"]).unwrap_err(),
        "line 1: expected 4 columns, found 1"
    );
    let options =
        CliOptions::parse(&args(&["--unknown", "-c", "a", "--command="]), Some("/home/rc".to_owned()))
            .unwrap();
    assert_eq!(options.config_path, Some("/home/rc".to_owned()));
    assert!(!options.config_path_is_explicit);
    assert!(options.tray_visible);
    assert_eq!(options.startup_commands, ["a"]);
    assert_eq!(options.startup_error, None);
    assert_eq!(CliOptions::default(), parse(&[]).unwrap());
}

#[test]
fn combines_evdev_motion_for_generic_presenters() {
    let frame = [
        InputEvent {
            event_type: EV_REL,
            code: REL_X,
            value: 7,
        },
        InputEvent {
            event_type: EV_REL,
            code: REL_X,
            value: -2,
        },
        InputEvent {
            event_type: EV_REL,
            code: REL_Y,
            value: -4,
        },
    ];

    assert!(relative_motion_fits(&frame));
    assert_eq!(relative_motion(&frame), (5, -4));
}

#[test]
fn motion_that_overflows_is_detected() {
    let frame = [
        InputEvent { event_type: EV_REL, code: REL_Y, value: i32::MAX },
        InputEvent { event_type: EV_REL, code: REL_Y, value: 1 },
        InputEvent { event_type: EV_REL, code: REL_Y, value: -5 },
    ];
    assert!(!relative_motion_fits(&frame));
}

fn spotlight() -> Vec<DiscoveredDevice> {
    vec![DiscoveredDevice {
        id: DeviceId {
            vendor: 0x046d,
            product: 0xb506,
            bus: Bus::Bluetooth,
        },
        physical_id: "presenter".to_owned(),
        kernel_name: String::new(),
        configured_name: "Spotlight".to_owned(),
        nodes: vec![
            DeviceNode {
                path: "/dev/input/event16".to_owned(),
                kind: DeviceNodeKind::Event,
                has_relative_pointer: true,
                readable: true,
                writable: true,
            },
            DeviceNode {
                path: "/dev/input/event15".to_owned(),
                kind: DeviceNodeKind::Event,
                has_relative_pointer: false,
                readable: true,
                writable: true,
            },
            DeviceNode {
                path: "/dev/hidraw5".to_owned(),
                kind: DeviceNodeKind::Hidraw,
                has_relative_pointer: false,
                readable: true,
                writable: true,
            },
        ],
    }]
}

#[test]
fn button_forwarding_uses_all_selected_device_event_nodes() {
    let devices = spotlight();

    assert_eq!(
        preferred_button_paths(&PresenterSelection::Auto, &devices),
        vec!["/dev/input/event16".to_owned(), "/dev/input/event15".to_owned()]
    );
    assert_eq!(
        preferred_button_paths(
            &PresenterSelection::Explicit("/dev/hidraw5".to_owned()),
            &devices
        ),
        vec!["/dev/input/event16".to_owned(), "/dev/input/event15".to_owned()]
    );
    assert_eq!(
        battery_device_index_for_path("/dev/hidraw5", &devices),
        Some(1)
    );
}

#[test]
fn button_forwarding_uses_only_the_selected_devices_non_pointer_node() {
    let devices = spotlight();

    assert_eq!(
        preferred_button_path(&PresenterSelection::Auto, &devices),
        Some("/dev/input/event15".to_owned())
    );
    assert_eq!(
        preferred_button_path(
            &PresenterSelection::Explicit("/dev/hidraw5".to_owned()),
            &devices
        ),
        Some("/dev/input/event15".to_owned())
    );
    assert_eq!(
        battery_device_index_for_path("/dev/hidraw5", &devices),
        Some(1)
    );
}

#[test]
fn nothing_is_forwarded_without_a_selected_device() {
    let devices = spotlight();
    assert!(preferred_button_paths(&PresenterSelection::Disabled, &devices).is_empty());
    assert_eq!(preferred_button_path(&PresenterSelection::Disabled, &devices), None);
    assert!(preferred_button_paths(
        &PresenterSelection::Explicit("/dev/hidraw9".to_owned()),
        &devices
    )
    .is_empty());
    assert_eq!(battery_device_index_for_path("/dev/hidraw9", &devices), None);
    assert!(preferred_button_paths(&PresenterSelection::Auto, &[]).is_empty());
}

fn mapping(code: u16, action: MappedAction) -> InputMapping {
    InputMapping {
        input: vec![vec![InputEvent {
            event_type: EV_KEY,
            code,
            value: 1,
        }]],
        action,
    }
}

#[test]
fn editor_configuration_skips_empty_and_duplicate_rows_and_sorts_like_cpp_map() {
    let first = mapping(106, MappedAction::CyclePresets);
    let duplicate = mapping(106, MappedAction::ToggleSpotlight);
    let earlier = mapping(105, MappedAction::ToggleSpotlight);
    let empty = InputMapping {
        input: Vec::new(),
        action: MappedAction::CyclePresets,
    };

    let result = canonical_input_mappings(&[first.clone(), duplicate, empty, earlier.clone()]);

    assert_eq!(result, vec![earlier, first]);
}

#[test]
fn recording_normalizes_mouse_scan_and_names_spotlight_taps() {
    let press = normalized_recording_frame(&[
        InputEvent {
            event_type: 4,
            code: 4,
            value: 0x90001,
        },
        InputEvent {
            event_type: EV_KEY,
            code: 0x110,
            value: 1,
        },
        sync_event(),
    ])
    .unwrap();
    let release = vec![InputEvent {
        event_type: EV_KEY,
        code: 0x110,
        value: 0,
    }];

    assert_eq!(press.len(), 1);
    assert_eq!(
        input_sequence_label("Device_046d_c53e", &vec![press, release]),
        "[Click↓↑]"
    );
}

#[test]
fn recording_rejects_frames_without_content() {
    assert_eq!(normalized_recording_frame(&[]), None);
    assert_eq!(normalized_recording_frame(&[sync_event()]), None);
    let key = InputEvent { event_type: EV_KEY, code: 30, value: 1 };
    assert_eq!(normalized_recording_frame(&[key]), None);
    assert_eq!(normalized_recording_frame(&[key, sync_event()]), Some(vec![key]));
}

#[test]
fn predefined_shortcuts_match_cpp_native_event_order() {
    let alt_tab = predefined_native_key(15, 0x0900_0001, 4);

    assert_eq!(native_key_label(&alt_tab, &[]), "Alt+Tab");
    assert_eq!(alt_tab.native_modifiers, vec![4]);
    assert_eq!(
        alt_tab.native_sequence[0],
        vec![
            InputEvent {
                event_type: EV_KEY,
                code: 56,
                value: 1,
            },
            InputEvent {
                event_type: EV_KEY,
                code: 15,
                value: 1,
            },
            sync_event(),
        ]
    );
    assert_eq!(alt_tab.native_sequence[1][0].value, 0);
    assert_eq!(alt_tab.native_sequence[1][1].value, 0);
}

#[test]
fn decodes_spotlight_hold_and_throttled_move_notifications() {
    let pressed =
        Message::parse(&[0x11, 1, 0x0d, 0x00, 0, 0xda, 0, 0, 0, 0, 0, 0, 0, 0, 0, 0, 0, 0, 0, 0])
            .unwrap();
    let movement = Message::parse(&[
        0x11, 1, 0x0d, 0x10, 0xff, 9, 0xff, 0xf7, 0, 0, 0, 0, 0, 0, 0, 0, 0, 0, 0, 0,
    ])
    .unwrap();
    let mut state = HoldNotificationState::default();

    assert_eq!(
        decode_hold_notification(&pressed, &mut state, 0),
        vec![SpecialInput::Hold(0x0e10)]
    );
    assert_eq!(state.move_code, Some(0x0ff0));
    assert_eq!(
        decode_hold_notification(&movement, &mut state, 0),
        vec![SpecialInput::Move {
            code: 0x0ff0,
            x: 1,
            y: -2,
        }]
    );
    assert!(decode_hold_notification(&movement, &mut state, 0).is_empty());
}

#[test]
fn movement_resumes_after_the_interval_and_stops_on_release() {
    let pressed =
        Message::parse(&[0x11, 1, 0x0d, 0x00, 0, 0, 0, 0xdc, 0, 0, 0, 0, 0, 0, 0, 0, 0, 0, 0, 0])
            .unwrap();
    let movement = Message::parse(&[
        0x11, 1, 0x0d, 0x10, 0, 100, 0, 3, 0, 0, 0, 0, 0, 0, 0, 0, 0, 0, 0, 0,
    ])
    .unwrap();
    let released =
        Message::parse(&[0x11, 1, 0x0d, 0x00, 0, 0, 0, 0, 0, 0, 0, 0, 0, 0, 0, 0, 0, 0, 0, 0])
            .unwrap();
    let mut state = HoldNotificationState::default();

    assert_eq!(
        decode_hold_notification(&pressed, &mut state, 0),
        vec![SpecialInput::Hold(0x0e11)]
    );
    assert_eq!(
        decode_hold_notification(&movement, &mut state, 1_000),
        vec![SpecialInput::Move { code: 0x0ff1, x: 2, y: 0 }]
    );
    assert!(decode_hold_notification(&movement, &mut state, 20_000_000).is_empty());
    assert_eq!(
        decode_hold_notification(&movement, &mut state, 40_000_000),
        vec![SpecialInput::Move { code: 0x0ff1, x: 2, y: 0 }]
    );
    assert!(decode_hold_notification(&released, &mut state, 50_000_000).is_empty());
    assert_eq!(state.move_code, None);
    assert!(decode_hold_notification(&movement, &mut state, 90_000_000).is_empty());
}
