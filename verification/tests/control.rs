use projecteur_core::control::{
    changed_properties, control_snapshot, forward_request, publish_snapshot, snapshots_equal,
    ConnectedPresenter, ControlProperty, ControlSnapshot, ForwardRequest, OBJECT_PATH,
    SERVICE_NAME,
};
use projecteur_core::timer::PresentationTimer;

fn args(values: &[&str]) -> Vec<String> {
    values.iter().map(|v| (*v).to_owned()).collect()
}

#[test]
fn snapshot_defaults_match_the_cpp_control_contract() {
    let state = ControlSnapshot::default();
    assert_eq!(state.timer_state, "idle");
    assert_eq!(state.timer_duration_seconds, 15 * 60);
    assert_eq!(state.timer_remaining_seconds, 15 * 60);
    assert!(state.tray_visible);
    assert!(state.overlay_enabled);
}

#[test]
fn launch_argument_parser_is_exercised_by_the_backend_cli_tests() {
    assert_eq!(SERVICE_NAME, "org.projecteur.Projecteur");
    assert!(OBJECT_PATH.ends_with("/Control"));
}

#[test]
fn a_second_launch_forwards_its_commands() {
    assert_eq!(
        forward_request(&args(&["-c", " spot=on ", "--command=preset.next", "--show-window"])),
        ForwardRequest::ApplyCommands(vec!["spot=on".to_owned(), "preset.next".to_owned()])
    );
    assert_eq!(forward_request(&args(&["--show-dialog"])), ForwardRequest::ShowPreferences);
    assert_eq!(forward_request(&args(&["-c", "  "])), ForwardRequest::Nothing);
    assert_eq!(forward_request(&args(&[])), ForwardRequest::Nothing);
}

#[test]
fn snapshots_show_the_presenter_presets_and_timer() {
    let presenter = ConnectedPresenter {
        name: "Spotlight".to_owned(),
        battery_level: 80,
        battery_status: "discharging".to_owned(),
    };
    let timer = PresentationTimer::new(600);
    let snapshot = control_snapshot(true, false, true, Some(&presenter), "A\nB", "A", &timer);
    assert_eq!(snapshot.connected_devices, vec!["Spotlight".to_owned()]);
    assert_eq!(snapshot.battery_levels, vec![80]);
    assert_eq!(snapshot.battery_statuses, vec!["discharging".to_owned()]);
    assert_eq!(snapshot.presets, vec!["A".to_owned(), "B".to_owned()]);
    assert_eq!(snapshot.current_preset, "A");
    assert!(snapshot.overlay_enabled);
    assert!(snapshot.spotlight_active);
    assert_eq!(snapshot.timer_state, "idle");
    assert_eq!(snapshot.timer_remaining_seconds, 600);

    let empty = control_snapshot(false, true, false, None, "", "", &timer);
    assert!(empty.connected_devices.is_empty());
    assert!(empty.presets.is_empty());
    assert!(!empty.overlay_enabled);
}

#[test]
fn publishing_announces_only_changes() {
    let mut state = ControlSnapshot::default();
    assert_eq!(publish_snapshot(&mut state, ControlSnapshot::default()), None);

    let timer = PresentationTimer::new(900);
    let next = control_snapshot(true, false, true, None, "", "", &timer);
    let (previous, current) = publish_snapshot(&mut state, next).unwrap();
    assert!(snapshots_equal(&previous, &ControlSnapshot::default()));
    assert!(snapshots_equal(&current, &state));
    assert_eq!(
        changed_properties(&previous, &current),
        vec![ControlProperty::SpotlightActive]
    );
    assert!(changed_properties(&state, &state).is_empty());
}
