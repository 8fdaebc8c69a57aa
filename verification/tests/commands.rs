use projecteur_core::commands::{adjusted_spot_size, parse_app_command, string_property, AppCommand, PropertyChange};

#[test]
fn commands_are_read_by_key() {
    assert_eq!(parse_app_command("quit"), AppCommand::Quit);
    assert_eq!(parse_app_command(" spot = Toggle "), AppCommand::ToggleSpot);
    assert_eq!(parse_app_command("spot=on"), AppCommand::SetSpot(true));
    assert_eq!(parse_app_command("spot=TRUE"), AppCommand::SetSpot(true));
    assert_eq!(parse_app_command("spot=1"), AppCommand::SetSpot(true));
    assert_eq!(parse_app_command("spot=off"), AppCommand::SetSpot(false));
    assert_eq!(parse_app_command("settings=hide"), AppCommand::ShowSettings(false));
    assert_eq!(parse_app_command("preferences=0"), AppCommand::ShowSettings(false));
    assert_eq!(parse_app_command("settings"), AppCommand::ShowSettings(true));
    assert_eq!(parse_app_command("preset=Talk"), AppCommand::LoadPreset("Talk".to_owned()));
    assert_eq!(parse_app_command("preset.next"), AppCommand::NextPreset);
    assert_eq!(parse_app_command("preset.previous"), AppCommand::PreviousPreset);
    assert_eq!(parse_app_command("spot.size.adjust=-5"), AppCommand::AdjustSpotSize(-5));
    assert_eq!(parse_app_command("spot.size.adjust=x"), AppCommand::Ignore);
    assert_eq!(
        parse_app_command("dot.color = #ff0000"),
        AppCommand::Property {
            key: "dot.color".to_owned(),
            value: "#ff0000".to_owned()
        }
    );
    assert_eq!(parse_app_command("dot.color="), AppCommand::Ignore);
    assert_eq!(parse_app_command("preset="), AppCommand::Ignore);
}

#[test]
fn spot_size_adjustments_stay_in_range() {
    assert_eq!(adjusted_spot_size(32, 5), 37);
    assert_eq!(adjusted_spot_size(98, 5), 100);
    assert_eq!(adjusted_spot_size(6, -5), 5);
}

#[test]
fn properties_name_settings() {
    assert_eq!(string_property("spot.overlay", "On"), PropertyChange::Overlay(true));
    assert_eq!(string_property("spot.overlay", "no"), PropertyChange::Overlay(false));
    assert_eq!(string_property("spot.size", "40"), PropertyChange::General("spotSize"));
    assert_eq!(string_property("zoom.factor", "2"), PropertyChange::General("zoomFactor"));
    assert_eq!(
        string_property("spot.shape", "N-Gon"),
        PropertyChange::SpotShape("spotshapes/Ngon.qml")
    );
    assert_eq!(string_property("spot.shape", "blob"), PropertyChange::Unknown);
    assert_eq!(string_property("nothing", "1"), PropertyChange::Unknown);
}
