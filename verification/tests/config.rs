use projecteur_core::config::{ConfigError, ConfigGroup, ProjecteurConfig};
use projecteur_core::preferences::{device_settings, general_settings, preset_names};
use projecteur_core::settings::{DotMode, FractionalSetting, ZoomMode};

const DOCUMENT: &str = r"
# Projecteur configuration
ungrouped=value

[General]
spotSize=48
dotColor=#123456
dotMode=diffuse
zoomMode=pixel
unknownFutureSetting=@Variant(\0\0\0)

[Preset_Talk]
spotSize=22

[Device_046d_c53e]
inputMapConfigData=@ByteArray(AQID)
";

#[test]
fn reads_general_settings_and_retains_unknown_data() {
    let config = ProjecteurConfig::parse(DOCUMENT).expect("fixture should parse");
    let (settings, fractional) = general_settings(&config);

    assert_eq!(settings.spot_size, 48);
    assert_eq!(settings.dot_color, "#123456");
    assert_eq!(settings.dot_mode, DotMode::Diffuse);
    assert_eq!(settings.zoom_mode, ZoomMode::Pixel);
    assert!(fractional.is_empty());
    assert_eq!(
        config.value("General", "unknownFutureSetting"),
        Some(r"@Variant(\0\0\0)")
    );
    assert_eq!(config.value("Preset_Talk", "spotSize"), Some("22"));
    assert_eq!(
        config.value("Device_046d_c53e", "inputMapConfigData"),
        Some("@ByteArray(AQID)")
    );
}

#[test]
fn ungrouped_entries_and_duplicate_keys_match_kconfig_behavior() {
    let config = ProjecteurConfig::parse("first=one\nfirst=two\n").unwrap();

    assert_eq!(config.value("General", "first"), Some("two"));
}

#[test]
fn reports_the_location_of_malformed_input() {
    let error = ProjecteurConfig::parse("[General]\nnot an entry\n").unwrap_err();

    assert_eq!(error.to_string(), "line 2: expected key=value entry");
}

#[test]
fn groups_are_kept_in_name_order() {
    let config = ProjecteurConfig::parse("[b]\nx=1\n[a]\ny=2\n[b]\nz=3\n").unwrap();
    let names: Vec<&str> = config.groups().iter().map(|(n, _)| n.as_str()).collect();
    assert_eq!(names, vec!["a", "b"]);
    let b = config.group("b").unwrap();
    assert_eq!(b.len(), 2);
    assert_eq!(b.get("x"), Some("1"));
    assert_eq!(b.get("z"), Some("3"));
    assert_eq!(config.group("c"), None);
    assert_eq!(config.value("a", "x"), None);
}

#[test]
fn setting_a_value_then_reading_it_back() {
    let mut config = ProjecteurConfig::default();
    assert!(config.groups().is_empty());
    config.set_value("General", "spotSize", "40");
    config.set_value("General", "spotSize", "41");
    config.set_value("Preset_A", "spotSize", "20");
    assert_eq!(config.value("General", "spotSize"), Some("41"));
    assert_eq!(config.value("Preset_A", "spotSize"), Some("20"));
    assert_eq!(config.groups().len(), 2);
}

#[test]
fn an_empty_group_starts_empty() {
    let group = ConfigGroup::new();
    assert_eq!(group.len(), 0);
    assert!(group.entries().is_empty());
    assert_eq!(group.get("anything"), None);
}

#[test]
fn io_errors_name_the_path() {
    let error = ConfigError::Io {
        path: "/tmp/missing.rc".to_owned(),
        reason: "No such file or directory".to_owned(),
    };
    assert_eq!(
        error.to_string(),
        "cannot read /tmp/missing.rc: No such file or directory"
    );
}

#[test]
fn presets_are_listed_by_name() {
    let config = ProjecteurConfig::parse(DOCUMENT).unwrap();
    assert_eq!(preset_names(&config), "Talk");
    let config = ProjecteurConfig::parse("[Preset_B]\n[Preset_A]\n[Other]\n").unwrap();
    assert_eq!(preset_names(&config), "A\nB");
}

#[test]
fn fractional_settings_are_handed_back_in_key_order() {
    let config =
        ProjecteurConfig::parse("[General]\nzoomFactor=3\ndotOpacity=0.5\nspotSize=7\n").unwrap();
    let (settings, fractional) = general_settings(&config);
    assert_eq!(settings.spot_size, 7);
    assert_eq!(
        fractional,
        vec![
            (FractionalSetting::DotOpacity, "0.5".to_owned()),
            (FractionalSetting::ZoomFactor, "3".to_owned()),
        ]
    );
}

#[test]
fn device_settings_read_their_group() {
    let config =
        ProjecteurConfig::parse("[Device_046d_c53e]\ninputSequenceInterval=2000\n").unwrap();
    let (interval, _) = device_settings(&config, "Device_046d_c53e");
    assert_eq!(interval, 950);
}
