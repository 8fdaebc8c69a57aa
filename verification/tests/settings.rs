use projecteur_core::settings::{
    border_size_range, dot_size_range, input_sequence_interval_range, set_bool, set_color,
    set_i32, set_nonempty, set_unbounded_i32, spot_size_range, DotMode, FractionalSetting,
    GeneralSettings, Range, ZoomMode,
};

#[test]
fn defaults_match_the_kconfig_schema() {
    let settings = GeneralSettings::default();

    assert!(settings.show_spot_shade);
    assert_eq!(settings.spot_size, 32);
    assert_eq!(settings.dot_color, "#ff0000");
    assert_eq!(settings.cursor, 10);
    assert_eq!(settings.spot_shape, "spotshapes/Circle.qml");
    assert_eq!(settings.square_radius, 20);
    assert_eq!(settings.star_points, 5);
    assert_eq!(settings.presentation_timer_duration_seconds, 900);
}

#[test]
fn legacy_values_are_parsed_and_clamped() {
    let mut settings = GeneralSettings::default();
    let mut fractional = Vec::new();
    for (key, value) in [
        ("showSpotShade", "off"),
        ("spotSize", "999"),
        ("dotOpacity", "-2"),
        ("dotColor", "0, 255, 0"),
        ("shadeColor", "34,34,34,128"),
        ("zoomMode", "pixel"),
        ("presentationTimerDurationSeconds", "0"),
        ("Shape.Star/points", "999"),
    ] {
        if let Some(setting) = settings.apply_general_entry(key, value) {
            fractional.push(setting);
        }
    }

    assert!(!settings.show_spot_shade);
    assert_eq!(settings.spot_size, 100);
    assert_eq!(fractional, vec![FractionalSetting::DotOpacity]);
    assert_eq!(settings.dot_color, "#00ff00");
    assert_eq!(settings.shade_color, "#80222222");
    assert_eq!(settings.zoom_mode, ZoomMode::Pixel);
    assert_eq!(settings.presentation_timer_duration_seconds, 1);
    assert_eq!(settings.star_points, 100);
}

#[test]
fn malformed_and_unknown_values_do_not_replace_defaults() {
    let mut settings = GeneralSettings::default();
    assert_eq!(
        settings.apply_general_entry("zoomFactor", "wat"),
        Some(FractionalSetting::ZoomFactor)
    );
    assert_eq!(settings.apply_general_entry("zoomMode", "nearest"), None);
    assert_eq!(settings.apply_general_entry("futureSetting", "42"), None);
    assert_eq!(settings.apply_general_entry("borderColor", "1,broken,3"), None);

    assert_eq!(settings, GeneralSettings::default());
    assert_eq!(settings.zoom_mode, ZoomMode::Smooth);
    assert_eq!(settings.border_color, "#73d216");
}

#[test]
fn every_whole_and_text_setting_is_read() {
    let mut s = GeneralSettings::default();
    for (key, value) in [
        ("showCenterDot", "TRUE"),
        ("dotSize", "1"),
        ("dotMode", "diffuse"),
        ("dotTrailEnabled", "7"),
        ("cursor", "-3"),
        ("spotShape", "spotshapes/Star.qml"),
        ("Shape.Square/radius", "-5"),
        ("Shape.Star/innerRadius", "4"),
        ("Shape.Ngon/sides", "6"),
        ("showBorder", "0"),
        ("borderSize", "101"),
        ("enableZoom", "on"),
        ("multiScreenOverlay", "true"),
        ("presentationTimerEnabled", "1"),
        ("presentationTimerDurationSeconds", "120"),
    ] {
        assert_eq!(s.apply_general_entry(key, value), None);
    }
    assert!(s.show_center_dot);
    assert_eq!(s.dot_size, 3);
    assert_eq!(s.dot_mode, DotMode::Diffuse);
    assert!(s.dot_trail_enabled);
    assert_eq!(s.cursor, -3);
    assert_eq!(s.spot_shape, "spotshapes/Star.qml");
    assert_eq!(s.square_radius, 0);
    assert_eq!(s.star_inner_radius, 5);
    assert_eq!(s.ngon_sides, 6);
    assert!(!s.show_border);
    assert_eq!(s.border_size, 100);
    assert!(s.zoom_enabled);
    assert!(s.multi_screen_overlay);
    assert!(s.presentation_timer_enabled);
    assert_eq!(s.presentation_timer_duration_seconds, 120);
}

#[test]
fn fractional_keys_are_named_and_leave_the_rest_alone() {
    let mut s = GeneralSettings::default();
    assert_eq!(s.apply_general_entry("dotOpacity", "0.5"), Some(FractionalSetting::DotOpacity));
    assert_eq!(s.apply_general_entry("shadeOpacity", "0.5"), Some(FractionalSetting::ShadeOpacity));
    assert_eq!(s.apply_general_entry("spotRotation", "90"), Some(FractionalSetting::SpotRotation));
    assert_eq!(
        s.apply_general_entry("borderOpacity", "1"),
        Some(FractionalSetting::BorderOpacity)
    );
    assert_eq!(s.apply_general_entry("zoomFactor", "4"), Some(FractionalSetting::ZoomFactor));
    assert_eq!(s, GeneralSettings::default());
}

#[test]
fn boolean_settings_accept_words_and_positive_numbers() {
    let mut b = false;
    set_bool(&mut b, "On");
    assert!(b);
    set_bool(&mut b, "yes");
    assert!(b);
    set_bool(&mut b, "Off");
    assert!(!b);
    set_bool(&mut b, "+12");
    assert!(b);
    set_bool(&mut b, "-1");
    assert!(!b);
    set_bool(&mut b, "TRUE");
    assert!(b);
    set_bool(&mut b, "99999999999999999999");
    assert!(b);
    set_bool(&mut b, "false");
    assert!(!b);
    set_bool(&mut b, "0");
    assert!(!b);
}

#[test]
fn integer_settings_clamp_or_keep_the_value() {
    let mut v = 10;
    set_i32(&mut v, "200", spot_size_range());
    assert_eq!(v, 100);
    set_i32(&mut v, "x", spot_size_range());
    assert_eq!(v, 100);
    set_i32(&mut v, " 7", spot_size_range());
    assert_eq!(v, 100);
    set_i32(&mut v, "-7", dot_size_range());
    assert_eq!(v, 3);
    set_unbounded_i32(&mut v, "-2147483648");
    assert_eq!(v, i32::MIN);
    set_unbounded_i32(&mut v, "2147483648");
    assert_eq!(v, i32::MIN);
}

#[test]
fn ranges_match_the_setters() {
    assert_eq!(spot_size_range(), Range { minimum: 5, maximum: 100 });
    assert_eq!(dot_size_range(), Range { minimum: 3, maximum: 100 });
    assert_eq!(border_size_range(), Range { minimum: 0, maximum: 100 });
    assert_eq!(input_sequence_interval_range(), Range { minimum: 100, maximum: 950 });
    assert_eq!(input_sequence_interval_range().clamp(50), 100);
    assert_eq!(input_sequence_interval_range().clamp(500), 500);
    assert_eq!(input_sequence_interval_range().clamp(5000), 950);
}

#[test]
fn color_settings_accept_channels_or_plain_names() {
    let mut c = "#000000".to_owned();
    set_color(&mut c, "255,1,16");
    assert_eq!(c, "#ff0110");
    set_color(&mut c, "1,2,3,4");
    assert_eq!(c, "#04010203");
    set_color(&mut c, "1,2,256");
    assert_eq!(c, "#04010203");
    set_color(&mut c, "1,2");
    assert_eq!(c, "#04010203");
    set_color(&mut c, "");
    assert_eq!(c, "#04010203");
    set_color(&mut c, "red");
    assert_eq!(c, "red");
}

#[test]
fn text_settings_ignore_empty_values() {
    let mut t = "a".to_owned();
    set_nonempty(&mut t, "");
    assert_eq!(t, "a");
    set_nonempty(&mut t, "b");
    assert_eq!(t, "b");
}

#[test]
fn modes_are_parsed_by_name() {
    assert_eq!(DotMode::parse_name("solid"), Some(DotMode::Solid));
    assert_eq!(DotMode::parse_name("Solid"), None);
    assert_eq!("diffuse".parse::<DotMode>(), Ok(DotMode::Diffuse));
    assert!("wat".parse::<DotMode>().is_err());
    assert_eq!(ZoomMode::parse_name("text"), Some(ZoomMode::Text));
    assert_eq!("smooth".parse::<ZoomMode>(), Ok(ZoomMode::Smooth));
    assert!("nearest".parse::<ZoomMode>().is_err());
    assert_eq!(DotMode::default(), DotMode::Solid);
    assert_eq!(ZoomMode::default(), ZoomMode::Smooth);
}

#[test]
fn written_entries_read_back_as_the_same_settings() {
    let mut written = GeneralSettings::default();
    for (key, value) in [
        ("spotSize", "77"),
        ("cursor", "-4"),
        ("dotMode", "diffuse"),
        ("zoomMode", "text"),
        ("showBorder", "false"),
        ("dotColor", "#102030"),
    ] {
        written.apply_general_entry(key, value);
    }
    let entries = written.general_entries();
    assert_eq!(entries.len(), 22);
    assert_eq!(entries[0], ("showSpotShade", "true".to_owned()));
    assert_eq!(entries[1], ("spotSize", "77".to_owned()));
    assert_eq!(entries[8], ("cursor", "-4".to_owned()));
    assert_eq!(entries[21], ("presentationTimerDurationSeconds", "900".to_owned()));

    let mut read = GeneralSettings::default();
    read.apply_general_entry("spotSize", "5");
    read.apply_general_entry("dotMode", "solid");
    for (key, value) in &entries {
        assert_eq!(read.apply_general_entry(key, value), None);
    }
    assert_eq!(read, written);
}

#[test]
fn malformed_booleans_leave_the_setting_unchanged() {
    let mut settings = GeneralSettings::default();
    assert!(settings.show_spot_shade);
    assert_eq!(settings.apply_general_entry("showSpotShade", "wat"), None);
    assert!(settings.show_spot_shade);
    assert_eq!(settings, GeneralSettings::default());
    settings.apply_general_entry("showSpotShade", "OFF");
    assert!(!settings.show_spot_shade);
    settings.apply_general_entry("showSpotShade", "yes");
    assert!(!settings.show_spot_shade);
    settings.apply_general_entry("showSpotShade", "2");
    assert!(settings.show_spot_shade);
    settings.apply_general_entry("showSpotShade", "-1");
    assert!(!settings.show_spot_shade);
}
