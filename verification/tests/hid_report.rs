use projecteur_core::hid_report::{
    decode_presenter_report, navigation_pressed, HidReportError, KeyboardReport, PointerReport,
    PresenterReport,
};

#[test]
fn decodes_positive_and_negative_captured_motion() {
    assert_eq!(
        decode_presenter_report(&[0x02, 0, 0, 0x0d, 0x60, 0, 0, 0]),
        Ok(PresenterReport::Pointer(PointerReport {
            buttons: 0,
            x: 13,
            y: 6,
            wheel: 0,
            pan: 0,
        }))
    );
    assert_eq!(
        decode_presenter_report(&[0x02, 0, 0, 0xf7, 0xdf, 0xff, 0, 0]),
        Ok(PresenterReport::Pointer(PointerReport {
            buttons: 0,
            x: -9,
            y: -3,
            wheel: 0,
            pan: 0,
        }))
    );
}

#[test]
fn decodes_captured_next_back_and_release_reports() {
    let next = decode_presenter_report(&[0x01, 0, 0x4f, 0, 0, 0, 0, 0]).unwrap();
    let back = decode_presenter_report(&[0x01, 0, 0x50, 0, 0, 0, 0, 0]).unwrap();
    let release = decode_presenter_report(&[0x01, 0, 0, 0, 0, 0, 0, 0]).unwrap();

    assert!(matches!(
        next,
        PresenterReport::Keyboard(KeyboardReport {
            usages: [0x4f, 0, 0, 0, 0, 0],
            ..
        })
    ));
    assert!(matches!(
        back,
        PresenterReport::Keyboard(KeyboardReport {
            usages: [0x50, 0, 0, 0, 0, 0],
            ..
        })
    ));
    assert_eq!(
        release,
        PresenterReport::Keyboard(KeyboardReport {
            modifiers: 0,
            usages: [0; 6],
        })
    );
}

#[test]
fn rejects_unknown_or_malformed_reports() {
    assert_eq!(
        decode_presenter_report(&[0x20; 8]),
        Err(HidReportError::UnknownReportId(0x20))
    );
    assert!(matches!(
        decode_presenter_report(&[0x02, 0]),
        Err(HidReportError::InvalidLength { found: 2, .. })
    ));
}

#[test]
fn pointer_report_carries_buttons_wheel_and_pan() {
    assert_eq!(
        decode_presenter_report(&[0x02, 0x01, 0, 0xff, 0x0f, 0x80, 0xff, 0x02]),
        Ok(PresenterReport::Pointer(PointerReport {
            buttons: 1,
            x: -1,
            y: -2048,
            wheel: -1,
            pan: 2,
        }))
    );
}

#[test]
fn empty_report_has_no_report_id() {
    assert_eq!(
        decode_presenter_report(&[]),
        Err(HidReportError::InvalidLength { report_id: None, found: 0 })
    );
}

#[test]
fn navigation_keys_are_recognised() {
    let next = KeyboardReport { modifiers: 0, usages: [0, 0, 0x4f, 0, 0, 0] };
    let back = KeyboardReport { modifiers: 0, usages: [0x50, 0, 0, 0, 0, 0] };
    let other = KeyboardReport { modifiers: 0, usages: [0x29, 0, 0, 0, 0, 0] };
    assert!(navigation_pressed(&next));
    assert!(navigation_pressed(&back));
    assert!(!navigation_pressed(&other));
}

#[test]
fn report_errors_read_as_messages() {
    let length = HidReportError::InvalidLength {
        report_id: Some(0x11),
        found: 3,
    };
    assert_eq!(length.to_string(), "report Some(17) has 3 bytes; expected 8");
    let missing = HidReportError::InvalidLength {
        report_id: None,
        found: 0,
    };
    assert_eq!(missing.to_string(), "report None has 0 bytes; expected 8");
    assert_eq!(
        HidReportError::UnknownReportId(5).to_string(),
        format!("unsupported HID report ID {:#04x}", 5u8)
    );
    assert_eq!(
        HidReportError::UnknownReportId(0xab).to_string(),
        "unsupported HID report ID 0xab"
    );
}
