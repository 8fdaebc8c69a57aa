use projecteur_core::hidpp::{
    battery_request, decode_battery_info, decode_feature_index, feature_index_request,
    spotlight_device_index, BatteryInfo, BatteryStatus, FeatureCode, HidppError, Message,
};
use projecteur_core::{Bus, DeviceId};

#[test]
fn builds_root_feature_requests_in_network_byte_order() {
    assert_eq!(
        feature_index_request(1, FeatureCode::UnifiedBattery).as_bytes(),
        &[0x11, 0x01, 0x00, 0x07, 0x10, 0x04, 0, 0, 0, 0, 0, 0, 0, 0, 0, 0, 0, 0, 0, 0,]
    );
}

#[test]
fn correlates_normal_and_error_responses() {
    let request = feature_index_request(1, FeatureCode::BatteryStatus);
    let response =
        Message::parse(&[0x11, 1, 0, 0x07, 0x0d, 0, 0, 0, 0, 0, 0, 0, 0, 0, 0, 0, 0, 0, 0, 0])
            .unwrap();
    let error =
        Message::parse(&[0x11, 1, 0xff, 0, 0x07, 9, 0, 0, 0, 0, 0, 0, 0, 0, 0, 0, 0, 0, 0, 0])
            .unwrap();

    assert_eq!(decode_feature_index(&request, &response), Ok(Some(0x0d)));
    assert_eq!(decode_feature_index(&request, &error), Err(HidppError::Device(9)));
}

#[test]
fn decodes_both_battery_feature_layouts() {
    let legacy_request = battery_request(1, 0x0d, FeatureCode::BatteryStatus);
    let legacy_response = Message::parse(&[
        0x10, 1, 0x0d, 0x07, 67, 60, 0, // current, next, discharging
    ])
    .unwrap();
    assert_eq!(
        decode_battery_info(FeatureCode::BatteryStatus, &legacy_request, &legacy_response),
        Ok(BatteryInfo {
            current_level: 67,
            next_reported_level: 60,
            status: BatteryStatus::Discharging,
        })
    );

    let unified_request = battery_request(1, 0x0e, FeatureCode::UnifiedBattery);
    let unified_response =
        Message::parse(&[0x11, 1, 0x0e, 0x17, 82, 0, 3, 0, 0, 0, 0, 0, 0, 0, 0, 0, 0, 0, 0, 0])
            .unwrap();
    assert_eq!(
        decode_battery_info(FeatureCode::UnifiedBattery, &unified_request, &unified_response),
        Ok(BatteryInfo {
            current_level: 82,
            next_reported_level: 82,
            status: BatteryStatus::Full,
        })
    );
}

#[test]
fn rejects_other_reports_and_unrelated_replies() {
    assert_eq!(
        Message::parse(&[0x02, 0, 0, 0, 0, 0, 0, 0]),
        Err(HidppError::UnknownReportId(Some(0x02)))
    );
    assert!(matches!(
        Message::parse(&[0x11, 0]),
        Err(HidppError::InvalidLength { found: 2, .. })
    ));

    let request = feature_index_request(1, FeatureCode::BatteryStatus);
    let response =
        Message::parse(&[0x11, 2, 0, 0x07, 0x0d, 0, 0, 0, 0, 0, 0, 0, 0, 0, 0, 0, 0, 0, 0, 0])
            .unwrap();
    assert_eq!(
        decode_feature_index(&request, &response),
        Err(HidppError::UnrelatedResponse)
    );
}

#[test]
fn an_empty_report_has_no_report_id() {
    assert_eq!(Message::parse(&[]), Err(HidppError::UnknownReportId(None)));
    assert_eq!(
        Message::parse(&[0x10, 1, 2]),
        Err(HidppError::InvalidLength {
            report_id: 0x10,
            expected: 7,
            found: 3
        })
    );
}

#[test]
fn long_requests_carry_function_software_id_and_payload() {
    let request = Message::long_request(2, 5, 3, &[9, 8, 7]);
    assert_eq!(
        request.as_bytes(),
        &[0x11, 2, 5, 0x37, 9, 8, 7, 0, 0, 0, 0, 0, 0, 0, 0, 0, 0, 0, 0, 0]
    );
    assert_eq!(request.device_index(), 2);
    assert_eq!(request.feature_index(), 5);
    assert_eq!(request.function(), 3);
    assert_eq!(request.software_id(), 7);
    assert_eq!(request.payload(), &[9, 8, 7, 0, 0, 0, 0, 0, 0, 0, 0, 0, 0, 0, 0, 0]);
}

#[test]
fn an_unsupported_feature_has_index_zero() {
    let request = feature_index_request(1, FeatureCode::UnifiedBattery);
    let response =
        Message::parse(&[0x11, 1, 0, 0x07, 0, 0, 0, 0, 0, 0, 0, 0, 0, 0, 0, 0, 0, 0, 0, 0])
            .unwrap();
    assert_eq!(decode_feature_index(&request, &response), Ok(None));
}

#[test]
fn battery_status_codes_and_names() {
    assert_eq!(BatteryStatus::from(1), BatteryStatus::Charging);
    assert_eq!(BatteryStatus::from(7), BatteryStatus::ChargingError);
    assert_eq!(BatteryStatus::from(42), BatteryStatus::Unknown(42));
    assert_eq!(BatteryStatus::Discharging.as_str(), "discharging");
    assert_eq!(BatteryStatus::AlmostFull.as_str(), "almost-full");
    assert_eq!(BatteryStatus::Unknown(9).as_str(), "unknown");
    assert_eq!(FeatureCode::BatteryStatus.code(), 0x1000);
    assert_eq!(FeatureCode::UnifiedBattery.code(), 0x1004);
}

#[test]
fn spotlight_models_use_device_index_one() {
    let usb = DeviceId { vendor: 0x046d, product: 0xc53e, bus: Bus::Usb };
    let other = DeviceId { vendor: 0x0c45, product: 0x8101, bus: Bus::Usb };
    assert_eq!(spotlight_device_index(usb), Some(1));
    assert_eq!(spotlight_device_index(other), None);
}

#[test]
fn hidpp_errors_read_as_messages() {
    assert_eq!(
        HidppError::UnknownReportId(None).to_string(),
        "not a HID++ report: None"
    );
    assert_eq!(
        HidppError::UnknownReportId(Some(2)).to_string(),
        "not a HID++ report: Some(2)"
    );
    assert_eq!(
        HidppError::InvalidLength {
            report_id: 0x11,
            expected: 20,
            found: 7
        }
        .to_string(),
        "HID++ report 0x11 has 7 bytes; expected 20"
    );
    assert_eq!(
        HidppError::MissingPayload.to_string(),
        "HID++ response payload is incomplete"
    );
    assert_eq!(
        HidppError::UnrelatedResponse.to_string(),
        "unrelated HID++ response"
    );
    assert_eq!(HidppError::Device(9).to_string(), "HID++ device error 0x09");
}
