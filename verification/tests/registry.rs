use projecteur_core::registry::parse_additional_device;
use projecteur_core::{
    all_supported_devices, parse_supported_devices, Bus, DeviceId, ParseDeviceError,
    SupportedDevice,
};

#[test]
fn comments_and_blank_lines_are_ignored() {
    let devices =
        parse_supported_devices("# comment\n\n0x046d, 0xc53e, usb, Logitech Spotlight\n").unwrap();

    assert_eq!(devices.len(), 1);
    assert_eq!(devices[0].id.vendor, 0x046d);
}

#[test]
fn malformed_lines_report_their_location() {
    let error = parse_supported_devices("# heading\n0x1234, usb, Missing product\n").unwrap_err();

    assert_eq!(
        error,
        ParseDeviceError::InvalidColumnCount { line: 2, found: 3 }
    );
}

#[test]
fn registry_rows_are_trimmed_and_read_in_order() {
    let devices = parse_supported_devices(
        "  0C45 , 0x8101, usb ,  AVATTO H100 / August WP200  \r\n\t# note\n0X1d57,0xad03,bt,Other\n",
    )
    .unwrap();
    assert_eq!(
        devices,
        vec![
            SupportedDevice {
                id: DeviceId { vendor: 0x0c45, product: 0x8101, bus: Bus::Usb },
                name: "AVATTO H100 / August WP200".to_owned(),
            },
            SupportedDevice {
                id: DeviceId { vendor: 0x1d57, product: 0xad03, bus: Bus::Bluetooth },
                name: "Other".to_owned(),
            },
        ]
    );
}

#[test]
fn invalid_identifiers_and_buses_are_reported() {
    let error = parse_supported_devices("\n\n0x10000, 0x1, usb, Too large\n").unwrap_err();
    assert_eq!(
        error,
        ParseDeviceError::InvalidIdentifier { line: 3, value: "0x10000".to_owned() }
    );
    assert_eq!(
        error.to_string(),
        "line 3: invalid hexadecimal identifier \"0x10000\""
    );

    let error = parse_supported_devices("0x1, 0xg, usb, Bad digit\n").unwrap_err();
    assert_eq!(
        error,
        ParseDeviceError::InvalidIdentifier { line: 1, value: "0xg".to_owned() }
    );

    let error = parse_supported_devices("0x1, 0x2, serial, Bad bus\n").unwrap_err();
    assert_eq!(error, ParseDeviceError::UnknownBus("serial".to_owned()));
    assert_eq!(error.to_string(), "unknown device bus \"serial\"");

    assert_eq!(
        ParseDeviceError::InvalidColumnCount { line: 2, found: 3 }.to_string(),
        "line 2: expected 4 columns, found 3"
    );
}

#[test]
fn identifiers_accept_a_plus_sign_like_from_str_radix() {
    let devices = parse_supported_devices("+1f, 0x+2, usb, Signed\n").unwrap();
    assert_eq!(devices[0].id.vendor, 0x1f);
    assert_eq!(devices[0].id.product, 0x2);
}

#[test]
fn the_first_error_wins() {
    let error = parse_supported_devices("bad\n0x1, 0x2, serial, Bad bus\n").unwrap_err();
    assert_eq!(
        error,
        ParseDeviceError::InvalidColumnCount { line: 1, found: 1 }
    );
}

#[test]
fn bus_names_are_trimmed() {
    assert_eq!(" usb ".parse::<Bus>(), Ok(Bus::Usb));
    assert_eq!("bt".parse::<Bus>(), Ok(Bus::Bluetooth));
    assert_eq!(
        "USB".parse::<Bus>(),
        Err(ParseDeviceError::UnknownBus("USB".to_owned()))
    );
    assert_eq!(Bus::parse_name("\tbt\n"), Ok(Bus::Bluetooth));
}

#[test]
fn complete_registry_puts_logitech_models_first() {
    let registry = parse_supported_devices("0x0c45, 0x8101, usb, AVATTO H100 / August WP200\n")
        .unwrap();
    let devices = all_supported_devices(&registry);

    assert_eq!(devices.len(), 5);
    assert_eq!(devices[0].id.vendor, 0x046d);
    assert_eq!(devices[0].id.product, 0xc53e);
    assert_eq!(devices[0].name, "Logitech Spotlight (USB)");
    assert_eq!(devices[3].id.product, 0xb506);
    assert_eq!(devices[3].id.bus, Bus::Bluetooth);
    assert_eq!(devices[4], registry[0]);
}

#[test]
fn additional_devices_name_vendor_product_and_an_optional_name() {
    let device = parse_additional_device("04b3:310c:Demo").unwrap();
    assert_eq!(
        device,
        SupportedDevice {
            id: DeviceId { vendor: 0x04b3, product: 0x310c, bus: Bus::Usb },
            name: "Demo".to_owned(),
        }
    );
    let device = parse_additional_device("0x1:0x2:A:B").unwrap();
    assert_eq!(device.name, "A:B");
    assert_eq!(parse_additional_device("1:2").unwrap().name, "");
    assert_eq!(
        parse_additional_device("04b3"),
        Err(ParseDeviceError::InvalidColumnCount { line: 1, found: 1 })
    );
    assert_eq!(
        parse_additional_device("zz:1"),
        Err(ParseDeviceError::InvalidIdentifier { line: 1, value: "zz".to_owned() })
    );
}
