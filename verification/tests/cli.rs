use projecteur_core::cli::{
    additional_devices, device_group, format_device_details, format_device_scan, parse_clamped,
    presenter_description,
    parse_vibration_command, VibrationCommand,
};
use projecteur_core::device_scan::{DeviceNode, DeviceNodeKind, DiscoveredDevice};
use projecteur_core::{Bus, DeviceId, ParseDeviceError};

fn args(values: &[&str]) -> Vec<String> {
    values.iter().map(|v| (*v).to_owned()).collect()
}

fn usb_spotlight() -> DiscoveredDevice {
    DiscoveredDevice {
        id: DeviceId {
            vendor: 0x046d,
            product: 0xc53e,
            bus: Bus::Usb,
        },
        physical_id: "usb-1".to_owned(),
        kernel_name: "Kernel name".to_owned(),
        configured_name: "Logitech Spotlight (USB)".to_owned(),
        nodes: vec![DeviceNode {
            path: "/dev/input/event4".to_owned(),
            kind: DeviceNodeKind::Event,
            has_relative_pointer: true,
            readable: true,
            writable: false,
        }],
    }
}

#[test]
fn formats_an_empty_scan() {
    assert_eq!(
        format_device_scan(&[]),
        "No supported presenter devices found.\n"
    );
}

#[test]
fn main_formats_an_empty_scan() {
    assert_eq!(
        format_device_scan(&[]),
        "No supported presenter devices found.\n"
    );
}

#[test]
fn formats_device_identity_nodes_and_permissions() {
    let output = format_device_scan(&[usb_spotlight()]);
    assert!(output.contains("Logitech Spotlight (USB) [046d:c53e, USB]"));
    assert!(output.contains("physical-id: usb-1"));
    assert!(output.contains("relative-pointer=yes"));
    assert!(output.contains("readable=true, writable=false"));
}

#[test]
fn main_formats_device_identity_nodes_and_permissions() {
    let devices = [usb_spotlight()];

    let output = format_device_scan(&devices);
    assert!(output.contains("Logitech Spotlight (USB) [046d:c53e, USB]"));
    assert!(output.contains("physical-id: usb-1"));
    assert!(output.contains("relative-pointer=yes"));
    assert!(output.contains("readable=true, writable=false"));
}

#[test]
fn parses_convenience_and_legacy_vibration_commands() {
    assert_eq!(
        parse_vibration_command(&args(&["--vibrate=300,20"])),
        Some(VibrationCommand {
            intensity: 255,
            length: 10,
            presenter: None,
        })
    );
    assert_eq!(
        parse_vibration_command(&args(&["-c", "vibrate=64,3", "--presenter=/dev/hidraw5"])),
        Some(VibrationCommand {
            intensity: 64,
            length: 3,
            presenter: Some("/dev/hidraw5".to_owned()),
        })
    );
    assert_eq!(
        parse_vibration_command(&args(&["--vibrate"])).unwrap().intensity,
        128
    );
}

#[test]
fn no_vibration_without_a_request() {
    assert_eq!(parse_vibration_command(&args(&["--presenter", "/dev/hidraw1"])), None);
    assert_eq!(
        parse_vibration_command(&args(&["--presenter", "/dev/hidraw1", "-c", "vibrate"])),
        Some(VibrationCommand {
            intensity: 128,
            length: 0,
            presenter: Some("/dev/hidraw1".to_owned()),
        })
    );
    assert_eq!(
        parse_vibration_command(&args(&["--vibrate=-4,x"])),
        Some(VibrationCommand {
            intensity: 0,
            length: 0,
            presenter: None,
        })
    );
}

#[test]
fn byte_options_fall_back_to_their_default() {
    assert_eq!(parse_clamped(None, 128, 255), 128);
    assert_eq!(parse_clamped(Some(""), 128, 255), 128);
    assert_eq!(parse_clamped(Some("abc"), 7, 10), 7);
    assert_eq!(parse_clamped(Some("11"), 7, 10), 10);
    assert_eq!(parse_clamped(Some("-11"), 7, 10), 0);
}

#[test]
fn scan_reports_list_every_device() {
    let mut hidraw = usb_spotlight();
    hidraw.configured_name = String::new();
    hidraw.nodes = vec![DeviceNode {
        path: "/dev/hidraw2".to_owned(),
        kind: DeviceNodeKind::Hidraw,
        has_relative_pointer: false,
        readable: false,
        writable: true,
    }];
    let output = format_device_scan(&[usb_spotlight(), hidraw]);
    assert!(output.starts_with("Found 2 supported presenter device(s):\n"));
    assert!(output.contains("Kernel name [046d:c53e, USB]"));
    assert!(output.contains("/dev/hidraw2"));
}

#[test]
fn device_details_list_sub_devices() {
    let details = format_device_details(&usb_spotlight());
    assert_eq!(
        details,
        "Name\tLogitech Spotlight (USB)\nVendorId\t046d\nProductId\tc53e\nPhys\tusb-1\nBus Type\tUsb\n\nSub devices:\n• /dev/input/event4: [ReadOnly, Event]\n"
    );
}

#[test]
fn additional_devices_are_collected_from_arguments() {
    let devices =
        additional_devices(&args(&["-D", "1d57:ad03:Demo", "--additional-device=2:3"])).unwrap();
    assert_eq!(devices.len(), 2);
    assert_eq!(devices[0].id.vendor, 0x1d57);
    assert_eq!(devices[1].id.product, 3);
    assert_eq!(
        additional_devices(&args(&["-D", "xx:1"])).unwrap_err(),
        ParseDeviceError::InvalidIdentifier { line: 1, value: "xx".to_owned() }.to_string()
    );
}

#[test]
fn connected_presenters_are_described_with_their_group() {
    let device = usb_spotlight();
    assert_eq!(
        presenter_description(&device),
        "Logitech Spotlight (USB) (046d:c53e) [usb-1]"
    );
    assert_eq!(device_group(device.id), "Device_046d_c53e");
    assert_eq!(
        device_group(DeviceId { vendor: 0xc45, product: 0x8101, bus: Bus::Usb }),
        "Device_0c45_8101"
    );
}
