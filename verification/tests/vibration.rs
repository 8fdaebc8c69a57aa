use projecteur_core::config::ProjecteurConfig;
use projecteur_core::device_scan::{DeviceNode, DeviceNodeKind, DiscoveredDevice};
use projecteur_core::presenter::{timer_feedback_targets, vibration_target};
use projecteur_core::{Bus, DeviceId};

fn device(product: u16, nodes: Vec<DeviceNode>) -> DiscoveredDevice {
    DiscoveredDevice {
        id: DeviceId { vendor: 0x046d, product, bus: Bus::Usb },
        physical_id: String::new(),
        kernel_name: String::new(),
        configured_name: String::new(),
        nodes,
    }
}

fn hidraw(path: &str, readable: bool, writable: bool) -> DeviceNode {
    DeviceNode {
        path: path.to_owned(),
        kind: DeviceNodeKind::Hidraw,
        has_relative_pointer: false,
        readable,
        writable,
    }
}

#[test]
fn vibration_goes_to_the_first_writable_spotlight_node() {
    let devices = vec![
        device(0x1234, vec![hidraw("/dev/hidraw0", true, true)]),
        device(0xc53e, vec![hidraw("/dev/hidraw1", true, false), hidraw("/dev/hidraw2", true, true)]),
        device(0xb503, vec![hidraw("/dev/hidraw3", true, true)]),
    ];
    assert_eq!(vibration_target(&devices, None), Some((1, "/dev/hidraw2".to_owned())));
    assert_eq!(
        vibration_target(&devices, Some("/dev/hidraw3")),
        Some((1, "/dev/hidraw3".to_owned()))
    );
    assert_eq!(vibration_target(&devices, Some("/dev/hidraw0")), None);
    assert_eq!(vibration_target(&[], None), None);
}

#[test]
fn timer_feedback_follows_each_devices_haptic_strength() {
    let devices = vec![
        device(0xc53e, vec![hidraw("/dev/hidraw1", true, true)]),
        device(0xb503, vec![hidraw("/dev/hidraw2", true, true)]),
        device(0xc548, vec![hidraw("/dev/hidraw3", true, true)]),
        device(0xb506, vec![hidraw("/dev/hidraw4", false, true)]),
    ];
    let config = ProjecteurConfig::parse(
        "[Device_046d_b503]\npresentationTimerHapticStrength=0\n[Device_046d_c548]\npresentationTimerHapticStrength=100\n",
    )
    .unwrap();
    assert_eq!(
        timer_feedback_targets(&config, &devices),
        vec![
            (1, 128, "/dev/hidraw1".to_owned()),
            (1, 255, "/dev/hidraw3".to_owned()),
        ]
    );
}
