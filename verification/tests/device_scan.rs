use projecteur_core::device_scan::{
    dedup_nodes, finish_scan, hid_entry_device, merge_scanned_entry, parse_bitmap, parse_hid_id,
    parse_properties, scan_result, sorted_nodes, supports_relative_pointer, DeviceNode, DeviceNodeKind,
    DeviceScanError,
};
use projecteur_core::{all_supported_devices, Bus, DeviceId};

fn node(path: &str, kind: DeviceNodeKind, pointer: bool) -> DeviceNode {
    DeviceNode {
        path: path.to_owned(),
        kind,
        has_relative_pointer: pointer,
        readable: true,
        writable: true,
    }
}

#[test]
fn uevent_properties_keep_the_last_value_of_each_key() {
    let props = parse_properties("B=2\nA=1=x\nnot a property\nB=3\r\n");
    assert_eq!(
        props,
        vec![
            ("A".to_owned(), "1=x".to_owned()),
            ("B".to_owned(), "3".to_owned()),
        ]
    );
}

#[test]
fn hid_ids_name_bus_vendor_and_product() {
    assert_eq!(
        parse_hid_id("0003:0000046D:0000C53E"),
        Some(DeviceId { vendor: 0x046d, product: 0xc53e, bus: Bus::Usb })
    );
    assert_eq!(
        parse_hid_id("0005:0000046D:0000B503:extra"),
        Some(DeviceId { vendor: 0x046d, product: 0xb503, bus: Bus::Bluetooth })
    );
    assert_eq!(parse_hid_id("0004:0000046D:0000C53E"), None);
    assert_eq!(parse_hid_id("0003:0001046D:0000C53E"), None);
    assert_eq!(parse_hid_id("0003:0000046D"), None);
    assert_eq!(parse_hid_id(""), None);
}

#[test]
fn discovers_and_merges_event_and_hidraw_nodes() {
    let supported = all_supported_devices(&[]);
    let uevent =
        "HID_ID=0003:0000046D:0000C53E\nHID_NAME=Kernel Spotlight\nHID_PHYS=usb-1/input0\n";
    let mut devices = Vec::new();

    let mut first = hid_entry_device(uevent, &supported).unwrap();
    assert_eq!(first.physical_id, "usb-1");
    assert_eq!(first.kernel_name, "Kernel Spotlight");
    let pointer = supports_relative_pointer("17\n", "3\n");
    assert!(pointer);
    first.nodes.push(node("/dev/hidraw2", DeviceNodeKind::Hidraw, false));
    merge_scanned_entry(&mut devices, first);

    let mut second = hid_entry_device(uevent, &supported).unwrap();
    second.nodes.push(node("/dev/input/event4", DeviceNodeKind::Event, pointer));
    second.nodes.push(node("/dev/hidraw2", DeviceNodeKind::Hidraw, false));
    merge_scanned_entry(&mut devices, second);

    let devices = finish_scan(devices);
    assert_eq!(devices.len(), 1);
    assert_eq!(devices[0].display_name(), "Logitech Spotlight (USB)");
    assert_eq!(devices[0].physical_id, "usb-1");
    assert_eq!(devices[0].nodes.len(), 2);
    assert_eq!(devices[0].nodes[0].kind, DeviceNodeKind::Event);
    assert!(devices[0].nodes[0].has_relative_pointer);
    assert!(devices[0].nodes.iter().all(|node| node.readable));
}

#[test]
fn ignores_unknown_and_bus_mismatched_devices() {
    let supported = all_supported_devices(&[]);
    assert_eq!(
        hid_entry_device("HID_ID=0003:00001234:00005678\nHID_NAME=Unknown\n", &supported),
        None
    );
    assert_eq!(
        hid_entry_device("HID_ID=0005:0000046D:0000C53E\nHID_NAME=Wrong bus\n", &supported),
        None
    );
    assert_eq!(hid_entry_device("HID_NAME=No id\n", &supported), None);
}

#[test]
fn devices_without_a_physical_id_or_name_keep_them_empty() {
    let supported = all_supported_devices(&[]);
    let device = hid_entry_device("HID_ID=0005:0000046D:0000B503\n", &supported).unwrap();
    assert_eq!(device.physical_id, "");
    assert_eq!(device.kernel_name, "");
    assert_eq!(device.configured_name, "Logitech Spotlight (Bluetooth)");
    assert!(device.nodes.is_empty());
}

#[test]
fn finished_scans_are_sorted() {
    let supported = all_supported_devices(&[]);
    let a = hid_entry_device("HID_ID=0005:0000046D:0000B503\nHID_PHYS=b\n", &supported).unwrap();
    let b = hid_entry_device("HID_ID=0003:0000046D:0000C53E\nHID_PHYS=z\n", &supported).unwrap();
    let c = hid_entry_device("HID_ID=0003:0000046D:0000C53E\nHID_PHYS=a\n", &supported).unwrap();
    let mut devices = Vec::new();
    merge_scanned_entry(&mut devices, b);
    merge_scanned_entry(&mut devices, a);
    merge_scanned_entry(&mut devices, c);
    let devices = finish_scan(devices);
    let order: Vec<(u16, &str)> =
        devices.iter().map(|d| (d.id.product, d.physical_id.as_str())).collect();
    assert_eq!(order, vec![(0xb503, "b"), (0xc53e, "a"), (0xc53e, "z")]);
}

#[test]
fn nodes_are_sorted_by_kind_then_path_and_kept_once() {
    let nodes = vec![
        node("/dev/hidraw1", DeviceNodeKind::Hidraw, false),
        node("/dev/input/event9", DeviceNodeKind::Event, false),
        node("/dev/input/event10", DeviceNodeKind::Event, true),
        node("/dev/input/event9", DeviceNodeKind::Event, true),
    ];
    let sorted = sorted_nodes(&nodes);
    let paths: Vec<&str> = sorted.iter().map(|n| n.path.as_str()).collect();
    assert_eq!(
        paths,
        vec!["/dev/input/event10", "/dev/input/event9", "/dev/input/event9", "/dev/hidraw1"]
    );
    assert!(!sorted[1].has_relative_pointer);
    let unique = dedup_nodes(&sorted);
    assert_eq!(unique.len(), 3);
    assert!(!unique[1].has_relative_pointer);
}

#[test]
fn node_paths_sort_component_by_component() {
    let nodes = vec![
        node("/dev/input-x/event1", DeviceNodeKind::Event, false),
        node("/dev/input/event1", DeviceNodeKind::Event, false),
        node("/dev/input", DeviceNodeKind::Event, false),
    ];
    let sorted = sorted_nodes(&nodes);
    let paths: Vec<&str> = sorted.iter().map(|n| n.path.as_str()).collect();
    assert_eq!(paths, vec!["/dev/input", "/dev/input/event1", "/dev/input-x/event1"]);
    let mut std_order: Vec<std::path::PathBuf> =
        nodes.iter().map(|n| std::path::PathBuf::from(&n.path)).collect();
    std_order.sort();
    let std_paths: Vec<String> = std_order.iter().map(|p| p.display().to_string()).collect();
    assert_eq!(paths, std_paths);
}

#[test]
fn finished_scans_order_devices_and_their_nodes() {
    let supported = all_supported_devices(&[]);
    let mut a = hid_entry_device("HID_ID=0003:0000046D:0000C548\nHID_PHYS=p\n", &supported).unwrap();
    a.nodes = vec![
        node("/dev/hidraw2", DeviceNodeKind::Hidraw, false),
        node("/dev/input/event3", DeviceNodeKind::Event, true),
        node("/dev/hidraw2", DeviceNodeKind::Hidraw, false),
        node("/dev/input/event2", DeviceNodeKind::Event, false),
    ];
    let b = hid_entry_device("HID_ID=0003:0000046D:0000C53E\nHID_PHYS=q\n", &supported).unwrap();
    let devices = finish_scan(vec![a, b]);
    assert_eq!(devices.len(), 2);
    assert_eq!(devices[0].id.product, 0xc53e);
    assert_eq!(devices[1].id.product, 0xc548);
    let paths: Vec<&str> = devices[1].nodes.iter().map(|n| n.path.as_str()).collect();
    assert_eq!(paths, vec!["/dev/input/event2", "/dev/input/event3", "/dev/hidraw2"]);
}

#[test]
fn capability_bitmaps_use_their_last_word() {
    assert_eq!(parse_bitmap("17\n"), 0x17);
    assert_eq!(parse_bitmap("1 0 3\n"), 3);
    assert_eq!(parse_bitmap(""), 0);
    assert_eq!(parse_bitmap("  \n"), 0);
    assert_eq!(parse_bitmap("zz"), 0);
    assert!(!supports_relative_pointer("3", "3"));
    assert!(!supports_relative_pointer("4", "1"));
    assert!(supports_relative_pointer("4", "ff"));
}

#[test]
fn missing_hid_tree_is_an_error() {
    let error = DeviceScanError {
        path: "/missing".to_owned(),
        reason: "No such file or directory (os error 2)".to_owned(),
    };
    assert!(error.to_string().contains("cannot scan HID devices"));
    assert_eq!(
        error.to_string(),
        "cannot scan HID devices below /missing: No such file or directory (os error 2)"
    );
}

#[test]
fn a_scan_merges_entries_and_keeps_only_supported_models() {
    let supported = all_supported_devices(&[]);
    let entries = vec![
        (
            "HID_ID=0003:0000046D:0000C548\nHID_PHYS=usb-2/input1\n".to_owned(),
            vec![node("/dev/hidraw4", DeviceNodeKind::Hidraw, false)],
        ),
        (
            "HID_ID=0003:00001234:00005678\nHID_PHYS=usb-9\n".to_owned(),
            vec![node("/dev/hidraw9", DeviceNodeKind::Hidraw, false)],
        ),
        (
            "HID_ID=0003:0000046D:0000C548\nHID_PHYS=usb-2/input0\n".to_owned(),
            vec![
                node("/dev/input/event7", DeviceNodeKind::Event, true),
                node("/dev/hidraw4", DeviceNodeKind::Hidraw, false),
            ],
        ),
        (
            "HID_ID=0003:0000046D:0000C53E\nHID_PHYS=usb-1/input0\n".to_owned(),
            vec![node("/dev/hidraw1", DeviceNodeKind::Hidraw, false)],
        ),
    ];
    let devices = scan_result(&entries, &supported);
    assert_eq!(devices.len(), 2);
    assert_eq!(devices[0].id.product, 0xc53e);
    assert_eq!(devices[0].configured_name, "Logitech Spotlight (USB)");
    assert_eq!(devices[1].id.product, 0xc548);
    assert_eq!(devices[1].physical_id, "usb-2");
    let paths: Vec<&str> = devices[1].nodes.iter().map(|n| n.path.as_str()).collect();
    assert_eq!(paths, vec!["/dev/input/event7", "/dev/hidraw4"]);
}
