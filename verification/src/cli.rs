//! Command-line options and the texts the command line prints.

use vstd::prelude::*;

use crate::config::ProjecteurConfig;
use crate::device_scan::{nodes_view, DeviceNodeKind, DiscoveredDevice, discovered_view};
use crate::order::assoc_get;
use crate::presenter::{DeviceView, NodeView, PresenterSelection};
use crate::registry::{
    additional_device, devices_view, parse_additional_device, registry_error_text, Bus, DeviceId,
    SupportedDevice,
};
use crate::settings::clamp_to;
use crate::text::{
    chars_are, chars_of, decimal, hex, int_value, push_chars, push_decimal, push_hex_padded,
    push_text, split_on, strip_prefix, strip_prefix_chars, string_of, zero_padded,
};

verus! {

/// Four lower-case hexadecimal digits.
pub open spec fn hex4(n: u16) -> Seq<char> {
    zero_padded(hex(n as nat), 4)
}

/// `true` or `false`.
pub open spec fn bool_text(b: bool) -> Seq<char> {
    if b {
        "true"@
    } else {
        "false"@
    }
}

/// The name a device is shown by.
pub open spec fn shown_name(d: DeviceView) -> Seq<char> {
    if d.3.len() == 0 {
        d.2
    } else {
        d.3
    }
}

/// One node line of the device scan report.
pub open spec fn scan_node_line(n: NodeView) -> Seq<char> {
    let kind = match n.1 {
        DeviceNodeKind::Event => "event"@,
        DeviceNodeKind::Hidraw => "hidraw"@,
    };
    let relative = if n.1 == DeviceNodeKind::Event {
        if n.2 {
            ", relative-pointer=yes"@
        } else {
            ", relative-pointer=no"@
        }
    } else {
        Seq::empty()
    };
    "  "@ + n.0 + " ("@ + kind + ", readable="@ + bool_text(n.3) + ", writable="@ + bool_text(n.4)
        + relative + ")\n"@
}

/// The node lines of the device scan report.
pub open spec fn scan_node_lines(ns: Seq<NodeView>) -> Seq<char>
    decreases ns.len(),
{
    if ns.len() == 0 {
        Seq::empty()
    } else {
        scan_node_lines(ns.drop_last()) + scan_node_line(ns.last())
    }
}

/// One device's part of the device scan report.
pub open spec fn scan_device_block(d: DeviceView) -> Seq<char> {
    let bus = match d.0.bus {
        Bus::Usb => "USB"@,
        Bus::Bluetooth => "Bluetooth"@,
    };
    "- "@ + shown_name(d) + " ["@ + hex4(d.0.vendor) + ":"@ + hex4(d.0.product) + ", "@ + bus
        + "]\n"@ + (if d.1.len() > 0 {
        "  physical-id: "@ + d.1 + "\n"@
    } else {
        Seq::empty()
    }) + (if d.4.len() == 0 {
        "  no event or hidraw nodes found\n"@
    } else {
        Seq::empty()
    }) + scan_node_lines(d.4)
}

/// The device parts of the device scan report.
pub open spec fn scan_device_blocks(ds: Seq<DeviceView>) -> Seq<char>
    decreases ds.len(),
{
    if ds.len() == 0 {
        Seq::empty()
    } else {
        scan_device_blocks(ds.drop_last()) + scan_device_block(ds.last())
    }
}

/// The device scan report.
pub open spec fn scan_report(ds: Seq<DeviceView>) -> Seq<char> {
    if ds.len() == 0 {
        "No supported presenter devices found.\n"@
    } else {
        "Found "@ + decimal(ds.len()) + " supported presenter device(s):\n"@ + scan_device_blocks(ds)
    }
}

fn push_string(s: &mut String, t: &String)
    ensures
        final(s)@ == old(s)@ + t@,
{
    push_text(s, t.as_str());
}

fn push_bool(s: &mut String, b: bool)
    ensures
        final(s)@ == old(s)@ + bool_text(b),
{
    if b {
        push_text(s, "true");
    } else {
        push_text(s, "false");
    }
}

fn push_scan_node_line(out: &mut String, node: &crate::device_scan::DeviceNode)
    ensures
        final(out)@ == old(out)@ + scan_node_line(node@),
{
    let ghost start = out@;
    push_text(out, "  ");
    push_string(out, &node.path);
    push_text(out, " (");
    match node.kind {
        DeviceNodeKind::Event => push_text(out, "event"),
        DeviceNodeKind::Hidraw => push_text(out, "hidraw"),
    }
    push_text(out, ", readable=");
    push_bool(out, node.readable);
    push_text(out, ", writable=");
    push_bool(out, node.writable);
    if node.kind == DeviceNodeKind::Event {
        if node.has_relative_pointer {
            push_text(out, ", relative-pointer=yes");
        } else {
            push_text(out, ", relative-pointer=no");
        }
    }
    push_text(out, ")\n");
    assert(out@ =~= start + scan_node_line(node@));
}

fn push_scan_device_head(out: &mut String, device: &DiscoveredDevice)
    ensures
        final(out)@ == old(out)@ + ("- "@ + shown_name(device@) + " ["@ + hex4(device.id.vendor)
            + ":"@ + hex4(device.id.product) + ", "@ + match device.id.bus {
            Bus::Usb => "USB"@,
            Bus::Bluetooth => "Bluetooth"@,
        } + "]\n"@),
{
    let ghost start = out@;
    push_text(out, "- ");
    push_text(out, device.display_name());
    push_text(out, " [");
    push_hex_padded(out, device.id.vendor as u64, 4);
    push_text(out, ":");
    push_hex_padded(out, device.id.product as u64, 4);
    push_text(out, ", ");
    match device.id.bus {
        Bus::Usb => push_text(out, "USB"),
        Bus::Bluetooth => push_text(out, "Bluetooth"),
    }
    push_text(out, "]\n");
    assert(out@ =~= start + ("- "@ + shown_name(device@) + " ["@ + hex4(device.id.vendor) + ":"@
        + hex4(device.id.product) + ", "@ + match device.id.bus {
        Bus::Usb => "USB"@,
        Bus::Bluetooth => "Bluetooth"@,
    } + "]\n"@));
}

fn push_scan_device_block(out: &mut String, device: &DiscoveredDevice)
    ensures
        final(out)@ == old(out)@ + scan_device_block(device@),
{
    let ghost start = out@;
    push_scan_device_head(out, device);
    let ghost head = out@;
    if !device.physical_id.as_str().is_empty() {
        push_text(out, "  physical-id: ");
        push_string(out, &device.physical_id);
        push_text(out, "\n");
    }
    let ghost after_phys = out@;
    if device.nodes.len() == 0 {
        push_text(out, "  no event or hidraw nodes found\n");
    }
    let ghost mid = out@;
    let ghost nv = nodes_view(device.nodes@);
    let mut j: usize = 0;
    assert(nv.take(0) =~= Seq::<NodeView>::empty());
    assert(out@ =~= mid + scan_node_lines(nv.take(0)));
    while j < device.nodes.len()
        invariant
            j <= device.nodes@.len(),
            nv == nodes_view(device.nodes@),
            out@ == mid + scan_node_lines(nv.take(j as int)),
        decreases device.nodes@.len() - j,
    {
        let node = &device.nodes[j];
        push_scan_node_line(out, node);
        assert(nv[j as int] == node@);
        assert(nv.take(j + 1).drop_last() =~= nv.take(j as int));
        j = j + 1;
    }
    assert(nv.take(j as int) =~= nv);
    assert(out@ =~= start + scan_device_block(device@));
}

/// The report of a device scan.
pub fn format_device_scan(devices: &[DiscoveredDevice]) -> (r: String)
    ensures
        r@ == scan_report(discovered_view(devices@)),
{
    if devices.len() == 0 {
        return "No supported presenter devices found.\n".to_owned();
    }
    let ghost dv = discovered_view(devices@);
    let mut out = String::new();
    push_text(&mut out, "Found ");
    push_decimal(&mut out, devices.len() as u64);
    push_text(&mut out, " supported presenter device(s):\n");
    let ghost head = out@;
    let mut i: usize = 0;
    assert(dv.take(0) =~= Seq::<DeviceView>::empty());
    assert(out@ =~= head + scan_device_blocks(dv.take(0)));
    while i < devices.len()
        invariant
            i <= devices@.len(),
            dv == discovered_view(devices@),
            out@ == head + scan_device_blocks(dv.take(i as int)),
        decreases devices@.len() - i,
    {
        let device = &devices[i];
        push_scan_device_block(&mut out, device);
        assert(dv[i as int] == device@);
        assert(dv.take(i + 1).drop_last() =~= dv.take(i as int));
        i = i + 1;
    }
    assert(dv.take(i as int) =~= dv);
    assert(out@ =~= scan_report(dv));
    out
}

/// One node line of the device details.
pub open spec fn detail_node_line(n: NodeView) -> Seq<char> {
    let access = if n.3 && n.4 {
        "ReadWrite"@
    } else if n.3 {
        "ReadOnly"@
    } else if n.4 {
        "WriteOnly"@
    } else {
        "Inaccessible"@
    };
    let kind = match n.1 {
        DeviceNodeKind::Event => "Event"@,
        DeviceNodeKind::Hidraw => "Hidraw, HID++"@,
    };
    "• "@ + n.0 + ": ["@ + access + ", "@ + kind + "]\n"@
}

/// The node lines of the device details.
pub open spec fn detail_node_lines(ns: Seq<NodeView>) -> Seq<char>
    decreases ns.len(),
{
    if ns.len() == 0 {
        Seq::empty()
    } else {
        detail_node_lines(ns.drop_last()) + detail_node_line(ns.last())
    }
}

/// The details of one device as the preferences dialog lists them.
pub open spec fn device_details(d: DeviceView) -> Seq<char> {
    let bus = match d.0.bus {
        Bus::Usb => "Usb"@,
        Bus::Bluetooth => "Bluetooth"@,
    };
    "Name\t"@ + shown_name(d) + "\nVendorId\t"@ + hex4(d.0.vendor) + "\nProductId\t"@ + hex4(
        d.0.product,
    ) + "\nPhys\t"@ + d.1 + "\nBus Type\t"@ + bus + "\n\nSub devices:\n"@ + detail_node_lines(d.4)
}

/// The details of one device.
pub fn format_device_details(device: &DiscoveredDevice) -> (r: String)
    ensures
        r@ == device_details(device@),
{
    let mut out = String::new();
    push_text(&mut out, "Name\t");
    push_text(&mut out, device.display_name());
    push_text(&mut out, "\nVendorId\t");
    push_hex_padded(&mut out, device.id.vendor as u64, 4);
    push_text(&mut out, "\nProductId\t");
    push_hex_padded(&mut out, device.id.product as u64, 4);
    push_text(&mut out, "\nPhys\t");
    push_string(&mut out, &device.physical_id);
    push_text(&mut out, "\nBus Type\t");
    match device.id.bus {
        Bus::Usb => push_text(&mut out, "Usb"),
        Bus::Bluetooth => push_text(&mut out, "Bluetooth"),
    }
    push_text(&mut out, "\n\nSub devices:\n");
    let ghost mid = out@;
    let ghost nv = nodes_view(device.nodes@);
    let mut j: usize = 0;
    assert(nv.take(0) =~= Seq::<NodeView>::empty());
    assert(out@ =~= mid + detail_node_lines(nv.take(0)));
    while j < device.nodes.len()
        invariant
            j <= device.nodes@.len(),
            nv == nodes_view(device.nodes@),
            out@ == mid + detail_node_lines(nv.take(j as int)),
        decreases device.nodes@.len() - j,
    {
        let node = &device.nodes[j];
        let ghost before_node = out@;
        push_text(&mut out, "• ");
        push_string(&mut out, &node.path);
        push_text(&mut out, ": [");
        if node.readable && node.writable {
            push_text(&mut out, "ReadWrite");
        } else if node.readable {
            push_text(&mut out, "ReadOnly");
        } else if node.writable {
            push_text(&mut out, "WriteOnly");
        } else {
            push_text(&mut out, "Inaccessible");
        }
        push_text(&mut out, ", ");
        match node.kind {
            DeviceNodeKind::Event => push_text(&mut out, "Event"),
            DeviceNodeKind::Hidraw => push_text(&mut out, "Hidraw, HID++"),
        }
        push_text(&mut out, "]\n");
        assert(nv[j as int] == node@);
        assert(out@ =~= before_node + detail_node_line(node@));
        assert(nv.take(j + 1).drop_last() =~= nv.take(j as int));
        j = j + 1;
    }
    assert(nv.take(j as int) =~= nv);
    out
}

/// The configuration group of a device model: `Device_vvvv_pppp`.
pub open spec fn group_of(id: DeviceId) -> Seq<char> {
    "Device_"@ + hex4(id.vendor) + "_"@ + hex4(id.product)
}

/// The configuration group that holds a device model's settings.
pub fn device_group(id: DeviceId) -> (r: String)
    ensures
        r@ == group_of(id),
{
    let mut s = String::new();
    push_text(&mut s, "Device_");
    push_hex_padded(&mut s, id.vendor as u64, 4);
    push_text(&mut s, "_");
    push_hex_padded(&mut s, id.product as u64, 4);
    s
}

/// How a connected presenter is described: name, identity and physical ID.
pub open spec fn description_of(d: DeviceView) -> Seq<char> {
    shown_name(d) + " ("@ + hex4(d.0.vendor) + ":"@ + hex4(d.0.product) + ") ["@ + d.1 + "]"@
}

/// Describe a connected presenter.
pub fn presenter_description(device: &DiscoveredDevice) -> (r: String)
    ensures
        r@ == description_of(device@),
{
    let mut s = String::new();
    push_text(&mut s, device.display_name());
    push_text(&mut s, " (");
    push_hex_padded(&mut s, device.id.vendor as u64, 4);
    push_text(&mut s, ":");
    push_hex_padded(&mut s, device.id.product as u64, 4);
    push_text(&mut s, ") [");
    push_string(&mut s, &device.physical_id);
    push_text(&mut s, "]");
    s
}

/// A byte option given as text: `default` when absent, empty or not an
/// `i32`, else the number limited to `0..=maximum`.
pub open spec fn clamped_byte(value: Option<Seq<char>>, default: u8, maximum: u8) -> u8 {
    match value {
        Some(v) => if v.len() > 0 && int_value(v, 10, true, i32::MIN as int, i32::MAX as int) is Some {
            clamp_to(
                int_value(v, 10, true, i32::MIN as int, i32::MAX as int)->0 as i32,
                0,
                maximum as i32,
            ) as u8
        } else {
            default
        },
        None => default,
    }
}

/// Read a byte option given as text.
pub fn parse_clamped(value: Option<&str>, default: u8, maximum: u8) -> (r: u8)
    ensures
        r == clamped_byte(
            match value {
                Some(v) => Some(v@),
                None => None,
            },
            default,
            maximum,
        ),
{
    match value {
        None => default,
        Some(v) => {
            let c = chars_of(v);
            if c.len() == 0 {
                return default;
            }
            match crate::text::parse_i32(c.as_slice()) {
                None => default,
                Some(n) => {
                    let m = maximum as i32;
                    let k = if n < 0 {
                        0
                    } else if n > m {
                        m
                    } else {
                        n
                    };
                    k as u8
                },
            }
        },
    }
}

/// A request to vibrate a presenter.
#[derive(Debug, PartialEq, Eq)]
pub struct VibrationCommand {
    pub intensity: u8,
    pub length: u8,
    pub presenter: Option<String>,
}

/// What the vibration options from argument `i` on leave: the vibration
/// value and the presenter path.
pub open spec fn vibration_scan(
    args: Seq<Seq<char>>,
    i: int,
    value: Option<Seq<char>>,
    presenter: Option<Seq<char>>,
) -> (Option<Seq<char>>, Option<Seq<char>>)
    decreases args.len() + 1 - i,
{
    if i < 0 || i >= args.len() {
        (value, presenter)
    } else {
        let a = args[i];
        if a == "--vibrate"@ {
            vibration_scan(args, i + 1, Some(Seq::empty()), presenter)
        } else if strip_prefix(a, "--vibrate="@) is Some {
            vibration_scan(args, i + 1, strip_prefix(a, "--vibrate="@), presenter)
        } else if (a == "-c"@ || a == "--command"@) && i + 1 < args.len() {
            let c = args[i + 1];
            let v = if c == "vibrate"@ {
                Some(Seq::empty())
            } else if strip_prefix(c, "vibrate="@) is Some {
                strip_prefix(c, "vibrate="@)
            } else {
                value
            };
            vibration_scan(args, i + 2, v, presenter)
        } else if a == "--presenter"@ {
            vibration_scan(
                args,
                i + 2,
                value,
                if i + 1 < args.len() {
                    Some(args[i + 1])
                } else {
                    None
                },
            )
        } else if strip_prefix(a, "--presenter="@) is Some {
            vibration_scan(args, i + 1, value, strip_prefix(a, "--presenter="@))
        } else {
            vibration_scan(args, i + 1, value, presenter)
        }
    }
}

/// The vibration an argument list asks for: intensity (default 128, at
/// most 255) and length (default 0, at most 10) from `INTENSITY,LENGTH`.
pub open spec fn vibration_request(args: Seq<Seq<char>>) -> Option<(u8, u8, Option<Seq<char>>)> {
    let (value, presenter) = vibration_scan(args, 0, None, None);
    match value {
        None => None,
        Some(v) => {
            let f = split_on(v, ',');
            Some(
                (
                    clamped_byte(Some(f[0]), 128, 255),
                    clamped_byte(
                        if f.len() > 1 {
                            Some(f[1])
                        } else {
                            None
                        },
                        0,
                        10,
                    ),
                    presenter,
                ),
            )
        },
    }
}

/// The views of argument strings.
pub open spec fn arg_views(args: Seq<String>) -> Seq<Seq<char>> {
    args.map_values(|a: String| a@)
}

/// Read a vibration request from the command line.
pub fn parse_vibration_command(arguments: &[String]) -> (r: Option<VibrationCommand>)
    ensures
        match vibration_request(arg_views(arguments@)) {
            None => r is None,
            Some((intensity, length, presenter)) => r matches Some(c) && c.intensity == intensity
                && c.length == length && match presenter {
                Some(p) => c.presenter matches Some(q) && q@ == p,
                None => c.presenter is None,
            },
        },
{
    let ghost av = arg_views(arguments@);
    let mut value: Option<Vec<char>> = None;
    let mut presenter: Option<String> = None;
    let mut index: usize = 0;
    while index < arguments.len()
        invariant
            av == arg_views(arguments@),
            index <= arguments@.len() + 1,
            vibration_scan(av, 0, None, None) == vibration_scan(
                av,
                index as int,
                match value {
                    Some(v) => Some(v@),
                    None => None,
                },
                match presenter {
                    Some(p) => Some(p@),
                    None => None,
                },
            ),
        decreases arguments@.len() + 1 - index,
    {
        assert(av[index as int] == arguments@[index as int]@);
        let a = chars_of(arguments[index].as_str());
        let a = a.as_slice();
        if chars_are(a, "--vibrate") {
            value = Some(Vec::new());
            assert(value->0@ =~= Seq::<char>::empty());
        } else if let Some(rest) = strip_prefix_chars(a, "--vibrate=") {
            value = Some(rest);
        } else if (chars_are(a, "-c") || chars_are(a, "--command")) && index + 1 < arguments.len() {
            index = index + 1;
            assert(av[index as int] == arguments@[index as int]@);
            let c = chars_of(arguments[index].as_str());
            if chars_are(c.as_slice(), "vibrate") {
                value = Some(Vec::new());
                assert(value->0@ =~= Seq::<char>::empty());
            } else if let Some(rest) = strip_prefix_chars(c.as_slice(), "vibrate=") {
                value = Some(rest);
            }
        } else if chars_are(a, "--presenter") {
            if index + 1 < arguments.len() {
                index = index + 1;
                assert(av[index as int] == arguments@[index as int]@);
                presenter = Some(arguments[index].clone());
            } else {
                let ghost v = match &value {
                    Some(v) => Some(v@),
                    None => None,
                };
                assert(vibration_scan(av, index + 2, v, None) == (v, None::<Seq<char>>));
                assert(vibration_scan(av, arguments@.len() as int, v, None) == (
                    v,
                    None::<Seq<char>>,
                ));
                presenter = None;
                index = arguments.len();
                continue ;
            }
        } else if let Some(rest) = strip_prefix_chars(a, "--presenter=") {
            presenter = Some(string_of(rest.as_slice()));
        }
        index = index + 1;
    }
    let v = match value {
        None => {
            return None;
        },
        Some(v) => v,
    };
    let fields = crate::text::split_chars(v.as_slice(), ',');
    proof {
        crate::text::lemma_split_nonempty(v@, ',');
    }
    assert(crate::text::views(fields@)[0] == fields@[0]@);
    let first = string_of(fields[0].as_slice());
    let intensity = parse_clamped(Some(first.as_str()), 128, 255);
    let length = if fields.len() > 1 {
        assert(crate::text::views(fields@)[1] == fields@[1]@);
        let second = string_of(fields[1].as_slice());
        parse_clamped(Some(second.as_str()), 0, 10)
    } else {
        parse_clamped(None, 0, 10)
    };
    Some(VibrationCommand { intensity, length, presenter })
}

/// The presenters added on the command line with `-D VALUE`,
/// `--additional-device VALUE` or `--additional-device=VALUE`, from
/// argument `i` on, or the first error.
pub open spec fn additional_from(args: Seq<Seq<char>>, i: int) -> Result<
    Seq<(DeviceId, Seq<char>)>,
    Seq<char>,
>
    decreases args.len() + 1 - i,
{
    if i < 0 || i >= args.len() {
        Ok(Seq::empty())
    } else {
        let a = args[i];
        let (value, next) = if a == "-D"@ || a == "--additional-device"@ {
            (
                if i + 1 < args.len() {
                    Some(args[i + 1])
                } else {
                    None
                },
                i + 2,
            )
        } else {
            (strip_prefix(a, "--additional-device="@), i + 1)
        };
        if (a == "-D"@ || a == "--additional-device"@) && i + 1 >= args.len() {
            Err(a + " requires VENDOR:PRODUCT[:NAME]"@)
        } else {
            match value {
                None => additional_from(args, next),
                Some(v) => match additional_device(v) {
                    Err(e) => Err(registry_error_text(e)),
                    Ok(d) => match additional_from(args, next) {
                        Ok(ds) => Ok(seq![d] + ds),
                        Err(m) => Err(m),
                    },
                },
            }
        }
    }
}

/// The presenters added on the command line.
pub fn additional_devices(arguments: &[String]) -> (r: Result<Vec<SupportedDevice>, String>)
    ensures
        match additional_from(arg_views(arguments@), 0) {
            Ok(ds) => r matches Ok(v) && devices_view(v@) == ds,
            Err(m) => r matches Err(s) && s@ == m,
        },
{
    let ghost av = arg_views(arguments@);
    let mut devices: Vec<SupportedDevice> = Vec::new();
    let mut index: usize = 0;
    assert(devices_view(devices@) =~= Seq::<(DeviceId, Seq<char>)>::empty());
    while index < arguments.len()
        invariant
            av == arg_views(arguments@),
            index <= arguments@.len() + 1,
            match additional_from(av, 0) {
                Ok(all) => match additional_from(av, index as int) {
                    Ok(rest) => all == devices_view(devices@) + rest,
                    Err(_) => false,
                },
                Err(m) => additional_from(av, index as int) == Err::<
                    Seq<(DeviceId, Seq<char>)>,
                    Seq<char>,
                >(m),
            },
        decreases arguments@.len() + 1 - index,
    {
        assert(av[index as int] == arguments@[index as int]@);
        let a = chars_of(arguments[index].as_str());
        let value: Option<String> = if chars_are(a.as_slice(), "-D") || chars_are(
            a.as_slice(),
            "--additional-device",
        ) {
            index = index + 1;
            if index >= arguments.len() {
                let mut m = String::new();
                push_chars(&mut m, a.as_slice());
                push_text(&mut m, " requires VENDOR:PRODUCT[:NAME]");
                return Err(m);
            }
            assert(av[index as int] == arguments@[index as int]@);
            Some(arguments[index].clone())
        } else {
            match strip_prefix_chars(a.as_slice(), "--additional-device=") {
                Some(rest) => Some(string_of(rest.as_slice())),
                None => None,
            }
        };
        if let Some(v) = value {
            match parse_additional_device(v.as_str()) {
                Ok(d) => {
                    let ghost prev = devices@;
                    devices.push(d);
                    assert(devices_view(devices@) =~= devices_view(prev).push(d@));
                },
                Err(e) => {
                    return Err(e.to_string());
                },
            }
        }
        index = index + 1;
    }
    Ok(devices)
}


/// The command-line options of the application.
#[derive(Debug, PartialEq, Eq)]
pub struct CliOptions {
    pub show_window: bool,
    pub tray_visible: bool,
    pub overlay_disabled: bool,
    pub overlay_preview: bool,
    pub config_path: Option<String>,
    pub config_path_is_explicit: bool,
    pub presenter: PresenterSelection,
    pub uinput_enabled: bool,
    pub startup_error: Option<String>,
    pub additional_devices: Vec<SupportedDevice>,
    pub startup_commands: Vec<String>,
}

/// A presenter selection with its path as characters.
pub enum SelectionValue {
    Auto,
    Explicit(Seq<char>),
    Disabled,
}

/// The selection's view.
pub open spec fn selection_value(p: PresenterSelection) -> SelectionValue {
    match p {
        PresenterSelection::Auto => SelectionValue::Auto,
        PresenterSelection::Explicit(s) => SelectionValue::Explicit(s@),
        PresenterSelection::Disabled => SelectionValue::Disabled,
    }
}

/// Command-line options with their texts as characters.
pub struct CliValues {
    pub show_window: bool,
    pub tray_visible: bool,
    pub overlay_disabled: bool,
    pub overlay_preview: bool,
    pub config_path: Option<Seq<char>>,
    pub config_path_is_explicit: bool,
    pub presenter: SelectionValue,
    pub uinput_enabled: bool,
    pub startup_error: Option<Seq<char>>,
    pub additional_devices: Seq<(DeviceId, Seq<char>)>,
    pub startup_commands: Seq<Seq<char>>,
}

/// An optional text's characters.
pub open spec fn opt_text(s: Option<String>) -> Option<Seq<char>> {
    match s {
        Some(t) => Some(t@),
        None => None,
    }
}

impl View for CliOptions {
    type V = CliValues;

    open spec fn view(&self) -> CliValues {
        CliValues {
            show_window: self.show_window,
            tray_visible: self.tray_visible,
            overlay_disabled: self.overlay_disabled,
            overlay_preview: self.overlay_preview,
            config_path: opt_text(self.config_path),
            config_path_is_explicit: self.config_path_is_explicit,
            presenter: selection_value(self.presenter),
            uinput_enabled: self.uinput_enabled,
            startup_error: opt_text(self.startup_error),
            additional_devices: devices_view(self.additional_devices@),
            startup_commands: arg_views(self.startup_commands@),
        }
    }
}

/// The options before any argument is read.
pub open spec fn cli_defaults() -> CliValues {
    CliValues {
        show_window: false,
        tray_visible: true,
        overlay_disabled: false,
        overlay_preview: false,
        config_path: None,
        config_path_is_explicit: false,
        presenter: SelectionValue::Auto,
        uinput_enabled: true,
        startup_error: None,
        additional_devices: Seq::empty(),
        startup_commands: Seq::empty(),
    }
}

impl Default for CliOptions {
    fn default() -> (o: CliOptions)
        ensures
            o@ == cli_defaults(),
    {
        let o = CliOptions {
            show_window: false,
            tray_visible: true,
            overlay_disabled: false,
            overlay_preview: false,
            config_path: None,
            config_path_is_explicit: false,
            presenter: PresenterSelection::Auto,
            uinput_enabled: true,
            startup_error: None,
            additional_devices: Vec::new(),
            startup_commands: Vec::new(),
        };
        assert(o@.additional_devices =~= Seq::<(DeviceId, Seq<char>)>::empty());
        assert(o@.startup_commands =~= Seq::<Seq<char>>::empty());
        o
    }
}

/// The presenter a `--presenter` value selects.
pub open spec fn presenter_value(p: Seq<char>) -> SelectionValue {
    if p == "auto"@ {
        SelectionValue::Auto
    } else {
        SelectionValue::Explicit(p)
    }
}

/// The options after reading the arguments from `i` on, or the first error.
pub open spec fn cli_from(o: CliValues, args: Seq<Seq<char>>, i: int) -> Result<CliValues, Seq<char>>
    decreases args.len() + 1 - i,
{
    if i < 0 || i >= args.len() {
        Ok(o)
    } else {
        let a = args[i];
        let has_next = i + 1 < args.len();
        if a == "--show-window"@ || a == "--show-dialog"@ {
            cli_from(CliValues { show_window: true, ..o }, args, i + 1)
        } else if a == "--hide-systray-icon"@ {
            cli_from(CliValues { tray_visible: false, ..o }, args, i + 1)
        } else if a == "--disable-overlay"@ {
            cli_from(CliValues { overlay_disabled: true, ..o }, args, i + 1)
        } else if a == "--overlay-preview"@ {
            cli_from(CliValues { overlay_preview: true, ..o }, args, i + 1)
        } else if a == "--presenter"@ {
            if !has_next {
                Err("--presenter requires a hidraw path"@)
            } else {
                cli_from(CliValues { presenter: presenter_value(args[i + 1]), ..o }, args, i + 2)
            }
        } else if a == "--no-presenter"@ {
            cli_from(CliValues { presenter: SelectionValue::Disabled, ..o }, args, i + 1)
        } else if a == "--disable-uinput"@ || a == "--no-uinput"@ {
            cli_from(CliValues { uinput_enabled: false, ..o }, args, i + 1)
        } else if a == "--cfg"@ {
            if !has_next {
                Err("--cfg requires a file path"@)
            } else {
                cli_from(
                    CliValues { config_path: Some(args[i + 1]), config_path_is_explicit: true, ..o },
                    args,
                    i + 2,
                )
            }
        } else if a == "-D"@ || a == "--additional-device"@ {
            if !has_next {
                Err(a + " requires VENDOR:PRODUCT[:NAME]"@)
            } else {
                match additional_device(args[i + 1]) {
                    Err(e) => Err(registry_error_text(e)),
                    Ok(d) => cli_from(
                        CliValues { additional_devices: o.additional_devices.push(d), ..o },
                        args,
                        i + 2,
                    ),
                }
            }
        } else if a == "-c"@ || a == "--command"@ {
            if !has_next {
                Err(a + " requires a command"@)
            } else {
                cli_from(
                    CliValues { startup_commands: o.startup_commands.push(args[i + 1]), ..o },
                    args,
                    i + 2,
                )
            }
        } else if strip_prefix(a, "--cfg="@) is Some {
            let p = strip_prefix(a, "--cfg="@)->0;
            if p.len() == 0 {
                Err("--cfg requires a file path"@)
            } else {
                cli_from(
                    CliValues { config_path: Some(p), config_path_is_explicit: true, ..o },
                    args,
                    i + 1,
                )
            }
        } else if strip_prefix(a, "--presenter="@) is Some {
            let p = strip_prefix(a, "--presenter="@)->0;
            if p.len() == 0 {
                Err("--presenter requires a hidraw path"@)
            } else {
                cli_from(CliValues { presenter: presenter_value(p), ..o }, args, i + 1)
            }
        } else if strip_prefix(a, "--additional-device="@) is Some {
            match additional_device(strip_prefix(a, "--additional-device="@)->0) {
                Err(e) => Err(registry_error_text(e)),
                Ok(d) => cli_from(
                    CliValues { additional_devices: o.additional_devices.push(d), ..o },
                    args,
                    i + 1,
                ),
            }
        } else if strip_prefix(a, "--command="@) is Some {
            let c = strip_prefix(a, "--command="@)->0;
            cli_from(
                if c.len() > 0 {
                    CliValues { startup_commands: o.startup_commands.push(c), ..o }
                } else {
                    o
                },
                args,
                i + 1,
            )
        } else {
            cli_from(o, args, i + 1)
        }
    }
}

/// The options an argument list gives; `default_config` is the path used
/// when no configuration file is named.
pub open spec fn cli_options(args: Seq<Seq<char>>, default_config: Option<Seq<char>>) -> Result<
    CliValues,
    Seq<char>,
> {
    match cli_from(cli_defaults(), args, 0) {
        Err(m) => Err(m),
        Ok(o) => Ok(
            if o.config_path is None {
                CliValues { config_path: default_config, ..o }
            } else {
                o
            },
        ),
    }
}

fn selection_from(p: &[char]) -> (r: PresenterSelection)
    ensures
        selection_value(r) == presenter_value(p@),
{
    if chars_are(p, "auto") {
        PresenterSelection::Auto
    } else {
        PresenterSelection::Explicit(string_of(p))
    }
}

impl CliOptions {
    /// Read the command-line options; `default_config` is the configuration
    /// file used when none is named.
    ///
    /// Fails when an option lacks its value or an added presenter is
    /// malformed.
    pub fn parse(arguments: &[String], default_config: Option<String>) -> (r: Result<
        CliOptions,
        String,
    >)
        ensures
            match cli_options(arg_views(arguments@), opt_text(default_config)) {
                Ok(o) => r matches Ok(x) && x@ == o,
                Err(m) => r matches Err(s) && s@ == m,
            },
    {
        let ghost av = arg_views(arguments@);
        let mut o = CliOptions::default();
        let mut index: usize = 0;
        let n = arguments.len();
        while index < n
            invariant
                n == arguments@.len(),
                av == arg_views(arguments@),
                index <= n,
                cli_from(cli_defaults(), av, 0) == cli_from(o@, av, index as int),
            decreases n - index,
        {
            assert(av[index as int] == arguments@[index as int]@);
            let has_next = index + 1 < n;
            if has_next {
                assert(av[index + 1] == arguments@[index + 1]@);
            }
            let ac = chars_of(arguments[index].as_str());
            let a = ac.as_slice();
            if chars_are(a, "--show-window") || chars_are(a, "--show-dialog") {
                o.show_window = true;
            } else if chars_are(a, "--hide-systray-icon") {
                o.tray_visible = false;
            } else if chars_are(a, "--disable-overlay") {
                o.overlay_disabled = true;
            } else if chars_are(a, "--overlay-preview") {
                o.overlay_preview = true;
            } else if chars_are(a, "--presenter") {
                if !has_next {
                    return Err("--presenter requires a hidraw path".to_owned());
                }
                index = index + 1;
                let p = chars_of(arguments[index].as_str());
                o.presenter = selection_from(p.as_slice());
            } else if chars_are(a, "--no-presenter") {
                o.presenter = PresenterSelection::Disabled;
            } else if chars_are(a, "--disable-uinput") || chars_are(a, "--no-uinput") {
                o.uinput_enabled = false;
            } else if chars_are(a, "--cfg") {
                if !has_next {
                    return Err("--cfg requires a file path".to_owned());
                }
                index = index + 1;
                o.config_path = Some(arguments[index].clone());
                o.config_path_is_explicit = true;
            } else if chars_are(a, "-D") || chars_are(a, "--additional-device") {
                if !has_next {
                    let mut m = String::new();
                    push_chars(&mut m, a);
                    push_text(&mut m, " requires VENDOR:PRODUCT[:NAME]");
                    return Err(m);
                }
                index = index + 1;
                match parse_additional_device(arguments[index].as_str()) {
                    Ok(d) => {
                        let ghost prev = o.additional_devices@;
                        o.additional_devices.push(d);
                        assert(devices_view(o.additional_devices@) =~= devices_view(prev).push(d@));
                    },
                    Err(e) => {
                        return Err(e.to_string());
                    },
                }
            } else if chars_are(a, "-c") || chars_are(a, "--command") {
                if !has_next {
                    let mut m = String::new();
                    push_chars(&mut m, a);
                    push_text(&mut m, " requires a command");
                    return Err(m);
                }
                index = index + 1;
                let ghost prev = o.startup_commands@;
                o.startup_commands.push(arguments[index].clone());
                assert(arg_views(o.startup_commands@) =~= arg_views(prev).push(
                    arguments@[index as int]@,
                ));
            } else if let Some(p) = strip_prefix_chars(a, "--cfg=") {
                if p.len() == 0 {
                    return Err("--cfg requires a file path".to_owned());
                }
                o.config_path = Some(string_of(p.as_slice()));
                o.config_path_is_explicit = true;
            } else if let Some(p) = strip_prefix_chars(a, "--presenter=") {
                if p.len() == 0 {
                    return Err("--presenter requires a hidraw path".to_owned());
                }
                o.presenter = selection_from(p.as_slice());
            } else if let Some(v) = strip_prefix_chars(a, "--additional-device=") {
                let text = string_of(v.as_slice());
                match parse_additional_device(text.as_str()) {
                    Ok(d) => {
                        let ghost prev = o.additional_devices@;
                        o.additional_devices.push(d);
                        assert(devices_view(o.additional_devices@) =~= devices_view(prev).push(d@));
                    },
                    Err(e) => {
                        return Err(e.to_string());
                    },
                }
            } else if let Some(c) = strip_prefix_chars(a, "--command=") {
                if c.len() > 0 {
                    let ghost prev = o.startup_commands@;
                    let text = string_of(c.as_slice());
                    o.startup_commands.push(text);
                    assert(arg_views(o.startup_commands@) =~= arg_views(prev).push(c@));
                }
            }
            index = index + 1;
        }
        if o.config_path.is_none() {
            o.config_path = default_config;
        }
        Ok(o)
    }
}
} // verus!
