//! Presenter handling decisions: which device nodes to use, how recorded
//! frames are normalised, Spotlight hold notifications, relative motion and
//! the native key sequences offered for mappings.

use vstd::prelude::*;

use crate::device_scan::{nodes_view, DeviceNodeKind, DiscoveredDevice, discovered_view};
use crate::hidpp::{spotlight_index, spotlight_device_index, Message};
use crate::input_event::{spec_sync_event, sync_event, InputEvent, EV_KEY, EV_REL, REL_X, REL_Y};
use crate::input_mapping::{
    copy_i32s, copy_u16s, events_equal, frames_view, NativeKeySequence, SpecKeySequence,
};
use crate::order::compare_chars;
use crate::registry::DeviceId;
use crate::text::chars_of;
use crate::cli::{device_group, group_of};
use crate::config::ProjecteurConfig;
use crate::preferences::{device_settings, group_int};

verus! {

/// The view of a device node.
pub type NodeView = (Seq<char>, DeviceNodeKind, bool, bool, bool);

/// The view of a discovered device.
pub type DeviceView = (DeviceId, Seq<char>, Seq<char>, Seq<char>, Seq<NodeView>);

/// A readable raw HID node.
pub open spec fn readable_hidraw(n: NodeView) -> bool {
    n.1 == DeviceNodeKind::Hidraw && n.3
}

/// A readable input-event node.
pub open spec fn readable_event(n: NodeView) -> bool {
    n.1 == DeviceNodeKind::Event && n.3
}

/// The path of the first readable raw HID node among `nodes`.
pub open spec fn first_hidraw(nodes: Seq<NodeView>) -> Option<Seq<char>>
    decreases nodes.len(),
{
    if nodes.len() == 0 {
        None
    } else if readable_hidraw(nodes[0]) {
        Some(nodes[0].0)
    } else {
        first_hidraw(nodes.drop_first())
    }
}

/// The path of the first readable raw HID node of the devices, one device
/// after the other.
pub open spec fn hidraw_path(ds: Seq<DeviceView>) -> Option<Seq<char>>
    decreases ds.len(),
{
    if ds.len() == 0 {
        None
    } else {
        match first_hidraw(ds[0].4) {
            Some(p) => Some(p),
            None => hidraw_path(ds.drop_first()),
        }
    }
}

/// The path of the first readable raw HID node of any device.
pub fn preferred_hidraw_path(devices: &[DiscoveredDevice]) -> (r: Option<String>)
    ensures
        match hidraw_path(discovered_view(devices@)) {
            Some(p) => r matches Some(s) && s@ == p,
            None => r is None,
        },
{
    let ghost dv = discovered_view(devices@);
    let mut i: usize = 0;
    assert(dv.skip(0) =~= dv);
    while i < devices.len()
        invariant
            i <= devices@.len(),
            dv == discovered_view(devices@),
            hidraw_path(dv) == hidraw_path(dv.skip(i as int)),
        decreases devices@.len() - i,
    {
        assert(dv[i as int] == devices@[i as int]@);
        assert(dv.skip(i as int)[0] == dv[i as int]);
        assert(dv.skip(i as int).drop_first() =~= dv.skip(i + 1));
        let nodes = &devices[i].nodes;
        let ghost nv = nodes_view(nodes@);
        let mut j: usize = 0;
        assert(nv.skip(0) =~= nv);
        while j < nodes.len()
            invariant
                j <= nodes@.len(),
                i < devices@.len(),
                dv == discovered_view(devices@),
                nv == nodes_view(nodes@),
                first_hidraw(nv) == first_hidraw(nv.skip(j as int)),
                hidraw_path(dv) == hidraw_path(dv.skip(i as int)),
                dv.skip(i as int).len() > 0,
                dv.skip(i as int)[0].4 == nv,
            decreases nodes@.len() - j,
        {
            assert(nv.skip(j as int)[0] == nodes@[j as int]@);
            assert(nv.skip(j as int).drop_first() =~= nv.skip(j + 1));
            if nodes[j].kind == DeviceNodeKind::Hidraw && nodes[j].readable {
                return Some(nodes[j].path.clone());
            }
            j = j + 1;
        }
        assert(nv.skip(j as int).len() == 0);
        i = i + 1;
    }
    None
}

/// A device has a node with the given path.
pub open spec fn has_path(d: DeviceView, path: Seq<char>) -> bool {
    exists|k: int| 0 <= k < d.4.len() && d.4[k].0 == path
}

/// A device has a readable raw HID node.
pub open spec fn has_readable_hidraw(d: DeviceView) -> bool {
    exists|k: int| 0 <= k < d.4.len() && readable_hidraw(d.4[k])
}

fn node_with_path(d: &DiscoveredDevice, path: &[char]) -> (r: bool)
    ensures
        r == has_path(d@, path@),
{
    let mut j: usize = 0;
    while j < d.nodes.len()
        invariant
            j <= d.nodes@.len(),
            forall|k: int| 0 <= k < j ==> nodes_view(d.nodes@)[k].0 != path@,
        decreases d.nodes@.len() - j,
    {
        assert(nodes_view(d.nodes@)[j as int] == d.nodes@[j as int]@);
        let p = chars_of(d.nodes[j].path.as_str());
        if compare_chars(p.as_slice(), path) == 0 {
            assert(d@.4[j as int].0 == path@);
            return true;
        }
        j = j + 1;
    }
    false
}

fn readable_hidraw_node(d: &DiscoveredDevice) -> (r: bool)
    ensures
        r == has_readable_hidraw(d@),
{
    let mut j: usize = 0;
    while j < d.nodes.len()
        invariant
            j <= d.nodes@.len(),
            forall|k: int| 0 <= k < j ==> !readable_hidraw(nodes_view(d.nodes@)[k]),
        decreases d.nodes@.len() - j,
    {
        assert(nodes_view(d.nodes@)[j as int] == d.nodes@[j as int]@);
        if d.nodes[j].kind == DeviceNodeKind::Hidraw && d.nodes[j].readable {
            assert(readable_hidraw(d@.4[j as int]));
            return true;
        }
        j = j + 1;
    }
    false
}

/// The position of the first device from `i` on with a node at `path`.
pub open spec fn find_path(ds: Seq<DeviceView>, path: Seq<char>, i: int) -> Option<int>
    decreases ds.len() - i,
{
    if i < 0 || i >= ds.len() {
        None
    } else if has_path(ds[i], path) {
        Some(i)
    } else {
        find_path(ds, path, i + 1)
    }
}

/// The position of the first device from `i` on with a readable raw HID node.
pub open spec fn find_hidraw(ds: Seq<DeviceView>, i: int) -> Option<int>
    decreases ds.len() - i,
{
    if i < 0 || i >= ds.len() {
        None
    } else if has_readable_hidraw(ds[i]) {
        Some(i)
    } else {
        find_hidraw(ds, i + 1)
    }
}

proof fn lemma_find_range(ds: Seq<DeviceView>, path: Seq<char>, k: int)
    requires
        k >= 0,
    ensures
        find_path(ds, path, k) matches Some(i) ==> k <= i < ds.len(),
        find_hidraw(ds, k) matches Some(i) ==> k <= i < ds.len(),
    decreases ds.len() - k,
{
    if k < ds.len() {
        lemma_find_range(ds, path, k + 1);
    }
}

fn find_path_exec(devices: &[DiscoveredDevice], path: &[char]) -> (r: Option<usize>)
    ensures
        r matches Some(i) ==> i < devices@.len(),
        match find_path(discovered_view(devices@), path@, 0) {
            Some(i) => r == Some(i as usize),
            None => r is None,
        },
{
    let ghost dv = discovered_view(devices@);
    let mut i: usize = 0;
    while i < devices.len()
        invariant
            i <= devices@.len(),
            dv == discovered_view(devices@),
            find_path(dv, path@, 0) == find_path(dv, path@, i as int),
        decreases devices@.len() - i,
    {
        proof {
            lemma_find_range(dv, path@, 0);
        }
        assert(dv[i as int] == devices@[i as int]@);
        if node_with_path(&devices[i], path) {
            return Some(i);
        }
        i = i + 1;
    }
    None
}

fn find_hidraw_exec(devices: &[DiscoveredDevice]) -> (r: Option<usize>)
    ensures
        r matches Some(i) ==> i < devices@.len(),
        match find_hidraw(discovered_view(devices@), 0) {
            Some(i) => r == Some(i as usize),
            None => r is None,
        },
{
    let ghost dv = discovered_view(devices@);
    let mut i: usize = 0;
    while i < devices.len()
        invariant
            i <= devices@.len(),
            dv == discovered_view(devices@),
            find_hidraw(dv, 0) == find_hidraw(dv, i as int),
        decreases devices@.len() - i,
    {
        proof {
            lemma_find_range(dv, Seq::empty(), 0);
        }
        assert(dv[i as int] == devices@[i as int]@);
        if readable_hidraw_node(&devices[i]) {
            return Some(i);
        }
        i = i + 1;
    }
    None
}

/// The HID++ device index of the first device with a node at `path`.
pub open spec fn battery_index_for(path: Seq<char>, ds: Seq<DeviceView>) -> Option<u8> {
    match find_path(ds, path, 0) {
        Some(i) => spotlight_index(ds[i].0),
        None => None,
    }
}

/// The HID++ device index to ask for battery state over the node `path`.
pub fn battery_device_index_for_path(path: &str, devices: &[DiscoveredDevice]) -> (r: Option<u8>)
    ensures
        r == battery_index_for(path@, discovered_view(devices@)),
{
    let pc = chars_of(path);
    proof {
        lemma_find_range(discovered_view(devices@), path@, 0);
    }
    match find_path_exec(devices, pc.as_slice()) {
        Some(i) => {
            assert(discovered_view(devices@)[i as int] == devices@[i as int]@);
            spotlight_device_index(devices[i].id)
        },
        None => None,
    }
}

/// Which presenter forwards its buttons.
#[derive(Debug, PartialEq, Eq)]
pub enum PresenterSelection {
    /// The first device with a readable raw HID node.
    Auto,
    /// The device with a node at this path.
    Explicit(String),
    /// No presenter.
    Disabled,
}

/// The device a selection picks.
pub open spec fn selected_device(sel: PresenterSelection, ds: Seq<DeviceView>) -> Option<int> {
    match sel {
        PresenterSelection::Auto => find_hidraw(ds, 0),
        PresenterSelection::Explicit(p) => find_path(ds, p@, 0),
        PresenterSelection::Disabled => None,
    }
}

/// The paths of the readable input-event nodes among `nodes`, in order.
pub open spec fn event_paths(nodes: Seq<NodeView>) -> Seq<Seq<char>>
    decreases nodes.len(),
{
    if nodes.len() == 0 {
        Seq::empty()
    } else if readable_event(nodes.last()) {
        event_paths(nodes.drop_last()).push(nodes.last().0)
    } else {
        event_paths(nodes.drop_last())
    }
}

fn select_device(selection: &PresenterSelection, devices: &[DiscoveredDevice]) -> (r: Option<usize>)
    ensures
        r matches Some(i) ==> i < devices@.len(),
        match selected_device(*selection, discovered_view(devices@)) {
            Some(i) => r == Some(i as usize),
            None => r is None,
        },
{
    match selection {
        PresenterSelection::Disabled => None,
        PresenterSelection::Auto => find_hidraw_exec(devices),
        PresenterSelection::Explicit(path) => {
            let pc = chars_of(path.as_str());
            find_path_exec(devices, pc.as_slice())
        },
    }
}

/// The input-event nodes whose buttons are forwarded for a selection: the
/// readable event nodes of the selected device, in order.
pub fn preferred_button_paths(selection: &PresenterSelection, devices: &[DiscoveredDevice]) -> (r:
    Vec<String>)
    ensures
        r@.map_values(|s: String| s@) == match selected_device(
            *selection,
            discovered_view(devices@),
        ) {
            Some(i) => event_paths(discovered_view(devices@)[i].4),
            None => Seq::empty(),
        },
{
    let mut out: Vec<String> = Vec::new();
    proof {
        match selection {
            PresenterSelection::Explicit(p) => lemma_find_range(discovered_view(devices@), p@, 0),
            _ => lemma_find_range(discovered_view(devices@), Seq::empty(), 0),
        }
    }
    let index = match select_device(selection, devices) {
        Some(i) => i,
        None => {
            assert(out@.map_values(|s: String| s@) =~= Seq::<Seq<char>>::empty());
            return out;
        },
    };
    let ghost dv = discovered_view(devices@);
    assert(dv[index as int] == devices@[index as int]@);
    let nodes = &devices[index].nodes;
    let ghost nv = nodes_view(nodes@);
    let mut j: usize = 0;
    assert(nv.take(0) =~= Seq::<NodeView>::empty());
    assert(out@.map_values(|s: String| s@) =~= event_paths(nv.take(0)));
    while j < nodes.len()
        invariant
            j <= nodes@.len(),
            nv == nodes_view(nodes@),
            out@.map_values(|s: String| s@) == event_paths(nv.take(j as int)),
        decreases nodes@.len() - j,
    {
        assert(nv.take(j + 1).drop_last() =~= nv.take(j as int));
        assert(nv.take(j + 1).last() == nodes@[j as int]@);
        if nodes[j].kind == DeviceNodeKind::Event && nodes[j].readable {
            let ghost prev = out@;
            out.push(nodes[j].path.clone());
            assert(out@.map_values(|s: String| s@) =~= prev.map_values(|s: String| s@).push(
                nodes@[j as int].path@,
            ));
        }
        j = j + 1;
    }
    assert(nv.take(j as int) =~= nv);
    out
}

/// The path of the first readable input-event node among `nodes` that
/// does not move a pointer.
pub open spec fn first_button_node(nodes: Seq<NodeView>) -> Option<Seq<char>>
    decreases nodes.len(),
{
    if nodes.len() == 0 {
        None
    } else if readable_event(nodes[0]) && !nodes[0].2 {
        Some(nodes[0].0)
    } else {
        first_button_node(nodes.drop_first())
    }
}

/// The one input-event node whose buttons are forwarded for a selection:
/// the first readable event node of the selected device that does not move
/// a pointer.
pub fn preferred_button_path(selection: &PresenterSelection, devices: &[DiscoveredDevice]) -> (r:
    Option<String>)
    ensures
        match selected_device(*selection, discovered_view(devices@)) {
            Some(i) => match first_button_node(discovered_view(devices@)[i].4) {
                Some(p) => r matches Some(s) && s@ == p,
                None => r is None,
            },
            None => r is None,
        },
{
    proof {
        match selection {
            PresenterSelection::Explicit(p) => lemma_find_range(discovered_view(devices@), p@, 0),
            _ => lemma_find_range(discovered_view(devices@), Seq::empty(), 0),
        }
    }
    let index = match select_device(selection, devices) {
        Some(i) => i,
        None => {
            return None;
        },
    };
    let ghost dv = discovered_view(devices@);
    assert(dv[index as int] == devices@[index as int]@);
    let nodes = &devices[index].nodes;
    let ghost nv = nodes_view(nodes@);
    let mut j: usize = 0;
    assert(nv.skip(0) =~= nv);
    while j < nodes.len()
        invariant
            j <= nodes@.len(),
            nv == nodes_view(nodes@),
            dv == discovered_view(devices@),
            index < devices@.len(),
            dv[index as int].4 == nv,
            selected_device(*selection, dv) == Some(index as int),
            first_button_node(nv) == first_button_node(nv.skip(j as int)),
        decreases nodes@.len() - j,
    {
        assert(nv.skip(j as int)[0] == nodes@[j as int]@);
        assert(nv.skip(j as int).drop_first() =~= nv.skip(j + 1));
        if nodes[j].kind == DeviceNodeKind::Event && nodes[j].readable
            && !nodes[j].has_relative_pointer {
            return Some(nodes[j].path.clone());
        }
        j = j + 1;
    }
    None
}

/// A recorded frame as the editor stores it: without its trailing
/// `SYN_REPORT`, and without the `MSC_SCAN` event a mouse button press
/// reports first. Frames that do not end in `SYN_REPORT`, or hold nothing
/// else, are not recorded.
pub open spec fn normalized_frame(frame: Seq<InputEvent>) -> Option<Seq<InputEvent>> {
    if frame.len() == 0 || frame.last() != spec_sync_event() {
        None
    } else {
        let f = frame.drop_last();
        let g = if f.len() == 2 && f[0].event_type == 4 && f[0].code == 4 && f[1].event_type
            == EV_KEY && 0x110 <= f[1].code <= 0x112 {
            f.drop_first()
        } else {
            f
        };
        if g.len() == 0 {
            None
        } else {
            Some(g)
        }
    }
}

/// Normalise a frame read while recording an input sequence.
pub fn normalized_recording_frame(frame: &[InputEvent]) -> (r: Option<Vec<InputEvent>>)
    ensures
        match normalized_frame(frame@) {
            Some(f) => r matches Some(v) && v@ == f,
            None => r is None,
        },
{
    let n = frame.len();
    if n == 0 || frame[n - 1] != sync_event() {
        return None;
    }
    let start: usize = if n - 1 == 2 && frame[0].event_type == 4 && frame[0].code == 4
        && frame[1].event_type == EV_KEY && 0x110 <= frame[1].code && frame[1].code <= 0x112 {
        1
    } else {
        0
    };
    if start == n - 1 {
        return None;
    }
    let mut out: Vec<InputEvent> = Vec::new();
    let mut i: usize = start;
    while i < n - 1
        invariant
            start <= i <= n - 1,
            n == frame@.len(),
            out@ == frame@.subrange(start as int, i as int),
        decreases n - 1 - i,
    {
        out.push(frame[i]);
        i = i + 1;
        assert(out@ =~= frame@.subrange(start as int, i as int));
    }
    assert(start == 1 ==> frame@.drop_last().drop_first() =~= out@);
    assert(start == 0 ==> frame@.drop_last() =~= out@);
    Some(out)
}

/// The sum of the values of the relative-motion events on axis `code`
/// among the first `k` events.
pub open spec fn axis_sum(frame: Seq<InputEvent>, code: u16, k: nat) -> int
    decreases k,
{
    if k == 0 {
        0
    } else {
        axis_sum(frame, code, (k - 1) as nat) + if frame[k - 1].event_type == EV_REL
            && frame[k - 1].code == code {
            frame[k - 1].value as int
        } else {
            0
        }
    }
}

/// Every running sum along an axis fits an `i32`.
pub open spec fn motion_fits(frame: Seq<InputEvent>) -> bool {
    forall|k: nat|
        k <= frame.len() ==> i32::MIN <= #[trigger] axis_sum(frame, REL_X, k) <= i32::MAX && i32::MIN
            <= axis_sum(frame, REL_Y, k) <= i32::MAX
}

/// Whether summing the frame's motion stays within `i32`.
pub fn relative_motion_fits(frame: &[InputEvent]) -> (r: bool)
    ensures
        r == motion_fits(frame@),
{
    let mut x: i64 = 0;
    let mut y: i64 = 0;
    let mut i: usize = 0;
    while i < frame.len()
        invariant
            i <= frame@.len(),
            x == axis_sum(frame@, REL_X, i as nat),
            y == axis_sum(frame@, REL_Y, i as nat),
            forall|k: nat|
                k <= i ==> i32::MIN <= #[trigger] axis_sum(frame@, REL_X, k) <= i32::MAX && i32::MIN
                    <= axis_sum(frame@, REL_Y, k) <= i32::MAX,
        decreases frame@.len() - i,
    {
        let e = frame[i];
        if e.event_type == EV_REL && e.code == REL_X {
            x = x + e.value as i64;
        }
        if e.event_type == EV_REL && e.code == REL_Y {
            y = y + e.value as i64;
        }
        i = i + 1;
        if x < i32::MIN as i64 || x > i32::MAX as i64 || y < i32::MIN as i64 || y > i32::MAX as i64 {
            assert(!(i32::MIN <= axis_sum(frame@, REL_X, i as nat) <= i32::MAX && i32::MIN
                <= axis_sum(frame@, REL_Y, i as nat) <= i32::MAX));
            return false;
        }
    }
    true
}

/// The summed relative motion of a frame along `REL_X` and `REL_Y`.
pub fn relative_motion(frame: &[InputEvent]) -> (r: (i32, i32))
    requires
        motion_fits(frame@),
    ensures
        r.0 == axis_sum(frame@, REL_X, frame@.len()),
        r.1 == axis_sum(frame@, REL_Y, frame@.len()),
{
    let mut x: i32 = 0;
    let mut y: i32 = 0;
    let mut i: usize = 0;
    while i < frame.len()
        invariant
            i <= frame@.len(),
            motion_fits(frame@),
            x == axis_sum(frame@, REL_X, i as nat),
            y == axis_sum(frame@, REL_Y, i as nat),
        decreases frame@.len() - i,
    {
        let e = frame[i];
        assert(i32::MIN <= axis_sum(frame@, REL_X, (i + 1) as nat) <= i32::MAX);
        assert(i32::MIN <= axis_sum(frame@, REL_Y, (i + 1) as nat) <= i32::MAX);
        if e.event_type == EV_REL && e.code == REL_X {
            x = x + e.value;
        }
        if e.event_type == EV_REL && e.code == REL_Y {
            y = y + e.value;
        }
        i = i + 1;
    }
    (x, y)
}

/// `true`, `on` in any ASCII case, or `1`: a command's boolean argument.
pub open spec fn command_true(value: Seq<char>) -> bool {
    value.map_values(|c: char| crate::text::ascii_lower(c)) == "true"@ || value.map_values(
        |c: char| crate::text::ascii_lower(c),
    ) == "on"@ || value == "1"@
}

/// Read a command's boolean argument.
pub fn command_bool(value: &str) -> (r: bool)
    ensures
        r == command_true(value@),
{
    let v = chars_of(value);
    let lower = crate::text::to_ascii_lowercase(v.as_slice());
    crate::text::chars_are(lower.as_slice(), "true") || crate::text::chars_are(
        lower.as_slice(),
        "on",
    ) || crate::text::chars_are(v.as_slice(), "1")
}

/// A key press or release event.
pub open spec fn key(code: u16, value: i32) -> InputEvent {
    InputEvent { event_type: EV_KEY, code, value }
}

/// A shortcut of the left Alt key and `code`: press both, release both.
pub open spec fn spec_predefined_key(code: u16, qt_key: i32, native_modifier: u16) -> SpecKeySequence {
    SpecKeySequence {
        qt_keys: seq![qt_key],
        native_sequence: seq![
            seq![key(56, 1), key(code, 1), spec_sync_event()],
            seq![key(56, 0), key(code, 0), spec_sync_event()],
        ],
        native_modifiers: seq![native_modifier],
    }
}

/// A sequence that presses and releases one modifier key alone.
pub open spec fn spec_modifier_only_key(code: u16, native_modifier: u16) -> SpecKeySequence {
    SpecKeySequence {
        qt_keys: Seq::empty(),
        native_sequence: seq![seq![key(code, 1), spec_sync_event()], seq![key(code, 0), spec_sync_event()]],
        native_modifiers: seq![native_modifier],
    }
}

/// The native sequence of a predefined Alt shortcut.
pub fn predefined_native_key(code: u16, qt_key: i32, native_modifier: u16) -> (r: NativeKeySequence)
    ensures
        r@ == spec_predefined_key(code, qt_key, native_modifier),
{
    let modifier_code: u16 = 56;
    let r = NativeKeySequence {
        qt_keys: vec![qt_key],
        native_modifiers: vec![native_modifier],
        native_sequence: vec![
            vec![
                InputEvent { event_type: EV_KEY, code: modifier_code, value: 1 },
                InputEvent { event_type: EV_KEY, code, value: 1 },
                sync_event(),
            ],
            vec![
                InputEvent { event_type: EV_KEY, code: modifier_code, value: 0 },
                InputEvent { event_type: EV_KEY, code, value: 0 },
                sync_event(),
            ],
        ],
    };
    assert(r@.native_sequence =~= spec_predefined_key(code, qt_key, native_modifier).native_sequence);
    assert(r@.qt_keys =~= seq![qt_key]);
    assert(r@.native_modifiers =~= seq![native_modifier]);
    r
}

/// The native sequence of one modifier key pressed alone.
pub fn modifier_only_native_key(code: u16, native_modifier: u16) -> (r: NativeKeySequence)
    ensures
        r@ == spec_modifier_only_key(code, native_modifier),
{
    let r = NativeKeySequence {
        qt_keys: Vec::new(),
        native_modifiers: vec![native_modifier],
        native_sequence: vec![
            vec![InputEvent { event_type: EV_KEY, code, value: 1 }, sync_event()],
            vec![InputEvent { event_type: EV_KEY, code, value: 0 }, sync_event()],
        ],
    };
    assert(r@.native_sequence =~= spec_modifier_only_key(code, native_modifier).native_sequence);
    assert(r@.qt_keys =~= Seq::<i32>::empty());
    assert(r@.native_modifiers =~= seq![native_modifier]);
    r
}

fn frames_equal(a: &Vec<Vec<InputEvent>>, b: &Vec<Vec<InputEvent>>) -> (r: bool)
    ensures
        r == (frames_view(*a) == frames_view(*b)),
{
    if a.len() != b.len() {
        assert(frames_view(*a).len() != frames_view(*b).len());
        return false;
    }
    let mut i: usize = 0;
    while i < a.len()
        invariant
            i <= a@.len(),
            a@.len() == b@.len(),
            forall|j: int| 0 <= j < i ==> frames_view(*a)[j] == frames_view(*b)[j],
        decreases a@.len() - i,
    {
        if !events_equal(&a[i], &b[i]) {
            assert(frames_view(*a)[i as int] != frames_view(*b)[i as int]);
            return false;
        }
        i = i + 1;
    }
    assert(frames_view(*a) =~= frames_view(*b));
    true
}

fn i32s_equal(a: &Vec<i32>, b: &Vec<i32>) -> (r: bool)
    ensures
        r == (a@ == b@),
{
    if a.len() != b.len() {
        return false;
    }
    let mut i: usize = 0;
    while i < a.len()
        invariant
            i <= a@.len(),
            a@.len() == b@.len(),
            forall|j: int| 0 <= j < i ==> a@[j] == b@[j],
        decreases a@.len() - i,
    {
        if a[i] != b[i] {
            return false;
        }
        i = i + 1;
    }
    assert(a@ =~= b@);
    true
}

fn u16s_equal(a: &Vec<u16>, b: &Vec<u16>) -> (r: bool)
    ensures
        r == (a@ == b@),
{
    if a.len() != b.len() {
        return false;
    }
    let mut i: usize = 0;
    while i < a.len()
        invariant
            i <= a@.len(),
            a@.len() == b@.len(),
            forall|j: int| 0 <= j < i ==> a@[j] == b@[j],
        decreases a@.len() - i,
    {
        if a[i] != b[i] {
            return false;
        }
        i = i + 1;
    }
    assert(a@ =~= b@);
    true
}

/// Whether two native key sequences are the same.
pub fn key_sequences_equal(a: &NativeKeySequence, b: &NativeKeySequence) -> (r: bool)
    ensures
        r == (a@ == b@),
{
    i32s_equal(&a.qt_keys, &b.qt_keys) && frames_equal(&a.native_sequence, &b.native_sequence)
        && u16s_equal(&a.native_modifiers, &b.native_modifiers)
}

/// The key codes and the native modifier mask of a Qt modifier mask:
/// Control (29, 1), Shift (42, 16), Alt (56, 4) and Meta (125, 64), codes
/// in ascending order.
pub open spec fn modifier_keys(modifiers: i32) -> (Seq<u16>, u16) {
    let ctrl = modifiers & 0x0400_0000 != 0;
    let alt = modifiers & 0x0800_0000 != 0;
    let shift = modifiers & 0x0200_0000 != 0;
    let meta = modifiers & 0x1000_0000 != 0;
    (
        (if ctrl {
            seq![29u16]
        } else {
            Seq::empty()
        }) + (if shift {
            seq![42u16]
        } else {
            Seq::empty()
        }) + (if alt {
            seq![56u16]
        } else {
            Seq::empty()
        }) + (if meta {
            seq![125u16]
        } else {
            Seq::empty()
        }),
        ((if ctrl {
            1int
        } else {
            0
        }) + (if alt {
            4int
        } else {
            0
        }) + (if shift {
            16int
        } else {
            0
        }) + (if meta {
            64int
        } else {
            0
        })) as u16,
    )
}

/// The key codes and native modifier mask of a Qt modifier mask.
pub fn native_modifier_keys(modifiers: i32) -> (r: (Vec<u16>, u16))
    ensures
        r.0@ == modifier_keys(modifiers).0,
        r.1 == modifier_keys(modifiers).1,
{
    let ctrl = modifiers & 0x0400_0000 != 0;
    let alt = modifiers & 0x0800_0000 != 0;
    let shift = modifiers & 0x0200_0000 != 0;
    let meta = modifiers & 0x1000_0000 != 0;
    let mut codes: Vec<u16> = Vec::new();
    let mut native: u16 = 0;
    if ctrl {
        codes.push(29);
        native = native + 1;
    }
    if shift {
        codes.push(42);
        native = native + 16;
    }
    if alt {
        codes.push(56);
        native = native + 4;
    }
    if meta {
        codes.push(125);
        native = native + 64;
    }
    assert(codes@ =~= modifier_keys(modifiers).0);
    (codes, native)
}

/// The Linux key code of a native X11 scan code, which is 8 higher.
pub open spec fn key_code(native_scan_code: i32) -> Option<u16> {
    if 0 <= native_scan_code - 8 <= 0xffff {
        Some((native_scan_code - 8) as u16)
    } else {
        None
    }
}

/// The frame that presses the modifier keys `codes` and then `code`.
pub open spec fn chord_frame(codes: Seq<u16>, code: u16, value: i32) -> Seq<InputEvent> {
    codes.map_values(|c: u16| key(c, value)) + seq![key(code, value), spec_sync_event()]
}

/// At most this many key combinations make one recorded sequence.
pub const MAX_RECORDED_KEYS: usize = 4;

fn chord_frame_exec(codes: &Vec<u16>, code: u16, value: i32) -> (r: Vec<InputEvent>)
    ensures
        r@ == chord_frame(codes@, code, value),
{
    let mut f: Vec<InputEvent> = Vec::new();
    let mut i: usize = 0;
    while i < codes.len()
        invariant
            i <= codes@.len(),
            f@ == codes@.take(i as int).map_values(|c: u16| key(c, value)),
        decreases codes@.len() - i,
    {
        f.push(InputEvent { event_type: EV_KEY, code: codes[i], value });
        i = i + 1;
        assert(f@ =~= codes@.take(i as int).map_values(|c: u16| key(c, value)));
    }
    assert(codes@.take(i as int) =~= codes@);
    f.push(InputEvent { event_type: EV_KEY, code, value });
    f.push(sync_event());
    assert(f@ =~= chord_frame(codes@, code, value));
    f
}

/// Add a recorded key combination to a native key sequence: the key with
/// the native scan code and the Qt key and modifier masks. Nothing changes
/// when the scan code names no Linux key or the sequence already holds
/// four combinations; otherwise returns the new number of combinations.
pub fn record_native_key(sequence: &mut NativeKeySequence, qt_key: i32, native_scan_code: i32, modifiers: i32) -> (r: Option<usize>)
    ensures
        match key_code(native_scan_code) {
            Some(code) if old(sequence)@.qt_keys.len() < MAX_RECORDED_KEYS => {
                &&& final(sequence)@ == (SpecKeySequence {
                    qt_keys: old(sequence)@.qt_keys.push(qt_key | modifiers),
                    native_sequence: old(sequence)@.native_sequence + seq![
                        chord_frame(modifier_keys(modifiers).0, code, 1),
                        chord_frame(modifier_keys(modifiers).0, code, 0),
                    ],
                    native_modifiers: old(sequence)@.native_modifiers.push(
                        modifier_keys(modifiers).1,
                    ),
                })
                &&& r == Some(final(sequence)@.qt_keys.len() as usize)
            },
            _ => final(sequence)@ == old(sequence)@ && r is None,
        },
{
    if native_scan_code < i32::MIN + 8 {
        return None;
    }
    let shifted = native_scan_code - 8;
    if shifted < 0 || shifted > 0xffff {
        return None;
    }
    let code = shifted as u16;
    let (codes, native) = native_modifier_keys(modifiers);
    let pressed = chord_frame_exec(&codes, code, 1);
    let released = chord_frame_exec(&codes, code, 0);
    if sequence.qt_keys.len() >= MAX_RECORDED_KEYS {
        return None;
    }
    let ghost old_frames = frames_view(sequence.native_sequence);
    sequence.qt_keys.push(qt_key | modifiers);
    let ghost pv = pressed@;
    let ghost rv = released@;
    sequence.native_sequence.push(pressed);
    sequence.native_sequence.push(released);
    sequence.native_modifiers.push(native);
    assert(frames_view(sequence.native_sequence) =~= old_frames + seq![pv, rv]);
    Some(sequence.qt_keys.len())
}

/// Input synthesised from Spotlight HID++ notifications.
#[derive(Clone, Copy, Debug, PartialEq, Eq, Structural)]
pub enum SpecialInput {
    /// A button held down: `0x0e10` for next, `0x0e11` for back.
    Hold(u16),
    /// Pointer movement while a button is held, in steps of at most two.
    Move { code: u16, x: i32, y: i32 },
}

/// What the decoder remembers between Spotlight notifications.
#[derive(Clone, Copy, Debug, PartialEq, Eq)]
pub struct HoldNotificationState {
    pub next_pressed: bool,
    pub back_pressed: bool,
    pub move_code: Option<u16>,
    /// When the last movement was reported, in nanoseconds of a monotonic clock.
    pub last_move: Option<u64>,
}

impl Default for HoldNotificationState {
    fn default() -> (s: Self)
        ensures
            !s.next_pressed && !s.back_pressed && s.move_code is None && s.last_move is None,
    {
        HoldNotificationState { next_pressed: false, back_pressed: false, move_code: None, last_move: None }
    }
}

/// Movements closer together than this many nanoseconds are dropped.
pub const MOVE_INTERVAL_NS: u64 = 30_000_000;

/// A byte read as a signed 8-bit number.
pub open spec fn signed_byte(b: u8) -> int {
    if b < 128 {
        b as int
    } else {
        b - 256
    }
}

/// A movement value reduced to steps: none below 5, else limited to ±10
/// and divided by 5, rounding down.
pub open spec fn reduce_motion(v: int) -> int {
    if -5 < v < 5 {
        0
    } else if v > 10 {
        2
    } else if v < -10 {
        -2
    } else {
        v / 5
    }
}

/// The state and inputs after a Spotlight notification `m` arrives at time
/// `now`: function 0 reports which buttons are held, function 1 a movement.
pub open spec fn hold_step(s: HoldNotificationState, m: Seq<u8>, now: u64) -> (
    HoldNotificationState,
    Seq<SpecialInput>,
) {
    let p = m.subrange(4, m.len() as int);
    let function = m[3] / 16;
    if p.len() < 4 {
        (s, Seq::empty())
    } else if function == 0 {
        let np = p[1] == 0xda || p[3] == 0xda;
        let bp = p[1] == 0xdc || p[3] == 0xdc;
        let inputs = (if !s.next_pressed && np {
            seq![SpecialInput::Hold(0x0e10)]
        } else {
            Seq::empty()
        }) + (if !s.back_pressed && bp {
            seq![SpecialInput::Hold(0x0e11)]
        } else {
            Seq::empty()
        });
        let code = if !s.next_pressed && np {
            Some(0x0ff0u16)
        } else if bp && (!s.back_pressed || (s.next_pressed && !np)) {
            Some(0x0ff1u16)
        } else if s.back_pressed && !bp && np {
            Some(0x0ff0u16)
        } else {
            s.move_code
        };
        (
            HoldNotificationState {
                next_pressed: np,
                back_pressed: bp,
                move_code: if !np && !bp {
                    None
                } else {
                    code
                },
                last_move: s.last_move,
            },
            inputs,
        )
    } else if function != 1 || s.move_code is None {
        (s, Seq::empty())
    } else if s.last_move matches Some(t) && (if now >= t {
        now - t
    } else {
        0
    }) < MOVE_INTERVAL_NS {
        (s, Seq::empty())
    } else {
        let s2 = HoldNotificationState { last_move: Some(now), ..s };
        let x = reduce_motion(signed_byte(p[1]));
        let y = reduce_motion(signed_byte(p[3]));
        if x == 0 && y == 0 {
            (s2, Seq::empty())
        } else {
            (s2, seq![SpecialInput::Move { code: s.move_code->0, x: x as i32, y: y as i32 }])
        }
    }
}

/// A movement is reported at most once per interval: after a report at
/// `t1`, a notification less than the interval later reports nothing.
pub proof fn lemma_moves_throttled(
    s: HoldNotificationState,
    m1: Seq<u8>,
    m2: Seq<u8>,
    t1: u64,
    t2: u64,
)
    requires
        hold_step(s, m1, t1).1.len() > 0 && hold_step(s, m1, t1).1[0] is Move,
        t1 <= t2 < t1 + MOVE_INTERVAL_NS,
    ensures
        hold_step(s, m1, t1).0.last_move == Some(t1),
        hold_step(hold_step(s, m1, t1).0, m2, t2).1.len() == 0 || !(hold_step(
            hold_step(s, m1, t1).0,
            m2,
            t2,
        ).1[0] is Move),
{
}

/// Releasing both buttons ends every movement: no move code remains.
pub proof fn lemma_release_clears_movement(s: HoldNotificationState, m: Seq<u8>, now: u64)
    requires
        m.len() >= 8,
        m[3] / 16 == 0,
        m[5] != 0xda && m[5] != 0xdc && m[7] != 0xda && m[7] != 0xdc,
    ensures
        hold_step(s, m, now).0.move_code is None,
        !hold_step(s, m, now).0.next_pressed && !hold_step(s, m, now).0.back_pressed,
        hold_step(s, m, now).1.len() == 0,
{
    let p = m.subrange(4, m.len() as int);
    assert(p[1] == m[5] && p[3] == m[7]);
}

fn reduce_byte(b: u8) -> (r: i32)
    ensures
        r == reduce_motion(signed_byte(b)),
{
    let v: i32 = if b < 128 {
        b as i32
    } else {
        b as i32 - 256
    };
    if -5 < v && v < 5 {
        0
    } else if v > 10 {
        2
    } else if v < -10 {
        -2
    } else if v >= 0 {
        v / 5
    } else {
        let r = -((-v + 4) / 5);
        assert(r == v / 5) by (nonlinear_arith)
            requires
                -10 <= v <= -5,
                r == -((-v + 4) / 5),
        ;
        r
    }
}

/// Decode a Spotlight hold or movement notification that arrives at time
/// `now` (nanoseconds of a monotonic clock).
pub fn decode_hold_notification(message: &Message, state: &mut HoldNotificationState, now: u64) -> (r:
    Vec<SpecialInput>)
    ensures
        (*final(state), r@) == hold_step(*old(state), message@, now),
{
    let payload = message.payload();
    let function = message.function();
    if payload.len() < 4 {
        return Vec::new();
    }
    if function == 0 {
        let next_pressed = payload[1] == 0xda || payload[3] == 0xda;
        let back_pressed = payload[1] == 0xdc || payload[3] == 0xdc;
        let mut inputs: Vec<SpecialInput> = Vec::new();
        if !state.next_pressed && next_pressed {
            inputs.push(SpecialInput::Hold(0x0e10));
        }
        if !state.back_pressed && back_pressed {
            inputs.push(SpecialInput::Hold(0x0e11));
        }
        if !state.next_pressed && next_pressed {
            state.move_code = Some(0x0ff0);
        } else if back_pressed && (!state.back_pressed || (state.next_pressed && !next_pressed)) {
            state.move_code = Some(0x0ff1);
        } else if state.back_pressed && !back_pressed && next_pressed {
            state.move_code = Some(0x0ff0);
        }
        state.next_pressed = next_pressed;
        state.back_pressed = back_pressed;
        if !next_pressed && !back_pressed {
            state.move_code = None;
        }
        assert(inputs@ =~= hold_step(*old(state), message@, now).1);
        return inputs;
    }
    let code = match state.move_code {
        Some(c) => c,
        None => {
            return Vec::new();
        },
    };
    if function != 1 {
        return Vec::new();
    }
    if let Some(last) = state.last_move {
        let elapsed = if now >= last {
            now - last
        } else {
            0
        };
        if elapsed < MOVE_INTERVAL_NS {
            return Vec::new();
        }
    }
    state.last_move = Some(now);
    let x = reduce_byte(payload[1]);
    let y = reduce_byte(payload[3]);
    if x == 0 && y == 0 {
        Vec::new()
    } else {
        let mut v: Vec<SpecialInput> = Vec::new();
        v.push(SpecialInput::Move { code, x, y });
        assert(v@ =~= seq![SpecialInput::Move { code, x, y }]);
        v
    }
}

/// A readable and writable raw HID node, at `presenter` when one is given.
pub open spec fn writable_hidraw(n: NodeView, presenter: Option<Seq<char>>) -> bool {
    n.1 == DeviceNodeKind::Hidraw && n.3 && n.4 && match presenter {
        Some(p) => n.0 == p,
        None => true,
    }
}

/// The path of the first writable raw HID node among the first `k` nodes.
pub open spec fn first_writable(nodes: Seq<NodeView>, presenter: Option<Seq<char>>, k: int) -> Option<
    Seq<char>,
>
    decreases k,
{
    if k <= 0 {
        None
    } else {
        match first_writable(nodes, presenter, k - 1) {
            Some(p) => Some(p),
            None => if writable_hidraw(nodes[k - 1], presenter) {
                Some(nodes[k - 1].0)
            } else {
                None
            },
        }
    }
}

proof fn lemma_first_writable_stays(nodes: Seq<NodeView>, presenter: Option<Seq<char>>, k: int, n: int)
    requires
        k <= n,
        first_writable(nodes, presenter, k) is Some,
    ensures
        first_writable(nodes, presenter, n) == first_writable(nodes, presenter, k),
    decreases n - k,
{
    if k < n {
        lemma_first_writable_stays(nodes, presenter, k, n - 1);
    }
}

proof fn lemma_target_stays(ds: Seq<DeviceView>, presenter: Option<Seq<char>>, k: int, n: int)
    requires
        k <= n,
        vibration_target_of(ds, presenter, k) is Some,
    ensures
        vibration_target_of(ds, presenter, n) == vibration_target_of(ds, presenter, k),
    decreases n - k,
{
    if k < n {
        lemma_target_stays(ds, presenter, k, n - 1);
    }
}

fn first_writable_exec(device: &DiscoveredDevice, presenter: Option<&str>) -> (r: Option<String>)
    ensures
        match first_writable(
            device@.4,
            match presenter {
                Some(p) => Some(p@),
                None => None,
            },
            device@.4.len() as int,
        ) {
            Some(p) => r matches Some(s) && s@ == p,
            None => r is None,
        },
{
    let ghost pv = match presenter {
        Some(p) => Some(p@),
        None => None,
    };
    let ghost nv = nodes_view(device.nodes@);
    let pc: Option<Vec<char>> = match presenter {
        Some(p) => Some(chars_of(p)),
        None => None,
    };
    let mut k: usize = 0;
    while k < device.nodes.len()
        invariant
            k <= device.nodes@.len(),
            nv == nodes_view(device.nodes@),
            nv == device@.4,
            pc matches Some(c) ==> pv == Some(c@),
            pc is None ==> pv is None,
            pv == (match presenter {
                Some(p) => Some(p@),
                None => None,
            }),
            first_writable(nv, pv, k as int) is None,
        decreases device.nodes@.len() - k,
    {
        let node = &device.nodes[k];
        assert(nv[k as int] == node@);
        let matches = match &pc {
            Some(c) => {
                let path = chars_of(node.path.as_str());
                compare_chars(path.as_slice(), c.as_slice()) == 0
            },
            None => true,
        };
        assert(matches == match pv {
            Some(p) => nv[k as int].0 == p,
            None => true,
        });
        if node.kind == DeviceNodeKind::Hidraw && node.readable && node.writable && matches {
            assert(writable_hidraw(nv[k as int], pv));
            assert(first_writable(nv, pv, k + 1) == Some(nv[k as int].0));
            proof {
                lemma_first_writable_stays(nv, pv, k + 1, nv.len() as int);
            }
            return Some(node.path.clone());
        }
        k = k + 1;
    }
    None
}

/// The presenter to vibrate among the first `k` devices: the HID++ device
/// index and writable raw HID node of the first Spotlight that has one.
pub open spec fn vibration_target_of(ds: Seq<DeviceView>, presenter: Option<Seq<char>>, k: int) -> Option<
    (u8, Seq<char>),
>
    decreases k,
{
    if k <= 0 {
        None
    } else {
        match vibration_target_of(ds, presenter, k - 1) {
            Some(t) => Some(t),
            None => match spotlight_index(ds[k - 1].0) {
                Some(index) => match first_writable(ds[k - 1].4, presenter, ds[k - 1].4.len() as int) {
                    Some(p) => Some((index, p)),
                    None => None,
                },
                None => None,
            },
        }
    }
}

/// Choose the Spotlight to vibrate: its HID++ device index and the path of
/// its writable raw HID node, at `presenter` when one is given.
pub fn vibration_target(devices: &[DiscoveredDevice], presenter: Option<&str>) -> (r: Option<(u8, String)>)
    ensures
        match vibration_target_of(
            discovered_view(devices@),
            match presenter {
                Some(p) => Some(p@),
                None => None,
            },
            devices@.len() as int,
        ) {
            Some((index, p)) => r matches Some((i, s)) && i == index && s@ == p,
            None => r is None,
        },
{
    let ghost dv = discovered_view(devices@);
    let ghost pv = match presenter {
        Some(p) => Some(p@),
        None => None,
    };
    let mut i: usize = 0;
    while i < devices.len()
        invariant
            i <= devices@.len(),
            dv == discovered_view(devices@),
            pv == (match presenter {
                Some(p) => Some(p@),
                None => None,
            }),
            vibration_target_of(dv, pv, i as int) is None,
        decreases devices@.len() - i,
    {
        assert(dv[i as int] == devices@[i as int]@);
        if let Some(index) = spotlight_device_index(devices[i].id) {
            if let Some(path) = first_writable_exec(&devices[i], presenter) {
                proof {
                    lemma_target_stays(dv, pv, i + 1, dv.len() as int);
                }
                return Some((index, path));
            }
        }
        i = i + 1;
    }
    None
}

/// The vibration intensity of a haptic strength in percent.
pub open spec fn haptic_intensity(strength: int) -> int {
    (strength * 255 + 50) / 100
}

/// What the first `k` devices are sent when the presentation timer
/// completes: each Spotlight with a non-zero haptic strength in its
/// configuration group (default 50) and a writable raw HID node gets a
/// vibration, as its device index, intensity and node path.
pub open spec fn feedback_targets(
    config: Seq<(Seq<char>, Seq<(Seq<char>, Seq<char>)>)>,
    ds: Seq<DeviceView>,
    k: int,
) -> Seq<(u8, u8, Seq<char>)>
    decreases k,
{
    if k <= 0 {
        Seq::empty()
    } else {
        let rest = feedback_targets(config, ds, k - 1);
        let d = ds[k - 1];
        let strength = group_int(config, group_of(d.0), "presentationTimerHapticStrength"@, 50, 0, 100);
        match spotlight_index(d.0) {
            Some(index) => if strength == 0 {
                rest
            } else {
                match first_writable(d.4, None, d.4.len() as int) {
                    Some(p) => rest.push((index, haptic_intensity(strength as int) as u8, p)),
                    None => rest,
                }
            },
            None => rest,
        }
    }
}

/// The vibrations to send when the presentation timer completes.
pub fn timer_feedback_targets(config: &ProjecteurConfig, devices: &[DiscoveredDevice]) -> (r: Vec<
    (u8, u8, String),
>)
    ensures
        r@.map_values(|t: (u8, u8, String)| (t.0, t.1, t.2@)) == feedback_targets(
            config@,
            discovered_view(devices@),
            devices@.len() as int,
        ),
{
    let ghost dv = discovered_view(devices@);
    let mut out: Vec<(u8, u8, String)> = Vec::new();
    let mut i: usize = 0;
    assert(out@.map_values(|t: (u8, u8, String)| (t.0, t.1, t.2@)) =~= Seq::<(u8, u8, Seq<char>)>::empty());
    while i < devices.len()
        invariant
            i <= devices@.len(),
            dv == discovered_view(devices@),
            out@.map_values(|t: (u8, u8, String)| (t.0, t.1, t.2@)) == feedback_targets(
                config@,
                dv,
                i as int,
            ),
        decreases devices@.len() - i,
    {
        let device = &devices[i];
        assert(dv[i as int] == device@);
        if let Some(index) = spotlight_device_index(device.id) {
            let group = device_group(device.id);
            let (_, strength) = device_settings(config, group.as_str());
            if strength != 0 {
                if let Some(path) = first_writable_exec(device, None) {
                    assert(0 <= strength * 255 + 50 <= 25550) by (nonlinear_arith)
                        requires
                            0 <= strength <= 100,
                    ;
                    let intensity = ((strength * 255 + 50) / 100) as u8;
                    let ghost prev = out@;
                    let ghost pv = path@;
                    out.push((index, intensity, path));
                    assert(out@.map_values(|t: (u8, u8, String)| (t.0, t.1, t.2@)) =~= prev.map_values(
                        |t: (u8, u8, String)| (t.0, t.1, t.2@),
                    ).push((index, intensity, pv)));
                }
            }
        }
        i = i + 1;
    }
    out
}

} // verus!
