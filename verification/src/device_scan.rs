//! Discovery of supported Linux HID presenter devices: the decisions made
//! on what the HID tree below `/sys/bus/hid/devices` holds.
//!
//! Reading the tree is left to the caller, which hands over the text of the
//! files it read; the functions here decide which devices and nodes result.

use vstd::prelude::*;

use crate::config::{find_key, group_entries, keyed, put_key};
use crate::order::{
    assoc_get, assoc_put, compare_chars, compare_paths, lemma_lex_irreflexive, lemma_lex_transitive, lemma_path_irreflexive,
    lemma_path_total, lemma_path_transitive, lex_lt, path_lt,
};
use crate::registry::{devices_view, Bus, DeviceId, SupportedDevice};
use crate::text::{
    chars_of, int_value, lines, lines_of, parse_int, split_chars, split_on, split_once,
    split_once_chars, string_of, sub_chars, views,
};

verus! {

/// Linux device-node role discovered below a HID device.
#[derive(Clone, Copy, Debug, PartialEq, Eq, Structural, PartialOrd, Ord)]
pub enum DeviceNodeKind {
    /// Linux input-event node used for buttons and relative pointer movement.
    Event,
    /// Raw HID node used for Logitech HID++ communication.
    Hidraw,
}

/// One device node belonging to a supported presenter.
#[derive(Debug, PartialEq, Eq)]
pub struct DeviceNode {
    pub path: String,
    pub kind: DeviceNodeKind,
    pub has_relative_pointer: bool,
    pub readable: bool,
    pub writable: bool,
}

impl View for DeviceNode {
    type V = (Seq<char>, DeviceNodeKind, bool, bool, bool);

    open spec fn view(&self) -> (Seq<char>, DeviceNodeKind, bool, bool, bool) {
        (self.path@, self.kind, self.has_relative_pointer, self.readable, self.writable)
    }
}

impl Clone for DeviceNode {
    fn clone(&self) -> (r: Self)
        ensures
            r@ == self@,
    {
        DeviceNode {
            path: self.path.clone(),
            kind: self.kind,
            has_relative_pointer: self.has_relative_pointer,
            readable: self.readable,
            writable: self.writable,
        }
    }
}

/// The views of a sequence of nodes.
pub open spec fn nodes_view(s: Seq<DeviceNode>) -> Seq<(Seq<char>, DeviceNodeKind, bool, bool, bool)> {
    s.map_values(|n: DeviceNode| n@)
}

/// A supported presenter found in the Linux HID tree.
#[derive(Debug, PartialEq, Eq)]
pub struct DiscoveredDevice {
    pub id: DeviceId,
    pub physical_id: String,
    pub kernel_name: String,
    pub configured_name: String,
    pub nodes: Vec<DeviceNode>,
}

impl View for DiscoveredDevice {
    type V = (
        DeviceId,
        Seq<char>,
        Seq<char>,
        Seq<char>,
        Seq<(Seq<char>, DeviceNodeKind, bool, bool, bool)>,
    );

    open spec fn view(&self) -> Self::V {
        (
            self.id,
            self.physical_id@,
            self.kernel_name@,
            self.configured_name@,
            nodes_view(self.nodes@),
        )
    }
}

/// The views of a sequence of devices.
pub open spec fn discovered_view(s: Seq<DiscoveredDevice>) -> Seq<
    (
        DeviceId,
        Seq<char>,
        Seq<char>,
        Seq<char>,
        Seq<(Seq<char>, DeviceNodeKind, bool, bool, bool)>,
    ),
> {
    s.map_values(|d: DiscoveredDevice| d@)
}

impl DiscoveredDevice {
    /// Projecteur's maintained model name, or the kernel-provided name when
    /// there is none.
    pub fn display_name(&self) -> (r: &str)
        ensures
            r@ == (if self.configured_name@.len() == 0 {
                self.kernel_name@
            } else {
                self.configured_name@
            }),
    {
        if self.configured_name.as_str().is_empty() {
            self.kernel_name.as_str()
        } else {
            self.configured_name.as_str()
        }
    }
}

/// Failure to list the Linux HID tree.
#[derive(Debug, PartialEq, Eq)]
pub struct DeviceScanError {
    pub path: String,
    pub reason: String,
}

impl DeviceScanError {
    /// The error as a message.
    pub fn to_string(&self) -> (s: String)
        ensures
            s@ == "cannot scan HID devices below "@ + self.path@ + ": "@ + self.reason@,
    {
        let mut s = String::new();
        crate::text::push_text(&mut s, "cannot scan HID devices below ");
        crate::text::push_text(&mut s, self.path.as_str());
        crate::text::push_text(&mut s, ": ");
        crate::text::push_text(&mut s, self.reason.as_str());
        s
    }
}

/// The properties of a `uevent` file: `KEY=value` lines, later lines
/// replacing earlier ones, in key order.
pub open spec fn properties_prefix(ls: Seq<Seq<char>>, k: nat) -> Seq<(Seq<char>, Seq<char>)>
    decreases k,
{
    if k == 0 {
        Seq::empty()
    } else {
        match split_once(ls[k - 1], '=') {
            Some((key, value)) => assoc_put(properties_prefix(ls, (k - 1) as nat), key, value),
            None => properties_prefix(ls, (k - 1) as nat),
        }
    }
}

/// The properties of a `uevent` file's text.
pub open spec fn properties(text: Seq<char>) -> Seq<(Seq<char>, Seq<char>)> {
    properties_prefix(lines(text), lines(text).len())
}

/// The properties of a `uevent` file's text, in key order.
pub fn parse_properties(contents: &str) -> (r: Vec<(String, String)>)
    ensures
        group_entries(r@) == properties(contents@),
{
    let text = chars_of(contents);
    let ls = lines_of(text.as_slice());
    let ghost lv = views(ls@);
    let mut props: Vec<(String, String)> = Vec::new();
    let mut i: usize = 0;
    assert(keyed(props@) =~= Seq::<(Seq<char>, Seq<char>)>::empty());
    while i < ls.len()
        invariant
            i <= ls@.len(),
            lv == views(ls@),
            lv == lines(contents@),
            keyed(props@) == properties_prefix(lv, i as nat),
        decreases ls@.len() - i,
    {
        assert(lv[i as int] == ls@[i as int]@);
        match split_once_chars(ls[i].as_slice(), '=') {
            Some((k, v)) => {
                put_key(&mut props, k.as_slice(), string_of(v.as_slice()));
            },
            None => {},
        }
        i = i + 1;
    }
    assert(keyed(props@) =~= group_entries(props@));
    props
}

fn property<'a>(props: &'a Vec<(String, String)>, key: &str) -> (r: Option<&'a String>)
    ensures
        match assoc_get(group_entries(props@), key@) {
            Some(v) => r matches Some(s) && s@ == v,
            None => r is None,
        },
{
    let k = chars_of(key);
    assert(keyed(props@) =~= group_entries(props@));
    match find_key(props, k.as_slice()) {
        Some(i) => Some(&props[i].1),
        None => None,
    }
}

/// The identity in a `HID_ID` property: `bus:vendor:product` in hexadecimal,
/// the bus 3 for USB or 5 for Bluetooth, vendor and product at most `0xffff`;
/// fields after the third are ignored.
pub open spec fn hid_id(v: Seq<char>) -> Option<DeviceId> {
    let f = split_on(v, ':');
    match int_value(f[0], 16, false, 0, 0xffff) {
        Some(b) => if (b == 3 || b == 5) && f.len() >= 3 {
            match (
                int_value(f[1], 16, false, 0, 0xffff_ffff),
                int_value(f[2], 16, false, 0, 0xffff_ffff),
            ) {
                (Some(vendor), Some(product)) => if vendor <= 0xffff && product <= 0xffff {
                    Some(
                        DeviceId {
                            vendor: vendor as u16,
                            product: product as u16,
                            bus: if b == 3 {
                                Bus::Usb
                            } else {
                                Bus::Bluetooth
                            },
                        },
                    )
                } else {
                    None
                },
                _ => None,
            }
        } else {
            None
        },
        None => None,
    }
}

/// Parse a `HID_ID` property value.
pub fn parse_hid_id(value: &str) -> (r: Option<DeviceId>)
    ensures
        r == hid_id(value@),
{
    let text = chars_of(value);
    let fields = split_chars(text.as_slice(), ':');
    proof {
        crate::text::lemma_split_nonempty(text@, ':');
    }
    assert(views(fields@)[0] == fields@[0]@);
    let bus = match parse_int(fields[0].as_slice(), 16, false, 0, 0xffff) {
        Some(3) => Bus::Usb,
        Some(5) => Bus::Bluetooth,
        _ => {
            return None;
        },
    };
    if fields.len() < 3 {
        return None;
    }
    assert(views(fields@)[1] == fields@[1]@);
    assert(views(fields@)[2] == fields@[2]@);
    let vendor = match parse_int(fields[1].as_slice(), 16, false, 0, 0xffff_ffff) {
        Some(v) => v,
        None => {
            return None;
        },
    };
    let product = match parse_int(fields[2].as_slice(), 16, false, 0, 0xffff_ffff) {
        Some(v) => v,
        None => {
            return None;
        },
    };
    if vendor > 0xffff || product > 0xffff {
        return None;
    }
    Some(DeviceId { vendor: vendor as u16, product: product as u16, bus })
}

/// The device that a HID entry's `uevent` text describes, before its nodes
/// are scanned: none when `HID_ID` is missing or malformed or names a model
/// that `supported` lacks; else the identity, the `HID_PHYS` text up to its
/// first `/`, the `HID_NAME` text (empty when absent) and the model's name.
pub open spec fn hid_entry(
    uevent: Seq<char>,
    supported: Seq<(DeviceId, Seq<char>)>,
) -> Option<(DeviceId, Seq<char>, Seq<char>, Seq<char>)> {
    let props = properties(uevent);
    match assoc_get(props, "HID_ID"@) {
        None => None,
        Some(idv) => match hid_id(idv) {
            None => None,
            Some(id) => if exists|i: int| 0 <= i < supported.len() && supported[i].0 == id {
                let m = choose|i: int|
                    0 <= i < supported.len() && supported[i].0 == id && forall|j: int|
                        0 <= j < i ==> supported[j].0 != id;
                let physical = match assoc_get(props, "HID_PHYS"@) {
                    Some(p) => split_on(p, '/')[0],
                    None => Seq::empty(),
                };
                let kernel = match assoc_get(props, "HID_NAME"@) {
                    Some(n) => n,
                    None => Seq::empty(),
                };
                Some((id, physical, kernel, supported[m].1))
            } else {
                None
            },
        },
    }
}

/// Decide whether a HID entry is a supported presenter, from the text of its
/// `uevent` file; the result has no nodes yet.
pub fn hid_entry_device(uevent: &str, supported: &[SupportedDevice]) -> (r: Option<DiscoveredDevice>)
    ensures
        match hid_entry(uevent@, devices_view(supported@)) {
            None => r is None,
            Some((id, physical, kernel, name)) => r matches Some(d) && d@ == (
                id,
                physical,
                kernel,
                name,
                Seq::<(Seq<char>, DeviceNodeKind, bool, bool, bool)>::empty(),
            ),
        },
{
    let props = parse_properties(uevent);
    let id = match property(&props, "HID_ID") {
        None => {
            return None;
        },
        Some(v) => match parse_hid_id(v.as_str()) {
            None => {
                return None;
            },
            Some(id) => id,
        },
    };
    let ghost sv = devices_view(supported@);
    let mut m: usize = 0;
    while m < supported.len()
        invariant
            m <= supported@.len(),
            sv == devices_view(supported@),
            forall|j: int| 0 <= j < m ==> sv[j].0 != id,
        ensures
            m <= supported@.len(),
            sv == devices_view(supported@),
            forall|j: int| 0 <= j < m ==> sv[j].0 != id,
            m < supported@.len() ==> sv[m as int].0 == id,
        decreases supported@.len() - m,
    {
        if supported[m].id == id {
            assert(sv[m as int] == supported@[m as int]@);
            break ;
        }
        assert(sv[m as int] == supported@[m as int]@);
        m = m + 1;
    }
    if m == supported.len() {
        return None;
    }
    assert(sv[m as int].0 == id);
    let ghost mc = choose|i: int|
        0 <= i < sv.len() && sv[i].0 == id && forall|j: int| 0 <= j < i ==> sv[j].0 != id;
    assert(mc == m) by {
        if mc < m {
            assert(sv[mc].0 != id);
        } else if mc > m {
            assert(sv[m as int].0 != id);
        }
    }
    let physical_id = match property(&props, "HID_PHYS") {
        Some(p) => {
            let pc = chars_of(p.as_str());
            let pieces = split_chars(pc.as_slice(), '/');
            proof {
                crate::text::lemma_split_nonempty(pc@, '/');
            }
            assert(views(pieces@)[0] == pieces@[0]@);
            string_of(pieces[0].as_slice())
        },
        None => String::new(),
    };
    let kernel_name = match property(&props, "HID_NAME") {
        Some(n) => n.clone(),
        None => String::new(),
    };
    let d = DiscoveredDevice {
        id,
        physical_id,
        kernel_name,
        configured_name: supported[m].name.clone(),
        nodes: Vec::new(),
    };
    assert(nodes_view(d.nodes@) =~= Seq::<(Seq<char>, DeviceNodeKind, bool, bool, bool)>::empty());
    Some(d)
}

/// The devices after merging a scanned entry: its nodes join those of the
/// device with the same identity and physical ID, or it is added as a new
/// device.
pub open spec fn merged(
    devices: Seq<
        (
            DeviceId,
            Seq<char>,
            Seq<char>,
            Seq<char>,
            Seq<(Seq<char>, DeviceNodeKind, bool, bool, bool)>,
        ),
    >,
    entry: (
        DeviceId,
        Seq<char>,
        Seq<char>,
        Seq<char>,
        Seq<(Seq<char>, DeviceNodeKind, bool, bool, bool)>,
    ),
) -> Seq<
    (DeviceId, Seq<char>, Seq<char>, Seq<char>, Seq<(Seq<char>, DeviceNodeKind, bool, bool, bool)>),
> {
    if exists|i: int| 0 <= i < devices.len() && devices[i].0 == entry.0 && devices[i].1 == entry.1 {
        let i = choose|i: int|
            0 <= i < devices.len() && devices[i].0 == entry.0 && devices[i].1 == entry.1 && forall|
                j: int,
            |
                0 <= j < i ==> !(devices[j].0 == entry.0 && devices[j].1 == entry.1);
        devices.update(
            i,
            (devices[i].0, devices[i].1, devices[i].2, devices[i].3, devices[i].4 + entry.4),
        )
    } else {
        devices.push(entry)
    }
}

/// Merge a scanned supported entry, with the nodes found below it, into the
/// devices found so far.
pub fn merge_scanned_entry(devices: &mut Vec<DiscoveredDevice>, entry: DiscoveredDevice)
    ensures
        discovered_view(final(devices)@) == merged(discovered_view(old(devices)@), entry@),
{
    let ghost dv = discovered_view(devices@);
    let mut i: usize = 0;
    let phys = chars_of(entry.physical_id.as_str());
    while i < devices.len()
        invariant
            i <= devices@.len(),
            dv == discovered_view(devices@),
            phys@ == entry.physical_id@,
            forall|j: int| 0 <= j < i ==> !(dv[j].0 == entry.id && dv[j].1 == entry.physical_id@),
        ensures
            i <= devices@.len(),
            dv == discovered_view(devices@),
            forall|j: int| 0 <= j < i ==> !(dv[j].0 == entry.id && dv[j].1 == entry.physical_id@),
            i < devices@.len() ==> dv[i as int].0 == entry.id && dv[i as int].1
                == entry.physical_id@,
        decreases devices@.len() - i,
    {
        let other = chars_of(devices[i].physical_id.as_str());
        assert(dv[i as int] == devices@[i as int]@);
        if devices[i].id == entry.id && compare_chars(other.as_slice(), phys.as_slice()) == 0 {
            break ;
        }
        i = i + 1;
    }
    if i == devices.len() {
        devices.push(entry);
        assert(discovered_view(devices@) =~= dv.push(entry@));
        return ;
    }
    let ghost k = choose|k: int|
        0 <= k < dv.len() && dv[k].0 == entry@.0 && dv[k].1 == entry@.1 && forall|j: int|
            0 <= j < k ==> !(dv[j].0 == entry@.0 && dv[j].1 == entry@.1);
    assert(dv[i as int].0 == entry@.0 && dv[i as int].1 == entry@.1);
    assert(k == i) by {
        if k < i {
        } else if k > i {
            assert(!(dv[i as int].0 == entry@.0 && dv[i as int].1 == entry@.1));
        }
    }
    let ghost before_remove = devices@;
    let mut d = devices.remove(i);
    assert(d@ == dv[i as int]);
    let ghost before_nodes = nodes_view(d.nodes@);
    let ghost d0 = d@;
    let mut j: usize = 0;
    while j < entry.nodes.len()
        invariant
            j <= entry.nodes@.len(),
            d.id == d0.0 && d.physical_id@ == d0.1 && d.kernel_name@ == d0.2
                && d.configured_name@ == d0.3,
            nodes_view(d.nodes@) == before_nodes + nodes_view(entry.nodes@).take(j as int),
        decreases entry.nodes@.len() - j,
    {
        let n = entry.nodes[j].clone();
        let ghost prev = d.nodes@;
        d.nodes.push(n);
        assert(nodes_view(d.nodes@) =~= nodes_view(prev).push(entry.nodes@[j as int]@));
        assert(nodes_view(entry.nodes@).take(j + 1) =~= nodes_view(entry.nodes@).take(j as int).push(
            entry.nodes@[j as int]@,
        ));
        j = j + 1;
    }
    assert(nodes_view(entry.nodes@).take(j as int) =~= nodes_view(entry.nodes@));
    assert(d@ == (dv[i as int].0, dv[i as int].1, dv[i as int].2, dv[i as int].3, dv[i as int].4
        + entry@.4));
    let ghost dd = d@;
    devices.insert(i, d);
    assert(devices@ =~= before_remove.update(i as int, devices@[i as int]));
    assert(devices@[i as int]@ == dd);
    assert(discovered_view(devices@) =~= discovered_view(before_remove).update(i as int, dd));
    assert(discovered_view(devices@) =~= dv.update(
        i as int,
        (dv[i as int].0, dv[i as int].1, dv[i as int].2, dv[i as int].3, dv[i as int].4 + entry@.4),
    ));
}

/// ASCII whitespace as `split_ascii_whitespace` knows it.
pub open spec fn is_ascii_ws(c: char) -> bool {
    c == ' ' || c == '\t' || c == '\n' || c == '\x0C' || c == '\r'
}

/// `s` without trailing ASCII whitespace.
pub open spec fn strip_trailing_ascii_ws(s: Seq<char>) -> Seq<char>
    decreases s.len(),
{
    if s.len() > 0 && is_ascii_ws(s.last()) {
        strip_trailing_ascii_ws(s.drop_last())
    } else {
        s
    }
}

/// The characters after the last ASCII whitespace of `s`.
pub open spec fn trailing_word(s: Seq<char>) -> Seq<char>
    decreases s.len(),
{
    if s.len() > 0 && !is_ascii_ws(s.last()) {
        trailing_word(s.drop_last()).push(s.last())
    } else {
        Seq::empty()
    }
}

/// The value of a capability bitmap file: its last whitespace-separated
/// word in hexadecimal, 0 when there is none or it is not a 64-bit number.
pub open spec fn bitmap_value(s: Seq<char>) -> u64 {
    let t = strip_trailing_ascii_ws(s);
    if t.len() == 0 {
        0
    } else {
        match int_value(trailing_word(t), 16, false, 0, 0xffff_ffff_ffff_ffff) {
            Some(v) => v as u64,
            None => 0,
        }
    }
}

/// Parse a capability bitmap file's text.
pub fn parse_bitmap(text: &str) -> (r: u64)
    ensures
        r == bitmap_value(text@),
{
    let s = chars_of(text);
    let mut j: usize = s.len();
    assert(s@.take(j as int) =~= s@);
    while j > 0 && (s[j - 1] == ' ' || s[j - 1] == '\t' || s[j - 1] == '\n' || s[j - 1] == '\x0C'
        || s[j - 1] == '\r')
        invariant
            j <= s@.len(),
            strip_trailing_ascii_ws(s@) == strip_trailing_ascii_ws(s@.take(j as int)),
        decreases j,
    {
        assert(s@.take(j as int).drop_last() =~= s@.take(j - 1));
        j = j - 1;
    }
    if j == 0 {
        return 0;
    }
    let ghost t = s@.take(j as int);
    let mut k: usize = j;
    assert(s@.subrange(j as int, j as int) =~= Seq::<char>::empty());
    assert(t.take(j as int) =~= t);
    while k > 0 && !(s[k - 1] == ' ' || s[k - 1] == '\t' || s[k - 1] == '\n' || s[k - 1]
        == '\x0C' || s[k - 1] == '\r')
        invariant
            k <= j <= s@.len(),
            t == s@.take(j as int),
            trailing_word(t) == trailing_word(t.take(k as int)) + s@.subrange(k as int, j as int),
        decreases k,
    {
        assert(t.take(k as int).drop_last() =~= t.take(k - 1));
        assert(t.take(k as int).last() == s@[k - 1]);
        assert(s@.subrange(k - 1, j as int) =~= seq![s@[k - 1]] + s@.subrange(k as int, j as int));
        k = k - 1;
    }
    assert(trailing_word(t.take(k as int)) =~= Seq::<char>::empty());
    let word = sub_chars(s.as_slice(), k, j);
    assert(word@ =~= trailing_word(t));
    match parse_int(word.as_slice(), 16, false, 0, 0xffff_ffff_ffff_ffff) {
        Some(v) => v as u64,
        None => 0,
    }
}

/// An input device moves a relative pointer: its event types include
/// `EV_REL` and its relative axes `REL_X` and `REL_Y`.
pub open spec fn relative_pointer(ev: Seq<char>, rel: Seq<char>) -> bool {
    bitmap_value(ev) & 4 != 0 && bitmap_value(rel) & 1 != 0 && bitmap_value(rel) & 2 != 0
}

/// Decide from the texts of an input device's `capabilities/ev` and
/// `capabilities/rel` files (empty where unreadable) whether it moves a
/// relative pointer.
pub fn supports_relative_pointer(ev: &str, rel: &str) -> (r: bool)
    ensures
        r == relative_pointer(ev@, rel@),
{
    let event_types = parse_bitmap(ev);
    let relative_axes = parse_bitmap(rel);
    event_types & 4 != 0 && relative_axes & 1 != 0 && relative_axes & 2 != 0
}


/// The order of node kinds: event nodes first.
pub open spec fn kind_rank(k: DeviceNodeKind) -> int {
    match k {
        DeviceNodeKind::Event => 0,
        DeviceNodeKind::Hidraw => 1,
    }
}

/// Nodes are ordered by kind, then by path.
pub open spec fn node_lt(
    a: (Seq<char>, DeviceNodeKind, bool, bool, bool),
    b: (Seq<char>, DeviceNodeKind, bool, bool, bool),
) -> bool {
    kind_rank(a.1) < kind_rank(b.1) || (a.1 == b.1 && path_lt(a.0, b.0))
}

/// Insert `x` after every node that does not sort after it.
pub open spec fn insert_node(
    s: Seq<(Seq<char>, DeviceNodeKind, bool, bool, bool)>,
    x: (Seq<char>, DeviceNodeKind, bool, bool, bool),
) -> Seq<(Seq<char>, DeviceNodeKind, bool, bool, bool)>
    decreases s.len(),
{
    if s.len() == 0 {
        seq![x]
    } else if node_lt(x, s[0]) {
        seq![x] + s
    } else {
        seq![s[0]] + insert_node(s.drop_first(), x)
    }
}

/// The stable sort of nodes by kind, then path.
pub open spec fn sort_nodes(s: Seq<(Seq<char>, DeviceNodeKind, bool, bool, bool)>) -> Seq<
    (Seq<char>, DeviceNodeKind, bool, bool, bool),
>
    decreases s.len(),
{
    if s.len() == 0 {
        s
    } else {
        insert_node(sort_nodes(s.drop_last()), s.last())
    }
}

/// Of each run of neighbouring nodes with one path, only the first.
pub open spec fn dedup_paths(s: Seq<(Seq<char>, DeviceNodeKind, bool, bool, bool)>) -> Seq<
    (Seq<char>, DeviceNodeKind, bool, bool, bool),
>
    decreases s.len(),
{
    if s.len() <= 1 {
        s
    } else if s.last().0 == s[s.len() - 2].0 {
        dedup_paths(s.drop_last())
    } else {
        dedup_paths(s.drop_last()).push(s.last())
    }
}

fn node_before(a: &DeviceNode, b: &DeviceNode) -> (r: bool)
    ensures
        r == node_lt(a@, b@),
{
    let ra: u8 = match a.kind {
        DeviceNodeKind::Event => 0,
        DeviceNodeKind::Hidraw => 1,
    };
    let rb: u8 = match b.kind {
        DeviceNodeKind::Event => 0,
        DeviceNodeKind::Hidraw => 1,
    };
    if ra != rb {
        return ra < rb;
    }
    let pa = chars_of(a.path.as_str());
    let pb = chars_of(b.path.as_str());
    compare_paths(pa.as_slice(), pb.as_slice()) < 0
}

fn insert_node_exec(out: &mut Vec<DeviceNode>, x: DeviceNode)
    ensures
        nodes_view(final(out)@) == insert_node(nodes_view(old(out)@), x@),
{
    let ghost orig = nodes_view(out@);
    let mut j: usize = 0;
    assert(orig.skip(0) =~= orig);
    assert(orig.take(0) + insert_node(orig.skip(0), x@) =~= insert_node(orig, x@));
    while j < out.len()
        invariant
            j <= out@.len(),
            nodes_view(out@) == orig,
            orig == nodes_view(old(out)@),
            insert_node(orig, x@) == orig.take(j as int) + insert_node(orig.skip(j as int), x@),
        decreases out@.len() - j,
    {
        let ghost rest = orig.skip(j as int);
        assert(rest[0] == out@[j as int]@);
        assert(rest.drop_first() =~= orig.skip(j + 1));
        if node_before(&x, &out[j]) {
            out.insert(j, x);
            assert(nodes_view(out@) =~= orig.take(j as int) + (seq![x@] + rest));
            return ;
        }
        assert(orig.take(j + 1) =~= orig.take(j as int).push(rest[0]));
        assert(orig.take(j as int) + insert_node(rest, x@) =~= orig.take(j + 1) + insert_node(
            orig.skip(j + 1),
            x@,
        ));
        j = j + 1;
    }
    assert(orig.skip(j as int) =~= Seq::<(Seq<char>, DeviceNodeKind, bool, bool, bool)>::empty());
    assert(orig.take(j as int) =~= orig);
    out.push(x);
    assert(nodes_view(out@) =~= orig + seq![x@]);
}

/// Sort nodes by kind, then path, keeping the order of equal ones.
pub fn sorted_nodes(nodes: &Vec<DeviceNode>) -> (r: Vec<DeviceNode>)
    ensures
        nodes_view(r@) == sort_nodes(nodes_view(nodes@)),
{
    let mut out: Vec<DeviceNode> = Vec::new();
    let mut i: usize = 0;
    assert(nodes_view(nodes@).take(0) =~= Seq::<(Seq<char>, DeviceNodeKind, bool, bool, bool)>::empty());
    assert(nodes_view(out@) =~= Seq::<(Seq<char>, DeviceNodeKind, bool, bool, bool)>::empty());
    while i < nodes.len()
        invariant
            i <= nodes@.len(),
            nodes_view(out@) == sort_nodes(nodes_view(nodes@).take(i as int)),
        decreases nodes@.len() - i,
    {
        let x = nodes[i].clone();
        assert(nodes_view(nodes@).take(i + 1).drop_last() =~= nodes_view(nodes@).take(i as int));
        assert(nodes_view(nodes@).take(i + 1).last() == x@);
        insert_node_exec(&mut out, x);
        i = i + 1;
    }
    assert(nodes_view(nodes@).take(i as int) =~= nodes_view(nodes@));
    out
}

/// Keep only the first of each run of neighbouring nodes with one path.
pub fn dedup_nodes(nodes: &Vec<DeviceNode>) -> (r: Vec<DeviceNode>)
    ensures
        nodes_view(r@) == dedup_paths(nodes_view(nodes@)),
{
    let ghost nv = nodes_view(nodes@);
    let mut out: Vec<DeviceNode> = Vec::new();
    let mut i: usize = 0;
    assert(nodes_view(out@) =~= dedup_paths(nv.take(0)));
    while i < nodes.len()
        invariant
            i <= nodes@.len(),
            nv == nodes_view(nodes@),
            nodes_view(out@) == dedup_paths(nv.take(i as int)),
        decreases nodes@.len() - i,
    {
        let ghost t = nv.take(i + 1);
        assert(t.drop_last() =~= nv.take(i as int));
        assert(t.last() == nodes@[i as int]@);
        let keep = if i == 0 {
            true
        } else {
            let a = chars_of(nodes[i].path.as_str());
            let b = chars_of(nodes[i - 1].path.as_str());
            assert(t[t.len() - 2] == nodes@[i - 1]@);
            compare_chars(a.as_slice(), b.as_slice()) != 0
        };
        if keep {
            let ghost prev = out@;
            out.push(nodes[i].clone());
            assert(nodes_view(out@) =~= nodes_view(prev).push(nodes@[i as int]@));
            if i == 0 {
                assert(t =~= seq![nodes@[0]@]);
                assert(nodes_view(out@) =~= dedup_paths(t));
            }
        }
        i = i + 1;
    }
    assert(nv.take(i as int) =~= nv);
    out
}

/// Devices are ordered by vendor, product, then physical ID.
pub open spec fn device_lt(
    a: (DeviceId, Seq<char>, Seq<char>, Seq<char>, Seq<(Seq<char>, DeviceNodeKind, bool, bool, bool)>),
    b: (DeviceId, Seq<char>, Seq<char>, Seq<char>, Seq<(Seq<char>, DeviceNodeKind, bool, bool, bool)>),
) -> bool {
    a.0.vendor < b.0.vendor || (a.0.vendor == b.0.vendor && (a.0.product < b.0.product || (
    a.0.product == b.0.product && lex_lt(a.1, b.1))))
}

/// Insert `x` after every device that does not sort after it.
pub open spec fn insert_device(
    s: Seq<
        (DeviceId, Seq<char>, Seq<char>, Seq<char>, Seq<(Seq<char>, DeviceNodeKind, bool, bool, bool)>),
    >,
    x: (DeviceId, Seq<char>, Seq<char>, Seq<char>, Seq<(Seq<char>, DeviceNodeKind, bool, bool, bool)>),
) -> Seq<
    (DeviceId, Seq<char>, Seq<char>, Seq<char>, Seq<(Seq<char>, DeviceNodeKind, bool, bool, bool)>),
>
    decreases s.len(),
{
    if s.len() == 0 {
        seq![x]
    } else if device_lt(x, s[0]) {
        seq![x] + s
    } else {
        seq![s[0]] + insert_device(s.drop_first(), x)
    }
}

/// The stable sort of devices by vendor, product, then physical ID.
pub open spec fn sort_devices(
    s: Seq<
        (DeviceId, Seq<char>, Seq<char>, Seq<char>, Seq<(Seq<char>, DeviceNodeKind, bool, bool, bool)>),
    >,
) -> Seq<
    (DeviceId, Seq<char>, Seq<char>, Seq<char>, Seq<(Seq<char>, DeviceNodeKind, bool, bool, bool)>),
>
    decreases s.len(),
{
    if s.len() == 0 {
        s
    } else {
        insert_device(sort_devices(s.drop_last()), s.last())
    }
}

/// A device with its nodes sorted and each path kept once.
pub open spec fn tidy_device(
    d: (DeviceId, Seq<char>, Seq<char>, Seq<char>, Seq<(Seq<char>, DeviceNodeKind, bool, bool, bool)>),
) -> (DeviceId, Seq<char>, Seq<char>, Seq<char>, Seq<(Seq<char>, DeviceNodeKind, bool, bool, bool)>) {
    (d.0, d.1, d.2, d.3, dedup_paths(sort_nodes(d.4)))
}

/// The result of a scan: every device tidied, then the devices sorted.
pub open spec fn finished(
    s: Seq<
        (DeviceId, Seq<char>, Seq<char>, Seq<char>, Seq<(Seq<char>, DeviceNodeKind, bool, bool, bool)>),
    >,
) -> Seq<
    (DeviceId, Seq<char>, Seq<char>, Seq<char>, Seq<(Seq<char>, DeviceNodeKind, bool, bool, bool)>),
> {
    sort_devices(s.map_values(|d| tidy_device(d)))
}

fn device_before(a: &DiscoveredDevice, b: &DiscoveredDevice) -> (r: bool)
    ensures
        r == device_lt(a@, b@),
{
    if a.id.vendor != b.id.vendor {
        return a.id.vendor < b.id.vendor;
    }
    if a.id.product != b.id.product {
        return a.id.product < b.id.product;
    }
    let pa = chars_of(a.physical_id.as_str());
    let pb = chars_of(b.physical_id.as_str());
    compare_chars(pa.as_slice(), pb.as_slice()) < 0
}

fn insert_device_exec(out: &mut Vec<DiscoveredDevice>, x: DiscoveredDevice)
    ensures
        discovered_view(final(out)@) == insert_device(discovered_view(old(out)@), x@),
{
    let ghost orig = discovered_view(out@);
    let mut j: usize = 0;
    assert(orig.skip(0) =~= orig);
    assert(orig.take(0) + insert_device(orig.skip(0), x@) =~= insert_device(orig, x@));
    while j < out.len()
        invariant
            j <= out@.len(),
            discovered_view(out@) == orig,
            orig == discovered_view(old(out)@),
            insert_device(orig, x@) == orig.take(j as int) + insert_device(orig.skip(j as int), x@),
        decreases out@.len() - j,
    {
        let ghost rest = orig.skip(j as int);
        assert(rest[0] == out@[j as int]@);
        assert(rest.drop_first() =~= orig.skip(j + 1));
        if device_before(&x, &out[j]) {
            out.insert(j, x);
            assert(discovered_view(out@) =~= orig.take(j as int) + (seq![x@] + rest));
            return ;
        }
        assert(orig.take(j + 1) =~= orig.take(j as int).push(rest[0]));
        assert(orig.take(j as int) + insert_device(rest, x@) =~= orig.take(j + 1) + insert_device(
            orig.skip(j + 1),
            x@,
        ));
        j = j + 1;
    }
    assert(orig.skip(j as int) =~= Seq::<
        (DeviceId, Seq<char>, Seq<char>, Seq<char>, Seq<(Seq<char>, DeviceNodeKind, bool, bool, bool)>),
    >::empty());
    assert(orig.take(j as int) =~= orig);
    out.push(x);
    assert(discovered_view(out@) =~= orig + seq![x@]);
}

/// Finish a scan: sort each device's nodes by kind and path, keeping each
/// path once, then sort the devices by vendor, product and physical ID.
pub fn finish_scan(devices: Vec<DiscoveredDevice>) -> (r: Vec<DiscoveredDevice>)
    ensures
        discovered_view(r@) == finished(discovered_view(devices@)),
{
    let ghost dv = discovered_view(devices@);
    let ghost tidy = dv.map_values(|d| tidy_device(d));
    let mut out: Vec<DiscoveredDevice> = Vec::new();
    let mut devices = devices;
    let mut i: usize = 0;
    assert(tidy.take(0) =~= Seq::<
        (DeviceId, Seq<char>, Seq<char>, Seq<char>, Seq<(Seq<char>, DeviceNodeKind, bool, bool, bool)>),
    >::empty());
    assert(discovered_view(out@) =~= sort_devices(tidy.take(0)));
    while i < devices.len()
        invariant
            i <= devices@.len(),
            dv == discovered_view(devices@),
            tidy == dv.map_values(|d| tidy_device(d)),
            discovered_view(out@) == sort_devices(tidy.take(i as int)),
        decreases devices@.len() - i,
    {
        let sorted = sorted_nodes(&devices[i].nodes);
        let nodes = dedup_nodes(&sorted);
        let d = DiscoveredDevice {
            id: devices[i].id,
            physical_id: devices[i].physical_id.clone(),
            kernel_name: devices[i].kernel_name.clone(),
            configured_name: devices[i].configured_name.clone(),
            nodes,
        };
        assert(dv[i as int] == devices@[i as int]@);
        assert(d@ == tidy[i as int]);
        assert(tidy.take(i + 1).drop_last() =~= tidy.take(i as int));
        insert_device_exec(&mut out, d);
        i = i + 1;
    }
    assert(tidy.take(i as int) =~= tidy);
    out
}
/// No node of `s` sorts before a node ahead of it.
pub open spec fn nodes_ordered(s: Seq<(Seq<char>, DeviceNodeKind, bool, bool, bool)>) -> bool {
    forall|i: int, j: int| 0 <= i < j < s.len() ==> !node_lt(#[trigger] s[j], #[trigger] s[i])
}

/// The nodes of `s` strictly increase by kind, then path.
pub open spec fn nodes_increasing(s: Seq<(Seq<char>, DeviceNodeKind, bool, bool, bool)>) -> bool {
    forall|i: int, j: int| 0 <= i < j < s.len() ==> node_lt(#[trigger] s[i], #[trigger] s[j])
}

/// No two neighbouring nodes of `s` share a path.
pub open spec fn paths_apart(s: Seq<(Seq<char>, DeviceNodeKind, bool, bool, bool)>) -> bool {
    forall|i: int, j: int| 0 <= i && j == i + 1 && j < s.len() ==> #[trigger] s[i].0 != #[trigger] s[j].0
}

proof fn lemma_dedup_apart(s: Seq<(Seq<char>, DeviceNodeKind, bool, bool, bool)>)
    ensures
        paths_apart(dedup_paths(s)),
        s.len() > 0 ==> dedup_paths(s).len() > 0 && dedup_paths(s).last().0 == s.last().0,
    decreases s.len(),
{
    let r = dedup_paths(s);
    if s.len() > 1 {
        let n = s.len();
        let p = s.drop_last();
        lemma_dedup_apart(p);
        let d = dedup_paths(p);
        assert(p.last() == s[n - 2]);
        if s.last().0 == s[n - 2].0 {
            assert(r == d);
        } else {
            assert(r == d.push(s.last()));
            assert forall|i: int, j: int| 0 <= i && j == i + 1 && j < r.len() implies #[trigger] r[i].0
                != #[trigger] r[j].0 by {
                if j == r.len() - 1 {
                    assert(r[i] == d.last());
                } else {
                    assert(r[i] == d[i] && r[j] == d[j]);
                }
            }
        }
    }
}

/// No device of `s` sorts before a device ahead of it.
pub open spec fn devices_ordered(s: Seq<(DeviceId, Seq<char>, Seq<char>, Seq<char>, Seq<(Seq<char>, DeviceNodeKind, bool, bool, bool)>)>) -> bool {
    forall|i: int, j: int| 0 <= i < j < s.len() ==> !device_lt(#[trigger] s[j], #[trigger] s[i])
}

proof fn lemma_node_order(a: (Seq<char>, DeviceNodeKind, bool, bool, bool), b: (Seq<char>, DeviceNodeKind, bool, bool, bool), c: (Seq<char>, DeviceNodeKind, bool, bool, bool))
    ensures
        !node_lt(a, a),
        node_lt(a, b) && node_lt(b, c) ==> node_lt(a, c),
        node_lt(a, b) ==> node_lt(a, c) || node_lt(c, b),
        !node_lt(a, b) && !node_lt(b, a) ==> a.0 == b.0 && a.1 == b.1,
{
    lemma_path_irreflexive(a.0);
    lemma_path_total(a.0, b.0);
    lemma_path_total(a.0, c.0);
    if a.1 == b.1 && b.1 == c.1 && path_lt(a.0, b.0) && path_lt(b.0, c.0) {
        lemma_path_transitive(a.0, b.0, c.0);
    }
    if a.1 == b.1 && a.1 == c.1 && path_lt(c.0, a.0) && path_lt(a.0, b.0) {
        lemma_path_transitive(c.0, a.0, b.0);
    }
}

proof fn lemma_device_transitive(a: (DeviceId, Seq<char>, Seq<char>, Seq<char>, Seq<(Seq<char>, DeviceNodeKind, bool, bool, bool)>), b: (DeviceId, Seq<char>, Seq<char>, Seq<char>, Seq<(Seq<char>, DeviceNodeKind, bool, bool, bool)>), c: (DeviceId, Seq<char>, Seq<char>, Seq<char>, Seq<(Seq<char>, DeviceNodeKind, bool, bool, bool)>))
    requires
        device_lt(a, b),
        device_lt(b, c),
    ensures
        device_lt(a, c),
{
    if a.0.vendor == b.0.vendor && b.0.vendor == c.0.vendor && a.0.product == b.0.product
        && b.0.product == c.0.product {
        lemma_lex_transitive(a.1, b.1, c.1);
    }
}

proof fn lemma_insert_node(s: Seq<(Seq<char>, DeviceNodeKind, bool, bool, bool)>, x: (Seq<char>, DeviceNodeKind, bool, bool, bool))
    requires
        nodes_ordered(s),
    ensures
        nodes_ordered(insert_node(s, x)),
        exists|k: int| 0 <= k <= s.len() && insert_node(s, x) == s.insert(k, x),
    decreases s.len(),
{
    let r = insert_node(s, x);
    if s.len() == 0 {
        assert(r =~= s.insert(0, x));
    } else if node_lt(x, s[0]) {
        assert(r =~= s.insert(0, x));
        assert forall|i: int, j: int| 0 <= i < j < r.len() implies !node_lt(
            #[trigger] r[j],
            #[trigger] r[i],
        ) by {
            assert(r[j] == s[j - 1]);
            if i == 0 {
                lemma_node_order(s[j - 1], x, s[0]);
                lemma_node_order(x, s[0], x);
                if j - 1 > 0 {
                    assert(!node_lt(s[j - 1], s[0]));
                }
            } else {
                assert(r[i] == s[i - 1]);
            }
        }
    } else {
        let rest = s.drop_first();
        assert forall|i: int, j: int| 0 <= i < j < rest.len() implies !node_lt(
            #[trigger] rest[j],
            #[trigger] rest[i],
        ) by {
            assert(rest[i] == s[i + 1] && rest[j] == s[j + 1]);
        }
        lemma_insert_node(rest, x);
        let t = insert_node(rest, x);
        let k = choose|k: int| 0 <= k <= rest.len() && t == rest.insert(k, x);
        rest.insert_ensures(k, x);
        s.insert_ensures(k + 1, x);
        assert(r =~= seq![s[0]] + t);
        assert(r =~= s.insert(k + 1, x));
        assert forall|i: int, j: int| 0 <= i < j < r.len() implies !node_lt(
            #[trigger] r[j],
            #[trigger] r[i],
        ) by {
            assert(r[j] == t[j - 1]);
            if i == 0 {
                if j - 1 < k {
                    assert(t[j - 1] == s[j]);
                } else if j - 1 > k {
                    assert(t[j - 1] == rest[j - 2]);
                    assert(t[j - 1] == s[j - 1]);
                }
            } else {
                assert(r[i] == t[i - 1]);
            }
        }
    }
}

proof fn lemma_sort_nodes(s: Seq<(Seq<char>, DeviceNodeKind, bool, bool, bool)>)
    ensures
        nodes_ordered(sort_nodes(s)),
        sort_nodes(s).to_multiset() == s.to_multiset(),
    decreases s.len(),
{
    broadcast use vstd::seq_lib::group_to_multiset_ensures;

    if s.len() > 0 {
        let p = s.drop_last();
        lemma_sort_nodes(p);
        let q = sort_nodes(p);
        lemma_insert_node(q, s.last());
        let k = choose|k: int| 0 <= k <= q.len() && insert_node(q, s.last()) == q.insert(k, s.last());
        assert(s =~= p.push(s.last()));
    } else {
        assert(s.to_multiset() =~= vstd::multiset::Multiset::empty());
    }
}

proof fn lemma_dedup_paths(s: Seq<(Seq<char>, DeviceNodeKind, bool, bool, bool)>)
    requires
        nodes_ordered(s),
    ensures
        nodes_increasing(dedup_paths(s)),
        forall|k: int|
            0 <= k < dedup_paths(s).len() ==> exists|m: int|
                0 <= m < s.len() && #[trigger] dedup_paths(s)[k] == s[m],
        s.len() > 0 ==> dedup_paths(s).len() > 0 && !node_lt(s.last(), dedup_paths(s).last()),
    decreases s.len(),
{
    let r = dedup_paths(s);
    if s.len() <= 1 {
        if s.len() == 1 {
            lemma_node_order(s[0], s[0], s[0]);
            assert(r[0] == s[0]);
        }
    } else {
        let n = s.len();
        let p = s.drop_last();
        assert forall|i: int, j: int| 0 <= i < j < p.len() implies !node_lt(
            #[trigger] p[j],
            #[trigger] p[i],
        ) by {
            assert(p[i] == s[i] && p[j] == s[j]);
        }
        lemma_dedup_paths(p);
        let d = dedup_paths(p);
        let dl = d.last();
        let x = s.last();
        let y = s[n - 2];
        assert(p.last() == y);
        assert(!node_lt(x, y));
        if x.0 == y.0 {
            assert(r == d);
            lemma_node_order(x, dl, y);
            assert forall|k: int| 0 <= k < r.len() implies exists|m: int|
                0 <= m < s.len() && #[trigger] r[k] == s[m] by {
                let m = choose|m: int| 0 <= m < p.len() && d[k] == p[m];
                assert(p[m] == s[m]);
            }
        } else {
            assert(r == d.push(x));
            lemma_node_order(y, x, dl);
            lemma_node_order(x, x, x);
            assert(node_lt(y, x));
            assert(node_lt(dl, x));
            assert forall|i: int, j: int| 0 <= i < j < r.len() implies node_lt(
                #[trigger] r[i],
                #[trigger] r[j],
            ) by {
                if j == r.len() - 1 {
                    assert(r[j] == x);
                    assert(r[i] == d[i]);
                    if i < d.len() - 1 {
                        assert(node_lt(d[i], dl));
                        lemma_node_order(d[i], dl, x);
                    }
                } else {
                    assert(r[i] == d[i] && r[j] == d[j]);
                }
            }
            assert forall|k: int| 0 <= k < r.len() implies exists|m: int|
                0 <= m < s.len() && #[trigger] r[k] == s[m] by {
                if k == r.len() - 1 {
                    assert(r[k] == s[n - 1]);
                } else {
                    assert(r[k] == d[k]);
                    let m = choose|m: int| 0 <= m < p.len() && d[k] == p[m];
                    assert(p[m] == s[m]);
                }
            }
        }
    }
}

proof fn lemma_insert_device(s: Seq<(DeviceId, Seq<char>, Seq<char>, Seq<char>, Seq<(Seq<char>, DeviceNodeKind, bool, bool, bool)>)>, x: (DeviceId, Seq<char>, Seq<char>, Seq<char>, Seq<(Seq<char>, DeviceNodeKind, bool, bool, bool)>))
    requires
        devices_ordered(s),
    ensures
        devices_ordered(insert_device(s, x)),
        exists|k: int| 0 <= k <= s.len() && insert_device(s, x) == s.insert(k, x),
    decreases s.len(),
{
    let r = insert_device(s, x);
    if s.len() == 0 {
        assert(r =~= s.insert(0, x));
    } else if device_lt(x, s[0]) {
        assert(r =~= s.insert(0, x));
        assert forall|i: int, j: int| 0 <= i < j < r.len() implies !device_lt(
            #[trigger] r[j],
            #[trigger] r[i],
        ) by {
            assert(r[j] == s[j - 1]);
            if i == 0 {
                if device_lt(s[j - 1], x) {
                    lemma_device_transitive(s[j - 1], x, s[0]);
                    if j - 1 == 0 {
                        lemma_device_transitive(x, s[0], x);
                        lemma_lex_irreflexive(x.1);
                    } else {
                        assert(!device_lt(s[j - 1], s[0]));
                    }
                }
            } else {
                assert(r[i] == s[i - 1]);
            }
        }
    } else {
        let rest = s.drop_first();
        assert forall|i: int, j: int| 0 <= i < j < rest.len() implies !device_lt(
            #[trigger] rest[j],
            #[trigger] rest[i],
        ) by {
            assert(rest[i] == s[i + 1] && rest[j] == s[j + 1]);
        }
        lemma_insert_device(rest, x);
        let t = insert_device(rest, x);
        let k = choose|k: int| 0 <= k <= rest.len() && t == rest.insert(k, x);
        rest.insert_ensures(k, x);
        s.insert_ensures(k + 1, x);
        assert(r =~= seq![s[0]] + t);
        assert(r =~= s.insert(k + 1, x));
        assert forall|i: int, j: int| 0 <= i < j < r.len() implies !device_lt(
            #[trigger] r[j],
            #[trigger] r[i],
        ) by {
            assert(r[j] == t[j - 1]);
            if i == 0 {
                if j - 1 < k {
                    assert(t[j - 1] == s[j]);
                } else if j - 1 > k {
                    assert(t[j - 1] == rest[j - 2]);
                    assert(t[j - 1] == s[j - 1]);
                }
            } else {
                assert(r[i] == t[i - 1]);
            }
        }
    }
}

proof fn lemma_sort_devices(s: Seq<(DeviceId, Seq<char>, Seq<char>, Seq<char>, Seq<(Seq<char>, DeviceNodeKind, bool, bool, bool)>)>)
    ensures
        devices_ordered(sort_devices(s)),
        sort_devices(s).to_multiset() == s.to_multiset(),
    decreases s.len(),
{
    broadcast use vstd::seq_lib::group_to_multiset_ensures;

    if s.len() > 0 {
        let p = s.drop_last();
        lemma_sort_devices(p);
        let q = sort_devices(p);
        lemma_insert_device(q, s.last());
        let k = choose|k: int|
            0 <= k <= q.len() && insert_device(q, s.last()) == q.insert(k, s.last());
        assert(s =~= p.push(s.last()));
    } else {
        assert(s.to_multiset() =~= vstd::multiset::Multiset::empty());
    }
}

/// A finished scan holds the devices it was given, each with its nodes
/// sorted and each path kept once, and no other: the devices come in order
/// of vendor, product and physical ID, and the nodes of each device
/// strictly increase by kind, then path, no two neighbours sharing a path.
pub proof fn lemma_finished_scan_ordered(s: Seq<(DeviceId, Seq<char>, Seq<char>, Seq<char>, Seq<(Seq<char>, DeviceNodeKind, bool, bool, bool)>)>)
    ensures
        devices_ordered(finished(s)),
        finished(s).to_multiset() == s.map_values(|d: (DeviceId, Seq<char>, Seq<char>, Seq<char>, Seq<(Seq<char>, DeviceNodeKind, bool, bool, bool)>)| tidy_device(d)).to_multiset(),
        forall|k: int| 0 <= k < finished(s).len() ==> nodes_increasing(#[trigger] finished(s)[k].4),
        forall|k: int| 0 <= k < finished(s).len() ==> paths_apart(#[trigger] finished(s)[k].4),
{
    broadcast use vstd::seq_lib::group_to_multiset_ensures;

    let t = s.map_values(|d: (DeviceId, Seq<char>, Seq<char>, Seq<char>, Seq<(Seq<char>, DeviceNodeKind, bool, bool, bool)>)| tidy_device(d));
    lemma_sort_devices(t);
    let r = finished(s);
    assert forall|k: int| 0 <= k < r.len() implies nodes_increasing(#[trigger] r[k].4) by {
        assert(r.contains(r[k]));
        assert(r.to_multiset().count(r[k]) > 0);
        assert(t.contains(r[k]));
        let m = choose|m: int| 0 <= m < t.len() && t[m] == r[k];
        lemma_sort_nodes(s[m].4);
        lemma_dedup_paths(sort_nodes(s[m].4));
    }
    assert forall|k: int| 0 <= k < r.len() implies paths_apart(#[trigger] r[k].4) by {
        assert(r.contains(r[k]));
        assert(r.to_multiset().count(r[k]) > 0);
        assert(t.contains(r[k]));
        let m = choose|m: int| 0 <= m < t.len() && t[m] == r[k];
        lemma_dedup_apart(sort_nodes(s[m].4));
    }
}
/// What the HID tree held: for each entry, the text of its `uevent` file
/// and the nodes found below it.
pub open spec fn entries_view(entries: Seq<(String, Vec<DeviceNode>)>) -> Seq<(Seq<char>, Seq<(Seq<char>, DeviceNodeKind, bool, bool, bool)>)> {
    entries.map_values(|e: (String, Vec<DeviceNode>)| (e.0@, nodes_view(e.1@)))
}

/// The devices found in `entries`, in the order met, before they are
/// finished: each supported entry, with its nodes, merged into the devices
/// found before it.
pub open spec fn scanned(entries: Seq<(Seq<char>, Seq<(Seq<char>, DeviceNodeKind, bool, bool, bool)>)>, supported: Seq<(DeviceId, Seq<char>)>) -> Seq<(DeviceId, Seq<char>, Seq<char>, Seq<char>, Seq<(Seq<char>, DeviceNodeKind, bool, bool, bool)>)>
    decreases entries.len(),
{
    if entries.len() == 0 {
        Seq::empty()
    } else {
        let before = scanned(entries.drop_last(), supported);
        let e = entries.last();
        match hid_entry(e.0, supported) {
            None => before,
            Some(t) => merged(before, (t.0, t.1, t.2, t.3, e.1)),
        }
    }
}

/// No two devices share identity and physical ID.
pub open spec fn keys_distinct(s: Seq<(DeviceId, Seq<char>, Seq<char>, Seq<char>, Seq<(Seq<char>, DeviceNodeKind, bool, bool, bool)>)>) -> bool {
    forall|i: int, j: int|
        0 <= i < j < s.len() ==> !(#[trigger] s[i].0 == #[trigger] s[j].0 && s[i].1 == s[j].1)
}

/// `d` is a supported model, under that model's name.
pub open spec fn supported_model(d: (DeviceId, Seq<char>, Seq<char>, Seq<char>, Seq<(Seq<char>, DeviceNodeKind, bool, bool, bool)>), supported: Seq<(DeviceId, Seq<char>)>) -> bool {
    exists|i: int| 0 <= i < supported.len() && supported[i].0 == d.0 && supported[i].1 == d.3
}

/// Every device is a supported model, under that model's name.
pub open spec fn names_supported(s: Seq<(DeviceId, Seq<char>, Seq<char>, Seq<char>, Seq<(Seq<char>, DeviceNodeKind, bool, bool, bool)>)>, supported: Seq<(DeviceId, Seq<char>)>) -> bool {
    forall|k: int| 0 <= k < s.len() ==> supported_model(#[trigger] s[k], supported)
}

proof fn lemma_first_match(sv: Seq<(DeviceId, Seq<char>)>, id: DeviceId, n: int)
    requires
        0 <= n < sv.len(),
        sv[n].0 == id,
    ensures
        exists|i: int|
            0 <= i < sv.len() && sv[i].0 == id && forall|j: int| 0 <= j < i ==> sv[j].0 != id,
    decreases n,
{
    if exists|j: int| 0 <= j < n && sv[j].0 == id {
        let j = choose|j: int| 0 <= j < n && sv[j].0 == id;
        lemma_first_match(sv, id, j);
    } else {
        assert(0 <= n < sv.len() && sv[n].0 == id && forall|j: int| 0 <= j < n ==> sv[j].0 != id);
    }
}

proof fn lemma_hid_entry_supported(u: Seq<char>, sv: Seq<(DeviceId, Seq<char>)>)
    ensures
        hid_entry(u, sv) matches Some(t) ==> exists|i: int|
            0 <= i < sv.len() && sv[i].0 == t.0 && sv[i].1 == t.3,
{
    let props = properties(u);
    if let Some(idv) = assoc_get(props, "HID_ID"@) {
        if let Some(id) = hid_id(idv) {
            if exists|i: int| 0 <= i < sv.len() && sv[i].0 == id {
                let i0 = choose|i: int| 0 <= i < sv.len() && sv[i].0 == id;
                lemma_first_match(sv, id, i0);
                let m = choose|i: int|
                    0 <= i < sv.len() && sv[i].0 == id && forall|j: int| 0 <= j < i ==> sv[j].0 != id;
                assert(0 <= m < sv.len() && sv[m].0 == id);
            }
        }
    }
}

proof fn lemma_merged_keeps(devices: Seq<(DeviceId, Seq<char>, Seq<char>, Seq<char>, Seq<(Seq<char>, DeviceNodeKind, bool, bool, bool)>)>, entry: (DeviceId, Seq<char>, Seq<char>, Seq<char>, Seq<(Seq<char>, DeviceNodeKind, bool, bool, bool)>), sv: Seq<(DeviceId, Seq<char>)>)
    requires
        keys_distinct(devices),
        names_supported(devices, sv),
        exists|i: int| 0 <= i < sv.len() && sv[i].0 == entry.0 && sv[i].1 == entry.3,
    ensures
        keys_distinct(merged(devices, entry)),
        names_supported(merged(devices, entry), sv),
{
    let r = merged(devices, entry);
    if exists|i: int| 0 <= i < devices.len() && devices[i].0 == entry.0 && devices[i].1 == entry.1 {
        let w = choose|i: int| 0 <= i < devices.len() && devices[i].0 == entry.0 && devices[i].1 == entry.1;
        assert(0 <= w < devices.len() && devices[w].0 == entry.0 && devices[w].1 == entry.1 && forall|j: int| 0 <= j < w ==> !(devices[j].0 == entry.0 && devices[j].1 == entry.1)) by {
            lemma_first_device(devices, entry, w);
        }
        let i = choose|i: int|
            0 <= i < devices.len() && devices[i].0 == entry.0 && devices[i].1 == entry.1 && forall|
                j: int,
            |
                0 <= j < i ==> !(devices[j].0 == entry.0 && devices[j].1 == entry.1);
        assert(r.len() == devices.len());
        assert forall|a: int, b: int| 0 <= a < b < r.len() implies !(#[trigger] r[a].0
            == #[trigger] r[b].0 && r[a].1 == r[b].1) by {
            assert(r[a].0 == devices[a].0 && r[a].1 == devices[a].1);
            assert(r[b].0 == devices[b].0 && r[b].1 == devices[b].1);
        }
        assert forall|k: int| 0 <= k < r.len() implies supported_model(#[trigger] r[k], sv) by {
            assert(r[k].0 == devices[k].0 && r[k].3 == devices[k].3);
        }
    } else {
        assert(r == devices.push(entry));
        assert forall|a: int, b: int| 0 <= a < b < r.len() implies !(#[trigger] r[a].0
            == #[trigger] r[b].0 && r[a].1 == r[b].1) by {
            if b == devices.len() {
                assert(r[a] == devices[a]);
            } else {
                assert(r[a] == devices[a] && r[b] == devices[b]);
            }
        }
        assert forall|k: int| 0 <= k < r.len() implies supported_model(#[trigger] r[k], sv) by {
            if k < devices.len() {
                assert(r[k] == devices[k]);
            }
        }
    }
}

proof fn lemma_first_device(devices: Seq<(DeviceId, Seq<char>, Seq<char>, Seq<char>, Seq<(Seq<char>, DeviceNodeKind, bool, bool, bool)>)>, entry: (DeviceId, Seq<char>, Seq<char>, Seq<char>, Seq<(Seq<char>, DeviceNodeKind, bool, bool, bool)>), n: int)
    requires
        0 <= n < devices.len(),
        devices[n].0 == entry.0 && devices[n].1 == entry.1,
    ensures
        exists|i: int|
            0 <= i < devices.len() && devices[i].0 == entry.0 && devices[i].1 == entry.1 && forall|
                j: int,
            |
                0 <= j < i ==> !(devices[j].0 == entry.0 && devices[j].1 == entry.1),
    decreases n,
{
    if exists|j: int| 0 <= j < n && devices[j].0 == entry.0 && devices[j].1 == entry.1 {
        let j = choose|j: int| 0 <= j < n && devices[j].0 == entry.0 && devices[j].1 == entry.1;
        lemma_first_device(devices, entry, j);
    } else {
        assert(forall|j: int| 0 <= j < n ==> !(devices[j].0 == entry.0 && devices[j].1 == entry.1));
    }
}

proof fn lemma_scanned_keeps(entries: Seq<(Seq<char>, Seq<(Seq<char>, DeviceNodeKind, bool, bool, bool)>)>, sv: Seq<(DeviceId, Seq<char>)>)
    ensures
        keys_distinct(scanned(entries, sv)),
        names_supported(scanned(entries, sv), sv),
    decreases entries.len(),
{
    if entries.len() > 0 {
        lemma_scanned_keeps(entries.drop_last(), sv);
        let e = entries.last();
        lemma_hid_entry_supported(e.0, sv);
        if let Some(t) = hid_entry(e.0, sv) {
            lemma_merged_keeps(scanned(entries.drop_last(), sv), (t.0, t.1, t.2, t.3, e.1), sv);
        }
    }
}

proof fn lemma_sort_devices_keeps(s: Seq<(DeviceId, Seq<char>, Seq<char>, Seq<char>, Seq<(Seq<char>, DeviceNodeKind, bool, bool, bool)>)>, sv: Seq<(DeviceId, Seq<char>)>)
    requires
        keys_distinct(s),
        names_supported(s, sv),
    ensures
        keys_distinct(sort_devices(s)),
        names_supported(sort_devices(s), sv),
        sort_devices(s).len() == s.len(),
        forall|k: int|
            0 <= k < sort_devices(s).len() ==> exists|m: int|
                0 <= m < s.len() && #[trigger] sort_devices(s)[k] == s[m],
    decreases s.len(),
{
    if s.len() > 0 {
        let p = s.drop_last();
        let x = s.last();
        assert forall|a: int, b: int| 0 <= a < b < p.len() implies !(#[trigger] p[a].0
            == #[trigger] p[b].0 && p[a].1 == p[b].1) by {
            assert(p[a] == s[a] && p[b] == s[b]);
        }
        assert forall|k: int| 0 <= k < p.len() implies supported_model(#[trigger] p[k], sv) by {
            assert(p[k] == s[k]);
        }
        lemma_sort_devices_keeps(p, sv);
        let q = sort_devices(p);
        lemma_sort_devices(p);
        lemma_insert_device(q, x);
        let k = choose|k: int| 0 <= k <= q.len() && insert_device(q, x) == q.insert(k, x);
        q.insert_ensures(k, x);
        let r = sort_devices(s);
        assert(r == q.insert(k, x));
        assert forall|c: int| 0 <= c < r.len() implies exists|m: int|
            0 <= m < s.len() && #[trigger] r[c] == s[m] by {
            if c < k {
                let m = choose|m: int| 0 <= m < p.len() && q[c] == p[m];
                assert(p[m] == s[m]);
            } else if c == k {
                assert(r[c] == s[s.len() - 1]);
            } else {
                assert(r[c] == q[c - 1]);
                let m = choose|m: int| 0 <= m < p.len() && q[c - 1] == p[m];
                assert(p[m] == s[m]);
            }
        }
        assert forall|a: int, b: int| 0 <= a < b < r.len() implies !(#[trigger] r[a].0
            == #[trigger] r[b].0 && r[a].1 == r[b].1) by {
            let ma = choose|m: int| 0 <= m < s.len() && r[a] == s[m];
            let mb = choose|m: int| 0 <= m < s.len() && r[b] == s[m];
            if ma == mb {
                // two positions of r hold one element of s: only possible for one of q's
                if a == k || b == k {
                    let c = if a == k { b } else { a };
                    let qc = if c < k { c } else { c - 1 };
                    assert(r[c] == q[qc]);
                    let m = choose|m: int| 0 <= m < p.len() && q[qc] == p[m];
                    assert(p[m] == s[m]);
                    assert(s[m] == s[ma]);
                    if m < ma {
                        assert(!(s[m].0 == s[ma].0 && s[m].1 == s[ma].1));
                    } else if m > ma {
                        assert(!(s[ma].0 == s[m].0 && s[ma].1 == s[m].1));
                    }
                } else {
                    let qa = if a < k { a } else { a - 1 };
                    let qb = if b < k { b } else { b - 1 };
                    assert(r[a] == q[qa] && r[b] == q[qb]);
                    assert(qa < qb);
                }
            } else if ma < mb {
                assert(!(s[ma].0 == s[mb].0 && s[ma].1 == s[mb].1));
            } else {
                assert(!(s[mb].0 == s[ma].0 && s[mb].1 == s[ma].1));
            }
        }
        assert forall|c: int| 0 <= c < r.len() implies supported_model(#[trigger] r[c], sv) by {
            let m = choose|m: int| 0 <= m < s.len() && r[c] == s[m];
            assert(r[c] == s[m]);
        }
    }
}

/// The result of a scan: the devices found in `entries`, finished. Its
/// devices are supported models under their models' names, no two share
/// identity and physical ID, they come in order of vendor, product and
/// physical ID, and the nodes of each strictly increase by kind, then path,
/// no two neighbours sharing a path.
pub proof fn lemma_scan_result(entries: Seq<(Seq<char>, Seq<(Seq<char>, DeviceNodeKind, bool, bool, bool)>)>, sv: Seq<(DeviceId, Seq<char>)>)
    ensures
        keys_distinct(finished(scanned(entries, sv))),
        names_supported(finished(scanned(entries, sv)), sv),
        devices_ordered(finished(scanned(entries, sv))),
        forall|k: int|
            0 <= k < finished(scanned(entries, sv)).len() ==> nodes_increasing(
                #[trigger] finished(scanned(entries, sv))[k].4,
            ),
        forall|k: int|
            0 <= k < finished(scanned(entries, sv)).len() ==> paths_apart(
                #[trigger] finished(scanned(entries, sv))[k].4,
            ),
{
    let d = scanned(entries, sv);
    lemma_scanned_keeps(entries, sv);
    let t = d.map_values(|x: (DeviceId, Seq<char>, Seq<char>, Seq<char>, Seq<(Seq<char>, DeviceNodeKind, bool, bool, bool)>)| tidy_device(x));
    assert forall|a: int, b: int| 0 <= a < b < t.len() implies !(#[trigger] t[a].0
        == #[trigger] t[b].0 && t[a].1 == t[b].1) by {
        assert(t[a].0 == d[a].0 && t[a].1 == d[a].1 && t[b].0 == d[b].0 && t[b].1 == d[b].1);
    }
    assert forall|k: int| 0 <= k < t.len() implies supported_model(#[trigger] t[k], sv) by {
        assert(t[k].0 == d[k].0 && t[k].3 == d[k].3);
        assert(supported_model(d[k], sv));
    }
    assert(names_supported(t, sv));
    lemma_sort_devices_keeps(t, sv);
    lemma_finished_scan_ordered(d);
}

fn copy_nodes(nodes: &Vec<DeviceNode>) -> (r: Vec<DeviceNode>)
    ensures
        nodes_view(r@) == nodes_view(nodes@),
{
    let mut r: Vec<DeviceNode> = Vec::new();
    let mut i: usize = 0;
    while i < nodes.len()
        invariant
            i <= nodes@.len(),
            nodes_view(r@) == nodes_view(nodes@).take(i as int),
        decreases nodes@.len() - i,
    {
        let n = nodes[i].clone();
        let ghost before = r@;
        r.push(n);
        assert(nodes_view(r@) =~= nodes_view(before).push(nodes@[i as int]@));
        assert(nodes_view(nodes@).take(i + 1) =~= nodes_view(nodes@).take(i as int).push(
            nodes@[i as int]@,
        ));
        i = i + 1;
    }
    assert(nodes_view(nodes@).take(i as int) =~= nodes_view(nodes@));
    r
}

/// The result of scanning a HID tree, from what it held: for each entry the
/// text of its `uevent` file and the nodes found below it. Entries of
/// unsupported models are left out, entries of one device are merged, and
/// the devices are finished: their nodes sorted with each path kept once,
/// the devices sorted by vendor, product and physical ID.
pub fn scan_result(entries: &Vec<(String, Vec<DeviceNode>)>, supported: &[SupportedDevice]) -> (r: Vec<
    DiscoveredDevice,
>)
    ensures
        discovered_view(r@) == finished(scanned(entries_view(entries@), devices_view(supported@))),
        keys_distinct(discovered_view(r@)),
        names_supported(discovered_view(r@), devices_view(supported@)),
        devices_ordered(discovered_view(r@)),
        forall|k: int|
            0 <= k < r@.len() ==> nodes_increasing(#[trigger] discovered_view(r@)[k].4),
        forall|k: int| 0 <= k < r@.len() ==> paths_apart(#[trigger] discovered_view(r@)[k].4),
{
    let ghost ev = entries_view(entries@);
    let ghost sv = devices_view(supported@);
    let mut devices: Vec<DiscoveredDevice> = Vec::new();
    let mut i: usize = 0;
    assert(ev.take(0) =~= Seq::<(Seq<char>, Seq<(Seq<char>, DeviceNodeKind, bool, bool, bool)>)>::empty());
    assert(discovered_view(devices@) =~= Seq::<(DeviceId, Seq<char>, Seq<char>, Seq<char>, Seq<(Seq<char>, DeviceNodeKind, bool, bool, bool)>)>::empty());
    while i < entries.len()
        invariant
            i <= entries@.len(),
            ev == entries_view(entries@),
            sv == devices_view(supported@),
            discovered_view(devices@) == scanned(ev.take(i as int), sv),
        decreases entries@.len() - i,
    {
        assert(ev.take(i + 1).drop_last() =~= ev.take(i as int));
        assert(ev.take(i + 1).last() == ev[i as int]);
        assert(ev[i as int] == (entries@[i as int].0@, nodes_view(entries@[i as int].1@)));
        match hid_entry_device(entries[i].0.as_str(), supported) {
            None => {},
            Some(d) => {
                let nodes = copy_nodes(&entries[i].1);
                let entry = DiscoveredDevice {
                    id: d.id,
                    physical_id: d.physical_id,
                    kernel_name: d.kernel_name,
                    configured_name: d.configured_name,
                    nodes,
                };
                merge_scanned_entry(&mut devices, entry);
            },
        }
        i = i + 1;
    }
    assert(ev.take(i as int) =~= ev);
    let r = finish_scan(devices);
    proof {
        lemma_scan_result(ev, sv);
    }
    r
}

} // verus!
