//! The presenter registry: device identities and the `devices.conf` format.

use vstd::prelude::*;

use crate::text::{
    chars_are, chars_of, int_value, lines, lines_of, parse_int, split_chars, split_on, string_of,
    trim, trim_chars, views,
};

verus! {

/// The transport used by a supported presenter.
#[derive(Clone, Copy, Debug, PartialEq, Eq, Hash, Structural)]
pub enum Bus {
    /// A directly connected USB device or USB receiver.
    Usb,
    /// A Bluetooth HID device.
    Bluetooth,
}

/// USB/HID identity of a supported presenter.
#[derive(Clone, Copy, Debug, PartialEq, Eq, Hash, Structural)]
pub struct DeviceId {
    /// USB vendor identifier.
    pub vendor: u16,
    /// USB product identifier.
    pub product: u16,
    /// Device transport.
    pub bus: Bus,
}

/// A presenter supported by the generic HID device implementation.
#[derive(Debug, PartialEq, Eq)]
pub struct SupportedDevice {
    /// Stable device identity.
    pub id: DeviceId,
    /// Human-readable model name.
    pub name: String,
}

impl View for SupportedDevice {
    type V = (DeviceId, Seq<char>);

    open spec fn view(&self) -> (DeviceId, Seq<char>) {
        (self.id, self.name@)
    }
}

impl Clone for SupportedDevice {
    fn clone(&self) -> (r: Self)
        ensures
            r@ == self@,
    {
        SupportedDevice { id: self.id, name: self.name.clone() }
    }
}

/// Error produced while parsing the maintained device registry.
#[derive(Clone, Debug, PartialEq, Eq)]
pub enum ParseDeviceError {
    /// A non-comment line did not contain the four required columns.
    InvalidColumnCount { line: usize, found: usize },
    /// A hexadecimal USB identifier was invalid.
    InvalidIdentifier { line: usize, value: String },
    /// The bus column was neither `usb` nor `bt`.
    UnknownBus(String),
}

/// A registry error with its text as characters.
pub enum RegistryError {
    InvalidColumnCount { line: nat, found: nat },
    InvalidIdentifier { line: nat, value: Seq<char> },
    UnknownBus(Seq<char>),
}

impl View for ParseDeviceError {
    type V = RegistryError;

    open spec fn view(&self) -> RegistryError {
        match self {
            ParseDeviceError::InvalidColumnCount { line, found } => RegistryError::InvalidColumnCount {
                line: *line as nat,
                found: *found as nat,
            },
            ParseDeviceError::InvalidIdentifier { line, value } => RegistryError::InvalidIdentifier {
                line: *line as nat,
                value: value@,
            },
            ParseDeviceError::UnknownBus(bus) => RegistryError::UnknownBus(bus@),
        }
    }
}

/// The text of a registry error.
pub open spec fn registry_error_text(e: RegistryError) -> Seq<char> {
    match e {
        RegistryError::InvalidColumnCount { line, found } => "line "@ + crate::text::decimal(line)
            + ": expected 4 columns, found "@ + crate::text::decimal(found),
        RegistryError::InvalidIdentifier { line, value } => "line "@ + crate::text::decimal(line)
            + ": invalid hexadecimal identifier "@ + crate::text::debug_quoted(value),
        RegistryError::UnknownBus(bus) => "unknown device bus "@ + crate::text::debug_quoted(bus),
    }
}

impl ParseDeviceError {
    /// The error as a message.
    pub fn to_string(&self) -> (s: String)
        ensures
            s@ == registry_error_text(self@),
    {
        let mut s = String::new();
        match self {
            ParseDeviceError::InvalidColumnCount { line, found } => {
                crate::text::push_text(&mut s, "line ");
                crate::text::push_decimal(&mut s, *line as u64);
                crate::text::push_text(&mut s, ": expected 4 columns, found ");
                crate::text::push_decimal(&mut s, *found as u64);
            },
            ParseDeviceError::InvalidIdentifier { line, value } => {
                crate::text::push_text(&mut s, "line ");
                crate::text::push_decimal(&mut s, *line as u64);
                crate::text::push_text(&mut s, ": invalid hexadecimal identifier ");
                crate::text::push_debug_quoted(&mut s, value.as_str());
            },
            ParseDeviceError::UnknownBus(bus) => {
                crate::text::push_text(&mut s, "unknown device bus ");
                crate::text::push_debug_quoted(&mut s, bus.as_str());
            },
        }
        s
    }
}

/// The bus a registry column names: `usb` or `bt`, around whitespace.
pub open spec fn bus_named(v: Seq<char>) -> Option<Bus> {
    if trim(v) == "usb"@ {
        Some(Bus::Usb)
    } else if trim(v) == "bt"@ {
        Some(Bus::Bluetooth)
    } else {
        None
    }
}

/// A hexadecimal USB identifier, with an optional `0x` or `0X` prefix.
pub open spec fn hex_id(v: Seq<char>) -> Option<u16> {
    let digits = if v.len() >= 2 && v[0] == '0' && (v[1] == 'x' || v[1] == 'X') {
        v.skip(2)
    } else {
        v
    };
    match int_value(digits, 16, false, 0, 0xffff) {
        Some(n) => Some(n as u16),
        None => None,
    }
}

/// What one line of `devices.conf` holds: nothing (blank or a `#` comment),
/// a device, or an error.
pub open spec fn registry_line(line_no: nat, raw: Seq<char>) -> Option<
    Result<(DeviceId, Seq<char>), RegistryError>,
> {
    let line = trim(raw);
    if line.len() == 0 || line[0] == '#' {
        None
    } else {
        let cols = split_on(line, ',').map_values(|c: Seq<char>| trim(c));
        if cols.len() != 4 {
            Some(Err(RegistryError::InvalidColumnCount { line: line_no, found: cols.len() }))
        } else {
            match hex_id(cols[0]) {
                None => Some(Err(RegistryError::InvalidIdentifier { line: line_no, value: cols[0] })),
                Some(vendor) => match hex_id(cols[1]) {
                    None => Some(
                        Err(RegistryError::InvalidIdentifier { line: line_no, value: cols[1] }),
                    ),
                    Some(product) => match bus_named(cols[2]) {
                        None => Some(Err(RegistryError::UnknownBus(trim(cols[2])))),
                        Some(bus) => Some(
                            Ok((DeviceId { vendor, product, bus }, cols[3])),
                        ),
                    },
                },
            }
        }
    }
}

/// The devices of the first `k` lines, or the first error among them.
pub open spec fn registry_prefix(ls: Seq<Seq<char>>, k: nat) -> Result<
    Seq<(DeviceId, Seq<char>)>,
    RegistryError,
>
    decreases k,
{
    if k == 0 {
        Ok(Seq::empty())
    } else {
        match registry_prefix(ls, (k - 1) as nat) {
            Err(e) => Err(e),
            Ok(ds) => match registry_line(k, ls[k - 1]) {
                None => Ok(ds),
                Some(Ok(d)) => Ok(ds.push(d)),
                Some(Err(e)) => Err(e),
            },
        }
    }
}

/// The devices that `devices.conf` text lists, or its first error.
pub open spec fn registry(text: Seq<char>) -> Result<Seq<(DeviceId, Seq<char>)>, RegistryError> {
    registry_prefix(lines(text), lines(text).len())
}

/// The views of a sequence of devices.
pub open spec fn devices_view(ds: Seq<SupportedDevice>) -> Seq<(DeviceId, Seq<char>)> {
    ds.map_values(|d: SupportedDevice| d@)
}

proof fn lemma_registry_error_stays(ls: Seq<Seq<char>>, k: nat, n: nat, e: RegistryError)
    requires
        k <= n,
        registry_prefix(ls, k) == Err::<Seq<(DeviceId, Seq<char>)>, RegistryError>(e),
    ensures
        registry_prefix(ls, n) == Err::<Seq<(DeviceId, Seq<char>)>, RegistryError>(e),
    decreases n - k,
{
    if k < n {
        lemma_registry_error_stays(ls, k + 1, n, e);
    }
}

fn bus_from_chars(v: &[char]) -> (r: Result<Bus, ParseDeviceError>)
    ensures
        match bus_named(v@) {
            Some(b) => r == Ok::<Bus, ParseDeviceError>(b),
            None => r matches Err(e) && e@ == RegistryError::UnknownBus(trim(v@)),
        },
{
    let t = trim_chars(v);
    if chars_are(t.as_slice(), "usb") {
        Ok(Bus::Usb)
    } else if chars_are(t.as_slice(), "bt") {
        Ok(Bus::Bluetooth)
    } else {
        Err(ParseDeviceError::UnknownBus(string_of(t.as_slice())))
    }
}

impl Bus {
    /// The bus named `usb` or `bt`, around whitespace.
    ///
    /// Fails with `UnknownBus` holding the trimmed text for any other name.
    pub fn parse_name(value: &str) -> (r: Result<Bus, ParseDeviceError>)
        ensures
            match bus_named(value@) {
                Some(b) => r == Ok::<Bus, ParseDeviceError>(b),
                None => r matches Err(e) && e@ == RegistryError::UnknownBus(trim(value@)),
            },
    {
        let v = chars_of(value);
        bus_from_chars(v.as_slice())
    }
}

impl core::str::FromStr for Bus {
    type Err = ParseDeviceError;

    fn from_str(value: &str) -> (r: Result<Bus, ParseDeviceError>)
        ensures
            match bus_named(value@) {
                Some(b) => r == Ok::<Bus, ParseDeviceError>(b),
                None => r matches Err(e) && e@ == RegistryError::UnknownBus(trim(value@)),
            },
    {
        Bus::parse_name(value)
    }
}

fn hex_id_from_chars(v: &[char]) -> (r: Option<u16>)
    ensures
        r == hex_id(v@),
{
    let n = v.len();
    let start: usize = if n >= 2 && v[0] == '0' && (v[1] == 'x' || v[1] == 'X') {
        2
    } else {
        0
    };
    let digits = crate::text::sub_chars(v, start, n);
    assert(start == 2 ==> digits@ =~= v@.skip(2));
    assert(start == 0 ==> digits@ =~= v@);
    match parse_int(digits.as_slice(), 16, false, 0, 0xffff) {
        Some(x) => Some(x as u16),
        None => None,
    }
}

fn registry_line_exec(line_no: usize, raw: &[char]) -> (r: Option<
    Result<SupportedDevice, ParseDeviceError>,
>)
    ensures
        match registry_line(line_no as nat, raw@) {
            None => r is None,
            Some(Ok(d)) => r matches Some(Ok(x)) && x@ == d,
            Some(Err(e)) => r matches Some(Err(x)) && x@ == e,
        },
{
    let line = trim_chars(raw);
    if line.len() == 0 || line[0] == '#' {
        return None;
    }
    let pieces = split_chars(line.as_slice(), ',');
    let ghost cols = split_on(line@, ',').map_values(|c: Seq<char>| trim(c));
    let mut columns: Vec<Vec<char>> = Vec::new();
    let mut i: usize = 0;
    while i < pieces.len()
        invariant
            i <= pieces@.len(),
            views(pieces@) == split_on(line@, ','),
            cols == split_on(line@, ',').map_values(|c: Seq<char>| trim(c)),
            views(columns@) == cols.take(i as int),
        decreases pieces@.len() - i,
    {
        let c = trim_chars(pieces[i].as_slice());
        assert(views(pieces@)[i as int] == pieces@[i as int]@);
        assert(c@ == cols[i as int]);
        let ghost prev = columns@;
        columns.push(c);
        i = i + 1;
        assert(views(columns@) =~= views(prev).push(c@));
        assert(views(columns@) =~= cols.take(i as int));
    }
    assert(views(columns@) =~= cols);
    if columns.len() != 4 {
        return Some(Err(ParseDeviceError::InvalidColumnCount { line: line_no, found: columns.len() }));
    }
    assert(columns@[0]@ == cols[0] && columns@[1]@ == cols[1] && columns@[2]@ == cols[2]
        && columns@[3]@ == cols[3]);
    let vendor = match hex_id_from_chars(columns[0].as_slice()) {
        Some(v) => v,
        None => {
            return Some(
                Err(
                    ParseDeviceError::InvalidIdentifier {
                        line: line_no,
                        value: string_of(columns[0].as_slice()),
                    },
                ),
            );
        },
    };
    let product = match hex_id_from_chars(columns[1].as_slice()) {
        Some(v) => v,
        None => {
            return Some(
                Err(
                    ParseDeviceError::InvalidIdentifier {
                        line: line_no,
                        value: string_of(columns[1].as_slice()),
                    },
                ),
            );
        },
    };
    let bus = match bus_from_chars(columns[2].as_slice()) {
        Ok(b) => b,
        Err(e) => {
            return Some(Err(e));
        },
    };
    Some(
        Ok(
            SupportedDevice {
                id: DeviceId { vendor, product, bus },
                name: string_of(columns[3].as_slice()),
            },
        ),
    )
}

/// Parse Projecteur's `devices.conf` format: one device per line as
/// `vendor, product, bus, name`, with blank lines and `#` comments skipped.
///
/// Fails with the first malformed line's error: a column count other than
/// four, an identifier that is not a 16-bit hexadecimal number, or a bus
/// other than `usb` or `bt`.
pub fn parse_supported_devices(input: &str) -> (r: Result<Vec<SupportedDevice>, ParseDeviceError>)
    ensures
        match registry(input@) {
            Ok(ds) => r matches Ok(v) && devices_view(v@) == ds,
            Err(e) => r matches Err(x) && x@ == e,
        },
{
    let text = chars_of(input);
    let ls = lines_of(text.as_slice());
    let ghost lv = views(ls@);
    let mut out: Vec<SupportedDevice> = Vec::new();
    let mut i: usize = 0;
    assert(devices_view(out@) =~= Seq::<(DeviceId, Seq<char>)>::empty());
    while i < ls.len()
        invariant
            i <= ls@.len(),
            lv == views(ls@),
            lv == lines(input@),
            registry_prefix(lv, i as nat) == Ok::<Seq<(DeviceId, Seq<char>)>, RegistryError>(
                devices_view(out@),
            ),
        decreases ls@.len() - i,
    {
        assert(lv[i as int] == ls@[i as int]@);
        let line_no = i + 1;
        match registry_line_exec(line_no, ls[i].as_slice()) {
            None => {},
            Some(Ok(d)) => {
                let ghost prev = out@;
                out.push(d);
                assert(devices_view(out@) =~= devices_view(prev).push(d@));
            },
            Some(Err(e)) => {
                proof {
                    lemma_registry_error_stays(lv, (i + 1) as nat, lv.len(), e@);
                }
                return Err(e);
            },
        }
        i = i + 1;
    }
    Ok(out)
}

/// A presenter given as `VENDOR:PRODUCT[:NAME]`: hexadecimal identifiers
/// as in the registry, a USB device, the name after the second `:` (empty
/// when there is none).
pub open spec fn additional_device(v: Seq<char>) -> Result<(DeviceId, Seq<char>), RegistryError> {
    let parts = split_on(v, ':');
    if parts.len() < 2 {
        Err(RegistryError::InvalidColumnCount { line: 1, found: parts.len() })
    } else {
        match hex_id(parts[0]) {
            None => Err(RegistryError::InvalidIdentifier { line: 1, value: parts[0] }),
            Some(vendor) => match hex_id(parts[1]) {
                None => Err(RegistryError::InvalidIdentifier { line: 1, value: parts[1] }),
                Some(product) => Ok(
                    (
                        DeviceId { vendor, product, bus: Bus::Usb },
                        if parts.len() > 2 {
                            v.skip((parts[0].len() + parts[1].len() + 2) as int)
                        } else {
                            Seq::empty()
                        },
                    ),
                ),
            },
        }
    }
}

/// Parse a presenter given on the command line as `VENDOR:PRODUCT[:NAME]`.
pub fn parse_additional_device(value: &str) -> (r: Result<SupportedDevice, ParseDeviceError>)
    ensures
        match additional_device(value@) {
            Ok(d) => r matches Ok(x) && x@ == d,
            Err(e) => r matches Err(x) && x@ == e,
        },
{
    let v = chars_of(value);
    let parts = split_chars(v.as_slice(), ':');
    if parts.len() < 2 {
        return Err(ParseDeviceError::InvalidColumnCount { line: 1, found: parts.len() });
    }
    assert(views(parts@)[0] == parts@[0]@ && views(parts@)[1] == parts@[1]@);
    let vendor = match hex_id_from_chars(parts[0].as_slice()) {
        Some(x) => x,
        None => {
            return Err(
                ParseDeviceError::InvalidIdentifier { line: 1, value: string_of(parts[0].as_slice()) },
            );
        },
    };
    let product = match hex_id_from_chars(parts[1].as_slice()) {
        Some(x) => x,
        None => {
            return Err(
                ParseDeviceError::InvalidIdentifier { line: 1, value: string_of(parts[1].as_slice()) },
            );
        },
    };
    let n = v.len();
    let name = if parts.len() > 2 {
        proof {
            lemma_split_prefix(v@, ':');
            assert(views(parts@)[0].len() == parts@[0]@.len());
            assert(views(parts@)[1].len() == parts@[1]@.len());
            assert(split_on(v@, ':').len() > 2);
            assert(parts@[0]@.len() + parts@[1]@.len() + 2 <= v@.len());
        }
        let a = parts[0].len();
        let b = parts[1].len();
        assert(a + b + 2 <= n);
        let start = a + b + 2;
        string_of(crate::text::sub_chars(v.as_slice(), start, n).as_slice())
    } else {
        String::new()
    };
    Ok(SupportedDevice { id: DeviceId { vendor, product, bus: Bus::Usb }, name })
}

/// When there are at least three pieces, the first two and their
/// separators make up the start of the text.
proof fn lemma_split_prefix(v: Seq<char>, sep: char)
    requires
        split_on(v, sep).len() > 2,
    ensures
        split_on(v, sep)[0].len() + split_on(v, sep)[1].len() + 2 <= v.len(),
{
    crate::text::lemma_split_lengths(v, sep);
}

/// The Logitech Spotlight models that Projecteur supports besides the registry.
pub open spec fn logitech_models() -> Seq<(DeviceId, Seq<char>)> {
    seq![
        (DeviceId { vendor: 0x046d, product: 0xc53e, bus: Bus::Usb }, "Logitech Spotlight (USB)"@),
        (DeviceId { vendor: 0x046d, product: 0xb503, bus: Bus::Bluetooth }, "Logitech Spotlight (Bluetooth)"@),
        (DeviceId { vendor: 0x046d, product: 0xc548, bus: Bus::Usb }, "Logitech Spotlight 2 (USB-C receiver)"@),
        (DeviceId { vendor: 0x046d, product: 0xb506, bus: Bus::Bluetooth }, "Logitech Spotlight 2 (Bluetooth)"@),
    ]
}

/// Every built-in presenter model: the Logitech Spotlight models, then the
/// devices of `registry` in order.
pub fn all_supported_devices(registry: &[SupportedDevice]) -> (r: Vec<SupportedDevice>)
    ensures
        devices_view(r@) == logitech_models() + devices_view(registry@),
{
    let mut devices: Vec<SupportedDevice> = Vec::new();
    devices.push(
        SupportedDevice {
            id: DeviceId { vendor: 0x046d, product: 0xc53e, bus: Bus::Usb },
            name: "Logitech Spotlight (USB)".to_owned(),
        },
    );
    devices.push(
        SupportedDevice {
            id: DeviceId { vendor: 0x046d, product: 0xb503, bus: Bus::Bluetooth },
            name: "Logitech Spotlight (Bluetooth)".to_owned(),
        },
    );
    devices.push(
        SupportedDevice {
            id: DeviceId { vendor: 0x046d, product: 0xc548, bus: Bus::Usb },
            name: "Logitech Spotlight 2 (USB-C receiver)".to_owned(),
        },
    );
    devices.push(
        SupportedDevice {
            id: DeviceId { vendor: 0x046d, product: 0xb506, bus: Bus::Bluetooth },
            name: "Logitech Spotlight 2 (Bluetooth)".to_owned(),
        },
    );
    assert(devices_view(devices@) =~= logitech_models());
    let mut i: usize = 0;
    while i < registry.len()
        invariant
            i <= registry@.len(),
            devices_view(devices@) == logitech_models() + devices_view(registry@.take(i as int)),
        decreases registry@.len() - i,
    {
        let d = registry[i].clone();
        assert(d@ == registry@[i as int]@);
        let ghost prev = devices@;
        devices.push(d);
        assert(devices_view(devices@) =~= devices_view(prev).push(d@));
        assert(devices_view(registry@.take(i + 1)) =~= devices_view(registry@.take(i as int)).push(
            registry@[i as int]@,
        ));
        i = i + 1;
        assert(devices_view(devices@) =~= logitech_models() + devices_view(
            registry@.take(i as int),
        ));
    }
    assert(registry@.take(i as int) =~= registry@);
    devices
}

} // verus!
