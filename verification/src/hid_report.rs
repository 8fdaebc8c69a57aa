//! Decoder for standard HID reports emitted by Logitech Spotlight devices.

use vstd::prelude::*;

use crate::text::{decimal, hex, push_decimal, push_hex_padded, push_text, zero_padded};

verus! {

/// Relative pointer payload carried by report ID `0x02`.
#[derive(Clone, Copy, Debug, PartialEq, Eq)]
pub struct PointerReport {
    pub buttons: u8,
    pub x: i16,
    pub y: i16,
    pub wheel: i8,
    pub pan: i8,
}

/// Keyboard payload carried by report ID `0x01`.
#[derive(Clone, Copy, Debug, PartialEq, Eq)]
pub struct KeyboardReport {
    pub modifiers: u8,
    pub usages: [u8; 6],
}

/// A standard report emitted on a Spotlight hidraw node.
#[derive(Clone, Copy, Debug, PartialEq, Eq)]
pub enum PresenterReport {
    Pointer(PointerReport),
    Keyboard(KeyboardReport),
}

/// A raw report does not match a supported Spotlight report layout.
#[derive(Clone, Copy, Debug, PartialEq, Eq)]
pub enum HidReportError {
    InvalidLength { report_id: Option<u8>, found: usize },
    UnknownReportId(u8),
}

/// `{:?}` of an optional byte: `Some(n)` or `None`.
pub open spec fn optional_byte_text(b: Option<u8>) -> Seq<char> {
    match b {
        Some(n) => "Some("@ + decimal(n as nat) + ")"@,
        None => "None"@,
    }
}

/// `{:#04x}` of a byte: `0x` and two lower-case hexadecimal digits.
pub open spec fn byte_hex_text(b: u8) -> Seq<char> {
    "0x"@ + zero_padded(hex(b as nat), 2)
}

/// The text of a report error.
pub open spec fn hid_report_error_text(e: HidReportError) -> Seq<char> {
    match e {
        HidReportError::InvalidLength { report_id, found } => "report "@ + optional_byte_text(
            report_id,
        ) + " has "@ + decimal(found as nat) + " bytes; expected 8"@,
        HidReportError::UnknownReportId(id) => "unsupported HID report ID "@ + byte_hex_text(id),
    }
}

/// Append `{:?}` of an optional byte.
pub fn push_optional_byte(s: &mut String, b: Option<u8>)
    ensures
        final(s)@ == old(s)@ + optional_byte_text(b),
{
    match b {
        Some(n) => {
            push_text(s, "Some(");
            push_decimal(s, n as u64);
            push_text(s, ")");
            assert(final(s)@ =~= old(s)@ + optional_byte_text(b));
        },
        None => push_text(s, "None"),
    }
}

/// Append `{:#04x}` of a byte.
pub fn push_byte_hex(s: &mut String, b: u8)
    ensures
        final(s)@ == old(s)@ + byte_hex_text(b),
{
    push_text(s, "0x");
    push_hex_padded(s, b as u64, 2);
    assert(final(s)@ =~= old(s)@ + byte_hex_text(b));
}

impl HidReportError {
    /// The error as a message.
    pub fn to_string(&self) -> (s: String)
        ensures
            s@ == hid_report_error_text(*self),
    {
        let mut s = String::new();
        match self {
            HidReportError::InvalidLength { report_id, found } => {
                push_text(&mut s, "report ");
                push_optional_byte(&mut s, *report_id);
                push_text(&mut s, " has ");
                push_decimal(&mut s, *found as u64);
                push_text(&mut s, " bytes; expected 8");
            },
            HidReportError::UnknownReportId(id) => {
                push_text(&mut s, "unsupported HID report ID ");
                push_byte_hex(&mut s, *id);
            },
        }
        s
    }
}

/// Two's-complement value of a 12-bit field.
pub open spec fn sign_extend(v: int) -> int {
    if v >= 2048 {
        v - 4096
    } else {
        v
    }
}

/// The 12-bit horizontal motion: byte 3 and the low nibble of byte 4.
pub open spec fn packed_x(r: Seq<u8>) -> int {
    sign_extend(r[3] + 256 * (r[4] % 16))
}

/// The 12-bit vertical motion: the high nibble of byte 4 and byte 5.
pub open spec fn packed_y(r: Seq<u8>) -> int {
    sign_extend(r[4] / 16 + 16 * r[5])
}

fn sign_extend_12(value: u16) -> (r: i16)
    requires
        value < 4096,
    ensures
        r == sign_extend(value as int),
{
    if value < 2048 {
        value as i16
    } else {
        (value as i32 - 4096) as i16
    }
}

/// Decode one eight-byte Spotlight keyboard or packed 12-bit pointer report.
///
/// Fails with `InvalidLength` when the packet is not eight bytes, and with
/// `UnknownReportId` when its report ID is neither `0x01` nor `0x02`.
pub fn decode_presenter_report(report: &[u8]) -> (r: Result<PresenterReport, HidReportError>)
    ensures
        report@.len() != 8 ==> r == Err::<PresenterReport, HidReportError>(
            HidReportError::InvalidLength {
                report_id: if report@.len() > 0 {
                    Some(report@[0])
                } else {
                    None
                },
                found: report@.len() as usize,
            },
        ),
        report@.len() == 8 && report@[0] == 1 ==> (r matches Ok(PresenterReport::Keyboard(k))
            && k.modifiers == report@[1] && k.usages@ == report@.subrange(2, 8)),
        report@.len() == 8 && report@[0] == 2 ==> (r matches Ok(PresenterReport::Pointer(p))
            && p.buttons == report@[1] && p.x == packed_x(report@) && p.y == packed_y(report@)
            && p.wheel == report@[6] as i8 && p.pan == report@[7] as i8),
        report@.len() == 8 && report@[0] != 1 && report@[0] != 2 ==> r == Err::<
            PresenterReport,
            HidReportError,
        >(HidReportError::UnknownReportId(report@[0])),
{
    if report.len() != 8 {
        let report_id = if report.len() > 0 {
            Some(report[0])
        } else {
            None
        };
        return Err(HidReportError::InvalidLength { report_id, found: report.len() });
    }
    if report[0] == 1 {
        let usages: [u8; 6] = [report[2], report[3], report[4], report[5], report[6], report[7]];
        assert(usages@ =~= report@.subrange(2, 8));
        Ok(PresenterReport::Keyboard(KeyboardReport { modifiers: report[1], usages }))
    } else if report[0] == 2 {
        let x = report[3] as u16 + (report[4] % 16) as u16 * 256;
        let y = (report[4] / 16) as u16 + report[5] as u16 * 16;
        Ok(
            PresenterReport::Pointer(
                PointerReport {
                    buttons: report[1],
                    x: sign_extend_12(x),
                    y: sign_extend_12(y),
                    wheel: report[6] as i8,
                    pan: report[7] as i8,
                },
            ),
        )
    } else {
        Err(HidReportError::UnknownReportId(report[0]))
    }
}

/// A keyboard report holds a navigation key: `0x4f` (next) or `0x50`
/// (back).
pub open spec fn spec_navigation_pressed(k: KeyboardReport) -> bool {
    exists|i: int| 0 <= i < 6 && (k.usages@[i] == 0x4f || k.usages@[i] == 0x50)
}

/// Whether a keyboard report holds a navigation key.
pub fn navigation_pressed(report: &KeyboardReport) -> (r: bool)
    ensures
        r == spec_navigation_pressed(*report),
{
    let mut i: usize = 0;
    while i < 6
        invariant
            i <= 6,
            forall|j: int| 0 <= j < i ==> !(report.usages@[j] == 0x4f || report.usages@[j] == 0x50),
        decreases 6 - i,
    {
        if report.usages[i] == 0x4f || report.usages[i] == 0x50 {
            return true;
        }
        i = i + 1;
    }
    false
}

} // verus!
