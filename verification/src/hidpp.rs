//! Minimal HID++ 2.0 protocol support used by Logitech Spotlight devices.

use vstd::prelude::*;

use crate::hid_report::{byte_hex_text, optional_byte_text, push_byte_hex, push_optional_byte};
use crate::registry::DeviceId;
use crate::text::{decimal, push_decimal, push_text};

verus! {

/// Projecteur's HID++ software identifier.
pub const SOFTWARE_ID: u8 = 7;
/// Report ID of a short HID++ message.
pub const SHORT_REPORT_ID: u8 = 0x10;
/// Report ID of a long HID++ message.
pub const LONG_REPORT_ID: u8 = 0x11;
/// Length of a short HID++ message.
pub const SHORT_LEN: usize = 7;
/// Length of a long HID++ message.
pub const LONG_LEN: usize = 20;

/// HID++ feature codes needed for battery reporting.
#[derive(Clone, Copy, Debug, PartialEq, Eq, Structural)]
pub enum FeatureCode {
    BatteryStatus,
    UnifiedBattery,
}

pub open spec fn spec_feature_code(f: FeatureCode) -> u16 {
    match f {
        FeatureCode::BatteryStatus => 0x1000,
        FeatureCode::UnifiedBattery => 0x1004,
    }
}

impl FeatureCode {
    /// The 16-bit HID++ feature number.
    pub fn code(self) -> (c: u16)
        ensures
            c == spec_feature_code(self),
    {
        match self {
            FeatureCode::BatteryStatus => 0x1000,
            FeatureCode::UnifiedBattery => 0x1004,
        }
    }
}

/// Battery state reported by HID++ battery features.
#[derive(Clone, Copy, Debug, PartialEq, Eq, Structural)]
pub enum BatteryStatus {
    Discharging,
    Charging,
    AlmostFull,
    Full,
    SlowCharging,
    InvalidBattery,
    ThermalError,
    ChargingError,
    Unknown(u8),
}

/// The status a battery status byte stands for.
pub open spec fn spec_battery_status(value: u8) -> BatteryStatus {
    if value == 0 {
        BatteryStatus::Discharging
    } else if value == 1 {
        BatteryStatus::Charging
    } else if value == 2 {
        BatteryStatus::AlmostFull
    } else if value == 3 {
        BatteryStatus::Full
    } else if value == 4 {
        BatteryStatus::SlowCharging
    } else if value == 5 {
        BatteryStatus::InvalidBattery
    } else if value == 6 {
        BatteryStatus::ThermalError
    } else if value == 7 {
        BatteryStatus::ChargingError
    } else {
        BatteryStatus::Unknown(value)
    }
}

/// The HID++ code of a battery status: `0` discharging, `1` charging, `2`
/// almost full, `3` full, `4` slow charging, `5` invalid battery, `6`
/// thermal error, `7` charging error; an unknown status keeps its byte.
pub open spec fn battery_status_code(s: BatteryStatus) -> u8 {
    match s {
        BatteryStatus::Discharging => 0,
        BatteryStatus::Charging => 1,
        BatteryStatus::AlmostFull => 2,
        BatteryStatus::Full => 3,
        BatteryStatus::SlowCharging => 4,
        BatteryStatus::InvalidBattery => 5,
        BatteryStatus::ThermalError => 6,
        BatteryStatus::ChargingError => 7,
        BatteryStatus::Unknown(n) => n,
    }
}

/// A status byte is read as the status with that HID++ code: reading keeps
/// the byte, so no two bytes are read as one status, and a byte is a known
/// status exactly when it is below eight.
pub proof fn lemma_battery_status_code(b: u8, c: u8)
    ensures
        battery_status_code(spec_battery_status(b)) == b,
        spec_battery_status(b) == spec_battery_status(c) ==> b == c,
        (spec_battery_status(b) is Unknown) <==> b >= 8,
{
}

/// Name of a battery status as shown to the user.
pub open spec fn battery_status_name(s: BatteryStatus) -> Seq<char> {
    match s {
        BatteryStatus::Discharging => "discharging"@,
        BatteryStatus::Charging => "charging"@,
        BatteryStatus::AlmostFull => "almost-full"@,
        BatteryStatus::Full => "full"@,
        BatteryStatus::SlowCharging => "slow-charging"@,
        BatteryStatus::InvalidBattery => "invalid-battery"@,
        BatteryStatus::ThermalError => "thermal-error"@,
        BatteryStatus::ChargingError => "charging-error"@,
        BatteryStatus::Unknown(_) => "unknown"@,
    }
}

impl From<u8> for BatteryStatus {
    /// The status that a HID++ battery status byte stands for.
    fn from(value: u8) -> (s: BatteryStatus) {
        if value == 0 {
            BatteryStatus::Discharging
        } else if value == 1 {
            BatteryStatus::Charging
        } else if value == 2 {
            BatteryStatus::AlmostFull
        } else if value == 3 {
            BatteryStatus::Full
        } else if value == 4 {
            BatteryStatus::SlowCharging
        } else if value == 5 {
            BatteryStatus::InvalidBattery
        } else if value == 6 {
            BatteryStatus::ThermalError
        } else if value == 7 {
            BatteryStatus::ChargingError
        } else {
            BatteryStatus::Unknown(value)
        }
    }
}

impl vstd::std_specs::convert::FromSpecImpl<u8> for BatteryStatus {
    open spec fn obeys_from_spec() -> bool {
        true
    }

    open spec fn from_spec(v: u8) -> BatteryStatus {
        spec_battery_status(v)
    }
}

impl BatteryStatus {
    /// Name of the status as shown to the user.
    pub fn as_str(self) -> (r: &'static str)
        ensures
            r@ == battery_status_name(self),
    {
        match self {
            BatteryStatus::Discharging => "discharging",
            BatteryStatus::Charging => "charging",
            BatteryStatus::AlmostFull => "almost-full",
            BatteryStatus::Full => "full",
            BatteryStatus::SlowCharging => "slow-charging",
            BatteryStatus::InvalidBattery => "invalid-battery",
            BatteryStatus::ThermalError => "thermal-error",
            BatteryStatus::ChargingError => "charging-error",
            BatteryStatus::Unknown(_) => "unknown",
        }
    }
}

/// Battery information common to HID++ `BATTERY_STATUS` and `UNIFIED_BATTERY`.
#[derive(Clone, Copy, Debug, PartialEq, Eq, Structural)]
pub struct BatteryInfo {
    pub current_level: u8,
    pub next_reported_level: u8,
    pub status: BatteryStatus,
}

/// Failure to encode or decode a HID++ message exchange.
#[derive(Clone, Copy, Debug, PartialEq, Eq)]
pub enum HidppError {
    UnknownReportId(Option<u8>),
    InvalidLength { report_id: u8, expected: usize, found: usize },
    MissingPayload,
    UnrelatedResponse,
    Device(u8),
}

/// The text of a HID++ error.
pub open spec fn hidpp_error_text(e: HidppError) -> Seq<char> {
    match e {
        HidppError::UnknownReportId(id) => "not a HID++ report: "@ + optional_byte_text(id),
        HidppError::InvalidLength { report_id, expected, found } => "HID++ report "@
            + byte_hex_text(report_id) + " has "@ + decimal(found as nat) + " bytes; expected "@
            + decimal(expected as nat),
        HidppError::MissingPayload => "HID++ response payload is incomplete"@,
        HidppError::UnrelatedResponse => "unrelated HID++ response"@,
        HidppError::Device(code) => "HID++ device error "@ + byte_hex_text(code),
    }
}

impl HidppError {
    /// The error as a message.
    pub fn to_string(&self) -> (s: String)
        ensures
            s@ == hidpp_error_text(*self),
    {
        let mut s = String::new();
        match self {
            HidppError::UnknownReportId(id) => {
                push_text(&mut s, "not a HID++ report: ");
                push_optional_byte(&mut s, *id);
            },
            HidppError::InvalidLength { report_id, expected, found } => {
                push_text(&mut s, "HID++ report ");
                push_byte_hex(&mut s, *report_id);
                push_text(&mut s, " has ");
                push_decimal(&mut s, *found as u64);
                push_text(&mut s, " bytes; expected ");
                push_decimal(&mut s, *expected as u64);
            },
            HidppError::MissingPayload => push_text(&mut s, "HID++ response payload is incomplete"),
            HidppError::UnrelatedResponse => push_text(&mut s, "unrelated HID++ response"),
            HidppError::Device(code) => {
                push_text(&mut s, "HID++ device error ");
                push_byte_hex(&mut s, *code);
            },
        }
        s
    }
}

/// A validated HID++ short or long message.
#[derive(Debug, PartialEq, Eq)]
pub struct Message {
    bytes: Vec<u8>,
}

impl Clone for Message {
    fn clone(&self) -> (r: Self)
        ensures
            r@ == self@,
    {
        proof {
            use_type_invariant(self);
        }
        let bytes = self.bytes.clone();
        assert(bytes@ =~= self.bytes@);
        Message { bytes }
    }
}

/// The complete messages: a short one of seven bytes starting with `0x10`,
/// or a long one of twenty bytes starting with `0x11`.
pub open spec fn valid_message(b: Seq<u8>) -> bool {
    (b.len() == SHORT_LEN && b[0] == SHORT_REPORT_ID) || (b.len() == LONG_LEN && b[0]
        == LONG_REPORT_ID)
}

/// The bytes of a long request: report ID, device index, feature index,
/// function number and software ID, then at most sixteen payload bytes
/// followed by zeros.
pub open spec fn request_bytes(device_index: u8, feature_index: u8, function: u8, payload: Seq<u8>) -> Seq<
    u8,
> {
    let n = if payload.len() < 16 {
        payload.len()
    } else {
        16
    };
    seq![LONG_REPORT_ID, device_index, feature_index, ((function % 16) * 16 + SOFTWARE_ID) as u8]
        + payload.take(n as int) + Seq::new((16 - n) as nat, |i: int| 0u8)
}

impl View for Message {
    type V = Seq<u8>;

    closed spec fn view(&self) -> Seq<u8> {
        self.bytes@
    }
}

impl Message {
    #[verifier::type_invariant]
    closed spec fn wf(self) -> bool {
        valid_message(self.bytes@)
    }

    /// Build a long HID++ 2.0 request.
    pub fn long_request(device_index: u8, feature_index: u8, function: u8, payload: &[u8]) -> (m:
        Message)
        ensures
            m@ == request_bytes(device_index, feature_index, function, payload@),
    {
        let mut bytes: Vec<u8> = Vec::new();
        bytes.push(LONG_REPORT_ID);
        bytes.push(device_index);
        bytes.push(feature_index);
        bytes.push((function % 16) * 16 + SOFTWARE_ID);
        let n: usize = if payload.len() < 16 {
            payload.len()
        } else {
            16
        };
        let mut i: usize = 0;
        while i < n
            invariant
                i <= n,
                n <= payload@.len(),
                n <= 16,
                bytes@ == seq![
                    LONG_REPORT_ID,
                    device_index,
                    feature_index,
                    ((function % 16) * 16 + SOFTWARE_ID) as u8,
                ] + payload@.take(i as int),
            decreases n - i,
        {
            bytes.push(payload[i]);
            i = i + 1;
            assert(bytes@ =~= seq![
                LONG_REPORT_ID,
                device_index,
                feature_index,
                ((function % 16) * 16 + SOFTWARE_ID) as u8,
            ] + payload@.take(i as int));
        }
        let mut k: usize = 0;
        while k < 16 - n
            invariant
                k <= 16 - n,
                n <= 16,
                n <= payload@.len(),
                bytes@ == seq![
                    LONG_REPORT_ID,
                    device_index,
                    feature_index,
                    ((function % 16) * 16 + SOFTWARE_ID) as u8,
                ] + payload@.take(n as int) + Seq::new(k as nat, |i: int| 0u8),
            decreases 16 - n - k,
        {
            bytes.push(0);
            k = k + 1;
            assert(bytes@ =~= seq![
                LONG_REPORT_ID,
                device_index,
                feature_index,
                ((function % 16) * 16 + SOFTWARE_ID) as u8,
            ] + payload@.take(n as int) + Seq::new(k as nat, |i: int| 0u8));
        }
        assert(bytes@ == request_bytes(device_index, feature_index, function, payload@));
        Message { bytes }
    }

    /// Parse one complete HID++ short or long report.
    ///
    /// Fails with `UnknownReportId` for any report ID other than `0x10` and
    /// `0x11`, and with `InvalidLength` when the length does not match it.
    pub fn parse(report: &[u8]) -> (r: Result<Message, HidppError>)
        ensures
            report@.len() == 0 ==> r == Err::<Message, HidppError>(
                HidppError::UnknownReportId(None),
            ),
            report@.len() > 0 && report@[0] != SHORT_REPORT_ID && report@[0] != LONG_REPORT_ID
                ==> r == Err::<Message, HidppError>(HidppError::UnknownReportId(Some(report@[0]))),
            report@.len() > 0 && (report@[0] == SHORT_REPORT_ID || report@[0] == LONG_REPORT_ID)
                && !valid_message(report@) ==> r == Err::<Message, HidppError>(
                HidppError::InvalidLength {
                    report_id: report@[0],
                    expected: if report@[0] == SHORT_REPORT_ID {
                        SHORT_LEN
                    } else {
                        LONG_LEN
                    },
                    found: report@.len() as usize,
                },
            ),
            valid_message(report@) ==> (r matches Ok(m) && m@ == report@),
    {
        if report.len() == 0 {
            return Err(HidppError::UnknownReportId(None));
        }
        let expected = if report[0] == SHORT_REPORT_ID {
            SHORT_LEN
        } else if report[0] == LONG_REPORT_ID {
            LONG_LEN
        } else {
            return Err(HidppError::UnknownReportId(Some(report[0])));
        };
        if report.len() != expected {
            return Err(
                HidppError::InvalidLength { report_id: report[0], expected, found: report.len() },
            );
        }
        let mut bytes: Vec<u8> = Vec::new();
        let mut i: usize = 0;
        while i < report.len()
            invariant
                i <= report@.len(),
                bytes@ == report@.take(i as int),
            decreases report@.len() - i,
        {
            bytes.push(report[i]);
            i = i + 1;
            assert(bytes@ =~= report@.take(i as int));
        }
        assert(report@.take(i as int) =~= report@);
        Ok(Message { bytes })
    }

    /// The complete report: seven or twenty bytes, starting with its report ID.
    pub fn as_bytes(&self) -> (b: &[u8])
        ensures
            b@ == self@,
            valid_message(b@),
    {
        proof {
            use_type_invariant(self);
        }
        self.bytes.as_slice()
    }

    pub fn device_index(&self) -> (r: u8)
        ensures
            r == self@[1],
    {
        proof {
            use_type_invariant(self);
        }
        self.bytes[1]
    }

    pub fn feature_index(&self) -> (r: u8)
        ensures
            r == self@[2],
    {
        proof {
            use_type_invariant(self);
        }
        self.bytes[2]
    }

    /// The function number: the high nibble of byte 3.
    pub fn function(&self) -> (r: u8)
        ensures
            r == self@[3] / 16,
    {
        proof {
            use_type_invariant(self);
        }
        self.bytes[3] / 16
    }

    /// The software identifier: the low nibble of byte 3.
    pub fn software_id(&self) -> (r: u8)
        ensures
            r == self@[3] % 16,
    {
        proof {
            use_type_invariant(self);
        }
        self.bytes[3] % 16
    }

    /// The bytes after the four-byte header.
    pub fn payload(&self) -> (p: &[u8])
        ensures
            valid_message(self@),
            p@ == self@.subrange(4, self@.len() as int),
    {
        proof {
            use_type_invariant(self);
        }
        &self.bytes.as_slice()[4..self.bytes.len()]
    }

    /// Whether this message is the normal response to `request`: same device,
    /// feature, function and software identifier.
    pub fn is_response_to(&self, request: &Message) -> (r: bool)
        ensures
            r == (self@[1] == request@[1] && self@[2] == request@[2] && self@[3] == request@[3]),
    {
        proof {
            use_type_invariant(self);
            use_type_invariant(request);
        }
        self.bytes[1] == request.bytes[1] && self.bytes[2] == request.bytes[2] && self.bytes[3]
            == request.bytes[3]
    }

    /// The HID++ 2.0 error code when this is an error response to `request`.
    pub fn error_response_to(&self, request: &Message) -> (r: Option<u8>)
        ensures
            r == (if is_error_response(self@, request@) {
                Some(self@[5])
            } else {
                None
            }),
    {
        proof {
            use_type_invariant(self);
            use_type_invariant(request);
        }
        if self.bytes[0] == LONG_REPORT_ID && self.bytes[2] == 0xff && self.bytes[1]
            == request.bytes[1] && self.bytes[3] == request.bytes[2] && self.bytes[4]
            == request.bytes[3] {
            Some(self.bytes[5])
        } else {
            None
        }
    }
}

/// An error response: a long message on feature index `0xff` from the same
/// device, naming the request's feature index and function byte.
pub open spec fn is_error_response(m: Seq<u8>, request: Seq<u8>) -> bool {
    m[0] == LONG_REPORT_ID && m[2] == 0xff && m[1] == request[1] && m[3] == request[2] && m[4]
        == request[3]
}

/// The outcome of matching `response` to `request`.
pub open spec fn response_check(request: Seq<u8>, response: Seq<u8>) -> Result<(), HidppError> {
    if is_error_response(response, request) {
        Err(HidppError::Device(response[5]))
    } else if response[1] == request[1] && response[2] == request[2] && response[3] == request[3] {
        Ok(())
    } else {
        Err(HidppError::UnrelatedResponse)
    }
}

fn ensure_response(request: &Message, response: &Message) -> (r: Result<(), HidppError>)
    ensures
        r == response_check(request@, response@),
{
    if let Some(code) = response.error_response_to(request) {
        return Err(HidppError::Device(code));
    }
    if response.is_response_to(request) {
        Ok(())
    } else {
        Err(HidppError::UnrelatedResponse)
    }
}

/// The root-feature lookup request for `feature`: function 0 of feature
/// index 0, with the feature number in network byte order as payload.
pub fn feature_index_request(device_index: u8, feature: FeatureCode) -> (m: Message)
    ensures
        m@ == request_bytes(
            device_index,
            0,
            0,
            seq![
                (spec_feature_code(feature) / 256) as u8,
                (spec_feature_code(feature) % 256) as u8,
            ],
        ),
{
    let code = feature.code();
    let payload: [u8; 2] = [(code / 256) as u8, (code % 256) as u8];
    let m = Message::long_request(device_index, 0, 0, payload.as_slice());
    assert(payload@ =~= seq![
        (spec_feature_code(feature) / 256) as u8,
        (spec_feature_code(feature) % 256) as u8,
    ]);
    m
}

/// Decode the feature index returned by a root-feature lookup; an index of
/// zero means that the feature is not supported.
///
/// Fails with `Device` for an error response, and with `UnrelatedResponse`
/// for a response to another request.
pub fn decode_feature_index(request: &Message, response: &Message) -> (r: Result<Option<u8>, HidppError>)
    ensures
        match response_check(request@, response@) {
            Err(e) => r == Err::<Option<u8>, HidppError>(e),
            Ok(_) => r == Ok::<Option<u8>, HidppError>(
                if response@.len() > 4 && response@[4] != 0 {
                    Some(response@[4])
                } else {
                    None
                },
            ),
        },
{
    match ensure_response(request, response) {
        Err(e) => return Err(e),
        Ok(()) => {},
    }
    let payload = response.payload();
    if payload.len() > 0 && payload[0] != 0 {
        Ok(Some(payload[0]))
    } else {
        Ok(None)
    }
}

/// The battery information request for the selected feature: function 0 of
/// `BATTERY_STATUS` or function 1 of `UNIFIED_BATTERY`, without payload.
pub fn battery_request(device_index: u8, feature_index: u8, feature: FeatureCode) -> (m: Message)
    ensures
        m@ == request_bytes(
            device_index,
            feature_index,
            match feature {
                FeatureCode::BatteryStatus => 0,
                FeatureCode::UnifiedBattery => 1,
            },
            Seq::empty(),
        ),
{
    let function: u8 = match feature {
        FeatureCode::BatteryStatus => 0,
        FeatureCode::UnifiedBattery => 1,
    };
    let payload: [u8; 0] = [];
    let m = Message::long_request(device_index, feature_index, function, payload.as_slice());
    assert(payload@ =~= Seq::<u8>::empty());
    m
}

/// Decode a battery feature response: current level, next reported level
/// (the current level again for `UNIFIED_BATTERY`) and status.
///
/// Fails with `Device` for an error response, with `UnrelatedResponse` for a
/// response to another request, and with `MissingPayload` when fewer than
/// three payload bytes follow the header.
pub fn decode_battery_info(feature: FeatureCode, request: &Message, response: &Message) -> (r:
    Result<BatteryInfo, HidppError>)
    ensures
        match response_check(request@, response@) {
            Err(e) => r == Err::<BatteryInfo, HidppError>(e),
            Ok(_) => if response@.len() < 7 {
                r == Err::<BatteryInfo, HidppError>(HidppError::MissingPayload)
            } else {
                r == Ok::<BatteryInfo, HidppError>(
                    BatteryInfo {
                        current_level: response@[4],
                        next_reported_level: match feature {
                            FeatureCode::BatteryStatus => response@[5],
                            FeatureCode::UnifiedBattery => response@[4],
                        },
                        status: spec_battery_status(response@[6]),
                    },
                )
            },
        },
{
    match ensure_response(request, response) {
        Err(e) => return Err(e),
        Ok(()) => {},
    }
    let payload = response.payload();
    if payload.len() < 3 {
        return Err(HidppError::MissingPayload);
    }
    Ok(
        BatteryInfo {
            current_level: payload[0],
            next_reported_level: match feature {
                FeatureCode::BatteryStatus => payload[1],
                FeatureCode::UnifiedBattery => payload[0],
            },
            status: BatteryStatus::from(payload[2]),
        },
    )
}


/// The HID++ device index of a Logitech Spotlight model: 1 for each of the
/// four supported models, none for other presenters.
pub open spec fn spotlight_index(id: DeviceId) -> Option<u8> {
    if id.vendor == 0x046d && (id.product == 0xc53e || id.product == 0xb503 || id.product == 0xc548
        || id.product == 0xb506) {
        Some(1)
    } else {
        None
    }
}

/// The HID++ device index to address a Logitech Spotlight model with.
pub fn spotlight_device_index(id: DeviceId) -> (r: Option<u8>)
    ensures
        r == spotlight_index(id),
{
    if id.vendor == 0x046d && (id.product == 0xc53e || id.product == 0xb503 || id.product == 0xc548
        || id.product == 0xb506) {
        Some(1)
    } else {
        None
    }
}

} // verus!
