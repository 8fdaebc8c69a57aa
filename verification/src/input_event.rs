//! Decoder for Linux `input_event` records.

use vstd::prelude::*;

verus! {

broadcast use vstd::layout::layout_of_primitives;

/// Synchronization event type from `linux/input-event-codes.h`.
pub const EV_SYN: u16 = 0x00;
/// Key/button event type from `linux/input-event-codes.h`.
pub const EV_KEY: u16 = 0x01;
/// Relative-axis event type from `linux/input-event-codes.h`.
pub const EV_REL: u16 = 0x02;
/// Miscellaneous event type from `linux/input-event-codes.h`.
pub const EV_MSC: u16 = 0x04;
/// End-of-frame synchronization code.
pub const SYN_REPORT: u16 = 0;
/// Relative horizontal motion code.
pub const REL_X: u16 = 0;
/// Relative vertical motion code.
pub const REL_Y: u16 = 1;
/// Horizontal wheel code.
pub const REL_HWHEEL: u16 = 6;
/// Vertical wheel code.
pub const REL_WHEEL: u16 = 8;

/// Timestamp-independent payload from one Linux input event.
#[derive(Clone, Copy, Debug, PartialEq, Eq, Structural, PartialOrd, Ord)]
pub struct InputEvent {
    pub event_type: u16,
    pub code: u16,
    pub value: i32,
}

/// The synchronization event that terminates one kernel input frame.
pub open spec fn spec_sync_event() -> InputEvent {
    InputEvent { event_type: EV_SYN, code: SYN_REPORT, value: 0 }
}

impl InputEvent {
    pub open spec fn spec_is_sync_report(self) -> bool {
        self.event_type == EV_SYN && self.code == SYN_REPORT
    }

    pub open spec fn spec_is_relative_motion(self) -> bool {
        self.event_type == EV_REL && (self.code == REL_X || self.code == REL_Y)
    }

    /// Whether this record terminates one kernel input frame.
    pub fn is_sync_report(self) -> (r: bool)
        ensures
            r == self.spec_is_sync_report(),
    {
        self.event_type == EV_SYN && self.code == SYN_REPORT
    }

    /// Whether this is relative pointer motion on either primary axis.
    pub fn is_relative_motion(self) -> (r: bool)
        ensures
            r == self.spec_is_relative_motion(),
    {
        self.event_type == EV_REL && (self.code == REL_X || self.code == REL_Y)
    }
}

/// The end-of-frame event `EV_SYN`/`SYN_REPORT` with value zero.
pub fn sync_event() -> (e: InputEvent)
    ensures
        e == spec_sync_event(),
{
    InputEvent { event_type: EV_SYN, code: SYN_REPORT, value: 0 }
}

/// Size of `struct input_event` on this architecture: two C `long`
/// timestamp fields followed by the eight-byte type/code/value payload.
pub open spec fn spec_input_event_size() -> int {
    (2 * vstd::layout::size_of::<isize>() + 8) as int
}

/// Size of one native `struct input_event` record in bytes.
pub fn linux_input_event_size() -> (n: usize)
    ensures
        n == spec_input_event_size(),
        n == 16 || n == 24,
{
    let word = core::mem::size_of::<isize>();
    assert(word == 4 || word == 8) by {
        assert(usize::BITS == 32 || usize::BITS == 64);
    }
    2 * word + 8
}

/// Little-endian value of two bytes.
pub open spec fn u16_le(b0: u8, b1: u8) -> u16 {
    (b0 + 256 * b1) as u16
}

/// Big-endian value of two bytes.
pub open spec fn u16_be(b0: u8, b1: u8) -> u16 {
    (b1 + 256 * b0) as u16
}

/// Little-endian value of four bytes, reinterpreted as two's complement.
pub open spec fn i32_le(b0: u8, b1: u8, b2: u8, b3: u8) -> i32 {
    (b0 + 256 * b1 + 65536 * b2 + 16777216 * b3) as u32 as i32
}

/// Big-endian value of four bytes, reinterpreted as two's complement.
pub open spec fn i32_be(b0: u8, b1: u8, b2: u8, b3: u8) -> i32 {
    (b3 + 256 * b2 + 65536 * b1 + 16777216 * b0) as u32 as i32
}

/// `u16::from_ne_bytes`: the two bytes read in the machine's byte order,
/// which is little or big endian. Which of the two holds is a property of
/// the target machine and is not stated here.
#[verifier::external_body]
fn u16_from_ne_bytes(b0: u8, b1: u8) -> (r: u16)
    ensures
        r == u16_le(b0, b1) || r == u16_be(b0, b1),
{
    u16::from_ne_bytes([b0, b1])
}

/// Whether this machine stores integers little endian: the bytes `1, 0`
/// read natively give one.
fn machine_is_little_endian() -> bool {
    u16_from_ne_bytes(1, 0) == 1
}

/// The value of two bytes in the given byte order.
pub open spec fn u16_of(b0: u8, b1: u8, little_endian: bool) -> u16 {
    if little_endian {
        u16_le(b0, b1)
    } else {
        u16_be(b0, b1)
    }
}

/// The value of four bytes in the given byte order.
pub open spec fn i32_of(b0: u8, b1: u8, b2: u8, b3: u8, little_endian: bool) -> i32 {
    if little_endian {
        i32_le(b0, b1, b2, b3)
    } else {
        i32_be(b0, b1, b2, b3)
    }
}

/// The two bytes of `v` in the given byte order.
pub open spec fn u16_bytes(v: u16, little_endian: bool) -> (u8, u8) {
    let low = (v % 256) as u8;
    let high = (v / 256) as u8;
    if little_endian {
        (low, high)
    } else {
        (high, low)
    }
}

/// The four bytes of `v`'s two's complement in the given byte order.
pub open spec fn i32_bytes(v: i32, little_endian: bool) -> (u8, u8, u8, u8) {
    let u = v as u32;
    let b0 = (u % 256) as u8;
    let b1 = ((u / 256) % 256) as u8;
    let b2 = ((u / 65536) % 256) as u8;
    let b3 = (u / 16777216) as u8;
    if little_endian {
        (b0, b1, b2, b3)
    } else {
        (b3, b2, b1, b0)
    }
}

fn u16_of_exec(b0: u8, b1: u8, little_endian: bool) -> (r: u16)
    ensures
        r == u16_of(b0, b1, little_endian),
{
    if little_endian {
        b0 as u16 + 256 * (b1 as u16)
    } else {
        b1 as u16 + 256 * (b0 as u16)
    }
}

fn i32_of_exec(b0: u8, b1: u8, b2: u8, b3: u8, little_endian: bool) -> (r: i32)
    ensures
        r == i32_of(b0, b1, b2, b3, little_endian),
{
    let (x0, x1, x2, x3) = if little_endian {
        (b0, b1, b2, b3)
    } else {
        (b3, b2, b1, b0)
    };
    let u: u32 = x0 as u32 + 256 * (x1 as u32) + 65536 * (x2 as u32) + 16777216 * (x3 as u32);
    u as i32
}

fn u16_bytes_exec(v: u16, little_endian: bool) -> (r: (u8, u8))
    ensures
        r == u16_bytes(v, little_endian),
{
    let low = (v % 256) as u8;
    let high = (v / 256) as u8;
    if little_endian {
        (low, high)
    } else {
        (high, low)
    }
}

fn i32_bytes_exec(v: i32, little_endian: bool) -> (r: (u8, u8, u8, u8))
    ensures
        r == i32_bytes(v, little_endian),
{
    let u = v as u32;
    let b0 = (u % 256) as u8;
    let b1 = ((u / 256) % 256) as u8;
    let b2 = ((u / 65536) % 256) as u8;
    let b3 = (u / 16777216) as u8;
    if little_endian {
        (b0, b1, b2, b3)
    } else {
        (b3, b2, b1, b0)
    }
}

/// Failure to decode one input record.
#[derive(Clone, Copy, Debug, PartialEq, Eq, Structural)]
pub enum InputEventError {
    /// Fewer bytes than one complete `struct input_event` were available.
    UnexpectedEof,
}

/// The event held by the first native record of `p`, its fields read in
/// the given byte order; `UnexpectedEof` when `p` is shorter than a record.
pub open spec fn event_in_record(p: Seq<u8>, little_endian: bool) -> Result<InputEvent, InputEventError> {
    let off = spec_input_event_size() - 8;
    if p.len() < spec_input_event_size() {
        Err(InputEventError::UnexpectedEof)
    } else {
        Ok(
            InputEvent {
                event_type: u16_of(p[off], p[off + 1], little_endian),
                code: u16_of(p[off + 2], p[off + 3], little_endian),
                value: i32_of(p[off + 4], p[off + 5], p[off + 6], p[off + 7], little_endian),
            },
        )
    }
}

/// The native record of `e`: zero timestamps, then type, code and value in
/// the given byte order.
pub open spec fn event_record(e: InputEvent, little_endian: bool) -> Seq<u8> {
    let t = u16_bytes(e.event_type, little_endian);
    let c = u16_bytes(e.code, little_endian);
    let v = i32_bytes(e.value, little_endian);
    Seq::new((spec_input_event_size() - 8) as nat, |i: int| 0u8) + seq![
        t.0,
        t.1,
        c.0,
        c.1,
        v.0,
        v.1,
        v.2,
        v.3,
    ]
}

proof fn lemma_u16_bytes(v: u16, little_endian: bool)
    ensures
        u16_of(u16_bytes(v, little_endian).0, u16_bytes(v, little_endian).1, little_endian) == v,
{
    assert((v % 256) + 256 * (v / 256) == v) by (nonlinear_arith);
}

proof fn lemma_i32_bytes(v: i32, little_endian: bool)
    ensures
        ({
            let b = i32_bytes(v, little_endian);
            i32_of(b.0, b.1, b.2, b.3, little_endian) == v
        }),
{
    let u = v as u32;
    assert((u % 256) + 256 * ((u / 256) % 256) + 65536 * ((u / 65536) % 256) + 16777216 * (u
        / 16777216) == u) by (bit_vector);
    assert((v as u32) as i32 == v) by (bit_vector);
}

/// Reading back a record written in one byte order, in that byte order,
/// gives the event that was written.
pub proof fn lemma_record_read_back(e: InputEvent, little_endian: bool)
    ensures
        event_in_record(event_record(e, little_endian), little_endian) == Ok::<
            InputEvent,
            InputEventError,
        >(e),
{
    lemma_u16_bytes(e.event_type, little_endian);
    lemma_u16_bytes(e.code, little_endian);
    lemma_i32_bytes(e.value, little_endian);
    let r = event_record(e, little_endian);
    let off = spec_input_event_size() - 8;
    assert(r.len() == spec_input_event_size());
    assert(r[off] == u16_bytes(e.event_type, little_endian).0);
    assert(r[off + 1] == u16_bytes(e.event_type, little_endian).1);
    assert(r[off + 2] == u16_bytes(e.code, little_endian).0);
    assert(r[off + 3] == u16_bytes(e.code, little_endian).1);
    assert(r[off + 4] == i32_bytes(e.value, little_endian).0);
    assert(r[off + 5] == i32_bytes(e.value, little_endian).1);
    assert(r[off + 6] == i32_bytes(e.value, little_endian).2);
    assert(r[off + 7] == i32_bytes(e.value, little_endian).3);
}

/// Decode the first native Linux `input_event` record in `record`, its
/// fields in the given byte order.
///
/// Timestamps are discarded: only type, code and value are kept. A record
/// shorter than one complete `struct input_event` is rejected.
pub fn read_input_event_in_order(record: &[u8], little_endian: bool) -> (r: Result<
    InputEvent,
    InputEventError,
>)
    ensures
        r == event_in_record(record@, little_endian),
{
    let size = linux_input_event_size();
    if record.len() < size {
        return Err(InputEventError::UnexpectedEof);
    }
    let off = size - 8;
    let event_type = u16_of_exec(record[off], record[off + 1], little_endian);
    let code = u16_of_exec(record[off + 2], record[off + 3], little_endian);
    let value = i32_of_exec(
        record[off + 4],
        record[off + 5],
        record[off + 6],
        record[off + 7],
        little_endian,
    );
    Ok(InputEvent { event_type, code, value })
}

/// Decode the first native Linux `input_event` record in `record`, in the
/// machine's byte order.
///
/// Timestamps are discarded: only type, code and value are kept. A record
/// shorter than one complete `struct input_event` is rejected.
pub fn read_input_event(record: &[u8]) -> (r: Result<InputEvent, InputEventError>)
    ensures
        r == event_in_record(record@, true) || r == event_in_record(record@, false),
        record@.len() < spec_input_event_size() <==> r == Err::<InputEvent, InputEventError>(
            InputEventError::UnexpectedEof,
        ),
{
    let little_endian = machine_is_little_endian();
    read_input_event_in_order(record, little_endian)
}

/// Encode one event as a native `struct input_event` with zero timestamps,
/// its fields in the given byte order.
pub fn encode_input_event_in_order(event: InputEvent, little_endian: bool) -> (bytes: Vec<u8>)
    ensures
        bytes@ == event_record(event, little_endian),
{
    let size = linux_input_event_size();
    let mut bytes: Vec<u8> = Vec::new();
    let mut i: usize = 0;
    while i < size - 8
        invariant
            i <= size - 8,
            size == spec_input_event_size(),
            size == 16 || size == 24,
            bytes@.len() == i,
            forall|j: int| 0 <= j < i ==> bytes@[j] == 0u8,
        decreases size - 8 - i,
    {
        bytes.push(0u8);
        i = i + 1;
    }
    let (t0, t1) = u16_bytes_exec(event.event_type, little_endian);
    let (c0, c1) = u16_bytes_exec(event.code, little_endian);
    let (v0, v1, v2, v3) = i32_bytes_exec(event.value, little_endian);
    bytes.push(t0);
    bytes.push(t1);
    bytes.push(c0);
    bytes.push(c1);
    bytes.push(v0);
    bytes.push(v1);
    bytes.push(v2);
    bytes.push(v3);
    assert(bytes@ =~= event_record(event, little_endian));
    bytes
}

/// Encode one event as a native `struct input_event` with zero timestamps,
/// in the machine's byte order.
pub fn encode_input_event(event: InputEvent) -> (bytes: Vec<u8>)
    ensures
        bytes@ == event_record(event, true) || bytes@ == event_record(event, false),
{
    let little_endian = machine_is_little_endian();
    encode_input_event_in_order(event, little_endian)
}

} // verus!
