//! The `QDataStream::Qt_6_0` layout in which the desktop application persists
//! input-mapping configurations: its byte-level definition, an encoder, a
//! decoder, and the proofs that each undoes the other.

use vstd::prelude::*;

use crate::input_event::InputEvent;
use crate::kconfig::{
    ascii_text, decode_kconfig_byte_array, encode_kconfig_byte_array, kdecode, kencode_bytes,
    lemma_kconfig_decode_encode,
};
use vstd::string::StringSliceAdditionalSpecFns;
use crate::input_mapping::{
    InputMapError, SpecKeySequence, MAX_MAPPINGS, MAX_SEQUENCE_ITEMS,
    frames_view, mappings_view, spec_type_id, NativeKeySequence, InputMapConfig, InputMapping, KeyEvent, KeyEventSequence, MappedAction,
    SpecAction, SpecMapping,
};

verus! {

/// Version tag written at the start of every stream.
pub const FORMAT_VERSION: u32 = 1;

// ---------------------------------------------------------------------------
// Byte-level definition of the format.
// ---------------------------------------------------------------------------

/// Big-endian bytes of a 16-bit value.
pub open spec fn be16(v: u16) -> Seq<u8> {
    seq![(v / 256) as u8, (v % 256) as u8]
}

/// Big-endian bytes of a 32-bit value.
pub open spec fn be32(v: u32) -> Seq<u8> {
    seq![(v / 16777216) as u8, ((v / 65536) % 256) as u8, ((v / 256) % 256) as u8, (v % 256) as u8]
}

/// Big-endian two's-complement bytes of a signed 32-bit value.
pub open spec fn be_i32(v: i32) -> Seq<u8> {
    be32(v as u32)
}

/// The concatenation of `f` applied to each element, in order.
pub open spec fn concat_map<T>(xs: Seq<T>, f: spec_fn(T) -> Seq<u8>) -> Seq<u8>
    decreases xs.len(),
{
    if xs.len() == 0 {
        Seq::empty()
    } else {
        concat_map(xs.drop_last(), f) + f(xs.last())
    }
}

/// A collection length, as the 32-bit count that precedes the elements.
pub open spec fn len32(n: nat) -> Seq<u8> {
    be32(n as u32)
}

pub open spec fn enc_event(e: InputEvent) -> Seq<u8> {
    be16(e.event_type) + be16(e.code) + be_i32(e.value)
}

pub open spec fn enc_event_fn() -> spec_fn(InputEvent) -> Seq<u8> {
    |e: InputEvent| enc_event(e)
}

/// One frame: its event count, then its events.
pub open spec fn enc_frame(f: Seq<InputEvent>) -> Seq<u8> {
    len32(f.len()) + concat_map(f, enc_event_fn())
}

pub open spec fn enc_frame_fn() -> spec_fn(Seq<InputEvent>) -> Seq<u8> {
    |f: Seq<InputEvent>| enc_frame(f)
}

/// A sequence of frames: the frame count, then each frame.
pub open spec fn enc_sequence(s: Seq<Seq<InputEvent>>) -> Seq<u8> {
    len32(s.len()) + concat_map(s, enc_frame_fn())
}

pub open spec fn enc_i32_fn() -> spec_fn(i32) -> Seq<u8> {
    |v: i32| be_i32(v)
}

pub open spec fn enc_u16_fn() -> spec_fn(u16) -> Seq<u8> {
    |v: u16| be16(v)
}

pub open spec fn enc_i32s(v: Seq<i32>) -> Seq<u8> {
    len32(v.len()) + concat_map(v, enc_i32_fn())
}

pub open spec fn enc_u16s(v: Seq<u16>) -> Seq<u8> {
    len32(v.len()) + concat_map(v, enc_u16_fn())
}

/// An action: its type number, then either the key sequence (Qt keys, native
/// frames, native modifiers) or a single zero byte.
pub open spec fn enc_action(a: SpecAction) -> Seq<u8> {
    be_i32(spec_type_id(a)) + match a {
        SpecAction::KeySequence(k) => enc_i32s(k.qt_keys) + enc_sequence(k.native_sequence)
            + enc_u16s(k.native_modifiers),
        _ => seq![0u8],
    }
}

pub open spec fn enc_mapping(m: SpecMapping) -> Seq<u8> {
    enc_sequence(m.input) + enc_action(m.action)
}

pub open spec fn enc_mapping_fn() -> spec_fn(SpecMapping) -> Seq<u8> {
    |m: SpecMapping| enc_mapping(m)
}

/// A whole configuration: version, mapping count, then each mapping.
pub open spec fn enc_config(ms: Seq<SpecMapping>) -> Seq<u8> {
    be32(FORMAT_VERSION) + len32(ms.len()) + concat_map(ms, enc_mapping_fn())
}

/// Every collection length fits the 32-bit count of the format.
pub open spec fn frames_fit(s: Seq<Seq<InputEvent>>) -> bool {
    s.len() <= u32::MAX && forall|i: int| 0 <= i < s.len() ==> #[trigger] s[i].len() <= u32::MAX
}

pub open spec fn action_fits(a: SpecAction) -> bool {
    match a {
        SpecAction::KeySequence(k) => k.qt_keys.len() <= u32::MAX && frames_fit(k.native_sequence)
            && k.native_modifiers.len() <= u32::MAX,
        _ => true,
    }
}

pub open spec fn mapping_fits(m: SpecMapping) -> bool {
    frames_fit(m.input) && action_fits(m.action)
}

/// The configuration can be written: every count fits in 32 bits.
pub open spec fn config_fits(ms: Seq<SpecMapping>) -> bool {
    ms.len() <= u32::MAX && forall|i: int| 0 <= i < ms.len() ==> #[trigger] mapping_fits(ms[i])
}

/// Mapping one more element appends its image.
pub proof fn lemma_concat_map_push<T>(xs: Seq<T>, x: T, f: spec_fn(T) -> Seq<u8>)
    ensures
        concat_map(xs.push(x), f) == concat_map(xs, f) + f(x),
{
    assert(xs.push(x).drop_last() =~= xs);
}

// ---------------------------------------------------------------------------
// Decoding, defined over the bytes of a stream and a position in it.
// ---------------------------------------------------------------------------

/// The stream ends before a field that starts at `off`.
pub open spec fn end_err(off: nat) -> InputMapError {
    InputMapError::UnexpectedEnd { offset: off as usize }
}

pub open spec fn rd_u8(s: Seq<u8>, off: nat) -> Result<(u8, nat), InputMapError> {
    if off + 1 <= s.len() {
        Ok((s[off as int], off + 1))
    } else {
        Err(end_err(off))
    }
}

pub open spec fn rd_u16(s: Seq<u8>, off: nat) -> Result<(u16, nat), InputMapError> {
    if off + 2 <= s.len() {
        Ok(((s[off as int] * 256 + s[off as int + 1]) as u16, off + 2))
    } else {
        Err(end_err(off))
    }
}

pub open spec fn rd_u32(s: Seq<u8>, off: nat) -> Result<(u32, nat), InputMapError> {
    if off + 4 <= s.len() {
        Ok(
            (
                (s[off as int] * 16777216 + s[off as int + 1] * 65536 + s[off as int + 2] * 256
                    + s[off as int + 3]) as u32,
                off + 4,
            ),
        )
    } else {
        Err(end_err(off))
    }
}

pub open spec fn rd_i32(s: Seq<u8>, off: nat) -> Result<(i32, nat), InputMapError> {
    match rd_u32(s, off) {
        Ok((v, o)) => Ok((v as i32, o)),
        Err(e) => Err(e),
    }
}

/// A collection count, rejected when it exceeds `limit`.
pub open spec fn rd_len(s: Seq<u8>, off: nat, limit: nat, field: &'static str) -> Result<
    (nat, nat),
    InputMapError,
> {
    match rd_u32(s, off) {
        Ok((v, o)) => if v > limit {
            Err(InputMapError::CollectionTooLarge { field, size: v })
        } else {
            Ok((v as nat, o))
        },
        Err(e) => Err(e),
    }
}

/// `n` consecutive elements read by `f`, stopping at the first failure.
pub open spec fn rd_many<T>(
    s: Seq<u8>,
    off: nat,
    n: nat,
    f: spec_fn(Seq<u8>, nat) -> Result<(T, nat), InputMapError>,
) -> Result<(Seq<T>, nat), InputMapError>
    decreases n,
{
    if n == 0 {
        Ok((Seq::empty(), off))
    } else {
        match rd_many(s, off, (n - 1) as nat, f) {
            Ok((xs, o)) => match f(s, o) {
                Ok((x, o2)) => Ok((xs.push(x), o2)),
                Err(e) => Err(e),
            },
            Err(e) => Err(e),
        }
    }
}

pub open spec fn rd_event(s: Seq<u8>, off: nat) -> Result<(InputEvent, nat), InputMapError> {
    match rd_u16(s, off) {
        Ok((t, o1)) => match rd_u16(s, o1) {
            Ok((c, o2)) => match rd_i32(s, o2) {
                Ok((v, o3)) => Ok((InputEvent { event_type: t, code: c, value: v }, o3)),
                Err(e) => Err(e),
            },
            Err(e) => Err(e),
        },
        Err(e) => Err(e),
    }
}

pub open spec fn rd_event_fn() -> spec_fn(Seq<u8>, nat) -> Result<(InputEvent, nat), InputMapError> {
    |s: Seq<u8>, o: nat| rd_event(s, o)
}

pub open spec fn rd_frame(s: Seq<u8>, off: nat) -> Result<(Seq<InputEvent>, nat), InputMapError> {
    match rd_len(s, off, MAX_SEQUENCE_ITEMS as nat, "input event count") {
        Ok((n, o)) => rd_many(s, o, n, rd_event_fn()),
        Err(e) => Err(e),
    }
}

pub open spec fn rd_frame_fn() -> spec_fn(Seq<u8>, nat) -> Result<
    (Seq<InputEvent>, nat),
    InputMapError,
> {
    |s: Seq<u8>, o: nat| rd_frame(s, o)
}

pub open spec fn rd_sequence(s: Seq<u8>, off: nat) -> Result<
    (Seq<Seq<InputEvent>>, nat),
    InputMapError,
> {
    match rd_len(s, off, MAX_SEQUENCE_ITEMS as nat, "input sequence length") {
        Ok((n, o)) => rd_many(s, o, n, rd_frame_fn()),
        Err(e) => Err(e),
    }
}

pub open spec fn rd_i32_fn() -> spec_fn(Seq<u8>, nat) -> Result<(i32, nat), InputMapError> {
    |s: Seq<u8>, o: nat| rd_i32(s, o)
}

pub open spec fn rd_u16_fn() -> spec_fn(Seq<u8>, nat) -> Result<(u16, nat), InputMapError> {
    |s: Seq<u8>, o: nat| rd_u16(s, o)
}

pub open spec fn rd_i32s(s: Seq<u8>, off: nat, field: &'static str) -> Result<
    (Seq<i32>, nat),
    InputMapError,
> {
    match rd_len(s, off, MAX_SEQUENCE_ITEMS as nat, field) {
        Ok((n, o)) => rd_many(s, o, n, rd_i32_fn()),
        Err(e) => Err(e),
    }
}

pub open spec fn rd_u16s(s: Seq<u8>, off: nat, field: &'static str) -> Result<
    (Seq<u16>, nat),
    InputMapError,
> {
    match rd_len(s, off, MAX_SEQUENCE_ITEMS as nat, field) {
        Ok((n, o)) => rd_many(s, o, n, rd_u16_fn()),
        Err(e) => Err(e),
    }
}

/// The key-sequence payload of an action of type 1.
pub open spec fn rd_key_sequence(s: Seq<u8>, off: nat) -> Result<
    (SpecKeySequence, nat),
    InputMapError,
> {
    match rd_i32s(s, off, "Qt key count") {
        Ok((k, o1)) => match rd_sequence(s, o1) {
            Ok((ns, o2)) => match rd_u16s(s, o2, "native modifier count") {
                Ok((m, o3)) => Ok(
                    (SpecKeySequence { qt_keys: k, native_sequence: ns, native_modifiers: m }, o3),
                ),
                Err(e) => Err(e),
            },
            Err(e) => Err(e),
        },
        Err(e) => Err(e),
    }
}

/// The action without payload for a type number, if there is one.
pub open spec fn simple_action(t: i32) -> Option<SpecAction> {
    if t == 2 {
        Some(SpecAction::CyclePresets)
    } else if t == 3 {
        Some(SpecAction::ToggleSpotlight)
    } else if t == 11 {
        Some(SpecAction::ScrollHorizontal)
    } else if t == 12 {
        Some(SpecAction::ScrollVertical)
    } else if t == 13 {
        Some(SpecAction::VolumeControl)
    } else {
        None
    }
}

pub open spec fn rd_action(s: Seq<u8>, off: nat) -> Result<(SpecAction, nat), InputMapError> {
    match rd_i32(s, off) {
        Ok((t, o)) => if t == 1 {
            match rd_key_sequence(s, o) {
                Ok((k, o2)) => Ok((SpecAction::KeySequence(k), o2)),
                Err(e) => Err(e),
            }
        } else {
            match simple_action(t) {
                Some(a) => match rd_u8(s, o) {
                    Ok((_, o2)) => Ok((a, o2)),
                    Err(e) => Err(e),
                },
                None => Err(InputMapError::InvalidAction(t)),
            }
        },
        Err(e) => Err(e),
    }
}

pub open spec fn rd_mapping(s: Seq<u8>, off: nat) -> Result<(SpecMapping, nat), InputMapError> {
    match rd_sequence(s, off) {
        Ok((input, o1)) => match rd_action(s, o1) {
            Ok((action, o2)) => Ok((SpecMapping { input, action }, o2)),
            Err(e) => Err(e),
        },
        Err(e) => Err(e),
    }
}

pub open spec fn rd_mapping_fn() -> spec_fn(Seq<u8>, nat) -> Result<(SpecMapping, nat), InputMapError> {
    |s: Seq<u8>, o: nat| rd_mapping(s, o)
}

/// The result of decoding a complete stream: the version must be
/// [`FORMAT_VERSION`], at most [`MAX_MAPPINGS`] mappings follow, and no byte
/// may remain after the last one.
pub open spec fn rd_config(s: Seq<u8>) -> Result<Seq<SpecMapping>, InputMapError> {
    match rd_u32(s, 0) {
        Ok((v, o)) => if v != FORMAT_VERSION {
            Err(InputMapError::UnsupportedVersion(v))
        } else {
            match rd_len(s, o, MAX_MAPPINGS as nat, "mapping count") {
                Ok((n, o2)) => match rd_many(s, o2, n, rd_mapping_fn()) {
                    Ok((ms, o3)) => if o3 != s.len() {
                        Err(InputMapError::TrailingData((s.len() - o3) as usize))
                    } else {
                        Ok(ms)
                    },
                    Err(e) => Err(e),
                },
                Err(e) => Err(e),
            }
        },
        Err(e) => Err(e),
    }
}

/// Once a read fails, reading more elements fails in the same way.
pub proof fn lemma_many_err<T>(
    s: Seq<u8>,
    off: nat,
    n: nat,
    m: nat,
    f: spec_fn(Seq<u8>, nat) -> Result<(T, nat), InputMapError>,
)
    requires
        n <= m,
        rd_many(s, off, n, f) is Err,
    ensures
        rd_many(s, off, m, f) == rd_many(s, off, n, f),
    decreases m,
{
    if m > n {
        lemma_many_err(s, off, n, (m - 1) as nat, f);
    }
}

// ---------------------------------------------------------------------------
// Encoder.
// ---------------------------------------------------------------------------

struct Writer {
    bytes: Vec<u8>,
}

impl Writer {
    fn u8(&mut self, value: u8)
        ensures
            final(self).bytes@ == old(self).bytes@ + seq![value],
    {
        self.bytes.push(value);
    }

    fn u16(&mut self, value: u16)
        ensures
            final(self).bytes@ == old(self).bytes@ + be16(value),
    {
        self.bytes.push((value / 256) as u8);
        self.bytes.push((value % 256) as u8);
        assert(self.bytes@ =~= old(self).bytes@ + be16(value));
    }

    fn u32(&mut self, value: u32)
        ensures
            final(self).bytes@ == old(self).bytes@ + be32(value),
    {
        self.bytes.push((value / 16777216) as u8);
        self.bytes.push(((value / 65536) % 256) as u8);
        self.bytes.push(((value / 256) % 256) as u8);
        self.bytes.push((value % 256) as u8);
        assert(self.bytes@ =~= old(self).bytes@ + be32(value));
    }

    fn i32(&mut self, value: i32)
        ensures
            final(self).bytes@ == old(self).bytes@ + be_i32(value),
    {
        self.u32(value as u32);
    }

    fn length(&mut self, value: usize)
        requires
            value <= u32::MAX,
        ensures
            final(self).bytes@ == old(self).bytes@ + len32(value as nat),
    {
        self.u32(value as u32);
    }

    fn input_event(&mut self, event: InputEvent)
        ensures
            final(self).bytes@ == old(self).bytes@ + enc_event(event),
    {
        self.u16(event.event_type);
        self.u16(event.code);
        self.i32(event.value);
        assert(self.bytes@ =~= old(self).bytes@ + enc_event(event));
    }

    fn key_event(&mut self, event: &KeyEvent)
        requires
            event@.len() <= u32::MAX,
        ensures
            final(self).bytes@ == old(self).bytes@ + enc_frame(event@),
    {
        self.length(event.len());
        let ghost start = self.bytes@;
        let mut i: usize = 0;
        while i < event.len()
            invariant
                i <= event@.len(),
                self.bytes@ == start + concat_map(event@.take(i as int), enc_event_fn()),
            decreases event@.len() - i,
        {
            proof {
                assert(event@.take(i + 1) =~= event@.take(i as int).push(event@[i as int]));
                lemma_concat_map_push(event@.take(i as int), event@[i as int], enc_event_fn());
            }
            self.input_event(event[i]);
            i = i + 1;
            assert(self.bytes@ =~= start + concat_map(event@.take(i as int), enc_event_fn()));
        }
        assert(event@.take(i as int) =~= event@);
        assert(self.bytes@ =~= old(self).bytes@ + enc_frame(event@));
    }

    fn event_sequence(&mut self, sequence: &KeyEventSequence)
        requires
            frames_fit(frames_view(*sequence)),
        ensures
            final(self).bytes@ == old(self).bytes@ + enc_sequence(frames_view(*sequence)),
    {
        let ghost fv = frames_view(*sequence);
        self.length(sequence.len());
        let ghost start = self.bytes@;
        let mut i: usize = 0;
        while i < sequence.len()
            invariant
                i <= sequence@.len(),
                fv == frames_view(*sequence),
                frames_fit(fv),
                self.bytes@ == start + concat_map(fv.take(i as int), enc_frame_fn()),
            decreases sequence@.len() - i,
        {
            proof {
                assert(fv.take(i + 1) =~= fv.take(i as int).push(fv[i as int]));
                lemma_concat_map_push(fv.take(i as int), fv[i as int], enc_frame_fn());
                assert(fv[i as int].len() <= u32::MAX);
            }
            self.key_event(&sequence[i]);
            i = i + 1;
            assert(self.bytes@ =~= start + concat_map(fv.take(i as int), enc_frame_fn()));
        }
        assert(fv.take(i as int) =~= fv);
        assert(self.bytes@ =~= old(self).bytes@ + enc_sequence(fv));
    }

    fn i32_list(&mut self, values: &Vec<i32>)
        requires
            values@.len() <= u32::MAX,
        ensures
            final(self).bytes@ == old(self).bytes@ + enc_i32s(values@),
    {
        self.length(values.len());
        let ghost start = self.bytes@;
        let mut i: usize = 0;
        while i < values.len()
            invariant
                i <= values@.len(),
                self.bytes@ == start + concat_map(values@.take(i as int), enc_i32_fn()),
            decreases values@.len() - i,
        {
            proof {
                assert(values@.take(i + 1) =~= values@.take(i as int).push(values@[i as int]));
                lemma_concat_map_push(values@.take(i as int), values@[i as int], enc_i32_fn());
            }
            self.i32(values[i]);
            i = i + 1;
            assert(self.bytes@ =~= start + concat_map(values@.take(i as int), enc_i32_fn()));
        }
        assert(values@.take(i as int) =~= values@);
        assert(self.bytes@ =~= old(self).bytes@ + enc_i32s(values@));
    }

    fn u16_list(&mut self, values: &Vec<u16>)
        requires
            values@.len() <= u32::MAX,
        ensures
            final(self).bytes@ == old(self).bytes@ + enc_u16s(values@),
    {
        self.length(values.len());
        let ghost start = self.bytes@;
        let mut i: usize = 0;
        while i < values.len()
            invariant
                i <= values@.len(),
                self.bytes@ == start + concat_map(values@.take(i as int), enc_u16_fn()),
            decreases values@.len() - i,
        {
            proof {
                assert(values@.take(i + 1) =~= values@.take(i as int).push(values@[i as int]));
                lemma_concat_map_push(values@.take(i as int), values@[i as int], enc_u16_fn());
            }
            self.u16(values[i]);
            i = i + 1;
            assert(self.bytes@ =~= start + concat_map(values@.take(i as int), enc_u16_fn()));
        }
        assert(values@.take(i as int) =~= values@);
        assert(self.bytes@ =~= old(self).bytes@ + enc_u16s(values@));
    }

    fn action(&mut self, action: &MappedAction)
        requires
            action_fits(action@),
        ensures
            final(self).bytes@ == old(self).bytes@ + enc_action(action@),
    {
        self.i32(action.type_id());
        match action {
            MappedAction::KeySequence(sequence) => {
                self.i32_list(&sequence.qt_keys);
                self.event_sequence(&sequence.native_sequence);
                self.u16_list(&sequence.native_modifiers);
            },
            MappedAction::CyclePresets
            | MappedAction::ToggleSpotlight
            | MappedAction::ScrollHorizontal
            | MappedAction::ScrollVertical
            | MappedAction::VolumeControl => self.u8(0),
        }
        assert(self.bytes@ =~= old(self).bytes@ + enc_action(action@));
    }
}

// ---------------------------------------------------------------------------
// Decoder.
// ---------------------------------------------------------------------------

struct Reader<'a> {
    bytes: &'a [u8],
    offset: usize,
}

impl<'a> Reader<'a> {
    fn u8(&mut self) -> (r: Result<u8, InputMapError>)
        requires
            old(self).offset <= old(self).bytes@.len(),
        ensures
            final(self).bytes@ == old(self).bytes@,
            final(self).offset <= final(self).bytes@.len(),
            match rd_u8(old(self).bytes@, old(self).offset as nat) {
                Ok((v, o)) => r == Ok::<u8, InputMapError>(v) && final(self).offset == o,
                Err(e) => r == Err::<u8, InputMapError>(e),
            },
    {
        if self.bytes.len() - self.offset < 1 {
            return Err(InputMapError::UnexpectedEnd { offset: self.offset });
        }
        let v = self.bytes[self.offset];
        self.offset = self.offset + 1;
        Ok(v)
    }

    fn u16(&mut self) -> (r: Result<u16, InputMapError>)
        requires
            old(self).offset <= old(self).bytes@.len(),
        ensures
            final(self).bytes@ == old(self).bytes@,
            final(self).offset <= final(self).bytes@.len(),
            match rd_u16(old(self).bytes@, old(self).offset as nat) {
                Ok((v, o)) => r == Ok::<u16, InputMapError>(v) && final(self).offset == o,
                Err(e) => r == Err::<u16, InputMapError>(e),
            },
    {
        if self.bytes.len() - self.offset < 2 {
            return Err(InputMapError::UnexpectedEnd { offset: self.offset });
        }
        let v = (self.bytes[self.offset] as u16) * 256 + (self.bytes[self.offset + 1] as u16);
        self.offset = self.offset + 2;
        Ok(v)
    }

    fn u32(&mut self) -> (r: Result<u32, InputMapError>)
        requires
            old(self).offset <= old(self).bytes@.len(),
        ensures
            final(self).bytes@ == old(self).bytes@,
            final(self).offset <= final(self).bytes@.len(),
            match rd_u32(old(self).bytes@, old(self).offset as nat) {
                Ok((v, o)) => r == Ok::<u32, InputMapError>(v) && final(self).offset == o,
                Err(e) => r == Err::<u32, InputMapError>(e),
            },
    {
        if self.bytes.len() - self.offset < 4 {
            return Err(InputMapError::UnexpectedEnd { offset: self.offset });
        }
        let o = self.offset;
        let v = (self.bytes[o] as u32) * 16777216 + (self.bytes[o + 1] as u32) * 65536
            + (self.bytes[o + 2] as u32) * 256 + (self.bytes[o + 3] as u32);
        self.offset = o + 4;
        Ok(v)
    }

    fn i32(&mut self) -> (r: Result<i32, InputMapError>)
        requires
            old(self).offset <= old(self).bytes@.len(),
        ensures
            final(self).bytes@ == old(self).bytes@,
            final(self).offset <= final(self).bytes@.len(),
            match rd_i32(old(self).bytes@, old(self).offset as nat) {
                Ok((v, o)) => r == Ok::<i32, InputMapError>(v) && final(self).offset == o,
                Err(e) => r == Err::<i32, InputMapError>(e),
            },
    {
        match self.u32() {
            Ok(v) => Ok(v as i32),
            Err(e) => Err(e),
        }
    }

    fn length(&mut self, limit: usize, field: &'static str) -> (r: Result<usize, InputMapError>)
        requires
            old(self).offset <= old(self).bytes@.len(),
        ensures
            final(self).bytes@ == old(self).bytes@,
            final(self).offset <= final(self).bytes@.len(),
            match rd_len(old(self).bytes@, old(self).offset as nat, limit as nat, field) {
                Ok((v, o)) => r == Ok::<usize, InputMapError>(v as usize) && final(self).offset == o
                    && v <= limit,
                Err(e) => r == Err::<usize, InputMapError>(e),
            },
    {
        let size = match self.u32() {
            Ok(v) => v,
            Err(e) => return Err(e),
        };
        if size as u64 > limit as u64 {
            return Err(InputMapError::CollectionTooLarge { field, size });
        }
        Ok(size as usize)
    }

    fn input_event(&mut self) -> (r: Result<InputEvent, InputMapError>)
        requires
            old(self).offset <= old(self).bytes@.len(),
        ensures
            final(self).bytes@ == old(self).bytes@,
            final(self).offset <= final(self).bytes@.len(),
            match rd_event(old(self).bytes@, old(self).offset as nat) {
                Ok((v, o)) => r == Ok::<InputEvent, InputMapError>(v) && final(self).offset == o,
                Err(e) => r == Err::<InputEvent, InputMapError>(e),
            },
    {
        let event_type = match self.u16() {
            Ok(v) => v,
            Err(e) => return Err(e),
        };
        let code = match self.u16() {
            Ok(v) => v,
            Err(e) => return Err(e),
        };
        let value = match self.i32() {
            Ok(v) => v,
            Err(e) => return Err(e),
        };
        Ok(InputEvent { event_type, code, value })
    }

    fn key_event(&mut self) -> (r: Result<KeyEvent, InputMapError>)
        requires
            old(self).offset <= old(self).bytes@.len(),
        ensures
            final(self).bytes@ == old(self).bytes@,
            final(self).offset <= final(self).bytes@.len(),
            match rd_frame(old(self).bytes@, old(self).offset as nat) {
                Ok((v, o)) => r matches Ok(x) && x@ == v && final(self).offset == o,
                Err(e) => r == Err::<KeyEvent, InputMapError>(e),
            },
    {
        let ghost start = self.offset as nat;
        let count = match self.length(MAX_SEQUENCE_ITEMS, "input event count") {
            Ok(v) => v,
            Err(e) => return Err(e),
        };
        let ghost s = self.bytes@;
        let ghost off0 = self.offset as nat;
        let mut events: Vec<InputEvent> = Vec::new();
        let mut i: usize = 0;
        while i < count
            invariant
                s == old(self).bytes@,
                start == old(self).offset,
                rd_frame(s, start) == rd_many(s, off0, count as nat, rd_event_fn()),
                i <= count,
                self.bytes@ == s,
                self.offset <= self.bytes@.len(),
                rd_many(s, off0, i as nat, rd_event_fn()) == Ok::<
                    (Seq<InputEvent>, nat),
                    InputMapError,
                >((events@, self.offset as nat)),
            decreases count - i,
        {
            match self.input_event() {
                Ok(e) => {
                    events.push(e);
                },
                Err(e) => {
                    proof {
                        assert(rd_many(s, off0, (i + 1) as nat, rd_event_fn()) == Err::<(Seq<InputEvent>, nat), InputMapError>(e));
                        lemma_many_err(s, off0, (i + 1) as nat, count as nat, rd_event_fn());
                    }
                    return Err(e);
                },
            }
            i = i + 1;
        }
        Ok(events)
    }

    fn event_sequence(&mut self) -> (r: Result<KeyEventSequence, InputMapError>)
        requires
            old(self).offset <= old(self).bytes@.len(),
        ensures
            final(self).bytes@ == old(self).bytes@,
            final(self).offset <= final(self).bytes@.len(),
            match rd_sequence(old(self).bytes@, old(self).offset as nat) {
                Ok((v, o)) => r matches Ok(x) && frames_view(x) == v && final(self).offset == o,
                Err(e) => r == Err::<KeyEventSequence, InputMapError>(e),
            },
    {
        let ghost start = self.offset as nat;
        let count = match self.length(MAX_SEQUENCE_ITEMS, "input sequence length") {
            Ok(v) => v,
            Err(e) => return Err(e),
        };
        let ghost s = self.bytes@;
        let ghost off0 = self.offset as nat;
        let mut frames: Vec<KeyEvent> = Vec::new();
        assert(frames_view(frames) =~= Seq::<Seq<InputEvent>>::empty());
        let mut i: usize = 0;
        while i < count
            invariant
                s == old(self).bytes@,
                start == old(self).offset,
                rd_sequence(s, start) == rd_many(s, off0, count as nat, rd_frame_fn()),
                i <= count,
                self.bytes@ == s,
                self.offset <= self.bytes@.len(),
                rd_many(s, off0, i as nat, rd_frame_fn()) == Ok::<
                    (Seq<Seq<InputEvent>>, nat),
                    InputMapError,
                >((frames_view(frames), self.offset as nat)),
            decreases count - i,
        {
            match self.key_event() {
                Ok(e) => {
                    let ghost before = frames_view(frames);
                    frames.push(e);
                    assert(frames_view(frames) =~= before.push(e@));
                },
                Err(e) => {
                    proof {
                        assert(rd_many(s, off0, (i + 1) as nat, rd_frame_fn()) == Err::<(Seq<Seq<InputEvent>>, nat), InputMapError>(e));
                        lemma_many_err(s, off0, (i + 1) as nat, count as nat, rd_frame_fn());
                    }
                    return Err(e);
                },
            }
            i = i + 1;
        }
        Ok(frames)
    }

    fn i32_vector(&mut self, field: &'static str) -> (r: Result<Vec<i32>, InputMapError>)
        requires
            old(self).offset <= old(self).bytes@.len(),
        ensures
            final(self).bytes@ == old(self).bytes@,
            final(self).offset <= final(self).bytes@.len(),
            match rd_i32s(old(self).bytes@, old(self).offset as nat, field) {
                Ok((v, o)) => r matches Ok(x) && x@ == v && final(self).offset == o,
                Err(e) => r == Err::<Vec<i32>, InputMapError>(e),
            },
    {
        let ghost start = self.offset as nat;
        let count = match self.length(MAX_SEQUENCE_ITEMS, field) {
            Ok(v) => v,
            Err(e) => return Err(e),
        };
        let ghost s = self.bytes@;
        let ghost off0 = self.offset as nat;
        let mut values: Vec<i32> = Vec::new();
        let mut i: usize = 0;
        while i < count
            invariant
                s == old(self).bytes@,
                start == old(self).offset,
                rd_i32s(s, start, field) == rd_many(s, off0, count as nat, rd_i32_fn()),
                i <= count,
                self.bytes@ == s,
                self.offset <= self.bytes@.len(),
                rd_many(s, off0, i as nat, rd_i32_fn()) == Ok::<(Seq<i32>, nat), InputMapError>(
                    (values@, self.offset as nat),
                ),
            decreases count - i,
        {
            match self.i32() {
                Ok(e) => {
                    values.push(e);
                },
                Err(e) => {
                    proof {
                        assert(rd_many(s, off0, (i + 1) as nat, rd_i32_fn()) == Err::<(Seq<i32>, nat), InputMapError>(e));
                        lemma_many_err(s, off0, (i + 1) as nat, count as nat, rd_i32_fn());
                    }
                    return Err(e);
                },
            }
            i = i + 1;
        }
        Ok(values)
    }

    fn u16_vector(&mut self, field: &'static str) -> (r: Result<Vec<u16>, InputMapError>)
        requires
            old(self).offset <= old(self).bytes@.len(),
        ensures
            final(self).bytes@ == old(self).bytes@,
            final(self).offset <= final(self).bytes@.len(),
            match rd_u16s(old(self).bytes@, old(self).offset as nat, field) {
                Ok((v, o)) => r matches Ok(x) && x@ == v && final(self).offset == o,
                Err(e) => r == Err::<Vec<u16>, InputMapError>(e),
            },
    {
        let ghost start = self.offset as nat;
        let count = match self.length(MAX_SEQUENCE_ITEMS, field) {
            Ok(v) => v,
            Err(e) => return Err(e),
        };
        let ghost s = self.bytes@;
        let ghost off0 = self.offset as nat;
        let mut values: Vec<u16> = Vec::new();
        let mut i: usize = 0;
        while i < count
            invariant
                s == old(self).bytes@,
                start == old(self).offset,
                rd_u16s(s, start, field) == rd_many(s, off0, count as nat, rd_u16_fn()),
                i <= count,
                self.bytes@ == s,
                self.offset <= self.bytes@.len(),
                rd_many(s, off0, i as nat, rd_u16_fn()) == Ok::<(Seq<u16>, nat), InputMapError>(
                    (values@, self.offset as nat),
                ),
            decreases count - i,
        {
            match self.u16() {
                Ok(e) => {
                    values.push(e);
                },
                Err(e) => {
                    proof {
                        assert(rd_many(s, off0, (i + 1) as nat, rd_u16_fn()) == Err::<(Seq<u16>, nat), InputMapError>(e));
                        lemma_many_err(s, off0, (i + 1) as nat, count as nat, rd_u16_fn());
                    }
                    return Err(e);
                },
            }
            i = i + 1;
        }
        Ok(values)
    }

    fn action(&mut self) -> (r: Result<MappedAction, InputMapError>)
        requires
            old(self).offset <= old(self).bytes@.len(),
        ensures
            final(self).bytes@ == old(self).bytes@,
            final(self).offset <= final(self).bytes@.len(),
            match rd_action(old(self).bytes@, old(self).offset as nat) {
                Ok((v, o)) => r matches Ok(x) && x@ == v && final(self).offset == o,
                Err(e) => r == Err::<MappedAction, InputMapError>(e),
            },
    {
        let action = match self.i32() {
            Ok(v) => v,
            Err(e) => return Err(e),
        };
        if action == 1 {
            let qt_keys = match self.i32_vector("Qt key count") {
                Ok(v) => v,
                Err(e) => return Err(e),
            };
            let native_sequence = match self.event_sequence() {
                Ok(v) => v,
                Err(e) => return Err(e),
            };
            let native_modifiers = match self.u16_vector("native modifier count") {
                Ok(v) => v,
                Err(e) => return Err(e),
            };
            return Ok(
                MappedAction::KeySequence(
                    NativeKeySequence { qt_keys, native_sequence, native_modifiers },
                ),
            );
        }
        let result = if action == 2 {
            MappedAction::CyclePresets
        } else if action == 3 {
            MappedAction::ToggleSpotlight
        } else if action == 11 {
            MappedAction::ScrollHorizontal
        } else if action == 12 {
            MappedAction::ScrollVertical
        } else if action == 13 {
            MappedAction::VolumeControl
        } else {
            return Err(InputMapError::InvalidAction(action));
        };
        match self.u8() {
            Ok(_) => Ok(result),
            Err(e) => Err(e),
        }
    }

    fn mapping(&mut self) -> (r: Result<InputMapping, InputMapError>)
        requires
            old(self).offset <= old(self).bytes@.len(),
        ensures
            final(self).bytes@ == old(self).bytes@,
            final(self).offset <= final(self).bytes@.len(),
            match rd_mapping(old(self).bytes@, old(self).offset as nat) {
                Ok((v, o)) => r matches Ok(x) && x@ == v && final(self).offset == o,
                Err(e) => r == Err::<InputMapping, InputMapError>(e),
            },
    {
        let input = match self.event_sequence() {
            Ok(v) => v,
            Err(e) => return Err(e),
        };
        let action = match self.action() {
            Ok(v) => v,
            Err(e) => return Err(e),
        };
        Ok(InputMapping { input, action })
    }
}

impl InputMapConfig {
    /// Decode the `QDataStream::Qt_6_0` payload written by the Projecteur desktop application.
    ///
    /// Fails for an unsupported version, an invalid action number, a
    /// collection larger than its limit, a truncated field, or trailing data.
    pub fn from_qt_bytes(bytes: &[u8]) -> (r: Result<InputMapConfig, InputMapError>)
        ensures
            match rd_config(bytes@) {
                Ok(ms) => r matches Ok(c) && c@ == ms,
                Err(e) => r == Err::<InputMapConfig, InputMapError>(e),
            },
    {
        let mut reader = Reader { bytes, offset: 0 };
        let version = match reader.u32() {
            Ok(v) => v,
            Err(e) => return Err(e),
        };
        if version != FORMAT_VERSION {
            return Err(InputMapError::UnsupportedVersion(version));
        }
        let count = match reader.length(MAX_MAPPINGS, "mapping count") {
            Ok(v) => v,
            Err(e) => return Err(e),
        };
        let ghost s = bytes@;
        let ghost off0 = reader.offset as nat;
        let mut mappings: Vec<InputMapping> = Vec::new();
        assert(mappings_view(mappings) =~= Seq::<SpecMapping>::empty());
        let mut i: usize = 0;
        while i < count
            invariant
                i <= count,
                reader.bytes@ == s,
                s == bytes@,
                reader.offset <= reader.bytes@.len(),
                rd_config(s) == match rd_many(s, off0, count as nat, rd_mapping_fn()) {
                    Ok((ms, o3)) => if o3 != s.len() {
                        Err(InputMapError::TrailingData((s.len() - o3) as usize))
                    } else {
                        Ok(ms)
                    },
                    Err(e) => Err(e),
                },
                rd_many(s, off0, i as nat, rd_mapping_fn()) == Ok::<
                    (Seq<SpecMapping>, nat),
                    InputMapError,
                >((mappings_view(mappings), reader.offset as nat)),
            decreases count - i,
        {
            match reader.mapping() {
                Ok(m) => {
                    let ghost before = mappings_view(mappings);
                    mappings.push(m);
                    assert(mappings_view(mappings) =~= before.push(m@));
                },
                Err(e) => {
                    proof {
                        lemma_many_err(s, off0, (i + 1) as nat, count as nat, rd_mapping_fn());
                    }
                    return Err(e);
                },
            }
            i = i + 1;
        }
        if reader.offset != bytes.len() {
            return Err(InputMapError::TrailingData(bytes.len() - reader.offset));
        }
        Ok(InputMapConfig { mappings })
    }

    /// Encode exactly the `QDataStream::Qt_6_0` layout used by the Projecteur desktop application.
    pub fn to_qt_bytes(&self) -> (bytes: Vec<u8>)
        requires
            config_fits(self@),
        ensures
            bytes@ == enc_config(self@),
    {
        let ghost ms = self@;
        let mut writer = Writer { bytes: Vec::new() };
        writer.u32(FORMAT_VERSION);
        writer.length(self.mappings.len());
        let ghost start = writer.bytes@;
        let mut i: usize = 0;
        while i < self.mappings.len()
            invariant
                i <= self.mappings@.len(),
                ms == self@,
                config_fits(ms),
                writer.bytes@ == start + concat_map(ms.take(i as int), enc_mapping_fn()),
            decreases self.mappings@.len() - i,
        {
            let mapping = &self.mappings[i];
            proof {
                assert(ms.take(i + 1) =~= ms.take(i as int).push(ms[i as int]));
                lemma_concat_map_push(ms.take(i as int), ms[i as int], enc_mapping_fn());
                assert(mapping_fits(ms[i as int]));
                assert(ms[i as int] == mapping@);
            }
            let ghost before = writer.bytes@;
            writer.event_sequence(&mapping.input);
            writer.action(&mapping.action);
            assert(writer.bytes@ =~= before + enc_mapping(mapping@));
            i = i + 1;
            assert(writer.bytes@ =~= start + concat_map(ms.take(i as int), enc_mapping_fn()));
        }
        assert(ms.take(i as int) =~= ms);
        assert(writer.bytes@ =~= enc_config(ms));
        writer.bytes
    }
}

} // verus!

verus! {

// ---------------------------------------------------------------------------
// Laws relating the decoder and the encoder.
// ---------------------------------------------------------------------------

/// `bytes` stands in `s` at position `off`.
pub open spec fn at(s: Seq<u8>, off: nat, bytes: Seq<u8>) -> bool {
    off + bytes.len() <= s.len() && s.subrange(off as int, off as int + bytes.len()) == bytes
}

/// Every collection respects the limits that the decoder enforces.
pub open spec fn frame_ok(f: Seq<InputEvent>) -> bool {
    f.len() <= MAX_SEQUENCE_ITEMS
}

pub open spec fn sequence_ok(s: Seq<Seq<InputEvent>>) -> bool {
    s.len() <= MAX_SEQUENCE_ITEMS && forall|i: int| 0 <= i < s.len() ==> #[trigger] frame_ok(s[i])
}

pub open spec fn action_ok(a: SpecAction) -> bool {
    match a {
        SpecAction::KeySequence(k) => k.qt_keys.len() <= MAX_SEQUENCE_ITEMS && sequence_ok(
            k.native_sequence,
        ) && k.native_modifiers.len() <= MAX_SEQUENCE_ITEMS,
        _ => true,
    }
}

pub open spec fn mapping_ok(m: SpecMapping) -> bool {
    sequence_ok(m.input) && action_ok(m.action)
}

/// A configuration that the decoder accepts back: at most [`MAX_MAPPINGS`]
/// mappings and at most [`MAX_SEQUENCE_ITEMS`] elements in every other list.
pub open spec fn config_ok(ms: Seq<SpecMapping>) -> bool {
    ms.len() <= MAX_MAPPINGS && forall|i: int| 0 <= i < ms.len() ==> #[trigger] mapping_ok(ms[i])
}

proof fn lemma_at_split(s: Seq<u8>, off: nat, a: Seq<u8>, b: Seq<u8>)
    requires
        at(s, off, a + b),
    ensures
        at(s, off, a),
        at(s, off + a.len(), b),
{
    assert(s.subrange(off as int, off as int + a.len()) =~= (a + b).subrange(0, a.len() as int));
    assert((a + b).subrange(0, a.len() as int) =~= a);
    assert(s.subrange(off as int + a.len(), off as int + a.len() + b.len()) =~= (a + b).subrange(
        a.len() as int,
        (a.len() + b.len()) as int,
    ));
    assert((a + b).subrange(a.len() as int, (a.len() + b.len()) as int) =~= b);
}

proof fn lemma_at_index(s: Seq<u8>, off: nat, b: Seq<u8>, i: int)
    requires
        at(s, off, b),
        0 <= i < b.len(),
    ensures
        s[off + i] == b[i],
{
    assert(s.subrange(off as int, off as int + b.len())[i] == b[i]);
}

proof fn lemma_be16_bytes(v: u16)
    ensures
        ((v / 256) as u8) * 256 + ((v % 256) as u8) == v,
{
}

proof fn lemma_be32_bytes(v: u32)
    ensures
        ((v / 16777216) as u8) * 16777216 + (((v / 65536) % 256) as u8) * 65536 + (((v / 256)
            % 256) as u8) * 256 + ((v % 256) as u8) == v,
{
    assert(((v / 16777216) as u8) == v / 16777216) by (bit_vector);
    assert((((v / 65536) % 256) as u8) == (v / 65536) % 256) by (bit_vector);
    assert((((v / 256) % 256) as u8) == (v / 256) % 256) by (bit_vector);
    assert(((v % 256) as u8) == v % 256) by (bit_vector);
    assert((v / 16777216) * 16777216 + ((v / 65536) % 256) * 65536 + ((v / 256) % 256) * 256 + (v
        % 256) == v) by (bit_vector);
}

proof fn lemma_i32_u32(v: i32)
    ensures
        (v as u32) as i32 == v,
{
    assert((v as u32) as i32 == v) by (bit_vector);
}

proof fn lemma_rd_u8(s: Seq<u8>, off: nat, v: u8)
    requires
        at(s, off, seq![v]),
    ensures
        rd_u8(s, off) == Ok::<(u8, nat), InputMapError>((v, off + 1)),
{
    lemma_at_index(s, off, seq![v], 0);
}

proof fn lemma_rd_u16(s: Seq<u8>, off: nat, v: u16)
    requires
        at(s, off, be16(v)),
    ensures
        rd_u16(s, off) == Ok::<(u16, nat), InputMapError>((v, off + 2)),
{
    lemma_at_index(s, off, be16(v), 0);
    lemma_at_index(s, off, be16(v), 1);
    lemma_be16_bytes(v);
}

proof fn lemma_rd_u32(s: Seq<u8>, off: nat, v: u32)
    requires
        at(s, off, be32(v)),
    ensures
        rd_u32(s, off) == Ok::<(u32, nat), InputMapError>((v, off + 4)),
{
    lemma_at_index(s, off, be32(v), 0);
    lemma_at_index(s, off, be32(v), 1);
    lemma_at_index(s, off, be32(v), 2);
    lemma_at_index(s, off, be32(v), 3);
    lemma_be32_bytes(v);
}

proof fn lemma_rd_i32(s: Seq<u8>, off: nat, v: i32)
    requires
        at(s, off, be_i32(v)),
    ensures
        rd_i32(s, off) == Ok::<(i32, nat), InputMapError>((v, off + 4)),
{
    lemma_rd_u32(s, off, v as u32);
    lemma_i32_u32(v);
}

proof fn lemma_rd_len(s: Seq<u8>, off: nat, n: nat, limit: nat, field: &'static str)
    requires
        n <= limit,
        n <= u32::MAX,
        at(s, off, len32(n)),
    ensures
        rd_len(s, off, limit, field) == Ok::<(nat, nat), InputMapError>((n, off + 4)),
{
    lemma_rd_u32(s, off, n as u32);
}

proof fn lemma_rd_event(s: Seq<u8>, off: nat, e: InputEvent)
    requires
        at(s, off, enc_event(e)),
    ensures
        rd_event(s, off) == Ok::<(InputEvent, nat), InputMapError>((e, off + 8)),
{
    lemma_at_split(s, off, be16(e.event_type) + be16(e.code), be_i32(e.value));
    lemma_at_split(s, off, be16(e.event_type), be16(e.code));
    lemma_rd_u16(s, off, e.event_type);
    lemma_rd_u16(s, off + 2, e.code);
    lemma_rd_i32(s, off + 4, e.value);
}

/// Reading back the concatenated encodings of `xs` gives `xs`, when reading
/// back each encoding gives its element.
proof fn lemma_rd_many<T>(
    s: Seq<u8>,
    off: nat,
    xs: Seq<T>,
    rd: spec_fn(Seq<u8>, nat) -> Result<(T, nat), InputMapError>,
    enc: spec_fn(T) -> Seq<u8>,
    ok: spec_fn(T) -> bool,
)
    requires
        at(s, off, concat_map(xs, enc)),
        forall|i: int| 0 <= i < xs.len() ==> #[trigger] ok(xs[i]),
        forall|o: nat, x: T|
            #![trigger at(s, o, enc(x)), ok(x)]
            ok(x) && at(s, o, enc(x)) ==> rd(s, o) == Ok::<(T, nat), InputMapError>(
                (x, o + enc(x).len()),
            ),
    ensures
        rd_many(s, off, xs.len(), rd) == Ok::<(Seq<T>, nat), InputMapError>(
            (xs, off + concat_map(xs, enc).len()),
        ),
    decreases xs.len(),
{
    if xs.len() > 0 {
        let init = xs.drop_last();
        let last = xs.last();
        lemma_at_split(s, off, concat_map(init, enc), enc(last));
        assert forall|i: int| 0 <= i < init.len() implies #[trigger] ok(init[i]) by {
            assert(init[i] == xs[i]);
        }
        lemma_rd_many(s, off, init, rd, enc, ok);
        assert(ok(xs[xs.len() - 1]));
        assert(ok(last));
        let o = off + concat_map(init, enc).len();
        assert(at(s, o, enc(last)));
        assert(rd(s, o) == Ok::<(T, nat), InputMapError>((last, o + enc(last).len())));
        assert(init.len() == (xs.len() - 1) as nat);
        assert(init.push(last) =~= xs);
        assert(concat_map(xs, enc) == concat_map(init, enc) + enc(last));
        assert(rd_many(s, off, (xs.len() - 1) as nat, rd) == Ok::<(Seq<T>, nat), InputMapError>(
            (init, o),
        ));
    } else {
        assert(xs =~= Seq::<T>::empty());
    }
}

proof fn lemma_rd_frame(s: Seq<u8>, off: nat, f: Seq<InputEvent>)
    requires
        frame_ok(f),
        at(s, off, enc_frame(f)),
    ensures
        rd_frame(s, off) == Ok::<(Seq<InputEvent>, nat), InputMapError>(
            (f, off + enc_frame(f).len()),
        ),
{
    lemma_at_split(s, off, len32(f.len()), concat_map(f, enc_event_fn()));
    lemma_rd_len(s, off, f.len(), MAX_SEQUENCE_ITEMS as nat, "input event count");
    let ok = |e: InputEvent| true;
    assert forall|o: nat, x: InputEvent|
        #![trigger at(s, o, enc_event_fn()(x)), ok(x)]
        ok(x) && at(s, o, enc_event_fn()(x)) implies rd_event_fn()(s, o) == Ok::<
        (InputEvent, nat),
        InputMapError,
    >((x, o + enc_event_fn()(x).len())) by {
        lemma_rd_event(s, o, x);
    }
    lemma_rd_many(s, off + 4, f, rd_event_fn(), enc_event_fn(), ok);
}

proof fn lemma_rd_sequence(s: Seq<u8>, off: nat, q: Seq<Seq<InputEvent>>)
    requires
        sequence_ok(q),
        at(s, off, enc_sequence(q)),
    ensures
        rd_sequence(s, off) == Ok::<(Seq<Seq<InputEvent>>, nat), InputMapError>(
            (q, off + enc_sequence(q).len()),
        ),
{
    lemma_at_split(s, off, len32(q.len()), concat_map(q, enc_frame_fn()));
    lemma_rd_len(s, off, q.len(), MAX_SEQUENCE_ITEMS as nat, "input sequence length");
    let ok = |f: Seq<InputEvent>| frame_ok(f);
    assert forall|o: nat, x: Seq<InputEvent>|
        #![trigger at(s, o, enc_frame_fn()(x)), ok(x)]
        ok(x) && at(s, o, enc_frame_fn()(x)) implies rd_frame_fn()(s, o) == Ok::<
        (Seq<InputEvent>, nat),
        InputMapError,
    >((x, o + enc_frame_fn()(x).len())) by {
        lemma_rd_frame(s, o, x);
    }
    assert forall|i: int| 0 <= i < q.len() implies #[trigger] ok(q[i]) by {
        assert(frame_ok(q[i]));
    }
    lemma_rd_many(s, off + 4, q, rd_frame_fn(), enc_frame_fn(), ok);
}

proof fn lemma_rd_i32s(s: Seq<u8>, off: nat, v: Seq<i32>, field: &'static str)
    requires
        v.len() <= MAX_SEQUENCE_ITEMS,
        at(s, off, enc_i32s(v)),
    ensures
        rd_i32s(s, off, field) == Ok::<(Seq<i32>, nat), InputMapError>(
            (v, off + enc_i32s(v).len()),
        ),
{
    lemma_at_split(s, off, len32(v.len()), concat_map(v, enc_i32_fn()));
    lemma_rd_len(s, off, v.len(), MAX_SEQUENCE_ITEMS as nat, field);
    let ok = |x: i32| true;
    assert forall|o: nat, x: i32|
        #![trigger at(s, o, enc_i32_fn()(x)), ok(x)]
        ok(x) && at(s, o, enc_i32_fn()(x)) implies rd_i32_fn()(s, o) == Ok::<(i32, nat), InputMapError>(
        (x, o + enc_i32_fn()(x).len()),
    ) by {
        lemma_rd_i32(s, o, x);
    }
    lemma_rd_many(s, off + 4, v, rd_i32_fn(), enc_i32_fn(), ok);
}

proof fn lemma_rd_u16s(s: Seq<u8>, off: nat, v: Seq<u16>, field: &'static str)
    requires
        v.len() <= MAX_SEQUENCE_ITEMS,
        at(s, off, enc_u16s(v)),
    ensures
        rd_u16s(s, off, field) == Ok::<(Seq<u16>, nat), InputMapError>(
            (v, off + enc_u16s(v).len()),
        ),
{
    lemma_at_split(s, off, len32(v.len()), concat_map(v, enc_u16_fn()));
    lemma_rd_len(s, off, v.len(), MAX_SEQUENCE_ITEMS as nat, field);
    let ok = |x: u16| true;
    assert forall|o: nat, x: u16|
        #![trigger at(s, o, enc_u16_fn()(x)), ok(x)]
        ok(x) && at(s, o, enc_u16_fn()(x)) implies rd_u16_fn()(s, o) == Ok::<(u16, nat), InputMapError>(
        (x, o + enc_u16_fn()(x).len()),
    ) by {
        lemma_rd_u16(s, o, x);
    }
    lemma_rd_many(s, off + 4, v, rd_u16_fn(), enc_u16_fn(), ok);
}

proof fn lemma_rd_action(s: Seq<u8>, off: nat, a: SpecAction)
    requires
        action_ok(a),
        at(s, off, enc_action(a)),
    ensures
        rd_action(s, off) == Ok::<(SpecAction, nat), InputMapError>(
            (a, off + enc_action(a).len()),
        ),
{
    let head = be_i32(spec_type_id(a));
    let rest = match a {
        SpecAction::KeySequence(k) => enc_i32s(k.qt_keys) + enc_sequence(k.native_sequence)
            + enc_u16s(k.native_modifiers),
        _ => seq![0u8],
    };
    assert(enc_action(a) == head + rest);
    lemma_at_split(s, off, head, rest);
    lemma_rd_i32(s, off, spec_type_id(a));
    match a {
        SpecAction::KeySequence(k) => {
            let p1 = enc_i32s(k.qt_keys);
            let p2 = enc_sequence(k.native_sequence);
            let p3 = enc_u16s(k.native_modifiers);
            lemma_at_split(s, off + 4, p1 + p2, p3);
            lemma_at_split(s, off + 4, p1, p2);
            lemma_rd_i32s(s, off + 4, k.qt_keys, "Qt key count");
            lemma_rd_sequence(s, off + 4 + p1.len(), k.native_sequence);
            lemma_rd_u16s(s, off + 4 + p1.len() + p2.len(), k.native_modifiers, "native modifier count");
        },
        _ => {
            lemma_rd_u8(s, off + 4, 0u8);
        },
    }
}

proof fn lemma_rd_mapping(s: Seq<u8>, off: nat, m: SpecMapping)
    requires
        mapping_ok(m),
        at(s, off, enc_mapping(m)),
    ensures
        rd_mapping(s, off) == Ok::<(SpecMapping, nat), InputMapError>(
            (m, off + enc_mapping(m).len()),
        ),
{
    lemma_at_split(s, off, enc_sequence(m.input), enc_action(m.action));
    lemma_rd_sequence(s, off, m.input);
    lemma_rd_action(s, off + enc_sequence(m.input).len(), m.action);
}

proof fn lemma_rd_mappings(s: Seq<u8>, off: nat, ms: Seq<SpecMapping>)
    requires
        forall|i: int| 0 <= i < ms.len() ==> #[trigger] mapping_ok(ms[i]),
        at(s, off, concat_map(ms, enc_mapping_fn())),
    ensures
        rd_many(s, off, ms.len(), rd_mapping_fn()) == Ok::<(Seq<SpecMapping>, nat), InputMapError>(
            (ms, off + concat_map(ms, enc_mapping_fn()).len()),
        ),
{
    let ok = |m: SpecMapping| mapping_ok(m);
    assert forall|o: nat, x: SpecMapping|
        #![trigger at(s, o, enc_mapping_fn()(x)), ok(x)]
        ok(x) && at(s, o, enc_mapping_fn()(x)) implies rd_mapping_fn()(s, o) == Ok::<
        (SpecMapping, nat),
        InputMapError,
    >((x, o + enc_mapping_fn()(x).len())) by {
        lemma_rd_mapping(s, o, x);
    }
    assert forall|i: int| 0 <= i < ms.len() implies #[trigger] ok(ms[i]) by {
        assert(mapping_ok(ms[i]));
    }
    lemma_rd_many(s, off, ms, rd_mapping_fn(), enc_mapping_fn(), ok);
}

/// Decoding the encoding of a configuration gives the configuration back,
/// for every configuration within the limits that the decoder enforces.
#[verifier::rlimit(60)]
pub proof fn lemma_decode_encode(ms: Seq<SpecMapping>)
    requires
        config_ok(ms),
    ensures
        rd_config(enc_config(ms)) == Ok::<Seq<SpecMapping>, InputMapError>(ms),
{
    let s = enc_config(ms);
    let head = be32(FORMAT_VERSION) + len32(ms.len());
    let body = concat_map(ms, enc_mapping_fn());
    assert(s == head + body);
    assert(at(s, 0, s)) by {
        assert(s.subrange(0, s.len() as int) =~= s);
    }
    lemma_at_split(s, 0, head, body);
    lemma_at_split(s, 0, be32(FORMAT_VERSION), len32(ms.len()));
    lemma_rd_u32(s, 0, FORMAT_VERSION);
    lemma_rd_len(s, 4, ms.len(), MAX_MAPPINGS as nat, "mapping count");
    lemma_rd_mappings(s, 8, ms);
    assert(8 + body.len() == s.len());
}

/// What `rd_many` reads has `n` elements, each satisfying `ok` when that holds
/// of every element that `rd` reads.
proof fn lemma_rd_many_ok<T>(
    s: Seq<u8>,
    off: nat,
    n: nat,
    rd: spec_fn(Seq<u8>, nat) -> Result<(T, nat), InputMapError>,
    ok: spec_fn(T) -> bool,
)
    requires
        forall|o: nat| #![trigger rd(s, o)] rd(s, o) matches Ok((x, o2)) ==> ok(x),
    ensures
        rd_many(s, off, n, rd) matches Ok((xs, o)) ==> xs.len() == n && forall|i: int|
            0 <= i < xs.len() ==> #[trigger] ok(xs[i]),
    decreases n,
{
    if n > 0 {
        lemma_rd_many_ok(s, off, (n - 1) as nat, rd, ok);
        if let Ok((xs, o)) = rd_many(s, off, n, rd) {
            if let Ok((init, o1)) = rd_many(s, off, (n - 1) as nat, rd) {
                if let Ok((x, o2)) = rd(s, o1) {
                    assert(xs == init.push(x));
                    assert forall|i: int| 0 <= i < xs.len() implies #[trigger] ok(xs[i]) by {
                        if i < init.len() {
                            assert(xs[i] == init[i]);
                        }
                    }
                }
            }
        }
    }
}

proof fn lemma_rd_sequence_ok(s: Seq<u8>, off: nat)
    ensures
        rd_sequence(s, off) matches Ok((q, o)) ==> sequence_ok(q),
{
    if let Ok((n, o)) = rd_len(s, off, MAX_SEQUENCE_ITEMS as nat, "input sequence length") {
        assert forall|o: nat| #![trigger rd_frame_fn()(s, o)]
            (rd_frame_fn()(s, o) matches Ok((x, o2)) ==> frame_ok(x)) by {
            if let Ok((m, o4)) = rd_len(s, o, MAX_SEQUENCE_ITEMS as nat, "input event count") {
                lemma_rd_many_ok(s, o4, m, rd_event_fn(), |e: InputEvent| true);
            }
        }
        let ok = |f: Seq<InputEvent>| frame_ok(f);
        lemma_rd_many_ok(s, o, n, rd_frame_fn(), ok);
        if let Ok((q, o2)) = rd_sequence(s, off) {
            assert forall|i: int| 0 <= i < q.len() implies #[trigger] frame_ok(q[i]) by {
                assert(ok(q[i]));
            }
        }
    }
}

proof fn lemma_rd_action_ok(s: Seq<u8>, off: nat)
    ensures
        rd_action(s, off) matches Ok((a, o)) ==> action_ok(a),
{
    if let Ok((t, o)) = rd_i32(s, off) {
        if t == 1 {
            if let Ok((k, o1)) = rd_i32s(s, o, "Qt key count") {
                if let Ok((n, o5)) = rd_len(s, o, MAX_SEQUENCE_ITEMS as nat, "Qt key count") {
                    lemma_rd_many_ok(s, o5, n, rd_i32_fn(), |x: i32| true);
                }
                lemma_rd_sequence_ok(s, o1);
                if let Ok((ns, o2)) = rd_sequence(s, o1) {
                    if let Ok((n, o6)) = rd_len(
                        s,
                        o2,
                        MAX_SEQUENCE_ITEMS as nat,
                        "native modifier count",
                    ) {
                        lemma_rd_many_ok(s, o6, n, rd_u16_fn(), |x: u16| true);
                    }
                }
            }
        }
    }
}

proof fn lemma_rd_config_ok(s: Seq<u8>)
    ensures
        rd_config(s) matches Ok(ms) ==> config_ok(ms),
{
    if let Ok((v, o)) = rd_u32(s, 0) {
        if let Ok((n, o2)) = rd_len(s, o, MAX_MAPPINGS as nat, "mapping count") {
            assert forall|o: nat| #![trigger rd_mapping_fn()(s, o)]
                (rd_mapping_fn()(s, o) matches Ok((x, o3)) ==> mapping_ok(x)) by {
                lemma_rd_sequence_ok(s, o);
                if let Ok((input, o1)) = rd_sequence(s, o) {
                    lemma_rd_action_ok(s, o1);
                }
            }
            let ok = |m: SpecMapping| mapping_ok(m);
            lemma_rd_many_ok(s, o2, n, rd_mapping_fn(), ok);
            if let Ok(ms) = rd_config(s) {
                assert forall|i: int| 0 <= i < ms.len() implies #[trigger] mapping_ok(ms[i]) by {
                    assert(ok(ms[i]));
                }
            }
        }
    }
}

/// Every configuration that the decoder accepts is within its limits, so
/// encoding it and decoding again gives the same configuration.
pub proof fn lemma_decoded_config_ok(s: Seq<u8>)
    ensures
        rd_config(s) matches Ok(ms) ==> config_ok(ms) && rd_config(enc_config(ms)) == Ok::<
            Seq<SpecMapping>,
            InputMapError,
        >(ms),
{
    lemma_rd_config_ok(s);
    if let Ok(ms) = rd_config(s) {
        lemma_decode_encode(ms);
    }
}

/// Every configuration within the decoder's limits can be encoded.
pub proof fn lemma_config_ok_fits(ms: Seq<SpecMapping>)
    requires
        config_ok(ms),
    ensures
        config_fits(ms),
{
    assert forall|i: int| 0 <= i < ms.len() implies #[trigger] mapping_fits(ms[i]) by {
        assert(mapping_ok(ms[i]));
        let m = ms[i];
        assert forall|k: int| 0 <= k < m.input.len() implies #[trigger] m.input[k].len()
            <= u32::MAX by {
            assert(frame_ok(m.input[k]));
        }
        match m.action {
            SpecAction::KeySequence(key) => {
                assert forall|k: int| 0 <= k < key.native_sequence.len() implies #[trigger] key.native_sequence[k].len()
                    <= u32::MAX by {
                    assert(frame_ok(key.native_sequence[k]));
                }
            },
            _ => {},
        }
    }
}

impl InputMapConfig {
    /// Decode a complete `KConfig` `@ByteArray(...)` value.
    ///
    /// Fails when the wrapper or an escape sequence is malformed, or when the
    /// decoded Qt stream is invalid.
    pub fn from_kconfig_value(value: &str) -> (r: Result<InputMapConfig, InputMapError>)
        ensures
            match kdecode(value.spec_bytes()) {
                Err(e) => r == Err::<InputMapConfig, InputMapError>(e),
                Ok(b) => match rd_config(b) {
                    Ok(ms) => r matches Ok(c) && c@ == ms,
                    Err(e) => r == Err::<InputMapConfig, InputMapError>(e),
                },
            },
    {
        let bytes = match decode_kconfig_byte_array(value) {
            Ok(b) => b,
            Err(e) => return Err(e),
        };
        InputMapConfig::from_qt_bytes(bytes.as_slice())
    }

    /// Encode a value suitable for `inputMapConfigData` in `projecteurrc`.
    pub fn to_kconfig_value(&self) -> (s: String)
        requires
            config_fits(self@),
        ensures
            s@ == ascii_text(kencode_bytes(enc_config(self@))),
    {
        let bytes = self.to_qt_bytes();
        encode_kconfig_byte_array(bytes.as_slice())
    }

    /// Whether every count of this configuration fits the stream's 32-bit
    /// counts, which [`InputMapConfig::to_qt_bytes`] requires.
    pub fn fits_qt_stream(&self) -> (r: bool)
        ensures
            r == config_fits(self@),
    {
        let ghost ms = self@;
        if self.mappings.len() > 0xffff_ffff {
            return false;
        }
        let mut i: usize = 0;
        while i < self.mappings.len()
            invariant
                i <= self.mappings@.len(),
                ms == self@,
                ms.len() <= u32::MAX,
                forall|j: int| 0 <= j < i ==> #[trigger] mapping_fits(ms[j]),
            decreases self.mappings@.len() - i,
        {
            let m = &self.mappings[i];
            assert(m@ == ms[i as int]);
            if !frames_fit_exec(&m.input) {
                assert(!mapping_fits(ms[i as int]));
                return false;
            }
            match &m.action {
                MappedAction::KeySequence(k) => {
                    if k.qt_keys.len() > 0xffff_ffff || k.native_modifiers.len() > 0xffff_ffff
                        || !frames_fit_exec(&k.native_sequence) {
                        assert(!mapping_fits(ms[i as int]));
                        return false;
                    }
                },
                _ => {},
            }
            i = i + 1;
        }
        true
    }
}

fn frames_fit_exec(v: &Vec<Vec<InputEvent>>) -> (r: bool)
    ensures
        r == frames_fit(frames_view(*v)),
{
    if v.len() > 0xffff_ffff {
        return false;
    }
    let mut i: usize = 0;
    while i < v.len()
        invariant
            i <= v@.len(),
            v@.len() <= u32::MAX,
            forall|j: int| 0 <= j < i ==> #[trigger] frames_view(*v)[j].len() <= u32::MAX,
        decreases v@.len() - i,
    {
        if v[i].len() > 0xffff_ffff {
            assert(frames_view(*v)[i as int].len() > u32::MAX);
            return false;
        }
        i = i + 1;
    }
    true
}

/// Reading back the `KConfig` value written for a configuration gives the
/// configuration, for every configuration within the decoder's limits.
pub proof fn lemma_kconfig_value_roundtrip(ms: Seq<SpecMapping>)
    requires
        config_ok(ms),
    ensures
        kdecode(vstd::utf8::encode_utf8(ascii_text(kencode_bytes(enc_config(ms))))) == Ok::<
            Seq<u8>,
            InputMapError,
        >(enc_config(ms)),
        rd_config(enc_config(ms)) == Ok::<Seq<SpecMapping>, InputMapError>(ms),
{
    lemma_kconfig_decode_encode(enc_config(ms));
    lemma_decode_encode(ms);
}

} // verus!
