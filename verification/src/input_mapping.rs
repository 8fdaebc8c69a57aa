//! Presenter input-mapping data as the Projecteur desktop application stores
//! it, and the stateful prefix matcher that turns presenter input frames into actions.

use vstd::prelude::*;

use crate::input_event::{InputEvent, EV_KEY, EV_MSC, EV_SYN};
use crate::text::{decimal, push_decimal, push_signed_decimal, push_text, signed_decimal};

verus! {

/// Upper bound on the number of mappings accepted from a stream.
pub const MAX_MAPPINGS: usize = 1024;
/// Upper bound on any other collection accepted from a stream.
pub const MAX_SEQUENCE_ITEMS: usize = 4096;
/// `MSC_SCAN` code from `linux/input-event-codes.h`.
pub const MSC_SCAN: u16 = 4;
/// Left mouse button.
pub const BTN_LEFT: u16 = 0x110;
/// Middle mouse button.
pub const BTN_MIDDLE: u16 = 0x112;

/// One kernel input frame, without its trailing `SYN_REPORT` event.
pub type KeyEvent = Vec<InputEvent>;

/// A sequence of input frames used as the key of one mapping.
pub type KeyEventSequence = Vec<KeyEvent>;

/// The frames of a sequence, each as the sequence of its events.
pub open spec fn frames_view(v: Vec<Vec<InputEvent>>) -> Seq<Seq<InputEvent>> {
    Seq::new(v@.len(), |i: int| v@[i]@)
}

/// Native output key sequence stored by the desktop application's `NativeKeySequence` type.
#[derive(Clone, Debug, PartialEq, Eq)]
pub struct NativeKeySequence {
    /// Qt key combinations used for display in the editor.
    pub qt_keys: Vec<i32>,
    /// Linux input frames emitted through the virtual keyboard.
    pub native_sequence: KeyEventSequence,
    /// `NativeKeySequence::Modifier` bit masks, one per key chord.
    pub native_modifiers: Vec<u16>,
}

/// Mathematical model of a [`NativeKeySequence`].
pub struct SpecKeySequence {
    pub qt_keys: Seq<i32>,
    pub native_sequence: Seq<Seq<InputEvent>>,
    pub native_modifiers: Seq<u16>,
}

impl View for NativeKeySequence {
    type V = SpecKeySequence;

    open spec fn view(&self) -> SpecKeySequence {
        SpecKeySequence {
            qt_keys: self.qt_keys@,
            native_sequence: frames_view(self.native_sequence),
            native_modifiers: self.native_modifiers@,
        }
    }
}

impl Default for NativeKeySequence {
    /// The empty key sequence.
    fn default() -> (k: NativeKeySequence)
        ensures
            k@ == (SpecKeySequence {
                qt_keys: Seq::empty(),
                native_sequence: Seq::empty(),
                native_modifiers: Seq::empty(),
            }),
    {
        let k = NativeKeySequence {
            qt_keys: Vec::new(),
            native_sequence: Vec::new(),
            native_modifiers: Vec::new(),
        };
        assert(frames_view(k.native_sequence) =~= Seq::<Seq<InputEvent>>::empty());
        k
    }
}

/// Action executed when its presenter input sequence matches.
#[derive(Clone, Debug, PartialEq, Eq)]
pub enum MappedAction {
    /// Emit a native keyboard sequence.
    KeySequence(NativeKeySequence),
    /// Select the next spotlight preset.
    CyclePresets,
    /// Toggle the spotlight overlay.
    ToggleSpotlight,
    /// Convert Spotlight hold motion to horizontal scrolling.
    ScrollHorizontal,
    /// Convert Spotlight hold motion to vertical scrolling.
    ScrollVertical,
    /// Convert Spotlight hold motion to volume adjustment.
    VolumeControl,
}

/// Mathematical model of a [`MappedAction`].
pub enum SpecAction {
    KeySequence(SpecKeySequence),
    CyclePresets,
    ToggleSpotlight,
    ScrollHorizontal,
    ScrollVertical,
    VolumeControl,
}

impl View for MappedAction {
    type V = SpecAction;

    open spec fn view(&self) -> SpecAction {
        match self {
            MappedAction::KeySequence(k) => SpecAction::KeySequence(k@),
            MappedAction::CyclePresets => SpecAction::CyclePresets,
            MappedAction::ToggleSpotlight => SpecAction::ToggleSpotlight,
            MappedAction::ScrollHorizontal => SpecAction::ScrollHorizontal,
            MappedAction::ScrollVertical => SpecAction::ScrollVertical,
            MappedAction::VolumeControl => SpecAction::VolumeControl,
        }
    }
}

/// Numeric value persisted for the desktop application's `Action::Type` enum.
pub open spec fn spec_type_id(a: SpecAction) -> i32 {
    match a {
        SpecAction::KeySequence(_) => 1,
        SpecAction::CyclePresets => 2,
        SpecAction::ToggleSpotlight => 3,
        SpecAction::ScrollHorizontal => 11,
        SpecAction::ScrollVertical => 12,
        SpecAction::VolumeControl => 13,
    }
}

impl MappedAction {
    /// Numeric value persisted for the desktop application's `Action::Type` enum.
    pub fn type_id(&self) -> (id: i32)
        ensures
            id == spec_type_id(self@),
    {
        match self {
            MappedAction::KeySequence(_) => 1,
            MappedAction::CyclePresets => 2,
            MappedAction::ToggleSpotlight => 3,
            MappedAction::ScrollHorizontal => 11,
            MappedAction::ScrollVertical => 12,
            MappedAction::VolumeControl => 13,
        }
    }
}

/// One input sequence and its mapped action.
#[derive(Clone, Debug, PartialEq, Eq)]
pub struct InputMapping {
    pub input: KeyEventSequence,
    pub action: MappedAction,
}

/// Mathematical model of an [`InputMapping`].
pub struct SpecMapping {
    pub input: Seq<Seq<InputEvent>>,
    pub action: SpecAction,
}

impl View for InputMapping {
    type V = SpecMapping;

    open spec fn view(&self) -> SpecMapping {
        SpecMapping { input: frames_view(self.input), action: self.action@ }
    }
}

/// Per-device input mapping configuration.
#[derive(Clone, Debug, Default, PartialEq, Eq)]
pub struct InputMapConfig {
    pub mappings: Vec<InputMapping>,
}

/// The mappings of a configuration, each by its model.
pub open spec fn mappings_view(v: Vec<InputMapping>) -> Seq<SpecMapping> {
    Seq::new(v@.len(), |i: int| v@[i]@)
}

impl View for InputMapConfig {
    type V = Seq<SpecMapping>;

    open spec fn view(&self) -> Seq<SpecMapping> {
        mappings_view(self.mappings)
    }
}

/// Input-map configuration or compatibility failure.
#[derive(Clone, Debug, PartialEq, Eq)]
pub enum InputMapError {
    InvalidByteArrayWrapper,
    InvalidEscape { offset: usize },
    UnexpectedEnd { offset: usize },
    UnsupportedVersion(u32),
    InvalidAction(i32),
    CollectionTooLarge { field: &'static str, size: u32 },
    TrailingData(usize),
    InvalidInputFrame,
}

/// The text of an input-map error.
pub open spec fn input_map_error_text(e: InputMapError) -> Seq<char> {
    match e {
        InputMapError::InvalidByteArrayWrapper => "expected a KConfig @ByteArray(...) value"@,
        InputMapError::InvalidEscape { offset } => "invalid KConfig byte-array escape at byte "@
            + decimal(offset as nat),
        InputMapError::UnexpectedEnd { offset } => "truncated Qt data stream at byte "@ + decimal(
            offset as nat,
        ),
        InputMapError::UnsupportedVersion(version) => "unsupported input-map format version "@
            + decimal(version as nat),
        InputMapError::InvalidAction(action) => "invalid input-map action "@ + signed_decimal(
            action as int,
        ),
        InputMapError::CollectionTooLarge { field, size } => "input-map "@ + field@
            + " is unreasonably large ("@ + decimal(size as nat) + ")"@,
        InputMapError::TrailingData(length) => "input-map stream has "@ + decimal(length as nat)
            + " trailing bytes"@,
        InputMapError::InvalidInputFrame => "input-mapping frame must contain events followed by SYN_REPORT"@,
    }
}

impl InputMapError {
    /// The error as a message.
    pub fn to_string(&self) -> (s: String)
        ensures
            s@ == input_map_error_text(*self),
    {
        let mut s = String::new();
        match self {
            InputMapError::InvalidByteArrayWrapper => push_text(
                &mut s,
                "expected a KConfig @ByteArray(...) value",
            ),
            InputMapError::InvalidEscape { offset } => {
                push_text(&mut s, "invalid KConfig byte-array escape at byte ");
                push_decimal(&mut s, *offset as u64);
            },
            InputMapError::UnexpectedEnd { offset } => {
                push_text(&mut s, "truncated Qt data stream at byte ");
                push_decimal(&mut s, *offset as u64);
            },
            InputMapError::UnsupportedVersion(version) => {
                push_text(&mut s, "unsupported input-map format version ");
                push_decimal(&mut s, *version as u64);
            },
            InputMapError::InvalidAction(action) => {
                push_text(&mut s, "invalid input-map action ");
                push_signed_decimal(&mut s, *action as i64);
            },
            InputMapError::CollectionTooLarge { field, size } => {
                push_text(&mut s, "input-map ");
                push_text(&mut s, field);
                push_text(&mut s, " is unreasonably large (");
                push_decimal(&mut s, *size as u64);
                push_text(&mut s, ")");
            },
            InputMapError::TrailingData(length) => {
                push_text(&mut s, "input-map stream has ");
                push_decimal(&mut s, *length as u64);
                push_text(&mut s, " trailing bytes");
            },
            InputMapError::InvalidInputFrame => push_text(
                &mut s,
                "input-mapping frame must contain events followed by SYN_REPORT",
            ),
        }
        s
    }
}

// ---------------------------------------------------------------------------
// Prefix matching of presenter input frames against the configured mappings.
// ---------------------------------------------------------------------------

/// Result produced after feeding one complete presenter input frame.
#[derive(Clone, Debug, PartialEq, Eq)]
pub enum MapperOutput {
    /// More frames may complete a configured sequence; wait for the interval.
    Pending,
    /// No mapping matched, so these physical events must be forwarded.
    Forward(Vec<InputEvent>),
    /// A complete configured action matched; physical events are consumed.
    Action(MappedAction),
    /// A complete mapping with an empty native key sequence consumed the input.
    Consumed,
}

/// Mathematical model of a [`MapperOutput`].
pub enum SpecOutput {
    Pending,
    Forward(Seq<InputEvent>),
    Action(SpecAction),
    Consumed,
}

impl View for MapperOutput {
    type V = SpecOutput;

    open spec fn view(&self) -> SpecOutput {
        match self {
            MapperOutput::Pending => SpecOutput::Pending,
            MapperOutput::Forward(v) => SpecOutput::Forward(v@),
            MapperOutput::Action(a) => SpecOutput::Action(a@),
            MapperOutput::Consumed => SpecOutput::Consumed,
        }
    }
}

/// Mathematical model of the matcher: its configuration, the frames of the
/// unresolved prefix, the physical events that produced them, and the action
/// of an exact match that a longer mapping still competes with.
pub struct SpecMapper {
    pub config: Seq<SpecMapping>,
    pub input: Seq<Seq<InputEvent>>,
    pub buffered: Seq<InputEvent>,
    pub partial: Option<SpecAction>,
}

/// `p` is a prefix of `s`.
pub open spec fn is_prefix(p: Seq<Seq<InputEvent>>, s: Seq<Seq<InputEvent>>) -> bool {
    p.len() <= s.len() && s.take(p.len() as int) == p
}

/// Some mapping's input starts with `input`.
pub open spec fn has_candidate(ms: Seq<SpecMapping>, input: Seq<Seq<InputEvent>>) -> bool {
    exists|i: int| 0 <= i < ms.len() && is_prefix(input, #[trigger] ms[i].input)
}

/// Some mapping's input starts with `input` and is longer than it.
pub open spec fn has_longer(ms: Seq<SpecMapping>, input: Seq<Seq<InputEvent>>) -> bool {
    exists|i: int|
        0 <= i < ms.len() && is_prefix(input, #[trigger] ms[i].input) && ms[i].input.len()
            > input.len()
}

/// The first mapping, from position `i` on, whose input is exactly `input`.
pub open spec fn find_exact_from(ms: Seq<SpecMapping>, input: Seq<Seq<InputEvent>>, i: nat) -> Option<
    int,
>
    decreases ms.len() - i,
{
    if i >= ms.len() {
        None
    } else if ms[i as int].input == input {
        Some(i as int)
    } else {
        find_exact_from(ms, input, i + 1)
    }
}

/// What a resolved action produces: a key sequence without native frames
/// consumes the input silently; any other action is reported.
pub open spec fn spec_action_output(a: SpecAction) -> SpecOutput {
    match a {
        SpecAction::KeySequence(k) => if k.native_sequence.len() == 0 {
            SpecOutput::Consumed
        } else {
            SpecOutput::Action(a)
        },
        _ => SpecOutput::Action(a),
    }
}

/// Some event of `frame` is not a synchronization event.
pub open spec fn has_non_sync(frame: Seq<InputEvent>) -> bool {
    exists|i: int| 0 <= i < frame.len() && #[trigger] frame[i].event_type != EV_SYN
}

/// A frame is complete when it ends in `SYN_REPORT` and holds an event that
/// is not a synchronization event; so at least one event precedes the
/// `SYN_REPORT`.
pub open spec fn valid_frame(frame: Seq<InputEvent>) -> bool {
    frame.len() >= 2 && frame.last().spec_is_sync_report() && has_non_sync(frame)
}

fn frame_has_non_sync(frame: &[InputEvent]) -> (r: bool)
    ensures
        r == has_non_sync(frame@),
{
    let mut i: usize = 0;
    while i < frame.len()
        invariant
            i <= frame@.len(),
            forall|j: int| 0 <= j < i ==> frame@[j].event_type == EV_SYN,
        decreases frame@.len() - i,
    {
        if frame[i].event_type != EV_SYN {
            assert(frame@[i as int].event_type != EV_SYN);
            return true;
        }
        i = i + 1;
    }
    false
}

/// A mouse-button frame carries a leading `MSC_SCAN` event, which is dropped
/// so that its mappings match those recorded without it.
pub open spec fn normalize_frame(frame: Seq<InputEvent>) -> Seq<InputEvent> {
    if frame.len() == 3 && frame[0].event_type == EV_MSC && frame[0].code == MSC_SCAN
        && frame[1].event_type == EV_KEY && BTN_LEFT <= frame[1].code <= BTN_MIDDLE {
        frame.drop_first()
    } else {
        frame
    }
}

pub open spec fn reset_state(st: SpecMapper) -> SpecMapper {
    SpecMapper { config: st.config, input: Seq::empty(), buffered: Seq::empty(), partial: None }
}

/// The matcher after one frame, and what it produces.
pub open spec fn spec_feed(st: SpecMapper, frame: Seq<InputEvent>) -> (
    SpecMapper,
    Result<SpecOutput, InputMapError>,
) {
    if !valid_frame(frame) {
        (st, Err(InputMapError::InvalidInputFrame))
    } else if st.config.len() == 0 {
        (st, Ok(SpecOutput::Forward(frame)))
    } else {
        let normalized = normalize_frame(frame);
        let input = st.input.push(normalized.drop_last());
        let buffered = st.buffered + normalized;
        if !has_candidate(st.config, input) {
            (reset_state(st), Ok(SpecOutput::Forward(buffered)))
        } else {
            match find_exact_from(st.config, input, 0) {
                Some(i) => if has_longer(st.config, input) {
                    (
                        SpecMapper {
                            config: st.config,
                            input,
                            buffered,
                            partial: Some(st.config[i].action),
                        },
                        Ok(SpecOutput::Pending),
                    )
                } else {
                    (reset_state(st), Ok(spec_action_output(st.config[i].action)))
                },
                None => (
                    SpecMapper { config: st.config, input, buffered, partial: None },
                    Ok(SpecOutput::Pending),
                ),
            }
        }
    }
}

/// The matcher after the sequence interval expired, and what it produces:
/// nothing when no prefix is pending; otherwise the action of a competing
/// exact match, or else the buffered physical events.
pub open spec fn spec_timeout(st: SpecMapper) -> (SpecMapper, Option<SpecOutput>) {
    if st.input.len() == 0 {
        (st, None)
    } else {
        (
            reset_state(st),
            Some(
                match st.partial {
                    Some(a) => spec_action_output(a),
                    None => SpecOutput::Forward(st.buffered),
                },
            ),
        )
    }
}

/// Stateful prefix matcher for one device's input mappings.
#[derive(Debug)]
pub struct InputMapper {
    config: InputMapConfig,
    input: KeyEventSequence,
    buffered: Vec<InputEvent>,
    partial_action: Option<MappedAction>,
}

impl View for InputMapper {
    type V = SpecMapper;

    closed spec fn view(&self) -> SpecMapper {
        SpecMapper {
            config: self.config@,
            input: frames_view(self.input),
            buffered: self.buffered@,
            partial: match self.partial_action {
                Some(a) => Some(a@),
                None => None,
            },
        }
    }
}

pub(crate) fn copy_events(v: &Vec<InputEvent>) -> (r: Vec<InputEvent>)
    ensures
        r@ == v@,
{
    let mut r: Vec<InputEvent> = Vec::new();
    let mut i: usize = 0;
    while i < v.len()
        invariant
            i <= v@.len(),
            r@ == v@.take(i as int),
        decreases v@.len() - i,
    {
        r.push(v[i]);
        i = i + 1;
        assert(r@ =~= v@.take(i as int));
    }
    assert(v@.take(i as int) =~= v@);
    r
}

pub(crate) fn copy_frames(v: &Vec<Vec<InputEvent>>) -> (r: Vec<Vec<InputEvent>>)
    ensures
        frames_view(r) == frames_view(*v),
{
    let mut r: Vec<Vec<InputEvent>> = Vec::new();
    let mut i: usize = 0;
    while i < v.len()
        invariant
            i <= v@.len(),
            frames_view(r) == frames_view(*v).take(i as int),
        decreases v@.len() - i,
    {
        let f = copy_events(&v[i]);
        let ghost before = frames_view(r);
        r.push(f);
        assert(frames_view(r) =~= before.push(f@));
        assert(frames_view(*v).take(i + 1) =~= frames_view(*v).take(i as int).push(v@[i as int]@));
        i = i + 1;
        assert(frames_view(r) =~= frames_view(*v).take(i as int));
    }
    assert(frames_view(*v).take(i as int) =~= frames_view(*v));
    r
}

pub(crate) fn copy_i32s(v: &Vec<i32>) -> (r: Vec<i32>)
    ensures
        r@ == v@,
{
    let mut r: Vec<i32> = Vec::new();
    let mut i: usize = 0;
    while i < v.len()
        invariant
            i <= v@.len(),
            r@ == v@.take(i as int),
        decreases v@.len() - i,
    {
        r.push(v[i]);
        i = i + 1;
        assert(r@ =~= v@.take(i as int));
    }
    assert(v@.take(i as int) =~= v@);
    r
}

pub(crate) fn copy_u16s(v: &Vec<u16>) -> (r: Vec<u16>)
    ensures
        r@ == v@,
{
    let mut r: Vec<u16> = Vec::new();
    let mut i: usize = 0;
    while i < v.len()
        invariant
            i <= v@.len(),
            r@ == v@.take(i as int),
        decreases v@.len() - i,
    {
        r.push(v[i]);
        i = i + 1;
        assert(r@ =~= v@.take(i as int));
    }
    assert(v@.take(i as int) =~= v@);
    r
}

/// A copy of an action with the same model.
pub fn copy_action(a: &MappedAction) -> (r: MappedAction)
    ensures
        r@ == a@,
{
    match a {
        MappedAction::KeySequence(k) => MappedAction::KeySequence(
            NativeKeySequence {
                qt_keys: copy_i32s(&k.qt_keys),
                native_sequence: copy_frames(&k.native_sequence),
                native_modifiers: copy_u16s(&k.native_modifiers),
            },
        ),
        MappedAction::CyclePresets => MappedAction::CyclePresets,
        MappedAction::ToggleSpotlight => MappedAction::ToggleSpotlight,
        MappedAction::ScrollHorizontal => MappedAction::ScrollHorizontal,
        MappedAction::ScrollVertical => MappedAction::ScrollVertical,
        MappedAction::VolumeControl => MappedAction::VolumeControl,
    }
}

pub(crate) fn events_equal(a: &Vec<InputEvent>, b: &Vec<InputEvent>) -> (r: bool)
    ensures
        r == (a@ == b@),
{
    if a.len() != b.len() {
        return false;
    }
    let mut i: usize = 0;
    while i < a.len()
        invariant
            i <= a@.len(),
            a@.len() == b@.len(),
            forall|j: int| 0 <= j < i ==> a@[j] == b@[j],
        decreases a@.len() - i,
    {
        if a[i] != b[i] {
            return false;
        }
        i = i + 1;
    }
    assert(a@ =~= b@);
    true
}

/// Whether `sequence` starts with `prefix`.
fn starts_with(sequence: &Vec<Vec<InputEvent>>, prefix: &Vec<Vec<InputEvent>>) -> (r: bool)
    ensures
        r == is_prefix(frames_view(*prefix), frames_view(*sequence)),
{
    let ghost p = frames_view(*prefix);
    let ghost q = frames_view(*sequence);
    if prefix.len() > sequence.len() {
        return false;
    }
    let mut i: usize = 0;
    while i < prefix.len()
        invariant
            i <= prefix@.len(),
            prefix@.len() <= sequence@.len(),
            p == frames_view(*prefix),
            q == frames_view(*sequence),
            forall|j: int| 0 <= j < i ==> q[j] == p[j],
        decreases prefix@.len() - i,
    {
        if !events_equal(&sequence[i], &prefix[i]) {
            assert(q.take(p.len() as int)[i as int] != p[i as int]);
            return false;
        }
        i = i + 1;
    }
    assert(q.take(p.len() as int) =~= p);
    true
}

/// What a resolved action produces.
pub fn action_output(action: MappedAction) -> (r: MapperOutput)
    ensures
        r@ == spec_action_output(action@),
{
    let consumed = match &action {
        MappedAction::KeySequence(sequence) => sequence.native_sequence.len() == 0,
        _ => false,
    };
    if consumed {
        MapperOutput::Consumed
    } else {
        MapperOutput::Action(action)
    }
}

/// Model of a feeding result.
pub open spec fn result_view(r: Result<MapperOutput, InputMapError>) -> Result<SpecOutput, InputMapError> {
    match r {
        Ok(o) => Ok(o@),
        Err(e) => Err(e),
    }
}

/// Model of a timeout result.
pub open spec fn option_view(r: Option<MapperOutput>) -> Option<SpecOutput> {
    match r {
        Some(o) => Some(o@),
        None => None,
    }
}

proof fn lemma_find_exact(ms: Seq<SpecMapping>, input: Seq<Seq<InputEvent>>, i: nat, k: int)
    requires
        i <= k <= ms.len(),
        forall|j: int| i <= j < k ==> ms[j].input != input,
    ensures
        k < ms.len() && ms[k].input == input ==> find_exact_from(ms, input, i) == Some(k),
        k == ms.len() ==> find_exact_from(ms, input, i) is None,
    decreases k - i,
{
    if i < k {
        lemma_find_exact(ms, input, i + 1, k);
    }
}

fn copy_config(c: &InputMapConfig) -> (r: InputMapConfig)
    ensures
        r@ == c@,
{
    let mut mappings: Vec<InputMapping> = Vec::new();
    let mut i: usize = 0;
    while i < c.mappings.len()
        invariant
            i <= c.mappings@.len(),
            mappings@.len() == i,
            forall|j: int| 0 <= j < i ==> #[trigger] mappings@[j]@ == c.mappings@[j]@,
        decreases c.mappings@.len() - i,
    {
        let m = &c.mappings[i];
        mappings.push(InputMapping { input: copy_frames(&m.input), action: copy_action(&m.action) });
        i = i + 1;
    }
    let r = InputMapConfig { mappings };
    assert(r@ =~= c@);
    r
}

impl Default for InputMapper {
    /// A matcher without mappings.
    fn default() -> (m: InputMapper)
        ensures
            m@ == (SpecMapper {
                config: Seq::empty(),
                input: Seq::empty(),
                buffered: Seq::empty(),
                partial: None,
            }),
    {
        let m = InputMapper {
            config: InputMapConfig { mappings: Vec::new() },
            input: Vec::new(),
            buffered: Vec::new(),
            partial_action: None,
        };
        assert(m@.config =~= Seq::<SpecMapping>::empty());
        assert(frames_view(m.input) =~= Seq::<Seq<InputEvent>>::empty());
        m
    }
}

impl Clone for InputMapper {
    fn clone(&self) -> (r: InputMapper)
        ensures
            r@ == self@,
    {
        proof {
            use_type_invariant(self);
        }
        InputMapper {
            config: copy_config(&self.config),
            input: copy_frames(&self.input),
            buffered: copy_events(&self.buffered),
            partial_action: match &self.partial_action {
                Some(a) => Some(copy_action(a)),
                None => None,
            },
        }
    }
}

impl InputMapper {
    /// Every matcher is consistent.
    #[verifier::type_invariant]
    closed spec fn consistent(self) -> bool {
        mapper_wf(self@)
    }

    /// Create a matcher for one device's current configuration.
    pub fn new(config: InputMapConfig) -> (m: InputMapper)
        ensures
            m@ == (SpecMapper {
                config: config@,
                input: Seq::empty(),
                buffered: Seq::empty(),
                partial: None,
            }),
    {
        let m = InputMapper {
            config,
            input: Vec::new(),
            buffered: Vec::new(),
            partial_action: None,
        };
        assert(frames_view(m.input) =~= Seq::<Seq<InputEvent>>::empty());
        m
    }

    /// Discard an incomplete sequence without forwarding it.
    pub fn reset(&mut self)
        ensures
            final(self)@ == reset_state(old(self)@),
    {
        proof {
            use_type_invariant(&*self);
        }
        self.partial_action = None;
        self.buffered = Vec::new();
        self.input = Vec::new();
        assert(frames_view(self.input) =~= Seq::<Seq<InputEvent>>::empty());
    }

    /// Replace the configuration and discard any incomplete sequence.
    pub fn set_config(&mut self, config: InputMapConfig)
        ensures
            final(self)@ == (SpecMapper {
                config: config@,
                input: Seq::empty(),
                buffered: Seq::empty(),
                partial: None,
            }),
    {
        self.reset();
        self.config = config;
    }

    /// Return the active configuration.
    pub fn config(&self) -> (c: &InputMapConfig)
        ensures
            c@ == self@.config,
            mapper_wf(self@),
    {
        proof {
            use_type_invariant(self);
        }
        &self.config
    }

    /// Whether a prefix is waiting for another frame or the sequence timeout.
    pub fn has_pending_input(&self) -> (r: bool)
        ensures
            r == (self@.input.len() > 0),
            mapper_wf(self@),
    {
        proof {
            use_type_invariant(self);
        }
        self.input.len() > 0
    }

    /// Feed one frame including its final `SYN_REPORT` event.
    ///
    /// Fails with `InvalidInputFrame`, leaving the matcher as it is, when the
    /// frame is empty, holds only synchronization events, or does not end in
    /// `SYN_REPORT`.
    pub fn feed_frame(&mut self, frame: &[InputEvent]) -> (r: Result<MapperOutput, InputMapError>)
        ensures
            spec_feed(old(self)@, frame@) == (final(self)@, result_view(r)),
            mapper_wf(old(self)@),
            mapper_wf(final(self)@),
            r matches Ok(o) ==> ((o is Pending) <==> final(self)@.input.len() > 0),
    {
        proof {
            use_type_invariant(&*self);
            lemma_feed_keeps_wf(old(self)@, frame@);
            if valid_frame(frame@) {
                lemma_pending_iff_waiting(old(self)@, frame@);
            }
        }
        let n = frame.len();
        if n == 0 {
            return Err(InputMapError::InvalidInputFrame);
        }
        let sync = frame[n - 1];
        if n == 1 || !sync.is_sync_report() || !frame_has_non_sync(frame) {
            return Err(InputMapError::InvalidInputFrame);
        }
        if self.config.mappings.len() == 0 {
            let mut all: Vec<InputEvent> = Vec::new();
            let mut i: usize = 0;
            while i < n
                invariant
                    i <= n,
                    n == frame@.len(),
                    all@ == frame@.take(i as int),
                decreases n - i,
            {
                all.push(frame[i]);
                i = i + 1;
                assert(all@ =~= frame@.take(i as int));
            }
            assert(frame@.take(n as int) =~= frame@);
            return Ok(MapperOutput::Forward(all));
        }
        let start: usize = if n == 3 && frame[0].event_type == EV_MSC && frame[0].code == MSC_SCAN
            && frame[1].event_type == EV_KEY && BTN_LEFT <= frame[1].code && frame[1].code
            <= BTN_MIDDLE {
            1
        } else {
            0
        };
        let ghost normalized = normalize_frame(frame@);
        assert(normalized =~= frame@.subrange(start as int, n as int));
        let mut key_event: Vec<InputEvent> = Vec::new();
        let mut i: usize = start;
        while i < n - 1
            invariant
                start <= i <= n - 1,
                n == frame@.len(),
                n >= 2,
                key_event@ == frame@.subrange(start as int, i as int),
            decreases n - 1 - i,
        {
            key_event.push(frame[i]);
            i = i + 1;
            assert(key_event@ =~= frame@.subrange(start as int, i as int));
        }
        assert(key_event@ =~= normalized.drop_last());
        let ghost old_input = frames_view(self.input);
        let ghost old_buffered = self.buffered@;
        assert(old_input == old(self)@.input);
        assert(self.config@ == old(self)@.config);
        let mut partial: Option<MappedAction> = None;
        std::mem::swap(&mut partial, &mut self.partial_action);
        let mut buffered: Vec<InputEvent> = Vec::new();
        std::mem::swap(&mut buffered, &mut self.buffered);
        let mut input: Vec<Vec<InputEvent>> = Vec::new();
        std::mem::swap(&mut input, &mut self.input);
        assert(frames_view(input) == old_input);
        assert(buffered@ == old_buffered);
        input.push(key_event);
        assert(frames_view(input) =~= old_input.push(normalized.drop_last()));
        let mut i: usize = start;
        while i < n
            invariant
                start <= i <= n,
                n == frame@.len(),
                buffered@ == old_buffered + frame@.subrange(start as int, i as int),
            decreases n - i,
        {
            buffered.push(frame[i]);
            i = i + 1;
            assert(buffered@ =~= old_buffered + frame@.subrange(start as int, i as int));
        }
        assert(frame@.subrange(start as int, n as int) =~= normalized);
        let ghost ms = self.config@;
        let ghost seq_in = frames_view(input);
        let mut any = false;
        let mut longer = false;
        let mut exact: Option<usize> = None;
        let count = self.config.mappings.len();
        let mut k: usize = 0;
        while k < count
            invariant
                k <= count,
                count == ms.len(),
                ms == self.config@,
                seq_in == frames_view(input),
                seq_in.len() == input@.len(),
                any == exists|j: int| 0 <= j < k && is_prefix(seq_in, #[trigger] ms[j].input),
                longer == exists|j: int|
                    0 <= j < k && is_prefix(seq_in, #[trigger] ms[j].input) && ms[j].input.len()
                        > seq_in.len(),
                exact matches Some(e) ==> e < k && ms[e as int].input == seq_in,
                forall|j: int|
                    0 <= j < k && (exact is None || j < exact->0) ==> #[trigger] ms[j].input
                        != seq_in,
            decreases count - k,
        {
            let mapping = &self.config.mappings[k];
            assert(mapping@ == ms[k as int]);
            if starts_with(&mapping.input, &input) {
                any = true;
                assert(ms[k as int].input.len() == mapping.input@.len());
                if mapping.input.len() == input.len() {
                    if exact.is_none() {
                        assert(ms[k as int].input =~= seq_in);
                        exact = Some(k);
                    }
                } else {
                    assert(ms[k as int].input.len() > seq_in.len());
                    longer = true;
                }
            } else {
                assert(ms[k as int].input != seq_in) by {
                    if ms[k as int].input == seq_in {
                        assert(seq_in.take(seq_in.len() as int) =~= seq_in);
                    }
                }
            }
            k = k + 1;
        }
        assert(self.config@ == old(self)@.config);
        assert(seq_in == old(self)@.input.push(normalize_frame(frame@).drop_last()));
        assert(buffered@ == old(self)@.buffered + normalize_frame(frame@));
        assert(valid_frame(frame@));
        assert(old(self)@.config.len() != 0);
        assert(frames_view(self.input) =~= Seq::<Seq<InputEvent>>::empty());
        if !any {
            assert(!has_candidate(ms, seq_in));
            return Ok(MapperOutput::Forward(buffered));
        }
        assert(has_candidate(ms, seq_in));
        match exact {
            Some(e) => {
                proof {
                    lemma_find_exact(ms, seq_in, 0, e as int);
                }
                let action = copy_action(&self.config.mappings[e].action);
                if longer {
                    self.input = input;
                    self.buffered = buffered;
                    self.partial_action = Some(action);
                    return Ok(MapperOutput::Pending);
                }
                Ok(action_output(action))
            },
            None => {
                proof {
                    lemma_find_exact(ms, seq_in, 0, ms.len() as int);
                }
                self.input = input;
                self.buffered = buffered;
                Ok(MapperOutput::Pending)
            },
        }
    }

    /// Resolve a pending prefix when the configured sequence interval expires.
    pub fn sequence_timeout(&mut self) -> (r: Option<MapperOutput>)
        ensures
            spec_timeout(old(self)@) == (final(self)@, option_view(r)),
            mapper_wf(old(self)@),
            mapper_wf(final(self)@),
    {
        proof {
            use_type_invariant(&*self);
            lemma_timeout_resolves(old(self)@);
        }
        if self.input.len() == 0 {
            return None;
        }
        let output = match &self.partial_action {
            Some(a) => action_output(copy_action(a)),
            None => {
                let mut buffered: Vec<InputEvent> = Vec::new();
                std::mem::swap(&mut buffered, &mut self.buffered);
                MapperOutput::Forward(buffered)
            },
        };
        self.reset();
        Some(output)
    }
}

// ---------------------------------------------------------------------------
// Laws of the matcher.
// ---------------------------------------------------------------------------

/// The matcher's consistent states: nothing is buffered and no action is
/// held while no prefix is pending, and a pending prefix is the start of some
/// configured mapping.
/// The matcher's state is consistent: nothing is buffered without a pending
/// prefix, and a pending prefix starts some mapping's input.
pub open spec fn mapper_wf(st: SpecMapper) -> bool {
    &&& st.input.len() == 0 ==> st.buffered.len() == 0 && st.partial is None
    &&& st.input.len() > 0 ==> has_candidate(st.config, st.input)
}

/// A freshly created or reconfigured matcher is consistent, and feeding a
/// frame keeps it consistent.
pub proof fn lemma_feed_keeps_wf(st: SpecMapper, frame: Seq<InputEvent>)
    requires
        mapper_wf(st),
    ensures
        mapper_wf(spec_feed(st, frame).0),
        mapper_wf(reset_state(st)),
{
}

/// From a consistent state, a frame yields `Pending` exactly when a prefix
/// is left waiting for more input or the sequence timeout; every other
/// result leaves nothing pending.
pub proof fn lemma_pending_iff_waiting(st: SpecMapper, frame: Seq<InputEvent>)
    requires
        mapper_wf(st),
        valid_frame(frame),
    ensures
        spec_feed(st, frame).1 is Ok,
        (spec_feed(st, frame).1 == Ok::<SpecOutput, InputMapError>(SpecOutput::Pending)) <==> (
        spec_feed(st, frame).0.input.len() > 0),
{
    if st.config.len() == 0 && st.input.len() > 0 {
        assert(!has_candidate(st.config, st.input));
    }
}

/// The timeout produces output exactly when a prefix is pending, and always
/// leaves the matcher with nothing pending.
pub proof fn lemma_timeout_resolves(st: SpecMapper)
    requires
        mapper_wf(st),
    ensures
        spec_timeout(st).1 is Some <==> st.input.len() > 0,
        spec_timeout(st).0.input.len() == 0,
        mapper_wf(spec_timeout(st).0),
        spec_timeout(st).0.config == st.config,
{
}

/// Without mappings, every complete frame is forwarded unchanged and the
/// matcher keeps its state.
pub proof fn lemma_no_mappings_forward(st: SpecMapper, frame: Seq<InputEvent>)
    requires
        st.config.len() == 0,
        valid_frame(frame),
    ensures
        spec_feed(st, frame) == (st, Ok::<SpecOutput, InputMapError>(SpecOutput::Forward(frame))),
{
}

/// A frame that matches no mapping at all is forwarded together with every
/// physical event still buffered from the pending prefix, and the matcher is
/// left with nothing pending.
pub proof fn lemma_unmatched_forwards_buffer(st: SpecMapper, frame: Seq<InputEvent>)
    requires
        valid_frame(frame),
        st.config.len() > 0,
        !has_candidate(st.config, st.input.push(normalize_frame(frame).drop_last())),
    ensures
        spec_feed(st, frame) == (
            reset_state(st),
            Ok::<SpecOutput, InputMapError>(
                SpecOutput::Forward(st.buffered + normalize_frame(frame)),
            ),
        ),
{
}

/// The events of the frames, each normalised, one frame after another.
pub open spec fn normalized_events(fs: Seq<Seq<InputEvent>>) -> Seq<InputEvent>
    decreases fs.len(),
{
    if fs.len() == 0 {
        Seq::empty()
    } else {
        normalized_events(fs.drop_last()) + normalize_frame(fs.last())
    }
}

/// The matcher after being fed the frames `fs` in turn.
pub open spec fn fed(st: SpecMapper, fs: Seq<Seq<InputEvent>>) -> SpecMapper
    decreases fs.len(),
{
    if fs.len() == 0 {
        st
    } else {
        spec_feed(fed(st, fs.drop_last()), fs.last()).0
    }
}

/// Each of the frames `fs`, fed in turn, produced `Pending`.
pub open spec fn all_pending(st: SpecMapper, fs: Seq<Seq<InputEvent>>) -> bool
    decreases fs.len(),
{
    fs.len() == 0 || (all_pending(st, fs.drop_last()) && spec_feed(fed(st, fs.drop_last()), fs.last()).1
        == Ok::<SpecOutput, InputMapError>(SpecOutput::Pending))
}

proof fn lemma_pending_run_buffers(st: SpecMapper, fs: Seq<Seq<InputEvent>>)
    requires
        st.buffered.len() == 0,
        all_pending(st, fs),
    ensures
        fed(st, fs).buffered == normalized_events(fs),
        fed(st, fs).config == st.config,
        fs.len() > 0 ==> st.config.len() > 0,
    decreases fs.len(),
{
    if fs.len() == 0 {
        assert(st.buffered =~= Seq::<InputEvent>::empty());
    } else {
        lemma_pending_run_buffers(st, fs.drop_last());
    }
}

/// What a run of `Pending` results holds back is released in order: from a
/// matcher with nothing pending, after frames `fs` that each produced
/// `Pending`, a frame that produces `Forward` forwards every frame of the
/// run, each normalised, followed by that frame normalised. Without
/// mappings, every complete frame is forwarded unchanged at once.
pub proof fn lemma_forward_releases_run(
    st: SpecMapper,
    fs: Seq<Seq<InputEvent>>,
    frame: Seq<InputEvent>,
)
    requires
        st.input.len() == 0,
        st.buffered.len() == 0,
        all_pending(st, fs),
    ensures
        st.config.len() == 0 && valid_frame(frame) ==> fs.len() == 0 && spec_feed(
            fed(st, fs),
            frame,
        ).1 == Ok::<SpecOutput, InputMapError>(SpecOutput::Forward(frame)),
        st.config.len() > 0 ==> (spec_feed(fed(st, fs), frame).1 matches Ok(
            SpecOutput::Forward(evs),
        ) ==> evs == normalized_events(fs) + normalize_frame(frame)),
{
    lemma_pending_run_buffers(st, fs);
}

/// A frame that completes the input of mapping `k`, the first with that
/// input, when no mapping's input continues beyond it, yields that mapping's
/// action and leaves nothing pending.
pub proof fn lemma_complete_match_acts(st: SpecMapper, frame: Seq<InputEvent>, k: int)
    requires
        valid_frame(frame),
        0 <= k < st.config.len(),
        st.config[k].input == st.input.push(normalize_frame(frame).drop_last()),
        forall|j: int| 0 <= j < k ==> st.config[j].input != st.config[k].input,
        !has_longer(st.config, st.config[k].input),
    ensures
        spec_feed(st, frame) == (
            reset_state(st),
            Ok::<SpecOutput, InputMapError>(spec_action_output(st.config[k].action)),
        ),
{
    let input = st.config[k].input;
    lemma_find_exact(st.config, input, 0, k);
    assert(is_prefix(input, st.config[k].input)) by {
        assert(input.take(input.len() as int) =~= input);
    }
}

/// A mouse-button frame's leading scan-code event does not count: with
/// mappings configured, feeding `[MSC_SCAN, button, SYN_REPORT]` for the
/// left, right or middle button gives the same result and the same next
/// state as feeding `[button, SYN_REPORT]`. So a button press that is
/// mapped on its own, with no longer mapping starting with it, yields that
/// mapping's action even when the kernel sends its scan code first.
pub proof fn lemma_scan_code_ignored(
    st: SpecMapper,
    scan: InputEvent,
    button: InputEvent,
    sync: InputEvent,
    k: int,
)
    requires
        st.config.len() > 0,
        scan.event_type == EV_MSC && scan.code == MSC_SCAN,
        button.event_type == EV_KEY && BTN_LEFT <= button.code <= BTN_MIDDLE,
        sync.spec_is_sync_report(),
    ensures
        spec_feed(st, seq![scan, button, sync]) == spec_feed(st, seq![button, sync]),
        st.input.len() == 0 && 0 <= k < st.config.len() && st.config[k].input == seq![seq![button]]
            && (forall|j: int| 0 <= j < k ==> st.config[j].input != seq![seq![button]])
            && !has_longer(st.config, seq![seq![button]]) ==> spec_feed(st, seq![scan, button, sync])
            == (
            reset_state(st),
            Ok::<SpecOutput, InputMapError>(spec_action_output(st.config[k].action)),
        ),
{
    let long = seq![scan, button, sync];
    let short = seq![button, sync];
    assert(long[0].event_type != EV_SYN);
    assert(short[0].event_type != EV_SYN);
    assert(long.drop_first() =~= short);
    assert(short.drop_last() =~= seq![button]);
    if st.input.len() == 0 && 0 <= k < st.config.len() && st.config[k].input == seq![seq![button]]
        && (forall|j: int| 0 <= j < k ==> st.config[j].input != seq![seq![button]])
        && !has_longer(st.config, seq![seq![button]]) {
        assert(st.input.push(seq![button]) =~= seq![seq![button]]);
        lemma_complete_match_acts(st, short, k);
    }
}

} // verus!
