//! Forwarding of a grabbed presenter's buttons: what each event read from
//! its input-event nodes, each elapsed deadline and each command leads to.
//!
//! The caller owns the devices: it waits for events, performs the emissions
//! a step plans in order, and ends or restarts the session where they fail.

use vstd::prelude::*;

use crate::input_event::{spec_sync_event, sync_event, InputEvent, EV_KEY, EV_REL, REL_HWHEEL, REL_WHEEL};
use crate::input_mapping::{
    copy_action, copy_events, frames_view, InputMapConfig, InputMapper, MappedAction,
    MapperOutput, SpecAction, SpecMapper, SpecOutput, reset_state, spec_feed, spec_timeout,
    result_view, option_view, lemma_timeout_resolves, mapper_wf,
};
use crate::presenter::{
    axis_sum, motion_fits, normalized_frame, normalized_recording_frame, relative_motion,
    relative_motion_fits, SpecialInput,
};
use crate::input_event::{REL_X, REL_Y};

verus! {

/// One thing a step asks the caller to do.
#[derive(Debug, PartialEq, Eq)]
pub enum Emission {
    /// Emit an event through the virtual keyboard.
    Keyboard(InputEvent),
    /// Emit an event through the virtual mouse.
    Mouse(InputEvent),
    /// Report pointer motion to the overlay.
    Motion { x: i32, y: i32 },
    /// Report a recorded input frame to the editor.
    Recorded(Vec<InputEvent>),
    /// Report that recording ended.
    RecordingFinished,
    /// Report a mapped action for the application to perform.
    Action(MappedAction),
}

/// The view of an emission.
pub enum EmissionView {
    Keyboard(InputEvent),
    Mouse(InputEvent),
    Motion { x: i32, y: i32 },
    Recorded(Seq<InputEvent>),
    RecordingFinished,
    Action(SpecAction),
}

impl View for Emission {
    type V = EmissionView;

    open spec fn view(&self) -> EmissionView {
        match self {
            Emission::Keyboard(e) => EmissionView::Keyboard(*e),
            Emission::Mouse(e) => EmissionView::Mouse(*e),
            Emission::Motion { x, y } => EmissionView::Motion { x: *x, y: *y },
            Emission::Recorded(f) => EmissionView::Recorded(f@),
            Emission::RecordingFinished => EmissionView::RecordingFinished,
            Emission::Action(a) => EmissionView::Action(a@),
        }
    }
}

/// The planned emissions, each with whether its failure ends forwarding
/// (`true`) or only restarts it (`false`).
pub open spec fn plan_view(p: Seq<(Emission, bool)>) -> Seq<(EmissionView, bool)> {
    p.map_values(|e: (Emission, bool)| (e.0@, e.1))
}

/// `events` cut after each synchronization event.
pub open spec fn sync_frames(events: Seq<InputEvent>) -> Seq<Seq<InputEvent>>
    decreases events.len(),
{
    if events.len() == 0 {
        Seq::empty()
    } else {
        let prev = sync_frames(events.drop_last());
        let e = events.last();
        if prev.len() == 0 || prev.last().last().event_type == 0 && prev.last().last().code == 0 {
            prev.push(seq![e])
        } else {
            prev.update(prev.len() - 1, prev.last().push(e))
        }
    }
}

/// A frame holds a synthesised Spotlight button, which is not forwarded.
pub open spec fn synthetic_frame(f: Seq<InputEvent>) -> bool {
    exists|k: int| 0 <= k < f.len() && f[k].event_type == EV_KEY && f[k].code >= 0x0e00
}

/// A frame that goes to the virtual mouse: relative motion or a button.
pub open spec fn mouse_frame(f: Seq<InputEvent>) -> bool {
    exists|k: int|
        0 <= k < f.len() && (f[k].event_type == EV_REL || (f[k].event_type == EV_KEY && f[k].code
            >= 0x100))
}

/// The emissions that forward one frame; `stops` tells what a failure does.
pub open spec fn frame_emissions(f: Seq<InputEvent>, stops: bool) -> Seq<(EmissionView, bool)> {
    if synthetic_frame(f) {
        Seq::empty()
    } else if mouse_frame(f) {
        f.map_values(|e: InputEvent| (EmissionView::Mouse(e), stops))
    } else {
        f.map_values(|e: InputEvent| (EmissionView::Keyboard(e), stops))
    }
}

/// The emissions that forward physical events, frame by frame.
pub open spec fn forward_emissions(fs: Seq<Seq<InputEvent>>, stops: bool) -> Seq<(EmissionView, bool)>
    decreases fs.len(),
{
    if fs.len() == 0 {
        Seq::empty()
    } else {
        forward_emissions(fs.drop_last(), stops) + frame_emissions(fs.last(), stops)
    }
}

/// The events of a native key sequence, one frame after the other.
pub open spec fn flatten(fs: Seq<Seq<InputEvent>>) -> Seq<InputEvent>
    decreases fs.len(),
{
    if fs.len() == 0 {
        Seq::empty()
    } else {
        flatten(fs.drop_last()) + fs.last()
    }
}

/// The emissions that carry out a matcher result.
pub open spec fn output_emissions(o: SpecOutput, stops: bool) -> Seq<(EmissionView, bool)> {
    match o {
        SpecOutput::Pending => Seq::empty(),
        SpecOutput::Consumed => Seq::empty(),
        SpecOutput::Forward(events) => forward_emissions(sync_frames(events), stops),
        SpecOutput::Action(SpecAction::KeySequence(k)) => flatten(k.native_sequence).map_values(
            |e: InputEvent| (EmissionView::Keyboard(e), stops),
        ),
        SpecOutput::Action(a) => seq![(EmissionView::Action(a), stops)],
    }
}

fn push_frame_emissions(plan: &mut Vec<(Emission, bool)>, f: &Vec<InputEvent>, stops: bool)
    ensures
        plan_view(final(plan)@) == plan_view(old(plan)@) + frame_emissions(f@, stops),
{
    let ghost start = plan_view(plan@);
    let mut synthetic = false;
    let mut mouse = false;
    let mut k: usize = 0;
    while k < f.len()
        invariant
            k <= f@.len(),
            synthetic == exists|j: int| 0 <= j < k && f@[j].event_type == EV_KEY && f@[j].code >= 0x0e00,
            mouse == exists|j: int|
                0 <= j < k && (f@[j].event_type == EV_REL || (f@[j].event_type == EV_KEY
                    && f@[j].code >= 0x100)),
        decreases f@.len() - k,
    {
        let e = f[k];
        if e.event_type == EV_KEY && e.code >= 0x0e00 {
            synthetic = true;
        }
        if e.event_type == EV_REL || (e.event_type == EV_KEY && e.code >= 0x100) {
            mouse = true;
        }
        k = k + 1;
    }
    if synthetic {
        assert(frame_emissions(f@, stops) =~= Seq::<(EmissionView, bool)>::empty());
        return ;
    }
    let mut j: usize = 0;
    while j < f.len()
        invariant
            j <= f@.len(),
            plan_view(plan@) == start + (if mouse {
                f@.take(j as int).map_values(|e: InputEvent| (EmissionView::Mouse(e), stops))
            } else {
                f@.take(j as int).map_values(|e: InputEvent| (EmissionView::Keyboard(e), stops))
            }),
        decreases f@.len() - j,
    {
        let ghost prev = plan@;
        if mouse {
            plan.push((Emission::Mouse(f[j]), stops));
        } else {
            plan.push((Emission::Keyboard(f[j]), stops));
        }
        assert(plan_view(plan@) =~= plan_view(prev).push(plan@.last()@));
        j = j + 1;
        assert(f@.take(j as int) =~= f@.take(j - 1).push(f@[j - 1]));
        assert(plan_view(plan@) =~= start + (if mouse {
            f@.take(j as int).map_values(|e: InputEvent| (EmissionView::Mouse(e), stops))
        } else {
            f@.take(j as int).map_values(|e: InputEvent| (EmissionView::Keyboard(e), stops))
        }));
    }
    assert(f@.take(j as int) =~= f@);
}

fn push_forward_emissions(plan: &mut Vec<(Emission, bool)>, events: &Vec<InputEvent>, stops: bool)
    ensures
        plan_view(final(plan)@) == plan_view(old(plan)@) + forward_emissions(
            sync_frames(events@),
            stops,
        ),
{
    let ghost start = plan_view(plan@);
    let mut frames: Vec<Vec<InputEvent>> = Vec::new();
    let mut cur: Vec<InputEvent> = Vec::new();
    let mut i: usize = 0;
    assert(events@.take(0) =~= Seq::<InputEvent>::empty());
    assert(frames_view(frames) + (if cur@.len() == 0 {
        Seq::<Seq<InputEvent>>::empty()
    } else {
        seq![cur@]
    }) =~= sync_frames(events@.take(0)));
    while i < events.len()
        invariant
            i <= events@.len(),
            frames_view(frames) + (if cur@.len() == 0 {
                Seq::<Seq<InputEvent>>::empty()
            } else {
                seq![cur@]
            }) == sync_frames(events@.take(i as int)),
            forall|k: int|
                0 <= k < frames_view(frames).len() ==> #[trigger] frames_view(frames)[k].len() > 0
                    && frames_view(frames)[k].last().event_type == 0 && frames_view(
                    frames,
                )[k].last().code == 0,
            cur@.len() > 0 ==> !(cur@.last().event_type == 0 && cur@.last().code == 0),
        decreases events@.len() - i,
    {
        let e = events[i];
        let ghost prev_frames = frames_view(frames);
        let ghost prev_cur = cur@;
        let ghost p = sync_frames(events@.take(i as int));
        assert(events@.take(i + 1).drop_last() =~= events@.take(i as int));
        assert(events@.take(i + 1).last() == e);
        let ghost q = sync_frames(events@.take(i + 1));
        proof {
            if prev_cur.len() == 0 {
                assert(p =~= prev_frames);
                if p.len() > 0 {
                    assert(p.last() == prev_frames[prev_frames.len() - 1]);
                }
                assert(q == prev_frames.push(seq![e]));
            } else {
                assert(p =~= prev_frames.push(prev_cur));
                assert(q =~= prev_frames.push(prev_cur.push(e)));
            }
        }
        cur.push(e);
        assert(cur@ == prev_cur.push(e));
        assert(prev_cur.len() == 0 ==> prev_cur.push(e) =~= seq![e]);
        if e.event_type == 0 && e.code == 0 {
            let done = cur;
            frames.push(done);
            cur = Vec::new();
            assert(frames_view(frames) =~= prev_frames.push(prev_cur.push(e)));
        }
        i = i + 1;
        assert(frames_view(frames) + (if cur@.len() == 0 {
            Seq::<Seq<InputEvent>>::empty()
        } else {
            seq![cur@]
        }) =~= q);
    }
    assert(events@.take(i as int) =~= events@);
    if cur.len() > 0 {
        frames.push(cur);
    }
    let ghost fv = frames_view(frames);
    assert(fv == sync_frames(events@));
    let mut k: usize = 0;
    assert(fv.take(0) =~= Seq::<Seq<InputEvent>>::empty());
    while k < frames.len()
        invariant
            k <= frames@.len(),
            fv == frames_view(frames),
            plan_view(plan@) == start + forward_emissions(fv.take(k as int), stops),
        decreases frames@.len() - k,
    {
        push_frame_emissions(plan, &frames[k], stops);
        assert(fv.take(k + 1).drop_last() =~= fv.take(k as int));
        assert(fv.take(k + 1).last() == frames@[k as int]@);
        k = k + 1;
    }
    assert(fv.take(k as int) =~= fv);
}

fn push_output_emissions(plan: &mut Vec<(Emission, bool)>, output: MapperOutput, stops: bool)
    ensures
        plan_view(final(plan)@) == plan_view(old(plan)@) + output_emissions(output@, stops),
{
    match output {
        MapperOutput::Pending => {
            assert(output_emissions(output@, stops) =~= Seq::<(EmissionView, bool)>::empty());
        },
        MapperOutput::Consumed => {
            assert(output_emissions(output@, stops) =~= Seq::<(EmissionView, bool)>::empty());
        },
        MapperOutput::Forward(events) => {
            push_forward_emissions(plan, &events, stops);
        },
        MapperOutput::Action(MappedAction::KeySequence(k)) => {
            let ghost start = plan_view(plan@);
            let ghost fv = frames_view(k.native_sequence);
            let mut i: usize = 0;
            assert(fv.take(0) =~= Seq::<Seq<InputEvent>>::empty());
            assert(plan_view(plan@) =~= start + flatten(fv.take(0)).map_values(
                |e: InputEvent| (EmissionView::Keyboard(e), stops),
            ));
            while i < k.native_sequence.len()
                invariant
                    i <= k.native_sequence@.len(),
                    fv == frames_view(k.native_sequence),
                    plan_view(plan@) == start + flatten(fv.take(i as int)).map_values(
                        |e: InputEvent| (EmissionView::Keyboard(e), stops),
                    ),
                decreases k.native_sequence@.len() - i,
            {
                let frame = &k.native_sequence[i];
                let ghost mid = plan_view(plan@);
                let mut j: usize = 0;
                while j < frame.len()
                    invariant
                        j <= frame@.len(),
                        plan_view(plan@) == mid + frame@.take(j as int).map_values(
                            |e: InputEvent| (EmissionView::Keyboard(e), stops),
                        ),
                    decreases frame@.len() - j,
                {
                    let ghost prev = plan@;
                    plan.push((Emission::Keyboard(frame[j]), stops));
                    assert(plan_view(plan@) =~= plan_view(prev).push((EmissionView::Keyboard(frame@[j as int]), stops)));
                    j = j + 1;
                    assert(plan_view(plan@) =~= mid + frame@.take(j as int).map_values(
                        |e: InputEvent| (EmissionView::Keyboard(e), stops),
                    ));
                }
                assert(frame@.take(j as int) =~= frame@);
                assert(fv.take(i + 1).drop_last() =~= fv.take(i as int));
                assert(fv.take(i + 1).last() == frame@);
                assert(flatten(fv.take(i + 1)).map_values(|e: InputEvent| (EmissionView::Keyboard(e), stops))
                    =~= flatten(fv.take(i as int)).map_values(|e: InputEvent| (EmissionView::Keyboard(e), stops))
                    + frame@.map_values(|e: InputEvent| (EmissionView::Keyboard(e), stops)));
                i = i + 1;
            }
            assert(fv.take(i as int) =~= fv);
        },
        MapperOutput::Action(a) => {
            let ghost prev = plan@;
            let ghost av = a@;
            plan.push((Emission::Action(a), stops));
            assert(plan_view(plan@) =~= plan_view(prev).push((EmissionView::Action(av), stops)));
        },
    }
}


/// The longest wait between checks, in nanoseconds.
pub const POLL_INTERVAL_NS: u64 = 25_000_000;

/// How many recorded frames end a recording.
pub const MAX_RECORDED_FRAMES: u8 = 8;

/// A command for the forwarding session.
pub enum ButtonCommand {
    /// Use another input-mapping configuration.
    Config(InputMapConfig),
    /// Use another sequence interval, in nanoseconds.
    Interval(u64),
    /// Start or stop recording input for the editor.
    Recording(bool),
    /// Input synthesised from Spotlight notifications.
    SpecialInput(SpecialInput),
}

/// A forwarding session of one grabbed presenter.
pub struct ButtonSession {
    mapper: InputMapper,
    frames: Vec<Vec<InputEvent>>,
    recording: bool,
    recorded_frames: u8,
    recording_deadline: Option<u64>,
    mapping_deadline: Option<u64>,
    sequence_interval: u64,
    motion_from_evdev: bool,
}

/// The state of a forwarding session.
pub struct SessionState {
    pub mapper: SpecMapper,
    pub frames: Seq<Seq<InputEvent>>,
    pub recording: bool,
    pub recorded_frames: u8,
    pub recording_deadline: Option<u64>,
    pub mapping_deadline: Option<u64>,
    pub sequence_interval: u64,
    pub motion_from_evdev: bool,
}

impl View for ButtonSession {
    type V = SessionState;

    closed spec fn view(&self) -> SessionState {
        SessionState {
            mapper: self.mapper@,
            frames: frames_view(self.frames),
            recording: self.recording,
            recorded_frames: self.recorded_frames,
            recording_deadline: self.recording_deadline,
            mapping_deadline: self.mapping_deadline,
            sequence_interval: self.sequence_interval,
            motion_from_evdev: self.motion_from_evdev,
        }
    }
}

/// When a pending prefix times out: one sequence interval from now, if the
/// matcher waits for more input.
pub open spec fn pending_deadline(m: SpecMapper, now: u64, interval: u64) -> Option<u64> {
    if m.input.len() > 0 {
        Some((now + interval) as u64)
    } else {
        None
    }
}

/// A synchronization event, whatever its value.
pub open spec fn is_sync(e: InputEvent) -> bool {
    e.event_type == 0 && e.code == 0
}

/// The session after reading `e` from node `source` at time `now`, what it
/// asks to emit, and whether it must restart.
pub open spec fn event_step(s: SessionState, source: int, e: InputEvent, now: u64) -> (
    SessionState,
    Seq<(EmissionView, bool)>,
    bool,
) {
    let frame = s.frames[source].push(e);
    if !is_sync(e) {
        (SessionState { frames: s.frames.update(source, frame), ..s }, Seq::empty(), false)
    } else {
        let cleared = s.frames.update(source, Seq::empty());
        if frame[0].spec_is_relative_motion() {
            let x = axis_sum(frame, REL_X, frame.len());
            let y = axis_sum(frame, REL_Y, frame.len());
            let motion = if s.motion_from_evdev && (x != 0 || y != 0) {
                seq![(EmissionView::Motion { x: x as i32, y: y as i32 }, true)]
            } else {
                Seq::empty()
            };
            (
                SessionState { frames: cleared, ..s },
                motion + frame.map_values(|ev: InputEvent| (EmissionView::Mouse(ev), false)),
                false,
            )
        } else if s.recording {
            match normalized_frame(frame) {
                None => (SessionState { frames: cleared, ..s }, Seq::empty(), false),
                Some(rec) => {
                    let n = (s.recorded_frames + 1) as u8;
                    if n >= MAX_RECORDED_FRAMES {
                        (
                            SessionState {
                                frames: cleared,
                                recorded_frames: n,
                                recording: false,
                                recording_deadline: None,
                                ..s
                            },
                            seq![
                                (EmissionView::Recorded(rec), true),
                                (EmissionView::RecordingFinished, true),
                            ],
                            false,
                        )
                    } else {
                        (
                            SessionState {
                                frames: cleared,
                                recorded_frames: n,
                                recording_deadline: Some((now + s.sequence_interval) as u64),
                                ..s
                            },
                            seq![(EmissionView::Recorded(rec), true)],
                            false,
                        )
                    }
                },
            }
        } else {
            let (m2, out) = spec_feed(s.mapper, frame);
            match out {
                Err(_) => (SessionState { frames: cleared, mapper: m2, ..s }, Seq::empty(), true),
                Ok(o) => (
                    SessionState {
                        frames: cleared,
                        mapper: m2,
                        mapping_deadline: pending_deadline(m2, now, s.sequence_interval),
                        ..s
                    },
                    output_emissions(o, false),
                    false,
                ),
            }
        }
    }
}

/// The session when nothing was read until `now`: an expired recording
/// ends, else an expired pending prefix is resolved.
pub open spec fn idle_step(s: SessionState, now: u64) -> (SessionState, Seq<(EmissionView, bool)>) {
    if s.recording && (s.recording_deadline matches Some(d) && now >= d) {
        (
            SessionState { recording: false, recording_deadline: None, ..s },
            seq![(EmissionView::RecordingFinished, true)],
        )
    } else if s.mapper.input.len() > 0 && (s.mapping_deadline matches Some(d) && now >= d) {
        let (m2, o) = spec_timeout(s.mapper);
        (
            SessionState { mapper: m2, mapping_deadline: None, ..s },
            match o {
                Some(x) => output_emissions(x, false),
                None => Seq::empty(),
            },
        )
    } else {
        (s, Seq::empty())
    }
}

/// Each node's events are kept apart until its synchronization event: an
/// event changes the buffer of the node it came from and no other; before
/// the synchronization it is only buffered, emitting nothing, and the
/// synchronization empties that buffer.
pub proof fn lemma_frames_kept_per_node(s: SessionState, source: int, e: InputEvent, now: u64)
    requires
        0 <= source < s.frames.len(),
    ensures
        event_step(s, source, e, now).0.frames.len() == s.frames.len(),
        forall|j: int|
            0 <= j < s.frames.len() && j != source ==> #[trigger] event_step(
                s,
                source,
                e,
                now,
            ).0.frames[j] == s.frames[j],
        !is_sync(e) ==> event_step(s, source, e, now).0.frames[source] == s.frames[source].push(e)
            && event_step(s, source, e, now).1.len() == 0 && !event_step(s, source, e, now).2,
        is_sync(e) ==> event_step(s, source, e, now).0.frames[source].len() == 0,
{
}

/// Outside a recording, a pending prefix whose deadline has passed is
/// resolved by the next idle step: nothing is left pending.
pub proof fn lemma_idle_resolves_expired_prefix(s: SessionState, now: u64)
    requires
        mapper_wf(s.mapper),
        !s.recording,
        s.mapping_deadline matches Some(d) && now >= d,
    ensures
        idle_step(s, now).0.mapper.input.len() == 0,
        mapper_wf(idle_step(s, now).0.mapper),
{
    lemma_timeout_resolves(s.mapper);
}

/// A wheel movement, unless it is zero.
pub open spec fn wheel_emissions(code: u16, value: int) -> Seq<(EmissionView, bool)> {
    if value == 0 {
        Seq::empty()
    } else {
        seq![
            (EmissionView::Mouse(InputEvent { event_type: EV_REL, code, value: value as i32 }), true),
            (EmissionView::Mouse(spec_sync_event()), true),
        ]
    }
}

/// A volume key tap, up for positive values and down for negative ones.
pub open spec fn volume_emissions(value: int) -> Seq<(EmissionView, bool)> {
    if value == 0 {
        Seq::empty()
    } else {
        let code: u16 = if value > 0 {
            115
        } else {
            114
        };
        seq![
            (EmissionView::Keyboard(InputEvent { event_type: EV_KEY, code, value: 1 }), true),
            (EmissionView::Keyboard(spec_sync_event()), true),
            (EmissionView::Keyboard(InputEvent { event_type: EV_KEY, code, value: 0 }), true),
            (EmissionView::Keyboard(spec_sync_event()), true),
        ]
    }
}

/// The frame a synthesised input feeds to the matcher: the held button's
/// press, three times for a movement, then the synchronization event.
pub open spec fn special_frame(code: u16, movement: bool) -> Seq<InputEvent> {
    let press = InputEvent { event_type: EV_KEY, code, value: 1 };
    if movement {
        seq![press, press, press, spec_sync_event()]
    } else {
        seq![press, spec_sync_event()]
    }
}

/// The session after a synthesised input at time `now`, and what it asks
/// to emit; any failure ends forwarding.
pub open spec fn special_step(s: SessionState, input: SpecialInput, now: u64) -> (
    SessionState,
    Seq<(EmissionView, bool)>,
) {
    let (code, movement, x, y) = match input {
        SpecialInput::Hold(c) => (c, false, 0i32, 0i32),
        SpecialInput::Move { code, x, y } => (code, true, x, y),
    };
    let (s1, plan): (SessionState, Seq<(EmissionView, bool)>) = if s.recording {
        if movement {
            (s, Seq::empty())
        } else {
            (
                SessionState {
                    recorded_frames: (s.recorded_frames + 1) as u8,
                    recording_deadline: Some((now + s.sequence_interval) as u64),
                    ..s
                },
                seq![
                    (
                        EmissionView::Recorded(seq![InputEvent { event_type: EV_KEY, code, value: 1 }]),
                        true,
                    ),
                ],
            )
        }
    } else {
        let (m2, out) = spec_feed(s.mapper, special_frame(code, movement));
        match out {
            Err(_) => (SessionState { mapper: m2, ..s }, Seq::empty()),
            Ok(o) => (
                SessionState { mapper: m2, ..s },
                if !movement {
                    output_emissions(o, true)
                } else {
                    match o {
                        SpecOutput::Action(SpecAction::ScrollHorizontal) => wheel_emissions(
                            REL_HWHEEL,
                            -x,
                        ),
                        SpecOutput::Action(SpecAction::ScrollVertical) => wheel_emissions(
                            REL_WHEEL,
                            y as int,
                        ),
                        SpecOutput::Action(SpecAction::VolumeControl) => volume_emissions(-y),
                        _ => output_emissions(o, true),
                    }
                },
            ),
        }
    };
    (
        SessionState {
            mapping_deadline: pending_deadline(s1.mapper, now, s1.sequence_interval),
            ..s1
        },
        plan,
    )
}

impl ButtonSession {
    /// A session over `sources` input-event nodes.
    pub fn new(config: InputMapConfig, sources: usize, sequence_interval: u64, motion_from_evdev: bool) -> (r:
        ButtonSession)
        ensures
            r@.mapper == (SpecMapper {
                config: config@,
                input: Seq::empty(),
                buffered: Seq::empty(),
                partial: None,
            }),
            r@.frames == Seq::new(sources as nat, |i: int| Seq::<InputEvent>::empty()),
            !r@.recording,
            r@.recorded_frames == 0,
            r@.recording_deadline is None,
            r@.mapping_deadline is None,
            r@.sequence_interval == sequence_interval,
            r@.motion_from_evdev == motion_from_evdev,
    {
        let mut frames: Vec<Vec<InputEvent>> = Vec::new();
        let mut i: usize = 0;
        while i < sources
            invariant
                i <= sources,
                frames_view(frames) == Seq::new(i as nat, |k: int| Seq::<InputEvent>::empty()),
            decreases sources - i,
        {
            let empty: Vec<InputEvent> = Vec::new();
            assert(empty@ =~= Seq::<InputEvent>::empty());
            let ghost prev = frames_view(frames);
            frames.push(empty);
            assert(frames_view(frames) =~= prev.push(Seq::<InputEvent>::empty()));
            i = i + 1;
            assert(frames_view(frames) =~= Seq::new(i as nat, |k: int| Seq::<InputEvent>::empty()));
        }
        ButtonSession {
            mapper: InputMapper::new(config),
            frames,
            recording: false,
            recorded_frames: 0,
            recording_deadline: None,
            mapping_deadline: None,
            sequence_interval,
            motion_from_evdev,
        }
    }

    /// Whether the session is recording input for the editor.
    pub fn is_recording(&self) -> (r: bool)
        ensures
            r == self@.recording,
    {
        self.recording
    }

    /// How many frames the current or last recording took. A session takes
    /// events and commands only while this is below 255.
    pub fn recorded_frames(&self) -> (r: u8)
        ensures
            r == self@.recorded_frames,
    {
        self.recorded_frames
    }

    /// How long to wait for input before checking the deadlines again:
    /// the time until the nearest deadline, at most the poll interval.
    pub fn wait_timeout(&self, now: u64) -> (r: u64)
        ensures
            r <= POLL_INTERVAL_NS,
            self@.mapping_deadline matches Some(d) ==> r <= (if d > now {
                d - now
            } else {
                0
            }),
            self@.recording_deadline matches Some(d) ==> r <= (if d > now {
                d - now
            } else {
                0
            }),
            r == POLL_INTERVAL_NS || (self@.mapping_deadline matches Some(d) && r == (if d > now {
                d - now
            } else {
                0
            })) || (self@.recording_deadline matches Some(d) && r == (if d > now {
                d - now
            } else {
                0
            })),
    {
        let mut t = POLL_INTERVAL_NS;
        if let Some(d) = self.mapping_deadline {
            let left = if d > now {
                d - now
            } else {
                0
            };
            if left < t {
                t = left;
            }
        }
        if let Some(d) = self.recording_deadline {
            let left = if d > now {
                d - now
            } else {
                0
            };
            if left < t {
                t = left;
            }
        }
        t
    }

    /// Whether the frame that `event` would complete on node `source` can
    /// be summed into a pointer motion without leaving `i32`.
    pub fn event_fits(&self, source: usize, event: InputEvent) -> (r: bool)
        requires
            source < self@.frames.len(),
        ensures
            r == motion_fits(self@.frames[source as int].push(event)),
    {
        let mut frame = copy_events(&self.frames[source]);
        frame.push(event);
        assert(frames_view(self.frames)[source as int] == self.frames@[source as int]@);
        relative_motion_fits(frame.as_slice())
    }

    /// Handle `event`, read from input-event node `source` at time `now`.
    /// Returns the emissions to perform, each with whether its failure ends
    /// forwarding, and whether the session must restart.
    pub fn on_event(&mut self, source: usize, event: InputEvent, now: u64) -> (r: (
        Vec<(Emission, bool)>,
        bool,
    ))
        requires
            source < old(self)@.frames.len(),
            now + old(self)@.sequence_interval <= u64::MAX,
            old(self)@.recorded_frames < 255,
            motion_fits(old(self)@.frames[source as int].push(event)),
        ensures
            (final(self)@, plan_view(r.0@), r.1) == event_step(old(self)@, source as int, event, now),
    {
        let ghost s0 = self@;
        let mut frame = self.frames.remove(source);
        assert(frame@ == s0.frames[source as int]);
        frame.push(event);
        let mut plan: Vec<(Emission, bool)> = Vec::new();
        if !(event.event_type == 0 && event.code == 0) {
            self.frames.insert(source, frame);
            assert(frames_view(self.frames) =~= s0.frames.update(source as int, s0.frames[source as int].push(event)));
            assert(plan_view(plan@) =~= Seq::<(EmissionView, bool)>::empty());
            return (plan, false);
        }
        self.frames.insert(source, Vec::new());
        assert(frames_view(self.frames) =~= s0.frames.update(source as int, Seq::empty()));
        if frame[0].is_relative_motion() {
            if self.motion_from_evdev {
                let (x, y) = relative_motion(frame.as_slice());
                if x != 0 || y != 0 {
                    plan.push((Emission::Motion { x, y }, true));
                }
            }
            let ghost head = plan_view(plan@);
            let mut j: usize = 0;
            while j < frame.len()
                invariant
                    j <= frame@.len(),
                    plan_view(plan@) == head + frame@.take(j as int).map_values(
                        |ev: InputEvent| (EmissionView::Mouse(ev), false),
                    ),
                decreases frame@.len() - j,
            {
                let ghost prev = plan@;
                plan.push((Emission::Mouse(frame[j]), false));
                assert(plan_view(plan@) =~= plan_view(prev).push((EmissionView::Mouse(frame@[j as int]), false)));
                j = j + 1;
                assert(plan_view(plan@) =~= head + frame@.take(j as int).map_values(
                    |ev: InputEvent| (EmissionView::Mouse(ev), false),
                ));
            }
            assert(frame@.take(j as int) =~= frame@);
            assert(plan_view(plan@) =~= event_step(s0, source as int, event, now).1);
            return (plan, false);
        }
        if self.recording {
            match normalized_recording_frame(frame.as_slice()) {
                None => {
                    assert(plan_view(plan@) =~= Seq::<(EmissionView, bool)>::empty());
                    return (plan, false);
                },
                Some(rec) => {
                    let ghost recv = rec@;
                    plan.push((Emission::Recorded(rec), true));
                    self.recorded_frames = self.recorded_frames + 1;
                    self.recording_deadline = Some(now + self.sequence_interval);
                    if self.recorded_frames >= MAX_RECORDED_FRAMES {
                        self.recording = false;
                        self.recording_deadline = None;
                        plan.push((Emission::RecordingFinished, true));
                        assert(plan_view(plan@) =~= seq![
                            (EmissionView::Recorded(recv), true),
                            (EmissionView::RecordingFinished, true),
                        ]);
                    } else {
                        assert(plan_view(plan@) =~= seq![(EmissionView::Recorded(recv), true)]);
                    }
                    return (plan, false);
                },
            }
        }
        let output = self.mapper.feed_frame(frame.as_slice());
        match output {
            Err(_) => {
                assert(plan_view(plan@) =~= Seq::<(EmissionView, bool)>::empty());
                (plan, true)
            },
            Ok(o) => {
                assert(plan_view(plan@) =~= Seq::<(EmissionView, bool)>::empty());
                push_output_emissions(&mut plan, o, false);
                self.mapping_deadline = if self.mapper.has_pending_input() {
                    Some(now + self.sequence_interval)
                } else {
                    None
                };
                (plan, false)
            },
        }
    }

    /// Handle the lapse of time until `now` without input.
    pub fn on_idle(&mut self, now: u64) -> (r: Vec<(Emission, bool)>)
        ensures
            (final(self)@, plan_view(r@)) == idle_step(old(self)@, now),
    {
        let mut plan: Vec<(Emission, bool)> = Vec::new();
        if self.recording {
            if let Some(d) = self.recording_deadline {
                if now >= d {
                    self.recording = false;
                    self.recording_deadline = None;
                    plan.push((Emission::RecordingFinished, true));
                    assert(plan_view(plan@) =~= seq![(EmissionView::RecordingFinished, true)]);
                    return plan;
                }
            }
        }
        if self.mapper.has_pending_input() {
            if let Some(d) = self.mapping_deadline {
                if now >= d {
                    let out = self.mapper.sequence_timeout();
                    assert(plan_view(plan@) =~= Seq::<(EmissionView, bool)>::empty());
                    if let Some(o) = out {
                        push_output_emissions(&mut plan, o, false);
                    }
                    self.mapping_deadline = None;
                    return plan;
                }
            }
        }
        assert(plan_view(plan@) =~= Seq::<(EmissionView, bool)>::empty());
        plan
    }

    /// Handle a command arriving at time `now`. Returns the emissions to
    /// perform; a failure of any of them ends forwarding.
    pub fn on_command(&mut self, command: ButtonCommand, now: u64) -> (r: Vec<(Emission, bool)>)
        requires
            now + old(self)@.sequence_interval <= u64::MAX,
            command matches ButtonCommand::Interval(d) ==> now + d <= u64::MAX,
            old(self)@.recorded_frames < 255,
            command matches ButtonCommand::SpecialInput(SpecialInput::Move { x, y, .. }) ==> x
                != i32::MIN && y != i32::MIN,
        ensures
            match command {
                ButtonCommand::Config(c) => final(self)@ == (SessionState {
                    mapper: SpecMapper {
                        config: c@,
                        input: Seq::empty(),
                        buffered: Seq::empty(),
                        partial: None,
                    },
                    mapping_deadline: None,
                    ..old(self)@
                }) && r@.len() == 0,
                ButtonCommand::Interval(d) => final(self)@ == (SessionState {
                    sequence_interval: d,
                    mapping_deadline: pending_deadline(old(self)@.mapper, now, d),
                    ..old(self)@
                }) && r@.len() == 0,
                ButtonCommand::Recording(active) => final(self)@ == (SessionState {
                    recording: active,
                    recorded_frames: 0,
                    recording_deadline: None,
                    mapping_deadline: None,
                    mapper: reset_state(old(self)@.mapper),
                    ..old(self)@
                }) && r@.len() == 0,
                ButtonCommand::SpecialInput(input) => (final(self)@, plan_view(r@)) == special_step(
                    old(self)@,
                    input,
                    now,
                ),
            },
    {
        let mut plan: Vec<(Emission, bool)> = Vec::new();
        match command {
            ButtonCommand::Config(config) => {
                self.mapper.set_config(config);
                self.mapping_deadline = None;
                plan
            },
            ButtonCommand::Interval(d) => {
                self.sequence_interval = d;
                self.mapping_deadline = if self.mapper.has_pending_input() {
                    Some(now + d)
                } else {
                    None
                };
                plan
            },
            ButtonCommand::Recording(active) => {
                self.recording = active;
                self.recorded_frames = 0;
                self.recording_deadline = None;
                self.mapping_deadline = None;
                self.mapper.reset();
                plan
            },
            ButtonCommand::SpecialInput(input) => {
                let ghost s0 = self@;
                let (code, movement, x, y) = match input {
                    SpecialInput::Hold(c) => (c, false, 0i32, 0i32),
                    SpecialInput::Move { code, x, y } => (code, true, x, y),
                };
                if self.recording {
                    if !movement {
                        let mut rec: Vec<InputEvent> = Vec::new();
                        rec.push(InputEvent { event_type: EV_KEY, code, value: 1 });
                        let ghost recv = rec@;
                        assert(recv =~= seq![InputEvent { event_type: EV_KEY, code, value: 1 }]);
                        plan.push((Emission::Recorded(rec), true));
                        self.recorded_frames = self.recorded_frames + 1;
                        self.recording_deadline = Some(now + self.sequence_interval);
                        assert(plan_view(plan@) =~= seq![(EmissionView::Recorded(recv), true)]);
                    } else {
                        assert(plan_view(plan@) =~= Seq::<(EmissionView, bool)>::empty());
                    }
                } else {
                    let mut frame: Vec<InputEvent> = Vec::new();
                    frame.push(InputEvent { event_type: EV_KEY, code, value: 1 });
                    if movement {
                        frame.push(InputEvent { event_type: EV_KEY, code, value: 1 });
                        frame.push(InputEvent { event_type: EV_KEY, code, value: 1 });
                    }
                    frame.push(sync_event());
                    assert(frame@ =~= special_frame(code, movement));
                    let output = self.mapper.feed_frame(frame.as_slice());
                    assert(plan_view(plan@) =~= Seq::<(EmissionView, bool)>::empty());
                    match output {
                        Err(_) => {},
                        Ok(o) => {
                            if !movement {
                                push_output_emissions(&mut plan, o, true);
                            } else {
                                match o {
                                    MapperOutput::Action(MappedAction::ScrollHorizontal) => {
                                        push_wheel(&mut plan, REL_HWHEEL, -x);
                                    },
                                    MapperOutput::Action(MappedAction::ScrollVertical) => {
                                        push_wheel(&mut plan, REL_WHEEL, y);
                                    },
                                    MapperOutput::Action(MappedAction::VolumeControl) => {
                                        push_volume(&mut plan, -y);
                                    },
                                    other => {
                                        push_output_emissions(&mut plan, other, true);
                                    },
                                }
                            }
                        },
                    }
                }
                self.mapping_deadline = if self.mapper.has_pending_input() {
                    Some(now + self.sequence_interval)
                } else {
                    None
                };
                plan
            },
        }
    }
}

fn push_wheel(plan: &mut Vec<(Emission, bool)>, code: u16, value: i32)
    ensures
        plan_view(final(plan)@) == plan_view(old(plan)@) + wheel_emissions(code, value as int),
{
    let ghost start = plan_view(plan@);
    if value != 0 {
        plan.push((Emission::Mouse(InputEvent { event_type: EV_REL, code, value }), true));
        plan.push((Emission::Mouse(sync_event()), true));
    }
    assert(plan_view(plan@) =~= start + wheel_emissions(code, value as int));
}

fn push_volume(plan: &mut Vec<(Emission, bool)>, value: i32)
    ensures
        plan_view(final(plan)@) == plan_view(old(plan)@) + volume_emissions(value as int),
{
    let ghost start = plan_view(plan@);
    if value != 0 {
        let code: u16 = if value > 0 {
            115
        } else {
            114
        };
        plan.push((Emission::Keyboard(InputEvent { event_type: EV_KEY, code, value: 1 }), true));
        plan.push((Emission::Keyboard(sync_event()), true));
        plan.push((Emission::Keyboard(InputEvent { event_type: EV_KEY, code, value: 0 }), true));
        plan.push((Emission::Keyboard(sync_event()), true));
    }
    assert(plan_view(plan@) =~= start + volume_emissions(value as int));
}
} // verus!
