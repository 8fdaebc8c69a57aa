//! What the input-mapping editor shows: names of presenter inputs and
//! mapped actions, and the canonical list of mappings.

use vstd::prelude::*;

use crate::input_event::{InputEvent, EV_KEY};
use crate::input_mapping::{
    copy_action, copy_frames, events_equal, frames_view, InputMapping, MappedAction,
    NativeKeySequence, SpecAction, SpecKeySequence, SpecMapping,
};
use crate::presenter::{
    key_sequences_equal, modifier_only_native_key, predefined_native_key, spec_modifier_only_key,
    spec_predefined_key,
};
use crate::text::{chars_are, chars_of, hex, push_chars, push_hex, push_text};

verus! {

/// `parts` joined with `sep` between neighbours.
pub open spec fn join(parts: Seq<Seq<char>>, sep: Seq<char>) -> Seq<char>
    decreases parts.len(),
{
    if parts.len() == 0 {
        Seq::empty()
    } else if parts.len() == 1 {
        parts[0]
    } else {
        join(parts.drop_last(), sep) + sep + parts.last()
    }
}

/// The name of a held-button movement sequence: three identical
/// `0x0ff0` or `0x0ff1` key presses in one frame.
pub open spec fn special_move(s: Seq<Seq<InputEvent>>) -> Option<Seq<char>> {
    if s.len() == 1 && s[0].len() == 3 && (forall|k: int|
        0 <= k < 3 ==> s[0][k] == InputEvent { event_type: EV_KEY, code: 0x0ff0, value: 1 }) {
        Some("Next Hold Move"@)
    } else if s.len() == 1 && s[0].len() == 3 && (forall|k: int|
        0 <= k < 3 ==> s[0][k] == InputEvent { event_type: EV_KEY, code: 0x0ff1, value: 1 }) {
        Some("Back Hold Move"@)
    } else {
        None
    }
}

fn all_events_are(frame: &Vec<InputEvent>, e: InputEvent) -> (r: bool)
    ensures
        r == (forall|k: int| 0 <= k < frame@.len() ==> frame@[k] == e),
{
    let mut i: usize = 0;
    while i < frame.len()
        invariant
            i <= frame@.len(),
            forall|k: int| 0 <= k < i ==> frame@[k] == e,
        decreases frame@.len() - i,
    {
        if frame[i] != e {
            return false;
        }
        i = i + 1;
    }
    true
}

/// The name of a held-button movement sequence, if `sequence` is one.
pub fn special_move_name(sequence: &Vec<Vec<InputEvent>>) -> (r: Option<&'static str>)
    ensures
        match special_move(frames_view(*sequence)) {
            Some(n) => r matches Some(s) && s@ == n,
            None => r is None,
        },
{
    if sequence.len() == 1 && sequence[0].len() == 3 {
        assert(frames_view(*sequence)[0] == sequence@[0]@);
        if all_events_are(&sequence[0], InputEvent { event_type: EV_KEY, code: 0x0ff0, value: 1 }) {
            return Some("Next Hold Move");
        }
        if all_events_are(&sequence[0], InputEvent { event_type: EV_KEY, code: 0x0ff1, value: 1 }) {
            return Some("Back Hold Move");
        }
    }
    None
}

/// A Logitech Spotlight device group.
pub open spec fn spotlight_group(g: Seq<char>) -> bool {
    g == "Device_046d_c53e"@ || g == "Device_046d_b503"@ || g == "Device_046d_b506"@
}

/// The AVATTO presenter's device group.
pub open spec fn avatto_group(g: Seq<char>) -> bool {
    g == "Device_0c45_8101"@
}

/// The name of an input event for the device group `g`: the buttons of
/// known presenters by name, held Spotlight buttons, else the code in
/// hexadecimal.
pub open spec fn event_name(g: Seq<char>, e: InputEvent) -> Seq<char> {
    let key = e.event_type == EV_KEY;
    if key && e.code == 0x110 && (spotlight_group(g) || avatto_group(g)) {
        "Click"@
    } else if key && e.code == 106 && spotlight_group(g) {
        "Next"@
    } else if key && e.code == 105 && spotlight_group(g) {
        "Back"@
    } else if key && e.code == 109 && avatto_group(g) {
        "Down"@
    } else if key && e.code == 104 && avatto_group(g) {
        "Up"@
    } else if key && e.code == 0x0e10 {
        "Next Hold"@
    } else if key && e.code == 0x0e11 {
        "Back Hold"@
    } else {
        hex(e.code as nat)
    }
}

/// The name of an input event for a device group.
pub fn input_event_name(device_group: &str, event: InputEvent) -> (r: String)
    ensures
        r@ == event_name(device_group@, event),
{
    let g = chars_of(device_group);
    let g = g.as_slice();
    let spotlight = chars_are(g, "Device_046d_c53e") || chars_are(g, "Device_046d_b503") || chars_are(
        g,
        "Device_046d_b506",
    );
    let avatto = chars_are(g, "Device_0c45_8101");
    let key = event.event_type == EV_KEY;
    let mut s = String::new();
    if key && event.code == 0x110 && (spotlight || avatto) {
        push_text(&mut s, "Click");
    } else if key && event.code == 106 && spotlight {
        push_text(&mut s, "Next");
    } else if key && event.code == 105 && spotlight {
        push_text(&mut s, "Back");
    } else if key && event.code == 109 && avatto {
        push_text(&mut s, "Down");
    } else if key && event.code == 104 && avatto {
        push_text(&mut s, "Up");
    } else if key && event.code == 0x0e10 {
        push_text(&mut s, "Next Hold");
    } else if key && event.code == 0x0e11 {
        push_text(&mut s, "Back Hold");
    } else {
        push_hex(&mut s, event.code as u64);
    }
    assert(s@ =~= event_name(device_group@, event));
    s
}

/// A press and its release: a key press with value 1 released with value 0,
/// any other event repeated unchanged.
pub open spec fn tap_pair(p: InputEvent, r: InputEvent) -> bool {
    if p.event_type == EV_KEY {
        p.event_type == r.event_type && p.code == r.code && p.value == 1 && r.value == 0
    } else {
        p == r
    }
}

/// `next` releases what `frame` pressed.
pub open spec fn is_tap(frame: Seq<InputEvent>, next: Seq<InputEvent>) -> bool {
    frame.len() == next.len() && forall|k: int| 0 <= k < frame.len() ==> tap_pair(frame[k], next[k])
}

/// The labels of the frames from `i` on: each non-empty frame by the name
/// of its last event with `↓↑` when the next frame releases it (both then
/// count as one), else `↑` for a release or `↓`.
pub open spec fn label_list(g: Seq<char>, s: Seq<Seq<InputEvent>>, i: int) -> Seq<Seq<char>>
    decreases s.len() - i,
{
    if i < 0 || i >= s.len() {
        Seq::empty()
    } else if s[i].len() == 0 {
        label_list(g, s, i + 1)
    } else {
        let tap = i + 1 < s.len() && is_tap(s[i], s[i + 1]);
        let arrow = if tap {
            "↓↑"@
        } else if s[i].last().value == 0 {
            "↑"@
        } else {
            "↓"@
        };
        seq!["["@ + event_name(g, s[i].last()) + arrow + "]"@] + label_list(
            g,
            s,
            if tap {
                i + 2
            } else {
                i + 1
            },
        )
    }
}

/// The label of an input sequence: `None` for no input, the name of a
/// held-button movement, else the frame labels separated by spaces.
pub open spec fn sequence_label(g: Seq<char>, s: Seq<Seq<InputEvent>>) -> Seq<char> {
    if s.len() == 0 {
        "None"@
    } else {
        match special_move(s) {
            Some(n) => n,
            None => if label_list(g, s, 0).len() == 0 {
                "None"@
            } else {
                join(label_list(g, s, 0), " "@)
            },
        }
    }
}

fn frames_tap(frame: &Vec<InputEvent>, next: &Vec<InputEvent>) -> (r: bool)
    ensures
        r == is_tap(frame@, next@),
{
    if frame.len() != next.len() {
        return false;
    }
    let mut k: usize = 0;
    while k < frame.len()
        invariant
            k <= frame@.len(),
            frame@.len() == next@.len(),
            forall|j: int| 0 <= j < k ==> tap_pair(frame@[j], next@[j]),
        decreases frame@.len() - k,
    {
        let p = frame[k];
        let r = next[k];
        let ok = if p.event_type == EV_KEY {
            p.event_type == r.event_type && p.code == r.code && p.value == 1 && r.value == 0
        } else {
            p == r
        };
        if !ok {
            return false;
        }
        k = k + 1;
    }
    true
}

/// Joining one more part adds the separator and the part, unless it is the
/// first.
pub(crate) proof fn lemma_join_push(parts: Seq<Seq<char>>, sep: Seq<char>, x: Seq<char>)
    ensures
        join(parts.push(x), sep) == if parts.len() == 0 {
            x
        } else {
            join(parts, sep) + sep + x
        },
{
    assert(parts.push(x).drop_last() =~= parts);
    if parts.len() == 0 {
        assert(parts.push(x) =~= seq![x]);
    }
}

/// The label of an input sequence for a device group.
pub fn input_sequence_label(device_group: &str, sequence: &Vec<Vec<InputEvent>>) -> (r: String)
    ensures
        r@ == sequence_label(device_group@, frames_view(*sequence)),
{
    let ghost g = device_group@;
    let ghost s = frames_view(*sequence);
    if sequence.len() == 0 {
        return "None".to_owned();
    }
    if let Some(name) = special_move_name(sequence) {
        return name.to_owned();
    }
    let mut out = String::new();
    let ghost mut done: Seq<Seq<char>> = Seq::empty();
    let mut count: usize = 0;
    let mut index: usize = 0;
    while index < sequence.len()
        invariant
            index <= sequence@.len() + 1,
            s == frames_view(*sequence),
            g == device_group@,
            done + label_list(g, s, index as int) == label_list(g, s, 0),
            out@ == join(done, " "@),
            count == done.len(),
            count <= index,
        decreases sequence@.len() + 1 - index,
    {
        assert(s[index as int] == sequence@[index as int]@);
        let frame = &sequence[index];
        if frame.len() == 0 {
            index = index + 1;
            continue ;
        }
        let event = frame[frame.len() - 1];
        let tap = index + 1 < sequence.len() && frames_tap(frame, &sequence[index + 1]);
        proof {
            if index + 1 < sequence@.len() {
                assert(s[index + 1] == sequence@[index + 1]@);
            }
        }
        let name = input_event_name(device_group, event);
        let mut label = String::new();
        push_text(&mut label, "[");
        push_text(&mut label, name.as_str());
        if tap {
            push_text(&mut label, "↓↑");
        } else if event.value == 0 {
            push_text(&mut label, "↑");
        } else {
            push_text(&mut label, "↓");
        }
        push_text(&mut label, "]");
        proof {
            lemma_join_push(done, " "@, label@);
            assert(label_list(g, s, index as int) == seq![label@] + label_list(
                g,
                s,
                if tap {
                    index + 2
                } else {
                    index + 1
                },
            ));
            assert(done + label_list(g, s, index as int) =~= done.push(label@) + label_list(
                g,
                s,
                if tap {
                    index + 2
                } else {
                    index + 1
                },
            ));
        }
        if count > 0 {
            push_text(&mut out, " ");
        }
        let label_chars = chars_of(label.as_str());
        push_chars(&mut out, label_chars.as_slice());
        proof {
            done = done.push(label@);
        }
        count = count + 1;
        index = if tap {
            index + 2
        } else {
            index + 1
        };
    }
    assert(label_list(g, s, index as int) =~= Seq::<Seq<char>>::empty());
    assert(done =~= label_list(g, s, 0));
    if count == 0 {
        return "None".to_owned();
    }
    out
}

/// The label of a native key sequence: `None` when it emits nothing, the
/// names of the predefined shortcuts, else `key_names` (the names of its
/// key combinations) separated by commas.
pub open spec fn key_label(k: SpecKeySequence, key_names: Seq<Seq<char>>) -> Seq<char> {
    if k.native_sequence.len() == 0 {
        "None"@
    } else if k == spec_predefined_key(15, 0x0900_0001, 4) {
        "Alt+Tab"@
    } else if k == spec_predefined_key(62, 0x0900_0033, 4) {
        "Alt+F4"@
    } else if k == spec_modifier_only_key(125, 64) {
        "Meta"@
    } else {
        join(key_names, ", "@)
    }
}

/// Append `parts` joined by `sep`.
fn push_joined(out: &mut String, parts: &[String], sep: &str)
    ensures
        final(out)@ == old(out)@ + join(parts@.map_values(|p: String| p@), sep@),
{
    let ghost start = out@;
    let ghost pv = parts@.map_values(|p: String| p@);
    let mut i: usize = 0;
    assert(pv.take(0) =~= Seq::<Seq<char>>::empty());
    while i < parts.len()
        invariant
            i <= parts@.len(),
            pv == parts@.map_values(|p: String| p@),
            out@ == start + join(pv.take(i as int), sep@),
        decreases parts@.len() - i,
    {
        proof {
            lemma_join_push(pv.take(i as int), sep@, pv[i as int]);
            assert(pv.take(i + 1) =~= pv.take(i as int).push(pv[i as int]));
        }
        if i > 0 {
            push_text(out, sep);
        }
        push_text(out, parts[i].as_str());
        i = i + 1;
        assert(out@ =~= start + join(pv.take(i as int), sep@));
    }
    assert(pv.take(i as int) =~= pv);
}

/// The label of a native key sequence, given the names of its key
/// combinations as the desktop formats them.
pub fn native_key_label(sequence: &NativeKeySequence, key_names: &[String]) -> (r: String)
    ensures
        r@ == key_label(sequence@, key_names@.map_values(|p: String| p@)),
{
    if sequence.native_sequence.len() == 0 {
        return "None".to_owned();
    }
    let alt_tab = predefined_native_key(15, 0x0900_0001, 4);
    if key_sequences_equal(sequence, &alt_tab) {
        return "Alt+Tab".to_owned();
    }
    let alt_f4 = predefined_native_key(62, 0x0900_0033, 4);
    if key_sequences_equal(sequence, &alt_f4) {
        return "Alt+F4".to_owned();
    }
    let meta = modifier_only_native_key(125, 64);
    if key_sequences_equal(sequence, &meta) {
        return "Meta".to_owned();
    }
    let mut out = String::new();
    push_joined(&mut out, key_names, ", ");
    out
}

/// The label of a mapped action.
pub open spec fn action_label(a: SpecAction, key_names: Seq<Seq<char>>) -> Seq<char> {
    match a {
        SpecAction::KeySequence(k) => key_label(k, key_names),
        SpecAction::CyclePresets => "Cycle Presets"@,
        SpecAction::ToggleSpotlight => "Toggle Spotlight"@,
        SpecAction::ScrollHorizontal => "Scroll Horizontal"@,
        SpecAction::ScrollVertical => "Scroll Vertical"@,
        SpecAction::VolumeControl => "Volume Control"@,
    }
}

/// The label of a mapped action; `key_names` name the key combinations of
/// a key sequence.
pub fn mapped_action_label(action: &MappedAction, key_names: &[String]) -> (r: String)
    ensures
        r@ == action_label(action@, key_names@.map_values(|p: String| p@)),
{
    match action {
        MappedAction::KeySequence(sequence) => native_key_label(sequence, key_names),
        MappedAction::CyclePresets => "Cycle Presets".to_owned(),
        MappedAction::ToggleSpotlight => "Toggle Spotlight".to_owned(),
        MappedAction::ScrollHorizontal => "Scroll Horizontal".to_owned(),
        MappedAction::ScrollVertical => "Scroll Vertical".to_owned(),
        MappedAction::VolumeControl => "Volume Control".to_owned(),
    }
}

/// Input events ordered by type, code, then value.
pub open spec fn event_lt(a: InputEvent, b: InputEvent) -> bool {
    a.event_type < b.event_type || (a.event_type == b.event_type && (a.code < b.code || (a.code
        == b.code && a.value < b.value)))
}

/// Frames ordered lexicographically by their events.
pub open spec fn frame_lt(a: Seq<InputEvent>, b: Seq<InputEvent>) -> bool
    decreases a.len(),
{
    if a.len() == 0 {
        b.len() > 0
    } else if b.len() == 0 {
        false
    } else if event_lt(a[0], b[0]) {
        true
    } else if a[0] == b[0] {
        frame_lt(a.drop_first(), b.drop_first())
    } else {
        false
    }
}

/// Input sequences ordered lexicographically by their frames.
pub open spec fn sequence_lt(a: Seq<Seq<InputEvent>>, b: Seq<Seq<InputEvent>>) -> bool
    decreases a.len(),
{
    if a.len() == 0 {
        b.len() > 0
    } else if b.len() == 0 {
        false
    } else if frame_lt(a[0], b[0]) {
        true
    } else if a[0] == b[0] {
        sequence_lt(a.drop_first(), b.drop_first())
    } else {
        false
    }
}

fn frame_before(a: &Vec<InputEvent>, b: &Vec<InputEvent>) -> (r: bool)
    ensures
        r == frame_lt(a@, b@),
{
    let mut i: usize = 0;
    assert(a@.skip(0) =~= a@);
    assert(b@.skip(0) =~= b@);
    while i < a.len() && i < b.len()
        invariant
            i <= a@.len(),
            i <= b@.len(),
            frame_lt(a@, b@) == frame_lt(a@.skip(i as int), b@.skip(i as int)),
        decreases a@.len() - i,
    {
        let x = a[i];
        let y = b[i];
        assert(a@.skip(i as int)[0] == x && b@.skip(i as int)[0] == y);
        if x != y {
            return x.event_type < y.event_type || (x.event_type == y.event_type && (x.code < y.code
                || (x.code == y.code && x.value < y.value)));
        }
        assert(a@.skip(i as int).drop_first() =~= a@.skip(i + 1));
        assert(b@.skip(i as int).drop_first() =~= b@.skip(i + 1));
        i = i + 1;
    }
    assert(a@.skip(i as int).len() == a@.len() - i);
    assert(b@.skip(i as int).len() == b@.len() - i);
    i == a.len() && i < b.len()
}

fn sequence_before(a: &Vec<Vec<InputEvent>>, b: &Vec<Vec<InputEvent>>) -> (r: bool)
    ensures
        r == sequence_lt(frames_view(*a), frames_view(*b)),
{
    let ghost av = frames_view(*a);
    let ghost bv = frames_view(*b);
    let mut i: usize = 0;
    assert(av.skip(0) =~= av);
    assert(bv.skip(0) =~= bv);
    while i < a.len() && i < b.len()
        invariant
            i <= a@.len(),
            i <= b@.len(),
            av == frames_view(*a),
            bv == frames_view(*b),
            sequence_lt(av, bv) == sequence_lt(av.skip(i as int), bv.skip(i as int)),
        decreases a@.len() - i,
    {
        assert(av.skip(i as int)[0] == a@[i as int]@ && bv.skip(i as int)[0] == b@[i as int]@);
        if frame_before(&a[i], &b[i]) {
            return true;
        }
        if !events_equal(&a[i], &b[i]) {
            return false;
        }
        assert(av.skip(i as int).drop_first() =~= av.skip(i + 1));
        assert(bv.skip(i as int).drop_first() =~= bv.skip(i + 1));
        i = i + 1;
    }
    assert(av.skip(i as int).len() == a@.len() - i);
    assert(bv.skip(i as int).len() == b@.len() - i);
    i == a.len() && i < b.len()
}

/// The views of a sequence of mappings.
pub open spec fn mapping_views(s: Seq<InputMapping>) -> Seq<SpecMapping> {
    s.map_values(|m: InputMapping| m@)
}

/// The mappings with a non-empty input that no earlier mapping has.
pub open spec fn first_of_each_input(ms: Seq<SpecMapping>) -> Seq<SpecMapping>
    decreases ms.len(),
{
    if ms.len() == 0 {
        ms
    } else {
        let rest = first_of_each_input(ms.drop_last());
        let m = ms.last();
        if m.input.len() > 0 && !(exists|j: int| 0 <= j < ms.len() - 1 && ms[j].input == m.input) {
            rest.push(m)
        } else {
            rest
        }
    }
}

/// Insert `x` after every mapping whose input does not sort after its input.
pub open spec fn insert_mapping(s: Seq<SpecMapping>, x: SpecMapping) -> Seq<SpecMapping>
    decreases s.len(),
{
    if s.len() == 0 {
        seq![x]
    } else if sequence_lt(x.input, s[0].input) {
        seq![x] + s
    } else {
        seq![s[0]] + insert_mapping(s.drop_first(), x)
    }
}

/// Mappings sorted by input, keeping the order of equal ones.
pub open spec fn sort_mappings(s: Seq<SpecMapping>) -> Seq<SpecMapping>
    decreases s.len(),
{
    if s.len() == 0 {
        s
    } else {
        insert_mapping(sort_mappings(s.drop_last()), s.last())
    }
}

fn copy_mapping(m: &InputMapping) -> (r: InputMapping)
    ensures
        r@ == m@,
{
    InputMapping { input: copy_frames(&m.input), action: copy_action(&m.action) }
}

fn insert_mapping_exec(out: &mut Vec<InputMapping>, x: InputMapping)
    ensures
        mapping_views(final(out)@) == insert_mapping(mapping_views(old(out)@), x@),
{
    let ghost orig = mapping_views(out@);
    let mut j: usize = 0;
    assert(orig.skip(0) =~= orig);
    assert(orig.take(0) + insert_mapping(orig.skip(0), x@) =~= insert_mapping(orig, x@));
    while j < out.len()
        invariant
            j <= out@.len(),
            mapping_views(out@) == orig,
            orig == mapping_views(old(out)@),
            insert_mapping(orig, x@) == orig.take(j as int) + insert_mapping(orig.skip(j as int), x@),
        decreases out@.len() - j,
    {
        let ghost rest = orig.skip(j as int);
        assert(rest[0] == out@[j as int]@);
        assert(rest.drop_first() =~= orig.skip(j + 1));
        if sequence_before(&x.input, &out[j].input) {
            out.insert(j, x);
            assert(mapping_views(out@) =~= orig.take(j as int) + (seq![x@] + rest));
            return ;
        }
        assert(orig.take(j + 1) =~= orig.take(j as int).push(rest[0]));
        assert(orig.take(j as int) + insert_mapping(rest, x@) =~= orig.take(j + 1) + insert_mapping(
            orig.skip(j + 1),
            x@,
        ));
        j = j + 1;
    }
    assert(orig.skip(j as int) =~= Seq::<SpecMapping>::empty());
    assert(orig.take(j as int) =~= orig);
    out.push(x);
    assert(mapping_views(out@) =~= orig + seq![x@]);
}

pub(crate) fn frames_equal_exec(a: &Vec<Vec<InputEvent>>, b: &Vec<Vec<InputEvent>>) -> (r: bool)
    ensures
        r == (frames_view(*a) == frames_view(*b)),
{
    if a.len() != b.len() {
        assert(frames_view(*a).len() != frames_view(*b).len());
        return false;
    }
    let mut i: usize = 0;
    while i < a.len()
        invariant
            i <= a@.len(),
            a@.len() == b@.len(),
            forall|j: int| 0 <= j < i ==> frames_view(*a)[j] == frames_view(*b)[j],
        decreases a@.len() - i,
    {
        if !events_equal(&a[i], &b[i]) {
            assert(frames_view(*a)[i as int] != frames_view(*b)[i as int]);
            return false;
        }
        i = i + 1;
    }
    assert(frames_view(*a) =~= frames_view(*b));
    true
}

/// The mappings the editor works on: the first mapping of each non-empty
/// input, sorted by input.
pub fn canonical_input_mappings(items: &[InputMapping]) -> (r: Vec<InputMapping>)
    ensures
        mapping_views(r@) == sort_mappings(first_of_each_input(mapping_views(items@))),
{
    let ghost iv = mapping_views(items@);
    let mut kept: Vec<InputMapping> = Vec::new();
    let mut i: usize = 0;
    assert(iv.take(0) =~= Seq::<SpecMapping>::empty());
    assert(mapping_views(kept@) =~= first_of_each_input(iv.take(0)));
    while i < items.len()
        invariant
            i <= items@.len(),
            iv == mapping_views(items@),
            mapping_views(kept@) == first_of_each_input(iv.take(i as int)),
        decreases items@.len() - i,
    {
        let ghost t = iv.take(i + 1);
        assert(t.drop_last() =~= iv.take(i as int));
        assert(t.last() == items@[i as int]@);
        let mut seen = false;
        let mut j: usize = 0;
        while j < i
            invariant
                j <= i < items@.len(),
                iv == mapping_views(items@),
                t == iv.take(i + 1),
                seen == (exists|k: int| 0 <= k < j && t[k].input == t.last().input),
            decreases i - j,
        {
            assert(t[j as int] == items@[j as int]@);
            if frames_equal_exec(&items[j].input, &items[i].input) {
                seen = true;
            }
            j = j + 1;
        }
        if items[i].input.len() > 0 && !seen {
            let ghost prev = kept@;
            kept.push(copy_mapping(&items[i]));
            assert(mapping_views(kept@) =~= mapping_views(prev).push(items@[i as int]@));
        }
        i = i + 1;
    }
    assert(iv.take(i as int) =~= iv);
    let ghost kv = mapping_views(kept@);
    let mut out: Vec<InputMapping> = Vec::new();
    let mut k: usize = 0;
    assert(kv.take(0) =~= Seq::<SpecMapping>::empty());
    assert(mapping_views(out@) =~= sort_mappings(kv.take(0)));
    while k < kept.len()
        invariant
            k <= kept@.len(),
            kv == mapping_views(kept@),
            mapping_views(out@) == sort_mappings(kv.take(k as int)),
        decreases kept@.len() - k,
    {
        assert(kv.take(k + 1).drop_last() =~= kv.take(k as int));
        assert(kv.take(k + 1).last() == kept@[k as int]@);
        let m = copy_mapping(&kept[k]);
        insert_mapping_exec(&mut out, m);
        k = k + 1;
    }
    assert(kv.take(k as int) =~= kv);
    out
}

proof fn lemma_frame_lt_basic(a: Seq<InputEvent>, b: Seq<InputEvent>)
    ensures
        !frame_lt(a, a),
        frame_lt(a, b) ==> !frame_lt(b, a),
        a != b ==> frame_lt(a, b) || frame_lt(b, a),
    decreases a.len(),
{
    if a.len() > 0 {
        lemma_frame_lt_basic(a.drop_first(), a.drop_first());
    }
    if a.len() > 0 && b.len() > 0 {
        lemma_frame_lt_basic(a.drop_first(), b.drop_first());
        if a[0] == b[0] && a != b {
            assert(a =~= seq![a[0]] + a.drop_first());
            assert(b =~= seq![b[0]] + b.drop_first());
        }
    }
    if a.len() == 0 && b.len() == 0 {
        assert(a =~= b);
    }
}

proof fn lemma_frame_lt_transitive(a: Seq<InputEvent>, b: Seq<InputEvent>, c: Seq<InputEvent>)
    requires
        frame_lt(a, b),
        frame_lt(b, c),
    ensures
        frame_lt(a, c),
    decreases a.len(),
{
    if a.len() > 0 && a[0] == b[0] && b[0] == c[0] {
        lemma_frame_lt_transitive(a.drop_first(), b.drop_first(), c.drop_first());
    }
}

proof fn lemma_sequence_lt_basic(a: Seq<Seq<InputEvent>>, b: Seq<Seq<InputEvent>>)
    ensures
        !sequence_lt(a, a),
        sequence_lt(a, b) ==> !sequence_lt(b, a),
        a != b ==> sequence_lt(a, b) || sequence_lt(b, a),
    decreases a.len(),
{
    if a.len() > 0 {
        lemma_frame_lt_basic(a[0], a[0]);
        lemma_sequence_lt_basic(a.drop_first(), a.drop_first());
    }
    if a.len() > 0 && b.len() > 0 {
        lemma_frame_lt_basic(a[0], b[0]);
        lemma_sequence_lt_basic(a.drop_first(), b.drop_first());
        if a[0] == b[0] && a != b {
            assert(a =~= seq![a[0]] + a.drop_first());
            assert(b =~= seq![b[0]] + b.drop_first());
        }
    }
    if a.len() == 0 && b.len() == 0 {
        assert(a =~= b);
    }
}

proof fn lemma_sequence_lt_transitive(
    a: Seq<Seq<InputEvent>>,
    b: Seq<Seq<InputEvent>>,
    c: Seq<Seq<InputEvent>>,
)
    requires
        sequence_lt(a, b),
        sequence_lt(b, c),
    ensures
        sequence_lt(a, c),
    decreases a.len(),
{
    if a.len() > 0 && b.len() > 0 && c.len() > 0 {
        lemma_frame_lt_basic(a[0], b[0]);
        lemma_frame_lt_basic(b[0], c[0]);
        if frame_lt(a[0], b[0]) && frame_lt(b[0], c[0]) {
            lemma_frame_lt_transitive(a[0], b[0], c[0]);
        } else if a[0] == b[0] && b[0] == c[0] {
            lemma_sequence_lt_transitive(a.drop_first(), b.drop_first(), c.drop_first());
        }
    }
}

/// Inputs strictly increase along `s`.
pub open spec fn inputs_increasing(s: Seq<SpecMapping>) -> bool {
    forall|i: int, j: int| 0 <= i < j < s.len() ==> sequence_lt(#[trigger] s[i].input, #[trigger] s[j].input)
}

/// No two mappings of `s` share an input.
pub open spec fn inputs_distinct(s: Seq<SpecMapping>) -> bool {
    forall|i: int, j: int| 0 <= i < j < s.len() ==> #[trigger] s[i].input != #[trigger] s[j].input
}

proof fn lemma_insert_mapping(s: Seq<SpecMapping>, x: SpecMapping)
    requires
        inputs_increasing(s),
        forall|m: int| 0 <= m < s.len() ==> #[trigger] s[m].input != x.input,
    ensures
        inputs_increasing(insert_mapping(s, x)),
        insert_mapping(s, x).len() == s.len() + 1,
        forall|k: int|
            0 <= k < insert_mapping(s, x).len() ==> #[trigger] insert_mapping(s, x)[k] == x || exists|
                m: int,
            |
                0 <= m < s.len() && insert_mapping(s, x)[k] == s[m],
    decreases s.len(),
{
    let r = insert_mapping(s, x);
    if s.len() == 0 {
    } else if sequence_lt(x.input, s[0].input) {
        assert(r =~= seq![x] + s);
        assert forall|i: int, j: int| 0 <= i < j < r.len() implies sequence_lt(
            #[trigger] r[i].input,
            #[trigger] r[j].input,
        ) by {
            if i == 0 {
                assert(r[j] == s[j - 1]);
                if j > 1 {
                    assert(sequence_lt(s[0].input, s[j - 1].input));
                    lemma_sequence_lt_transitive(x.input, s[0].input, s[j - 1].input);
                }
            } else {
                assert(r[i] == s[i - 1] && r[j] == s[j - 1]);
            }
        }
        assert forall|k: int| 0 <= k < r.len() implies #[trigger] r[k] == x || exists|m: int|
            0 <= m < s.len() && r[k] == s[m] by {
            if k > 0 {
                assert(r[k] == s[k - 1]);
            }
        }
    } else {
        let rest = s.drop_first();
        assert forall|i: int, j: int| 0 <= i < j < rest.len() implies sequence_lt(
            #[trigger] rest[i].input,
            #[trigger] rest[j].input,
        ) by {
            assert(rest[i] == s[i + 1] && rest[j] == s[j + 1]);
        }
        assert forall|m: int| 0 <= m < rest.len() implies #[trigger] rest[m].input != x.input by {
            assert(rest[m] == s[m + 1]);
        }
        lemma_insert_mapping(rest, x);
        let t = insert_mapping(rest, x);
        assert(r =~= seq![s[0]] + t);
        lemma_sequence_lt_basic(x.input, s[0].input);
        assert(sequence_lt(s[0].input, x.input));
        assert forall|i: int, j: int| 0 <= i < j < r.len() implies sequence_lt(
            #[trigger] r[i].input,
            #[trigger] r[j].input,
        ) by {
            if i == 0 {
                assert(r[j] == t[j - 1]);
                if t[j - 1] != x {
                    let m = choose|m: int| 0 <= m < rest.len() && t[j - 1] == rest[m];
                    assert(rest[m] == s[m + 1]);
                }
            } else {
                assert(r[i] == t[i - 1] && r[j] == t[j - 1]);
            }
        }
        assert forall|k: int| 0 <= k < r.len() implies #[trigger] r[k] == x || exists|m: int|
            0 <= m < s.len() && r[k] == s[m] by {
            if k == 0 {
                assert(r[k] == s[0]);
            } else {
                assert(r[k] == t[k - 1]);
                if t[k - 1] != x {
                    let m = choose|m: int| 0 <= m < rest.len() && t[k - 1] == rest[m];
                    assert(rest[m] == s[m + 1]);
                }
            }
        }
    }
}

proof fn lemma_sort_mappings(s: Seq<SpecMapping>)
    requires
        inputs_distinct(s),
    ensures
        inputs_increasing(sort_mappings(s)),
        sort_mappings(s).len() == s.len(),
        forall|k: int|
            0 <= k < sort_mappings(s).len() ==> exists|m: int|
                0 <= m < s.len() && #[trigger] sort_mappings(s)[k] == s[m],
    decreases s.len(),
{
    if s.len() > 0 {
        let p = s.drop_last();
        assert forall|i: int, j: int| 0 <= i < j < p.len() implies #[trigger] p[i].input
            != #[trigger] p[j].input by {
            assert(p[i] == s[i] && p[j] == s[j]);
        }
        lemma_sort_mappings(p);
        let q = sort_mappings(p);
        let x = s.last();
        assert forall|m: int| 0 <= m < q.len() implies #[trigger] q[m].input != x.input by {
            let n = choose|n: int| 0 <= n < p.len() && q[m] == p[n];
            assert(p[n] == s[n]);
        }
        lemma_insert_mapping(q, x);
        let r = sort_mappings(s);
        assert forall|k: int| 0 <= k < r.len() implies exists|m: int|
            0 <= m < s.len() && #[trigger] r[k] == s[m] by {
            if r[k] == x {
                assert(r[k] == s[s.len() - 1]);
            } else {
                let n = choose|n: int| 0 <= n < q.len() && r[k] == q[n];
                let n2 = choose|n2: int| 0 <= n2 < p.len() && q[n] == p[n2];
                assert(p[n2] == s[n2]);
            }
        }
    }
}

proof fn lemma_first_of_each_input(ms: Seq<SpecMapping>)
    ensures
        inputs_distinct(first_of_each_input(ms)),
        forall|k: int|
            0 <= k < first_of_each_input(ms).len() ==> (#[trigger] first_of_each_input(ms)[k]).input.len()
                > 0 && exists|m: int| 0 <= m < ms.len() && first_of_each_input(ms)[k] == ms[m],
    decreases ms.len(),
{
    if ms.len() > 0 {
        let p = ms.drop_last();
        lemma_first_of_each_input(p);
        let rest = first_of_each_input(p);
        let x = ms.last();
        let r = first_of_each_input(ms);
        if x.input.len() > 0 && !(exists|j: int| 0 <= j < ms.len() - 1 && ms[j].input == x.input) {
            assert(r == rest.push(x));
            assert forall|i: int, j: int| 0 <= i < j < r.len() implies #[trigger] r[i].input
                != #[trigger] r[j].input by {
                if j == r.len() - 1 {
                    let n = choose|n: int| 0 <= n < p.len() && rest[i] == p[n];
                    assert(p[n] == ms[n]);
                } else {
                    assert(r[i] == rest[i] && r[j] == rest[j]);
                }
            }
            assert forall|k: int| 0 <= k < r.len() implies (#[trigger] r[k]).input.len() > 0
                && exists|m: int| 0 <= m < ms.len() && r[k] == ms[m] by {
                if k == r.len() - 1 {
                    assert(r[k] == ms[ms.len() - 1]);
                } else {
                    assert(r[k] == rest[k]);
                    let n = choose|n: int| 0 <= n < p.len() && rest[k] == p[n];
                    assert(p[n] == ms[n]);
                }
            }
        } else {
            assert forall|k: int| 0 <= k < r.len() implies (#[trigger] r[k]).input.len() > 0
                && exists|m: int| 0 <= m < ms.len() && r[k] == ms[m] by {
                let n = choose|n: int| 0 <= n < p.len() && rest[k] == p[n];
                assert(p[n] == ms[n]);
            }
        }
    }
}

/// The mappings the editor works on are mappings given to it, each with a
/// non-empty input, in strictly increasing order of input: no input occurs
/// twice.
pub proof fn lemma_canonical_mappings_sorted(ms: Seq<SpecMapping>)
    ensures
        inputs_increasing(sort_mappings(first_of_each_input(ms))),
        forall|k: int|
            0 <= k < sort_mappings(first_of_each_input(ms)).len() ==> (
            #[trigger] sort_mappings(first_of_each_input(ms))[k]).input.len() > 0 && exists|m: int|
                0 <= m < ms.len() && sort_mappings(first_of_each_input(ms))[k] == ms[m],
{
    let f = first_of_each_input(ms);
    lemma_first_of_each_input(ms);
    lemma_sort_mappings(f);
    let r = sort_mappings(f);
    assert forall|k: int| 0 <= k < r.len() implies (#[trigger] r[k]).input.len() > 0 && exists|
        m: int,
    | 0 <= m < ms.len() && r[k] == ms[m] by {
        let n = choose|n: int| 0 <= n < f.len() && r[k] == f[n];
        assert(f[n].input.len() > 0);
        let m = choose|m: int| 0 <= m < ms.len() && f[n] == ms[m];
    }
}

} // verus!
