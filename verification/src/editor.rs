//! The input-mapping editor's operations on the rows it shows, and the
//! choice of the next or previous preset.

use vstd::prelude::*;

use crate::input_event::{InputEvent, EV_KEY};
use crate::input_mapping::{
    frames_view, spec_type_id, InputMapping, MappedAction, NativeKeySequence, SpecAction,
    SpecKeySequence, SpecMapping,
};
use crate::labels::{
    action_label, frames_equal_exec, input_sequence_label, mapped_action_label, mapping_views,
    sequence_label, special_move, special_move_name,
};
use crate::presenter::{
    modifier_only_native_key, predefined_native_key, spec_modifier_only_key, spec_predefined_key,
};
use crate::text::chars_are;

verus! {

/// What the editor shows of one mapping.
#[derive(Debug, PartialEq, Eq)]
pub struct MappingRow {
    pub row: usize,
    pub input: String,
    pub duplicate: bool,
    pub move_input: bool,
    pub action_type: i32,
    pub action: String,
}

/// Another mapping than the one at `i` has the same input.
pub open spec fn input_repeated(ms: Seq<SpecMapping>, i: int) -> bool {
    exists|j: int| 0 <= j < ms.len() && j != i && #[trigger] ms[j].input == ms[i].input
}

/// The names of the key combinations given for row `i`, none when absent.
pub open spec fn names_for(names: Seq<Seq<Seq<char>>>, i: int) -> Seq<Seq<char>> {
    if i < names.len() {
        names[i]
    } else {
        Seq::empty()
    }
}

/// The row the editor shows for mapping `i` of the device group `g`.
pub open spec fn row_view(
    g: Seq<char>,
    ms: Seq<SpecMapping>,
    i: int,
    names: Seq<Seq<Seq<char>>>,
) -> (int, Seq<char>, bool, bool, i32, Seq<char>) {
    (
        i,
        sequence_label(g, ms[i].input),
        input_repeated(ms, i),
        special_move(ms[i].input) is Some,
        spec_type_id(ms[i].action),
        action_label(ms[i].action, names_for(names, i)),
    )
}

/// The view of a row.
pub open spec fn row_values(r: MappingRow) -> (int, Seq<char>, bool, bool, i32, Seq<char>) {
    (r.row as int, r.input@, r.duplicate, r.move_input, r.action_type, r.action@)
}

/// The key-combination names given per row.
pub open spec fn names_view(names: Seq<Vec<String>>) -> Seq<Seq<Seq<char>>> {
    names.map_values(|v: Vec<String>| v@.map_values(|s: String| s@))
}

fn repeated_exec(items: &[InputMapping], i: usize) -> (r: bool)
    requires
        i < items@.len(),
    ensures
        r == input_repeated(mapping_views(items@), i as int),
{
    let ghost ms = mapping_views(items@);
    let mut j: usize = 0;
    while j < items.len()
        invariant
            i < items@.len(),
            j <= items@.len(),
            ms == mapping_views(items@),
            forall|k: int| 0 <= k < j && k != i ==> ms[k].input != ms[i as int].input,
        decreases items@.len() - j,
    {
        if j != i && frames_equal_exec(&items[j].input, &items[i].input) {
            assert(ms[j as int].input == ms[i as int].input);
            return true;
        }
        j = j + 1;
    }
    false
}

/// The rows the editor shows for the mappings of device group
/// `device_group`; `key_names[i]` names the key combinations of row `i`'s
/// key sequence as the desktop formats them.
pub fn mapping_rows(device_group: &str, items: &[InputMapping], key_names: &[Vec<String>]) -> (r: Vec<
    MappingRow,
>)
    ensures
        r@.len() == items@.len(),
        forall|i: int|
            0 <= i < items@.len() ==> row_values(#[trigger] r@[i]) == row_view(
                device_group@,
                mapping_views(items@),
                i,
                names_view(key_names@),
            ),
{
    let ghost ms = mapping_views(items@);
    let ghost nv = names_view(key_names@);
    let mut rows: Vec<MappingRow> = Vec::new();
    let mut i: usize = 0;
    while i < items.len()
        invariant
            i <= items@.len(),
            ms == mapping_views(items@),
            nv == names_view(key_names@),
            rows@.len() == i,
            forall|k: int|
                0 <= k < i ==> row_values(#[trigger] rows@[k]) == row_view(device_group@, ms, k, nv),
        decreases items@.len() - i,
    {
        let item = &items[i];
        assert(ms[i as int] == item@);
        let no_names: Vec<String> = Vec::new();
        let names: &Vec<String> = if i < key_names.len() {
            &key_names[i]
        } else {
            &no_names
        };
        assert(names@.map_values(|s: String| s@) =~= names_for(nv, i as int));
        let row = MappingRow {
            row: i,
            input: input_sequence_label(device_group, &item.input),
            duplicate: repeated_exec(items, i),
            move_input: special_move_name(&item.input).is_some(),
            action_type: item.action.type_id(),
            action: mapped_action_label(&item.action, names.as_slice()),
        };
        rows.push(row);
        i = i + 1;
    }
    rows
}

/// The action type codes and the actions they stand for: a key sequence,
/// preset cycling or the spotlight for an ordinary input; scrolling or
/// volume for a held-button movement.
pub open spec fn action_for_type(action_type: i32, move_input: bool) -> Option<SpecAction> {
    if action_type == 1 && !move_input {
        Some(
            SpecAction::KeySequence(
                SpecKeySequence {
                    qt_keys: Seq::empty(),
                    native_sequence: Seq::empty(),
                    native_modifiers: Seq::empty(),
                },
            ),
        )
    } else if action_type == 2 && !move_input {
        Some(SpecAction::CyclePresets)
    } else if action_type == 3 && !move_input {
        Some(SpecAction::ToggleSpotlight)
    } else if action_type == 11 && move_input {
        Some(SpecAction::ScrollHorizontal)
    } else if action_type == 12 && move_input {
        Some(SpecAction::ScrollVertical)
    } else if action_type == 13 && move_input {
        Some(SpecAction::VolumeControl)
    } else {
        None
    }
}

/// Give row `row` the action of type `action_type`. Nothing changes, and
/// the result is `false`, for a row that does not exist or a type that does
/// not suit its input.
pub fn set_mapping_action(items: &mut Vec<InputMapping>, row: i32, action_type: i32) -> (r: bool)
    ensures
        ({
            let ms = mapping_views(old(items)@);
            if 0 <= row < ms.len() && action_for_type(
                action_type,
                special_move(ms[row as int].input) is Some,
            ) is Some {
                &&& r
                &&& mapping_views(final(items)@) == ms.update(
                    row as int,
                    SpecMapping {
                        input: ms[row as int].input,
                        action: action_for_type(
                            action_type,
                            special_move(ms[row as int].input) is Some,
                        )->0,
                    },
                )
            } else {
                !r && mapping_views(final(items)@) == ms
            }
        }),
{
    let ghost ms = mapping_views(items@);
    if row < 0 || row as usize >= items.len() {
        return false;
    }
    let i = row as usize;
    assert(ms[i as int] == items@[i as int]@);
    let move_input = special_move_name(&items[i].input).is_some();
    let action = if action_type == 1 && !move_input {
        MappedAction::KeySequence(NativeKeySequence::default())
    } else if action_type == 2 && !move_input {
        MappedAction::CyclePresets
    } else if action_type == 3 && !move_input {
        MappedAction::ToggleSpotlight
    } else if action_type == 11 && move_input {
        MappedAction::ScrollHorizontal
    } else if action_type == 12 && move_input {
        MappedAction::ScrollVertical
    } else if action_type == 13 && move_input {
        MappedAction::VolumeControl
    } else {
        return false;
    };
    let mut item = items.remove(i);
    item.action = action;
    items.insert(i, item);
    assert(mapping_views(items@) =~= ms.update(
        i as int,
        SpecMapping {
            input: ms[i as int].input,
            action: action_for_type(action_type, special_move(ms[i as int].input) is Some)->0,
        },
    ));
    true
}

/// The key sequence a predefined shortcut name stands for.
pub open spec fn predefined_named(name: Seq<char>) -> Option<SpecKeySequence> {
    if name == "Alt+Tab"@ {
        Some(spec_predefined_key(15, 0x0900_0001, 4))
    } else if name == "Alt+F4"@ {
        Some(spec_predefined_key(62, 0x0900_0033, 4))
    } else if name == "Meta"@ {
        Some(spec_modifier_only_key(125, 64))
    } else if name == "None"@ {
        Some(
            SpecKeySequence {
                qt_keys: Seq::empty(),
                native_sequence: Seq::empty(),
                native_modifiers: Seq::empty(),
            },
        )
    } else {
        None
    }
}

/// Make the key sequence of row `row` the predefined shortcut `name`
/// (`Alt+Tab`, `Alt+F4`, `Meta` or `None`). Nothing changes, and the result
/// is `false`, for another name, a row that does not exist, or a row whose
/// action is not a key sequence.
pub fn set_predefined_key(items: &mut Vec<InputMapping>, row: i32, name: &str) -> (r: bool)
    ensures
        ({
            let ms = mapping_views(old(items)@);
            if 0 <= row < ms.len() && predefined_named(name@) is Some
                && ms[row as int].action is KeySequence {
                &&& r
                &&& mapping_views(final(items)@) == ms.update(
                    row as int,
                    SpecMapping {
                        input: ms[row as int].input,
                        action: SpecAction::KeySequence(predefined_named(name@)->0),
                    },
                )
            } else {
                !r && mapping_views(final(items)@) == ms
            }
        }),
{
    let ghost ms = mapping_views(items@);
    let sequence = if chars_are_str(name, "Alt+Tab") {
        predefined_native_key(15, 0x0900_0001, 4)
    } else if chars_are_str(name, "Alt+F4") {
        predefined_native_key(62, 0x0900_0033, 4)
    } else if chars_are_str(name, "Meta") {
        modifier_only_native_key(125, 64)
    } else if chars_are_str(name, "None") {
        NativeKeySequence::default()
    } else {
        return false;
    };
    if row < 0 || row as usize >= items.len() {
        return false;
    }
    let i = row as usize;
    assert(ms[i as int] == items@[i as int]@);
    match &items[i].action {
        MappedAction::KeySequence(_) => {},
        _ => {
            return false;
        },
    }
    let mut item = items.remove(i);
    item.action = MappedAction::KeySequence(sequence);
    items.insert(i, item);
    assert(mapping_views(items@) =~= ms.update(
        i as int,
        SpecMapping {
            input: ms[i as int].input,
            action: SpecAction::KeySequence(predefined_named(name@)->0),
        },
    ));
    true
}

fn chars_are_str(s: &str, t: &str) -> (r: bool)
    ensures
        r == (s@ == t@),
{
    let c = crate::text::chars_of(s);
    chars_are(c.as_slice(), t)
}

/// The code of the held-button movement a name stands for.
pub open spec fn move_code_named(name: Seq<char>) -> Option<u16> {
    if name == "Next Hold Move"@ {
        Some(0x0ff0u16)
    } else if name == "Back Hold Move"@ {
        Some(0x0ff1u16)
    } else {
        None
    }
}

/// The input of a held-button movement: its code pressed three times in one
/// frame.
pub open spec fn move_input_of(code: u16) -> Seq<Seq<InputEvent>> {
    let e = InputEvent { event_type: EV_KEY, code, value: 1 };
    seq![seq![e, e, e]]
}

/// The action a movement mapping keeps: scrolling or volume stays, anything
/// else becomes vertical scrolling.
pub open spec fn movement_action(a: SpecAction) -> SpecAction {
    match a {
        SpecAction::ScrollHorizontal => a,
        SpecAction::ScrollVertical => a,
        SpecAction::VolumeControl => a,
        _ => SpecAction::ScrollVertical,
    }
}

/// Make row `row` a held-button movement (`Next Hold Move` or `Back Hold
/// Move`). Nothing changes, and the result is `false`, for another name or
/// a row that does not exist.
pub fn set_special_input(items: &mut Vec<InputMapping>, row: i32, name: &str) -> (r: bool)
    ensures
        ({
            let ms = mapping_views(old(items)@);
            if 0 <= row < ms.len() && move_code_named(name@) is Some {
                &&& r
                &&& mapping_views(final(items)@) == ms.update(
                    row as int,
                    SpecMapping {
                        input: move_input_of(move_code_named(name@)->0),
                        action: movement_action(ms[row as int].action),
                    },
                )
            } else {
                !r && mapping_views(final(items)@) == ms
            }
        }),
{
    let ghost ms = mapping_views(items@);
    if row < 0 {
        return false;
    }
    let code: u16 = if chars_are_str(name, "Next Hold Move") {
        0x0ff0
    } else if chars_are_str(name, "Back Hold Move") {
        0x0ff1
    } else {
        return false;
    };
    if row as usize >= items.len() {
        return false;
    }
    let i = row as usize;
    assert(ms[i as int] == items@[i as int]@);
    let event = InputEvent { event_type: EV_KEY, code, value: 1 };
    let mut item = items.remove(i);
    item.input = vec![vec![event, event, event]];
    let keep = match &item.action {
        MappedAction::ScrollHorizontal => true,
        MappedAction::ScrollVertical => true,
        MappedAction::VolumeControl => true,
        _ => false,
    };
    if !keep {
        item.action = MappedAction::ScrollVertical;
    }
    assert(item.input@[0]@ =~= seq![event, event, event]);
    assert(frames_view(item.input) =~= move_input_of(code));
    items.insert(i, item);
    assert(mapping_views(items@) =~= ms.update(
        i as int,
        SpecMapping { input: move_input_of(code), action: movement_action(ms[i as int].action) },
    ));
    true
}

/// Add an empty row, with an empty key sequence as its action. Returns its
/// row number, or -1 when that does not fit an `i32`.
pub fn add_mapping(items: &mut Vec<InputMapping>) -> (r: i32)
    ensures
        mapping_views(final(items)@) == mapping_views(old(items)@).push(
            SpecMapping {
                input: Seq::empty(),
                action: SpecAction::KeySequence(
                    SpecKeySequence {
                        qt_keys: Seq::empty(),
                        native_sequence: Seq::empty(),
                        native_modifiers: Seq::empty(),
                    },
                ),
            },
        ),
        r == (if old(items)@.len() <= i32::MAX {
            old(items)@.len() as i32
        } else {
            -1i32
        }),
{
    let row = items.len();
    let item = InputMapping {
        input: Vec::new(),
        action: MappedAction::KeySequence(NativeKeySequence::default()),
    };
    assert(frames_view(item.input) =~= Seq::<Seq<InputEvent>>::empty());
    let ghost prev = mapping_views(items@);
    items.push(item);
    assert(mapping_views(items@) =~= prev.push(item@));
    if row <= i32::MAX as usize {
        row as i32
    } else {
        -1
    }
}

/// Remove row `row`. Nothing changes, and the result is `false`, for a row
/// that does not exist.
pub fn remove_mapping(items: &mut Vec<InputMapping>, row: i32) -> (r: bool)
    ensures
        ({
            let ms = mapping_views(old(items)@);
            if 0 <= row < ms.len() {
                r && mapping_views(final(items)@) == ms.remove(row as int)
            } else {
                !r && mapping_views(final(items)@) == ms
            }
        }),
{
    let ghost ms = mapping_views(items@);
    if row < 0 || row as usize >= items.len() {
        return false;
    }
    items.remove(row as usize);
    assert(mapping_views(items@) =~= ms.remove(row as int));
    true
}

/// Make a recorded shortcut the action of row `row`. Nothing changes, and
/// the result is `false`, when nothing was recorded or the row does not
/// exist.
pub fn apply_recorded_shortcut(items: &mut Vec<InputMapping>, row: usize, sequence: NativeKeySequence) -> (r:
    bool)
    ensures
        ({
            let ms = mapping_views(old(items)@);
            if sequence@.qt_keys.len() > 0 && row < ms.len() {
                r && mapping_views(final(items)@) == ms.update(
                    row as int,
                    SpecMapping {
                        input: ms[row as int].input,
                        action: SpecAction::KeySequence(sequence@),
                    },
                )
            } else {
                !r && mapping_views(final(items)@) == ms
            }
        }),
{
    let ghost ms = mapping_views(items@);
    let ghost sv = sequence@;
    if sequence.qt_keys.len() == 0 || row >= items.len() {
        return false;
    }
    assert(ms[row as int] == items@[row as int]@);
    let mut item = items.remove(row);
    item.action = MappedAction::KeySequence(sequence);
    items.insert(row, item);
    assert(mapping_views(items@) =~= ms.update(
        row as int,
        SpecMapping { input: ms[row as int].input, action: SpecAction::KeySequence(sv) },
    ));
    true
}

/// Scrolling or volume: the actions of a held-button movement.
pub open spec fn is_move_action(a: SpecAction) -> bool {
    a is ScrollHorizontal || a is ScrollVertical || a is VolumeControl
}

/// The action a row keeps when its input becomes `input`: a movement gets
/// vertical scrolling unless it has a movement action, and an ordinary
/// input loses a movement action for an empty key sequence.
pub open spec fn action_after_input(a: SpecAction, input: Seq<Seq<InputEvent>>) -> SpecAction {
    let move_input = special_move(input) is Some;
    if move_input && !is_move_action(a) {
        SpecAction::ScrollVertical
    } else if !move_input && is_move_action(a) {
        SpecAction::KeySequence(
            SpecKeySequence {
                qt_keys: Seq::empty(),
                native_sequence: Seq::empty(),
                native_modifiers: Seq::empty(),
            },
        )
    } else {
        a
    }
}

/// Make a recorded input sequence the input of row `row`. Nothing changes,
/// and the result is `false`, when nothing was recorded or the row does not
/// exist.
pub fn apply_recorded_input(items: &mut Vec<InputMapping>, row: i32, sequence: Vec<Vec<InputEvent>>) -> (r:
    bool)
    ensures
        ({
            let ms = mapping_views(old(items)@);
            let input = frames_view(sequence);
            if 0 <= row < ms.len() && input.len() > 0 {
                r && mapping_views(final(items)@) == ms.update(
                    row as int,
                    SpecMapping { input, action: action_after_input(ms[row as int].action, input) },
                )
            } else {
                !r && mapping_views(final(items)@) == ms
            }
        }),
{
    let ghost ms = mapping_views(items@);
    let ghost input = frames_view(sequence);
    if row < 0 || row as usize >= items.len() || sequence.len() == 0 {
        return false;
    }
    let i = row as usize;
    assert(ms[i as int] == items@[i as int]@);
    let mut item = items.remove(i);
    let move_input = special_move_name(&sequence).is_some();
    let move_action = match &item.action {
        MappedAction::ScrollHorizontal => true,
        MappedAction::ScrollVertical => true,
        MappedAction::VolumeControl => true,
        _ => false,
    };
    item.input = sequence;
    if move_input && !move_action {
        item.action = MappedAction::ScrollVertical;
    } else if !move_input && move_action {
        item.action = MappedAction::KeySequence(NativeKeySequence::default());
    }
    items.insert(i, item);
    assert(mapping_views(items@) =~= ms.update(
        i as int,
        SpecMapping { input, action: action_after_input(ms[i as int].action, input) },
    ));
    true
}

/// The position of `current` among `names`, if there.
pub open spec fn position_of(names: Seq<Seq<char>>, current: Seq<char>) -> Option<int>
    decreases names.len(),
{
    if names.len() == 0 {
        None
    } else {
        match position_of(names.drop_last(), current) {
            Some(i) => Some(i),
            None => if names.last() == current {
                Some(names.len() - 1)
            } else {
                None
            },
        }
    }
}

/// The preset to load when moving by `offset` from the current one: the
/// previous (for a negative offset) or next name, wrapping around, and the
/// last or first name when the current preset is not among them.
pub open spec fn relative_index(names: Seq<Seq<char>>, current: Seq<char>, offset: i32) -> Option<
    int,
> {
    if names.len() == 0 {
        None
    } else if offset < 0 {
        match position_of(names, current) {
            Some(i) if i > 0 => Some(i - 1),
            _ => Some(names.len() - 1),
        }
    } else {
        match position_of(names, current) {
            Some(i) if i + 1 < names.len() => Some(i + 1),
            _ => Some(0),
        }
    }
}

proof fn lemma_position_bounds(names: Seq<Seq<char>>, current: Seq<char>)
    ensures
        position_of(names, current) matches Some(i) ==> 0 <= i < names.len() && names[i] == current,
        position_of(names, current) is None ==> forall|k: int| 0 <= k < names.len() ==> names[k] != current,
        forall|k: int|
            0 <= k < names.len() && names[k] == current ==> (position_of(names, current) matches Some(i) && i <= k),
    decreases names.len(),
{
    if names.len() > 0 {
        lemma_position_bounds(names.drop_last(), current);
        assert forall|k: int| 0 <= k < names.len() - 1 implies names.drop_last()[k] == names[k] by {}
    }
}

/// Choose the preset to load when moving by `offset` through `names`, the
/// names of the presets in order.
pub fn relative_preset_index(names: &[String], current: &str, offset: i32) -> (r: Option<usize>)
    ensures
        match relative_index(names@.map_values(|s: String| s@), current@, offset) {
            Some(i) => r == Some(i as usize),
            None => r is None,
        },
{
    let ghost nv = names@.map_values(|s: String| s@);
    if names.len() == 0 {
        return None;
    }
    proof {
        lemma_position_bounds(nv, current@);
    }
    let mut position: Option<usize> = None;
    let mut k: usize = 0;
    while k < names.len()
        invariant_except_break
            position is None,
        invariant
            k <= names@.len(),
            nv == names@.map_values(|s: String| s@),
            forall|j: int| 0 <= j < k ==> nv[j] != current@,
        ensures
            k <= names@.len(),
            position matches Some(p) ==> p == k && k < names@.len() && nv[k as int] == current@,
            position is None ==> k == names@.len(),
            forall|j: int| 0 <= j < k ==> nv[j] != current@,
        decreases names@.len() - k,
    {
        if chars_are_str(names[k].as_str(), current) {
            position = Some(k);
            break;
        }
        k = k + 1;
    }
    let n = names.len();
    if offset < 0 {
        match position {
            Some(i) => if i > 0 {
                Some(i - 1)
            } else {
                Some(n - 1)
            },
            None => Some(n - 1),
        }
    } else {
        match position {
            Some(i) => if i + 1 < n {
                Some(i + 1)
            } else {
                Some(0)
            },
            None => Some(0),
        }
    }
}

} // verus!
