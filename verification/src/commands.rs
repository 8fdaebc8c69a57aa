//! Commands given with `-c`, over the control service, or forwarded from a
//! second launch: `quit`, `spot=on|off|toggle`, `settings=show|hide`,
//! `preset=NAME`, `preset.next`, `preset.previous`, `spot.size.adjust=N`
//! and `PROPERTY=VALUE`.

use vstd::prelude::*;

use crate::presenter::{command_bool, command_true};
use crate::settings::clamp_to;
use crate::text::{
    ascii_lower, chars_are, chars_of, int_value, split_once, split_once_chars, string_of, trim,
    trim_chars, to_ascii_lowercase,
};

verus! {

/// What a command asks of the application.
#[derive(Debug, PartialEq, Eq)]
pub enum AppCommand {
    Quit,
    ToggleSpot,
    SetSpot(bool),
    ShowSettings(bool),
    LoadPreset(String),
    NextPreset,
    PreviousPreset,
    AdjustSpotSize(i32),
    /// Set a property; the value is not empty.
    Property { key: String, value: String },
    Ignore,
}

/// The view of a command.
pub enum CommandValue {
    Quit,
    ToggleSpot,
    SetSpot(bool),
    ShowSettings(bool),
    LoadPreset(Seq<char>),
    NextPreset,
    PreviousPreset,
    AdjustSpotSize(i32),
    Property { key: Seq<char>, value: Seq<char> },
    Ignore,
}

impl View for AppCommand {
    type V = CommandValue;

    open spec fn view(&self) -> CommandValue {
        match self {
            AppCommand::Quit => CommandValue::Quit,
            AppCommand::ToggleSpot => CommandValue::ToggleSpot,
            AppCommand::SetSpot(b) => CommandValue::SetSpot(*b),
            AppCommand::ShowSettings(b) => CommandValue::ShowSettings(*b),
            AppCommand::LoadPreset(p) => CommandValue::LoadPreset(p@),
            AppCommand::NextPreset => CommandValue::NextPreset,
            AppCommand::PreviousPreset => CommandValue::PreviousPreset,
            AppCommand::AdjustSpotSize(n) => CommandValue::AdjustSpotSize(*n),
            AppCommand::Property { key, value } => CommandValue::Property {
                key: key@,
                value: value@,
            },
            AppCommand::Ignore => CommandValue::Ignore,
        }
    }
}

/// Text in ASCII lower case.
pub open spec fn lower(v: Seq<char>) -> Seq<char> {
    v.map_values(|c: char| ascii_lower(c))
}

/// What a command text asks: its key and value are the trimmed text
/// before and after the first `=` (the value empty without one).
pub open spec fn command_meaning(command: Seq<char>) -> CommandValue {
    let (k, v) = match split_once(command, '=') {
        Some((a, b)) => (a, b),
        None => (command, Seq::empty()),
    };
    let key = trim(k);
    let value = trim(v);
    if key == "quit"@ {
        CommandValue::Quit
    } else if key == "spot"@ && lower(value) == "toggle"@ {
        CommandValue::ToggleSpot
    } else if key == "spot"@ {
        CommandValue::SetSpot(lower(value) == "on"@ || lower(value) == "true"@ || value == "1"@)
    } else if key == "settings"@ || key == "preferences"@ {
        CommandValue::ShowSettings(!(lower(value) == "hide"@ || value == "0"@))
    } else if key == "preset"@ && value.len() > 0 {
        CommandValue::LoadPreset(value)
    } else if key == "preset.next"@ {
        CommandValue::NextPreset
    } else if key == "preset.previous"@ {
        CommandValue::PreviousPreset
    } else if key == "spot.size.adjust"@ {
        match int_value(value, 10, true, i32::MIN as int, i32::MAX as int) {
            Some(n) => CommandValue::AdjustSpotSize(n as i32),
            None => CommandValue::Ignore,
        }
    } else if value.len() > 0 {
        CommandValue::Property { key, value }
    } else {
        CommandValue::Ignore
    }
}

/// Read one command.
pub fn parse_app_command(command: &str) -> (r: AppCommand)
    ensures
        r@ == command_meaning(command@),
{
    let text = chars_of(command);
    let (k, v) = match split_once_chars(text.as_slice(), '=') {
        Some((a, b)) => (a, b),
        None => (text, Vec::new()),
    };
    assert(split_once(command@, '=') is None ==> v@ =~= Seq::<char>::empty());
    let key = trim_chars(k.as_slice());
    let value = trim_chars(v.as_slice());
    let lowered = to_ascii_lowercase(value.as_slice());
    let key = key.as_slice();
    if chars_are(key, "quit") {
        AppCommand::Quit
    } else if chars_are(key, "spot") && chars_are(lowered.as_slice(), "toggle") {
        AppCommand::ToggleSpot
    } else if chars_are(key, "spot") {
        AppCommand::SetSpot(
            chars_are(lowered.as_slice(), "on") || chars_are(lowered.as_slice(), "true") || chars_are(
                value.as_slice(),
                "1",
            ),
        )
    } else if chars_are(key, "settings") || chars_are(key, "preferences") {
        AppCommand::ShowSettings(
            !(chars_are(lowered.as_slice(), "hide") || chars_are(value.as_slice(), "0")),
        )
    } else if chars_are(key, "preset") && value.len() > 0 {
        AppCommand::LoadPreset(string_of(value.as_slice()))
    } else if chars_are(key, "preset.next") {
        AppCommand::NextPreset
    } else if chars_are(key, "preset.previous") {
        AppCommand::PreviousPreset
    } else if chars_are(key, "spot.size.adjust") {
        match crate::text::parse_i32(value.as_slice()) {
            Some(n) => AppCommand::AdjustSpotSize(n),
            None => AppCommand::Ignore,
        }
    } else if value.len() > 0 {
        AppCommand::Property { key: string_of(key), value: string_of(value.as_slice()) }
    } else {
        AppCommand::Ignore
    }
}

/// The spot size after adjusting it by `adjustment`, limited to the spot
/// size range.
pub fn adjusted_spot_size(size: i32, adjustment: i32) -> (r: i32)
    requires
        i32::MIN <= size + adjustment <= i32::MAX,
    ensures
        r == clamp_to((size + adjustment) as i32, 5, 100),
{
    crate::settings::spot_size_range().clamp(size + adjustment)
}

/// What setting a property names.
#[derive(Clone, Copy, Debug, PartialEq, Eq)]
pub enum PropertyChange {
    /// Whether the overlay is enabled.
    Overlay(bool),
    /// The `General` setting with this key, read from the property's value.
    General(&'static str),
    /// The spot shape component.
    SpotShape(&'static str),
    /// An unknown property or shape.
    Unknown,
}

/// The `General` key a property names, if any.
pub open spec fn general_property(key: Seq<char>) -> Option<Seq<char>> {
    if key == "spot.multi-screen"@ {
        Some("multiScreenOverlay"@)
    } else if key == "spot.size"@ {
        Some("spotSize"@)
    } else if key == "spot.rotation"@ {
        Some("spotRotation"@)
    } else if key == "spot.shape.square.radius"@ {
        Some("Shape.Square/radius"@)
    } else if key == "spot.shape.star.points"@ {
        Some("Shape.Star/points"@)
    } else if key == "spot.shape.star.innerradius"@ {
        Some("Shape.Star/innerRadius"@)
    } else if key == "spot.shape.ngon.sides"@ {
        Some("Shape.Ngon/sides"@)
    } else if key == "shade"@ {
        Some("showSpotShade"@)
    } else if key == "shade.opacity"@ {
        Some("shadeOpacity"@)
    } else if key == "shade.color"@ {
        Some("shadeColor"@)
    } else if key == "dot"@ {
        Some("showCenterDot"@)
    } else if key == "dot.size"@ {
        Some("dotSize"@)
    } else if key == "dot.color"@ {
        Some("dotColor"@)
    } else if key == "dot.opacity"@ {
        Some("dotOpacity"@)
    } else if key == "dot.mode"@ {
        Some("dotMode"@)
    } else if key == "dot.trail"@ {
        Some("dotTrailEnabled"@)
    } else if key == "border"@ {
        Some("showBorder"@)
    } else if key == "border.size"@ {
        Some("borderSize"@)
    } else if key == "border.color"@ {
        Some("borderColor"@)
    } else if key == "border.opacity"@ {
        Some("borderOpacity"@)
    } else if key == "zoom"@ {
        Some("enableZoom"@)
    } else if key == "zoom.factor"@ {
        Some("zoomFactor"@)
    } else if key == "zoom.mode"@ {
        Some("zoomMode"@)
    } else {
        None
    }
}

/// The spot shape component a `spot.shape` value names, in any ASCII case.
pub open spec fn shape_named(value: Seq<char>) -> Option<Seq<char>> {
    let v = lower(value);
    if v == "circle"@ {
        Some("spotshapes/Circle.qml"@)
    } else if v == "square"@ {
        Some("spotshapes/Square.qml"@)
    } else if v == "star"@ {
        Some("spotshapes/Star.qml"@)
    } else if v == "ngon"@ || v == "n-gon"@ {
        Some("spotshapes/Ngon.qml"@)
    } else {
        None
    }
}

/// The view of a property change.
pub enum ChangeValue {
    Overlay(bool),
    General(Seq<char>),
    SpotShape(Seq<char>),
    Unknown,
}

/// The view of a property change.
pub open spec fn change_value(c: PropertyChange) -> ChangeValue {
    match c {
        PropertyChange::Overlay(b) => ChangeValue::Overlay(b),
        PropertyChange::General(k) => ChangeValue::General(k@),
        PropertyChange::SpotShape(s) => ChangeValue::SpotShape(s@),
        PropertyChange::Unknown => ChangeValue::Unknown,
    }
}

/// What setting `key = value` changes.
pub open spec fn property_meaning(key: Seq<char>, value: Seq<char>) -> ChangeValue {
    if key == "spot.overlay"@ {
        ChangeValue::Overlay(command_true(value))
    } else if general_property(key) is Some {
        ChangeValue::General(general_property(key)->0)
    } else if key == "spot.shape"@ {
        match shape_named(value) {
            Some(s) => ChangeValue::SpotShape(s),
            None => ChangeValue::Unknown,
        }
    } else {
        ChangeValue::Unknown
    }
}

fn general_key_of(k: &[char]) -> (r: Option<&'static str>)
    ensures
        match general_property(k@) {
            Some(g) => r matches Some(s) && s@ == g,
            None => r is None,
        },
{
    if chars_are(k, "spot.multi-screen") {
        Some("multiScreenOverlay")
    } else if chars_are(k, "spot.size") {
        Some("spotSize")
    } else if chars_are(k, "spot.rotation") {
        Some("spotRotation")
    } else if chars_are(k, "spot.shape.square.radius") {
        Some("Shape.Square/radius")
    } else if chars_are(k, "spot.shape.star.points") {
        Some("Shape.Star/points")
    } else if chars_are(k, "spot.shape.star.innerradius") {
        Some("Shape.Star/innerRadius")
    } else if chars_are(k, "spot.shape.ngon.sides") {
        Some("Shape.Ngon/sides")
    } else if chars_are(k, "shade") {
        Some("showSpotShade")
    } else if chars_are(k, "shade.opacity") {
        Some("shadeOpacity")
    } else if chars_are(k, "shade.color") {
        Some("shadeColor")
    } else if chars_are(k, "dot") {
        Some("showCenterDot")
    } else if chars_are(k, "dot.size") {
        Some("dotSize")
    } else if chars_are(k, "dot.color") {
        Some("dotColor")
    } else if chars_are(k, "dot.opacity") {
        Some("dotOpacity")
    } else if chars_are(k, "dot.mode") {
        Some("dotMode")
    } else if chars_are(k, "dot.trail") {
        Some("dotTrailEnabled")
    } else if chars_are(k, "border") {
        Some("showBorder")
    } else if chars_are(k, "border.size") {
        Some("borderSize")
    } else if chars_are(k, "border.color") {
        Some("borderColor")
    } else if chars_are(k, "border.opacity") {
        Some("borderOpacity")
    } else if chars_are(k, "zoom") {
        Some("enableZoom")
    } else if chars_are(k, "zoom.factor") {
        Some("zoomFactor")
    } else if chars_are(k, "zoom.mode") {
        Some("zoomMode")
    } else {
        None
    }
}

/// What setting a property names, given as `key = value`.
pub fn string_property(key: &str, value: &str) -> (r: PropertyChange)
    ensures
        change_value(r) == property_meaning(key@, value@),
{
    let k = chars_of(key);
    if chars_are(k.as_slice(), "spot.overlay") {
        return PropertyChange::Overlay(command_bool(value));
    }
    if let Some(g) = general_key_of(k.as_slice()) {
        return PropertyChange::General(g);
    }
    if chars_are(k.as_slice(), "spot.shape") {
        let v = chars_of(value);
        let l = to_ascii_lowercase(v.as_slice());
        let l = l.as_slice();
        if chars_are(l, "circle") {
            return PropertyChange::SpotShape("spotshapes/Circle.qml");
        } else if chars_are(l, "square") {
            return PropertyChange::SpotShape("spotshapes/Square.qml");
        } else if chars_are(l, "star") {
            return PropertyChange::SpotShape("spotshapes/Star.qml");
        } else if chars_are(l, "ngon") || chars_are(l, "n-gon") {
            return PropertyChange::SpotShape("spotshapes/Ngon.qml");
        }
    }
    PropertyChange::Unknown
}

} // verus!
