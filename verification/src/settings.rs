//! Spotlight settings stored in the `General` group of the configuration,
//! and how their legacy `KConfig` values are read.
//!
//! The settings with fractional values (opacities, rotation, zoom factor)
//! are held by the application; here each of them is only recognised.

use vstd::prelude::*;

use crate::text::{
    ascii_lower, chars_are, chars_of, copy_chars, int_value, parse_int, push_char, push_hex_padded,
    push_signed_decimal, push_text, signed_decimal,
    split_chars, split_on, string_of, trim, trim_chars, views, hex, zero_padded,
};

verus! {

/// Inclusive range used to validate a numeric setting.
#[derive(Clone, Copy, Debug, PartialEq, Eq, Structural)]
pub struct Range {
    /// Smallest accepted value.
    pub minimum: i32,
    /// Largest accepted value.
    pub maximum: i32,
}

/// `value` limited to `minimum..=maximum`.
pub open spec fn clamp_to(value: i32, minimum: i32, maximum: i32) -> i32 {
    if value < minimum {
        minimum
    } else if value > maximum {
        maximum
    } else {
        value
    }
}

impl Range {
    /// `value` limited to the range.
    pub fn clamp(self, value: i32) -> (r: i32)
        requires
            self.minimum <= self.maximum,
        ensures
            r == clamp_to(value, self.minimum, self.maximum),
    {
        if value < self.minimum {
            self.minimum
        } else if value > self.maximum {
            self.maximum
        } else {
            value
        }
    }
}

/// Accepted spot sizes.
pub fn spot_size_range() -> (r: Range)
    ensures
        r == (Range { minimum: 5, maximum: 100 }),
{
    Range { minimum: 5, maximum: 100 }
}

/// Accepted center-dot sizes.
pub fn dot_size_range() -> (r: Range)
    ensures
        r == (Range { minimum: 3, maximum: 100 }),
{
    Range { minimum: 3, maximum: 100 }
}

/// Accepted border sizes.
pub fn border_size_range() -> (r: Range)
    ensures
        r == (Range { minimum: 0, maximum: 100 }),
{
    Range { minimum: 0, maximum: 100 }
}

/// Accepted input sequence intervals in milliseconds.
pub fn input_sequence_interval_range() -> (r: Range)
    ensures
        r == (Range { minimum: 100, maximum: 950 }),
{
    Range { minimum: 100, maximum: 950 }
}

/// Center-dot rendering mode understood by the existing shaders.
#[derive(Clone, Copy, Debug, PartialEq, Eq, Structural)]
pub enum DotMode {
    /// A sharply bounded solid dot.
    Solid,
    /// A soft, diffused dot.
    Diffuse,
}

/// The dot mode a setting names.
pub open spec fn dot_mode_named(v: Seq<char>) -> Option<DotMode> {
    if v == "solid"@ {
        Some(DotMode::Solid)
    } else if v == "diffuse"@ {
        Some(DotMode::Diffuse)
    } else {
        None
    }
}

impl DotMode {
    /// The dot mode named `solid` or `diffuse`.
    pub fn parse_name(value: &str) -> (r: Option<DotMode>)
        ensures
            r == dot_mode_named(value@),
    {
        let v = chars_of(value);
        dot_mode_from_chars(v.as_slice())
    }
}

fn dot_mode_from_chars(v: &[char]) -> (r: Option<DotMode>)
    ensures
        r == dot_mode_named(v@),
{
    if chars_are(v, "solid") {
        Some(DotMode::Solid)
    } else if chars_are(v, "diffuse") {
        Some(DotMode::Diffuse)
    } else {
        None
    }
}

impl Default for DotMode {
    fn default() -> (m: DotMode)
        ensures
            m == DotMode::Solid,
    {
        DotMode::Solid
    }
}

impl core::str::FromStr for DotMode {
    type Err = ();

    fn from_str(value: &str) -> (r: Result<DotMode, ()>)
        ensures
            r == (match dot_mode_named(value@) {
                Some(m) => Ok::<DotMode, ()>(m),
                None => Err(()),
            }),
    {
        match DotMode::parse_name(value) {
            Some(m) => Ok(m),
            None => Err(()),
        }
    }
}

/// Magnification filter used by the spotlight zoom effect.
#[derive(Clone, Copy, Debug, PartialEq, Eq, Structural)]
pub enum ZoomMode {
    /// Smooth image scaling.
    Smooth,
    /// Scaling optimized for text.
    Text,
    /// Nearest-neighbor pixel scaling.
    Pixel,
}

/// The zoom mode a setting names.
pub open spec fn zoom_mode_named(v: Seq<char>) -> Option<ZoomMode> {
    if v == "smooth"@ {
        Some(ZoomMode::Smooth)
    } else if v == "text"@ {
        Some(ZoomMode::Text)
    } else if v == "pixel"@ {
        Some(ZoomMode::Pixel)
    } else {
        None
    }
}

fn zoom_mode_from_chars(v: &[char]) -> (r: Option<ZoomMode>)
    ensures
        r == zoom_mode_named(v@),
{
    if chars_are(v, "smooth") {
        Some(ZoomMode::Smooth)
    } else if chars_are(v, "text") {
        Some(ZoomMode::Text)
    } else if chars_are(v, "pixel") {
        Some(ZoomMode::Pixel)
    } else {
        None
    }
}

impl ZoomMode {
    /// The zoom mode named `smooth`, `text` or `pixel`.
    pub fn parse_name(value: &str) -> (r: Option<ZoomMode>)
        ensures
            r == zoom_mode_named(value@),
    {
        let v = chars_of(value);
        zoom_mode_from_chars(v.as_slice())
    }
}

impl Default for ZoomMode {
    fn default() -> (m: ZoomMode)
        ensures
            m == ZoomMode::Smooth,
    {
        ZoomMode::Smooth
    }
}

impl core::str::FromStr for ZoomMode {
    type Err = ();

    fn from_str(value: &str) -> (r: Result<ZoomMode, ()>)
        ensures
            r == (match zoom_mode_named(value@) {
                Some(m) => Ok::<ZoomMode, ()>(m),
                None => Err(()),
            }),
    {
        match ZoomMode::parse_name(value) {
            Some(m) => Ok(m),
            None => Err(()),
        }
    }
}

/// A boolean setting: `true` or `on` in any ASCII case, or an integer above
/// zero, is on; `false` or `off` in any ASCII case, or an integer of zero or
/// less, is off; any other text is no boolean.
pub open spec fn bool_setting(value: Seq<char>) -> Option<bool> {
    let lower = value.map_values(|c: char| ascii_lower(c));
    if lower == "true"@ || lower == "on"@ {
        Some(true)
    } else if lower == "false"@ || lower == "off"@ {
        Some(false)
    } else {
        match int_value(lower, 10, true, i64::MIN as int, i64::MAX as int) {
            Some(n) => Some(n > 0),
            None => None,
        }
    }
}

/// The boolean setting `value` gives, or `current` when it is no boolean.
pub open spec fn bool_or(value: Seq<char>, current: bool) -> bool {
    match bool_setting(value) {
        Some(b) => b,
        None => current,
    }
}

/// Read a boolean setting; a value that is no boolean leaves it as it is.
pub fn set_bool(target: &mut bool, value: &str)
    ensures
        *final(target) == bool_or(value@, *old(target)),
{
    let v = chars_of(value);
    let lower = crate::text::to_ascii_lowercase(v.as_slice());
    if chars_are(lower.as_slice(), "true") || chars_are(lower.as_slice(), "on") {
        *target = true;
    } else if chars_are(lower.as_slice(), "false") || chars_are(lower.as_slice(), "off") {
        *target = false;
    } else {
        match parse_int(lower.as_slice(), 10, true, i64::MIN as i128, i64::MAX as i128) {
            Some(n) => {
                *target = n > 0;
            },
            None => {},
        }
    }
}

/// An integer setting, when the text is an `i32`.
pub open spec fn int_setting(value: Seq<char>) -> Option<i32> {
    match int_value(value, 10, true, i32::MIN as int, i32::MAX as int) {
        Some(n) => Some(n as i32),
        None => None,
    }
}

fn int_from_str(value: &str) -> (r: Option<i32>)
    ensures
        r == int_setting(value@),
{
    let v = chars_of(value);
    crate::text::parse_i32(v.as_slice())
}

/// Read an integer setting limited to `range`; malformed text keeps the
/// current value.
pub fn set_i32(target: &mut i32, value: &str, range: Range)
    requires
        range.minimum <= range.maximum,
    ensures
        *final(target) == match int_setting(value@) {
            Some(n) => clamp_to(n, range.minimum, range.maximum),
            None => *old(target),
        },
{
    if let Some(n) = int_from_str(value) {
        *target = range.clamp(n);
    }
}

/// Read an integer setting without limits; malformed text keeps the current
/// value.
pub fn set_unbounded_i32(target: &mut i32, value: &str)
    ensures
        *final(target) == match int_setting(value@) {
            Some(n) => n,
            None => *old(target),
        },
{
    if let Some(n) = int_from_str(value) {
        *target = n;
    }
}

/// Read a text setting; empty text keeps the current value.
pub fn set_nonempty(target: &mut String, value: &str)
    ensures
        final(target)@ == (if value@.len() == 0 {
            old(target)@
        } else {
            value@
        }),
{
    if !value.is_empty() {
        *target = value.to_owned();
    }
}

/// Two lower-case hexadecimal digits.
pub open spec fn hex2(n: u8) -> Seq<char> {
    zero_padded(hex(n as nat), 2)
}

/// A color setting: `r, g, b` or `r, g, b, a` channels in decimal become
/// `#rrggbb` or `#aarrggbb`; other text without a comma is kept as it is.
/// `None` keeps the current color: for empty text, for three or four
/// channels of which one is not a byte, and for other text with a comma.
pub open spec fn color_setting(value: Seq<char>) -> Option<Seq<char>> {
    let channels = split_on(value, ',').map_values(|c: Seq<char>| trim(c));
    if value.len() == 0 {
        None
    } else if channels.len() == 3 || channels.len() == 4 {
        if forall|i: int| 0 <= i < channels.len() ==> int_value(#[trigger] channels[i], 10, false, 0, 255) is Some {
            let b = |i: int| int_value(channels[i], 10, false, 0, 255)->0 as u8;
            if channels.len() == 3 {
                Some(seq!['#'] + hex2(b(0)) + hex2(b(1)) + hex2(b(2)))
            } else {
                Some(seq!['#'] + hex2(b(3)) + hex2(b(0)) + hex2(b(1)) + hex2(b(2)))
            }
        } else {
            None
        }
    } else if value.contains(',') {
        None
    } else {
        Some(value)
    }
}

/// Read a color setting.
pub fn set_color(target: &mut String, value: &str)
    ensures
        final(target)@ == match color_setting(value@) {
            Some(c) => c,
            None => old(target)@,
        },
{
    let v = chars_of(value);
    if v.len() == 0 {
        return ;
    }
    let pieces = split_chars(v.as_slice(), ',');
    let ghost channels = split_on(v@, ',').map_values(|c: Seq<char>| trim(c));
    let n = pieces.len();
    if n == 3 || n == 4 {
        let mut bytes: Vec<u8> = Vec::new();
        let mut i: usize = 0;
        while i < n
            invariant
                i <= n == pieces@.len() == channels.len(),
                n == 3 || n == 4,
                v@ == value@,
                v@.len() > 0,
                views(pieces@) == split_on(v@, ','),
                channels == split_on(v@, ',').map_values(|c: Seq<char>| trim(c)),
                bytes@.len() == i,
                forall|j: int| 0 <= j < i ==> int_value(#[trigger] channels[j], 10, false, 0, 255) == Some(
                    bytes@[j] as int,
                ),
            decreases n - i,
        {
            assert(views(pieces@)[i as int] == pieces@[i as int]@);
            let c = trim_chars(pieces[i].as_slice());
            assert(c@ == channels[i as int]);
            match crate::text::parse_u8(c.as_slice()) {
                Some(b) => {
                    bytes.push(b);
                },
                None => {
                    return ;
                },
            }
            i = i + 1;
        }
        let mut s = String::new();
        push_char(&mut s, '#');
        if n == 3 {
            push_hex_padded(&mut s, bytes[0] as u64, 2);
            push_hex_padded(&mut s, bytes[1] as u64, 2);
            push_hex_padded(&mut s, bytes[2] as u64, 2);
        } else {
            push_hex_padded(&mut s, bytes[3] as u64, 2);
            push_hex_padded(&mut s, bytes[0] as u64, 2);
            push_hex_padded(&mut s, bytes[1] as u64, 2);
            push_hex_padded(&mut s, bytes[2] as u64, 2);
        }
        *target = s;
        return ;
    }
    match crate::text::find_char(v.as_slice(), ',') {
        Some(_) => {},
        None => {
            *target = value.to_owned();
        },
    }
}

/// Which setting with a fractional value a `General` key names.
#[derive(Clone, Copy, Debug, PartialEq, Eq, Structural)]
pub enum FractionalSetting {
    DotOpacity,
    ShadeOpacity,
    SpotRotation,
    BorderOpacity,
    ZoomFactor,
}

/// The spotlight settings of the `General` group that have whole or text
/// values.
#[derive(Debug, PartialEq, Eq)]
pub struct GeneralSettings {
    pub show_spot_shade: bool,
    pub spot_size: i32,
    pub show_center_dot: bool,
    pub dot_size: i32,
    pub dot_color: String,
    pub dot_mode: DotMode,
    pub dot_trail_enabled: bool,
    pub shade_color: String,
    pub cursor: i32,
    pub spot_shape: String,
    pub square_radius: i32,
    pub star_points: i32,
    pub star_inner_radius: i32,
    pub ngon_sides: i32,
    pub show_border: bool,
    pub border_color: String,
    pub border_size: i32,
    pub zoom_enabled: bool,
    pub zoom_mode: ZoomMode,
    pub multi_screen_overlay: bool,
    pub presentation_timer_enabled: bool,
    pub presentation_timer_duration_seconds: i32,
}

/// The settings with their texts as characters.
pub struct GeneralValues {
    pub show_spot_shade: bool,
    pub spot_size: i32,
    pub show_center_dot: bool,
    pub dot_size: i32,
    pub dot_color: Seq<char>,
    pub dot_mode: DotMode,
    pub dot_trail_enabled: bool,
    pub shade_color: Seq<char>,
    pub cursor: i32,
    pub spot_shape: Seq<char>,
    pub square_radius: i32,
    pub star_points: i32,
    pub star_inner_radius: i32,
    pub ngon_sides: i32,
    pub show_border: bool,
    pub border_color: Seq<char>,
    pub border_size: i32,
    pub zoom_enabled: bool,
    pub zoom_mode: ZoomMode,
    pub multi_screen_overlay: bool,
    pub presentation_timer_enabled: bool,
    pub presentation_timer_duration_seconds: i32,
}

impl View for GeneralSettings {
    type V = GeneralValues;

    open spec fn view(&self) -> GeneralValues {
        GeneralValues {
            show_spot_shade: self.show_spot_shade,
            spot_size: self.spot_size,
            show_center_dot: self.show_center_dot,
            dot_size: self.dot_size,
            dot_color: self.dot_color@,
            dot_mode: self.dot_mode,
            dot_trail_enabled: self.dot_trail_enabled,
            shade_color: self.shade_color@,
            cursor: self.cursor,
            spot_shape: self.spot_shape@,
            square_radius: self.square_radius,
            star_points: self.star_points,
            star_inner_radius: self.star_inner_radius,
            ngon_sides: self.ngon_sides,
            show_border: self.show_border,
            border_color: self.border_color@,
            border_size: self.border_size,
            zoom_enabled: self.zoom_enabled,
            zoom_mode: self.zoom_mode,
            multi_screen_overlay: self.multi_screen_overlay,
            presentation_timer_enabled: self.presentation_timer_enabled,
            presentation_timer_duration_seconds: self.presentation_timer_duration_seconds,
        }
    }
}

/// The defaults of the `KConfig` schema.
pub open spec fn default_values() -> GeneralValues {
    GeneralValues {
        show_spot_shade: true,
        spot_size: 32,
        show_center_dot: false,
        dot_size: 5,
        dot_color: "#ff0000"@,
        dot_mode: DotMode::Solid,
        dot_trail_enabled: false,
        shade_color: "#222222"@,
        cursor: 10,
        spot_shape: "spotshapes/Circle.qml"@,
        square_radius: 20,
        star_points: 5,
        star_inner_radius: 50,
        ngon_sides: 3,
        show_border: true,
        border_color: "#73d216"@,
        border_size: 4,
        zoom_enabled: false,
        zoom_mode: ZoomMode::Smooth,
        multi_screen_overlay: false,
        presentation_timer_enabled: false,
        presentation_timer_duration_seconds: 900,
    }
}

impl Default for GeneralSettings {
    fn default() -> (s: GeneralSettings)
        ensures
            s@ == default_values(),
    {
        GeneralSettings {
            show_spot_shade: true,
            spot_size: 32,
            show_center_dot: false,
            dot_size: 5,
            dot_color: "#ff0000".to_owned(),
            dot_mode: DotMode::Solid,
            dot_trail_enabled: false,
            shade_color: "#222222".to_owned(),
            cursor: 10,
            spot_shape: "spotshapes/Circle.qml".to_owned(),
            square_radius: 20,
            star_points: 5,
            star_inner_radius: 50,
            ngon_sides: 3,
            show_border: true,
            border_color: "#73d216".to_owned(),
            border_size: 4,
            zoom_enabled: false,
            zoom_mode: ZoomMode::Smooth,
            multi_screen_overlay: false,
            presentation_timer_enabled: false,
            presentation_timer_duration_seconds: 15 * 60,
        }
    }
}

/// The new value of an integer setting limited to `minimum..=maximum`.
pub open spec fn clamped_setting(value: Seq<char>, current: i32, minimum: i32, maximum: i32) -> i32 {
    match int_setting(value) {
        Some(n) => clamp_to(n, minimum, maximum),
        None => current,
    }
}

/// The new value of a color setting.
pub open spec fn color_or(value: Seq<char>, current: Seq<char>) -> Seq<char> {
    match color_setting(value) {
        Some(c) => c,
        None => current,
    }
}

/// The settings after reading `key = value` from the `General` group.
/// Unknown keys, keys of fractional settings and malformed values change
/// nothing; numbers are limited as the settings' ranges demand, and the
/// presentation timer lasts at least a second.
#[verifier::opaque]
pub open spec fn apply_entry(s: GeneralValues, key: Seq<char>, value: Seq<char>) -> GeneralValues {
    if fractional_key(key) is Some {
        s
    } else if key == "showSpotShade"@ {
        GeneralValues { show_spot_shade: bool_or(value, s.show_spot_shade), ..s }
    } else if key == "spotSize"@ {
        GeneralValues { spot_size: clamped_setting(value, s.spot_size, 5, 100), ..s }
    } else if key == "showCenterDot"@ {
        GeneralValues { show_center_dot: bool_or(value, s.show_center_dot), ..s }
    } else if key == "dotSize"@ {
        GeneralValues { dot_size: clamped_setting(value, s.dot_size, 3, 100), ..s }
    } else if key == "dotColor"@ {
        GeneralValues { dot_color: color_or(value, s.dot_color), ..s }
    } else if key == "dotMode"@ {
        GeneralValues {
            dot_mode: match dot_mode_named(value) {
                Some(m) => m,
                None => s.dot_mode,
            },
            ..s
        }
    } else if key == "dotTrailEnabled"@ {
        GeneralValues { dot_trail_enabled: bool_or(value, s.dot_trail_enabled), ..s }
    } else if key == "shadeColor"@ {
        GeneralValues { shade_color: color_or(value, s.shade_color), ..s }
    } else if key == "cursor"@ {
        GeneralValues {
            cursor: match int_setting(value) {
                Some(n) => n,
                None => s.cursor,
            },
            ..s
        }
    } else if key == "spotShape"@ {
        GeneralValues {
            spot_shape: if value.len() == 0 {
                s.spot_shape
            } else {
                value
            },
            ..s
        }
    } else if key == "Shape.Square/radius"@ {
        GeneralValues { square_radius: clamped_setting(value, s.square_radius, 0, 100), ..s }
    } else if key == "Shape.Star/points"@ {
        GeneralValues { star_points: clamped_setting(value, s.star_points, 3, 100), ..s }
    } else if key == "Shape.Star/innerRadius"@ {
        GeneralValues { star_inner_radius: clamped_setting(value, s.star_inner_radius, 5, 100), ..s }
    } else if key == "Shape.Ngon/sides"@ {
        GeneralValues { ngon_sides: clamped_setting(value, s.ngon_sides, 3, 100), ..s }
    } else if key == "showBorder"@ {
        GeneralValues { show_border: bool_or(value, s.show_border), ..s }
    } else if key == "borderColor"@ {
        GeneralValues { border_color: color_or(value, s.border_color), ..s }
    } else if key == "borderSize"@ {
        GeneralValues { border_size: clamped_setting(value, s.border_size, 0, 100), ..s }
    } else if key == "enableZoom"@ {
        GeneralValues { zoom_enabled: bool_or(value, s.zoom_enabled), ..s }
    } else if key == "zoomMode"@ {
        GeneralValues {
            zoom_mode: match zoom_mode_named(value) {
                Some(m) => m,
                None => s.zoom_mode,
            },
            ..s
        }
    } else if key == "multiScreenOverlay"@ {
        GeneralValues { multi_screen_overlay: bool_or(value, s.multi_screen_overlay), ..s }
    } else if key == "presentationTimerEnabled"@ {
        GeneralValues { presentation_timer_enabled: bool_or(value, s.presentation_timer_enabled), ..s }
    } else if key == "presentationTimerDurationSeconds"@ {
        GeneralValues {
            presentation_timer_duration_seconds: match int_setting(value) {
                Some(n) => if n < 1 {
                    1
                } else {
                    n
                },
                None => s.presentation_timer_duration_seconds,
            },
            ..s
        }
    } else {
        s
    }
}

/// The fractional setting a `General` key names, if any.
pub open spec fn fractional_key(key: Seq<char>) -> Option<FractionalSetting> {
    if key == "dotOpacity"@ {
        Some(FractionalSetting::DotOpacity)
    } else if key == "shadeOpacity"@ {
        Some(FractionalSetting::ShadeOpacity)
    } else if key == "spotRotation"@ {
        Some(FractionalSetting::SpotRotation)
    } else if key == "borderOpacity"@ {
        Some(FractionalSetting::BorderOpacity)
    } else if key == "zoomFactor"@ {
        Some(FractionalSetting::ZoomFactor)
    } else {
        None
    }
}

/// Every bounded setting lies within its range, and the presentation timer
/// lasts at least a second.
pub open spec fn values_in_range(s: GeneralValues) -> bool {
    &&& 5 <= s.spot_size <= 100
    &&& 3 <= s.dot_size <= 100
    &&& 0 <= s.square_radius <= 100
    &&& 3 <= s.star_points <= 100
    &&& 5 <= s.star_inner_radius <= 100
    &&& 3 <= s.ngon_sides <= 100
    &&& 0 <= s.border_size <= 100
    &&& s.presentation_timer_duration_seconds >= 1
}

/// The defaults lie within the settings' ranges, and reading any entry,
/// well-formed or not, keeps every bounded setting within its range.
#[verifier::spinoff_prover]
#[verifier::rlimit(40)]
pub proof fn lemma_entries_keep_ranges(s: GeneralValues, key: Seq<char>, value: Seq<char>)
    requires
        values_in_range(s),
    ensures
        values_in_range(default_values()),
        values_in_range(apply_entry(s, key, value)),
{
    reveal(apply_entry);
}

impl GeneralSettings {
    /// Apply one key/value pair from the legacy `KConfig` `General` group.
    ///
    /// Returns the fractional setting that `key` names, whose value the
    /// caller reads; such a key changes nothing here.
    #[verifier::rlimit(60)]
    #[verifier::spinoff_prover]
    pub fn apply_general_entry(&mut self, key: &str, value: &str) -> (r: Option<FractionalSetting>)
        ensures
            final(self)@ == apply_entry(old(self)@, key@, value@),
            r == fractional_key(key@),
    {
        reveal(apply_entry);
        let k = chars_of(key);
        let k = k.as_slice();
        if chars_are(k, "dotOpacity") {
            return Some(FractionalSetting::DotOpacity);
        } else if chars_are(k, "shadeOpacity") {
            return Some(FractionalSetting::ShadeOpacity);
        } else if chars_are(k, "spotRotation") {
            return Some(FractionalSetting::SpotRotation);
        } else if chars_are(k, "borderOpacity") {
            return Some(FractionalSetting::BorderOpacity);
        } else if chars_are(k, "zoomFactor") {
            return Some(FractionalSetting::ZoomFactor);
        }
        if chars_are(k, "showSpotShade") {
            set_bool(&mut self.show_spot_shade, value);
        } else if chars_are(k, "spotSize") {
            set_i32(&mut self.spot_size, value, spot_size_range());
        } else if chars_are(k, "showCenterDot") {
            set_bool(&mut self.show_center_dot, value);
        } else if chars_are(k, "dotSize") {
            set_i32(&mut self.dot_size, value, dot_size_range());
        } else if chars_are(k, "dotColor") {
            set_color(&mut self.dot_color, value);
        } else if chars_are(k, "dotMode") {
            if let Some(m) = DotMode::parse_name(value) {
                self.dot_mode = m;
            }
        } else if chars_are(k, "dotTrailEnabled") {
            set_bool(&mut self.dot_trail_enabled, value);
        } else if chars_are(k, "shadeColor") {
            set_color(&mut self.shade_color, value);
        } else if chars_are(k, "cursor") {
            set_unbounded_i32(&mut self.cursor, value);
        } else if chars_are(k, "spotShape") {
            set_nonempty(&mut self.spot_shape, value);
        } else if chars_are(k, "Shape.Square/radius") {
            set_i32(&mut self.square_radius, value, Range { minimum: 0, maximum: 100 });
        } else if chars_are(k, "Shape.Star/points") {
            set_i32(&mut self.star_points, value, Range { minimum: 3, maximum: 100 });
        } else if chars_are(k, "Shape.Star/innerRadius") {
            set_i32(&mut self.star_inner_radius, value, Range { minimum: 5, maximum: 100 });
        } else if chars_are(k, "Shape.Ngon/sides") {
            set_i32(&mut self.ngon_sides, value, Range { minimum: 3, maximum: 100 });
        } else if chars_are(k, "showBorder") {
            set_bool(&mut self.show_border, value);
        } else if chars_are(k, "borderColor") {
            set_color(&mut self.border_color, value);
        } else if chars_are(k, "borderSize") {
            set_i32(&mut self.border_size, value, border_size_range());
        } else if chars_are(k, "enableZoom") {
            set_bool(&mut self.zoom_enabled, value);
        } else if chars_are(k, "zoomMode") {
            if let Some(m) = ZoomMode::parse_name(value) {
                self.zoom_mode = m;
            }
        } else if chars_are(k, "multiScreenOverlay") {
            set_bool(&mut self.multi_screen_overlay, value);
        } else if chars_are(k, "presentationTimerEnabled") {
            set_bool(&mut self.presentation_timer_enabled, value);
        } else if chars_are(k, "presentationTimerDurationSeconds") {
            if let Some(seconds) = int_from_str(value) {
                self.presentation_timer_duration_seconds = if seconds < 1 {
                    1
                } else {
                    seconds
                };
            }
        }
        None
    }
}

/// `true` or `false`, as a boolean setting is written.
pub open spec fn flag_text(b: bool) -> Seq<char> {
    if b {
        "true"@
    } else {
        "false"@
    }
}

/// The name a dot mode is written as.
pub open spec fn dot_mode_name(m: DotMode) -> Seq<char> {
    match m {
        DotMode::Solid => "solid"@,
        DotMode::Diffuse => "diffuse"@,
    }
}

/// The name a zoom mode is written as.
pub open spec fn zoom_mode_name(m: ZoomMode) -> Seq<char> {
    match m {
        ZoomMode::Smooth => "smooth"@,
        ZoomMode::Text => "text"@,
        ZoomMode::Pixel => "pixel"@,
    }
}

/// The whole-number and text `General` entries that persist the settings,
/// in the order of the settings' fields.
pub open spec fn entries_of(s: GeneralValues) -> Seq<(Seq<char>, Seq<char>)> {
    seq![
        ("showSpotShade"@, flag_text(s.show_spot_shade)),
        ("spotSize"@, signed_decimal(s.spot_size as int)),
        ("showCenterDot"@, flag_text(s.show_center_dot)),
        ("dotSize"@, signed_decimal(s.dot_size as int)),
        ("dotColor"@, s.dot_color),
        ("dotMode"@, dot_mode_name(s.dot_mode)),
        ("dotTrailEnabled"@, flag_text(s.dot_trail_enabled)),
        ("shadeColor"@, s.shade_color),
        ("cursor"@, signed_decimal(s.cursor as int)),
        ("spotShape"@, s.spot_shape),
        ("Shape.Square/radius"@, signed_decimal(s.square_radius as int)),
        ("Shape.Star/points"@, signed_decimal(s.star_points as int)),
        ("Shape.Star/innerRadius"@, signed_decimal(s.star_inner_radius as int)),
        ("Shape.Ngon/sides"@, signed_decimal(s.ngon_sides as int)),
        ("showBorder"@, flag_text(s.show_border)),
        ("borderColor"@, s.border_color),
        ("borderSize"@, signed_decimal(s.border_size as int)),
        ("enableZoom"@, flag_text(s.zoom_enabled)),
        ("zoomMode"@, zoom_mode_name(s.zoom_mode)),
        ("multiScreenOverlay"@, flag_text(s.multi_screen_overlay)),
        ("presentationTimerEnabled"@, flag_text(s.presentation_timer_enabled)),
        ("presentationTimerDurationSeconds"@, signed_decimal(
            s.presentation_timer_duration_seconds as int,
        )),
    ]
}

fn flag_string(b: bool) -> (r: String)
    ensures
        r@ == flag_text(b),
{
    if b {
        "true".to_owned()
    } else {
        "false".to_owned()
    }
}

fn number_string(n: i32) -> (r: String)
    ensures
        r@ == signed_decimal(n as int),
{
    let mut s = String::new();
    push_signed_decimal(&mut s, n as i64);
    s
}

fn copy_string(t: &String) -> (r: String)
    ensures
        r@ == t@,
{
    let mut s = String::new();
    push_text(&mut s, t.as_str());
    s
}

impl GeneralSettings {
    /// The whole-number and text `General` entries that persist these
    /// settings; the fractional settings are written by the caller.
    pub fn general_entries(&self) -> (r: Vec<(&'static str, String)>)
        ensures
            r@.map_values(|e: (&'static str, String)| (e.0@, e.1@)) == entries_of(self@),
    {
        let dot_mode = match self.dot_mode {
            DotMode::Solid => "solid".to_owned(),
            DotMode::Diffuse => "diffuse".to_owned(),
        };
        let zoom_mode = match self.zoom_mode {
            ZoomMode::Smooth => "smooth".to_owned(),
            ZoomMode::Text => "text".to_owned(),
            ZoomMode::Pixel => "pixel".to_owned(),
        };
        let r = vec![
            ("showSpotShade", flag_string(self.show_spot_shade)),
            ("spotSize", number_string(self.spot_size)),
            ("showCenterDot", flag_string(self.show_center_dot)),
            ("dotSize", number_string(self.dot_size)),
            ("dotColor", copy_string(&self.dot_color)),
            ("dotMode", dot_mode),
            ("dotTrailEnabled", flag_string(self.dot_trail_enabled)),
            ("shadeColor", copy_string(&self.shade_color)),
            ("cursor", number_string(self.cursor)),
            ("spotShape", copy_string(&self.spot_shape)),
            ("Shape.Square/radius", number_string(self.square_radius)),
            ("Shape.Star/points", number_string(self.star_points)),
            ("Shape.Star/innerRadius", number_string(self.star_inner_radius)),
            ("Shape.Ngon/sides", number_string(self.ngon_sides)),
            ("showBorder", flag_string(self.show_border)),
            ("borderColor", copy_string(&self.border_color)),
            ("borderSize", number_string(self.border_size)),
            ("enableZoom", flag_string(self.zoom_enabled)),
            ("zoomMode", zoom_mode),
            ("multiScreenOverlay", flag_string(self.multi_screen_overlay)),
            ("presentationTimerEnabled", flag_string(self.presentation_timer_enabled)),
            (
                "presentationTimerDurationSeconds",
                number_string(self.presentation_timer_duration_seconds),
            ),
        ];
        assert(r@.map_values(|e: (&'static str, String)| (e.0@, e.1@)) =~= entries_of(self@));
        r
    }
}

} // verus!
