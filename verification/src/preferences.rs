//! Settings read from a parsed configuration: the spotlight settings of the
//! `General` group, the presets, and per-device input settings.

use vstd::prelude::*;

use crate::config::{group_entries, ConfigGroup, ProjecteurConfig};
use crate::labels::join;
use crate::order::assoc_get;
use crate::settings::{
    apply_entry, clamp_to, default_values, fractional_key, int_setting, lemma_entries_keep_ranges,
    values_in_range, bool_setting, clamped_setting, color_setting, entries_of, flag_text,
    FractionalSetting, GeneralSettings, GeneralValues,
};
use crate::text::{chars_of, push_chars, push_text, signed_decimal, strip_prefix, strip_prefix_chars};

verus! {

/// The settings after applying `entries` in order.
pub open spec fn applied(s: GeneralValues, entries: Seq<(Seq<char>, Seq<char>)>) -> GeneralValues
    decreases entries.len(),
{
    if entries.len() == 0 {
        s
    } else {
        apply_entry(applied(s, entries.drop_last()), entries.last().0, entries.last().1)
    }
}

/// The entries of fractional settings, in order, with their values.
pub open spec fn fractional_entries(entries: Seq<(Seq<char>, Seq<char>)>) -> Seq<
    (FractionalSetting, Seq<char>),
>
    decreases entries.len(),
{
    if entries.len() == 0 {
        Seq::empty()
    } else {
        let rest = fractional_entries(entries.drop_last());
        match fractional_key(entries.last().0) {
            Some(f) => rest.push((f, entries.last().1)),
            None => rest,
        }
    }
}

/// The entries of the `General` group, none when it is missing.
pub open spec fn general_entries(
    config: Seq<(Seq<char>, Seq<(Seq<char>, Seq<char>)>)>,
) -> Seq<(Seq<char>, Seq<char>)> {
    match assoc_get(config, "General"@) {
        Some(g) => g,
        None => Seq::empty(),
    }
}

/// The spotlight settings a configuration holds in its `General` group,
/// applied in key order over the defaults, and the entries of fractional
/// settings, which the caller reads.
pub fn general_settings(config: &ProjecteurConfig) -> (r: (GeneralSettings, Vec<(FractionalSetting, String)>))
    ensures
        r.0@ == applied(default_values(), general_entries(config@)),
        r.1@.map_values(|e: (FractionalSetting, String)| (e.0, e.1@)) == fractional_entries(
            general_entries(config@),
        ),
{
    let mut settings = GeneralSettings::default();
    let mut fractional: Vec<(FractionalSetting, String)> = Vec::new();
    let group = config.group("General");
    let entries: &[(String, String)] = match group {
        Some(g) => g.entries(),
        None => &[],
    };
    let ghost ev = group_entries(entries@);
    assert(ev == general_entries(config@));
    let mut i: usize = 0;
    assert(ev.take(0) =~= Seq::<(Seq<char>, Seq<char>)>::empty());
    assert(fractional@.map_values(|e: (FractionalSetting, String)| (e.0, e.1@)) =~= Seq::<
        (FractionalSetting, Seq<char>),
    >::empty());
    while i < entries.len()
        invariant
            i <= entries@.len(),
            ev == group_entries(entries@),
            settings@ == applied(default_values(), ev.take(i as int)),
            fractional@.map_values(|e: (FractionalSetting, String)| (e.0, e.1@))
                == fractional_entries(ev.take(i as int)),
        decreases entries@.len() - i,
    {
        assert(ev.take(i + 1).drop_last() =~= ev.take(i as int));
        assert(ev.take(i + 1).last() == (entries@[i as int].0@, entries@[i as int].1@));
        let key = entries[i].0.as_str();
        let value = entries[i].1.as_str();
        match settings.apply_general_entry(key, value) {
            Some(f) => {
                let ghost prev = fractional@;
                fractional.push((f, entries[i].1.clone()));
                assert(fractional@.map_values(|e: (FractionalSetting, String)| (e.0, e.1@))
                    =~= prev.map_values(|e: (FractionalSetting, String)| (e.0, e.1@)).push(
                    (f, value@),
                ));
            },
            None => {},
        }
        i = i + 1;
    }
    assert(ev.take(i as int) =~= ev);
    (settings, fractional)
}

/// Whatever a configuration's `General` group holds, the settings read
/// from it keep every bounded setting within its range.
pub proof fn lemma_read_settings_in_range(entries: Seq<(Seq<char>, Seq<char>)>)
    ensures
        values_in_range(applied(default_values(), entries)),
    decreases entries.len(),
{
    if entries.len() == 0 {
        lemma_entries_keep_ranges(default_values(), Seq::empty(), Seq::empty());
    } else {
        lemma_read_settings_in_range(entries.drop_last());
        lemma_entries_keep_ranges(
            applied(default_values(), entries.drop_last()),
            entries.last().0,
            entries.last().1,
        );
    }
}

/// The preset names among configuration group names: those after a
/// `Preset_` prefix, in group order.
pub open spec fn preset_list(groups: Seq<(Seq<char>, Seq<(Seq<char>, Seq<char>)>)>) -> Seq<
    Seq<char>,
>
    decreases groups.len(),
{
    if groups.len() == 0 {
        Seq::empty()
    } else {
        let rest = preset_list(groups.drop_last());
        match strip_prefix(groups.last().0, "Preset_"@) {
            Some(name) => rest.push(name),
            None => rest,
        }
    }
}

/// The preset names of a configuration, one per line.
pub fn preset_names(config: &ProjecteurConfig) -> (r: String)
    ensures
        r@ == join(preset_list(config@), "\n"@),
{
    let groups = config.groups();
    let ghost gv = crate::config::config_groups(groups@);
    let mut out = String::new();
    let mut count: usize = 0;
    let ghost mut names: Seq<Seq<char>> = Seq::empty();
    let mut i: usize = 0;
    assert(gv.take(0) =~= Seq::<(Seq<char>, Seq<(Seq<char>, Seq<char>)>)>::empty());
    while i < groups.len()
        invariant
            i <= groups@.len(),
            gv == crate::config::config_groups(groups@),
            names == preset_list(gv.take(i as int)),
            count == names.len(),
            count <= i,
            out@ == join(names, "\n"@),
        decreases groups@.len() - i,
    {
        assert(gv.take(i + 1).drop_last() =~= gv.take(i as int));
        assert(gv.take(i + 1).last().0 == groups@[i as int].0@);
        let name = chars_of(groups[i].0.as_str());
        match strip_prefix_chars(name.as_slice(), "Preset_") {
            Some(rest) => {
                proof {
                    crate::labels::lemma_join_push(names, "\n"@, rest@);
                }
                if count > 0 {
                    push_text(&mut out, "\n");
                }
                push_chars(&mut out, rest.as_slice());
                proof {
                    names = names.push(rest@);
                }
                count = count + 1;
            },
            None => {},
        }
        i = i + 1;
    }
    assert(gv.take(i as int) =~= gv);
    out
}

/// An integer setting of a group, `default` when missing or malformed,
/// limited to `minimum..=maximum`.
pub open spec fn group_int(
    config: Seq<(Seq<char>, Seq<(Seq<char>, Seq<char>)>)>,
    group: Seq<char>,
    key: Seq<char>,
    default: i32,
    minimum: i32,
    maximum: i32,
) -> i32 {
    let v = match assoc_get(config, group) {
        Some(g) => match assoc_get(g, key) {
            Some(text) => match int_setting(text) {
                Some(n) => n,
                None => default,
            },
            None => default,
        },
        None => default,
    };
    clamp_to(v, minimum, maximum)
}

fn group_int_exec(
    config: &ProjecteurConfig,
    group: &str,
    key: &str,
    default: i32,
    minimum: i32,
    maximum: i32,
) -> (r: i32)
    requires
        minimum <= maximum,
    ensures
        r == group_int(config@, group@, key@, default, minimum, maximum),
{
    let v = match config.value(group, key) {
        Some(text) => {
            let c = chars_of(text);
            match crate::text::parse_i32(c.as_slice()) {
                Some(n) => n,
                None => default,
            }
        },
        None => default,
    };
    crate::settings::Range { minimum, maximum }.clamp(v)
}

/// The input sequence interval (default 250 ms, within 100 to 950 ms) and
/// the timer's haptic strength (default 50, within 0 to 100) of a device
/// group.
pub fn device_settings(config: &ProjecteurConfig, group: &str) -> (r: (i32, i32))
    ensures
        r.0 == group_int(config@, group@, "inputSequenceInterval"@, 250, 100, 950),
        r.1 == group_int(config@, group@, "presentationTimerHapticStrength"@, 50, 0, 100),
{
    let interval = group_int_exec(config, group, "inputSequenceInterval", 250, 100, 950);
    let strength = group_int_exec(config, group, "presentationTimerHapticStrength", 50, 0, 100);
    (interval, strength)
}

/// Colors and the spot shape that read back as themselves: not empty,
/// and colors without a comma.
pub open spec fn texts_readable(s: GeneralValues) -> bool {
    &&& s.dot_color.len() > 0 && !s.dot_color.contains(',')
    &&& s.shade_color.len() > 0 && !s.shade_color.contains(',')
    &&& s.border_color.len() > 0 && !s.border_color.contains(',')
    &&& s.spot_shape.len() > 0
}

proof fn lemma_flag_read_back(b: bool)
    ensures
        bool_setting(flag_text(b)) == Some(b),
{
    reveal_strlit("true");
    reveal_strlit("false");
    reveal_strlit("on");
    reveal_strlit("off");
    assert("true"@.len() == 4 && "false"@.len() == 5 && "on"@.len() == 2 && "off"@.len() == 3);
    let v = flag_text(b);
    let lower = v.map_values(|c: char| crate::text::ascii_lower(c));
    assert(lower =~= v);
    if !b {
        assert(v[0] == 'f');
        assert(!crate::text::all_digits(v, 10));
        assert(v != "true"@);
        assert(v != "on"@);
    }
}

proof fn lemma_color_read_back(c: Seq<char>)
    requires
        c.len() > 0,
        !c.contains(','),
    ensures
        color_setting(c) == Some(c),
{
    crate::text::lemma_split_without_separator(c, ',');
}

proof fn lemma_number_read_back(n: i32, minimum: i32, maximum: i32, current: i32)
    requires
        minimum <= n <= maximum,
    ensures
        int_setting(signed_decimal(n as int)) == Some(n),
        clamped_setting(signed_decimal(n as int), current, minimum, maximum) == n,
{
    crate::text::lemma_signed_decimal_value(n as int, i32::MIN as int, i32::MAX as int);
}

/// What the literals of the `General` keys and mode names hold.
proof fn lemma_key_texts()
    ensures
        "showSpotShade"@.len() == 13 && "showSpotShade"@[0] == 's' && "showSpotShade"@[1] == 'h' && "showSpotShade"@[2] == 'o' && "showSpotShade"@[3] == 'w' && "showSpotShade"@[4] == 'S',
        "spotSize"@.len() == 8 && "spotSize"@[0] == 's' && "spotSize"@[1] == 'p' && "spotSize"@[2] == 'o' && "spotSize"@[3] == 't' && "spotSize"@[4] == 'S',
        "showCenterDot"@.len() == 13 && "showCenterDot"@[0] == 's' && "showCenterDot"@[1] == 'h' && "showCenterDot"@[2] == 'o' && "showCenterDot"@[3] == 'w' && "showCenterDot"@[4] == 'C',
        "dotSize"@.len() == 7 && "dotSize"@[0] == 'd' && "dotSize"@[1] == 'o' && "dotSize"@[2] == 't' && "dotSize"@[3] == 'S' && "dotSize"@[4] == 'i',
        "dotColor"@.len() == 8 && "dotColor"@[0] == 'd' && "dotColor"@[1] == 'o' && "dotColor"@[2] == 't' && "dotColor"@[3] == 'C' && "dotColor"@[4] == 'o',
        "dotMode"@.len() == 7 && "dotMode"@[0] == 'd' && "dotMode"@[1] == 'o' && "dotMode"@[2] == 't' && "dotMode"@[3] == 'M' && "dotMode"@[4] == 'o',
        "dotTrailEnabled"@.len() == 15 && "dotTrailEnabled"@[0] == 'd' && "dotTrailEnabled"@[1] == 'o' && "dotTrailEnabled"@[2] == 't' && "dotTrailEnabled"@[3] == 'T' && "dotTrailEnabled"@[4] == 'r',
        "shadeColor"@.len() == 10 && "shadeColor"@[0] == 's' && "shadeColor"@[1] == 'h' && "shadeColor"@[2] == 'a' && "shadeColor"@[3] == 'd' && "shadeColor"@[4] == 'e',
        "cursor"@.len() == 6 && "cursor"@[0] == 'c' && "cursor"@[1] == 'u' && "cursor"@[2] == 'r' && "cursor"@[3] == 's' && "cursor"@[4] == 'o',
        "spotShape"@.len() == 9 && "spotShape"@[0] == 's' && "spotShape"@[1] == 'p' && "spotShape"@[2] == 'o' && "spotShape"@[3] == 't' && "spotShape"@[4] == 'S',
        "Shape.Square/radius"@.len() == 19 && "Shape.Square/radius"@[0] == 'S' && "Shape.Square/radius"@[1] == 'h' && "Shape.Square/radius"@[2] == 'a' && "Shape.Square/radius"@[3] == 'p' && "Shape.Square/radius"@[4] == 'e',
        "Shape.Star/points"@.len() == 17 && "Shape.Star/points"@[0] == 'S' && "Shape.Star/points"@[1] == 'h' && "Shape.Star/points"@[2] == 'a' && "Shape.Star/points"@[3] == 'p' && "Shape.Star/points"@[4] == 'e',
        "Shape.Star/innerRadius"@.len() == 22 && "Shape.Star/innerRadius"@[0] == 'S' && "Shape.Star/innerRadius"@[1] == 'h' && "Shape.Star/innerRadius"@[2] == 'a' && "Shape.Star/innerRadius"@[3] == 'p' && "Shape.Star/innerRadius"@[4] == 'e',
        "Shape.Ngon/sides"@.len() == 16 && "Shape.Ngon/sides"@[0] == 'S' && "Shape.Ngon/sides"@[1] == 'h' && "Shape.Ngon/sides"@[2] == 'a' && "Shape.Ngon/sides"@[3] == 'p' && "Shape.Ngon/sides"@[4] == 'e',
        "showBorder"@.len() == 10 && "showBorder"@[0] == 's' && "showBorder"@[1] == 'h' && "showBorder"@[2] == 'o' && "showBorder"@[3] == 'w' && "showBorder"@[4] == 'B',
        "borderColor"@.len() == 11 && "borderColor"@[0] == 'b' && "borderColor"@[1] == 'o' && "borderColor"@[2] == 'r' && "borderColor"@[3] == 'd' && "borderColor"@[4] == 'e',
        "borderSize"@.len() == 10 && "borderSize"@[0] == 'b' && "borderSize"@[1] == 'o' && "borderSize"@[2] == 'r' && "borderSize"@[3] == 'd' && "borderSize"@[4] == 'e',
        "enableZoom"@.len() == 10 && "enableZoom"@[0] == 'e' && "enableZoom"@[1] == 'n' && "enableZoom"@[2] == 'a' && "enableZoom"@[3] == 'b' && "enableZoom"@[4] == 'l',
        "zoomMode"@.len() == 8 && "zoomMode"@[0] == 'z' && "zoomMode"@[1] == 'o' && "zoomMode"@[2] == 'o' && "zoomMode"@[3] == 'm' && "zoomMode"@[4] == 'M',
        "multiScreenOverlay"@.len() == 18 && "multiScreenOverlay"@[0] == 'm' && "multiScreenOverlay"@[1] == 'u' && "multiScreenOverlay"@[2] == 'l' && "multiScreenOverlay"@[3] == 't' && "multiScreenOverlay"@[4] == 'i',
        "presentationTimerEnabled"@.len() == 24 && "presentationTimerEnabled"@[0] == 'p' && "presentationTimerEnabled"@[1] == 'r' && "presentationTimerEnabled"@[2] == 'e' && "presentationTimerEnabled"@[3] == 's' && "presentationTimerEnabled"@[4] == 'e',
        "presentationTimerDurationSeconds"@.len() == 32 && "presentationTimerDurationSeconds"@[0] == 'p' && "presentationTimerDurationSeconds"@[1] == 'r' && "presentationTimerDurationSeconds"@[2] == 'e' && "presentationTimerDurationSeconds"@[3] == 's' && "presentationTimerDurationSeconds"@[4] == 'e',
        "dotOpacity"@.len() == 10 && "dotOpacity"@[0] == 'd' && "dotOpacity"@[1] == 'o' && "dotOpacity"@[2] == 't' && "dotOpacity"@[3] == 'O' && "dotOpacity"@[4] == 'p',
        "shadeOpacity"@.len() == 12 && "shadeOpacity"@[0] == 's' && "shadeOpacity"@[1] == 'h' && "shadeOpacity"@[2] == 'a' && "shadeOpacity"@[3] == 'd' && "shadeOpacity"@[4] == 'e',
        "spotRotation"@.len() == 12 && "spotRotation"@[0] == 's' && "spotRotation"@[1] == 'p' && "spotRotation"@[2] == 'o' && "spotRotation"@[3] == 't' && "spotRotation"@[4] == 'R',
        "borderOpacity"@.len() == 13 && "borderOpacity"@[0] == 'b' && "borderOpacity"@[1] == 'o' && "borderOpacity"@[2] == 'r' && "borderOpacity"@[3] == 'd' && "borderOpacity"@[4] == 'e',
        "zoomFactor"@.len() == 10 && "zoomFactor"@[0] == 'z' && "zoomFactor"@[1] == 'o' && "zoomFactor"@[2] == 'o' && "zoomFactor"@[3] == 'm' && "zoomFactor"@[4] == 'F',
        "solid"@.len() == 5 && "solid"@[0] == 's' && "solid"@[1] == 'o' && "solid"@[2] == 'l' && "solid"@[3] == 'i' && "solid"@[4] == 'd',
        "diffuse"@.len() == 7 && "diffuse"@[0] == 'd' && "diffuse"@[1] == 'i' && "diffuse"@[2] == 'f' && "diffuse"@[3] == 'f' && "diffuse"@[4] == 'u',
        "smooth"@.len() == 6 && "smooth"@[0] == 's' && "smooth"@[1] == 'm' && "smooth"@[2] == 'o' && "smooth"@[3] == 'o' && "smooth"@[4] == 't',
        "text"@.len() == 4 && "text"@[0] == 't' && "text"@[1] == 'e' && "text"@[2] == 'x' && "text"@[3] == 't',
        "pixel"@.len() == 5 && "pixel"@[0] == 'p' && "pixel"@[1] == 'i' && "pixel"@[2] == 'x' && "pixel"@[3] == 'e' && "pixel"@[4] == 'l',
{
    reveal_strlit("showSpotShade");
    reveal_strlit("spotSize");
    reveal_strlit("showCenterDot");
    reveal_strlit("dotSize");
    reveal_strlit("dotColor");
    reveal_strlit("dotMode");
    reveal_strlit("dotTrailEnabled");
    reveal_strlit("shadeColor");
    reveal_strlit("cursor");
    reveal_strlit("spotShape");
    reveal_strlit("Shape.Square/radius");
    reveal_strlit("Shape.Star/points");
    reveal_strlit("Shape.Star/innerRadius");
    reveal_strlit("Shape.Ngon/sides");
    reveal_strlit("showBorder");
    reveal_strlit("borderColor");
    reveal_strlit("borderSize");
    reveal_strlit("enableZoom");
    reveal_strlit("zoomMode");
    reveal_strlit("multiScreenOverlay");
    reveal_strlit("presentationTimerEnabled");
    reveal_strlit("presentationTimerDurationSeconds");
    reveal_strlit("dotOpacity");
    reveal_strlit("shadeOpacity");
    reveal_strlit("spotRotation");
    reveal_strlit("borderOpacity");
    reveal_strlit("zoomFactor");
    reveal_strlit("solid");
    reveal_strlit("diffuse");
    reveal_strlit("smooth");
    reveal_strlit("text");
    reveal_strlit("pixel");
}

proof fn lemma_entry_0(x: GeneralValues, s: GeneralValues)
    requires
        values_in_range(s),
        texts_readable(s),
    ensures
        apply_entry(x, entries_of(s)[0].0, entries_of(s)[0].1) == (GeneralValues { show_spot_shade: s.show_spot_shade, ..x }),
{
    reveal(apply_entry);
    lemma_key_texts();
    lemma_flag_read_back(s.show_spot_shade);
}

proof fn lemma_entry_1(x: GeneralValues, s: GeneralValues)
    requires
        values_in_range(s),
        texts_readable(s),
    ensures
        apply_entry(x, entries_of(s)[1].0, entries_of(s)[1].1) == (GeneralValues { spot_size: s.spot_size, ..x }),
{
    reveal(apply_entry);
    lemma_key_texts();
    lemma_number_read_back(s.spot_size, 5, 100, x.spot_size);
}

proof fn lemma_entry_2(x: GeneralValues, s: GeneralValues)
    requires
        values_in_range(s),
        texts_readable(s),
    ensures
        apply_entry(x, entries_of(s)[2].0, entries_of(s)[2].1) == (GeneralValues { show_center_dot: s.show_center_dot, ..x }),
{
    reveal(apply_entry);
    lemma_key_texts();
    lemma_flag_read_back(s.show_center_dot);
}

proof fn lemma_entry_3(x: GeneralValues, s: GeneralValues)
    requires
        values_in_range(s),
        texts_readable(s),
    ensures
        apply_entry(x, entries_of(s)[3].0, entries_of(s)[3].1) == (GeneralValues { dot_size: s.dot_size, ..x }),
{
    reveal(apply_entry);
    lemma_key_texts();
    lemma_number_read_back(s.dot_size, 3, 100, x.dot_size);
}

proof fn lemma_entry_4(x: GeneralValues, s: GeneralValues)
    requires
        values_in_range(s),
        texts_readable(s),
    ensures
        apply_entry(x, entries_of(s)[4].0, entries_of(s)[4].1) == (GeneralValues { dot_color: s.dot_color, ..x }),
{
    reveal(apply_entry);
    lemma_key_texts();
    lemma_color_read_back(s.dot_color);
}

proof fn lemma_entry_5(x: GeneralValues, s: GeneralValues)
    requires
        values_in_range(s),
        texts_readable(s),
    ensures
        apply_entry(x, entries_of(s)[5].0, entries_of(s)[5].1) == (GeneralValues { dot_mode: s.dot_mode, ..x }),
{
    reveal(apply_entry);
    lemma_key_texts();
}

proof fn lemma_entry_6(x: GeneralValues, s: GeneralValues)
    requires
        values_in_range(s),
        texts_readable(s),
    ensures
        apply_entry(x, entries_of(s)[6].0, entries_of(s)[6].1) == (GeneralValues { dot_trail_enabled: s.dot_trail_enabled, ..x }),
{
    reveal(apply_entry);
    lemma_key_texts();
    lemma_flag_read_back(s.dot_trail_enabled);
}

proof fn lemma_entry_7(x: GeneralValues, s: GeneralValues)
    requires
        values_in_range(s),
        texts_readable(s),
    ensures
        apply_entry(x, entries_of(s)[7].0, entries_of(s)[7].1) == (GeneralValues { shade_color: s.shade_color, ..x }),
{
    reveal(apply_entry);
    lemma_key_texts();
    lemma_color_read_back(s.shade_color);
}

proof fn lemma_entry_8(x: GeneralValues, s: GeneralValues)
    requires
        values_in_range(s),
        texts_readable(s),
    ensures
        apply_entry(x, entries_of(s)[8].0, entries_of(s)[8].1) == (GeneralValues { cursor: s.cursor, ..x }),
{
    reveal(apply_entry);
    lemma_key_texts();
    lemma_number_read_back(s.cursor, i32::MIN, i32::MAX, x.cursor);
}

proof fn lemma_entry_9(x: GeneralValues, s: GeneralValues)
    requires
        values_in_range(s),
        texts_readable(s),
    ensures
        apply_entry(x, entries_of(s)[9].0, entries_of(s)[9].1) == (GeneralValues { spot_shape: s.spot_shape, ..x }),
{
    reveal(apply_entry);
    lemma_key_texts();
}

proof fn lemma_entry_10(x: GeneralValues, s: GeneralValues)
    requires
        values_in_range(s),
        texts_readable(s),
    ensures
        apply_entry(x, entries_of(s)[10].0, entries_of(s)[10].1) == (GeneralValues { square_radius: s.square_radius, ..x }),
{
    reveal(apply_entry);
    lemma_key_texts();
    lemma_number_read_back(s.square_radius, 0, 100, x.square_radius);
}

proof fn lemma_entry_11(x: GeneralValues, s: GeneralValues)
    requires
        values_in_range(s),
        texts_readable(s),
    ensures
        apply_entry(x, entries_of(s)[11].0, entries_of(s)[11].1) == (GeneralValues { star_points: s.star_points, ..x }),
{
    reveal(apply_entry);
    lemma_key_texts();
    lemma_number_read_back(s.star_points, 3, 100, x.star_points);
}

proof fn lemma_entry_12(x: GeneralValues, s: GeneralValues)
    requires
        values_in_range(s),
        texts_readable(s),
    ensures
        apply_entry(x, entries_of(s)[12].0, entries_of(s)[12].1) == (GeneralValues { star_inner_radius: s.star_inner_radius, ..x }),
{
    reveal(apply_entry);
    lemma_key_texts();
    lemma_number_read_back(s.star_inner_radius, 5, 100, x.star_inner_radius);
}

proof fn lemma_entry_13(x: GeneralValues, s: GeneralValues)
    requires
        values_in_range(s),
        texts_readable(s),
    ensures
        apply_entry(x, entries_of(s)[13].0, entries_of(s)[13].1) == (GeneralValues { ngon_sides: s.ngon_sides, ..x }),
{
    reveal(apply_entry);
    lemma_key_texts();
    lemma_number_read_back(s.ngon_sides, 3, 100, x.ngon_sides);
}

proof fn lemma_entry_14(x: GeneralValues, s: GeneralValues)
    requires
        values_in_range(s),
        texts_readable(s),
    ensures
        apply_entry(x, entries_of(s)[14].0, entries_of(s)[14].1) == (GeneralValues { show_border: s.show_border, ..x }),
{
    reveal(apply_entry);
    lemma_key_texts();
    lemma_flag_read_back(s.show_border);
}

proof fn lemma_entry_15(x: GeneralValues, s: GeneralValues)
    requires
        values_in_range(s),
        texts_readable(s),
    ensures
        apply_entry(x, entries_of(s)[15].0, entries_of(s)[15].1) == (GeneralValues { border_color: s.border_color, ..x }),
{
    reveal(apply_entry);
    lemma_key_texts();
    lemma_color_read_back(s.border_color);
}

proof fn lemma_entry_16(x: GeneralValues, s: GeneralValues)
    requires
        values_in_range(s),
        texts_readable(s),
    ensures
        apply_entry(x, entries_of(s)[16].0, entries_of(s)[16].1) == (GeneralValues { border_size: s.border_size, ..x }),
{
    reveal(apply_entry);
    lemma_key_texts();
    lemma_number_read_back(s.border_size, 0, 100, x.border_size);
}

proof fn lemma_entry_17(x: GeneralValues, s: GeneralValues)
    requires
        values_in_range(s),
        texts_readable(s),
    ensures
        apply_entry(x, entries_of(s)[17].0, entries_of(s)[17].1) == (GeneralValues { zoom_enabled: s.zoom_enabled, ..x }),
{
    reveal(apply_entry);
    lemma_key_texts();
    lemma_flag_read_back(s.zoom_enabled);
}

proof fn lemma_entry_18(x: GeneralValues, s: GeneralValues)
    requires
        values_in_range(s),
        texts_readable(s),
    ensures
        apply_entry(x, entries_of(s)[18].0, entries_of(s)[18].1) == (GeneralValues { zoom_mode: s.zoom_mode, ..x }),
{
    reveal(apply_entry);
    lemma_key_texts();
}

proof fn lemma_entry_19(x: GeneralValues, s: GeneralValues)
    requires
        values_in_range(s),
        texts_readable(s),
    ensures
        apply_entry(x, entries_of(s)[19].0, entries_of(s)[19].1) == (GeneralValues { multi_screen_overlay: s.multi_screen_overlay, ..x }),
{
    reveal(apply_entry);
    lemma_key_texts();
    lemma_flag_read_back(s.multi_screen_overlay);
}

proof fn lemma_entry_20(x: GeneralValues, s: GeneralValues)
    requires
        values_in_range(s),
        texts_readable(s),
    ensures
        apply_entry(x, entries_of(s)[20].0, entries_of(s)[20].1) == (GeneralValues { presentation_timer_enabled: s.presentation_timer_enabled, ..x }),
{
    reveal(apply_entry);
    lemma_key_texts();
    lemma_flag_read_back(s.presentation_timer_enabled);
}

proof fn lemma_entry_21(x: GeneralValues, s: GeneralValues)
    requires
        values_in_range(s),
        texts_readable(s),
    ensures
        apply_entry(x, entries_of(s)[21].0, entries_of(s)[21].1) == (GeneralValues { presentation_timer_duration_seconds: s.presentation_timer_duration_seconds, ..x }),
{
    reveal(apply_entry);
    lemma_key_texts();
    lemma_number_read_back(s.presentation_timer_duration_seconds, 1, i32::MAX, x.presentation_timer_duration_seconds);
}

#[verifier::spinoff_prover]
proof fn lemma_read_back_0_4(t: GeneralValues, s: GeneralValues, x: GeneralValues)
    requires
        values_in_range(s),
        texts_readable(s),
        applied(t, entries_of(s).take(0)) == x,
    ensures
        applied(t, entries_of(s).take(4)) == (GeneralValues { show_spot_shade: s.show_spot_shade, spot_size: s.spot_size, show_center_dot: s.show_center_dot, dot_size: s.dot_size, ..x }),
{
    let e = entries_of(s);
    let x0 = x;
    let x1 = GeneralValues { show_spot_shade: s.show_spot_shade, ..x0 };
    lemma_entry_0(x0, s);
    assert(e.take(1).drop_last() =~= e.take(0));
    assert(e.take(1).last() == e[0]);
    assert(applied(t, e.take(1)) == x1);
    let x2 = GeneralValues { spot_size: s.spot_size, ..x1 };
    lemma_entry_1(x1, s);
    assert(e.take(2).drop_last() =~= e.take(1));
    assert(e.take(2).last() == e[1]);
    assert(applied(t, e.take(2)) == x2);
    let x3 = GeneralValues { show_center_dot: s.show_center_dot, ..x2 };
    lemma_entry_2(x2, s);
    assert(e.take(3).drop_last() =~= e.take(2));
    assert(e.take(3).last() == e[2]);
    assert(applied(t, e.take(3)) == x3);
    let x4 = GeneralValues { dot_size: s.dot_size, ..x3 };
    lemma_entry_3(x3, s);
    assert(e.take(4).drop_last() =~= e.take(3));
    assert(e.take(4).last() == e[3]);
    assert(applied(t, e.take(4)) == x4);
    assert(x4 == (GeneralValues { show_spot_shade: s.show_spot_shade, spot_size: s.spot_size, show_center_dot: s.show_center_dot, dot_size: s.dot_size, ..x }));
}

#[verifier::spinoff_prover]
proof fn lemma_read_back_4_8(t: GeneralValues, s: GeneralValues, x: GeneralValues)
    requires
        values_in_range(s),
        texts_readable(s),
        applied(t, entries_of(s).take(4)) == x,
    ensures
        applied(t, entries_of(s).take(8)) == (GeneralValues { dot_color: s.dot_color, dot_mode: s.dot_mode, dot_trail_enabled: s.dot_trail_enabled, shade_color: s.shade_color, ..x }),
{
    let e = entries_of(s);
    let x4 = x;
    let x5 = GeneralValues { dot_color: s.dot_color, ..x4 };
    lemma_entry_4(x4, s);
    assert(e.take(5).drop_last() =~= e.take(4));
    assert(e.take(5).last() == e[4]);
    assert(applied(t, e.take(5)) == x5);
    let x6 = GeneralValues { dot_mode: s.dot_mode, ..x5 };
    lemma_entry_5(x5, s);
    assert(e.take(6).drop_last() =~= e.take(5));
    assert(e.take(6).last() == e[5]);
    assert(applied(t, e.take(6)) == x6);
    let x7 = GeneralValues { dot_trail_enabled: s.dot_trail_enabled, ..x6 };
    lemma_entry_6(x6, s);
    assert(e.take(7).drop_last() =~= e.take(6));
    assert(e.take(7).last() == e[6]);
    assert(applied(t, e.take(7)) == x7);
    let x8 = GeneralValues { shade_color: s.shade_color, ..x7 };
    lemma_entry_7(x7, s);
    assert(e.take(8).drop_last() =~= e.take(7));
    assert(e.take(8).last() == e[7]);
    assert(applied(t, e.take(8)) == x8);
    assert(x8 == (GeneralValues { dot_color: s.dot_color, dot_mode: s.dot_mode, dot_trail_enabled: s.dot_trail_enabled, shade_color: s.shade_color, ..x }));
}

#[verifier::spinoff_prover]
proof fn lemma_read_back_8_12(t: GeneralValues, s: GeneralValues, x: GeneralValues)
    requires
        values_in_range(s),
        texts_readable(s),
        applied(t, entries_of(s).take(8)) == x,
    ensures
        applied(t, entries_of(s).take(12)) == (GeneralValues { cursor: s.cursor, spot_shape: s.spot_shape, square_radius: s.square_radius, star_points: s.star_points, ..x }),
{
    let e = entries_of(s);
    let x8 = x;
    let x9 = GeneralValues { cursor: s.cursor, ..x8 };
    lemma_entry_8(x8, s);
    assert(e.take(9).drop_last() =~= e.take(8));
    assert(e.take(9).last() == e[8]);
    assert(applied(t, e.take(9)) == x9);
    let x10 = GeneralValues { spot_shape: s.spot_shape, ..x9 };
    lemma_entry_9(x9, s);
    assert(e.take(10).drop_last() =~= e.take(9));
    assert(e.take(10).last() == e[9]);
    assert(applied(t, e.take(10)) == x10);
    let x11 = GeneralValues { square_radius: s.square_radius, ..x10 };
    lemma_entry_10(x10, s);
    assert(e.take(11).drop_last() =~= e.take(10));
    assert(e.take(11).last() == e[10]);
    assert(applied(t, e.take(11)) == x11);
    let x12 = GeneralValues { star_points: s.star_points, ..x11 };
    lemma_entry_11(x11, s);
    assert(e.take(12).drop_last() =~= e.take(11));
    assert(e.take(12).last() == e[11]);
    assert(applied(t, e.take(12)) == x12);
    assert(x12 == (GeneralValues { cursor: s.cursor, spot_shape: s.spot_shape, square_radius: s.square_radius, star_points: s.star_points, ..x }));
}

#[verifier::spinoff_prover]
proof fn lemma_read_back_12_16(t: GeneralValues, s: GeneralValues, x: GeneralValues)
    requires
        values_in_range(s),
        texts_readable(s),
        applied(t, entries_of(s).take(12)) == x,
    ensures
        applied(t, entries_of(s).take(16)) == (GeneralValues { star_inner_radius: s.star_inner_radius, ngon_sides: s.ngon_sides, show_border: s.show_border, border_color: s.border_color, ..x }),
{
    let e = entries_of(s);
    let x12 = x;
    let x13 = GeneralValues { star_inner_radius: s.star_inner_radius, ..x12 };
    lemma_entry_12(x12, s);
    assert(e.take(13).drop_last() =~= e.take(12));
    assert(e.take(13).last() == e[12]);
    assert(applied(t, e.take(13)) == x13);
    let x14 = GeneralValues { ngon_sides: s.ngon_sides, ..x13 };
    lemma_entry_13(x13, s);
    assert(e.take(14).drop_last() =~= e.take(13));
    assert(e.take(14).last() == e[13]);
    assert(applied(t, e.take(14)) == x14);
    let x15 = GeneralValues { show_border: s.show_border, ..x14 };
    lemma_entry_14(x14, s);
    assert(e.take(15).drop_last() =~= e.take(14));
    assert(e.take(15).last() == e[14]);
    assert(applied(t, e.take(15)) == x15);
    let x16 = GeneralValues { border_color: s.border_color, ..x15 };
    lemma_entry_15(x15, s);
    assert(e.take(16).drop_last() =~= e.take(15));
    assert(e.take(16).last() == e[15]);
    assert(applied(t, e.take(16)) == x16);
    assert(x16 == (GeneralValues { star_inner_radius: s.star_inner_radius, ngon_sides: s.ngon_sides, show_border: s.show_border, border_color: s.border_color, ..x }));
}

#[verifier::spinoff_prover]
proof fn lemma_read_back_16_19(t: GeneralValues, s: GeneralValues, x: GeneralValues)
    requires
        values_in_range(s),
        texts_readable(s),
        applied(t, entries_of(s).take(16)) == x,
    ensures
        applied(t, entries_of(s).take(19)) == (GeneralValues { border_size: s.border_size, zoom_enabled: s.zoom_enabled, zoom_mode: s.zoom_mode, ..x }),
{
    let e = entries_of(s);
    let x16 = x;
    let x17 = GeneralValues { border_size: s.border_size, ..x16 };
    lemma_entry_16(x16, s);
    assert(e.take(17).drop_last() =~= e.take(16));
    assert(e.take(17).last() == e[16]);
    assert(applied(t, e.take(17)) == x17);
    let x18 = GeneralValues { zoom_enabled: s.zoom_enabled, ..x17 };
    lemma_entry_17(x17, s);
    assert(e.take(18).drop_last() =~= e.take(17));
    assert(e.take(18).last() == e[17]);
    assert(applied(t, e.take(18)) == x18);
    let x19 = GeneralValues { zoom_mode: s.zoom_mode, ..x18 };
    lemma_entry_18(x18, s);
    assert(e.take(19).drop_last() =~= e.take(18));
    assert(e.take(19).last() == e[18]);
    assert(applied(t, e.take(19)) == x19);
    assert(x19 == (GeneralValues { border_size: s.border_size, zoom_enabled: s.zoom_enabled, zoom_mode: s.zoom_mode, ..x }));
}

#[verifier::spinoff_prover]
proof fn lemma_read_back_19_22(t: GeneralValues, s: GeneralValues, x: GeneralValues)
    requires
        values_in_range(s),
        texts_readable(s),
        applied(t, entries_of(s).take(19)) == x,
    ensures
        applied(t, entries_of(s).take(22)) == (GeneralValues { multi_screen_overlay: s.multi_screen_overlay, presentation_timer_enabled: s.presentation_timer_enabled, presentation_timer_duration_seconds: s.presentation_timer_duration_seconds, ..x }),
{
    let e = entries_of(s);
    let x19 = x;
    let x20 = GeneralValues { multi_screen_overlay: s.multi_screen_overlay, ..x19 };
    lemma_entry_19(x19, s);
    assert(e.take(20).drop_last() =~= e.take(19));
    assert(e.take(20).last() == e[19]);
    assert(applied(t, e.take(20)) == x20);
    let x21 = GeneralValues { presentation_timer_enabled: s.presentation_timer_enabled, ..x20 };
    lemma_entry_20(x20, s);
    assert(e.take(21).drop_last() =~= e.take(20));
    assert(e.take(21).last() == e[20]);
    assert(applied(t, e.take(21)) == x21);
    let x22 = GeneralValues { presentation_timer_duration_seconds: s.presentation_timer_duration_seconds, ..x21 };
    lemma_entry_21(x21, s);
    assert(e.take(22).drop_last() =~= e.take(21));
    assert(e.take(22).last() == e[21]);
    assert(applied(t, e.take(22)) == x22);
    assert(x22 == (GeneralValues { multi_screen_overlay: s.multi_screen_overlay, presentation_timer_enabled: s.presentation_timer_enabled, presentation_timer_duration_seconds: s.presentation_timer_duration_seconds, ..x }));
}

/// Reading back the entries written for settings gives those settings,
/// whatever the settings were before: for every bounded setting within its
/// range, colors without commas and a spot shape, all not empty.
pub proof fn lemma_entries_read_back(t: GeneralValues, s: GeneralValues)
    requires
        values_in_range(s),
        texts_readable(s),
    ensures
        applied(t, entries_of(s)) == s,
{
    let e = entries_of(s);
    assert(e.take(0) =~= Seq::<(Seq<char>, Seq<char>)>::empty());
    let y0 = GeneralValues { show_spot_shade: s.show_spot_shade, spot_size: s.spot_size, show_center_dot: s.show_center_dot, dot_size: s.dot_size, ..t };
    lemma_read_back_0_4(t, s, t);
    let y1 = GeneralValues { dot_color: s.dot_color, dot_mode: s.dot_mode, dot_trail_enabled: s.dot_trail_enabled, shade_color: s.shade_color, ..y0 };
    lemma_read_back_4_8(t, s, y0);
    let y2 = GeneralValues { cursor: s.cursor, spot_shape: s.spot_shape, square_radius: s.square_radius, star_points: s.star_points, ..y1 };
    lemma_read_back_8_12(t, s, y1);
    let y3 = GeneralValues { star_inner_radius: s.star_inner_radius, ngon_sides: s.ngon_sides, show_border: s.show_border, border_color: s.border_color, ..y2 };
    lemma_read_back_12_16(t, s, y2);
    let y4 = GeneralValues { border_size: s.border_size, zoom_enabled: s.zoom_enabled, zoom_mode: s.zoom_mode, ..y3 };
    lemma_read_back_16_19(t, s, y3);
    let y5 = GeneralValues { multi_screen_overlay: s.multi_screen_overlay, presentation_timer_enabled: s.presentation_timer_enabled, presentation_timer_duration_seconds: s.presentation_timer_duration_seconds, ..y4 };
    lemma_read_back_19_22(t, s, y4);
    assert(e.take(22) =~= e);
    assert(y5 == s);
}

} // verus!
