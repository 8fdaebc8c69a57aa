//! The state that the desktop control service publishes, and the decisions
//! about what it announces and forwards.

use vstd::prelude::*;

use crate::cli::arg_views;
use crate::timer::{timer_state_name, PresentationTimer};
use crate::text::{chars_are, chars_of, string_of, strip_prefix, strip_prefix_chars, trim, trim_chars};

verus! {

/// Well-known bus name of the control service.
pub const SERVICE_NAME: &'static str = "org.projecteur.Projecteur";

/// Object path of the control interface.
pub const OBJECT_PATH: &'static str = "/org/projecteur/Projecteur/Control";

/// What the control service shows of the application.
#[derive(Debug, PartialEq, Eq)]
pub struct ControlSnapshot {
    pub tray_visible: bool,
    pub overlay_enabled: bool,
    pub spotlight_active: bool,
    pub connected_devices: Vec<String>,
    pub battery_levels: Vec<i32>,
    pub battery_statuses: Vec<String>,
    pub presets: Vec<String>,
    pub current_preset: String,
    pub timer_enabled: bool,
    pub timer_state: String,
    pub timer_duration_seconds: i32,
    pub timer_remaining_seconds: i32,
}

/// A snapshot with its texts as characters.
pub struct SnapshotValues {
    pub tray_visible: bool,
    pub overlay_enabled: bool,
    pub spotlight_active: bool,
    pub connected_devices: Seq<Seq<char>>,
    pub battery_levels: Seq<i32>,
    pub battery_statuses: Seq<Seq<char>>,
    pub presets: Seq<Seq<char>>,
    pub current_preset: Seq<char>,
    pub timer_enabled: bool,
    pub timer_state: Seq<char>,
    pub timer_duration_seconds: i32,
    pub timer_remaining_seconds: i32,
}

impl View for ControlSnapshot {
    type V = SnapshotValues;

    open spec fn view(&self) -> SnapshotValues {
        SnapshotValues {
            tray_visible: self.tray_visible,
            overlay_enabled: self.overlay_enabled,
            spotlight_active: self.spotlight_active,
            connected_devices: arg_views(self.connected_devices@),
            battery_levels: self.battery_levels@,
            battery_statuses: arg_views(self.battery_statuses@),
            presets: arg_views(self.presets@),
            current_preset: self.current_preset@,
            timer_enabled: self.timer_enabled,
            timer_state: self.timer_state@,
            timer_duration_seconds: self.timer_duration_seconds,
            timer_remaining_seconds: self.timer_remaining_seconds,
        }
    }
}

/// The state before the application reports anything: tray and overlay
/// on, spotlight off, no devices or presets, an idle fifteen-minute timer.
pub open spec fn initial_snapshot() -> SnapshotValues {
    SnapshotValues {
        tray_visible: true,
        overlay_enabled: true,
        spotlight_active: false,
        connected_devices: Seq::empty(),
        battery_levels: Seq::empty(),
        battery_statuses: Seq::empty(),
        presets: Seq::empty(),
        current_preset: Seq::empty(),
        timer_enabled: false,
        timer_state: "idle"@,
        timer_duration_seconds: 900,
        timer_remaining_seconds: 900,
    }
}

impl Default for ControlSnapshot {
    fn default() -> (s: ControlSnapshot)
        ensures
            s@ == initial_snapshot(),
    {
        let s = ControlSnapshot {
            tray_visible: true,
            overlay_enabled: true,
            spotlight_active: false,
            connected_devices: Vec::new(),
            battery_levels: Vec::new(),
            battery_statuses: Vec::new(),
            presets: Vec::new(),
            current_preset: String::new(),
            timer_enabled: false,
            timer_state: "idle".to_owned(),
            timer_duration_seconds: 15 * 60,
            timer_remaining_seconds: 15 * 60,
        };
        assert(s@.connected_devices =~= Seq::<Seq<char>>::empty());
        assert(s@.battery_statuses =~= Seq::<Seq<char>>::empty());
        assert(s@.presets =~= Seq::<Seq<char>>::empty());
        s
    }
}

fn copy_strings(v: &Vec<String>) -> (r: Vec<String>)
    ensures
        arg_views(r@) == arg_views(v@),
{
    let mut r: Vec<String> = Vec::new();
    let mut i: usize = 0;
    while i < v.len()
        invariant
            i <= v@.len(),
            arg_views(r@) == arg_views(v@).take(i as int),
        decreases v@.len() - i,
    {
        let ghost prev = r@;
        r.push(v[i].clone());
        assert(arg_views(r@) =~= arg_views(prev).push(v@[i as int]@));
        assert(arg_views(v@).take(i + 1) =~= arg_views(v@).take(i as int).push(v@[i as int]@));
        i = i + 1;
    }
    assert(arg_views(v@).take(i as int) =~= arg_views(v@));
    r
}

fn strings_equal(a: &Vec<String>, b: &Vec<String>) -> (r: bool)
    ensures
        r == (arg_views(a@) == arg_views(b@)),
{
    if a.len() != b.len() {
        assert(arg_views(a@).len() != arg_views(b@).len());
        return false;
    }
    let mut i: usize = 0;
    while i < a.len()
        invariant
            i <= a@.len(),
            a@.len() == b@.len(),
            forall|j: int| 0 <= j < i ==> a@[j]@ == b@[j]@,
        decreases a@.len() - i,
    {
        let x = chars_of(a[i].as_str());
        let y = chars_of(b[i].as_str());
        if !crate::text::chars_eq(x.as_slice(), y.as_slice()) {
            assert(arg_views(a@)[i as int] != arg_views(b@)[i as int]);
            return false;
        }
        i = i + 1;
    }
    assert(arg_views(a@) =~= arg_views(b@));
    true
}

fn i32s_same(a: &Vec<i32>, b: &Vec<i32>) -> (r: bool)
    ensures
        r == (a@ == b@),
{
    if a.len() != b.len() {
        return false;
    }
    let mut i: usize = 0;
    while i < a.len()
        invariant
            i <= a@.len(),
            a@.len() == b@.len(),
            forall|j: int| 0 <= j < i ==> a@[j] == b@[j],
        decreases a@.len() - i,
    {
        if a[i] != b[i] {
            return false;
        }
        i = i + 1;
    }
    assert(a@ =~= b@);
    true
}

fn text_equal(a: &String, b: &String) -> (r: bool)
    ensures
        r == (a@ == b@),
{
    let x = chars_of(a.as_str());
    let y = chars_of(b.as_str());
    crate::text::chars_eq(x.as_slice(), y.as_slice())
}

impl Clone for ControlSnapshot {
    fn clone(&self) -> (r: Self)
        ensures
            r@ == self@,
    {
        ControlSnapshot {
            tray_visible: self.tray_visible,
            overlay_enabled: self.overlay_enabled,
            spotlight_active: self.spotlight_active,
            connected_devices: copy_strings(&self.connected_devices),
            battery_levels: crate::input_mapping::copy_i32s(&self.battery_levels),
            battery_statuses: copy_strings(&self.battery_statuses),
            presets: copy_strings(&self.presets),
            current_preset: self.current_preset.clone(),
            timer_enabled: self.timer_enabled,
            timer_state: self.timer_state.clone(),
            timer_duration_seconds: self.timer_duration_seconds,
            timer_remaining_seconds: self.timer_remaining_seconds,
        }
    }
}

/// The properties the control interface announces changes of.
#[derive(Clone, Copy, Debug, PartialEq, Eq, Structural)]
pub enum ControlProperty {
    OverlayEnabled,
    SpotlightActive,
    ConnectedDevices,
    BatteryLevels,
    BatteryStatuses,
    Presets,
    CurrentPreset,
    TimerEnabled,
    TimerState,
    TimerDurationSeconds,
    TimerRemainingSeconds,
}

/// `p` if `changed`.
pub open spec fn if_changed(changed: bool, p: ControlProperty) -> Seq<ControlProperty> {
    if changed {
        seq![p]
    } else {
        Seq::empty()
    }
}

/// The properties whose values differ between two snapshots, in the order
/// their change signals are sent. Whether the tray is visible is not
/// announced.
pub open spec fn changed_between(a: SnapshotValues, b: SnapshotValues) -> Seq<ControlProperty> {
    if_changed(a.overlay_enabled != b.overlay_enabled, ControlProperty::OverlayEnabled) + if_changed(
        a.spotlight_active != b.spotlight_active,
        ControlProperty::SpotlightActive,
    ) + if_changed(a.connected_devices != b.connected_devices, ControlProperty::ConnectedDevices)
        + if_changed(a.battery_levels != b.battery_levels, ControlProperty::BatteryLevels)
        + if_changed(a.battery_statuses != b.battery_statuses, ControlProperty::BatteryStatuses)
        + if_changed(a.presets != b.presets, ControlProperty::Presets) + if_changed(
        a.current_preset != b.current_preset,
        ControlProperty::CurrentPreset,
    ) + if_changed(a.timer_enabled != b.timer_enabled, ControlProperty::TimerEnabled)
        + if_changed(a.timer_state != b.timer_state, ControlProperty::TimerState) + if_changed(
        a.timer_duration_seconds != b.timer_duration_seconds,
        ControlProperty::TimerDurationSeconds,
    ) + if_changed(
        a.timer_remaining_seconds != b.timer_remaining_seconds,
        ControlProperty::TimerRemainingSeconds,
    )
}

/// Publishing what is already shown announces nothing.
pub proof fn lemma_unchanged_announces_nothing(a: SnapshotValues)
    ensures
        changed_between(a, a).len() == 0,
{
    assert(changed_between(a, a) =~= Seq::<ControlProperty>::empty());
}

fn push_if(v: &mut Vec<ControlProperty>, changed: bool, p: ControlProperty)
    ensures
        final(v)@ == old(v)@ + if_changed(changed, p),
{
    if changed {
        v.push(p);
    }
    assert(final(v)@ =~= old(v)@ + if_changed(changed, p));
}

/// The properties whose change signals announce the move from `previous`
/// to `current`.
pub fn changed_properties(previous: &ControlSnapshot, current: &ControlSnapshot) -> (r: Vec<
    ControlProperty,
>)
    ensures
        r@ == changed_between(previous@, current@),
{
    let mut v: Vec<ControlProperty> = Vec::new();
    push_if(&mut v, previous.overlay_enabled != current.overlay_enabled, ControlProperty::OverlayEnabled);
    push_if(
        &mut v,
        previous.spotlight_active != current.spotlight_active,
        ControlProperty::SpotlightActive,
    );
    push_if(
        &mut v,
        !strings_equal(&previous.connected_devices, &current.connected_devices),
        ControlProperty::ConnectedDevices,
    );
    push_if(
        &mut v,
        !i32s_same(&previous.battery_levels, &current.battery_levels),
        ControlProperty::BatteryLevels,
    );
    push_if(
        &mut v,
        !strings_equal(&previous.battery_statuses, &current.battery_statuses),
        ControlProperty::BatteryStatuses,
    );
    push_if(&mut v, !strings_equal(&previous.presets, &current.presets), ControlProperty::Presets);
    push_if(
        &mut v,
        !text_equal(&previous.current_preset, &current.current_preset),
        ControlProperty::CurrentPreset,
    );
    push_if(&mut v, previous.timer_enabled != current.timer_enabled, ControlProperty::TimerEnabled);
    push_if(&mut v, !text_equal(&previous.timer_state, &current.timer_state), ControlProperty::TimerState);
    push_if(
        &mut v,
        previous.timer_duration_seconds != current.timer_duration_seconds,
        ControlProperty::TimerDurationSeconds,
    );
    push_if(
        &mut v,
        previous.timer_remaining_seconds != current.timer_remaining_seconds,
        ControlProperty::TimerRemainingSeconds,
    );
    assert(v@ =~= changed_between(previous@, current@));
    v
}

/// Whether two snapshots show the same.
pub fn snapshots_equal(a: &ControlSnapshot, b: &ControlSnapshot) -> (r: bool)
    ensures
        r == (a@ == b@),
{
    let r = a.tray_visible == b.tray_visible && a.overlay_enabled == b.overlay_enabled
        && a.spotlight_active == b.spotlight_active && strings_equal(
        &a.connected_devices,
        &b.connected_devices,
    ) && i32s_same(&a.battery_levels, &b.battery_levels) && strings_equal(
        &a.battery_statuses,
        &b.battery_statuses,
    ) && strings_equal(&a.presets, &b.presets) && text_equal(&a.current_preset, &b.current_preset)
        && a.timer_enabled == b.timer_enabled && text_equal(&a.timer_state, &b.timer_state)
        && a.timer_duration_seconds == b.timer_duration_seconds && a.timer_remaining_seconds
        == b.timer_remaining_seconds;
    r
}

/// Publish `snapshot` as the current state: nothing happens when it shows
/// the same as `state`; otherwise `state` becomes it and the previous and
/// new state are returned, to announce the changes between them.
pub fn publish_snapshot(state: &mut ControlSnapshot, snapshot: ControlSnapshot) -> (r: Option<
    (ControlSnapshot, ControlSnapshot),
>)
    ensures
        old(state)@ == snapshot@ ==> r is None && final(state)@ == old(state)@,
        old(state)@ != snapshot@ ==> (r matches Some((p, c)) && p@ == old(state)@ && c@
            == snapshot@ && final(state)@ == snapshot@),
{
    if snapshots_equal(state, &snapshot) {
        return None;
    }
    let mut previous = snapshot.clone();
    core::mem::swap(state, &mut previous);
    Some((previous, snapshot))
}

/// The connected presenter as the control service shows it.
pub struct ConnectedPresenter {
    pub name: String,
    pub battery_level: i32,
    pub battery_status: String,
}

/// The snapshot of the application's state: the connected presenter, if
/// any, as one-element lists, the preset names given one per line, and the
/// presentation timer.
pub open spec fn snapshot_of(
    tray_visible: bool,
    overlay_disabled: bool,
    overlay_active: bool,
    presenter: Option<(Seq<char>, i32, Seq<char>)>,
    preset_names: Seq<char>,
    current_preset: Seq<char>,
    timer: PresentationTimer,
) -> SnapshotValues {
    SnapshotValues {
        tray_visible,
        overlay_enabled: !overlay_disabled,
        spotlight_active: overlay_active,
        connected_devices: match presenter {
            Some(p) => seq![p.0],
            None => Seq::empty(),
        },
        battery_levels: match presenter {
            Some(p) => seq![p.1],
            None => Seq::empty(),
        },
        battery_statuses: match presenter {
            Some(p) => seq![p.2],
            None => Seq::empty(),
        },
        presets: crate::text::lines(preset_names),
        current_preset,
        timer_enabled: timer.enabled,
        timer_state: timer_state_name(timer.state),
        timer_duration_seconds: timer.duration_seconds,
        timer_remaining_seconds: timer.remaining_seconds,
    }
}

/// The snapshot of the application's state.
pub fn control_snapshot(
    tray_visible: bool,
    overlay_disabled: bool,
    overlay_active: bool,
    presenter: Option<&ConnectedPresenter>,
    preset_names: &str,
    current_preset: &str,
    timer: &PresentationTimer,
) -> (r: ControlSnapshot)
    ensures
        r@ == snapshot_of(
            tray_visible,
            overlay_disabled,
            overlay_active,
            match presenter {
                Some(p) => Some((p.name@, p.battery_level, p.battery_status@)),
                None => None,
            },
            preset_names@,
            current_preset@,
            *timer,
        ),
{
    let mut connected_devices: Vec<String> = Vec::new();
    let mut battery_levels: Vec<i32> = Vec::new();
    let mut battery_statuses: Vec<String> = Vec::new();
    if let Some(p) = presenter {
        connected_devices.push(p.name.clone());
        battery_levels.push(p.battery_level);
        battery_statuses.push(p.battery_status.clone());
    }
    let text = chars_of(preset_names);
    let ls = crate::text::lines_of(text.as_slice());
    let mut presets: Vec<String> = Vec::new();
    let mut i: usize = 0;
    while i < ls.len()
        invariant
            i <= ls@.len(),
            arg_views(presets@) == crate::text::views(ls@).take(i as int),
        decreases ls@.len() - i,
    {
        let ghost prev = presets@;
        presets.push(string_of(ls[i].as_slice()));
        assert(arg_views(presets@) =~= arg_views(prev).push(ls@[i as int]@));
        assert(crate::text::views(ls@).take(i + 1) =~= crate::text::views(ls@).take(i as int).push(
            ls@[i as int]@,
        ));
        i = i + 1;
    }
    assert(crate::text::views(ls@).take(i as int) =~= crate::text::views(ls@));
    let r = ControlSnapshot {
        tray_visible,
        overlay_enabled: !overlay_disabled,
        spotlight_active: overlay_active,
        connected_devices,
        battery_levels,
        battery_statuses,
        presets,
        current_preset: current_preset.to_owned(),
        timer_enabled: timer.enabled,
        timer_state: timer.state.as_str().to_owned(),
        timer_duration_seconds: timer.duration_seconds,
        timer_remaining_seconds: timer.remaining_seconds,
    };
    assert(r@.connected_devices =~= match presenter {
        Some(p) => seq![p.name@],
        None => Seq::<Seq<char>>::empty(),
    });
    assert(r@.battery_statuses =~= match presenter {
        Some(p) => seq![p.battery_status@],
        None => Seq::<Seq<char>>::empty(),
    });
    assert(r@.battery_levels =~= match presenter {
        Some(p) => seq![p.battery_level],
        None => Seq::<i32>::empty(),
    });
    r
}

/// What a second launch hands to the running application.
#[derive(Debug, PartialEq, Eq)]
pub enum ForwardRequest {
    /// Apply these commands.
    ApplyCommands(Vec<String>),
    /// Show the preferences window.
    ShowPreferences,
    /// Nothing besides noticing the running application.
    Nothing,
}

/// The commands and the preferences request in the launch arguments from
/// `i` on.
pub open spec fn launch_scan(args: Seq<Seq<char>>, i: int, commands: Seq<Seq<char>>, show: bool) -> (
    Seq<Seq<char>>,
    bool,
)
    decreases args.len() + 1 - i,
{
    if i < 0 || i >= args.len() {
        (commands, show)
    } else {
        let a = args[i];
        if a == "--show-window"@ || a == "--show-dialog"@ {
            launch_scan(args, i + 1, commands, true)
        } else if a == "-c"@ || a == "--command"@ {
            if i + 1 < args.len() && trim(args[i + 1]).len() > 0 {
                launch_scan(args, i + 2, commands.push(trim(args[i + 1])), show)
            } else {
                launch_scan(args, i + 2, commands, show)
            }
        } else if strip_prefix(a, "--command="@) is Some && trim(strip_prefix(a, "--command="@)->0).len()
            > 0 {
            launch_scan(args, i + 1, commands.push(trim(strip_prefix(a, "--command="@)->0)), show)
        } else {
            launch_scan(args, i + 1, commands, show)
        }
    }
}

/// The view of a forwarding request.
pub enum ForwardValue {
    ApplyCommands(Seq<Seq<char>>),
    ShowPreferences,
    Nothing,
}

/// What launch arguments ask of the running application: their commands
/// when there are any, else the preferences window when asked for.
pub open spec fn launch_request(args: Seq<Seq<char>>) -> ForwardValue {
    let (commands, show) = launch_scan(args, 0, Seq::empty(), false);
    if commands.len() > 0 {
        ForwardValue::ApplyCommands(commands)
    } else if show {
        ForwardValue::ShowPreferences
    } else {
        ForwardValue::Nothing
    }
}

/// Decide what launch arguments ask of an already running application.
pub fn forward_request(arguments: &[String]) -> (r: ForwardRequest)
    ensures
        match launch_request(arg_views(arguments@)) {
            ForwardValue::ApplyCommands(c) => r matches ForwardRequest::ApplyCommands(v) && arg_views(
                v@,
            ) == c,
            ForwardValue::ShowPreferences => r is ShowPreferences,
            ForwardValue::Nothing => r is Nothing,
        },
{
    let ghost av = arg_views(arguments@);
    let mut commands: Vec<String> = Vec::new();
    let mut show = false;
    let mut index: usize = 0;
    let n = arguments.len();
    assert(arg_views(commands@) =~= Seq::<Seq<char>>::empty());
    while index < n
        invariant
            n == arguments@.len(),
            av == arg_views(arguments@),
            index <= n,
            launch_scan(av, 0, Seq::empty(), false) == launch_scan(
                av,
                index as int,
                arg_views(commands@),
                show,
            ),
        decreases n - index,
    {
        assert(av[index as int] == arguments@[index as int]@);
        let a = chars_of(arguments[index].as_str());
        if chars_are(a.as_slice(), "--show-window") || chars_are(a.as_slice(), "--show-dialog") {
            show = true;
        } else if chars_are(a.as_slice(), "-c") || chars_are(a.as_slice(), "--command") {
            if index + 1 < n {
                assert(av[index + 1] == arguments@[index + 1]@);
                let c = chars_of(arguments[index + 1].as_str());
                let t = trim_chars(c.as_slice());
                if t.len() > 0 {
                    let ghost prev = commands@;
                    commands.push(string_of(t.as_slice()));
                    assert(arg_views(commands@) =~= arg_views(prev).push(t@));
                }
                index = index + 1;
            } else {
                assert(launch_scan(av, index + 2, arg_views(commands@), show) == (
                    arg_views(commands@),
                    show,
                ));
                assert(launch_scan(av, n as int, arg_views(commands@), show) == (
                    arg_views(commands@),
                    show,
                ));
                index = n;
                continue ;
            }
        } else if let Some(rest) = strip_prefix_chars(a.as_slice(), "--command=") {
            let t = trim_chars(rest.as_slice());
            if t.len() > 0 {
                let ghost prev = commands@;
                commands.push(string_of(t.as_slice()));
                assert(arg_views(commands@) =~= arg_views(prev).push(t@));
            }
        }
        index = index + 1;
    }
    if commands.len() > 0 {
        ForwardRequest::ApplyCommands(commands)
    } else if show {
        ForwardRequest::ShowPreferences
    } else {
        ForwardRequest::Nothing
    }
}

} // verus!
