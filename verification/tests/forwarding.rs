use projecteur_core::forwarding::{ButtonCommand, ButtonSession, Emission, POLL_INTERVAL_NS};
use projecteur_core::input_event::{sync_event, InputEvent, EV_KEY, EV_REL, REL_X, REL_Y};
use projecteur_core::input_mapping::{InputMapConfig, InputMapping, MappedAction};
use projecteur_core::presenter::SpecialInput;

fn key(code: u16, value: i32) -> InputEvent {
    InputEvent { event_type: EV_KEY, code, value }
}

fn config() -> InputMapConfig {
    InputMapConfig {
        mappings: vec![
            InputMapping {
                input: vec![vec![key(106, 1)]],
                action: MappedAction::ToggleSpotlight,
            },
            InputMapping {
                input: vec![vec![key(105, 1)], vec![key(105, 0)]],
                action: MappedAction::CyclePresets,
            },
        ],
    }
}

fn feed(session: &mut ButtonSession, frame: &[InputEvent], now: u64) -> Vec<(Emission, bool)> {
    let mut plan = Vec::new();
    for &event in frame {
        assert!(session.event_fits(0, event));
        let (emissions, restart) = session.on_event(0, event, now);
        assert!(!restart);
        plan.extend(emissions);
    }
    plan
}

#[test]
fn mapped_buttons_become_actions_and_others_are_forwarded() {
    let mut session = ButtonSession::new(config(), 1, 250_000_000, false);
    assert_eq!(
        feed(&mut session, &[key(106, 1), sync_event()], 0),
        vec![(Emission::Action(MappedAction::ToggleSpotlight), false)]
    );
    assert_eq!(
        feed(&mut session, &[key(30, 1), sync_event()], 0),
        vec![
            (Emission::Keyboard(key(30, 1)), false),
            (Emission::Keyboard(sync_event()), false),
        ]
    );
}

#[test]
fn nothing_is_emitted_before_a_frame_ends() {
    let mut session = ButtonSession::new(config(), 2, 250_000_000, false);
    let (plan, restart) = session.on_event(1, key(106, 1), 0);
    assert!(plan.is_empty());
    assert!(!restart);
}

#[test]
fn an_unfinished_sequence_is_forwarded_when_its_interval_lapses() {
    let mut session = ButtonSession::new(config(), 1, 1_000, false);
    assert!(feed(&mut session, &[key(105, 1), sync_event()], 10).is_empty());
    assert_eq!(session.wait_timeout(10), 1_000);
    assert!(session.on_idle(500).is_empty());
    assert_eq!(
        session.on_idle(1_010),
        vec![
            (Emission::Keyboard(key(105, 1)), false),
            (Emission::Keyboard(sync_event()), false),
        ]
    );
    assert_eq!(session.wait_timeout(2_000), POLL_INTERVAL_NS);
}

#[test]
fn pointer_motion_goes_to_the_mouse_and_the_overlay() {
    let mut session = ButtonSession::new(config(), 1, 250_000_000, true);
    let motion = [
        InputEvent { event_type: EV_REL, code: REL_X, value: 3 },
        InputEvent { event_type: EV_REL, code: REL_Y, value: -1 },
        sync_event(),
    ];
    let plan = feed(&mut session, &motion, 0);
    assert_eq!(plan[0], (Emission::Motion { x: 3, y: -1 }, true));
    assert_eq!(plan.len(), 4);
    for (emitted, &event) in plan[1..].iter().zip(motion.iter()) {
        assert_eq!(emitted, &(Emission::Mouse(event), false));
    }
}

#[test]
fn recording_reports_frames_until_its_interval_lapses() {
    let mut session = ButtonSession::new(config(), 1, 1_000, false);
    assert!(session.on_command(ButtonCommand::Recording(true), 0).is_empty());
    assert!(session.is_recording());
    assert_eq!(
        feed(&mut session, &[key(106, 1), sync_event()], 5),
        vec![(Emission::Recorded(vec![key(106, 1)]), true)]
    );
    assert_eq!(
        session.on_idle(1_005),
        vec![(Emission::RecordingFinished, true)]
    );
    assert!(!session.is_recording());
}

#[test]
fn recording_ends_after_eight_frames() {
    let mut session = ButtonSession::new(config(), 1, 1_000_000, false);
    session.on_command(ButtonCommand::Recording(true), 0);
    for i in 0..7 {
        assert_eq!(feed(&mut session, &[key(30, 1), sync_event()], i).len(), 1);
    }
    assert_eq!(
        feed(&mut session, &[key(30, 0), sync_event()], 8),
        vec![
            (Emission::Recorded(vec![key(30, 0)]), true),
            (Emission::RecordingFinished, true),
        ]
    );
    assert!(!session.is_recording());
}

#[test]
fn configuration_and_interval_commands_change_no_output() {
    let mut session = ButtonSession::new(InputMapConfig::default(), 1, 1_000, false);
    assert!(session.on_command(ButtonCommand::Config(config()), 0).is_empty());
    assert!(session.on_command(ButtonCommand::Interval(5_000), 0).is_empty());
    assert_eq!(
        feed(&mut session, &[key(106, 1), sync_event()], 0),
        vec![(Emission::Action(MappedAction::ToggleSpotlight), false)]
    );
}

#[test]
fn synthesised_holds_are_matched_like_buttons() {
    let mut session = ButtonSession::new(
        InputMapConfig {
            mappings: vec![InputMapping {
                input: vec![vec![key(0x0e10, 1)]],
                action: MappedAction::ScrollVertical,
            }],
        },
        1,
        1_000,
        false,
    );
    let plan = session.on_command(ButtonCommand::SpecialInput(SpecialInput::Hold(0x0e10)), 0);
    assert_eq!(plan, vec![(Emission::Action(MappedAction::ScrollVertical), true)]);
}

#[test]
fn each_node_keeps_its_own_frame() {
    let mut session = ButtonSession::new(InputMapConfig::default(), 2, 250_000_000, false);
    let (plan, restart) = session.on_event(0, key(30, 1), 0);
    assert!(plan.is_empty() && !restart);
    let (plan, restart) = session.on_event(1, key(48, 1), 0);
    assert!(plan.is_empty() && !restart);
    let (plan, _) = session.on_event(1, sync_event(), 0);
    assert_eq!(
        plan,
        vec![
            (Emission::Keyboard(key(48, 1)), false),
            (Emission::Keyboard(sync_event()), false),
        ]
    );
    let (plan, _) = session.on_event(0, sync_event(), 0);
    assert_eq!(
        plan,
        vec![
            (Emission::Keyboard(key(30, 1)), false),
            (Emission::Keyboard(sync_event()), false),
        ]
    );
}

#[test]
fn an_expired_prefix_is_resolved_by_the_next_idle_step() {
    let mut session = ButtonSession::new(config(), 1, 250_000_000, false);
    assert!(feed(&mut session, &[key(105, 1), sync_event()], 0).is_empty());
    assert!(session.on_idle(100_000_000).is_empty());
    assert_eq!(
        session.on_idle(250_000_000),
        vec![
            (Emission::Keyboard(key(105, 1)), false),
            (Emission::Keyboard(sync_event()), false),
        ]
    );
    assert!(session.on_idle(500_000_000).is_empty());
}
