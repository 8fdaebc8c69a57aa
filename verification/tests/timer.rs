use projecteur_core::timer::{PresentationTimer, TimerState};

#[test]
fn a_new_timer_is_disabled_and_idle() {
    let timer = PresentationTimer::new(900);
    assert!(!timer.enabled);
    assert_eq!(timer.state, TimerState::Idle);
    assert_eq!(timer.remaining_seconds, 900);
    assert_eq!(timer.deadline, None);
    assert_eq!(TimerState::Idle.as_str(), "idle");
    assert_eq!(TimerState::Running.as_str(), "running");
    assert_eq!(TimerState::Completed.as_str(), "completed");
}

#[test]
fn a_disabled_timer_does_not_start() {
    let mut timer = PresentationTimer::new(60);
    timer.start(false, 0);
    assert_eq!(timer.state, TimerState::Idle);
    assert!(!timer.update(1_000_000));
}

#[test]
fn the_countdown_rounds_up_and_completes() {
    let mut timer = PresentationTimer::new(60);
    timer.set_enabled(true);
    timer.start(false, 1_000);
    assert_eq!(timer.state, TimerState::Running);
    assert_eq!(timer.deadline, Some(61_000));
    assert!(!timer.update(1_500));
    assert_eq!(timer.remaining_seconds, 60);
    assert!(!timer.update(59_999));
    assert_eq!(timer.remaining_seconds, 2);
    assert!(timer.update(61_000));
    assert_eq!(timer.state, TimerState::Completed);
    assert_eq!(timer.remaining_seconds, 0);
    assert!(!timer.update(70_000));
}

#[test]
fn starting_again_needs_a_restart_once_running() {
    let mut timer = PresentationTimer::new(120);
    timer.set_enabled(true);
    timer.start(false, 0);
    timer.start(false, 5_000);
    assert_eq!(timer.deadline, Some(120_000));
    timer.start(true, 5_000);
    assert_eq!(timer.deadline, Some(125_000));
}

#[test]
fn durations_are_limited_and_shown_when_idle() {
    let mut timer = PresentationTimer::new(900);
    timer.set_duration(10);
    assert_eq!(timer.duration_seconds, 60);
    assert_eq!(timer.remaining_seconds, 60);
    timer.set_duration(100_000);
    assert_eq!(timer.duration_seconds, 10_800);
    timer.set_enabled(true);
    timer.start(false, 0);
    timer.set_duration(300);
    assert_eq!(timer.duration_seconds, 300);
    assert_eq!(timer.remaining_seconds, 10_800);
}

#[test]
fn disabling_resets_the_countdown() {
    let mut timer = PresentationTimer::new(300);
    timer.set_enabled(true);
    timer.start(false, 0);
    timer.update(100_000);
    timer.set_enabled(false);
    assert_eq!(timer.state, TimerState::Idle);
    assert_eq!(timer.remaining_seconds, 300);
    assert_eq!(timer.deadline, None);
    timer.set_enabled(true);
    timer.start(false, 0);
    timer.reset();
    assert_eq!(timer.state, TimerState::Idle);
    assert!(timer.enabled);
}

#[test]
fn a_countdown_completes_once_and_never_counts_up() {
    let mut timer = PresentationTimer::new(60);
    timer.set_enabled(true);
    timer.start(false, 0);
    let mut shown = Vec::new();
    for now in [0u64, 1, 999, 1_000, 30_500, 59_999] {
        assert!(!timer.update(now));
        shown.push(timer.remaining_seconds);
    }
    assert_eq!(shown, vec![60, 60, 60, 59, 30, 1]);
    assert!(shown.windows(2).all(|w| w[1] <= w[0]));
    assert!(timer.update(60_000));
    assert_eq!(timer.state, TimerState::Completed);
    let completed = timer;
    assert!(!timer.update(60_001));
    assert!(!timer.update(120_000));
    assert_eq!(timer, completed);
}
