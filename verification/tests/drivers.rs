use bevy_keyframe::drivers::{PlaybackMode, PlaybackState, RepeatMode, TimeDriver};
use bevy_keyframe::lerp::UNIT;
use bevy_keyframe::playhead::{AnimationPlayhead, Leaf, SequenceEvent};
use bevy_keyframe::steps::{PlayheadSteps, StageAction};
use bevy_keyframe::AnimationDuration;

const SECOND: u64 = 1_000_000_000;

/// One tick of a host: drive, trace, apply, and let the driver see the
/// signals. Returns the signals that were sent.
fn tick(driver: &mut TimeDriver, playhead: &mut AnimationPlayhead, leaves: &Vec<Leaf>, delta: u64) -> Vec<SequenceEvent> {
    let mut steps = PlayheadSteps::new();
    driver.drive_playhead(playhead, delta);
    playhead.handle_movement(0, leaves, &mut steps);
    let mut sent = Vec::new();
    for action in steps.apply_movement() {
        if let StageAction::Sequence { playhead: node, event } = action {
            assert_eq!(node, 0);
            driver.observe_sequence(event, playhead);
            sent.push(event);
        }
    }
    sent
}

fn two_seconds() -> Vec<Leaf> {
    vec![
        Leaf { entity: 1, duration: AnimationDuration::secs(1) },
        Leaf { entity: 2, duration: AnimationDuration::secs(1) },
    ]
}

#[test]
fn driver_plays_once_at_real_time_by_default() {
    let driver = TimeDriver::default();
    assert_eq!(driver, TimeDriver { speed: UNIT, state: PlaybackState::Play, mode: PlaybackMode::Once });
}

#[test]
fn play_and_pause_set_the_state() {
    let mut driver = TimeDriver::default();
    driver.pause();
    assert_eq!(driver.state, PlaybackState::Pause);
    driver.play();
    assert_eq!(driver, TimeDriver::default());
}

#[test]
fn driver_moves_the_playhead_by_time_and_speed() {
    let mut playhead = AnimationPlayhead::default();
    let mut driver = TimeDriver::default();
    driver.drive_playhead(&mut playhead, 250);
    assert_eq!(playhead.get(), 250);
    driver.speed = 2 * UNIT;
    driver.drive_playhead(&mut playhead, 250);
    assert_eq!(playhead.get(), 750);
    driver.speed = -UNIT / 2;
    driver.drive_playhead(&mut playhead, 301);
    assert_eq!(playhead.get(), 600);
    driver.speed = 1;
    driver.drive_playhead(&mut playhead, 999_999);
    assert_eq!(playhead.get(), 600);
    driver.drive_playhead(&mut playhead, 3_000_000);
    assert_eq!(playhead.get(), 603);
}

#[test]
fn paused_driver_leaves_its_playhead_where_it_is() {
    let mut playhead = AnimationPlayhead::default();
    let mut driver = TimeDriver::default();
    driver.pause();
    driver.drive_playhead(&mut playhead, 250);
    assert_eq!(playhead.get(), 0);
    assert_eq!(driver.state, PlaybackState::Pause);
    driver.play();
    driver.drive_playhead(&mut playhead, 250);
    assert_eq!(playhead.get(), 250);
}

#[test]
fn driver_that_has_played_once_stays_at_the_end() {
    let mut playhead = AnimationPlayhead::default();
    let mut driver = TimeDriver::default();
    let leaves = two_seconds();
    tick(&mut driver, &mut playhead, &leaves, 2 * SECOND);
    assert_eq!(driver.state, PlaybackState::Pause);
    assert_eq!(tick(&mut driver, &mut playhead, &leaves, SECOND), vec![]);
    assert_eq!(playhead.get(), 2_000_000_000);
}

#[test]
fn driver_keeps_the_playhead_within_range() {
    let mut playhead = AnimationPlayhead::default();
    let mut driver = TimeDriver::default();
    driver.speed = i64::MAX;
    driver.drive_playhead(&mut playhead, u64::MAX);
    assert_eq!(playhead.get(), i64::MAX);
    driver.speed = i64::MIN;
    driver.drive_playhead(&mut playhead, u64::MAX);
    driver.drive_playhead(&mut playhead, u64::MAX);
    assert_eq!(playhead.get(), i64::MIN);
}

#[test]
fn driver_ignores_the_start_of_a_sequence() {
    let mut playhead = AnimationPlayhead::default();
    playhead.set(5);
    let mut driver = TimeDriver { speed: UNIT, state: PlaybackState::Play, mode: PlaybackMode::Repeat(RepeatMode::PingPong) };
    driver.observe_sequence(SequenceEvent::SequenceStarted, &mut playhead);
    assert_eq!(driver.speed, UNIT);
    assert_eq!(playhead.get(), 5);
}

#[test]
fn driver_that_plays_once_pauses_at_the_end() {
    let mut playhead = AnimationPlayhead::default();
    let mut driver = TimeDriver::default();
    let sent = tick(&mut driver, &mut playhead, &two_seconds(), 2 * SECOND);
    assert_eq!(sent, vec![SequenceEvent::SequenceStarted, SequenceEvent::SequenceCompleted]);
    assert_eq!(driver, TimeDriver { speed: UNIT, state: PlaybackState::Pause, mode: PlaybackMode::Once });
    assert_eq!(playhead.get(), 2_000_000_000);
}

#[test]
fn driver_that_restarts_jumps_back_to_zero() {
    let mut playhead = AnimationPlayhead::default();
    let mut driver = TimeDriver { mode: PlaybackMode::Repeat(RepeatMode::Restart), ..TimeDriver::default() };
    let leaves = two_seconds();
    assert_eq!(tick(&mut driver, &mut playhead, &leaves, 3 * SECOND / 2), vec![SequenceEvent::SequenceStarted]);
    assert_eq!(tick(&mut driver, &mut playhead, &leaves, SECOND), vec![SequenceEvent::SequenceCompleted]);
    assert_eq!(playhead.get(), 0);
    assert_eq!(driver.state, PlaybackState::Play);
    assert_eq!(tick(&mut driver, &mut playhead, &leaves, SECOND / 2), vec![SequenceEvent::SequenceStarted]);
    assert_eq!(playhead.get(), 500_000_000);
}

#[test]
fn driver_that_goes_back_and_forth_turns_around_at_the_end() {
    let mut playhead = AnimationPlayhead::default();
    let mut driver = TimeDriver { mode: PlaybackMode::Repeat(RepeatMode::PingPong), ..TimeDriver::default() };
    let leaves = two_seconds();
    let mut completed = false;
    for _ in 0..4 {
        assert_eq!(driver.speed, UNIT);
        assert!(!completed);
        let sent = tick(&mut driver, &mut playhead, &leaves, SECOND / 2);
        completed = sent.contains(&SequenceEvent::SequenceCompleted);
    }
    assert!(completed);
    assert_eq!(playhead.get(), 2_000_000_000);
    assert_eq!(driver.speed, -UNIT);
    tick(&mut driver, &mut playhead, &leaves, SECOND / 2);
    assert_eq!(playhead.get(), 1_500_000_000);
}

#[test]
fn turning_around_keeps_the_speed_within_range() {
    let mut playhead = AnimationPlayhead::default();
    let mut driver = TimeDriver { speed: i64::MIN, state: PlaybackState::Play, mode: PlaybackMode::Repeat(RepeatMode::PingPong) };
    driver.observe_sequence(SequenceEvent::SequenceCompleted, &mut playhead);
    assert_eq!(driver.speed, i64::MAX);
    driver.observe_sequence(SequenceEvent::SequenceCompleted, &mut playhead);
    assert_eq!(driver.speed, -i64::MAX);
}
