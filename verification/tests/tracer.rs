use bevy_keyframe::playhead::{
    sweep_backward, sweep_forward, AnimationPlayhead, Leaf, PlayheadMove, PlayheadStep, SequenceEvent,
};
use bevy_keyframe::steps::{PlayheadSteps, StageAction};
use bevy_keyframe::AnimationDuration;

const SECOND: i64 = 1_000_000_000;
const HALF: u64 = 500_000_000;
const WHOLE: u64 = 1_000_000_000;

fn leaf(entity: usize, millis: u32) -> Leaf {
    Leaf { entity, duration: AnimationDuration::millis(millis) }
}

fn step(start: bool, end: bool, entity: usize, from: u64, to: u64) -> PlayheadStep {
    PlayheadStep { playhead: 9, start, end, entity, movement: PlayheadMove { start: from, end: to } }
}

#[test]
fn forward_move_inside_first_leaf() {
    let leaves = vec![leaf(1, 1000), leaf(2, 1000)];
    let steps = sweep_forward(9, 0, SECOND / 4, &leaves);
    assert_eq!(steps, vec![step(true, false, 1, 0, 250_000_000)]);
}

#[test]
fn forward_move_that_does_not_start_at_zero_does_not_start_the_sequence() {
    let leaves = vec![leaf(1, 1000), leaf(2, 1000)];
    let steps = sweep_forward(9, SECOND / 4, SECOND / 2, &leaves);
    assert_eq!(steps, vec![step(false, false, 1, 250_000_000, HALF)]);
}

#[test]
fn forward_move_across_a_boundary_gives_one_step_per_leaf() {
    let leaves = vec![leaf(1, 1000), leaf(2, 1000)];
    let steps = sweep_forward(9, SECOND / 2, 3 * SECOND / 2, &leaves);
    assert_eq!(steps, vec![step(false, false, 1, HALF, WHOLE), step(false, false, 2, 0, HALF)]);
}

#[test]
fn forward_move_starts_the_sequence_on_the_first_step_only() {
    let leaves = vec![leaf(1, 1000), leaf(2, 1000), leaf(3, 1000)];
    let steps = sweep_forward(9, 0, 5 * SECOND / 2, &leaves);
    assert_eq!(
        steps,
        vec![step(true, false, 1, 0, WHOLE), step(false, false, 2, 0, WHOLE), step(false, false, 3, 0, HALF)]
    );
}

#[test]
fn forward_move_to_the_very_end_completes_the_sequence() {
    let leaves = vec![leaf(1, 1000), leaf(2, 1000)];
    let steps = sweep_forward(9, SECOND, 2 * SECOND, &leaves);
    assert_eq!(steps, vec![step(false, false, 1, WHOLE, WHOLE), step(false, true, 2, 0, WHOLE)]);
}

#[test]
fn forward_move_beyond_the_end_stops_at_the_end_of_the_last_leaf() {
    let leaves = vec![leaf(1, 1000), leaf(2, 1000)];
    let steps = sweep_forward(9, 3 * SECOND / 2, 10 * SECOND, &leaves);
    assert_eq!(steps, vec![step(false, true, 2, HALF, WHOLE)]);
}

#[test]
fn forward_move_that_starts_beyond_the_end_gives_nothing() {
    let leaves = vec![leaf(1, 1000), leaf(2, 1000)];
    assert_eq!(sweep_forward(9, 3 * SECOND, 4 * SECOND, &leaves), vec![]);
}

#[test]
fn forward_move_before_zero_gives_nothing() {
    let leaves = vec![leaf(1, 1000)];
    assert_eq!(sweep_forward(9, -2 * SECOND, -SECOND, &leaves), vec![]);
}

#[test]
fn forward_move_from_before_zero_enters_the_first_leaf_without_starting() {
    let leaves = vec![leaf(1, 1000)];
    assert_eq!(sweep_forward(9, -SECOND, SECOND / 2, &leaves), vec![step(false, false, 1, 0, HALF)]);
}

#[test]
fn forward_move_over_no_leaves_gives_nothing() {
    assert_eq!(sweep_forward(9, 0, SECOND, &vec![]), vec![]);
}

#[test]
fn zero_duration_leaf_gets_one_step_from_zero_to_zero() {
    let leaves = vec![leaf(1, 0)];
    assert_eq!(sweep_forward(9, 0, SECOND, &leaves), vec![step(true, true, 1, 0, 0)]);
}

#[test]
fn zero_duration_leaves_in_a_row_are_all_reached_in_one_tick() {
    let leaves = vec![leaf(1, 1000), leaf(2, 0), leaf(3, 0), leaf(4, 1000)];
    let steps = sweep_forward(9, SECOND / 2, 3 * SECOND / 2, &leaves);
    assert_eq!(
        steps,
        vec![
            step(false, false, 1, HALF, WHOLE),
            step(false, false, 2, 0, 0),
            step(false, false, 3, 0, 0),
            step(false, false, 4, 0, HALF),
        ]
    );
}

#[test]
fn zero_duration_leaf_at_the_end_completes_the_sequence() {
    let leaves = vec![leaf(1, 1000), leaf(2, 0)];
    let steps = sweep_forward(9, SECOND / 2, SECOND, &leaves);
    assert_eq!(steps, vec![step(false, false, 1, HALF, WHOLE), step(false, true, 2, 0, 0)]);
}

#[test]
fn forward_ticks_from_zero_to_the_end_tile_the_time_line() {
    let leaves = vec![leaf(1, 700), leaf(2, 0), leaf(3, 1300), leaf(4, 1000)];
    let starts: [i64; 4] = [0, 700_000_000, 700_000_000, 2_000_000_000];
    let positions: [i64; 6] = [0, 300_000_000, 700_000_000, 1_900_000_000, 2_100_000_000, 3_000_000_000];
    let mut covered: i64 = 0;
    for tick in 0..positions.len() - 1 {
        let steps = sweep_forward(9, positions[tick], positions[tick + 1], &leaves);
        assert!(!steps.is_empty());
        for step in steps {
            let start = starts[step.entity - 1];
            assert_eq!(start + step.movement.start as i64, covered);
            assert!(step.movement.start <= step.movement.end);
            covered = start + step.movement.end as i64;
        }
        assert_eq!(covered, positions[tick + 1]);
    }
    assert_eq!(covered, 3 * SECOND);
}

#[test]
fn backward_move_sweeps_the_leaf_it_starts_in() {
    let leaves = vec![leaf(1, 1000), leaf(2, 1000)];
    let steps = sweep_backward(9, 3 * SECOND / 2, 5 * SECOND / 4, &leaves);
    assert_eq!(steps, vec![step(false, false, 2, HALF, 250_000_000)]);
}

#[test]
fn backward_move_stops_at_the_start_of_the_leaf_it_starts_in() {
    let leaves = vec![leaf(1, 1000), leaf(2, 1000)];
    let steps = sweep_backward(9, 3 * SECOND / 2, SECOND / 2, &leaves);
    assert_eq!(steps, vec![step(false, false, 2, HALF, 0)]);
}

#[test]
fn backward_move_from_the_end_of_a_leaf_signals_the_end() {
    let leaves = vec![leaf(1, 1000), leaf(2, 1000)];
    let steps = sweep_backward(9, 2 * SECOND, 3 * SECOND / 2, &leaves);
    assert_eq!(steps, vec![step(false, true, 2, WHOLE, HALF)]);
}

#[test]
fn backward_move_to_zero_in_the_first_leaf_signals_the_start() {
    let leaves = vec![leaf(1, 1000), leaf(2, 1000)];
    let steps = sweep_backward(9, SECOND / 2, -SECOND, &leaves);
    assert_eq!(steps, vec![step(true, false, 1, HALF, 0)]);
}

#[test]
fn backward_move_from_beyond_the_end_or_from_zero_sweeps_nothing() {
    let leaves = vec![leaf(1, 1000), leaf(2, 1000)];
    assert_eq!(sweep_backward(9, 3 * SECOND, SECOND, &leaves), vec![]);
    assert_eq!(sweep_backward(9, 0, -SECOND, &leaves), vec![]);
}

#[test]
fn backward_move_passes_over_leaves_without_duration() {
    let leaves = vec![leaf(1, 1000), leaf(2, 0), leaf(3, 1000)];
    let steps = sweep_backward(9, SECOND, SECOND / 2, &leaves);
    assert_eq!(steps, vec![step(false, true, 1, WHOLE, HALF)]);
}

#[test]
fn playhead_that_has_not_moved_gives_no_steps() {
    let leaves = vec![leaf(1, 1000)];
    let mut playhead = AnimationPlayhead::default();
    let mut steps = PlayheadSteps::new();
    playhead.handle_movement(9, &leaves, &mut steps);
    assert_eq!(steps.apply_movement(), vec![]);
}

#[test]
fn jump_moves_the_playhead_without_any_movement() {
    let leaves = vec![leaf(1, 1000)];
    let mut playhead = AnimationPlayhead::default();
    playhead.jump_to(SECOND / 2);
    assert_eq!(playhead.get(), SECOND / 2);
    let mut steps = PlayheadSteps::new();
    playhead.handle_movement(9, &leaves, &mut steps);
    assert_eq!(steps.apply_movement(), vec![]);
}

#[test]
fn get_mut_moves_the_current_position_only() {
    let leaves = vec![leaf(1, 1000)];
    let mut playhead = AnimationPlayhead::default();
    *playhead.get_mut() += SECOND / 4;
    assert_eq!(playhead.get(), SECOND / 4);
    let mut steps = PlayheadSteps::new();
    playhead.handle_movement(9, &leaves, &mut steps);
    assert_eq!(
        steps.apply_movement(),
        vec![
            StageAction::MovementApplied { node: 1, movement: PlayheadMove { start: 0, end: 250_000_000 } },
            StageAction::Sequence { playhead: 9, event: SequenceEvent::SequenceStarted },
            StageAction::Evaluate,
        ]
    );
}

#[test]
fn tracing_advances_the_previous_position() {
    let leaves = vec![leaf(1, 1000)];
    let mut playhead = AnimationPlayhead::default();
    let mut steps = PlayheadSteps::new();
    playhead.set(SECOND / 4);
    playhead.handle_movement(9, &leaves, &mut steps);
    playhead.set(SECOND / 2);
    playhead.handle_movement(9, &leaves, &mut steps);
    assert_eq!(
        steps.apply_movement(),
        vec![
            StageAction::MovementApplied { node: 1, movement: PlayheadMove { start: 0, end: 250_000_000 } },
            StageAction::Sequence { playhead: 9, event: SequenceEvent::SequenceStarted },
            StageAction::MovementApplied { node: 1, movement: PlayheadMove { start: 250_000_000, end: HALF } },
            StageAction::Evaluate,
        ]
    );
}

#[test]
fn forward_move_across_two_leaves_is_staged() {
    let leaves = vec![leaf(1, 1000), leaf(2, 1000)];
    let mut playhead = AnimationPlayhead::default();
    playhead.set(2 * SECOND);
    let mut steps = PlayheadSteps::new();
    playhead.handle_movement(7, &leaves, &mut steps);
    let actions = steps.apply_movement();
    assert_eq!(
        actions,
        vec![
            StageAction::MovementApplied { node: 1, movement: PlayheadMove { start: 0, end: WHOLE } },
            StageAction::Sequence { playhead: 7, event: SequenceEvent::SequenceStarted },
            StageAction::Evaluate,
            StageAction::MovementApplied { node: 2, movement: PlayheadMove { start: 0, end: WHOLE } },
            StageAction::Sequence { playhead: 7, event: SequenceEvent::SequenceCompleted },
            StageAction::Evaluate,
        ]
    );
}

#[test]
fn steps_of_two_playheads_share_their_stages() {
    let first = vec![leaf(1, 1000), leaf(2, 1000)];
    let second = vec![leaf(3, 1000)];
    let mut steps = PlayheadSteps::new();
    let mut a = AnimationPlayhead::default();
    a.jump_to(SECOND / 2);
    a.set(3 * SECOND / 2);
    a.handle_movement(10, &first, &mut steps);
    let mut b = AnimationPlayhead::default();
    b.jump_to(SECOND / 4);
    b.set(SECOND / 2);
    b.handle_movement(11, &second, &mut steps);
    assert_eq!(
        steps.apply_movement(),
        vec![
            StageAction::MovementApplied { node: 1, movement: PlayheadMove { start: HALF, end: WHOLE } },
            StageAction::MovementApplied { node: 3, movement: PlayheadMove { start: 250_000_000, end: HALF } },
            StageAction::Evaluate,
            StageAction::MovementApplied { node: 2, movement: PlayheadMove { start: 0, end: HALF } },
            StageAction::Evaluate,
        ]
    );
}

#[test]
fn stages_are_applied_lowest_first_and_empty_ones_are_passed_over() {
    let mut steps = PlayheadSteps::new();
    steps.push(5, step(false, false, 50, 0, 1));
    steps.push(0, step(false, false, 1, 0, 1));
    steps.push(2, step(false, true, 20, 0, 1));
    steps.push(0, step(true, false, 2, 0, 1));
    steps.stage(&vec![]);
    assert_eq!(
        steps.apply_movement(),
        vec![
            StageAction::MovementApplied { node: 1, movement: PlayheadMove { start: 0, end: 1 } },
            StageAction::MovementApplied { node: 2, movement: PlayheadMove { start: 0, end: 1 } },
            StageAction::Sequence { playhead: 9, event: SequenceEvent::SequenceStarted },
            StageAction::Evaluate,
            StageAction::MovementApplied { node: 20, movement: PlayheadMove { start: 0, end: 1 } },
            StageAction::Sequence { playhead: 9, event: SequenceEvent::SequenceCompleted },
            StageAction::Evaluate,
            StageAction::MovementApplied { node: 50, movement: PlayheadMove { start: 0, end: 1 } },
            StageAction::Evaluate,
        ]
    );
}

#[test]
fn applying_takes_every_stage_out() {
    let mut steps = PlayheadSteps::default();
    steps.push(1000, step(false, false, 1, 0, 1));
    steps.push(3, step(false, false, 2, 0, 1));
    assert_eq!(steps.apply_movement().len(), 4);
    assert_eq!(steps.apply_movement(), vec![]);
    steps.push(3, step(false, false, 4, 2, 3));
    assert_eq!(
        steps.apply_movement(),
        vec![
            StageAction::MovementApplied { node: 4, movement: PlayheadMove { start: 2, end: 3 } },
            StageAction::Evaluate,
        ]
    );
}

#[test]
fn new_stage_map_holds_nothing() {
    let mut steps = PlayheadSteps::new();
    assert_eq!(steps.apply_movement(), vec![]);
}
