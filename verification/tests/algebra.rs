use bevy_keyframe::curve::{get_time, AnimationCurve, Linear};
use bevy_keyframe::lerp::{AnimationLerp, UNIT};
use bevy_keyframe::AnimationDuration;

fn no_curve() -> Option<&'static AnimationCurve<Linear>> {
    None
}

#[test]
fn lerp_of_whole_numbers_rounds_toward_zero() {
    assert_eq!(10i64.animation_lerp(&20, 250_000), 12);
    assert_eq!(10i64.animation_lerp(&20, 500_000), 15);
    assert_eq!(10i64.animation_lerp(&0, 250_000), 8);
    assert_eq!(0i64.animation_lerp(&-10, 250_000), -2);
    assert_eq!(0i64.animation_lerp(&3, 333_333), 0);
    assert_eq!(0i64.animation_lerp(&3, 333_334), 1);
    assert_eq!(7i32.animation_lerp(&-7, 750_000), -3);
}

#[test]
fn lerp_ends_are_exact() {
    assert_eq!(i64::MIN.animation_lerp(&i64::MAX, 0), i64::MIN);
    assert_eq!(i64::MIN.animation_lerp(&i64::MAX, UNIT), i64::MAX);
    assert_eq!(i64::MAX.animation_lerp(&i64::MIN, UNIT), i64::MIN);
    assert_eq!(i32::MIN.animation_lerp(&i32::MAX, UNIT), i32::MAX);
    assert_eq!((3i64, -4i32).animation_lerp(&(9, 8), UNIT), (9, 8));
}

#[test]
fn lerp_does_not_clamp_the_amount_but_stays_in_range() {
    assert_eq!(10i64.animation_lerp(&20, 1_500_000), 25);
    assert_eq!(10i64.animation_lerp(&20, -500_000), 5);
    assert_eq!(0i64.animation_lerp(&i64::MAX, 2 * UNIT), i64::MAX);
    assert_eq!(0i64.animation_lerp(&i64::MAX, -2 * UNIT), i64::MIN);
    assert_eq!(i64::MIN.animation_lerp(&i64::MAX, i64::MAX), i64::MAX);
    assert_eq!(i64::MAX.animation_lerp(&i64::MIN, i64::MIN), i64::MAX);
    assert_eq!(0i32.animation_lerp(&i32::MAX, 3 * UNIT), i32::MAX);
    assert_eq!(0i32.animation_lerp(&i32::MAX, -3 * UNIT), i32::MIN);
}

#[test]
fn difference_and_accumulate_of_whole_numbers() {
    assert_eq!(20i64.difference(&5), 15);
    assert_eq!(5i64.difference(&20), -15);
    let mut value: i64 = 5;
    value.accumulate(&15);
    assert_eq!(value, 20);
    let mut small: i32 = -3;
    small.accumulate(&-4);
    assert_eq!(small, -7);
    assert_eq!(i64::identity(), 0);
    assert_eq!(i32::identity(), 0);
    assert_eq!(<(i64, i32)>::identity(), (0, 0));
}

#[test]
fn accumulating_the_difference_gives_the_other_value() {
    let values: [i64; 7] = [0, 1, -1, 42, i64::MAX, i64::MIN, -7_000_000_000];
    for a in values {
        for b in values {
            let mut round = a;
            round.accumulate(&b.difference(&a));
            assert_eq!(round, b);
        }
    }
    let small: [i32; 5] = [0, 3, -9, i32::MAX, i32::MIN];
    for a in small {
        for b in small {
            let mut round = a;
            round.accumulate(&b.difference(&a));
            assert_eq!(round, b);
        }
    }
}

#[test]
fn sums_and_differences_wrap_around() {
    assert_eq!(i64::MAX.difference(&i64::MIN), -1);
    assert_eq!(i64::MIN.difference(&1), i64::MAX);
    let mut value = i64::MAX;
    value.accumulate(&1);
    assert_eq!(value, i64::MIN);
    let mut small = i32::MIN;
    small.accumulate(&-1);
    assert_eq!(small, i32::MAX);
}

#[test]
fn pairs_are_animated_part_by_part() {
    let from = ((0i64, 100i64), 10i32);
    let to = ((10i64, 0i64), -10i32);
    assert_eq!(from.animation_lerp(&to, 500_000), ((5, 50), 0));
    assert_eq!(to.difference(&from), ((10, -100), -20));
    let mut round = from;
    round.accumulate(&to.difference(&from));
    assert_eq!(round, to);
}

#[test]
fn time_is_the_share_of_the_duration_in_millionths() {
    assert_eq!(get_time(AnimationDuration::millis(500), 250_000_000, no_curve()), 500_000);
    assert_eq!(get_time(AnimationDuration::secs(3), 1_000_000_000, no_curve()), 333_333);
    assert_eq!(get_time(AnimationDuration::secs(1), 0, no_curve()), 0);
    assert_eq!(get_time(AnimationDuration::secs(1), 1_000_000_000, no_curve()), UNIT);
    assert_eq!(get_time(AnimationDuration::secs(1), 2_000_000_000, no_curve()), 2 * UNIT);
}

#[test]
fn time_of_a_node_without_duration_is_the_whole() {
    assert_eq!(get_time(AnimationDuration::default(), 0, no_curve()), UNIT);
    assert_eq!(get_time(AnimationDuration(0), 17, no_curve()), UNIT);
}

#[test]
fn time_stays_within_what_fits() {
    assert_eq!(get_time(AnimationDuration(1), u64::MAX, no_curve()), i64::MAX);
}

#[test]
fn linear_curve_changes_nothing() {
    let curve = AnimationCurve::<Linear>::default();
    assert_eq!(get_time(AnimationDuration::millis(500), 250_000_000, Some(&curve)), 500_000);
    assert_eq!(get_time(AnimationDuration::secs(1), 2_000_000_000, Some(&curve)), 2 * UNIT);
    assert_eq!(get_time(AnimationDuration(0), 5, Some(&curve)), UNIT);
}

#[test]
fn durations_are_counted_in_nanoseconds() {
    assert_eq!(AnimationDuration::secs(2), AnimationDuration(2_000_000_000));
    assert_eq!(AnimationDuration::secs(u32::MAX), AnimationDuration(4_294_967_295_000_000_000));
    assert_eq!(AnimationDuration::millis(250), AnimationDuration(250_000_000));
    assert_eq!(AnimationDuration::default(), AnimationDuration(0));
}
