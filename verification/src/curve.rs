//! Easing curves: how far an animation has come, as a function of how much
//! of its time has passed.
use vstd::prelude::*;
use crate::AnimationDuration;
use crate::lerp::{clamp_i64, UNIT};

verus! {

/// An easing curve over amounts in millionths.
pub trait Ease {
    /// What the curve makes of the amount `t`; `None` where `t` lies outside
    /// the curve's domain.
    spec fn eased(&self, t: i64) -> Option<i64>;

    fn sample(&self, t: i64) -> (amount: Option<i64>)
        ensures
            amount == self.eased(t),
    ;
}

/// The curve that changes nothing, on the domain from zero to `UNIT`.
#[derive(Clone, Copy, Debug, PartialEq, Eq, Structural)]
pub struct Linear;

impl Ease for Linear {
    open spec fn eased(&self, t: i64) -> Option<i64> {
        if 0 <= t <= UNIT {
            Some(t)
        } else {
            None
        }
    }

    fn sample(&self, t: i64) -> (amount: Option<i64>) {
        if 0 <= t && t <= UNIT {
            Some(t)
        } else {
            None
        }
    }
}

/// The curve of a node.
#[derive(Debug)]
pub struct AnimationCurve<C: Ease>(pub C);

impl Default for AnimationCurve<Linear> {
    fn default() -> (curve: Self)
        ensures
            curve.0 == Linear,
    {
        AnimationCurve(Linear)
    }
}

/// The share of `duration` that has passed at the local offset `instant`, in
/// millionths and rounded down: the whole where there is no duration, and no
/// more than an `i64` holds.
pub open spec fn time_passed(duration: AnimationDuration, instant: u64) -> i64 {
    if duration.0 == 0 {
        UNIT
    } else {
        clamp_i64(instant * UNIT / (duration.0 as int))
    }
}

/// The amount to evaluate an animation at: the share of time that has
/// passed, put through the curve. Without a curve, or outside the curve's
/// domain, the share itself.
pub open spec fn eased_time<C: Ease>(duration: AnimationDuration, instant: u64, curve: Option<&AnimationCurve<C>>) -> i64 {
    let t = time_passed(duration, instant);
    match curve {
        Some(curve) => match curve.0.eased(t) {
            Some(amount) => amount,
            None => t,
        },
        None => t,
    }
}

/// The amount to evaluate an animation at, at the local offset `instant` of
/// a node that lasts `duration`.
pub fn get_time<C: Ease>(duration: AnimationDuration, instant: u64, curve: Option<&AnimationCurve<C>>) -> (amount: i64)
    ensures
        amount == eased_time(duration, instant, curve),
{
    let t: i64 = if duration.0 == 0 {
        UNIT
    } else {
        let share: u128 = instant as u128 * 1_000_000 / duration.0 as u128;
        if share > i64::MAX as u128 {
            i64::MAX
        } else {
            share as i64
        }
    };
    match curve {
        Some(curve) => match curve.0.sample(t) {
            Some(amount) => amount,
            None => t,
        },
        None => t,
    }
}

} // verus!
