//! Hierarchical, time-based keyframe animation.
//!
//! A tree of animation nodes is composed sequentially or in parallel, a
//! playhead is attached to its root, and every movement of that playhead is
//! traced into per-leaf local time windows. Evaluators turn those windows into
//! interpolated or accumulated values of a field on an animation target.
//!
//! Time is measured in whole nanoseconds throughout: positions are `i64`,
//! durations and local offsets are `u64`.
use vstd::prelude::*;

pub mod curve;
pub mod drivers;
pub mod evaluate;
pub mod inherit;
pub mod lens;
pub mod lerp;
pub mod playhead;
pub mod steps;
pub mod tiling;
pub mod tree;

pub use crate::curve::AnimationCurve;
pub use crate::evaluate::{AnimationCallback, Delta, Interval, Keyframe};
pub use crate::inherit::AnimationTarget;
pub use crate::lens::FieldLens;
pub use crate::lerp::AnimationLerp;
pub use crate::tree::{AnimationOf, Animations};

verus! {

/// Identity of a node of an animation tree.
pub type NodeId = usize;

/// How a node composes its children.
#[derive(Clone, Copy, Debug, PartialEq, Eq, Structural)]
pub enum Animation {
    Sequence,
    Parallel,
    Leaf,
}

impl Default for Animation {
    fn default() -> (kind: Self)
        ensures
            kind == Animation::Sequence,
    {
        Animation::Sequence
    }
}

/// What becomes of a node once its animation has completed.
#[derive(Clone, Copy, Debug, PartialEq, Eq, Structural)]
pub enum AnimationComplete {
    Preserve,
    Remove,
    Despawn,
}

impl Default for AnimationComplete {
    fn default() -> (policy: Self)
        ensures
            policy == AnimationComplete::Preserve,
    {
        AnimationComplete::Preserve
    }
}

/// What can go wrong while an animation is evaluated.
#[derive(Clone, Copy, Debug, PartialEq, Eq, Structural)]
pub enum AnimationError {
    /// The animation target lacks the field that a lens expects.
    FieldMissing,
    /// A keyframe has no start value and none can be found.
    MissingStartValue,
    /// A node that was referred to is not in the tree.
    TraversalError,
}

/// Length of a node's animation, in nanoseconds.
#[derive(Clone, Copy, Debug, PartialEq, Eq, Structural)]
pub struct AnimationDuration(pub u64);

impl AnimationDuration {
    /// A duration of `seconds` whole seconds.
    pub fn secs(seconds: u32) -> (duration: Self)
        ensures
            duration.0 == seconds * 1_000_000_000,
    {
        AnimationDuration(seconds as u64 * 1_000_000_000)
    }

    /// A duration of `milliseconds` thousandths of a second.
    pub fn millis(milliseconds: u32) -> (duration: Self)
        ensures
            duration.0 == milliseconds * 1_000_000,
    {
        AnimationDuration(milliseconds as u64 * 1_000_000)
    }
}

impl Default for AnimationDuration {
    fn default() -> (duration: Self)
        ensures
            duration.0 == 0,
    {
        AnimationDuration(0)
    }
}

} // verus!
