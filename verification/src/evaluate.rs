//! The evaluators: what a local movement of a leaf does to a field of the
//! animation target.
use vstd::prelude::*;
use crate::{AnimationDuration, AnimationError, NodeId};
use crate::curve::{eased_time, get_time, AnimationCurve, Ease};
use crate::lens::FieldLens;
use crate::lerp::{AnimationLerp, UNIT};
use crate::playhead::{Leaf, PlayheadMove};

verus! {

/// An additive animation: over its duration the field gains the value held.
#[derive(Debug)]
pub struct Delta<T: AnimationLerp>(pub T);

/// What a delta of `delta` adds over the stretch between two amounts: the
/// difference between what it has added up at the end and at the start, each
/// measured from the identity.
pub open spec fn delta_offset<T: AnimationLerp>(delta: &T, start_time: i64, end_time: i64) -> T {
    let identity = T::identity_spec();
    identity.lerp_spec(delta, end_time).difference_spec(&identity.lerp_spec(delta, start_time))
}

impl<T: AnimationLerp> Delta<T> {
    /// What this delta adds over `movement` on a node that lasts `duration`.
    pub open spec fn offset_spec<C: Ease>(
        &self,
        duration: AnimationDuration,
        movement: &PlayheadMove,
        curve: Option<&AnimationCurve<C>>,
    ) -> T {
        delta_offset(
            &self.0,
            eased_time(duration, movement.start, curve),
            eased_time(duration, movement.end, curve),
        )
    }

    /// What this delta adds over `movement`. Nothing is kept between calls:
    /// the same arguments give the same offset.
    pub fn offset<C: Ease>(&self, duration: AnimationDuration, movement: &PlayheadMove, curve: Option<&AnimationCurve<C>>) -> (applied: T)
        ensures
            applied == self.offset_spec(duration, movement, curve),
    {
        let identity = T::identity();
        let start_time = get_time(duration, movement.start, curve);
        let start = identity.animation_lerp(&self.0, start_time);
        let end_time = get_time(duration, movement.end, curve);
        let end = identity.animation_lerp(&self.0, end_time);
        end.difference(&start)
    }

    /// Apply `movement` to the field that `lens` reaches on `target`: the
    /// field accumulates the offset of the movement. A movement that goes
    /// nowhere is skipped before the field is looked at.
    pub fn handle_movement<E, L: FieldLens<E, T>, C: Ease>(
        &self,
        duration: AnimationDuration,
        movement: &PlayheadMove,
        curve: Option<&AnimationCurve<C>>,
        lens: &L,
        target: &mut E,
    ) -> (done: Result<(), AnimationError>)
        ensures
            movement.start == movement.end ==> done == Ok::<(), AnimationError>(()) && *final(target) == *old(target),
            movement.start != movement.end && !lens.has_field(old(target)) ==> done == Err::<(), AnimationError>(
                AnimationError::FieldMissing,
            ) && *final(target) == *old(target),
            movement.start != movement.end && lens.has_field(old(target)) ==> done == Ok::<(), AnimationError>(())
                && lens.updated(
                old(target),
                lens.field(old(target)).accumulate_spec(&self.offset_spec(duration, movement, curve)),
                final(target),
            ),
    {
        if movement.start == movement.end {
            return Ok(());
        }
        let applied = self.offset(duration, movement, curve);
        let mut value = match lens.get_field(target) {
            Ok(value) => value,
            Err(_) => {
                return Err(AnimationError::FieldMissing);
            },
        };
        value.accumulate(&applied);
        match lens.set_field(target, value) {
            Ok(()) => Ok(()),
            Err(_) => Err(AnimationError::FieldMissing),
        }
    }
}

/// Replaying a movement gives the offset that it gave before: the offset
/// depends on the delta, the duration, the movement and the curve, and on
/// nothing that an earlier evaluation left behind.
pub proof fn lemma_delta_replay<T: AnimationLerp, C: Ease>(
    first: &Delta<T>,
    second: &Delta<T>,
    duration: AnimationDuration,
    movement: &PlayheadMove,
    curve: Option<&AnimationCurve<C>>,
)
    requires
        first.0 == second.0,
    ensures
        first.offset_spec(duration, movement, curve) == second.offset_spec(duration, movement, curve),
{
}

/// The field after a delta has been applied over the first `n` stretches
/// between the amounts `times`, one after the other.
pub open spec fn delta_applied<T: AnimationLerp>(delta: &T, field: T, times: Seq<i64>, n: int) -> T
    decreases n,
{
    if n <= 0 {
        field
    } else {
        delta_applied(delta, field, times, n - 1).accumulate_spec(&delta_offset(delta, times[n - 1], times[n]))
    }
}

/// A delta keeps no state and loses nothing by it: applied stretch by
/// stretch, each beginning where the one before it ended, it adds what it
/// adds over the whole stretch at once.
pub proof fn lemma_delta_adds_up<T: AnimationLerp>(delta: &T, field: T, times: Seq<i64>, n: int)
    requires
        0 <= n < times.len(),
    ensures
        delta_applied(delta, field, times, n) == field.accumulate_spec(&delta_offset(delta, times[0], times[n])),
    decreases n,
{
    let identity = T::identity_spec();
    if n == 0 {
        let reached = identity.lerp_spec(delta, times[0]);
        T::lemma_identity(&reached);
        T::lemma_identity(&field);
    } else {
        lemma_delta_adds_up(delta, field, times, n - 1);
        T::lemma_differences_chain(
            &field,
            &identity.lerp_spec(delta, times[n]),
            &identity.lerp_spec(delta, times[n - 1]),
            &identity.lerp_spec(delta, times[0]),
        );
    }
}

/// Over stretches that lead from the start of its node to the end, a delta
/// adds exactly the value that it holds.
pub proof fn lemma_delta_adds_its_value<T: AnimationLerp>(delta: &T, field: T, times: Seq<i64>)
    requires
        times.len() > 0,
        times[0] == 0,
        times[times.len() - 1] == UNIT,
    ensures
        delta_applied(delta, field, times, times.len() - 1) == field.accumulate_spec(delta),
{
    let identity = T::identity_spec();
    lemma_delta_adds_up(delta, field, times, times.len() - 1);
    T::lemma_lerp_ends(&identity, delta);
    T::lemma_identity(delta);
}

/// Going back over a stretch takes away what going over it added.
pub proof fn lemma_delta_reverses<T: AnimationLerp>(delta: &T, field: T, from: i64, to: i64)
    ensures
        field.accumulate_spec(&delta_offset(delta, from, to)).accumulate_spec(&delta_offset(delta, to, from)) == field,
{
    let times = seq![from, to, from];
    lemma_delta_adds_up(delta, field, times, 2);
    assert(delta_applied(delta, field, times, 0) == field);
    assert(delta_applied(delta, field, times, 2) == delta_applied(delta, field, times, 1).accumulate_spec(
        &delta_offset(delta, to, from),
    ));
    let reached = T::identity_spec().lerp_spec(delta, from);
    T::lemma_identity(&reached);
    T::lemma_identity(&field);
}

/// An absolute animation: over its duration the field goes from the value
/// that it had when the animation began to the value held.
#[derive(Debug)]
pub struct Keyframe<T: AnimationLerp>(pub T);

/// The stretch that a keyframe covers: the start value that was captured for
/// it, and the value that the keyframe held when it was captured.
#[derive(Debug)]
pub struct Interval<T: AnimationLerp> {
    pub start: T,
    pub end: T,
}

/// What came of a movement of a keyframe.
#[derive(Clone, Copy, Debug, PartialEq, Eq, Structural)]
pub enum KeyframeOutcome {
    /// No start value is known yet: it has to be fetched, and the movement
    /// evaluated again.
    FetchStartValue,
    /// The field has been set.
    Applied,
}

/// The value of a field under a keyframe once `movement` has been applied:
/// as far between the start value and the value of the keyframe as the end
/// of the movement lies in the duration.
pub open spec fn keyframe_value<T: AnimationLerp, C: Ease>(
    start: &T,
    keyframe: &T,
    duration: AnimationDuration,
    movement: &PlayheadMove,
    curve: Option<&AnimationCurve<C>>,
) -> T {
    start.lerp_spec(keyframe, eased_time(duration, movement.end, curve))
}

/// The position of the first leaf at or after `from` that is the node
/// `node`; the number of leaves where there is none.
pub open spec fn leaf_position(leaves: Seq<Leaf>, node: NodeId, from: int) -> int
    decreases leaves.len() - from,
{
    if from >= leaves.len() {
        leaves.len() as int
    } else if from >= 0 && leaves[from].entity == node {
        from
    } else {
        leaf_position(leaves, node, from + 1)
    }
}

/// The last of the first `before` leaves that carries a keyframe.
pub open spec fn last_keyed(leaves: Seq<Leaf>, keyed: Seq<bool>, before: int) -> Option<NodeId>
    decreases before,
{
    if before <= 0 {
        None
    } else {
        let entity = leaves[before - 1].entity;
        if entity < keyed.len() && keyed[entity as int] {
            Some(entity)
        } else {
            last_keyed(leaves, keyed, before - 1)
        }
    }
}

/// The most recent leaf before `node`, in the order of `leaves`, that
/// carries a keyframe: where the field stands when `node` begins. `None`
/// where no leaf before `node` carries one, or `node` is not among the
/// leaves.
pub open spec fn prior_keyframe_spec(leaves: Seq<Leaf>, keyed: Seq<bool>, node: NodeId) -> Option<NodeId> {
    let position = leaf_position(leaves, node, 0);
    if position < leaves.len() {
        last_keyed(leaves, keyed, position)
    } else {
        None
    }
}

/// Find the most recent leaf before `node` that carries a keyframe; `keyed`
/// says of each node whether it does.
pub fn prior_keyframe(leaves: &Vec<Leaf>, keyed: &Vec<bool>, node: NodeId) -> (prior: Option<NodeId>)
    ensures
        prior == prior_keyframe_spec(leaves@, keyed@, node),
{
    let mut position: usize = 0;
    while position < leaves.len() && leaves[position].entity != node
        invariant
            position <= leaves@.len(),
            leaf_position(leaves@, node, 0) == leaf_position(leaves@, node, position as int),
        decreases leaves.len() - position,
    {
        position += 1;
    }
    if position >= leaves.len() {
        return None;
    }
    let mut before: usize = position;
    while before > 0
        invariant
            before <= position < leaves@.len(),
            leaf_position(leaves@, node, 0) == position,
            last_keyed(leaves@, keyed@, position as int) == last_keyed(leaves@, keyed@, before as int),
        decreases before,
    {
        let entity = leaves[before - 1].entity;
        if entity < keyed.len() && keyed[entity] {
            return Some(entity);
        }
        before -= 1;
    }
    None
}

impl<T: AnimationLerp> Keyframe<T> {
    /// Apply `movement` to the field that `lens` reaches on `target`: the
    /// field is set to the value that lies between the start value that
    /// `interval` holds and the value of this keyframe. What the field held
    /// before does not matter. Without an interval nothing is set, and the
    /// start value is asked for.
    pub fn handle_movement<E, L: FieldLens<E, T>, C: Ease>(
        &self,
        interval: Option<&Interval<T>>,
        duration: AnimationDuration,
        movement: &PlayheadMove,
        curve: Option<&AnimationCurve<C>>,
        lens: &L,
        target: &mut E,
    ) -> (done: Result<KeyframeOutcome, AnimationError>)
        ensures
            interval.is_none() ==> done == Ok::<KeyframeOutcome, AnimationError>(KeyframeOutcome::FetchStartValue)
                && *final(target) == *old(target),
            interval.is_some() && !lens.has_field(old(target)) ==> done == Err::<KeyframeOutcome, AnimationError>(
                AnimationError::FieldMissing,
            ) && *final(target) == *old(target),
            interval.is_some() && lens.has_field(old(target)) ==> done == Ok::<KeyframeOutcome, AnimationError>(
                KeyframeOutcome::Applied,
            ) && lens.updated(
                old(target),
                keyframe_value(&interval.unwrap().start, &self.0, duration, movement, curve),
                final(target),
            ),
    {
        let interval = match interval {
            Some(interval) => interval,
            None => {
                return Ok(KeyframeOutcome::FetchStartValue);
            },
        };
        let t = get_time(duration, movement.end, curve);
        let value = interval.start.animation_lerp(&self.0, t);
        match lens.set_field(target, value) {
            Ok(()) => Ok(KeyframeOutcome::Applied),
            Err(_) => Err(AnimationError::FieldMissing),
        }
    }
}

impl<T: AnimationLerp> Keyframe<T> {
    /// Find the value that the field starts from, and with it the stretch
    /// that this keyframe covers: it starts from the value that the most
    /// recent keyframe before this one goes to or, where there is none, from
    /// the value that the field has on the target now. Fails with
    /// `MissingStartValue` where there is neither a keyframe before this one
    /// nor a target, and with `FieldMissing` where the target lacks the field.
    pub fn fetch_start_value<E, L: FieldLens<E, T>>(self, prior: Option<Keyframe<T>>, lens: &L, target: Option<&E>) -> (fetched: Result<Interval<T>, AnimationError>)
        ensures
            prior.is_some() ==> fetched == Ok::<Interval<T>, AnimationError>(Interval { start: prior.unwrap().0, end: self.0 }),
            prior.is_none() && target.is_some() && lens.has_field(target.unwrap()) ==> fetched == Ok::<Interval<T>, AnimationError>(
                Interval { start: lens.field(target.unwrap()), end: self.0 },
            ),
            prior.is_none() && target.is_some() && !lens.has_field(target.unwrap()) ==> fetched == Err::<Interval<T>, AnimationError>(
                AnimationError::FieldMissing,
            ),
            prior.is_none() && target.is_none() ==> fetched == Err::<Interval<T>, AnimationError>(
                AnimationError::MissingStartValue,
            ),
    {
        match prior {
            Some(keyframe) => Ok(Interval { start: keyframe.0, end: self.0 }),
            None => match target {
                Some(target) => match lens.get_field(target) {
                    Ok(start) => Ok(Interval { start, end: self.0 }),
                    Err(_) => Err(AnimationError::FieldMissing),
                },
                None => Err(AnimationError::MissingStartValue),
            },
        }
    }
}

/// A one-shot action that is run when its node completes. The action
/// itself lives with the host, which names it by a number once it is
/// registered.
#[derive(Clone, Copy, Debug, PartialEq, Eq, Structural)]
pub struct AnimationCallback {
    system_id: Option<u64>,
}

impl AnimationCallback {
    /// The number under which the action is registered, if it is.
    pub closed spec fn registered(&self) -> Option<u64> {
        self.system_id
    }

    /// A callback whose action is not registered yet.
    pub fn new() -> (callback: Self)
        ensures
            callback.registered().is_none(),
    {
        AnimationCallback { system_id: None }
    }

    /// Record that the host has registered the action as `id`. The first
    /// registration stands.
    pub fn on_insert_hook(&mut self, id: u64)
        ensures
            final(self).registered() == (if old(self).registered().is_some() {
                old(self).registered()
            } else {
                Some(id)
            }),
    {
        if self.system_id.is_none() {
            self.system_id = Some(id);
        }
    }

    /// The action to run for `movement` on a node that lasts `duration`:
    /// the registered one, for every movement that reaches the end of the
    /// node. A callback whose action is not registered yet runs nothing.
    pub fn handle_movement(&self, duration: AnimationDuration, movement: &PlayheadMove) -> (run: Option<u64>)
        ensures
            run == (if movement.end >= duration.0 {
                self.registered()
            } else {
                None
            }),
    {
        if movement.end >= duration.0 {
            self.system_id
        } else {
            None
        }
    }
}

} // verus!
