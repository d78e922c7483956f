//! The playhead and the local movements that its travel produces.
use vstd::prelude::*;
use vstd::math::{max, min};
use crate::{AnimationDuration, NodeId};
use crate::steps::{lemma_staged_nothing, staged, PlayheadSteps};

verus! {

/// A position along the total duration of an animation tree.
///
/// The driver moves `playhead`; only the tracer moves `previous_position`,
/// which is the position as of the last traced tick.
#[derive(Clone, Copy, Debug, PartialEq, Eq, Structural)]
pub struct AnimationPlayhead {
    playhead: i64,
    previous_position: i64,
}

/// A local movement of one leaf: offsets into the leaf's own duration.
#[derive(Clone, Copy, Debug, PartialEq, Eq, Structural)]
pub struct PlayheadMove {
    pub start: u64,
    pub end: u64,
}

/// Signals sent to the node that carries the playhead.
#[derive(Clone, Copy, Debug, PartialEq, Eq, Structural)]
pub enum SequenceEvent {
    SequenceStarted,
    SequenceCompleted,
}

/// One leaf's movement within a tick, with the signals owed to the playhead.
#[derive(Clone, Copy, Debug, PartialEq, Eq, Structural)]
pub struct PlayheadStep {
    /// The node that carries the playhead.
    pub playhead: NodeId,
    /// Whether this step starts the sequence.
    pub start: bool,
    /// Whether this step completes the sequence.
    pub end: bool,
    /// The leaf that moves.
    pub entity: NodeId,
    pub movement: PlayheadMove,
}

/// A leaf of the tree under a playhead, as the tracer needs it.
#[derive(Clone, Copy, Debug, PartialEq, Eq, Structural)]
pub struct Leaf {
    pub entity: NodeId,
    pub duration: AnimationDuration,
}

/// Where leaf `k` starts on the playhead's time line: the durations of the
/// leaves before it, added up.
pub open spec fn node_start(leaves: Seq<Leaf>, k: int) -> int
    decreases k,
{
    if k <= 0 {
        0
    } else {
        node_start(leaves, k - 1) + leaves[k - 1].duration.0
    }
}

/// Where leaf `k` ends on the playhead's time line.
pub open spec fn node_end(leaves: Seq<Leaf>, k: int) -> int {
    node_start(leaves, k) + leaves[k].duration.0
}

/// The length of the whole time line.
pub open spec fn total_duration(leaves: Seq<Leaf>) -> int {
    node_start(leaves, leaves.len() as int)
}

/// Whether a forward move from `previous` to `current` touches leaf `k`.
pub open spec fn swept_forward(previous: int, current: int, leaves: Seq<Leaf>, k: int) -> bool {
    previous <= node_end(leaves, k) && node_start(leaves, k) <= current
}

/// The leaves among the first `n` that a forward move touches, in tree order.
pub open spec fn forward_leaves(previous: int, current: int, leaves: Seq<Leaf>, n: int) -> Seq<int>
    decreases n,
{
    if n <= 0 {
        Seq::empty()
    } else {
        let before = forward_leaves(previous, current, leaves, n - 1);
        if swept_forward(previous, current, leaves, n - 1) {
            before.push(n - 1)
        } else {
            before
        }
    }
}

/// The local window of leaf `k` under a forward move.
pub open spec fn forward_move(previous: int, current: int, leaves: Seq<Leaf>, k: int) -> PlayheadMove {
    PlayheadMove {
        start: max(previous - node_start(leaves, k), 0) as u64,
        end: min(current - node_start(leaves, k), leaves[k].duration.0 as int) as u64,
    }
}

/// The step of leaf `k` under a forward move; `first` says whether it is the
/// first step of the tick.
pub open spec fn forward_step(
    playhead: NodeId,
    previous: int,
    current: int,
    leaves: Seq<Leaf>,
    k: int,
    first: bool,
) -> PlayheadStep {
    PlayheadStep {
        playhead,
        start: previous == 0 && first,
        end: current >= node_end(leaves, k) && k + 1 == leaves.len(),
        entity: leaves[k].entity,
        movement: forward_move(previous, current, leaves, k),
    }
}

/// The steps of a forward move from `previous` to `current`, one per touched
/// leaf, in tree order. Step `i` belongs to stage `i`.
pub open spec fn forward_steps(playhead: NodeId, previous: int, current: int, leaves: Seq<Leaf>) -> Seq<PlayheadStep> {
    let swept = forward_leaves(previous, current, leaves, leaves.len() as int);
    Seq::new(swept.len(), |i: int| forward_step(playhead, previous, current, leaves, swept[i], i == 0))
}

/// Leaf starts never decrease along the tree order.
pub proof fn lemma_node_start_ordered(leaves: Seq<Leaf>, a: int, b: int)
    requires
        0 <= a <= b <= leaves.len(),
    ensures
        0 <= node_start(leaves, a) <= node_start(leaves, b),
    decreases b,
{
    if a < b {
        lemma_node_start_ordered(leaves, a, b - 1);
    } else if a > 0 {
        lemma_node_start_ordered(leaves, a - 1, a - 1);
    }
}

/// Once a forward move ends before leaf `from` starts, no later leaf is touched.
proof fn lemma_forward_leaves_stop(previous: int, current: int, leaves: Seq<Leaf>, from: int, n: int)
    requires
        0 <= from <= n <= leaves.len(),
        current < node_start(leaves, from),
    ensures
        forward_leaves(previous, current, leaves, n) == forward_leaves(previous, current, leaves, from),
    decreases n,
{
    if from < n {
        lemma_forward_leaves_stop(previous, current, leaves, from, n - 1);
        lemma_node_start_ordered(leaves, from, n - 1);
    }
}

/// Trace a forward move: `previous < current`.
pub fn sweep_forward(playhead: NodeId, previous: i64, current: i64, leaves: &Vec<Leaf>) -> (steps: Vec<PlayheadStep>)
    requires
        previous < current,
    ensures
        steps@ == forward_steps(playhead, previous as int, current as int, leaves@),
{
    let mut steps: Vec<PlayheadStep> = Vec::new();
    let mut time: i128 = 0;
    let mut i: usize = 0;
    let ghost p = previous as int;
    let ghost c = current as int;
    while i < leaves.len()
        invariant_except_break
            time == node_start(leaves@, i as int),
        invariant
            i <= leaves.len(),
            p == previous,
            c == current,
            p < c,
            steps@.len() == forward_leaves(p, c, leaves@, i as int).len(),
            forall|j: int| 0 <= j < steps@.len() ==> steps@[j] == forward_step(
                playhead, p, c, leaves@, #[trigger] forward_leaves(p, c, leaves@, i as int)[j], j == 0),
        ensures
            forward_leaves(p, c, leaves@, leaves@.len() as int) == forward_leaves(p, c, leaves@, i as int),
        decreases leaves.len() - i,
    {
        let leaf = leaves[i];
        let duration: i128 = leaf.duration.0 as i128;
        let leaf_start: i128 = time;
        if leaf_start > current as i128 {
            proof {
                lemma_forward_leaves_stop(p, c, leaves@, i as int, leaves@.len() as int);
            }
            break;
        }
        let leaf_end: i128 = leaf_start + duration;
        if previous as i128 <= leaf_end {
            let local_start: i128 = previous as i128 - leaf_start;
            let local_end: i128 = current as i128 - leaf_start;
            let start: u64 = if local_start > 0 { local_start as u64 } else { 0 };
            let end: u64 = if local_end < duration { local_end as u64 } else { leaf.duration.0 };
            let started = previous == 0 && steps.len() == 0;
            let ended = current as i128 >= leaf_end && i + 1 == leaves.len();
            steps.push(PlayheadStep {
                playhead,
                start: started,
                end: ended,
                entity: leaf.entity,
                movement: PlayheadMove { start, end },
            });
            if (current as i128) < leaf_end {
                proof {
                    lemma_forward_leaves_stop(p, c, leaves@, i as int + 1, leaves@.len() as int);
                }
                i += 1;
                break;
            }
        }
        time = leaf_end;
        i += 1;
    }
    steps
}

/// Whether a backward move that leaves from `previous` starts inside leaf
/// `k`: the leaf's range is open at its start and closed at its end.
pub open spec fn swept_backward(previous: int, leaves: Seq<Leaf>, k: int) -> bool {
    node_start(leaves, k) < previous <= node_end(leaves, k)
}

/// The leaves among the first `n` that a backward move from `previous` sweeps,
/// in tree order.
pub open spec fn backward_leaves(previous: int, leaves: Seq<Leaf>, n: int) -> Seq<int>
    decreases n,
{
    if n <= 0 {
        Seq::empty()
    } else {
        let before = backward_leaves(previous, leaves, n - 1);
        if swept_backward(previous, leaves, n - 1) {
            before.push(n - 1)
        } else {
            before
        }
    }
}

/// The local window of a swept leaf `k` under a backward move: it runs from
/// the offset of `previous` down to the offset of `current`, or to the leaf's
/// start where `current` lies before the leaf.
pub open spec fn backward_move(previous: int, current: int, leaves: Seq<Leaf>, k: int) -> PlayheadMove {
    PlayheadMove {
        start: (previous - node_start(leaves, k)) as u64,
        end: max(current - node_start(leaves, k), 0) as u64,
    }
}

/// The step of a swept leaf `k` under a backward move. The start is signalled
/// where the window of the first leaf reaches offset zero, the end where the
/// move left from the leaf's end.
pub open spec fn backward_step(playhead: NodeId, previous: int, current: int, leaves: Seq<Leaf>, k: int) -> PlayheadStep {
    PlayheadStep {
        playhead,
        start: backward_move(previous, current, leaves, k).end == 0 && k == 0,
        end: previous >= node_end(leaves, k),
        entity: leaves[k].entity,
        movement: backward_move(previous, current, leaves, k),
    }
}

/// The steps of a backward move from `previous` to `current`, one per swept
/// leaf, last leaf first. Step `i` belongs to stage `i`.
pub open spec fn backward_steps(playhead: NodeId, previous: int, current: int, leaves: Seq<Leaf>) -> Seq<PlayheadStep> {
    let swept = backward_leaves(previous, leaves, leaves.len() as int);
    Seq::new(swept.len(), |i: int| backward_step(playhead, previous, current, leaves, swept[swept.len() - 1 - i]))
}

/// The steps of the move from `previous` to `current`; none where the
/// playhead has not moved.
pub open spec fn traced_steps(playhead: NodeId, previous: int, current: int, leaves: Seq<Leaf>) -> Seq<PlayheadStep> {
    if previous < current {
        forward_steps(playhead, previous, current, leaves)
    } else if current < previous {
        backward_steps(playhead, previous, current, leaves)
    } else {
        Seq::empty()
    }
}

/// No leaf that starts at or after `previous` is swept by a backward move.
proof fn lemma_backward_leaves_stop(previous: int, leaves: Seq<Leaf>, from: int, n: int)
    requires
        0 <= from <= n <= leaves.len(),
        previous <= node_start(leaves, from),
    ensures
        backward_leaves(previous, leaves, n) == backward_leaves(previous, leaves, from),
    decreases n,
{
    if from < n {
        lemma_backward_leaves_stop(previous, leaves, from, n - 1);
        lemma_node_start_ordered(leaves, from, n - 1);
    }
}

/// Trace a backward move: `current < previous`.
pub fn sweep_backward(playhead: NodeId, previous: i64, current: i64, leaves: &Vec<Leaf>) -> (steps: Vec<PlayheadStep>)
    requires
        current < previous,
    ensures
        steps@ == backward_steps(playhead, previous as int, current as int, leaves@),
{
    let mut swept: Vec<PlayheadStep> = Vec::new();
    let mut time: i128 = 0;
    let mut i: usize = 0;
    let ghost p = previous as int;
    let ghost c = current as int;
    while i < leaves.len()
        invariant_except_break
            time == node_start(leaves@, i as int),
        invariant
            i <= leaves.len(),
            p == previous,
            c == current,
            c < p,
            swept@.len() == backward_leaves(p, leaves@, i as int).len(),
            forall|j: int| 0 <= j < swept@.len() ==> swept@[j] == backward_step(
                playhead, p, c, leaves@, #[trigger] backward_leaves(p, leaves@, i as int)[j]),
        ensures
            backward_leaves(p, leaves@, leaves@.len() as int) == backward_leaves(p, leaves@, i as int),
        decreases leaves.len() - i,
    {
        let leaf = leaves[i];
        let leaf_start: i128 = time;
        if previous as i128 <= leaf_start {
            proof {
                lemma_backward_leaves_stop(p, leaves@, i as int, leaves@.len() as int);
            }
            break;
        }
        let leaf_end: i128 = leaf_start + leaf.duration.0 as i128;
        if previous as i128 <= leaf_end {
            let local_end: i128 = current as i128 - leaf_start;
            let start: u64 = (previous as i128 - leaf_start) as u64;
            let end: u64 = if local_end > 0 { local_end as u64 } else { 0 };
            swept.push(PlayheadStep {
                playhead,
                start: end == 0 && i == 0,
                end: previous as i128 >= leaf_end,
                entity: leaf.entity,
                movement: PlayheadMove { start, end },
            });
        }
        time = leaf_end;
        i += 1;
    }
    let mut steps: Vec<PlayheadStep> = Vec::new();
    let mut rest: usize = swept.len();
    while rest > 0
        invariant
            rest <= swept@.len(),
            steps@.len() == swept@.len() - rest,
            forall|j: int| 0 <= j < steps@.len() ==> steps@[j] == swept@[swept@.len() - 1 - j],
        decreases rest,
    {
        rest -= 1;
        steps.push(swept[rest]);
    }
    steps
}

impl AnimationPlayhead {
    /// The current position.
    pub closed spec fn position(&self) -> int {
        self.playhead as int
    }

    /// The position as of the last traced tick.
    pub closed spec fn previous(&self) -> int {
        self.previous_position as int
    }

    pub fn get(&self) -> (position: i64)
        ensures
            position == self.position(),
    {
        self.playhead
    }

    pub fn get_mut(&mut self) -> (position: &mut i64)
        ensures
            *position == old(self).position(),
            final(self).position() == *final(position),
            final(self).previous() == old(self).previous(),
    {
        &mut self.playhead
    }

    pub fn set(&mut self, playhead: i64)
        ensures
            final(self).position() == playhead,
            final(self).previous() == old(self).previous(),
    {
        self.playhead = playhead;
    }

    /// Move the playhead to a position without producing any movement: the
    /// next trace sees no travel.
    pub fn jump_to(&mut self, playhead: i64)
        ensures
            final(self).position() == playhead,
            final(self).previous() == playhead,
    {
        self.playhead = playhead;
        self.previous_position = playhead;
    }
}

impl AnimationPlayhead {
    /// Return the previous position and advance it to the current one.
    fn advance(&mut self) -> (previous: i64)
        ensures
            previous == old(self).previous(),
            final(self).previous() == old(self).position(),
            final(self).position() == old(self).position(),
    {
        let previous = self.previous_position;
        self.previous_position = self.playhead;
        previous
    }

    /// Trace the travel of this playhead since the last trace over the leaves
    /// of its tree, and enter the steps into `steps`, step `i` into stage `i`.
    pub fn handle_movement(&mut self, playhead_entity: NodeId, leaves: &Vec<Leaf>, steps: &mut PlayheadSteps)
        ensures
            final(self).position() == old(self).position(),
            final(self).previous() == old(self).position(),
            final(steps)@ == staged(
                old(steps)@,
                traced_steps(playhead_entity, old(self).previous(), old(self).position(), leaves@),
            ),
    {
        let previous = self.advance();
        let current = self.get();
        if previous < current {
            let traced = sweep_forward(playhead_entity, previous, current, leaves);
            steps.stage(&traced);
        } else if current < previous {
            let traced = sweep_backward(playhead_entity, previous, current, leaves);
            steps.stage(&traced);
        } else {
            proof {
                lemma_staged_nothing(steps@);
            }
        }
    }
}

impl Default for AnimationPlayhead {
    fn default() -> (playhead: Self)
        ensures
            playhead.position() == 0,
            playhead.previous() == 0,
    {
        AnimationPlayhead { playhead: 0, previous_position: 0 }
    }
}

} // verus!
