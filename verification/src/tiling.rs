//! What the tracer's windows cover: a playhead that travels forward over a
//! sequence leaves no gap and no overlap on its time line.
use vstd::prelude::*;
use vstd::math::{max, min};
use crate::NodeId;
use crate::playhead::{
    backward_leaves, backward_move, forward_leaves, forward_move, forward_steps,
    lemma_node_start_ordered, node_start, swept_backward, swept_forward, total_duration, Leaf,
    PlayheadMove,
};

verus! {

/// A stretch of the playhead's time line, from `.0` to `.1`.
pub type Window = (int, int);

/// The window of leaf `k` under a forward move, laid on the playhead's time
/// line: the leaf's local window, shifted by the leaf's start.
pub open spec fn forward_window(previous: int, current: int, leaves: Seq<Leaf>, k: int) -> Window {
    let local = forward_move(previous, current, leaves, k);
    (node_start(leaves, k) + local.start, node_start(leaves, k) + local.end)
}

/// The windows of a forward move over the first `n` leaves, in step order.
pub open spec fn forward_windows_upto(previous: int, current: int, leaves: Seq<Leaf>, n: int) -> Seq<Window> {
    let swept = forward_leaves(previous, current, leaves, n);
    Seq::new(swept.len(), |i: int| forward_window(previous, current, leaves, swept[i]))
}

/// The windows of the steps of a forward move, in step order.
pub open spec fn forward_windows(previous: int, current: int, leaves: Seq<Leaf>) -> Seq<Window> {
    forward_windows_upto(previous, current, leaves, leaves.len() as int)
}

/// The windows of a forward move are those of its steps: window `i` is the
/// movement of step `i`, shifted by the start of the leaf that the step moves.
pub proof fn lemma_windows_of_steps(playhead: NodeId, previous: int, current: int, leaves: Seq<Leaf>)
    ensures
        forward_windows(previous, current, leaves).len() == forward_steps(playhead, previous, current, leaves).len(),
        forall|i: int| 0 <= i < forward_steps(playhead, previous, current, leaves).len() ==> {
            let k = forward_leaves(previous, current, leaves, leaves.len() as int)[i];
            let step = #[trigger] forward_steps(playhead, previous, current, leaves)[i];
            &&& 0 <= k < leaves.len()
            &&& step.entity == leaves[k].entity
            &&& forward_windows(previous, current, leaves)[i] == (
                node_start(leaves, k) + step.movement.start,
                node_start(leaves, k) + step.movement.end,
            )
        },
{
    lemma_forward_leaves_swept(previous, current, leaves, leaves.len() as int);
}

/// The windows run from `from` to `to`, each beginning where the one before
/// it ended, and none running backwards. No window at all covers only the
/// empty stretch.
pub open spec fn tiles(windows: Seq<Window>, from: int, to: int) -> bool {
    if windows.len() == 0 {
        from == to
    } else {
        &&& windows[0].0 == from
        &&& windows[windows.len() - 1].1 == to
        &&& forall|i: int| 0 <= i < windows.len() ==> (#[trigger] windows[i]).0 <= windows[i].1
        &&& forall|i: int| 0 <= i < windows.len() - 1 ==> (#[trigger] windows[i]).1 == windows[i + 1].0
    }
}

/// Each position lies after the ones before it.
pub open spec fn rises(positions: Seq<int>) -> bool {
    forall|i: int, j: int| 0 <= i < j < positions.len() ==> positions[i] < positions[j]
}

/// The windows of the first `n` ticks of a playhead that visits `positions`
/// in turn, in the order in which the tracer produces them.
pub open spec fn travel_windows(positions: Seq<int>, leaves: Seq<Leaf>, n: int) -> Seq<Window>
    decreases n,
{
    if n <= 0 {
        Seq::empty()
    } else {
        travel_windows(positions, leaves, n - 1) + forward_windows(positions[n - 1], positions[n], leaves)
    }
}

/// The leaves that a forward move touches are touched in tree order, each
/// once.
pub proof fn lemma_forward_leaves_swept(previous: int, current: int, leaves: Seq<Leaf>, n: int)
    requires
        0 <= n <= leaves.len(),
    ensures
        forall|i: int| 0 <= i < forward_leaves(previous, current, leaves, n).len() ==> {
            let k = #[trigger] forward_leaves(previous, current, leaves, n)[i];
            0 <= k < n && swept_forward(previous, current, leaves, k)
        },
        forall|i: int, j: int| 0 <= i < j < forward_leaves(previous, current, leaves, n).len()
            ==> forward_leaves(previous, current, leaves, n)[i] < forward_leaves(previous, current, leaves, n)[j],
    decreases n,
{
    if n > 0 {
        lemma_forward_leaves_swept(previous, current, leaves, n - 1);
        let before = forward_leaves(previous, current, leaves, n - 1);
        assert(forward_leaves(previous, current, leaves, n) == if swept_forward(previous, current, leaves, n - 1) {
            before.push(n - 1)
        } else {
            before
        });
    }
}

/// The leaves that a backward move sweeps lie in tree order, each once.
pub proof fn lemma_backward_leaves_swept(previous: int, leaves: Seq<Leaf>, n: int)
    requires
        0 <= n <= leaves.len(),
    ensures
        forall|i: int| 0 <= i < backward_leaves(previous, leaves, n).len() ==> {
            let k = #[trigger] backward_leaves(previous, leaves, n)[i];
            0 <= k < n && swept_backward(previous, leaves, k)
        },
        forall|i: int, j: int| 0 <= i < j < backward_leaves(previous, leaves, n).len()
            ==> backward_leaves(previous, leaves, n)[i] < backward_leaves(previous, leaves, n)[j],
    decreases n,
{
    if n > 0 {
        lemma_backward_leaves_swept(previous, leaves, n - 1);
        let before = backward_leaves(previous, leaves, n - 1);
        assert(backward_leaves(previous, leaves, n) == if swept_backward(previous, leaves, n - 1) {
            before.push(n - 1)
        } else {
            before
        });
    }
}

/// A backward move sweeps at most one leaf: the one inside which it starts.
pub proof fn lemma_backward_at_most_one(previous: int, leaves: Seq<Leaf>)
    ensures
        backward_leaves(previous, leaves, leaves.len() as int).len() <= 1,
{
    let swept = backward_leaves(previous, leaves, leaves.len() as int);
    lemma_backward_leaves_swept(previous, leaves, leaves.len() as int);
    if swept.len() >= 2 {
        let a = swept[0];
        let b = swept[1];
        lemma_node_start_ordered(leaves, a + 1, b);
    }
}

/// Every local window of a forward move lies inside its leaf and does not run
/// backwards.
pub proof fn lemma_forward_move_within(previous: int, current: int, leaves: Seq<Leaf>, k: int)
    requires
        previous < current,
        0 <= k < leaves.len(),
        swept_forward(previous, current, leaves, k),
    ensures
        0 <= forward_move(previous, current, leaves, k).start
            <= forward_move(previous, current, leaves, k).end
            <= leaves[k].duration.0,
        forward_move(previous, current, leaves, k).start == max(previous - node_start(leaves, k), 0),
        forward_move(previous, current, leaves, k).end == min(current - node_start(leaves, k), leaves[k].duration.0 as int),
{
    lemma_node_start_ordered(leaves, k, k);
}

/// Every local window of a backward move lies inside its leaf and runs
/// backwards, from the offset of `previous` to the offset of `current` or to
/// the start of the leaf.
pub proof fn lemma_backward_move_within(previous: int, current: int, leaves: Seq<Leaf>, k: int)
    requires
        current < previous,
        0 <= k < leaves.len(),
        swept_backward(previous, leaves, k),
    ensures
        0 <= backward_move(previous, current, leaves, k).end
            <= backward_move(previous, current, leaves, k).start
            <= leaves[k].duration.0,
        backward_move(previous, current, leaves, k).start == previous - node_start(leaves, k),
        backward_move(previous, current, leaves, k).end == max(current - node_start(leaves, k), 0),
{
    lemma_node_start_ordered(leaves, k, k);
}

/// A leaf without duration that a forward move reaches gets one step, and
/// its window is the single instant `0..0`: the leaf starts and completes in
/// that step. The step starts the sequence where it is the first step of a
/// move from zero, and completes the sequence where the leaf is the last. A
/// backward move sweeps no such leaf.
pub proof fn lemma_zero_duration_leaf(playhead: NodeId, previous: int, current: int, leaves: Seq<Leaf>)
    requires
        previous < current,
    ensures
        forall|i: int| 0 <= i < forward_steps(playhead, previous, current, leaves).len() ==> {
            let k = forward_leaves(previous, current, leaves, leaves.len() as int)[i];
            let step = #[trigger] forward_steps(playhead, previous, current, leaves)[i];
            leaves[k].duration.0 == 0 ==> {
                &&& step.movement == (PlayheadMove { start: 0, end: 0 })
                &&& step.start == (previous == 0 && i == 0)
                &&& step.end == (k + 1 == leaves.len())
            }
        },
        forall|i: int, j: int| 0 <= i < j < forward_leaves(previous, current, leaves, leaves.len() as int).len()
            ==> forward_leaves(previous, current, leaves, leaves.len() as int)[i]
                != forward_leaves(previous, current, leaves, leaves.len() as int)[j],
        forall|i: int| 0 <= i < backward_leaves(current, leaves, leaves.len() as int).len() ==> {
            let k = #[trigger] backward_leaves(current, leaves, leaves.len() as int)[i];
            leaves[k].duration.0 > 0
        },
{
    let n = leaves.len() as int;
    lemma_forward_leaves_swept(previous, current, leaves, n);
    lemma_backward_leaves_swept(current, leaves, n);
    assert forall|i: int| 0 <= i < forward_steps(playhead, previous, current, leaves).len() implies {
        let k = forward_leaves(previous, current, leaves, n)[i];
        let step = #[trigger] forward_steps(playhead, previous, current, leaves)[i];
        leaves[k].duration.0 == 0 ==> {
            &&& step.movement == (PlayheadMove { start: 0, end: 0 })
            &&& step.start == (previous == 0 && i == 0)
            &&& step.end == (k + 1 == leaves.len())
        }
    } by {
        let k = forward_leaves(previous, current, leaves, n)[i];
        lemma_forward_move_within(previous, current, leaves, k);
    }
}

/// The windows of a forward move over the first `n` leaves: none while the
/// leaves end before `previous`, and from there on a tiling of the stretch
/// from `previous` to the end of those leaves, or to `current` if that comes
/// first.
proof fn lemma_forward_windows_upto(previous: int, current: int, leaves: Seq<Leaf>, n: int)
    requires
        0 <= previous < current,
        0 <= n <= leaves.len(),
    ensures
        node_start(leaves, n) < previous ==> forward_windows_upto(previous, current, leaves, n).len() == 0,
        node_start(leaves, n) >= previous ==> tiles(
            forward_windows_upto(previous, current, leaves, n),
            previous,
            min(current, node_start(leaves, n)),
        ),
    decreases n,
{
    if n > 0 {
        let k = n - 1;
        lemma_forward_windows_upto(previous, current, leaves, k);
        lemma_node_start_ordered(leaves, k, k);
        let before = forward_windows_upto(previous, current, leaves, k);
        let after = forward_windows_upto(previous, current, leaves, n);
        if swept_forward(previous, current, leaves, k) {
            lemma_forward_move_within(previous, current, leaves, k);
            let window = forward_window(previous, current, leaves, k);
            assert(after =~= before.push(window));
        }
    }
}

/// One forward tick that starts on the time line covers it from where it
/// starts to where it ends, or to the end of the line if the tick goes
/// beyond it: its windows tile that stretch.
pub proof fn lemma_forward_tick_tiles(previous: int, current: int, leaves: Seq<Leaf>)
    requires
        0 <= previous < current,
        previous <= total_duration(leaves),
    ensures
        tiles(forward_windows(previous, current, leaves), previous, min(current, total_duration(leaves))),
{
    lemma_forward_windows_upto(previous, current, leaves, leaves.len() as int);
}

/// Two tilings that meet make one.
proof fn lemma_tiles_join(first: Seq<Window>, second: Seq<Window>, from: int, mid: int, to: int)
    requires
        tiles(first, from, mid),
        tiles(second, mid, to),
    ensures
        tiles(first + second, from, to),
{
}

/// The first `n` ticks of a forward travel from zero tile the time line up to
/// the position that they reach, as long as that position lies on the line.
proof fn lemma_travel_prefix(positions: Seq<int>, leaves: Seq<Leaf>, n: int)
    requires
        0 <= n < positions.len(),
        positions[0] == 0,
        rises(positions),
        positions[n] <= total_duration(leaves),
    ensures
        tiles(travel_windows(positions, leaves, n), 0, positions[n]),
    decreases n,
{
    if n > 0 {
        lemma_travel_prefix(positions, leaves, n - 1);
        lemma_forward_tick_tiles(positions[n - 1], positions[n], leaves);
        lemma_tiles_join(
            travel_windows(positions, leaves, n - 1),
            forward_windows(positions[n - 1], positions[n], leaves),
            0,
            positions[n - 1],
            positions[n],
        );
    }
}

/// A playhead that travels forward from zero to the total duration of a
/// sequence, in any number of ticks, covers the whole time line exactly: the
/// windows of all ticks, in the order produced, tile it from zero to the
/// total duration.
pub proof fn lemma_travel_tiles(positions: Seq<int>, leaves: Seq<Leaf>)
    requires
        positions.len() > 0,
        positions[0] == 0,
        rises(positions),
        positions[positions.len() - 1] == total_duration(leaves),
    ensures
        tiles(travel_windows(positions, leaves, positions.len() - 1), 0, total_duration(leaves)),
{
    lemma_travel_prefix(positions, leaves, positions.len() - 1);
}

} // verus!
