//! How lenses and animation targets pass down the tree: a node without a
//! lens of its own sees that of its nearest ancestor, and a target given to a
//! root reaches every node below it that has none.
use vstd::prelude::*;
use crate::{AnimationError, NodeId};
use crate::lens::AnimationLens;
use crate::tree::{inherits_from, lemma_inherits_below, well_formed, AnimationTree, NodeView};

verus! {

/// The node whose field an animation changes.
#[derive(Clone, Copy, Debug, PartialEq, Eq, Structural)]
pub struct AnimationTarget(pub NodeId);

/// The lens references after the lens that `new_lens` carries has been
/// handed down: `new_lens` and every node that inherits from it refer to it,
/// the others keep their reference.
pub open spec fn lens_refs_after(
    tree: Seq<NodeView>,
    has_lens: Seq<bool>,
    new_lens: NodeId,
    refs: Seq<Option<AnimationLens>>,
) -> Seq<Option<AnimationLens>> {
    Seq::new(
        refs.len(),
        |n: int|
            if n == new_lens || inherits_from(tree, has_lens, new_lens as int, n) {
                Some(AnimationLens { lens: new_lens })
            } else {
                refs[n]
            },
    )
}

/// The lens that `node` sees: its own, or else that of its nearest ancestor
/// that carries one.
pub open spec fn nearest_lens(tree: Seq<NodeView>, has_lens: Seq<bool>, node: int) -> Option<AnimationLens>
    decreases node,
{
    if !(0 <= node < tree.len() && node < has_lens.len()) {
        None
    } else if has_lens[node] {
        Some(AnimationLens { lens: node as usize })
    } else if tree[node].parent.is_some() && tree[node].parent.unwrap() < node {
        nearest_lens(tree, has_lens, tree[node].parent.unwrap() as int)
    } else {
        None
    }
}

/// Every node refers to the lens that it sees.
pub open spec fn lenses_resolved(tree: Seq<NodeView>, has_lens: Seq<bool>, refs: Seq<Option<AnimationLens>>) -> bool {
    &&& has_lens.len() == tree.len()
    &&& refs.len() == tree.len()
    &&& forall|n: int| 0 <= n < tree.len() ==> #[trigger] refs[n] == nearest_lens(tree, has_lens, n)
}

/// The nearest lens wins: where every node refers to the lens that it sees,
/// and a node is then given a lens of its own which is handed down, every
/// node again refers to the lens that it sees. A node with a lens of its
/// own keeps it, and so do the nodes below it.
pub proof fn lemma_nearest_lens_wins(
    tree: Seq<NodeView>,
    has_lens: Seq<bool>,
    new_lens: NodeId,
    refs: Seq<Option<AnimationLens>>,
)
    requires
        well_formed(tree),
        tree.len() <= usize::MAX,
        new_lens < tree.len(),
        lenses_resolved(tree, has_lens, refs),
    ensures
        lenses_resolved(
            tree,
            has_lens.update(new_lens as int, true),
            lens_refs_after(tree, has_lens.update(new_lens as int, true), new_lens, refs),
        ),
{
    let given = has_lens.update(new_lens as int, true);
    let after = lens_refs_after(tree, given, new_lens, refs);
    assert forall|n: int| 0 <= n < tree.len() implies #[trigger] after[n] == nearest_lens(tree, given, n) by {
        lemma_nearest_after(tree, has_lens, new_lens, refs, n);
    }
}

/// The same, node by node.
proof fn lemma_nearest_after(
    tree: Seq<NodeView>,
    has_lens: Seq<bool>,
    new_lens: NodeId,
    refs: Seq<Option<AnimationLens>>,
    node: int,
)
    requires
        well_formed(tree),
        tree.len() <= usize::MAX,
        new_lens < tree.len(),
        lenses_resolved(tree, has_lens, refs),
        0 <= node < tree.len(),
    ensures
        lens_refs_after(tree, has_lens.update(new_lens as int, true), new_lens, refs)[node] == nearest_lens(
            tree,
            has_lens.update(new_lens as int, true),
            node,
        ),
        (node == new_lens || inherits_from(tree, has_lens.update(new_lens as int, true), new_lens as int, node))
            || nearest_lens(tree, has_lens.update(new_lens as int, true), node) == nearest_lens(tree, has_lens, node),
    decreases node,
{
    let given = has_lens.update(new_lens as int, true);
    if node != new_lens && !given[node] && tree[node].parent.is_some() && tree[node].parent.unwrap() < node {
        let parent = tree[node].parent.unwrap() as int;
        lemma_nearest_after(tree, has_lens, new_lens, refs, parent);
        if inherits_from(tree, given, new_lens as int, parent) {
            lemma_inherits_below(tree, given, new_lens as int, parent);
        }
    }
}

/// `new_lens` is in the tree, and both lists say something of every node.
pub open spec fn covers(tree: Seq<NodeView>, has_lens: Seq<bool>, new_lens: NodeId, refs: Seq<Option<AnimationLens>>) -> bool {
    new_lens < tree.len() && has_lens.len() == tree.len() && refs.len() == tree.len()
}

/// Hand the lens that `new_lens` carries down the tree: `new_lens` itself
/// and every node below it refers to it from now on, down to, and not
/// including, the nodes that carry a lens of their own. Fails, and changes
/// nothing, where `new_lens` is not in the tree or a list does not cover the
/// tree.
pub fn propagate_lens_ref(
    tree: &AnimationTree,
    has_lens: &Vec<bool>,
    new_lens: NodeId,
    refs: &mut Vec<Option<AnimationLens>>,
) -> (done: Result<(), AnimationError>)
    ensures
        covers(tree@, has_lens@, new_lens, old(refs)@) ==> done == Ok::<(), AnimationError>(())
            && final(refs)@ == lens_refs_after(tree@, has_lens@, new_lens, old(refs)@),
        !covers(tree@, has_lens@, new_lens, old(refs)@) ==> done == Err::<(), AnimationError>(AnimationError::TraversalError)
            && final(refs)@ == old(refs)@,
{
    if refs.len() != tree.len() {
        return Err(AnimationError::TraversalError);
    }
    let marked = match tree.inheritors(new_lens, has_lens) {
        Ok(marked) => marked,
        Err(error) => {
            return Err(error);
        },
    };
    let mut n: usize = 0;
    while n < marked.len()
        invariant
            n <= marked@.len(),
            marked@.len() == tree@.len(),
            refs@.len() == tree@.len(),
            old(refs)@.len() == tree@.len(),
            new_lens < tree@.len(),
            forall|i: int| 0 <= i < tree@.len() ==> marked@[i] == inherits_from(tree@, has_lens@, new_lens as int, i),
            forall|i: int| 0 <= i < n ==> refs@[i] == lens_refs_after(tree@, has_lens@, new_lens, old(refs)@)[i],
            forall|i: int| n <= i < refs@.len() ==> refs@[i] == old(refs)@[i],
        decreases marked.len() - n,
    {
        if n == new_lens || marked[n] {
            refs.set(n, Some(AnimationLens::new(new_lens)));
        }
        n += 1;
    }
    Ok(())
}

/// Which nodes have a target.
pub open spec fn targeted(targets: Seq<Option<AnimationTarget>>) -> Seq<bool> {
    Seq::new(targets.len(), |n: int| targets[n].is_some())
}

/// The targets after every root that animates something, and has no target
/// yet, has been made its own target.
pub open spec fn default_targets(tree: Seq<NodeView>, targets: Seq<Option<AnimationTarget>>) -> Seq<Option<AnimationTarget>> {
    Seq::new(
        targets.len(),
        |n: int|
            if tree[n].children.len() > 0 && tree[n].parent.is_none() && targets[n].is_none() {
                Some(AnimationTarget(n as usize))
            } else {
                targets[n]
            },
    )
}

/// The targets after the target that `new_target` carries has been handed
/// down: every node that inherits from `new_target`, past no node that had a
/// target before, has the target that `new_target` has, the others keep
/// theirs. Where `new_target` carries no target there is nothing to hand
/// down, and every node keeps what it had.
pub open spec fn targets_after(
    tree: Seq<NodeView>,
    new_target: NodeId,
    targets: Seq<Option<AnimationTarget>>,
) -> Seq<Option<AnimationTarget>> {
    Seq::new(
        targets.len(),
        |n: int|
            if inherits_from(tree, targeted(targets), new_target as int, n) {
                targets[new_target as int]
            } else {
                targets[n]
            },
    )
}

/// The target that `node` has or, where it has none, that of its nearest
/// ancestor that has one.
pub open spec fn nearest_target(tree: Seq<NodeView>, targets: Seq<Option<AnimationTarget>>, node: int) -> Option<AnimationTarget>
    decreases node,
{
    if !(0 <= node < tree.len() && node < targets.len()) {
        None
    } else if targets[node].is_some() {
        targets[node]
    } else if tree[node].parent.is_some() && tree[node].parent.unwrap() < node {
        nearest_target(tree, targets, tree[node].parent.unwrap() as int)
    } else {
        None
    }
}

/// A target is inherited unchanged: every node that gets a target when
/// `new_target` hands its own down gets the target of its nearest ancestor
/// that had one, which is the target that `new_target` carries.
pub proof fn lemma_target_inherited(tree: Seq<NodeView>, new_target: NodeId, targets: Seq<Option<AnimationTarget>>, node: int)
    requires
        new_target < tree.len(),
        targets.len() == tree.len(),
        targets[new_target as int].is_some(),
        inherits_from(tree, targeted(targets), new_target as int, node),
    ensures
        targets_after(tree, new_target, targets)[node] == targets[new_target as int],
        targets_after(tree, new_target, targets)[node] == nearest_target(tree, targets, node),
    decreases node,
{
    let parent = tree[node].parent.unwrap() as int;
    assert(targeted(targets)[node] == targets[node].is_some());
    assert(nearest_target(tree, targets, node) == nearest_target(tree, targets, parent));
    if parent != new_target {
        lemma_target_inherited(tree, new_target, targets, parent);
    } else {
        assert(nearest_target(tree, targets, parent) == targets[parent]);
    }
}

/// Make every root that has children, and no target yet, its own target.
/// Fails, and changes nothing, where the list does not cover the tree.
pub fn default_animation_target(tree: &AnimationTree, targets: &mut Vec<Option<AnimationTarget>>) -> (done: Result<(), AnimationError>)
    ensures
        old(targets)@.len() == tree@.len() ==> done == Ok::<(), AnimationError>(())
            && final(targets)@ == default_targets(tree@, old(targets)@),
        old(targets)@.len() != tree@.len() ==> done == Err::<(), AnimationError>(AnimationError::TraversalError)
            && final(targets)@ == old(targets)@,
{
    if targets.len() != tree.len() {
        return Err(AnimationError::TraversalError);
    }
    let mut n: usize = 0;
    while n < targets.len()
        invariant
            n <= targets@.len(),
            targets@.len() == tree@.len(),
            old(targets)@.len() == tree@.len(),
            forall|i: int| 0 <= i < n ==> targets@[i] == default_targets(tree@, old(targets)@)[i],
            forall|i: int| n <= i < targets@.len() ==> targets@[i] == old(targets)@[i],
        decreases targets.len() - n,
    {
        let is_root = match tree.parent(n) {
            Ok(None) => true,
            _ => false,
        };
        let animates = match tree.children(n) {
            Ok(children) => children.len() > 0,
            Err(_) => false,
        };
        if is_root && animates && targets[n].is_none() {
            targets.set(n, Some(AnimationTarget(n)));
        }
        n += 1;
    }
    Ok(())
}

/// Hand the animation target that the node `new_target` carries down the
/// tree: every node below it gets that same target, down to, and not
/// including, the nodes that have a target already. Where `new_target`
/// carries no target, nothing changes. Fails, and changes nothing, where
/// `new_target` is not in the tree or the list does not cover the tree.
pub fn propagate_animation_target(
    tree: &AnimationTree,
    new_target: NodeId,
    targets: &mut Vec<Option<AnimationTarget>>,
) -> (done: Result<(), AnimationError>)
    ensures
        new_target < tree@.len() && old(targets)@.len() == tree@.len() ==> done == Ok::<(), AnimationError>(())
            && final(targets)@ == targets_after(tree@, new_target, old(targets)@),
        !(new_target < tree@.len() && old(targets)@.len() == tree@.len()) ==> done == Err::<(), AnimationError>(
            AnimationError::TraversalError,
        ) && final(targets)@ == old(targets)@,
{
    let mut blocked: Vec<bool> = Vec::new();
    let mut n: usize = 0;
    while n < targets.len()
        invariant
            n <= targets@.len(),
            blocked@.len() == n,
            forall|i: int| 0 <= i < n ==> blocked@[i] == targets@[i].is_some(),
        decreases targets.len() - n,
    {
        blocked.push(targets[n].is_some());
        n += 1;
    }
    assert(blocked@ =~= targeted(targets@));
    let marked = match tree.inheritors(new_target, &blocked) {
        Ok(marked) => marked,
        Err(error) => {
            return Err(error);
        },
    };
    let handed = targets[new_target];
    let mut n: usize = 0;
    while n < marked.len()
        invariant
            n <= marked@.len(),
            marked@.len() == tree@.len(),
            targets@.len() == tree@.len(),
            old(targets)@.len() == tree@.len(),
            new_target < tree@.len(),
            handed == old(targets)@[new_target as int],
            forall|i: int| 0 <= i < tree@.len() ==> marked@[i] == inherits_from(
                tree@, targeted(old(targets)@), new_target as int, i),
            forall|i: int| 0 <= i < n ==> targets@[i] == targets_after(tree@, new_target, old(targets)@)[i],
            forall|i: int| n <= i < targets@.len() ==> targets@[i] == old(targets)@[i],
        decreases marked.len() - n,
    {
        if marked[n] {
            targets.set(n, handed);
        }
        n += 1;
    }
    Ok(())
}

} // verus!
