//! The composition tree: nodes with an ordered list of children, a
//! composition kind and a duration.
use vstd::prelude::*;
use crate::{Animation, AnimationComplete, AnimationDuration, AnimationError, NodeId};
use crate::playhead::Leaf;

verus! {

/// The link from a node to the node that it animates under: its parent.
#[derive(Clone, Copy, Debug, PartialEq, Eq, Structural)]
pub struct AnimationOf(pub NodeId);

/// The ordered children of a node.
#[derive(Debug)]
pub struct Animations(Vec<NodeId>);

impl View for Animations {
    type V = Seq<NodeId>;

    closed spec fn view(&self) -> Seq<NodeId> {
        self.0@
    }
}

impl Animations {
    /// The number of children.
    pub fn len(&self) -> (n: usize)
        ensures
            n == self@.len(),
    {
        self.0.len()
    }

    /// The child at position `index`, if there is one.
    pub fn get(&self, index: usize) -> (child: Option<NodeId>)
        ensures
            child == (if index < self@.len() { Some(self@[index as int]) } else { None }),
    {
        if index < self.0.len() {
            Some(self.0[index])
        } else {
            None
        }
    }
}

/// A node as the contracts see it.
pub ghost struct NodeView {
    pub parent: Option<NodeId>,
    pub children: Seq<NodeId>,
    pub kind: Animation,
    pub duration: AnimationDuration,
    pub complete: AnimationComplete,
}

/// Child `i` of `node` comes after it and names it as its parent.
pub open spec fn child_listed(tree: Seq<NodeView>, node: int, i: int) -> bool {
    let child = tree[node].children[i];
    node < child < tree.len() && tree[child as int].parent == Some(node as usize)
}

/// Where `node` names a parent, the parent comes before it and lists it.
pub open spec fn parent_named(tree: Seq<NodeView>, node: int) -> bool {
    tree[node].parent.is_some() ==> {
        let parent = tree[node].parent.unwrap();
        parent < node && tree[parent as int].children.contains(node as usize)
    }
}

/// No child is listed twice by `node`.
pub open spec fn children_distinct(tree: Seq<NodeView>, node: int) -> bool {
    forall|i: int, j: int| 0 <= i < j < tree[node].children.len() ==> tree[node].children[i] != tree[node].children[j]
}

/// Every child comes after its parent and names it as its parent, no node
/// is listed twice, and every node that names a parent is listed by it.
pub open spec fn well_formed(tree: Seq<NodeView>) -> bool {
    &&& forall|node: int, i: int| 0 <= node < tree.len() && 0 <= i < tree[node].children.len() ==> #[trigger] child_listed(tree, node, i)
    &&& forall|node: int| 0 <= node < tree.len() ==> #[trigger] children_distinct(tree, node)
    &&& forall|node: int| 0 <= node < tree.len() ==> #[trigger] parent_named(tree, node)
}

/// The tree after a node has been inserted as the last child of `parent`, or
/// as a root where `parent` is `None`.
pub open spec fn inserted(tree: Seq<NodeView>, parent: Option<NodeId>, kind: Animation, duration: AnimationDuration) -> Seq<NodeView> {
    let node = NodeView { parent, children: Seq::empty(), kind, duration, complete: AnimationComplete::Preserve };
    let listed = match parent {
        Some(p) => tree.update(
            p as int,
            NodeView { children: tree[p as int].children.push(tree.len() as usize), ..tree[p as int] },
        ),
        None => tree,
    };
    listed.push(node)
}

/// Inserting a node under a parent that is in the tree keeps the tree well
/// formed.
pub proof fn lemma_inserted_well_formed(tree: Seq<NodeView>, parent: Option<NodeId>, kind: Animation, duration: AnimationDuration)
    requires
        well_formed(tree),
        tree.len() <= usize::MAX,
        parent.is_some() ==> parent.unwrap() < tree.len(),
    ensures
        well_formed(inserted(tree, parent, kind, duration)),
{
    let after = inserted(tree, parent, kind, duration);
    let id = tree.len() as int;
    assert forall|node: int, i: int| 0 <= node < after.len() && 0 <= i < after[node].children.len() implies #[trigger] child_listed(
        after, node, i) by {
        if node < id && i < tree[node].children.len() {
            assert(child_listed(tree, node, i));
        }
    }
    assert forall|node: int| 0 <= node < after.len() implies #[trigger] children_distinct(after, node) by {
        if node < id {
            assert(children_distinct(tree, node));
            assert forall|i: int, j: int| 0 <= i < j < after[node].children.len() implies after[node].children[i]
                != after[node].children[j] by {
                if j >= tree[node].children.len() {
                    assert(child_listed(tree, node, i));
                }
            }
        }
    }
    assert forall|node: int| 0 <= node < after.len() implies #[trigger] parent_named(after, node) by {
        if node < id {
            assert(parent_named(tree, node));
            if tree[node].parent.is_some() {
                let p = tree[node].parent.unwrap();
                let i = choose|i: int| 0 <= i < tree[p as int].children.len() && tree[p as int].children[i] == node as usize;
                assert(after[p as int].children[i] == node as usize);
            }
        } else if parent.is_some() {
            let p = parent.unwrap();
            assert(after[p as int].children[tree[p as int].children.len() as int] == node as usize);
        }
    }
}

/// A tree stays well formed when its nodes keep their parents and children.
pub proof fn lemma_relabelled_well_formed(before: Seq<NodeView>, after: Seq<NodeView>)
    requires
        well_formed(before),
        after.len() == before.len(),
        forall|node: int| 0 <= node < before.len() ==> (#[trigger] after[node]).parent == before[node].parent
            && after[node].children == before[node].children,
    ensures
        well_formed(after),
{
    assert forall|node: int, i: int| 0 <= node < after.len() && 0 <= i < after[node].children.len() implies #[trigger] child_listed(
        after, node, i) by {
        assert(child_listed(before, node, i));
    }
    assert forall|node: int| 0 <= node < after.len() implies #[trigger] children_distinct(after, node) by {
        assert(children_distinct(before, node));
    }
    assert forall|node: int| 0 <= node < after.len() implies #[trigger] parent_named(after, node) by {
        assert(parent_named(before, node));
        if before[node].parent.is_some() {
            let parent = before[node].parent.unwrap() as int;
            assert(after[parent].children == before[parent].children);
        }
    }
}

/// The leaf that `node` gives to the tracer.
pub open spec fn leaf_of(tree: Seq<NodeView>, node: int) -> Leaf {
    Leaf { entity: node as usize, duration: tree[node].duration }
}

/// The leaves of the subtree at `node`, in depth-first order: the node itself
/// where it has no children.
pub open spec fn subtree_leaves(tree: Seq<NodeView>, node: int) -> Seq<Leaf>
    decreases tree.len() - node, 1int, 0int,
{
    if 0 <= node < tree.len() {
        if tree[node].children.len() == 0 {
            seq![leaf_of(tree, node)]
        } else {
            leaves_under(tree, node, 0)
        }
    } else {
        Seq::empty()
    }
}

/// The leaves under the children of `node` from position `from` on, in
/// depth-first order.
pub open spec fn leaves_under(tree: Seq<NodeView>, node: int, from: int) -> Seq<Leaf>
    decreases tree.len() - node, 0int, tree[node].children.len() - from,
{
    if 0 <= node < tree.len() && 0 <= from < tree[node].children.len() {
        let child = tree[node].children[from] as int;
        let rest = leaves_under(tree, node, from + 1);
        if node < child < tree.len() {
            subtree_leaves(tree, child) + rest
        } else {
            rest
        }
    } else {
        Seq::empty()
    }
}

/// The leaves below `root`, in depth-first order: what the tracer walks for a
/// playhead on `root`. A root without children has none.
pub open spec fn tree_leaves(tree: Seq<NodeView>, root: int) -> Seq<Leaf> {
    leaves_under(tree, root, 0)
}

/// The number of nodes in the subtree at `node`.
pub open spec fn subtree_size(tree: Seq<NodeView>, node: int) -> nat
    decreases tree.len() - node, 1int, 0int,
{
    if 0 <= node < tree.len() {
        1 + size_under(tree, node, 0)
    } else {
        0
    }
}

/// The number of nodes under the children of `node` from position `from` on.
pub open spec fn size_under(tree: Seq<NodeView>, node: int, from: int) -> nat
    decreases tree.len() - node, 0int, tree[node].children.len() - from,
{
    if 0 <= node < tree.len() && 0 <= from < tree[node].children.len() {
        let child = tree[node].children[from] as int;
        let rest = size_under(tree, node, from + 1);
        if node < child < tree.len() {
            subtree_size(tree, child) + rest
        } else {
            rest
        }
    } else {
        0
    }
}

/// The leaves that a depth-first walk has yet to give, the top of its stack
/// being the last element.
spec fn pending_leaves(tree: Seq<NodeView>, stack: Seq<NodeId>) -> Seq<Leaf>
    decreases stack.len(),
{
    if stack.len() == 0 {
        Seq::empty()
    } else {
        subtree_leaves(tree, stack.last() as int) + pending_leaves(tree, stack.drop_last())
    }
}

/// The number of nodes that a depth-first walk has yet to visit.
spec fn pending_size(tree: Seq<NodeView>, stack: Seq<NodeId>) -> nat
    decreases stack.len(),
{
    if stack.len() == 0 {
        0
    } else {
        subtree_size(tree, stack.last() as int) + pending_size(tree, stack.drop_last())
    }
}

/// Whether `node` lies below `source` with no blocked node on the way down
/// from `source` to it, itself included: what `source` hands down reaches it.
pub open spec fn inherits_from(tree: Seq<NodeView>, blocked: Seq<bool>, source: int, node: int) -> bool
    decreases node,
{
    &&& 0 <= node < tree.len()
    &&& node < blocked.len()
    &&& !blocked[node]
    &&& tree[node].parent.is_some()
    &&& {
        let parent = tree[node].parent.unwrap() as int;
        parent < node && (parent == source || inherits_from(tree, blocked, source, parent))
    }
}

/// Only nodes after `source` inherit from it.
pub proof fn lemma_inherits_below(tree: Seq<NodeView>, blocked: Seq<bool>, source: int, node: int)
    requires
        inherits_from(tree, blocked, source, node),
    ensures
        source < node,
    decreases node,
{
    let parent = tree[node].parent.unwrap() as int;
    if parent != source {
        lemma_inherits_below(tree, blocked, source, parent);
    }
}

/// What a finished walk from `source` has marked is all that inherits from
/// it: every node that the walk reached has had its children looked at.
proof fn lemma_walk_complete(
    tree: Seq<NodeView>,
    blocked: Seq<bool>,
    source: int,
    marked: Seq<bool>,
    expanded: Set<int>,
    node: int,
)
    requires
        marked.len() == tree.len(),
        expanded.contains(source),
        forall|n: int| 0 <= n < tree.len() && marked[n] ==> expanded.contains(n),
        forall|n: int|
            inherits_from(tree, blocked, source, n) && expanded.contains(tree[n].parent.unwrap() as int) ==> #[trigger] marked[n],
        inherits_from(tree, blocked, source, node),
    ensures
        marked[node],
    decreases node,
{
    let parent = tree[node].parent.unwrap() as int;
    if parent != source {
        lemma_walk_complete(tree, blocked, source, marked, expanded, parent);
    }
}

struct AnimationNode {
    parent: Option<NodeId>,
    children: Animations,
    kind: Animation,
    duration: AnimationDuration,
    complete: AnimationComplete,
}

impl View for AnimationNode {
    type V = NodeView;

    closed spec fn view(&self) -> NodeView {
        NodeView {
            parent: self.parent,
            children: self.children@,
            kind: self.kind,
            duration: self.duration,
            complete: self.complete,
        }
    }
}

/// A forest of animation nodes. A node's identity is the order in which it
/// was inserted.
pub struct AnimationTree {
    nodes: Vec<AnimationNode>,
}

impl View for AnimationTree {
    type V = Seq<NodeView>;

    closed spec fn view(&self) -> Seq<NodeView> {
        Seq::new(self.nodes@.len(), |i: int| self.nodes@[i]@)
    }
}

impl AnimationTree {
    #[verifier::type_invariant]
    closed spec fn inv(&self) -> bool {
        well_formed(self@)
    }

    /// A tree without nodes.
    pub fn new() -> (tree: Self)
        ensures
            tree@.len() == 0,
    {
        AnimationTree { nodes: Vec::new() }
    }

    /// The number of nodes. Every tree is well formed.
    pub fn len(&self) -> (n: usize)
        ensures
            n == self@.len(),
            well_formed(self@),
    {
        proof {
            use_type_invariant(self);
        }
        self.nodes.len()
    }

    /// Insert a node as the last child of `parent`, or as a root of its own
    /// where `parent` is `None`. Fails, and changes nothing, where `parent` is
    /// not in the tree.
    pub fn insert(&mut self, parent: Option<NodeId>, kind: Animation, duration: AnimationDuration) -> (id: Result<NodeId, AnimationError>)
        ensures
            match parent {
                Some(p) => p < old(self)@.len(),
                None => true,
            } ==> id == Ok::<NodeId, AnimationError>(old(self)@.len() as usize) && final(self)@ == inserted(old(self)@, parent, kind, duration),
            match parent {
                Some(p) => p >= old(self)@.len(),
                None => false,
            } ==> id == Err::<NodeId, AnimationError>(AnimationError::TraversalError) && final(self)@ == old(self)@,
    {
        proof {
            use_type_invariant(&*self);
        }
        let id = self.nodes.len();
        if let Some(p) = parent {
            if p >= id {
                return Err(AnimationError::TraversalError);
            }
        }
        let ghost before = self@;
        let mut nodes: Vec<AnimationNode> = Vec::new();
        std::mem::swap(&mut self.nodes, &mut nodes);
        nodes.push(AnimationNode {
            parent,
            children: Animations(Vec::new()),
            kind,
            duration,
            complete: AnimationComplete::Preserve,
        });
        if let Some(p) = parent {
            nodes[p].children.0.push(id);
        }
        proof {
            let after = Seq::new(nodes@.len(), |i: int| nodes@[i]@);
            assert(after =~= inserted(before, parent, kind, duration));
            lemma_inserted_well_formed(before, parent, kind, duration);
        }
        self.nodes = nodes;
        Ok(id)
    }

    /// The parent of `node`, if it has one.
    pub fn parent(&self, node: NodeId) -> (parent: Result<Option<AnimationOf>, AnimationError>)
        ensures
            node < self@.len() ==> parent == Ok::<Option<AnimationOf>, AnimationError>(
                match self@[node as int].parent {
                    Some(p) => Some(AnimationOf(p)),
                    None => None,
                },
            ),
            node >= self@.len() ==> parent == Err::<Option<AnimationOf>, AnimationError>(AnimationError::TraversalError),
    {
        if node >= self.nodes.len() {
            return Err(AnimationError::TraversalError);
        }
        match self.nodes[node].parent {
            Some(p) => Ok(Some(AnimationOf(p))),
            None => Ok(None),
        }
    }

    /// The children of `node`, in order.
    pub fn children(&self, node: NodeId) -> (children: Result<&Animations, AnimationError>)
        ensures
            node < self@.len() ==> children.is_ok() && children.unwrap()@ == self@[node as int].children,
            node >= self@.len() ==> children == Err::<&Animations, AnimationError>(AnimationError::TraversalError),
    {
        if node >= self.nodes.len() {
            return Err(AnimationError::TraversalError);
        }
        Ok(&self.nodes[node].children)
    }

    /// How `node` composes its children.
    pub fn kind(&self, node: NodeId) -> (kind: Result<Animation, AnimationError>)
        ensures
            node < self@.len() ==> kind == Ok::<Animation, AnimationError>(self@[node as int].kind),
            node >= self@.len() ==> kind == Err::<Animation, AnimationError>(AnimationError::TraversalError),
    {
        if node >= self.nodes.len() {
            return Err(AnimationError::TraversalError);
        }
        Ok(self.nodes[node].kind)
    }

    /// The duration of `node`.
    pub fn duration(&self, node: NodeId) -> (duration: Result<AnimationDuration, AnimationError>)
        ensures
            node < self@.len() ==> duration == Ok::<AnimationDuration, AnimationError>(self@[node as int].duration),
            node >= self@.len() ==> duration == Err::<AnimationDuration, AnimationError>(AnimationError::TraversalError),
    {
        if node >= self.nodes.len() {
            return Err(AnimationError::TraversalError);
        }
        Ok(self.nodes[node].duration)
    }

    /// What becomes of `node` once it has completed.
    pub fn complete(&self, node: NodeId) -> (policy: Result<AnimationComplete, AnimationError>)
        ensures
            node < self@.len() ==> policy == Ok::<AnimationComplete, AnimationError>(self@[node as int].complete),
            node >= self@.len() ==> policy == Err::<AnimationComplete, AnimationError>(AnimationError::TraversalError),
    {
        if node >= self.nodes.len() {
            return Err(AnimationError::TraversalError);
        }
        Ok(self.nodes[node].complete)
    }

    /// Give `node` another duration. Fails, and changes nothing, where `node`
    /// is not in the tree.
    pub fn set_duration(&mut self, node: NodeId, duration: AnimationDuration) -> (done: Result<(), AnimationError>)
        ensures
            node < old(self)@.len() ==> done == Ok::<(), AnimationError>(()) && final(self)@ == old(self)@.update(
                node as int,
                NodeView { duration, ..old(self)@[node as int] },
            ),
            node >= old(self)@.len() ==> done == Err::<(), AnimationError>(AnimationError::TraversalError) && final(self)@
                == old(self)@,
    {
        proof {
            use_type_invariant(&*self);
        }
        if node >= self.nodes.len() {
            return Err(AnimationError::TraversalError);
        }
        let ghost before = self@;
        let mut nodes: Vec<AnimationNode> = Vec::new();
        std::mem::swap(&mut self.nodes, &mut nodes);
        nodes[node].duration = duration;
        proof {
            let after = Seq::new(nodes@.len(), |i: int| nodes@[i]@);
            lemma_relabelled_well_formed(before, after);
        }
        self.nodes = nodes;
        Ok(())
    }

    /// Say what is to become of `node` once it has completed. Fails, and
    /// changes nothing, where `node` is not in the tree.
    pub fn set_complete(&mut self, node: NodeId, policy: AnimationComplete) -> (done: Result<(), AnimationError>)
        ensures
            node < old(self)@.len() ==> done == Ok::<(), AnimationError>(()) && final(self)@ == old(self)@.update(
                node as int,
                NodeView { complete: policy, ..old(self)@[node as int] },
            ),
            node >= old(self)@.len() ==> done == Err::<(), AnimationError>(AnimationError::TraversalError) && final(self)@
                == old(self)@,
    {
        proof {
            use_type_invariant(&*self);
        }
        if node >= self.nodes.len() {
            return Err(AnimationError::TraversalError);
        }
        let ghost before = self@;
        let mut nodes: Vec<AnimationNode> = Vec::new();
        std::mem::swap(&mut self.nodes, &mut nodes);
        nodes[node].complete = policy;
        proof {
            let after = Seq::new(nodes@.len(), |i: int| nodes@[i]@);
            lemma_relabelled_well_formed(before, after);
        }
        self.nodes = nodes;
        Ok(())
    }

    /// Push the children of `node` onto a depth-first stack, last child
    /// first, so that the first child is walked first.
    fn push_children(&self, node: NodeId, stack: &mut Vec<NodeId>)
        requires
            node < self@.len(),
            forall|i: int| 0 <= i < old(stack)@.len() ==> old(stack)@[i] < self@.len(),
        ensures
            forall|i: int| 0 <= i < final(stack)@.len() ==> final(stack)@[i] < self@.len(),
            pending_leaves(self@, final(stack)@) == leaves_under(self@, node as int, 0) + pending_leaves(self@, old(stack)@),
            pending_size(self@, final(stack)@) == size_under(self@, node as int, 0) + pending_size(self@, old(stack)@),
    {
        proof {
            use_type_invariant(self);
        }
        let children = &self.nodes[node].children;
        let mut rest: usize = children.len();
        while rest > 0
            invariant
                well_formed(self@),
                node < self@.len(),
                children@ == self@[node as int].children,
                rest <= children@.len(),
                forall|i: int| 0 <= i < stack@.len() ==> stack@[i] < self@.len(),
                pending_leaves(self@, stack@) == leaves_under(self@, node as int, rest as int) + pending_leaves(
                    self@,
                    old(stack)@,
                ),
                pending_size(self@, stack@) == size_under(self@, node as int, rest as int) + pending_size(
                    self@,
                    old(stack)@,
                ),
            decreases rest,
        {
            rest -= 1;
            let child = children.0[rest];
            let ghost below = stack@;
            assert(child_listed(self@, node as int, rest as int));
            stack.push(child);
            proof {
                assert(stack@.drop_last() =~= below);
                assert(leaves_under(self@, node as int, rest as int) =~= subtree_leaves(self@, child as int)
                    + leaves_under(self@, node as int, rest as int + 1));
            }
        }
    }

    /// The leaves below `root`, in depth-first order, each with its
    /// duration. Fails where `root` is not in the tree.
    pub fn leaves(&self, root: NodeId) -> (leaves: Result<Vec<Leaf>, AnimationError>)
        ensures
            well_formed(self@),
            root < self@.len() ==> leaves.is_ok() && leaves.unwrap()@ == tree_leaves(self@, root as int),
            root >= self@.len() ==> leaves == Err::<Vec<Leaf>, AnimationError>(AnimationError::TraversalError),
    {
        proof {
            use_type_invariant(self);
        }
        if root >= self.nodes.len() {
            return Err(AnimationError::TraversalError);
        }
        let mut leaves: Vec<Leaf> = Vec::new();
        let mut stack: Vec<NodeId> = Vec::new();
        self.push_children(root, &mut stack);
        while stack.len() > 0
            invariant
                well_formed(self@),
                forall|i: int| 0 <= i < stack@.len() ==> stack@[i] < self@.len(),
                leaves@ + pending_leaves(self@, stack@) == tree_leaves(self@, root as int),
            decreases pending_size(self@, stack@),
        {
            let node = stack.pop().unwrap();
            if self.nodes[node].children.len() == 0 {
                leaves.push(Leaf { entity: node, duration: self.nodes[node].duration });
            } else {
                self.push_children(node, &mut stack);
            }
        }
        Ok(leaves)
    }

    /// Look at the children of `node` on a walk that hands something down
    /// from `source`: mark each child that is not blocked and push it onto the
    /// stack, so that its own children are looked at in turn.
    fn mark_children(
        &self,
        node: NodeId,
        blocked: &Vec<bool>,
        marked: &mut Vec<bool>,
        stack: &mut Vec<NodeId>,
        source: NodeId,
    )
        requires
            node < self@.len(),
            blocked@.len() == self@.len(),
            old(marked)@.len() == self@.len(),
            node == source || inherits_from(self@, blocked@, source as int, node as int),
            forall|i: int| 0 <= i < old(stack)@.len() ==> old(stack)@[i] < self@.len(),
        ensures
            final(marked)@.len() == self@.len(),
            forall|i: int| 0 <= i < final(stack)@.len() ==> final(stack)@[i] < self@.len(),
            forall|n: int| 0 <= n < self@.len() && old(marked)@[n] ==> final(marked)@[n],
            forall|n: int| 0 <= n < self@.len() && final(marked)@[n] && !old(marked)@[n] ==> inherits_from(
                self@, blocked@, source as int, n) && final(stack)@.contains(n as usize),
            forall|n: int| inherits_from(self@, blocked@, source as int, n) && self@[n].parent == Some(node) ==> final(marked)@[n],
            forall|n: usize| old(stack)@.contains(n) ==> final(stack)@.contains(n),
            forall|i: int| 0 <= i < final(stack)@.len() ==> old(stack)@.contains(#[trigger] final(stack)@[i]) || inherits_from(
                self@, blocked@, source as int, final(stack)@[i] as int),
            pending_size(self@, final(stack)@) <= size_under(self@, node as int, 0) + pending_size(self@, old(stack)@),
    {
        proof {
            use_type_invariant(self);
        }
        let len = self.nodes.len();
        let children = &self.nodes[node].children;
        let mut rest: usize = children.len();
        while rest > 0
            invariant
                well_formed(self@),
                self@.len() == len,
                node < self@.len(),
                node == source || inherits_from(self@, blocked@, source as int, node as int),
                blocked@.len() == self@.len(),
                marked@.len() == self@.len(),
                children@ == self@[node as int].children,
                rest <= children@.len(),
                forall|i: int| 0 <= i < stack@.len() ==> stack@[i] < self@.len(),
                forall|n: int| 0 <= n < self@.len() && old(marked)@[n] ==> marked@[n],
                forall|n: int| 0 <= n < self@.len() && marked@[n] && !old(marked)@[n] ==> inherits_from(
                    self@, blocked@, source as int, n) && stack@.contains(n as usize),
                forall|i: int| rest <= i < children@.len() && !blocked@[#[trigger] children@[i] as int] ==> marked@[children@[i] as int],
                forall|n: usize| old(stack)@.contains(n) ==> stack@.contains(n),
                forall|i: int| 0 <= i < stack@.len() ==> old(stack)@.contains(#[trigger] stack@[i]) || inherits_from(
                    self@, blocked@, source as int, stack@[i] as int),
                pending_size(self@, stack@) <= size_under(self@, node as int, rest as int) + pending_size(
                    self@,
                    old(stack)@,
                ),
            decreases rest,
        {
            rest -= 1;
            let child = children.0[rest];
            assert(child_listed(self@, node as int, rest as int));
            assert forall|i: int| rest < i < children@.len() implies (#[trigger] children@[i]) < len by {
                assert(child_listed(self@, node as int, i));
            }
            if !blocked[child] {
                let ghost below = stack@;
                marked.set(child, true);
                stack.push(child);
                proof {
                    assert(stack@.drop_last() =~= below);
                    assert(stack@[below.len() as int] == child);
                    assert forall|n: usize| below.contains(n) implies stack@.contains(n) by {
                        let i = choose|i: int| 0 <= i < below.len() && below[i] == n;
                        assert(stack@[i] == n);
                    }
                }
            }
        }
        proof {
            assert forall|n: int| inherits_from(self@, blocked@, source as int, n) && self@[n].parent == Some(node) implies marked@[n] by {
                assert(parent_named(self@, n));
            }
        }
    }

    /// The nodes that inherit what `source` hands down: those below it that
    /// are reached without passing a blocked node. Fails where `source` is not
    /// in the tree or `blocked` does not say of every node whether it is.
    pub fn inheritors(&self, source: NodeId, blocked: &Vec<bool>) -> (marked: Result<Vec<bool>, AnimationError>)
        ensures
            well_formed(self@),
            source < self@.len() && blocked@.len() == self@.len() ==> marked.is_ok() && marked.unwrap()@.len() == self@.len()
                && forall|n: int| 0 <= n < self@.len() ==> marked.unwrap()@[n] == inherits_from(self@, blocked@, source as int, n),
            !(source < self@.len() && blocked@.len() == self@.len()) ==> marked == Err::<Vec<bool>, AnimationError>(
                AnimationError::TraversalError,
            ),
    {
        proof {
            use_type_invariant(self);
        }
        let len = self.nodes.len();
        if source >= len || blocked.len() != len {
            return Err(AnimationError::TraversalError);
        }
        let mut marked: Vec<bool> = Vec::new();
        while marked.len() < len
            invariant
                marked@.len() <= len,
                forall|n: int| 0 <= n < marked@.len() ==> !marked@[n],
            decreases len - marked.len(),
        {
            marked.push(false);
        }
        let mut stack: Vec<NodeId> = Vec::new();
        stack.push(source);
        assert(stack@[0] == source);
        let ghost mut expanded: Set<int> = Set::empty();
        while stack.len() > 0
            invariant
                well_formed(self@),
                len == self@.len(),
                source < len,
                blocked@.len() == len,
                marked@.len() == len,
                forall|i: int| 0 <= i < stack@.len() ==> stack@[i] < len,
                forall|i: int| 0 <= i < stack@.len() ==> stack@[i] == source || inherits_from(
                    self@, blocked@, source as int, stack@[i] as int),
                forall|n: int| 0 <= n < len && marked@[n] ==> inherits_from(self@, blocked@, source as int, n),
                forall|n: int| 0 <= n < len && (n == source || marked@[n]) ==> expanded.contains(n) || stack@.contains(n as usize),
                forall|n: int|
                    inherits_from(self@, blocked@, source as int, n) && expanded.contains(self@[n].parent.unwrap() as int)
                        ==> #[trigger] marked@[n],
            decreases pending_size(self@, stack@),
        {
            let ghost before = stack@;
            let ghost marks = marked@;
            let node = stack.pop().unwrap();
            let ghost below = stack@;
            self.mark_children(node, blocked, &mut marked, &mut stack, source);
            proof {
                let reached = expanded;
                expanded = expanded.insert(node as int);
                assert forall|n: int| 0 <= n < len && (n == source || marked@[n]) implies expanded.contains(n)
                    || stack@.contains(n as usize) by {
                    if n == source || marks[n] {
                        if !reached.contains(n) {
                            let i = choose|i: int| 0 <= i < before.len() && before[i] == n as usize;
                            if i < below.len() {
                                assert(below[i] == n as usize);
                            }
                        }
                    }
                }
                assert forall|i: int| 0 <= i < stack@.len() implies stack@[i] == source || inherits_from(
                    self@, blocked@, source as int, stack@[i] as int) by {
                    let n = stack@[i];
                    if below.contains(n) {
                        let j = choose|j: int| 0 <= j < below.len() && below[j] == n;
                        assert(before[j] == n);
                    }
                }
            }
        }
        proof {
            assert forall|n: int| 0 <= n < len implies marked@[n] == inherits_from(self@, blocked@, source as int, n) by {
                if inherits_from(self@, blocked@, source as int, n) {
                    lemma_walk_complete(self@, blocked@, source as int, marked@, expanded, n);
                }
            }
        }
        Ok(marked)
    }
}

} // verus!
