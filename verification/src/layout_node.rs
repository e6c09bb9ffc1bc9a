//! Layout nodes: a tree of nodes, each with its modifier chain and its
//! measure pass, attached to an owner or not.

use vstd::prelude::*;
use crate::coordinator::{NodeCoordinatorImpl, WrappedBy};
use crate::geometry::{Constraints, Density, IntSize, LayoutDirection};
use crate::measure::{remeasure_skipped, size_changed, LayoutNodeLayoutDelegate, LayoutState, MeasurePassDelegate, UsageByParent};
use crate::modifier::{inners, leaves, Modifier};
use crate::placeable::{MeasureResult, PlaceableImpl};
use crate::node_chain::{leaf_kind_set, NodeChain};

verus! {

/// A layout node and, through `children`, its subtree. The owner is named
/// by an id; the parent by its identity, kept in the chain.
pub struct LayoutNode {
    pub identify: u32,
    pub node_chain: NodeChain,
    pub children: Vec<LayoutNode>,
    pub layout_node_layout_delegate: LayoutNodeLayoutDelegate,
    pub usage_by_parent: UsageByParent,
    pub layout_direction: LayoutDirection,
    pub owner: Option<u64>,
}

/// The identities of a sequence of nodes.
pub open spec fn ids(nodes: Seq<LayoutNode>) -> Seq<u32> {
    nodes.map_values(|n: LayoutNode| n.identify)
}

/// The identities of the subtree of `node`, each node before its
/// children, the children in order.
pub open spec fn preorder(node: LayoutNode) -> Seq<u32>
    decreases node, node.children@.len() + 1,
{
    seq![node.identify] + preorder_from(node, 0)
}

/// The identities of the subtrees of `node`'s children from the `i`-th on,
/// one subtree after the other.
pub open spec fn preorder_from(node: LayoutNode, i: int) -> Seq<u32>
    decreases node, node.children@.len() - i,
{
    if 0 <= i < node.children@.len() {
        proof {
            assert(decreases_to!(node => node.children));
            assert(decreases_to!(node.children => node.children@));
            assert(decreases_to!(node.children@ => node.children@[i]));
        }
        preorder(node.children@[i]) + preorder_from(node, i + 1)
    } else {
        Seq::empty()
    }
}

/// The preorder of a node reads only its identity and its children.
proof fn lemma_preorder_same_children(a: LayoutNode, b: LayoutNode)
    requires
        a.identify == b.identify,
        a.children@ == b.children@,
    ensures
        preorder(a) == preorder(b),
{
    lemma_preorder_from_same_children(a, b, 0);
}

proof fn lemma_preorder_from_same_children(a: LayoutNode, b: LayoutNode, i: int)
    requires
        a.children@ == b.children@,
    ensures
        preorder_from(a, i) == preorder_from(b, i),
    decreases a.children@.len() - i,
{
    if 0 <= i < a.children@.len() {
        lemma_preorder_from_same_children(a, b, i + 1);
    }
}

impl LayoutNode {
    /// Every node of the subtree has its chain tied to it and its chain tied
    /// to the chain's coordinators.
    pub open spec fn tree_wf(self) -> bool
        decreases self,
    {
        &&& self.node_chain.wf()
        &&& self.node_chain.identify == self.identify
        &&& self.node_chain.layout_node == Some(self.identify)
        &&& self.layout_node_layout_delegate.measure_pass_delegate.wf()
        &&& self.layout_node_layout_delegate.last_constraints is None
        &&& forall|i: int| 0 <= i < self.children@.len() ==> (#[trigger] self.children@[i]).tree_wf()
    }

    /// Every node of the subtree is attached to `owner`.
    pub open spec fn attached_to(self, owner: u64) -> bool
        decreases self,
    {
        &&& self.owner == Some(owner)
        &&& forall|i: int| 0 <= i < self.children@.len() ==> (#[trigger] self.children@[i]).attached_to(owner)
    }

    /// `self` is `before` attached to `owner` under `parent`, all through
    /// the subtree: only the owner changes, the outer coordinator is
    /// wrapped by the parent's inner one, and a node without parent counts
    /// as placed.
    pub open spec fn attached_from(self, before: LayoutNode, parent: Option<u32>, owner: u64) -> bool
        decreases self,
    {
        let outer = before.node_chain.outer_coordinator as int;
        let d = before.layout_node_layout_delegate;
        &&& self.owner == Some(owner)
        &&& self.identify == before.identify
        &&& self.usage_by_parent == before.usage_by_parent
        &&& self.layout_direction == before.layout_direction
        &&& self.layout_node_layout_delegate == (LayoutNodeLayoutDelegate {
            measure_pass_delegate: MeasurePassDelegate {
                is_placed: parent is None || d.measure_pass_delegate.is_placed,
                ..d.measure_pass_delegate
            },
            ..d
        })
        &&& self.node_chain.same_but_coordinators(before.node_chain)
        &&& self.node_chain.outer_coordinator == before.node_chain.outer_coordinator
        &&& self.node_chain.coordinators@ == before.node_chain.coordinators@.update(
            outer,
            NodeCoordinatorImpl {
                wrapped_by: match parent {
                    Some(p) => Some(WrappedBy::ParentInner { layout_node: p }),
                    None => None,
                },
                ..before.node_chain.coordinators@[outer]
            },
        )
        &&& self.children@.len() == before.children@.len()
        &&& forall|i: int| 0 <= i < self.children@.len() ==> (#[trigger] self.children@[i]).attached_from(
            before.children@[i],
            Some(before.identify),
            owner,
        )
    }

    /// `self` is `before` detached all through the subtree: only the owner
    /// changes.
    pub open spec fn detached_from(self, before: LayoutNode) -> bool
        decreases self,
    {
        &&& self.owner is None
        &&& self.identify == before.identify
        &&& self.usage_by_parent == before.usage_by_parent
        &&& self.layout_direction == before.layout_direction
        &&& self.layout_node_layout_delegate == before.layout_node_layout_delegate
        &&& self.node_chain == before.node_chain
        &&& self.children@.len() == before.children@.len()
        &&& forall|i: int| 0 <= i < self.children@.len() ==> (#[trigger] self.children@[i]).detached_from(before.children@[i])
    }

    /// Every node of the subtree is attached to some owner.
    pub open spec fn fully_attached(self) -> bool
        decreases self,
    {
        &&& self.owner is Some
        &&& forall|i: int| 0 <= i < self.children@.len() ==> (#[trigger] self.children@[i]).fully_attached()
    }

    /// No node of the subtree is attached.
    pub open spec fn fully_detached(self) -> bool
        decreases self,
    {
        &&& self.owner is None
        &&& forall|i: int| 0 <= i < self.children@.len() ==> (#[trigger] self.children@[i]).fully_detached()
    }

    /// A detached node without children or modifier, known as `identify`.
    pub fn new(identify: u32) -> (n: LayoutNode)
        ensures
            n.tree_wf(),
            n.identify == identify,
            n.children@.len() == 0,
            n.owner is None,
            n.node_chain.parent is None,
            n.node_chain.modifier_container.current@.len() == 0,
            n.layout_node_layout_delegate.measure_pass_delegate == MeasurePassDelegate::spec_new(),
            n.layout_node_layout_delegate.last_constraints is None,
            n.layout_node_layout_delegate.identify == identify,
            n.usage_by_parent == UsageByParent::NotUsed,
            n.layout_direction == LayoutDirection::Ltr,
    {
        let mut node_chain = NodeChain::new();
        node_chain.attach(identify);
        let mut layout_node_layout_delegate = LayoutNodeLayoutDelegate::new();
        layout_node_layout_delegate.attach(identify);
        LayoutNode {
            identify,
            node_chain,
            children: Vec::new(),
            layout_node_layout_delegate,
            usage_by_parent: UsageByParent::NotUsed,
            layout_direction: LayoutDirection::default(),
            owner: None,
        }
    }

    pub fn is_placed(&self) -> (b: bool)
        ensures
            b == self.layout_node_layout_delegate.measure_pass_delegate.is_placed,
    {
        self.layout_node_layout_delegate.measure_pass_delegate.is_placed
    }

    pub fn get_layout_direction(&self) -> (d: LayoutDirection)
        ensures
            d == self.layout_direction,
    {
        self.layout_direction
    }

    pub fn set_layout_direction(&mut self, layout_direction: LayoutDirection)
        requires
            old(self).tree_wf(),
        ensures
            final(self).tree_wf(),
            final(self).layout_direction == layout_direction,
            final(self).identify == old(self).identify,
            final(self).owner == old(self).owner,
            final(self).children@ == old(self).children@,
            final(self).layout_node_layout_delegate == old(self).layout_node_layout_delegate,
    {
        self.layout_direction = layout_direction;
    }

    pub fn is_attached(&self) -> (b: bool)
        ensures
            b == self.owner is Some,
    {
        self.owner.is_some()
    }

    /// The owner; only an attached node has one.
    pub fn require_owner(&self) -> (o: u64)
        requires
            self.owner is Some,
        ensures
            Some(o) == self.owner,
    {
        self.owner.unwrap()
    }

    /// Whether the parent measures this node in its measure block.
    pub fn measure_affects_parent(&self) -> (b: bool)
        ensures
            b == (self.usage_by_parent == UsageByParent::InMeasureBlock),
    {
        self.usage_by_parent == UsageByParent::InMeasureBlock
    }

    pub fn get_layout_state(&self) -> (s: LayoutState)
        ensures
            s == self.layout_node_layout_delegate.measure_pass_delegate.layout_state,
    {
        self.layout_node_layout_delegate.measure_pass_delegate.get_layout_state()
    }

    pub fn set_layout_state(&mut self, layout_state: LayoutState)
        requires
            old(self).tree_wf(),
        ensures
            final(self).tree_wf(),
            final(self).layout_node_layout_delegate.measure_pass_delegate == (MeasurePassDelegate {
                layout_state,
                ..old(self).layout_node_layout_delegate.measure_pass_delegate
            }),
            final(self).identify == old(self).identify,
            final(self).owner == old(self).owner,
            final(self).children@ == old(self).children@,
    {
        self.layout_node_layout_delegate.measure_pass_delegate.set_layout_state(layout_state);
    }

    /// The identities of the children, in order.
    pub fn get_children(&self) -> (r: Vec<u32>)
        ensures
            r@ == ids(self.children@),
    {
        let mut r: Vec<u32> = Vec::new();
        let mut i: usize = 0;
        while i < self.children.len()
            invariant
                0 <= i <= self.children@.len(),
                r@ == ids(self.children@.subrange(0, i as int)),
            decreases self.children@.len() - i,
        {
            proof {
                assert(ids(self.children@.subrange(0, i + 1)) =~= ids(self.children@.subrange(0, i as int)).push(self.children@[i as int].identify));
            }
            r.push(self.children[i].identify);
            i = i + 1;
        }
        proof {
            assert(self.children@.subrange(0, i as int) =~= self.children@);
        }
        r
    }

    pub fn get_measure_pass_delegate(&self) -> (d: MeasurePassDelegate)
        ensures
            d == self.layout_node_layout_delegate.measure_pass_delegate,
    {
        self.layout_node_layout_delegate.measure_pass_delegate
    }

    /// The outer coordinator's index in the chain.
    pub fn get_outer_coordinator(&self) -> (c: usize)
        ensures
            c == self.node_chain.outer_coordinator,
    {
        self.node_chain.outer_coordinator
    }

    /// The inner coordinator's index in the chain.
    pub fn get_inner_coordinator(&self) -> (c: usize)
        ensures
            c == crate::node_chain::INNER,
    {
        crate::node_chain::INNER
    }

    /// The density layout runs in: one.
    pub fn get_density(&self) -> (d: Density)
        ensures
            d == Density::spec_identity(),
    {
        Density::identity()
    }

    pub fn get_parent(&self) -> (p: Option<u32>)
        ensures
            p == self.node_chain.parent,
    {
        self.node_chain.parent
    }

    pub fn set_parent(&mut self, parent: Option<u32>)
        requires
            old(self).tree_wf(),
        ensures
            final(self).tree_wf(),
            final(self).node_chain.parent == parent,
            final(self).identify == old(self).identify,
            final(self).owner == old(self).owner,
            final(self).children@ == old(self).children@,
            final(self).layout_node_layout_delegate == old(self).layout_node_layout_delegate,
            final(self).node_chain.coordinators@ == old(self).node_chain.coordinators@,
            final(self).node_chain.outer_coordinator == old(self).node_chain.outer_coordinator,
    {
        self.node_chain.set_parent(parent);
    }

    /// Attaches the subtree to `owner`. A node without parent counts as
    /// placed; the outer coordinator is wrapped by the parent's inner one.
    /// Returns the nodes the owner is to be told of, each once, every node
    /// before its children.
    pub fn attach(&mut self, parent: Option<u32>, owner: u64) -> (notified: Vec<u32>)
        requires
            old(self).tree_wf(),
        ensures
            notified@ == preorder(*old(self)),
            final(self).attached_from(*old(self), parent, owner),
            final(self).tree_wf(),
            final(self).attached_to(owner),
            final(self).identify == old(self).identify,
            ids(final(self).children@) == ids(old(self).children@),
            final(self).node_chain.parent == old(self).node_chain.parent,
            final(self).node_chain.coordinators@[final(self).node_chain.outer_coordinator as int].wrapped_by == match parent {
                Some(p) => Some(WrappedBy::ParentInner { layout_node: p }),
                None => None,
            },
            final(self).layout_node_layout_delegate.measure_pass_delegate == (MeasurePassDelegate {
                is_placed: parent is None || old(self).layout_node_layout_delegate.measure_pass_delegate.is_placed,
                ..old(self).layout_node_layout_delegate.measure_pass_delegate
            }),
            final(self).layout_node_layout_delegate.last_constraints == old(self).layout_node_layout_delegate.last_constraints,
            final(self).layout_node_layout_delegate.identify == old(self).layout_node_layout_delegate.identify,
            final(self).node_chain.same_but_coordinators(old(self).node_chain),
            final(self).node_chain.outer_coordinator == old(self).node_chain.outer_coordinator,
            final(self).usage_by_parent == old(self).usage_by_parent,
            final(self).layout_direction == old(self).layout_direction,
        decreases *old(self),
    {
        if parent.is_none() {
            self.layout_node_layout_delegate.measure_pass_delegate.is_placed = true;
        }
        let wrapped_by = match parent {
            Some(p) => Some(WrappedBy::ParentInner { layout_node: p }),
            None => None,
        };
        self.node_chain.set_outer_wrapped_by(wrapped_by);
        self.owner = Some(owner);
        let mut notified: Vec<u32> = Vec::new();
        notified.push(self.identify);
        proof {
            assert(notified@ + preorder_from(*old(self), 0) =~= preorder(*old(self)));
        }
        let ghost chain = self.node_chain;
        let ghost delegate = self.layout_node_layout_delegate;
        let n = self.children.len();
        let mut i: usize = 0;
        while i < n
            invariant
                self.owner == Some(owner),
                self.node_chain == chain,
                self.layout_node_layout_delegate == delegate,
                self.usage_by_parent == old(self).usage_by_parent,
                self.layout_direction == old(self).layout_direction,
                0 <= i <= n,
                n == old(self).children@.len(),
                self.children@.len() == n,
                forall|j: int| 0 <= j < i ==> (#[trigger] self.children@[j]).attached_to(owner) && self.children@[j].tree_wf()
                    && self.children@[j].identify == old(self).children@[j].identify
                    && self.children@[j].attached_from(old(self).children@[j], Some(old(self).identify), owner),
                forall|j: int| i <= j < n ==> #[trigger] self.children@[j] == old(self).children@[j],
                forall|j: int| 0 <= j < n ==> (#[trigger] old(self).children@[j]).tree_wf(),
                self.identify == old(self).identify,
                notified@ + preorder_from(*old(self), i as int) == preorder(*old(self)),
            decreases n - i,
        {
            let mut child = self.children.remove(i);
            proof {
                assert(child == old(self).children@[i as int]);
                assert(decreases_to!(*old(self) => old(self).children));
                assert(decreases_to!(old(self).children => old(self).children@));
                assert(decreases_to!(old(self).children@ => old(self).children@[i as int]));
            }
            let ghost before = notified@;
            let mut below = child.attach(Some(self.identify), owner);
            notified.append(&mut below);
            proof {
                assert(preorder_from(*old(self), i as int) == preorder(old(self).children@[i as int]) + preorder_from(*old(self), i + 1));
                assert(before + preorder_from(*old(self), i as int) =~= notified@ + preorder_from(*old(self), i + 1));
            }
            self.children.insert(i, child);
            i = i + 1;
        }
        self.layout_node_layout_delegate.update_parent_data_with_parent(parent);
        proof {
            assert(ids(self.children@) =~= ids(old(self).children@));
            assert(notified@ =~= preorder(*old(self)));
        }
        notified
    }

    /// Detaches the subtree from its owner.
    pub fn detach(&mut self)
        requires
            old(self).tree_wf(),
            old(self).fully_attached(),
        ensures
            final(self).detached_from(*old(self)),
            final(self).tree_wf(),
            final(self).fully_detached(),
            final(self).identify == old(self).identify,
            ids(final(self).children@) == ids(old(self).children@),
            final(self).node_chain.parent == old(self).node_chain.parent,
            final(self).node_chain.outer_coordinator == old(self).node_chain.outer_coordinator,
            final(self).node_chain.coordinators@ == old(self).node_chain.coordinators@,
            final(self).layout_node_layout_delegate == old(self).layout_node_layout_delegate,
            final(self).node_chain == old(self).node_chain,
            final(self).usage_by_parent == old(self).usage_by_parent,
            final(self).layout_direction == old(self).layout_direction,
        decreases *old(self),
    {
        proof {
            assert(old(self).owner is Some);
        }
        let owner = self.owner.take();
        match owner {
            None => {
                proof {
                    assert(false);
                }
            },
            Some(_owner) => {
                let n = self.children.len();
                let mut i: usize = 0;
                while i < n
                    invariant
                        self.owner is None,
                        self.node_chain == old(self).node_chain,
                        self.identify == old(self).identify,
                        self.layout_node_layout_delegate == old(self).layout_node_layout_delegate,
                        self.usage_by_parent == old(self).usage_by_parent,
                        self.layout_direction == old(self).layout_direction,
                        0 <= i <= n,
                        n == old(self).children@.len(),
                        self.children@.len() == n,
                        forall|j: int| 0 <= j < i ==> (#[trigger] self.children@[j]).fully_detached() && self.children@[j].tree_wf()
                            && self.children@[j].identify == old(self).children@[j].identify
                            && self.children@[j].detached_from(old(self).children@[j]),
                        forall|j: int| i <= j < n ==> #[trigger] self.children@[j] == old(self).children@[j],
                        forall|j: int| 0 <= j < n ==> (#[trigger] old(self).children@[j]).tree_wf() && old(self).children@[j].fully_attached(),
                    decreases n - i,
                {
                    let mut child = self.children.remove(i);
                    proof {
                        assert(child == old(self).children@[i as int]);
                        assert(decreases_to!(*old(self) => old(self).children));
                        assert(decreases_to!(old(self).children => old(self).children@));
                        assert(decreases_to!(old(self).children@ => old(self).children@[i as int]));
                    }
                    child.detach();
                    self.children.insert(i, child);
                    i = i + 1;
                }
                proof {
                    assert(ids(self.children@) =~= ids(old(self).children@));
                }
            },
        }
    }

    /// What a node is once removed from an attached or detached parent:
    /// without parent, its outer coordinator wrapped by nothing, and
    /// detached if the parent was attached.
    pub open spec fn removed_from(self, before: LayoutNode, parent_attached: bool) -> bool {
        &&& self.tree_wf()
        &&& self.identify == before.identify
        &&& self.node_chain.parent is None
        &&& self.node_chain.coordinators@[self.node_chain.outer_coordinator as int].wrapped_by is None
        &&& ids(self.children@) == ids(before.children@)
        &&& (parent_attached ==> self.fully_detached())
        &&& (!parent_attached ==> self.owner == before.owner)
    }

    /// Unties a child that is being removed.
    pub fn on_remove_child(&self, child: &mut LayoutNode)
        requires
            old(child).tree_wf(),
            self.owner is Some ==> old(child).fully_attached(),
        ensures
            final(child).removed_from(*old(child), self.owner is Some),
    {
        if self.owner.is_some() {
            child.detach();
        }
        child.set_parent(None);
        child.node_chain.set_outer_wrapped_by(None);
    }

    /// Inserts `node` as the child at `index`; it gets this node as parent
    /// and, if this node is attached, this node's owner, its outer
    /// coordinator then wrapped by this node's inner one. Returns the nodes
    /// the owner is to be told of: none for a detached parent.
    pub fn insert_at(&mut self, index: usize, node: LayoutNode) -> (notified: Vec<u32>)
        requires
            old(self).tree_wf(),
            node.tree_wf(),
            node.node_chain.parent is None,
            node.owner is None,
            index <= old(self).children@.len(),
        ensures
            final(self).tree_wf(),
            ids(final(self).children@) == ids(old(self).children@).insert(index as int, node.identify),
            final(self).children@[index as int].node_chain.parent == Some(old(self).identify),
            match old(self).owner {
                Some(o) => {
                    let child = final(self).children@[index as int];
                    &&& child.attached_to(o)
                    &&& child.node_chain.coordinators@[child.node_chain.outer_coordinator as int].wrapped_by
                        == Some(WrappedBy::ParentInner { layout_node: old(self).identify })
                    &&& notified@ == preorder(node)
                },
                None => final(self).children@[index as int].owner is None && notified@.len() == 0,
            },
            forall|j: int| 0 <= j < index ==> #[trigger] final(self).children@[j] == old(self).children@[j],
            forall|j: int| index < j < final(self).children@.len() ==> #[trigger] final(self).children@[j] == old(self).children@[j - 1],
            final(self).identify == old(self).identify,
            final(self).owner == old(self).owner,
            final(self).node_chain == old(self).node_chain,
            final(self).layout_node_layout_delegate == old(self).layout_node_layout_delegate,
    {
        let ghost given = node;
        let mut node = node;
        node.set_parent(Some(self.identify));
        proof {
            lemma_preorder_same_children(node, given);
        }
        let notified = match self.owner {
            Some(owner) => node.attach(Some(self.identify), owner),
            None => Vec::new(),
        };
        self.children.insert(index, node);
        proof {
            assert(ids(self.children@) =~= ids(old(self).children@).insert(index as int, node.identify));
        }
        notified
    }

    /// Removes children by the inclusive range from `index + count - 1` up
    /// to `index`: the child at `index` for a count of one, the children at
    /// `index - 1` and `index + 1` for a count of zero, none for a larger
    /// count. The removed children come back untied, in removal order.
    pub fn remove_at(&mut self, index: usize, count: usize) -> (removed: Vec<LayoutNode>)
        requires
            old(self).tree_wf(),
            1 <= index + count <= usize::MAX,
            count == 1 ==> index < old(self).children@.len(),
            count == 0 ==> 1 <= index && index + 1 < old(self).children@.len(),
            forall|j: int| 0 <= j < old(self).children@.len() ==> old(self).owner is Some ==> (#[trigger] old(self).children@[j]).fully_attached(),
        ensures
            final(self).tree_wf(),
            ids(final(self).children@) == (if count == 1 {
                ids(old(self).children@).remove(index as int)
            } else if count == 0 {
                ids(old(self).children@).remove(index - 1).remove(index as int)
            } else {
                ids(old(self).children@)
            }),
            ids(removed@) == (if count == 1 {
                seq![old(self).children@[index as int].identify]
            } else if count == 0 {
                seq![old(self).children@[index - 1].identify, old(self).children@[index + 1].identify]
            } else {
                Seq::empty()
            }),
            count == 1 ==> removed@[0].removed_from(old(self).children@[index as int], old(self).owner is Some),
            count == 0 ==> removed@[0].removed_from(old(self).children@[index - 1], old(self).owner is Some)
                && removed@[1].removed_from(old(self).children@[index + 1], old(self).owner is Some),
            final(self).identify == old(self).identify,
            final(self).owner == old(self).owner,
            final(self).node_chain == old(self).node_chain,
            final(self).layout_node_layout_delegate == old(self).layout_node_layout_delegate,
            final(self).children@ == (if count == 1 {
                old(self).children@.remove(index as int)
            } else if count == 0 {
                old(self).children@.remove(index - 1).remove(index as int)
            } else {
                old(self).children@
            }),
            final(self).usage_by_parent == old(self).usage_by_parent,
            final(self).layout_direction == old(self).layout_direction,
    {
        let mut removed: Vec<LayoutNode> = Vec::new();
        let first = index + count - 1;
        if first <= index {
            let child = self.take_child(first);
            removed.push(child);
            if first < index {
                let second = self.take_child(index);
                removed.push(second);
            }
        }
        proof {
            if count == 1 {
                assert(ids(self.children@) =~= ids(old(self).children@).remove(index as int));
                assert(ids(removed@) =~= seq![old(self).children@[index as int].identify]);
            } else if count == 0 {
                assert(ids(self.children@) =~= ids(old(self).children@).remove(index - 1).remove(index as int));
                assert(ids(removed@) =~= seq![old(self).children@[index - 1].identify, old(self).children@[index + 1].identify]);
            } else {
                assert(ids(removed@) =~= Seq::<u32>::empty());
            }
        }
        removed
    }

    /// Removes the child at `i` and unties it.
    fn take_child(&mut self, i: usize) -> (child: LayoutNode)
        requires
            old(self).tree_wf(),
            i < old(self).children@.len(),
            forall|j: int| 0 <= j < old(self).children@.len() ==> old(self).owner is Some ==> (#[trigger] old(self).children@[j]).fully_attached(),
        ensures
            final(self).tree_wf(),
            final(self).children@ == old(self).children@.remove(i as int),
            child.removed_from(old(self).children@[i as int], old(self).owner is Some),
            final(self).identify == old(self).identify,
            final(self).owner == old(self).owner,
            final(self).node_chain == old(self).node_chain,
            final(self).layout_node_layout_delegate == old(self).layout_node_layout_delegate,
            final(self).usage_by_parent == old(self).usage_by_parent,
            final(self).layout_direction == old(self).layout_direction,
    {
        let mut child = self.children.remove(i);
        self.on_remove_child(&mut child);
        child
    }

    /// Removes all children, last first; they come back untied, in that
    /// order.
    pub fn remove_all(&mut self) -> (removed: Vec<LayoutNode>)
        requires
            old(self).tree_wf(),
            forall|j: int| 0 <= j < old(self).children@.len() ==> old(self).owner is Some ==> (#[trigger] old(self).children@[j]).fully_attached(),
        ensures
            final(self).tree_wf(),
            final(self).children@.len() == 0,
            ids(removed@) == ids(old(self).children@).reverse(),
            forall|j: int| 0 <= j < removed@.len() ==> (#[trigger] removed@[j]).removed_from(
                old(self).children@[old(self).children@.len() - 1 - j],
                old(self).owner is Some,
            ),
            final(self).identify == old(self).identify,
            final(self).owner == old(self).owner,
            final(self).node_chain == old(self).node_chain,
            final(self).layout_node_layout_delegate == old(self).layout_node_layout_delegate,
    {
        let mut removed: Vec<LayoutNode> = Vec::new();
        let ghost n = old(self).children@.len();
        while self.children.len() > 0
            invariant
                self.tree_wf(),
                self.identify == old(self).identify,
                self.owner == old(self).owner,
                self.node_chain == old(self).node_chain,
                self.layout_node_layout_delegate == old(self).layout_node_layout_delegate,
                n == old(self).children@.len(),
                self.children@ == old(self).children@.subrange(0, n - removed@.len()),
                removed@.len() <= n,
                ids(removed@) == ids(old(self).children@.subrange(n - removed@.len(), n as int)).reverse(),
                forall|j: int| 0 <= j < removed@.len() ==> (#[trigger] removed@[j]).removed_from(
                    old(self).children@[n - 1 - j],
                    old(self).owner is Some,
                ),
                forall|j: int| 0 <= j < old(self).children@.len() ==> old(self).owner is Some ==> (#[trigger] old(self).children@[j]).fully_attached(),
            decreases self.children@.len(),
        {
            let ghost k = removed@.len();
            let mut child = self.children.pop().unwrap();
            proof {
                assert(child == old(self).children@[n - 1 - k]);
            }
            self.on_remove_child(&mut child);
            removed.push(child);
            proof {
                assert(self.children@ =~= old(self).children@.subrange(0, n - removed@.len()));
                assert(ids(old(self).children@.subrange(n - removed@.len(), n as int)).reverse() =~= ids(old(self).children@.subrange(n - k, n as int)).reverse().push(child.identify));
            }
        }
        proof {
            assert(old(self).children@.subrange(0, n as int) =~= old(self).children@);
        }
        removed
    }

    /// Appends `child`; unless this node is a root, the child gets this
    /// node as parent, and if this node is attached, the child is attached
    /// to the same owner.
    pub fn adopt_child(&mut self, child: LayoutNode, is_root: bool) -> (notified: Vec<u32>)
        requires
            old(self).tree_wf(),
            child.tree_wf(),
        ensures
            final(self).tree_wf(),
            old(self).owner is Some ==> notified@ == preorder(child)
                && final(self).children@.last().node_chain.coordinators@[final(self).children@.last().node_chain.outer_coordinator as int].wrapped_by
                    == Some(WrappedBy::ParentInner { layout_node: old(self).identify }),
            old(self).owner is None ==> notified@.len() == 0,
            ids(final(self).children@) == ids(old(self).children@).push(child.identify),
            !is_root ==> final(self).children@.last().node_chain.parent == Some(old(self).identify),
            is_root ==> final(self).children@.last().node_chain.parent == child.node_chain.parent,
            old(self).owner matches Some(o) ==> final(self).children@.last().attached_to(o),
            old(self).owner is None ==> final(self).children@.last().owner == child.owner,
            forall|j: int| 0 <= j < old(self).children@.len() ==> #[trigger] final(self).children@[j] == old(self).children@[j],
            final(self).identify == old(self).identify,
            final(self).owner == old(self).owner,
            final(self).node_chain == old(self).node_chain,
            final(self).layout_node_layout_delegate == old(self).layout_node_layout_delegate,
    {
        let ghost given = child;
        let mut child = child;
        if !is_root {
            child.set_parent(Some(self.identify));
        }
        proof {
            lemma_preorder_same_children(child, given);
        }
        let notified = match self.owner {
            Some(owner) => child.attach(Some(self.identify), owner),
            None => Vec::new(),
        };
        self.children.push(child);
        proof {
            assert(ids(self.children@) =~= ids(old(self).children@).push(child.identify));
        }
        notified
    }

    /// The outer coordinator's measured size.
    pub open spec fn outer_measured_size(self) -> IntSize {
        self.node_chain.coordinators@[self.node_chain.outer_coordinator as int].look_ahead_capable_placeable_impl.placeable_impl.measured_size
    }

    /// `self` is `before` remeasured with `constraint`, `measure` being the
    /// node's measure: what measuring its outer coordinator yields.
    pub open spec fn remeasured<F: Fn(&Constraints) -> IntSize>(
        self,
        before: LayoutNode,
        constraint: Constraints,
        measure: F,
        changed: bool,
    ) -> bool {
        let d = before.layout_node_layout_delegate.measure_pass_delegate;
        &&& self.tree_wf()
        &&& self.identify == before.identify
        &&& self.owner == before.owner
        &&& self.children@ == before.children@
        &&& self.usage_by_parent == before.usage_by_parent
        &&& self.layout_direction == before.layout_direction
        &&& self.node_chain.same_but_coordinators(before.node_chain)
        &&& self.node_chain.outer_coordinator == before.node_chain.outer_coordinator
        &&& if remeasure_skipped(d, constraint) {
            &&& !changed
            &&& self.layout_node_layout_delegate == before.layout_node_layout_delegate
            &&& self.node_chain.coordinators@ == before.node_chain.coordinators@
        } else {
            let new_size = self.outer_measured_size();
            let outer = before.node_chain.outer_coordinator as int;
            &&& call_ensures(measure, (&constraint,), new_size)
            &&& self.node_chain.coordinators@ == before.node_chain.coordinators@.update(
                outer,
                before.node_chain.coordinators@[outer].with_measured_size(new_size),
            )
            &&& changed == size_changed(before.outer_measured_size(), new_size, d.placeable_impl)
            &&& self.layout_node_layout_delegate.measure_pass_delegate == (MeasurePassDelegate {
                placeable_impl: PlaceableImpl { measured_size: new_size, ..d.placeable_impl },
                measure_pending: false,
                layout_pending: true,
                layout_state: LayoutState::Idle,
                ..d
            })
            &&& self.layout_node_layout_delegate.last_constraints == before.layout_node_layout_delegate.last_constraints
        }
    }

    /// Remeasures this node with `constraint`, or with the last constraint
    /// when none is given; with neither nothing happens.
    pub fn remeasure<F: Fn(&Constraints) -> IntSize>(&mut self, constraint: Option<Constraints>, measure: &F) -> (changed: bool)
        requires
            old(self).tree_wf(),
            constraint matches Some(c) ==> {
                &&& remeasure_skipped(old(self).layout_node_layout_delegate.measure_pass_delegate, c)
                    || old(self).layout_node_layout_delegate.measure_pass_delegate.layout_state == LayoutState::Idle
                &&& call_requires(*measure, (&c,))
            },
        ensures
            constraint is None ==> !changed && *final(self) == *old(self),
            constraint matches Some(c) ==> final(self).remeasured(*old(self), c, *measure, changed),
    {
        if constraint.is_none() {
            return false;
        }
        let c = constraint.unwrap();
        let outer_index = self.node_chain.outer_coordinator;
        let mut outer = self.node_chain.coordinators[outer_index];
        let changed = self.layout_node_layout_delegate.remeasure(&mut outer, Some(c), measure);
        self.node_chain.replace_coordinator(outer_index, outer);
        proof {
            if remeasure_skipped(old(self).layout_node_layout_delegate.measure_pass_delegate, c) {
                assert(self.node_chain.coordinators@ =~= old(self).node_chain.coordinators@);
            }
        }
        changed
    }

    /// Builds this node's chain from `modifier`.
    pub fn set_modifier(&mut self, modifier: Modifier)
        requires
            old(self).tree_wf(),
            old(self).node_chain.modifier_container.current@.len() == 0,
            forall|i: int| 0 <= i < leaves(modifier.inner).len() ==> (#[trigger] leaves(modifier.inner)[i]) is ModifierNodeElement,
            old(self).node_chain.nodes@.len() + leaves(modifier.inner).len() < usize::MAX,
            old(self).node_chain.coordinators@.len() + leaves(modifier.inner).len() + 1 < usize::MAX,
        ensures
            final(self).tree_wf(),
            inners(final(self).node_chain.modifier_container.current@) == leaves(modifier.inner),
            final(self).node_chain.order@.len() == leaves(modifier.inner).len() + 1,
            forall|i: int| 0 <= i < leaves(modifier.inner).len() ==> #[trigger] final(self).node_chain.order@[i] == old(self).node_chain.nodes@.len() + i,
            final(self).node_chain.head == final(self).node_chain.order@[0],
            forall|i: int| 0 <= i < leaves(modifier.inner).len()
                ==> (#[trigger] final(self).node_chain.nodes@[final(self).node_chain.order@[i] as int]).node_impl.kind_set
                    == leaf_kind_set(leaves(modifier.inner)[i]),
            final(self).node_chain.coordinators@[final(self).node_chain.outer_coordinator as int].wrapped_by == match old(self).node_chain.parent {
                Some(p) => Some(WrappedBy::ParentInner { layout_node: p }),
                None => None,
            },
            final(self).identify == old(self).identify,
            final(self).owner == old(self).owner,
            final(self).children@ == old(self).children@,
            final(self).node_chain.parent == old(self).node_chain.parent,
            final(self).layout_node_layout_delegate == old(self).layout_node_layout_delegate,
    {
        self.node_chain.update_from(modifier);
        self.layout_node_layout_delegate.update_parent_data();
    }

    /// The result of laying out at `width` by `height`: that size, with no
    /// placement block.
    pub fn layout(width: usize, height: usize) -> (r: MeasureResult)
        ensures
            r.width == width,
            r.height == height,
            r.placement_block is None,
    {
        MeasureResult { width, height, placement_block: None }
    }
}

/// Removing, with a count of one, the child just inserted at `index`
/// gives back the children as they were, by identity.
pub proof fn lemma_insert_then_remove(before: LayoutNode, inserted: LayoutNode, after: LayoutNode, index: int, id: u32)
    requires
        0 <= index <= before.children@.len(),
        ids(inserted.children@) == ids(before.children@).insert(index, id),
        ids(after.children@) == ids(inserted.children@).remove(index),
    ensures
        ids(after.children@) == ids(before.children@),
{
    assert(ids(before.children@).insert(index, id).remove(index) =~= ids(before.children@));
}

/// A subtree attached to one owner is attached throughout, so it can be
/// detached.
pub proof fn lemma_attached_to_is_fully_attached(node: LayoutNode, owner: u64)
    requires
        node.attached_to(owner),
    ensures
        node.fully_attached(),
    decreases node,
{
    assert forall|i: int| 0 <= i < node.children@.len() implies (#[trigger] node.children@[i]).fully_attached() by {
        assert(decreases_to!(node => node.children));
        assert(decreases_to!(node.children => node.children@));
        assert(decreases_to!(node.children@ => node.children@[i]));
        lemma_attached_to_is_fully_attached(node.children@[i], owner);
    }
}

} // verus!
