//! A layout node's chain of modifier nodes and the coordinators that
//! measure and place it.
//!
//! Nodes live in an arena and name each other by index: index 0 is the
//! sentinel used while the chain is rebuilt, index 1 the tail node owned by
//! the inner coordinator. Coordinators live in a second arena; index 0 is
//! the inner coordinator.

use vstd::prelude::*;
use crate::coordinator::{NodeCoordinatorImpl, WrappedBy};
use crate::placeable::LookaheadCapablePlaceable;
use crate::geometry::IntOffset;
use crate::modifier::{inners, leaves, Modifier, ModifierInternal};
use crate::modifier_node::{LayoutNodeContainer, ModifierNode, ModifierNodeImpl};
use crate::node_kind::{lemma_masks_disjoint, NodeKind};

verus! {

/// The arena index of the sentinel head node.
pub const SENTINEL: usize = 0;

/// The arena index of the tail node, the inner coordinator's own node.
pub const TAIL: usize = 1;

/// The arena index of the inner coordinator.
pub const INNER: usize = 0;

/// No index occurs twice in `o`.
pub open spec fn distinct(o: Seq<usize>) -> bool {
    forall|i: int, j: int| 0 <= i < o.len() && 0 <= j < o.len() && i != j ==> #[trigger] o[i] != #[trigger] o[j]
}

/// Each node's child is the next one in `o`.
pub open spec fn child_links(nodes: Seq<ModifierNode>, o: Seq<usize>) -> bool {
    forall|i: int| 0 <= i < o.len() - 1 ==> nodes[#[trigger] o[i] as int].node_impl.child == Some(o[i + 1])
}

/// Each node's parent is the one before it in `o`.
pub open spec fn parent_links(nodes: Seq<ModifierNode>, o: Seq<usize>) -> bool {
    forall|i: int| 0 < i < o.len() ==> nodes[#[trigger] o[i] as int].node_impl.parent == Some(o[i - 1])
}

/// `o` lists nodes of `nodes` that are linked one to the next: each node's
/// child is the next one and each node's parent the one before; the first
/// has no parent and the last no child.
pub open spec fn linked(nodes: Seq<ModifierNode>, o: Seq<usize>) -> bool {
    &&& o.len() >= 1
    &&& forall|i: int| 0 <= i < o.len() ==> (#[trigger] o[i]) < nodes.len()
    &&& distinct(o)
    &&& child_links(nodes, o)
    &&& parent_links(nodes, o)
    &&& nodes[o[0] as int].node_impl.parent is None
    &&& nodes[o.last() as int].node_impl.child is None
}

/// Whether a node's kind set holds the layout bit.
pub open spec fn is_layout_kind(kind: u32) -> bool {
    NodeKind::Layout.spec_mask() & kind != 0
}

/// The kinds the nodes an element leaf creates declare.
pub open spec fn leaf_node_kind(m: ModifierInternal) -> u32 {
    match m {
        ModifierInternal::ModifierNodeElement { node_kind, .. } => node_kind,
        _ => 0,
    }
}

/// The kind set the nodes an element leaf creates start with.
pub open spec fn leaf_kind_set(m: ModifierInternal) -> u32 {
    match m {
        ModifierInternal::ModifierNodeElement { kind_set, .. } => kind_set,
        _ => 0,
    }
}

/// The key of an element leaf.
pub open spec fn leaf_key(m: ModifierInternal) -> u64 {
    match m {
        ModifierInternal::ModifierNodeElement { key, .. } => key,
        _ => 0,
    }
}

/// Where drawing continues below a draw node.
#[derive(Debug, Clone, Copy, PartialEq, Eq, Structural)]
pub enum DrawStep {
    /// The next draw node in the chain.
    Node(usize),
    /// The coordinator that draws what lies below.
    Coordinator(usize),
}

/// What drawing a coordinator does.
#[derive(Debug, Clone, Copy, PartialEq, Eq, Structural)]
pub enum CoordinatorDraw {
    /// Its layer draws it.
    Layer,
    /// Moved by `offset`, its draw nodes draw, starting at `head`.
    Nodes { offset: IntOffset, head: usize },
    /// Moved by `offset`, the wrapped coordinator draws, if there is one.
    Wrapped { offset: IntOffset, wrapped: Option<usize> },
}

/// What hit testing at a coordinator does.
#[derive(Debug, Clone, Copy, PartialEq, Eq, Structural)]
pub enum HitTestStep {
    /// The pointer is outside the layer: only the minimum touch target may
    /// still count.
    OutsideLayer,
    /// No pointer-input node here: the children are tested.
    Children,
    /// The pointer is in bounds: this node is hit first.
    Hit(usize),
    /// The pointer is outside the measured bounds.
    Missed,
}

/// A layout node's modifier chain.
pub struct NodeChain {
    pub nodes: Vec<ModifierNode>,
    pub head: usize,
    pub modifier_container: LayoutNodeContainer,
    pub coordinators: Vec<NodeCoordinatorImpl>,
    pub outer_coordinator: usize,
    pub parent: Option<u32>,
    pub layout_node: Option<u32>,
    pub identify: u32,
    /// The nodes from head to tail.
    pub order: Ghost<Seq<usize>>,
}

impl NodeChain {
    pub open spec fn order(self) -> Seq<usize> {
        self.order@
    }

    pub open spec fn node(self, i: usize) -> ModifierNode {
        self.nodes@[i as int]
    }

    /// A coordinator's own node is in the chain and the coordinators it
    /// names are in the arena.
    pub open spec fn coordinator_in_range(self, c: NodeCoordinatorImpl) -> bool {
        &&& self.order@.contains(c.tail)
        &&& (c.wrapped matches Some(w) ==> w < self.coordinators@.len())
        &&& (c.wrapped_by matches Some(WrappedBy::Local { index }) ==> index < self.coordinators@.len())
    }

    pub open spec fn is_layout(self, n: usize) -> bool {
        is_layout_kind(self.nodes@[n as int].node_kind)
    }

    /// The links of the node arena: the sentinel stands apart, every other
    /// node is in the chain from `head` to `TAIL`, and the chain mirrors the
    /// flattened modifier it was built from.
    pub open spec fn links_wf(self) -> bool {
        let o = self.order@;
        &&& self.nodes@.len() == o.len() + 1
        &&& linked(self.nodes@, o)
        &&& forall|i: int| 0 <= i < o.len() ==> #[trigger] o[i] != SENTINEL
        &&& o[0] == self.head
        &&& o.last() == TAIL
        &&& self.nodes@[SENTINEL as int].node_impl.parent is None
        &&& self.nodes@[SENTINEL as int].node_impl.child is None
        &&& self.nodes@[TAIL as int].node_kind == NodeKind::Any.spec_mask()
        &&& self.coordinators@.len() >= 1
        &&& self.coordinators@[INNER as int].tail == TAIL
        &&& self.outer_coordinator < self.coordinators@.len()
        &&& forall|c: int| 0 <= c < self.coordinators@.len() ==> self.coordinator_in_range(#[trigger] self.coordinators@[c])
        &&& self.modifier_container.current@.len() + 1 == o.len()
        &&& forall|i: int| 0 <= i < self.modifier_container.current@.len() ==> {
            &&& (#[trigger] self.modifier_container.current@[i]).inner is ModifierNodeElement
            &&& self.nodes@[o[i] as int].node_kind == leaf_node_kind(self.modifier_container.current@[i].inner)
            &&& self.nodes@[o[i] as int].element == Some(leaf_key(self.modifier_container.current@[i].inner))
        }
    }

    /// The coordinator that serves position `k` of the chain: that of the
    /// first layout node at or after `k`, or the inner coordinator.
    pub open spec fn coordinator_below(self, k: int) -> usize
        decreases self.order@.len() - k,
    {
        if k >= self.order@.len() - 1 || k < 0 {
            INNER
        } else if self.is_layout(self.order@[k]) {
            match self.nodes@[self.order@[k] as int].node_impl.coordinator {
                Some(c) => c,
                None => INNER,
            }
        } else {
            self.coordinator_below(k + 1)
        }
    }

    /// Position `k` (not the tail) is tied to its coordinator: a layout node
    /// owns a coordinator of its own that wraps the one below it, and a
    /// node of another kind shares the coordinator below it.
    pub open spec fn position_synced(self, k: int) -> bool {
        let n = self.order@[k];
        let below = self.coordinator_below(k + 1);
        &&& below < self.coordinators@.len()
        &&& if self.is_layout(n) {
            match self.nodes@[n as int].node_impl.coordinator {
                Some(c) => {
                    &&& 0 < c < self.coordinators@.len()
                    &&& self.coordinators@[c as int].tail == n
                    &&& self.coordinators@[c as int].wrapped == Some(below)
                    &&& self.coordinators@[below as int].wrapped_by == Some(WrappedBy::Local { index: c })
                },
                None => false,
            }
        } else {
            self.nodes@[n as int].node_impl.coordinator == Some(below)
        }
    }

    /// Distinct layout nodes in positions `from..` own distinct coordinators.
    pub open spec fn layout_coordinators_distinct(self, from: int) -> bool {
        forall|p: int, q: int|
            from <= p < self.order@.len() - 1 && from <= q < self.order@.len() - 1 && p != q && self.is_layout(
                self.order@[p],
            ) && self.is_layout(self.order@[q]) ==> #[trigger] self.nodes@[self.order@[p] as int].node_impl.coordinator
                != #[trigger] self.nodes@[self.order@[q] as int].node_impl.coordinator
    }

    /// Every position is tied to its coordinator and the outermost
    /// coordinator is the one serving the head.
    pub open spec fn synced(self) -> bool {
        &&& forall|k: int| 0 <= k < self.order@.len() - 1 ==> #[trigger] self.position_synced(k)
        &&& self.layout_coordinators_distinct(0)
        &&& self.outer_coordinator == self.coordinator_below(0)
    }

    pub open spec fn wf(self) -> bool {
        self.links_wf() && self.synced()
    }
}

/// Everything but the link fields of a node.
pub open spec fn same_payload(a: ModifierNode, b: ModifierNode) -> bool {
    &&& a.node_kind == b.node_kind
    &&& a.element == b.element
    &&& a.node_impl.coordinator == b.node_impl.coordinator
    &&& a.node_impl.aggregate_child_kind_set == b.node_impl.aggregate_child_kind_set
    &&& a.node_impl.kind_set == b.node_impl.kind_set
    &&& a.node_impl.is_attach == b.node_impl.is_attach
}

proof fn lemma_insert_distinct(q: Seq<usize>, k: int, node: usize)
    requires
        distinct(q),
        0 <= k < q.len(),
        forall|i: int| 0 <= i < q.len() ==> #[trigger] q[i] != node,
    ensures
        distinct(q.insert(k + 1, node)),
{
    let q2 = q.insert(k + 1, node);
    assert forall|i: int, j: int| 0 <= i < q2.len() && 0 <= j < q2.len() && i != j implies #[trigger] q2[i] != #[trigger] q2[j] by {
        if i != k + 1 && j != k + 1 {
            let ii = if i < k + 1 { i } else { i - 1 };
            let jj = if j < k + 1 { j } else { j - 1 };
            assert(q2[i] == q[ii]);
            assert(q2[j] == q[jj]);
        } else if i == k + 1 {
            let jj = if j < k + 1 { j } else { j - 1 };
            assert(q2[j] == q[jj]);
        } else {
            let ii = if i < k + 1 { i } else { i - 1 };
            assert(q2[i] == q[ii]);
        }
    }
}

/// The link fields of `nodes` are those of `old_nodes` after linking the
/// detached `node` right after `q[k]`.
pub open spec fn insert_links(old_nodes: Seq<ModifierNode>, nodes: Seq<ModifierNode>, q: Seq<usize>, k: int, node: usize) -> bool {
    &&& nodes.len() == old_nodes.len()
    &&& nodes[q[k] as int].node_impl.child == Some(node)
    &&& nodes[q[k] as int].node_impl.parent == old_nodes[q[k] as int].node_impl.parent
    &&& nodes[node as int].node_impl.parent == Some(q[k])
    &&& nodes[node as int].node_impl.child == old_nodes[q[k] as int].node_impl.child
    &&& (k + 1 < q.len() ==> nodes[q[k + 1] as int].node_impl.parent == Some(node))
    &&& (k + 1 < q.len() ==> nodes[q[k + 1] as int].node_impl.child == old_nodes[q[k + 1] as int].node_impl.child)
    &&& forall|i: int|
        0 <= i < nodes.len() && i != node && i != q[k] && (k + 1 < q.len() ==> i != q[k + 1])
            ==> (#[trigger] nodes[i]).node_impl.parent == old_nodes[i].node_impl.parent && nodes[i].node_impl.child
            == old_nodes[i].node_impl.child
}

proof fn lemma_insert_children(old_nodes: Seq<ModifierNode>, nodes: Seq<ModifierNode>, q: Seq<usize>, k: int, node: usize)
    requires
        child_links(old_nodes, q),
        distinct(q),
        0 <= k < q.len(),
        forall|i: int| 0 <= i < q.len() ==> #[trigger] q[i] != node,
        forall|i: int| 0 <= i < q.len() ==> (#[trigger] q[i]) < nodes.len(),
        node < nodes.len(),
        insert_links(old_nodes, nodes, q, k, node),
    ensures
        child_links(nodes, q.insert(k + 1, node)),
{
    let q2 = q.insert(k + 1, node);
    assert forall|i: int| 0 <= i < q2.len() - 1 implies nodes[#[trigger] q2[i] as int].node_impl.child == Some(q2[i + 1]) by {
        if i < k {
            assert(q2[i] == q[i]);
            assert(q2[i + 1] == q[i + 1]);
            assert(q[i] != q[k]);
            if k + 1 < q.len() {
                assert(q[i] != q[k + 1]);
            }
            assert(old_nodes[q[i] as int].node_impl.child == Some(q[i + 1]));
        } else if i == k {
        } else if i == k + 1 {
            if k + 1 < q.len() {
                assert(q2[i + 1] == q[k + 1]);
                assert(old_nodes[q[k] as int].node_impl.child == Some(q[k + 1]));
            }
        } else {
            assert(q2[i] == q[i - 1]);
            assert(q2[i + 1] == q[i]);
            assert(q[i - 1] != q[k]);
            assert(old_nodes[q[i - 1] as int].node_impl.child == Some(q[i]));
        }
    }
}

proof fn lemma_insert_parents(old_nodes: Seq<ModifierNode>, nodes: Seq<ModifierNode>, q: Seq<usize>, k: int, node: usize)
    requires
        parent_links(old_nodes, q),
        distinct(q),
        0 <= k < q.len(),
        forall|i: int| 0 <= i < q.len() ==> #[trigger] q[i] != node,
        forall|i: int| 0 <= i < q.len() ==> (#[trigger] q[i]) < nodes.len(),
        node < nodes.len(),
        insert_links(old_nodes, nodes, q, k, node),
    ensures
        parent_links(nodes, q.insert(k + 1, node)),
{
    let q2 = q.insert(k + 1, node);
    assert forall|i: int| 0 < i < q2.len() implies nodes[#[trigger] q2[i] as int].node_impl.parent == Some(q2[i - 1]) by {
        if i < k {
            assert(q2[i] == q[i]);
            assert(q2[i - 1] == q[i - 1]);
            assert(q[i] != q[k]);
            if k + 1 < q.len() {
                assert(q[i] != q[k + 1]);
            }
            assert(old_nodes[q[i] as int].node_impl.parent == Some(q[i - 1]));
        } else if i == k {
            assert(q2[i] == q[k]);
            assert(q2[i - 1] == q[k - 1]);
            assert(old_nodes[q[k] as int].node_impl.parent == Some(q[k - 1]));
        } else if i == k + 1 {
        } else if i == k + 2 {
            assert(q2[i] == q[k + 1]);
        } else {
            assert(q2[i] == q[i - 1]);
            assert(q2[i - 1] == q[i - 2]);
            assert(q[i - 1] != q[k]);
            assert(q[i - 1] != q[k + 1]);
            assert(old_nodes[q[i - 1] as int].node_impl.parent == Some(q[i - 2]));
        }
    }
}

/// Linking a detached node after position `k` of a linked list yields the
/// list with the node inserted there.
proof fn lemma_insert_linked(old_nodes: Seq<ModifierNode>, nodes: Seq<ModifierNode>, q: Seq<usize>, k: int, node: usize)
    requires
        linked(old_nodes, q),
        0 <= k < q.len(),
        node < old_nodes.len(),
        forall|i: int| 0 <= i < q.len() ==> #[trigger] q[i] != node,
        old_nodes[node as int].node_impl.parent is None,
        old_nodes[node as int].node_impl.child is None,
        insert_links(old_nodes, nodes, q, k, node),
    ensures
        linked(nodes, q.insert(k + 1, node)),
{
    let q2 = q.insert(k + 1, node);
    lemma_insert_distinct(q, k, node);
    lemma_insert_children(old_nodes, nodes, q, k, node);
    lemma_insert_parents(old_nodes, nodes, q, k, node);
    assert forall|i: int| 0 <= i < q2.len() implies (#[trigger] q2[i]) < nodes.len() by {
        if i > k + 1 {
            assert(q2[i] == q[i - 1]);
        } else if i < k + 1 {
            assert(q2[i] == q[i]);
        }
    }
    if k == 0 {
        assert(q2[0] == q[k]);
    } else {
        assert(q2[0] == q[0]);
        assert(q[0] != q[k]);
        if k + 1 < q.len() {
            assert(q[0] != q[k + 1]);
        }
    }
    if k + 1 == q.len() {
        assert(q2.last() == node);
    } else {
        assert(q2.last() == q.last());
        assert(q.last() != q[k]);
        if k + 2 < q.len() {
            assert(q.last() != q[k + 1]);
        }
    }
}

/// Two arenas that link the same list agree on the links of its nodes.
pub proof fn lemma_linked_determines_links(a: Seq<ModifierNode>, b: Seq<ModifierNode>, q: Seq<usize>)
    requires
        linked(a, q),
        linked(b, q),
    ensures
        forall|i: int| 0 <= i < q.len() ==> {
            &&& (#[trigger] a[q[i] as int]).node_impl.parent == b[q[i] as int].node_impl.parent
            &&& a[q[i] as int].node_impl.child == b[q[i] as int].node_impl.child
        },
{
    assert forall|i: int| 0 <= i < q.len() implies {
        &&& (#[trigger] a[q[i] as int]).node_impl.parent == b[q[i] as int].node_impl.parent
        &&& a[q[i] as int].node_impl.child == b[q[i] as int].node_impl.child
    } by {
        if i > 0 {
            assert(a[q[i] as int].node_impl.parent == Some(q[i - 1]));
            assert(b[q[i] as int].node_impl.parent == Some(q[i - 1]));
        }
        if i < q.len() - 1 {
            assert(a[q[i] as int].node_impl.child == Some(q[i + 1]));
            assert(b[q[i] as int].node_impl.child == Some(q[i + 1]));
        }
    }
}

/// Splicing a detached node in after `q[k]` of a linked list: the node
/// sits between `q[k]` and what was `q[k]`'s child, linked both ways.
pub proof fn lemma_insert_child_splices(old_nodes: Seq<ModifierNode>, nodes: Seq<ModifierNode>, q: Seq<usize>, k: int, node: usize)
    requires
        linked(old_nodes, q),
        linked(nodes, q.insert(k + 1, node)),
        0 <= k < q.len(),
    ensures
        nodes[q[k] as int].node_impl.child == Some(node),
        nodes[node as int].node_impl.parent == Some(q[k]),
        nodes[node as int].node_impl.child == old_nodes[q[k] as int].node_impl.child,
        old_nodes[q[k] as int].node_impl.child matches Some(c) ==> nodes[c as int].node_impl.parent == Some(node),
{
    let q2 = q.insert(k + 1, node);
    assert(q2[k] == q[k]);
    assert(q2[k + 1] == node);
    if k + 1 < q.len() {
        assert(q2[k + 2] == q[k + 1]);
        assert(old_nodes[q[k] as int].node_impl.child == Some(q[k + 1]));
    } else {
        assert(q2.last() == node);
        assert(q.last() == q[k]);
    }
}

impl NodeChain {
    /// Padding the chain with the sentinel and trimming it off again gives
    /// the chain back: the same head, every chain node as it was, and the
    /// sentinel unlinked again.
    pub proof fn lemma_pad_then_trim(before: NodeChain, padded: NodeChain, trimmed: NodeChain, head: usize)
        requires
            before.links_wf(),
            linked(padded.nodes@, seq![SENTINEL] + before.order@),
            padded.nodes@.len() == before.nodes@.len(),
            forall|i: int| 0 <= i < before.nodes@.len() ==> same_payload(#[trigger] padded.nodes@[i], before.nodes@[i]),
            padded.same_but_nodes(before),
            head == before.order@[0],
            linked(trimmed.nodes@, before.order@),
            trimmed.nodes@.len() == padded.nodes@.len(),
            trimmed.nodes@[SENTINEL as int].node_impl.parent is None,
            trimmed.nodes@[SENTINEL as int].node_impl.child is None,
            forall|i: int| 0 <= i < padded.nodes@.len() && i != SENTINEL ==> same_payload(#[trigger] trimmed.nodes@[i], padded.nodes@[i]),
            trimmed.nodes@[SENTINEL as int].node_kind == padded.nodes@[SENTINEL as int].node_kind,
            trimmed.same_but_nodes(padded),
        ensures
            head == before.head,
            forall|p: int| 0 <= p < before.order@.len() ==> #[trigger] trimmed.nodes@[before.order@[p] as int] == before.nodes@[before.order@[p] as int],
            trimmed.nodes@[SENTINEL as int].node_kind == before.nodes@[SENTINEL as int].node_kind,
            trimmed.same_but_nodes(before),
            trimmed.links_wf(),
    {
        let o = before.order@;
        lemma_linked_determines_links(trimmed.nodes@, before.nodes@, o);
        assert forall|p: int| 0 <= p < o.len() implies #[trigger] trimmed.nodes@[o[p] as int] == before.nodes@[o[p] as int] by {
            assert(o[p] != SENTINEL);
            assert(same_payload(trimmed.nodes@[o[p] as int], padded.nodes@[o[p] as int]));
            assert(same_payload(padded.nodes@[o[p] as int], before.nodes@[o[p] as int]));
        }
        assert(same_payload(padded.nodes@[SENTINEL as int], before.nodes@[SENTINEL as int]));
        assert forall|i: int| 0 <= i < trimmed.modifier_container.current@.len() implies {
            &&& (#[trigger] trimmed.modifier_container.current@[i]).inner is ModifierNodeElement
            &&& trimmed.nodes@[o[i] as int].node_kind == leaf_node_kind(trimmed.modifier_container.current@[i].inner)
            &&& trimmed.nodes@[o[i] as int].element == Some(leaf_key(trimmed.modifier_container.current@[i].inner))
        } by {
            assert(trimmed.nodes@[o[i] as int] == before.nodes@[o[i] as int]);
        }
        assert(o.last() == o[o.len() - 1]);
        assert(trimmed.nodes@[o[o.len() - 1] as int] == before.nodes@[o[o.len() - 1] as int]);
        assert forall|c: int| 0 <= c < trimmed.coordinators@.len() implies trimmed.coordinator_in_range(#[trigger] trimmed.coordinators@[c]) by {
            assert(before.coordinator_in_range(before.coordinators@[c]));
        }
    }
}

/// A modifier tree has at least one leaf.
pub proof fn lemma_leaves_nonempty(m: ModifierInternal)
    ensures
        leaves(m).len() >= 1,
    decreases m,
{
    match m {
        ModifierInternal::Combined { left, right } => {
            lemma_leaves_nonempty(*left);
        },
        _ => {},
    }
}

impl NodeChain {
    /// All fields but the node arena are those of `other`.
    pub open spec fn same_but_nodes(self, other: NodeChain) -> bool {
        &&& self.head == other.head
        &&& self.modifier_container.current@ == other.modifier_container.current@
        &&& self.coordinators@ == other.coordinators@
        &&& self.outer_coordinator == other.outer_coordinator
        &&& self.parent == other.parent
        &&& self.layout_node == other.layout_node
        &&& self.identify == other.identify
        &&& self.order@ == other.order@
    }

    /// All fields but the coordinator arena and the outer coordinator are
    /// those of `other`.
    pub open spec fn same_but_coordinators(self, other: NodeChain) -> bool {
        &&& self.head == other.head
        &&& self.modifier_container.current@ == other.modifier_container.current@
        &&& self.nodes@ == other.nodes@
        &&& self.parent == other.parent
        &&& self.layout_node == other.layout_node
        &&& self.identify == other.identify
        &&& self.order@ == other.order@
    }

    /// A chain with no modifier: the tail node alone, served by the inner
    /// coordinator.
    pub fn new() -> (c: NodeChain)
        ensures
            c.wf(),
            c.order() == seq![TAIL],
            c.head == TAIL,
            c.outer_coordinator == INNER,
            c.coordinators@.len() == 1,
            c.coordinators@[INNER as int].wrapped is None,
            c.coordinators@[INNER as int].wrapped_by is None,
            c.modifier_container.current@.len() == 0,
            c.parent is None,
            c.layout_node is None,
            c.identify == 0,
    {
        let mut nodes: Vec<ModifierNode> = Vec::new();
        nodes.push(ModifierNode::any_node());
        nodes.push(ModifierNode::any_node());
        let mut coordinators: Vec<NodeCoordinatorImpl> = Vec::new();
        coordinators.push(NodeCoordinatorImpl::new(TAIL));
        let ghost o: Seq<usize> = seq![TAIL];
        let c = NodeChain {
            nodes,
            head: TAIL,
            modifier_container: LayoutNodeContainer::new(),
            coordinators,
            outer_coordinator: INNER,
            parent: None,
            layout_node: None,
            identify: 0,
            order: Ghost(o),
        };
        proof {
            assert(c.order@.last() == TAIL);
        }
        c
    }

    pub fn set_parent(&mut self, parent: Option<u32>)
        ensures
            old(self).wf() ==> final(self).wf(),
            final(self).parent == parent,
            final(self).nodes@ == old(self).nodes@,
            final(self).coordinators@ == old(self).coordinators@,
            final(self).head == old(self).head,
            final(self).outer_coordinator == old(self).outer_coordinator,
            final(self).modifier_container.current@ == old(self).modifier_container.current@,
            final(self).layout_node == old(self).layout_node,
            final(self).identify == old(self).identify,
            final(self).order@ == old(self).order@,
    {
        self.parent = parent;
        proof {
            if old(self).wf() {
                self.lemma_below_same_nodes(*old(self), 0);
                assert forall|k: int| 0 <= k < self.order@.len() - 1 implies #[trigger] self.position_synced(k) by {
                    self.lemma_below_same_nodes(*old(self), k + 1);
                    assert(old(self).position_synced(k));
                }
                assert forall|c: int| 0 <= c < self.coordinators@.len() implies self.coordinator_in_range(#[trigger] self.coordinators@[c]) by {
                    assert(old(self).coordinator_in_range(old(self).coordinators@[c]));
                }
            }
        }
    }

    pub fn get_parent(&self) -> (p: Option<u32>)
        ensures
            p == self.parent,
    {
        self.parent
    }

    /// Ties the chain and its inner coordinator to the layout node `identify`.
    pub fn attach(&mut self, identify: u32)
        requires
            old(self).wf(),
        ensures
            final(self).wf(),
            final(self).identify == identify,
            final(self).layout_node == Some(identify),
            final(self).coordinators@[INNER as int].layout_node == Some(identify),
            final(self).coordinators@.len() == old(self).coordinators@.len(),
            forall|c: int| 0 <= c < old(self).coordinators@.len() ==> {
                &&& (#[trigger] final(self).coordinators@[c]).wrapped == old(self).coordinators@[c].wrapped
                &&& final(self).coordinators@[c].wrapped_by == old(self).coordinators@[c].wrapped_by
                &&& final(self).coordinators@[c].tail == old(self).coordinators@[c].tail
            },
            final(self).nodes@ == old(self).nodes@,
            final(self).head == old(self).head,
            final(self).outer_coordinator == old(self).outer_coordinator,
            final(self).modifier_container.current@ == old(self).modifier_container.current@,
            final(self).parent == old(self).parent,
            final(self).order@ == old(self).order@,
    {
        self.identify = identify;
        self.layout_node = Some(identify);
        let mut inner = self.coordinators[INNER];
        inner.attach(identify);
        self.coordinators.set(INNER, inner);
        proof {
            assert forall|c: int| 0 <= c < self.coordinators@.len() implies {
                &&& (#[trigger] self.coordinators@[c]).tail == old(self).coordinators@[c].tail
                &&& self.coordinators@[c].wrapped == old(self).coordinators@[c].wrapped
                &&& self.coordinators@[c].wrapped_by == old(self).coordinators@[c].wrapped_by
            } by {}
            self.lemma_below_same_nodes(*old(self), 0);
            assert forall|k: int| 0 <= k < self.order@.len() - 1 implies #[trigger] self.position_synced(k) by {
                self.lemma_below_same_nodes(*old(self), k + 1);
                assert(old(self).position_synced(k));
                let n = self.order@[k];
                let below = self.coordinator_below(k + 1);
                assert(below == old(self).coordinator_below(k + 1));
                assert(self.coordinators@[below as int].wrapped_by == old(self).coordinators@[below as int].wrapped_by);
                match self.nodes@[n as int].node_impl.coordinator {
                    Some(c) => {
                        if self.is_layout(n) {
                            assert(self.coordinators@[c as int].tail == old(self).coordinators@[c as int].tail);
                            assert(self.coordinators@[c as int].wrapped == old(self).coordinators@[c as int].wrapped);
                        }
                    },
                    None => {},
                }
            }
        }
    }

    /// `coordinator_below` reads only the nodes and the order.
    proof fn lemma_below_same_nodes(self, other: NodeChain, k: int)
        requires
            self.nodes@ == other.nodes@,
            self.order@ == other.order@,
        ensures
            self.coordinator_below(k) == other.coordinator_below(k),
        decreases self.order@.len() - k,
    {
        if k >= self.order@.len() - 1 || k < 0 {
        } else {
            self.lemma_below_same_nodes(other, k + 1);
        }
    }

    fn set_node_parent(&mut self, i: usize, parent: Option<usize>)
        requires
            i < old(self).nodes@.len(),
        ensures
            final(self).nodes@ == old(self).nodes@.update(
                i as int,
                ModifierNode {
                    node_impl: ModifierNodeImpl { parent, ..old(self).nodes@[i as int].node_impl },
                    ..old(self).nodes@[i as int]
                },
            ),
            final(self).same_but_nodes(*old(self)),
    {
        let mut n = self.nodes[i];
        n.node_impl.set_parent(parent);
        self.nodes.set(i, n);
    }

    fn set_node_child(&mut self, i: usize, child: Option<usize>)
        requires
            i < old(self).nodes@.len(),
        ensures
            final(self).nodes@ == old(self).nodes@.update(
                i as int,
                ModifierNode {
                    node_impl: ModifierNodeImpl { child, ..old(self).nodes@[i as int].node_impl },
                    ..old(self).nodes@[i as int]
                },
            ),
            final(self).same_but_nodes(*old(self)),
    {
        let mut n = self.nodes[i];
        n.node_impl.set_child(child);
        self.nodes.set(i, n);
    }

    fn set_node_coordinator(&mut self, i: usize, coordinator: Option<usize>)
        requires
            i < old(self).nodes@.len(),
        ensures
            final(self).nodes@ == old(self).nodes@.update(
                i as int,
                ModifierNode {
                    node_impl: ModifierNodeImpl { coordinator, ..old(self).nodes@[i as int].node_impl },
                    ..old(self).nodes@[i as int]
                },
            ),
            final(self).same_but_nodes(*old(self)),
    {
        let mut n = self.nodes[i];
        n.node_impl.update_coordinator(coordinator);
        self.nodes.set(i, n);
    }

    /// Links the sentinel in front of the head and returns it.
    fn pad_chain(&mut self) -> (r: usize)
        requires
            old(self).links_wf(),
        ensures
            r == SENTINEL,
            linked(final(self).nodes@, seq![SENTINEL] + old(self).order@),
            final(self).nodes@.len() == old(self).nodes@.len(),
            forall|i: int| 0 <= i < old(self).nodes@.len() ==> same_payload(#[trigger] final(self).nodes@[i], old(self).nodes@[i]),
            final(self).same_but_nodes(*old(self)),
    {
        let current_head = self.head;
        self.set_node_parent(current_head, Some(SENTINEL));
        self.set_node_child(SENTINEL, Some(current_head));
        proof {
            let o = old(self).order@;
            let q = seq![SENTINEL] + o;
            assert forall|i: int| 0 < i < q.len() implies self.nodes@[#[trigger] q[i] as int].node_impl.parent == Some(q[i - 1]) by {
                assert(q[i] == o[i - 1]);
                if i > 1 {
                    assert(q[i - 1] == o[i - 2]);
                    assert(o[i - 1] != o[0]);
                }
            }
            assert forall|i: int| 0 <= i < q.len() - 1 implies self.nodes@[#[trigger] q[i] as int].node_impl.child == Some(q[i + 1]) by {
                if i > 0 {
                    assert(q[i] == o[i - 1]);
                    assert(q[i + 1] == o[i]);
                }
            }
            assert forall|i: int, j: int| 0 <= i < q.len() && 0 <= j < q.len() && i != j implies #[trigger] q[i] != #[trigger] q[j] by {
                if i > 0 && j > 0 {
                    assert(q[i] == o[i - 1]);
                    assert(q[j] == o[j - 1]);
                } else if i > 0 {
                    assert(q[i] == o[i - 1]);
                } else if j > 0 {
                    assert(q[j] == o[j - 1]);
                }
            }
            assert(q.last() == o.last());
        }
        SENTINEL
    }

    /// Links the detached node `node` right after `parent`, which stands at
    /// position `k` of the linked list `q`.
    fn insert_child(&mut self, node: usize, parent: usize, Ghost(q): Ghost<Seq<usize>>, Ghost(k): Ghost<int>) -> (r: usize)
        requires
            linked(old(self).nodes@, q),
            0 <= k < q.len(),
            q[k] == parent,
            node < old(self).nodes@.len(),
            forall|i: int| 0 <= i < q.len() ==> #[trigger] q[i] != node,
            old(self).nodes@[node as int].node_impl.parent is None,
            old(self).nodes@[node as int].node_impl.child is None,
        ensures
            r == node,
            linked(final(self).nodes@, q.insert(k + 1, node)),
            final(self).nodes@.len() == old(self).nodes@.len(),
            forall|i: int| 0 <= i < old(self).nodes@.len() ==> same_payload(#[trigger] final(self).nodes@[i], old(self).nodes@[i]),
            forall|i: int|
                0 <= i < old(self).nodes@.len() && i != node && i != parent && (k + 1 < q.len() ==> i != q[k + 1])
                    ==> #[trigger] final(self).nodes@[i] == old(self).nodes@[i],
            final(self).same_but_nodes(*old(self)),
    {
        let the_child = self.nodes[parent].node_impl.get_child();
        match the_child {
            Some(c) => {
                self.set_node_parent(c, Some(node));
                self.set_node_child(node, Some(c));
            },
            None => {},
        }
        self.set_node_child(parent, Some(node));
        self.set_node_parent(node, Some(parent));
        proof {
            assert(insert_links(old(self).nodes@, self.nodes@, q, k, node));
            lemma_insert_linked(old(self).nodes@, self.nodes@, q, k, node);
        }
        node
    }


    fn set_coordinator_wrapped(&mut self, c: usize, wrapped: Option<usize>)
        requires
            c < old(self).coordinators@.len(),
        ensures
            final(self).coordinators@ == old(self).coordinators@.update(
                c as int,
                NodeCoordinatorImpl { wrapped, ..old(self).coordinators@[c as int] },
            ),
            final(self).same_but_coordinators(*old(self)),
            final(self).outer_coordinator == old(self).outer_coordinator,
    {
        let mut co = self.coordinators[c];
        co.set_wrapped(wrapped);
        self.coordinators.set(c, co);
    }

    fn set_coordinator_wrapped_by(&mut self, c: usize, wrapped_by: Option<WrappedBy>)
        requires
            c < old(self).coordinators@.len(),
        ensures
            final(self).coordinators@ == old(self).coordinators@.update(
                c as int,
                NodeCoordinatorImpl { wrapped_by, ..old(self).coordinators@[c as int] },
            ),
            final(self).same_but_coordinators(*old(self)),
            final(self).outer_coordinator == old(self).outer_coordinator,
    {
        let mut co = self.coordinators[c];
        co.set_wrapped_by(wrapped_by);
        self.coordinators.set(c, co);
    }

    /// Makes `node` the own node of coordinator `c`.
    fn set_coordinator_tail(&mut self, c: usize, node: usize)
        requires
            c < old(self).coordinators@.len(),
        ensures
            final(self).coordinators@ == old(self).coordinators@.update(
                c as int,
                NodeCoordinatorImpl { tail: node, ..old(self).coordinators@[c as int] },
            ),
            final(self).same_but_coordinators(*old(self)),
            final(self).outer_coordinator == old(self).outer_coordinator,
    {
        let mut co = self.coordinators[c];
        co.tail = node;
        self.coordinators.set(c, co);
    }

    /// The tail node: the inner coordinator's own node.
    pub fn get_tail(&self) -> (t: usize)
        requires
            self.links_wf(),
        ensures
            t == TAIL,
    {
        self.coordinators[INNER].get_tail()
    }

    /// Whether a node takes part in layout, so that it gets a coordinator of
    /// its own.
    pub fn node_as_layout_modifier_node(&self, n: usize) -> (b: bool)
        requires
            n < self.nodes@.len(),
        ensures
            b == self.is_layout(n),
    {
        NodeKind::Layout.bitand(self.nodes[n].node_kind) != 0
    }

    /// Makes the node that the element `element` describes and links it
    /// right after `parent`, which stands at position `k` of `q`.
    fn create_and_insert_node_as_child(
        &mut self,
        element: &Modifier,
        parent: usize,
        Ghost(q): Ghost<Seq<usize>>,
        Ghost(k): Ghost<int>,
    ) -> (r: usize)
        requires
            element.inner is ModifierNodeElement,
            linked(old(self).nodes@, q),
            0 <= k < q.len(),
            q[k] == parent,
            forall|i: int| 0 <= i < q.len() ==> #[trigger] q[i] < old(self).nodes@.len(),
            old(self).nodes@.len() < usize::MAX,
        ensures
            r == old(self).nodes@.len(),
            final(self).nodes@.len() == old(self).nodes@.len() + 1,
            linked(final(self).nodes@, q.insert(k + 1, r)),
            forall|i: int| 0 <= i < old(self).nodes@.len() ==> same_payload(#[trigger] final(self).nodes@[i], old(self).nodes@[i]),
            final(self).nodes@[r as int].node_kind == leaf_node_kind(element.inner),
            final(self).nodes@[r as int].element == Some(leaf_key(element.inner)),
            final(self).nodes@[r as int].node_impl.coordinator is None,
            final(self).nodes@[r as int].node_impl.kind_set == leaf_kind_set(element.inner),
            final(self).same_but_nodes(*old(self)),
    {
        let node = match element.inner {
            ModifierInternal::ModifierNodeElement { key, node_kind, kind_set } => ModifierNode {
                node_kind,
                element: Some(key),
                node_impl: ModifierNodeImpl { kind_set, ..ModifierNodeImpl::default() },
            },
            _ => {
                proof {
                    assert(false);
                }
                ModifierNode::any_node()
            },
        };
        let index = self.nodes.len();
        self.nodes.push(node);
        proof {
            assert forall|i: int| 0 <= i < q.len() implies #[trigger] q[i] != index by {}
            assert(linked(self.nodes@, q)) by {
                assert forall|i: int| 0 <= i < q.len() - 1 implies self.nodes@[#[trigger] q[i] as int].node_impl.child == Some(q[i + 1]) by {
                    assert(self.nodes@[q[i] as int] == old(self).nodes@[q[i] as int]);
                }
                assert forall|i: int| 0 < i < q.len() implies self.nodes@[#[trigger] q[i] as int].node_impl.parent == Some(q[i - 1]) by {
                    assert(self.nodes@[q[i] as int] == old(self).nodes@[q[i] as int]);
                }
            }
        }
        self.insert_child(index, parent, Ghost(q), Ghost(k))
    }

    /// Unlinks the sentinel from the front of the chain and returns the new
    /// head.
    fn trim_chain(&mut self, padded_head: usize, Ghost(q): Ghost<Seq<usize>>) -> (r: usize)
        requires
            padded_head == SENTINEL,
            linked(old(self).nodes@, seq![SENTINEL] + q),
            q.len() >= 1,
        ensures
            r == q[0],
            linked(final(self).nodes@, q),
            final(self).nodes@.len() == old(self).nodes@.len(),
            final(self).nodes@[SENTINEL as int].node_impl.parent is None,
            final(self).nodes@[SENTINEL as int].node_impl.child is None,
            final(self).nodes@[SENTINEL as int].node_impl.coordinator is None,
            forall|i: int| 0 <= i < old(self).nodes@.len() && i != SENTINEL ==> same_payload(#[trigger] final(self).nodes@[i], old(self).nodes@[i]),
            final(self).nodes@[SENTINEL as int].node_kind == old(self).nodes@[SENTINEL as int].node_kind,
            final(self).same_but_nodes(*old(self)),
    {
        let ghost p = seq![SENTINEL] + q;
        proof {
            assert(p[0] == SENTINEL);
            assert(p[1] == q[0]);
            assert(old(self).nodes@[p[0] as int].node_impl.child == Some(p[1]));
        }
        let first = self.nodes[SENTINEL].node_impl.get_child();
        let result = match first {
            Some(c) => c,
            None => self.coordinators[INNER].get_tail(),
        };
        self.set_node_parent(result, None);
        self.set_node_child(SENTINEL, None);
        self.set_node_coordinator(SENTINEL, None);
        proof {
            assert forall|i: int| 0 <= i < q.len() implies #[trigger] q[i] != SENTINEL by {
                assert(p[i + 1] == q[i]);
                assert(p[0] != p[i + 1]);
            }
            assert forall|i: int| 0 <= i < q.len() implies (#[trigger] q[i]) < self.nodes@.len() by {
                assert(p[i + 1] == q[i]);
            }
            assert(distinct(q)) by {
                assert forall|i: int, j: int| 0 <= i < q.len() && 0 <= j < q.len() && i != j implies #[trigger] q[i] != #[trigger] q[j] by {
                    assert(p[i + 1] == q[i]);
                    assert(p[j + 1] == q[j]);
                }
            }
            assert forall|i: int| 0 <= i < q.len() - 1 implies self.nodes@[#[trigger] q[i] as int].node_impl.child == Some(q[i + 1]) by {
                assert(p[i + 1] == q[i]);
                assert(p[i + 2] == q[i + 1]);
            }
            assert forall|i: int| 0 < i < q.len() implies self.nodes@[#[trigger] q[i] as int].node_impl.parent == Some(q[i - 1]) by {
                assert(p[i + 1] == q[i]);
                assert(p[i] == q[i - 1]);
                assert(q[i] != q[0]);
            }
            assert(p.last() == q.last());
            if q.len() > 1 {
                assert(q.last() != q[0]);
            }
        }
        result
    }

    /// `coordinator_below(j)` reads only positions `j..`.
    proof fn lemma_below_frame(self, other: NodeChain, j: int)
        requires
            self.order@ == other.order@,
            self.nodes@.len() == other.nodes@.len(),
            forall|p: int| j <= p < self.order@.len() - 1 ==> {
                &&& (#[trigger] self.nodes@[self.order@[p] as int]).node_kind == other.nodes@[self.order@[p] as int].node_kind
                &&& self.nodes@[self.order@[p] as int].node_impl.coordinator == other.nodes@[self.order@[p] as int].node_impl.coordinator
            },
        ensures
            self.coordinator_below(j) == other.coordinator_below(j),
        decreases self.order@.len() - j,
    {
        if j >= self.order@.len() - 1 || j < 0 {
        } else {
            assert(self.nodes@[self.order@[j] as int].node_kind == other.nodes@[self.order@[j] as int].node_kind);
            self.lemma_below_frame(other, j + 1);
        }
    }

    /// The coordinator below position `j` is that of the first layout node
    /// at or after `j`, or the inner coordinator when there is none.
    proof fn lemma_below_shape(self, j: int)
        requires
            0 <= j,
            forall|r: int|
                j <= r < self.order@.len() - 1 && self.is_layout(#[trigger] self.order@[r]) ==> self.nodes@[self.order@[r] as int].node_impl.coordinator is Some,
        ensures
            (self.coordinator_below(j) == INNER && forall|r: int| j <= r < self.order@.len() - 1 ==> !self.is_layout(#[trigger] self.order@[r]))
                || exists|q: int| {
                    &&& j <= q < self.order@.len() - 1
                    &&& self.is_layout(#[trigger] self.order@[q])
                    &&& self.nodes@[self.order@[q] as int].node_impl.coordinator == Some(self.coordinator_below(j))
                    &&& forall|r: int| j <= r < q ==> !self.is_layout(#[trigger] self.order@[r])
                },
        decreases self.order@.len() - j,
    {
        if j >= self.order@.len() - 1 {
        } else if self.is_layout(self.order@[j]) {
            assert(self.nodes@[self.order@[j] as int].node_impl.coordinator is Some);
        } else {
            self.lemma_below_shape(j + 1);
            if self.coordinator_below(j + 1) == INNER && forall|r: int| j + 1 <= r < self.order@.len() - 1 ==> !self.is_layout(#[trigger] self.order@[r]) {
            } else {
                let q = choose|q: int| {
                    &&& j + 1 <= q < self.order@.len() - 1
                    &&& self.is_layout(#[trigger] self.order@[q])
                    &&& self.nodes@[self.order@[q] as int].node_impl.coordinator == Some(self.coordinator_below(j + 1))
                    &&& forall|r: int| j + 1 <= r < q ==> !self.is_layout(#[trigger] self.order@[r])
                };
                assert(forall|r: int| j <= r < q ==> !self.is_layout(#[trigger] self.order@[r]));
            }
        }
    }

    /// The layout nodes of the chain that already own a coordinator own
    /// distinct ones, none of them the inner coordinator, all in the arena.
    pub open spec fn owned_coordinators_valid(self) -> bool {
        let o = self.order@;
        &&& forall|p: int|
            0 <= p < o.len() - 1 && self.is_layout(o[p]) && (#[trigger] self.nodes@[o[p] as int]).node_impl.coordinator is Some
                ==> 0 < self.nodes@[o[p] as int].node_impl.coordinator.unwrap() < self.coordinators@.len()
        &&& forall|p: int, q: int|
            0 <= p < o.len() - 1 && 0 <= q < o.len() - 1 && p != q && self.is_layout(o[p]) && self.is_layout(o[q])
                && (#[trigger] self.nodes@[o[p] as int]).node_impl.coordinator is Some
                ==> self.nodes@[o[p] as int].node_impl.coordinator != (#[trigger] self.nodes@[o[q] as int]).node_impl.coordinator
    }

    /// Every layout node of the chain already owns a coordinator.
    pub open spec fn all_layout_owned(self) -> bool {
        forall|p: int|
            0 <= p < self.order@.len() - 1 && self.is_layout(self.order@[p])
                ==> (#[trigger] self.nodes@[self.order@[p] as int]).node_impl.coordinator is Some
    }

    /// The coordinators after the outermost one is given the wrapper that
    /// the parent calls for.
    pub open spec fn outer_rewrapped(self, outer: usize) -> Seq<NodeCoordinatorImpl> {
        self.coordinators@.update(
            outer as int,
            NodeCoordinatorImpl {
                wrapped_by: match self.parent {
                    Some(p) => Some(WrappedBy::ParentInner { layout_node: p }),
                    None => None,
                },
                ..self.coordinators@[outer as int]
            },
        )
    }

    /// Walks the chain from the tail up: each layout node keeps the
    /// coordinator it owns or gets a new one, which wraps the one below it,
    /// and every other node shares the coordinator below it. The outermost
    /// coordinator is wrapped by the parent's inner coordinator.
    #[verifier::rlimit(60)]
    #[verifier::spinoff_prover]
    fn sync_coordinators(&mut self)
        requires
            old(self).links_wf(),
            old(self).owned_coordinators_valid(),
            old(self).layout_node is Some || old(self).all_layout_owned(),
            old(self).coordinators@.len() + old(self).order@.len() < usize::MAX,
        ensures
            final(self).wf(),
            final(self).coordinators@[final(self).outer_coordinator as int].wrapped_by == match old(self).parent {
                Some(p) => Some(WrappedBy::ParentInner { layout_node: p }),
                None => None,
            },
            final(self).order@ == old(self).order@,
            final(self).head == old(self).head,
            final(self).modifier_container.current@ == old(self).modifier_container.current@,
            final(self).parent == old(self).parent,
            final(self).layout_node == old(self).layout_node,
            final(self).identify == old(self).identify,
            final(self).nodes@.len() == old(self).nodes@.len(),
            forall|i: int| 0 <= i < old(self).nodes@.len() ==> {
                &&& (#[trigger] final(self).nodes@[i]).node_kind == old(self).nodes@[i].node_kind
                &&& final(self).nodes@[i].element == old(self).nodes@[i].element
                &&& final(self).nodes@[i].node_impl.parent == old(self).nodes@[i].node_impl.parent
                &&& final(self).nodes@[i].node_impl.child == old(self).nodes@[i].node_impl.child
                &&& final(self).nodes@[i].node_impl.kind_set == old(self).nodes@[i].node_impl.kind_set
            },
            final(self).nodes@[TAIL as int] == old(self).nodes@[TAIL as int],
            final(self).nodes@[SENTINEL as int] == old(self).nodes@[SENTINEL as int],
            final(self).coordinators@.len() >= old(self).coordinators@.len(),
            forall|p: int|
                0 <= p < old(self).order@.len() - 1 && old(self).is_layout(old(self).order@[p])
                    && (#[trigger] old(self).nodes@[old(self).order@[p] as int]).node_impl.coordinator is Some
                    ==> final(self).nodes@[old(self).order@[p] as int].node_impl.coordinator
                        == old(self).nodes@[old(self).order@[p] as int].node_impl.coordinator,
            old(self).all_layout_owned() ==> final(self).coordinators@.len() == old(self).coordinators@.len(),
            old(self).wf() ==> {
                &&& final(self).nodes@ == old(self).nodes@
                &&& final(self).outer_coordinator == old(self).outer_coordinator
                &&& final(self).coordinators@ == old(self).outer_rewrapped(old(self).outer_coordinator)
            },
    {
        let ghost o = self.order@;
        let ghost len = o.len() as int;
        let mut coordinator: usize = INNER;
        let tail = self.get_tail();
        proof {
            assert(o[len - 1] == TAIL);
            if len > 1 {
                assert(self.nodes@[o[len - 1] as int].node_impl.parent == Some(o[len - 2]));
            }
        }
        let mut node: Option<usize> = self.nodes[tail].node_impl.get_parent();
        let ghost mut k: int = len - 2;
        while node.is_some()
            invariant
                self.links_wf(),
                self.order@ == o,
                o == old(self).order@,
                o.len() == len,
                self.head == old(self).head,
                self.modifier_container.current@ == old(self).modifier_container.current@,
                self.parent == old(self).parent,
                self.layout_node == old(self).layout_node,
                self.identify == old(self).identify,
                self.nodes@.len() == old(self).nodes@.len(),
                forall|i: int| 0 <= i < old(self).nodes@.len() ==> {
                    &&& (#[trigger] self.nodes@[i]).node_kind == old(self).nodes@[i].node_kind
                    &&& self.nodes@[i].element == old(self).nodes@[i].element
                    &&& self.nodes@[i].node_impl.parent == old(self).nodes@[i].node_impl.parent
                    &&& self.nodes@[i].node_impl.child == old(self).nodes@[i].node_impl.child
                    &&& self.nodes@[i].node_impl.kind_set == old(self).nodes@[i].node_impl.kind_set
                },
                self.nodes@[TAIL as int] == old(self).nodes@[TAIL as int],
                self.nodes@[SENTINEL as int] == old(self).nodes@[SENTINEL as int],
                -1 <= k <= len - 2,
                node == (if k >= 0 { Some(o[k]) } else { None::<usize> }),
                coordinator == self.coordinator_below(k + 1),
                coordinator < self.coordinators@.len(),
                forall|p: int| k < p < len - 1 ==> #[trigger] self.position_synced(p),
                self.layout_coordinators_distinct(k + 1),
                forall|p: int| 0 <= p <= k ==> #[trigger] self.nodes@[o[p] as int] == old(self).nodes@[o[p] as int],
                forall|p: int|
                    k < p < len - 1 && old(self).is_layout(o[p]) ==> match (#[trigger] old(self).nodes@[o[p] as int]).node_impl.coordinator {
                        Some(c) => self.nodes@[o[p] as int].node_impl.coordinator == Some(c),
                        None => self.nodes@[o[p] as int].node_impl.coordinator.unwrap() >= old(self).coordinators@.len(),
                    },
                old(self).links_wf(),
                old(self).owned_coordinators_valid(),
                old(self).layout_node is Some || old(self).all_layout_owned(),
                old(self).coordinators@.len() <= self.coordinators@.len() <= old(self).coordinators@.len() + (len - 2 - k),
                old(self).all_layout_owned() ==> self.coordinators@.len() == old(self).coordinators@.len(),
                old(self).wf() ==> self.nodes@ == old(self).nodes@ && self.coordinators@ == old(self).coordinators@,
                old(self).coordinators@.len() + len < usize::MAX,
            decreases k + 1,
        {
            let n = node.unwrap();
            let ghost before = *self;
            proof {
                assert(o[k] == n);
                assert(self.nodes@[o[k] as int] == old(self).nodes@[o[k] as int]);
                if old(self).wf() {
                    assert(old(self).position_synced(k));
                    old(self).lemma_below_same_nodes(*self, k + 1);
                }
            }
            if self.node_as_layout_modifier_node(n) {
                proof {
                    if old(self).nodes@[o[k] as int].node_impl.coordinator is Some {
                        self.lemma_owned_fresh(*old(self), k);
                    } else {
                        assert forall|p: int| k < p < before.order@.len() - 1 && before.is_layout(before.order@[p])
                            implies (#[trigger] before.nodes@[before.order@[p] as int]).node_impl.coordinator != Some(before.coordinators@.len() as usize) by {
                            assert(before.position_synced(p));
                        }
                    }
                }
                let next = self.sync_layout_node(n, coordinator, Ghost(k));
                proof {
                    self.lemma_sync_layout_step(before, k, next);
                }
                coordinator = next;
            } else {
                self.set_node_coordinator(n, Some(coordinator));
                proof {
                    self.lemma_sync_plain_step(before, k);
                    if old(self).wf() {
                        assert(self.nodes@ =~= old(self).nodes@);
                    }
                }
            }
            proof {
                if k > 0 {
                    assert(self.nodes@[o[k] as int].node_impl.parent == Some(o[k - 1]));
                } else {
                    assert(self.nodes@[o[0] as int].node_impl.parent is None);
                }
            }
            node = self.nodes[n].node_impl.get_parent();
            proof {
                k = k - 1;
            }
        }
        let ghost before = *self;
        let wrapped_by = match self.parent {
            Some(p) => Some(WrappedBy::ParentInner { layout_node: p }),
            None => None,
        };
        self.set_coordinator_wrapped_by(coordinator, wrapped_by);
        self.outer_coordinator = coordinator;
        proof {
            self.lemma_sync_finish(before);
            if old(self).wf() {
                old(self).lemma_below_same_nodes(before, 0);
                assert(self.coordinators@ =~= old(self).outer_rewrapped(old(self).outer_coordinator));
            }
        }
    }

    /// A coordinator owned by the layout node at position `k` of `start` is
    /// owned by no layout node further down in `self`, where those nodes
    /// kept what they owned in `start` or got coordinators new to it.
    proof fn lemma_owned_fresh(self, start: NodeChain, k: int)
        requires
            start.links_wf(),
            start.owned_coordinators_valid(),
            self.order@ == start.order@,
            self.nodes@.len() == start.nodes@.len(),
            0 <= k < start.order@.len() - 1,
            start.is_layout(start.order@[k]),
            start.nodes@[start.order@[k] as int].node_impl.coordinator is Some,
            forall|i: int| 0 <= i < start.nodes@.len() ==> (#[trigger] self.nodes@[i]).node_kind == start.nodes@[i].node_kind,
            forall|p: int|
                k < p < start.order@.len() - 1 && start.is_layout(start.order@[p]) ==> match (#[trigger] start.nodes@[start.order@[p] as int]).node_impl.coordinator {
                    Some(c) => self.nodes@[start.order@[p] as int].node_impl.coordinator == Some(c),
                    None => self.nodes@[start.order@[p] as int].node_impl.coordinator.unwrap() >= start.coordinators@.len(),
                },
        ensures
            forall|p: int| k < p < self.order@.len() - 1 && self.is_layout(self.order@[p])
                ==> (#[trigger] self.nodes@[self.order@[p] as int]).node_impl.coordinator != start.nodes@[start.order@[k] as int].node_impl.coordinator,
    {
        let o = start.order@;
        assert forall|p: int| k < p < self.order@.len() - 1 && self.is_layout(self.order@[p])
            implies (#[trigger] self.nodes@[self.order@[p] as int]).node_impl.coordinator != start.nodes@[o[k] as int].node_impl.coordinator by {
            assert(start.nodes@[o[p] as int].node_kind == self.nodes@[o[p] as int].node_kind);
            match start.nodes@[o[p] as int].node_impl.coordinator {
                Some(c2) => {
                    assert(start.nodes@[o[k] as int].node_impl.coordinator != start.nodes@[o[p] as int].node_impl.coordinator);
                },
                None => {},
            }
        }
    }

    /// Ties the layout node `n` at position `k` to its coordinator: the one
    /// it owns, made its own node's coordinator again, or a new one; that
    /// coordinator wraps `below`, the one serving the positions below.
    #[verifier::rlimit(40)]
    #[verifier::spinoff_prover]
    fn sync_layout_node(&mut self, n: usize, below: usize, Ghost(k): Ghost<int>) -> (next: usize)
        requires
            old(self).links_wf(),
            0 <= k < old(self).order@.len() - 1,
            old(self).order@[k] == n,
            old(self).is_layout(n),
            below == old(self).coordinator_below(k + 1),
            below < old(self).coordinators@.len(),
            forall|p: int| k < p < old(self).order@.len() - 1 ==> #[trigger] old(self).position_synced(p),
            old(self).layout_coordinators_distinct(k + 1),
            old(self).nodes@[n as int].node_impl.coordinator matches Some(c) ==> {
                &&& 0 < c < old(self).coordinators@.len()
                &&& forall|p: int| k < p < old(self).order@.len() - 1 && old(self).is_layout(old(self).order@[p])
                    ==> (#[trigger] old(self).nodes@[old(self).order@[p] as int]).node_impl.coordinator != Some(c)
            },
            old(self).nodes@[n as int].node_impl.coordinator is None ==> {
                &&& old(self).layout_node is Some
                &&& old(self).coordinators@.len() < usize::MAX
                &&& forall|p: int| k < p < old(self).order@.len() - 1 && old(self).is_layout(old(self).order@[p])
                    ==> (#[trigger] old(self).nodes@[old(self).order@[p] as int]).node_impl.coordinator != Some(old(self).coordinators@.len() as usize)
            },
        ensures
            final(self).layout_step(*old(self), k, next),
            final(self).links_wf(),
            final(self).head == old(self).head,
            final(self).modifier_container.current@ == old(self).modifier_container.current@,
            final(self).parent == old(self).parent,
            final(self).layout_node == old(self).layout_node,
            final(self).identify == old(self).identify,
            old(self).nodes@[n as int].node_impl.coordinator matches Some(c) ==> next == c
                && final(self).coordinators@.len() == old(self).coordinators@.len(),
            old(self).nodes@[n as int].node_impl.coordinator is None ==> next == old(self).coordinators@.len(),
            ({
                let c = old(self).nodes@[n as int].node_impl.coordinator;
                c matches Some(c) && old(self).coordinators@[c as int].tail == n
                    && old(self).coordinators@[c as int].wrapped == Some(below)
                    && old(self).coordinators@[below as int].wrapped_by == Some(WrappedBy::Local { index: c })
            }) ==> final(self).coordinators@ == old(self).coordinators@ && final(self).nodes@ == old(self).nodes@,
    {
        let ghost o = self.order@;
        proof {
            assert forall|r: int| k + 1 <= r < o.len() - 1 && old(self).is_layout(#[trigger] o[r]) implies old(self).nodes@[o[r] as int].node_impl.coordinator is Some by {
                assert(old(self).position_synced(r));
            }
            old(self).lemma_below_shape(k + 1);
            if below != INNER {
                let qn = choose|q: int| {
                    &&& k + 1 <= q < o.len() - 1
                    &&& old(self).is_layout(#[trigger] o[q])
                    &&& old(self).nodes@[o[q] as int].node_impl.coordinator == Some(below)
                    &&& forall|r: int| k + 1 <= r < q ==> !old(self).is_layout(#[trigger] o[r])
                };
                assert(old(self).nodes@[old(self).order@[qn] as int].node_impl.coordinator == Some(below));
            }
        }
        let next = match self.nodes[n].node_impl.get_coordinator() {
            Some(c) => {
                self.set_coordinator_tail(c, n);
                c
            },
            None => {
                let c = self.coordinators.len();
                let mut created = NodeCoordinatorImpl::new(n);
                created.attach(self.layout_node.unwrap());
                self.coordinators.push(created);
                self.set_node_coordinator(n, Some(c));
                c
            },
        };
        self.set_coordinator_wrapped_by(below, Some(WrappedBy::Local { index: next }));
        self.set_coordinator_wrapped(next, Some(below));
        proof {
            assert(o.contains(n)) by {
                assert(o[k] == n);
            }
            assert forall|c: int| 0 <= c < self.coordinators@.len() implies self.coordinator_in_range(#[trigger] self.coordinators@[c]) by {
                if c < old(self).coordinators@.len() {
                    assert(old(self).coordinator_in_range(old(self).coordinators@[c]));
                }
            }
            let updated = old(self).nodes@.update(
                o[k] as int,
                ModifierNode {
                    node_impl: ModifierNodeImpl { coordinator: Some(next), ..old(self).nodes@[o[k] as int].node_impl },
                    ..old(self).nodes@[o[k] as int]
                },
            );
            if old(self).nodes@[n as int].node_impl.coordinator is Some {
                assert(self.nodes@ == old(self).nodes@);
                assert(self.nodes@ =~= updated);
                let c = next;
                if old(self).coordinators@[c as int].tail == n && old(self).coordinators@[c as int].wrapped == Some(below)
                    && old(self).coordinators@[below as int].wrapped_by == Some(WrappedBy::Local { index: c }) {
                    assert(self.coordinators@ =~= old(self).coordinators@);
                }
            }
            assert(linked(self.nodes@, o));
        }
        next
    }

    /// The facts a layout step leaves behind: the node at `k` owns the new
    /// coordinator `next`, which wraps the one below `k`, and that one is
    /// now wrapped by `next`.
    pub open spec fn layout_step(self, before: NodeChain, k: int, next: usize) -> bool {
        &&& 0 <= k < before.order@.len() - 1
        &&& self.order@ == before.order@
        &&& self.nodes@.len() == before.nodes@.len()
        &&& 0 < next < self.coordinators@.len()
        &&& self.coordinators@.len() == before.coordinators@.len() || (next == before.coordinators@.len() && self.coordinators@.len() == next + 1)
        &&& next != before.coordinator_below(k + 1)
        &&& forall|p: int| k < p < before.order@.len() - 1 && before.is_layout(before.order@[p])
            ==> (#[trigger] before.nodes@[before.order@[p] as int]).node_impl.coordinator != Some(next)
        &&& before.is_layout(before.order@[k])
        &&& forall|p: int| k < p < before.order@.len() - 1 ==> #[trigger] before.position_synced(p)
        &&& before.layout_coordinators_distinct(k + 1)
        &&& before.coordinator_below(k + 1) < before.coordinators@.len()
        &&& self.nodes@ == before.nodes@.update(
            before.order@[k] as int,
            ModifierNode {
                node_impl: ModifierNodeImpl { coordinator: Some(next), ..before.nodes@[before.order@[k] as int].node_impl },
                ..before.nodes@[before.order@[k] as int]
            },
        )
        &&& forall|c: int| 0 <= c < before.coordinators@.len() && c != next && c != before.coordinator_below(k + 1) ==> #[trigger] self.coordinators@[c] == before.coordinators@[c]
        &&& self.coordinators@[before.coordinator_below(k + 1) as int].wrapped_by == Some(WrappedBy::Local { index: next })
        &&& self.coordinators@[before.coordinator_below(k + 1) as int].tail == before.coordinators@[before.coordinator_below(k + 1) as int].tail
        &&& self.coordinators@[before.coordinator_below(k + 1) as int].wrapped == before.coordinators@[before.coordinator_below(k + 1) as int].wrapped
        &&& self.coordinators@[next as int].tail == before.order@[k]
        &&& self.coordinators@[next as int].wrapped == Some(before.coordinator_below(k + 1))
        &&& linked(before.nodes@, before.order@)
    }

    /// A position below `k` stays synced through a layout step at `k`.
    proof fn lemma_layout_step_position(self, before: NodeChain, k: int, next: usize, p: int)
        requires
            self.layout_step(before, k, next),
            k < p < before.order@.len() - 1,
        ensures
            self.position_synced(p),
    {
        let o = self.order@;
        let below = before.coordinator_below(k + 1);
        assert(before.position_synced(p));
        assert forall|pp: int| p < pp < o.len() - 1 implies (#[trigger] self.nodes@[o[pp] as int]).node_kind == before.nodes@[o[pp] as int].node_kind
            && self.nodes@[o[pp] as int].node_impl.coordinator == before.nodes@[o[pp] as int].node_impl.coordinator by {
            assert(o[pp] != o[k]);
        }
        self.lemma_below_frame(before, p + 1);
        assert(o[p] != o[k]);
        let bp = before.coordinator_below(p + 1);
        assert forall|r: int| k + 1 <= r < o.len() - 1 && before.is_layout(#[trigger] o[r]) implies before.nodes@[o[r] as int].node_impl.coordinator is Some by {
            assert(before.position_synced(r));
        }
        before.lemma_below_shape(p + 1);
        if bp != INNER {
            let qn = choose|q: int| {
                &&& p + 1 <= q < o.len() - 1
                &&& before.is_layout(#[trigger] o[q])
                &&& before.nodes@[o[q] as int].node_impl.coordinator == Some(bp)
                &&& forall|r: int| p + 1 <= r < q ==> !before.is_layout(#[trigger] o[r])
            };
            assert(before.nodes@[before.order@[qn] as int].node_impl.coordinator != Some(next));
        }
        assert(bp != next);
        if before.is_layout(o[p]) {
            assert(before.nodes@[before.order@[p] as int].node_impl.coordinator != Some(next));
            before.lemma_below_shape(k + 1);
            if bp == below {
                if bp != INNER {
                    let qb = choose|q: int| {
                        &&& k + 1 <= q < o.len() - 1
                        &&& before.is_layout(#[trigger] o[q])
                        &&& before.nodes@[o[q] as int].node_impl.coordinator == Some(below)
                        &&& forall|r: int| k + 1 <= r < q ==> !before.is_layout(#[trigger] o[r])
                    };
                    let qp = choose|q: int| {
                        &&& p + 1 <= q < o.len() - 1
                        &&& before.is_layout(#[trigger] o[q])
                        &&& before.nodes@[o[q] as int].node_impl.coordinator == Some(bp)
                        &&& forall|r: int| p + 1 <= r < q ==> !before.is_layout(#[trigger] o[r])
                    };
                    assert(qb <= p);
                    assert(before.nodes@[o[qb] as int].node_impl.coordinator != before.nodes@[o[qp] as int].node_impl.coordinator);
                } else {
                    assert(!(forall|r: int| k + 1 <= r < o.len() - 1 ==> !before.is_layout(#[trigger] o[r])));
                    let qb = choose|q: int| {
                        &&& k + 1 <= q < o.len() - 1
                        &&& before.is_layout(#[trigger] o[q])
                        &&& before.nodes@[o[q] as int].node_impl.coordinator == Some(below)
                        &&& forall|r: int| k + 1 <= r < q ==> !before.is_layout(#[trigger] o[r])
                    };
                    assert(before.position_synced(qb));
                }
            }
            assert(bp != below);
        }
    }

    /// After a layout node at position `k` got its coordinator `next`, all
    /// positions from `k` on are synced.
    proof fn lemma_sync_layout_step(self, before: NodeChain, k: int, next: usize)
        requires
            self.layout_step(before, k, next),
        ensures
            forall|p: int| k <= p < self.order@.len() - 1 ==> #[trigger] self.position_synced(p),
            self.layout_coordinators_distinct(k),
            self.coordinator_below(k) == next,
    {
        let o = self.order@;
        assert forall|p: int| k < p < o.len() - 1 implies (#[trigger] self.nodes@[o[p] as int]).node_kind == before.nodes@[o[p] as int].node_kind
            && self.nodes@[o[p] as int].node_impl.coordinator == before.nodes@[o[p] as int].node_impl.coordinator by {
            assert(o[p] != o[k]);
        }
        self.lemma_below_frame(before, k + 1);
        assert forall|p: int| k <= p < o.len() - 1 implies #[trigger] self.position_synced(p) by {
            if p != k {
                self.lemma_layout_step_position(before, k, next, p);
            }
        }
        assert forall|p: int, q: int|
            k <= p < o.len() - 1 && k <= q < o.len() - 1 && p != q && self.is_layout(o[p]) && self.is_layout(o[q])
                implies #[trigger] self.nodes@[o[p] as int].node_impl.coordinator != #[trigger] self.nodes@[o[q] as int].node_impl.coordinator by {
            if p != k {
                assert(o[p] != o[k]);
                assert(before.position_synced(p));
                assert(before.nodes@[before.order@[p] as int].node_impl.coordinator != Some(next));
            }
            if q != k {
                assert(o[q] != o[k]);
                assert(before.position_synced(q));
                assert(before.nodes@[before.order@[q] as int].node_impl.coordinator != Some(next));
            }
        }
    }

    /// After a node of another kind at position `k` took the coordinator
    /// below it, all positions from `k` on are synced.
    proof fn lemma_sync_plain_step(self, before: NodeChain, k: int)
        requires
            0 <= k < before.order@.len() - 1,
            self.order@ == before.order@,
            self.nodes@.len() == before.nodes@.len(),
            !before.is_layout(before.order@[k]),
            forall|p: int| k < p < before.order@.len() - 1 ==> #[trigger] before.position_synced(p),
            before.layout_coordinators_distinct(k + 1),
            before.coordinator_below(k + 1) < before.coordinators@.len(),
            self.nodes@ == before.nodes@.update(
                before.order@[k] as int,
                ModifierNode {
                    node_impl: ModifierNodeImpl {
                        coordinator: Some(before.coordinator_below(k + 1)),
                        ..before.nodes@[before.order@[k] as int].node_impl
                    },
                    ..before.nodes@[before.order@[k] as int]
                },
            ),
            self.coordinators@ == before.coordinators@,
            linked(before.nodes@, before.order@),
        ensures
            forall|p: int| k <= p < self.order@.len() - 1 ==> #[trigger] self.position_synced(p),
            self.layout_coordinators_distinct(k),
            self.coordinator_below(k) == before.coordinator_below(k + 1),
    {
        let o = self.order@;
        assert forall|p: int| k < p < o.len() - 1 implies (#[trigger] self.nodes@[o[p] as int]).node_kind == before.nodes@[o[p] as int].node_kind
            && self.nodes@[o[p] as int].node_impl.coordinator == before.nodes@[o[p] as int].node_impl.coordinator by {
            assert(o[p] != o[k]);
        }
        self.lemma_below_frame(before, k + 1);
        assert forall|p: int| k <= p < o.len() - 1 implies #[trigger] self.position_synced(p) by {
            if p != k {
                assert(before.position_synced(p));
                self.lemma_below_frame(before, p + 1);
                assert(o[p] != o[k]);
            }
        }
        assert forall|p: int, q: int|
            k <= p < o.len() - 1 && k <= q < o.len() - 1 && p != q && self.is_layout(o[p]) && self.is_layout(o[q])
                implies #[trigger] self.nodes@[o[p] as int].node_impl.coordinator != #[trigger] self.nodes@[o[q] as int].node_impl.coordinator by {
            assert(o[p] != o[k]);
            assert(o[q] != o[k]);
        }
    }

    /// Setting the wrapper of the outermost coordinator keeps every position
    /// synced.
    proof fn lemma_sync_finish(self, before: NodeChain)
        requires
            self.order@ == before.order@,
            self.nodes@ == before.nodes@,
            forall|p: int| 0 <= p < before.order@.len() - 1 ==> #[trigger] before.position_synced(p),
            before.layout_coordinators_distinct(0),
            self.outer_coordinator == before.coordinator_below(0),
            self.outer_coordinator < before.coordinators@.len(),
            self.coordinators@.len() == before.coordinators@.len(),
            forall|c: int| 0 <= c < self.coordinators@.len() && c != self.outer_coordinator ==> #[trigger] self.coordinators@[c] == before.coordinators@[c],
            self.coordinators@[self.outer_coordinator as int].tail == before.coordinators@[self.outer_coordinator as int].tail,
            self.coordinators@[self.outer_coordinator as int].wrapped == before.coordinators@[self.outer_coordinator as int].wrapped,
        ensures
            self.synced(),
    {
        let o = self.order@;
        self.lemma_below_same_nodes(before, 0);
        assert forall|r: int| 0 <= r < o.len() - 1 && before.is_layout(#[trigger] o[r]) implies before.nodes@[o[r] as int].node_impl.coordinator is Some by {
            assert(before.position_synced(r));
        }
        before.lemma_below_shape(0);
        assert forall|p: int| 0 <= p < o.len() - 1 implies #[trigger] self.position_synced(p) by {
            assert(before.position_synced(p));
            self.lemma_below_same_nodes(before, p + 1);
            let bp = before.coordinator_below(p + 1);
            if before.is_layout(o[p]) && bp == self.outer_coordinator {
                assert forall|r: int| p + 1 <= r < o.len() - 1 && before.is_layout(#[trigger] o[r]) implies before.nodes@[o[r] as int].node_impl.coordinator is Some by {
                    assert(before.position_synced(r));
                }
                before.lemma_below_shape(p + 1);
                if bp == INNER {
                    let q0 = choose|q: int| {
                        &&& 0 <= q < o.len() - 1
                        &&& before.is_layout(#[trigger] o[q])
                        &&& before.nodes@[o[q] as int].node_impl.coordinator == Some(before.coordinator_below(0))
                        &&& forall|r: int| 0 <= r < q ==> !before.is_layout(#[trigger] o[r])
                    };
                    assert(before.position_synced(q0));
                } else {
                    let qp = choose|q: int| {
                        &&& p + 1 <= q < o.len() - 1
                        &&& before.is_layout(#[trigger] o[q])
                        &&& before.nodes@[o[q] as int].node_impl.coordinator == Some(bp)
                        &&& forall|r: int| p + 1 <= r < q ==> !before.is_layout(#[trigger] o[r])
                    };
                    let q0 = choose|q: int| {
                        &&& 0 <= q < o.len() - 1
                        &&& before.is_layout(#[trigger] o[q])
                        &&& before.nodes@[o[q] as int].node_impl.coordinator == Some(before.coordinator_below(0))
                        &&& forall|r: int| 0 <= r < q ==> !before.is_layout(#[trigger] o[r])
                    };
                    assert(q0 <= p) by {
                        if q0 > p {
                            assert(before.nodes@[o[p] as int].node_impl.coordinator != before.nodes@[o[q0] as int].node_impl.coordinator);
                        }
                    }
                    assert(qp != q0);
                }
            }
        }
    }

    /// Builds the chain for `modifier`: one node per element, in order,
    /// in front of the tail, then ties every node to its coordinator.
    ///
    /// Only a chain that was never built can be built: rebuilding is not
    /// done, and an empty or composed leaf has no node to make.
    #[verifier::rlimit(80)]
    #[verifier::spinoff_prover]
    pub fn update_from(&mut self, modifier: Modifier)
        requires
            old(self).wf(),
            old(self).modifier_container.current@.len() == 0,
            forall|i: int| 0 <= i < leaves(modifier.inner).len() ==> (#[trigger] leaves(modifier.inner)[i]) is ModifierNodeElement,
            old(self).layout_node is Some || forall|i: int|
                0 <= i < leaves(modifier.inner).len() ==> !is_layout_kind(leaf_node_kind(#[trigger] leaves(modifier.inner)[i])),
            old(self).nodes@.len() + leaves(modifier.inner).len() < usize::MAX,
            old(self).coordinators@.len() + leaves(modifier.inner).len() + 1 < usize::MAX,
        ensures
            final(self).wf(),
            inners(final(self).modifier_container.current@) == leaves(modifier.inner),
            final(self).order@.len() == leaves(modifier.inner).len() + 1,
            forall|i: int| 0 <= i < leaves(modifier.inner).len() ==> #[trigger] final(self).order@[i] == old(self).nodes@.len() + i,
            final(self).order@.last() == TAIL,
            final(self).head == final(self).order@[0],
            final(self).coordinators@[final(self).outer_coordinator as int].wrapped_by == match old(self).parent {
                Some(p) => Some(WrappedBy::ParentInner { layout_node: p }),
                None => None,
            },
            final(self).parent == old(self).parent,
            final(self).layout_node == old(self).layout_node,
            final(self).identify == old(self).identify,
            forall|i: int| 0 <= i < leaves(modifier.inner).len()
                ==> (#[trigger] final(self).nodes@[final(self).order@[i] as int]).node_impl.kind_set == leaf_kind_set(leaves(modifier.inner)[i]),
    {
        let ghost lv = leaves(modifier.inner);
        let ghost n0 = self.nodes@.len() as int;
        let ghost o_old = self.order@;
        proof {
            assert(o_old.len() == 1);
            assert(o_old =~= seq![TAIL]);
            lemma_leaves_nonempty(modifier.inner);
        }
        let mut coordinator_sync_needed = false;
        let padded_head = self.pad_chain();
        let ghost padded = *self;
        let before_size = self.modifier_container.current.len();
        let after = modifier.flatten();
        let after_size = after.len();
        let mut index: usize = 0;
        if before_size == after_size {
            proof {
                assert(false);
            }
        } else if before_size == 0 {
            coordinator_sync_needed = true;
            let mut node = padded_head;
            proof {
                assert(seq![SENTINEL] + Seq::new(0, |i: int| (n0 + i) as usize) + o_old =~= seq![SENTINEL] + o_old);
            }
            while index < after_size
                invariant
                    inners(after@) == lv,
                    after_size == after@.len(),
                    forall|i: int| 0 <= i < lv.len() ==> (#[trigger] lv[i]) is ModifierNodeElement,
                    n0 == 2,
                    o_old == seq![TAIL],
                    0 <= index <= after_size,
                    self.nodes@.len() == n0 + index,
                    n0 + after_size < usize::MAX,
                    linked(self.nodes@, seq![SENTINEL] + Seq::new(index as nat, |i: int| (n0 + i) as usize) + o_old),
                    node == (if index == 0 { SENTINEL } else { (n0 + index - 1) as usize }),
                    forall|i: int| 0 <= i < n0 ==> same_payload(#[trigger] self.nodes@[i], padded.nodes@[i]),
                    forall|j: int| 0 <= j < index ==> {
                        &&& (#[trigger] self.nodes@[n0 + j]).node_kind == leaf_node_kind(lv[j])
                        &&& self.nodes@[n0 + j].element == Some(leaf_key(lv[j]))
                        &&& self.nodes@[n0 + j].node_impl.coordinator is None
                        &&& self.nodes@[n0 + j].node_impl.kind_set == leaf_kind_set(lv[j])
                    },
                    self.same_but_nodes(padded),
                decreases after_size - index,
            {
                let ghost q = seq![SENTINEL] + Seq::new(index as nat, |i: int| (n0 + i) as usize) + o_old;
                let ghost before = self.nodes@;
                proof {
                    assert(q[index as int] == node);
                    assert(after@[index as int].inner == lv[index as int]);
                }
                let parent = node;
                node = self.create_and_insert_node_as_child(&after[index], parent, Ghost(q), Ghost(index as int));
                proof {
                    let q2 = seq![SENTINEL] + Seq::new((index + 1) as nat, |i: int| (n0 + i) as usize) + o_old;
                    assert(q.insert(index + 1, node) =~= q2);
                    assert forall|j: int| 0 <= j < index + 1 implies {
                        &&& (#[trigger] self.nodes@[n0 + j]).node_kind == leaf_node_kind(lv[j])
                        &&& self.nodes@[n0 + j].element == Some(leaf_key(lv[j]))
                        &&& self.nodes@[n0 + j].node_impl.coordinator is None
                        &&& self.nodes@[n0 + j].node_impl.kind_set == leaf_kind_set(lv[j])
                    } by {
                        if j < index {
                            assert(same_payload(self.nodes@[n0 + j], before[n0 + j]));
                        }
                    }
                }
                index = index + 1;
            }
        } else if after_size == 0 {
            proof {
                assert(false);
            }
        } else {
            proof {
                assert(false);
            }
        }
        let ghost newq = Seq::new(after_size as nat, |i: int| (n0 + i) as usize) + o_old;
        proof {
            assert(seq![SENTINEL] + Seq::new(after_size as nat, |i: int| (n0 + i) as usize) + o_old =~= seq![SENTINEL] + newq);
        }
        self.modifier_container.current = after;
        let new_head = self.trim_chain(padded_head, Ghost(newq));
        self.head = new_head;
        self.order = Ghost(newq);
        proof {
            assert forall|i: int| 0 <= i < newq.len() implies #[trigger] newq[i] != SENTINEL by {
                if i < after_size {
                    assert(newq[i] == n0 + i);
                } else {
                    assert(newq[i] == TAIL);
                }
            }
            assert(newq.last() == TAIL);
            assert forall|i: int| 0 <= i < self.modifier_container.current@.len() implies {
                &&& (#[trigger] self.modifier_container.current@[i]).inner is ModifierNodeElement
                &&& self.nodes@[newq[i] as int].node_kind == leaf_node_kind(self.modifier_container.current@[i].inner)
                &&& self.nodes@[newq[i] as int].element == Some(leaf_key(self.modifier_container.current@[i].inner))
            } by {
                assert(newq[i] == n0 + i);
                assert(self.modifier_container.current@[i].inner == lv[i]);
            }
            assert(self.nodes@[TAIL as int].node_kind == NodeKind::Any.spec_mask());
            assert(self.links_wf());
            assert forall|p: int| 0 <= p < newq.len() - 1 implies (#[trigger] self.nodes@[newq[p] as int]).node_impl.coordinator is None by {
                assert(newq[p] == n0 + p);
            }
            assert(self.layout_node is Some || forall|p: int| 0 <= p < newq.len() - 1 ==> !self.is_layout(#[trigger] newq[p])) by {
                if self.layout_node is None {
                    assert forall|p: int| 0 <= p < newq.len() - 1 implies !self.is_layout(#[trigger] newq[p]) by {
                        assert(newq[p] == n0 + p);
                        assert(!is_layout_kind(leaf_node_kind(lv[p])));
                    }
                }
            }
        }
        let ghost trimmed = *self;
        proof {
            assert forall|i: int| 0 <= i < lv.len() implies (#[trigger] self.nodes@[newq[i] as int]).node_impl.kind_set == leaf_kind_set(lv[i]) by {
                assert(newq[i] == n0 + i);
            }
        }
        if coordinator_sync_needed {
            self.sync_coordinators();
        }
        proof {
            assert forall|i: int| 0 <= i < lv.len() implies (#[trigger] self.nodes@[self.order@[i] as int]).node_impl.kind_set == leaf_kind_set(lv[i]) by {
                assert(self.order@[i] == newq[i]);
                assert(newq[i] == n0 + i);
                assert(trimmed.nodes@[newq[i] as int].node_impl.kind_set == leaf_kind_set(lv[i]));
            }
        }
    }

    /// The position of node `n` in the chain.
    pub open spec fn pos(self, n: usize) -> int {
        choose|p: int| 0 <= p < self.order@.len() && self.order@[p] == n
    }

    /// The kind set declared by the node at position `j`.
    pub open spec fn kind_at(self, j: int) -> u32 {
        self.nodes@[self.order@[j] as int].node_kind
    }

    /// The first position in `j..bound` whose node's kind set meets `want`,
    /// unless a node whose kind set meets `stop` comes first.
    pub open spec fn scan(self, j: int, want: u32, stop: u32, bound: int) -> Option<int>
        decreases bound - j,
    {
        if j >= bound || j < 0 {
            None
        } else if self.kind_at(j) & stop != 0 {
            None
        } else if self.kind_at(j) & want != 0 {
            Some(j)
        } else {
            self.scan(j + 1, want, stop, bound)
        }
    }

    /// The nodes at positions `a..b` whose kind set meets `mask`, in order.
    pub open spec fn filter_range(self, a: int, b: int, mask: u32) -> Seq<usize>
        decreases b - a,
    {
        if b <= a {
            Seq::empty()
        } else if self.kind_at(b - 1) & mask != 0 {
            self.filter_range(a, b - 1, mask).push(self.order@[b - 1])
        } else {
            self.filter_range(a, b - 1, mask)
        }
    }

    proof fn lemma_pos(self, p: int)
        requires
            self.links_wf(),
            0 <= p < self.order@.len(),
        ensures
            self.pos(self.order@[p]) == p,
    {
        let n = self.order@[p];
        assert(0 <= p < self.order@.len() && self.order@[p] == n);
        let q = self.pos(n);
        if q != p {
            assert(self.order@[q] != self.order@[p]);
        }
    }

    /// The nodes from the tail up to the head.
    pub fn tail_to_head(&self) -> (r: Vec<usize>)
        requires
            self.links_wf(),
        ensures
            r@ == self.order@.reverse(),
    {
        let ghost o = self.order@;
        let mut result: Vec<usize> = Vec::new();
        let mut node: Option<usize> = Some(self.get_tail());
        let ghost mut j: int = o.len() - 1;
        while node.is_some()
            invariant
                self.links_wf(),
                o == self.order@,
                -1 <= j < o.len(),
                node == (if j >= 0 { Some(o[j]) } else { None::<usize> }),
                result@ == o.subrange(j + 1, o.len() as int).reverse(),
            decreases j + 1,
        {
            let n = node.unwrap();
            result.push(n);
            proof {
                assert(o.subrange(j, o.len() as int).reverse() =~= o.subrange(j + 1, o.len() as int).reverse().push(o[j]));
                if j > 0 {
                    assert(self.nodes@[o[j] as int].node_impl.parent == Some(o[j - 1]));
                }
            }
            node = self.nodes[n].node_impl.get_parent();
            proof {
                j = j - 1;
            }
        }
        proof {
            assert(o.subrange(0, o.len() as int) =~= o);
        }
        result
    }

    /// Whether the node `n` takes part in `kind`, so that work for that kind
    /// is handed to it.
    pub fn dispatch_for_kind(&self, n: usize, kind: NodeKind) -> (b: bool)
        requires
            n < self.nodes@.len(),
        ensures
            b == (kind.spec_mask() & self.nodes@[n as int].node_kind != 0),
    {
        kind.bitand(self.nodes[n].node_kind) != 0
    }

    /// The next draw node below `n`, unless a layout node comes first.
    pub fn next_draw_node(&self, n: usize) -> (r: Option<usize>)
        requires
            self.links_wf(),
            self.order@.contains(n),
        ensures
            r == (match self.scan(self.pos(n) + 1, NodeKind::Draw.spec_mask(), NodeKind::Layout.spec_mask(), self.order@.len() as int) {
                Some(j) => Some(self.order@[j]),
                None => None,
            }),
    {
        let ghost o = self.order@;
        let ghost k = self.pos(n);
        proof {
            if k < o.len() - 1 {
                assert(self.nodes@[o[k] as int].node_impl.child == Some(o[k + 1]));
            }
        }
        let draw_mask = NodeKind::Draw.mask();
        let measure_mask = NodeKind::Layout.mask();
        let mut next = self.nodes[n].node_impl.get_child();
        let ghost mut j: int = k + 1;
        while next.is_some()
            invariant
                self.links_wf(),
                o == self.order@,
                0 <= k < o.len(),
                k + 1 <= j <= o.len(),
                next == (if j < o.len() { Some(o[j]) } else { None::<usize> }),
                draw_mask == NodeKind::Draw.spec_mask(),
                measure_mask == NodeKind::Layout.spec_mask(),
                k == self.pos(n),
                self.scan(k + 1, draw_mask, measure_mask, o.len() as int) == self.scan(j, draw_mask, measure_mask, o.len() as int),
            decreases o.len() - j,
        {
            let m = next.unwrap();
            let node_kind_set = self.nodes[m].node_kind;
            proof {
                assert(self.kind_at(j) == node_kind_set);
            }
            if node_kind_set & measure_mask != 0 {
                proof {
                    assert(self.scan(j, draw_mask, measure_mask, o.len() as int) is None);
                }
                return None;
            }
            if node_kind_set & draw_mask != 0 {
                proof {
                    assert(self.scan(j, draw_mask, measure_mask, o.len() as int) == Some(j));
                }
                return next;
            }
            proof {
                if j < o.len() - 1 {
                    assert(self.nodes@[o[j] as int].node_impl.child == Some(o[j + 1]));
                }
            }
            next = self.nodes[m].node_impl.get_child();
            proof {
                j = j + 1;
            }
        }
        None
    }

    /// The nodes below `n` whose kind set meets `mask`, unless the node's
    /// aggregate child kind set says none does.
    pub fn visit_local_descendants(&self, n: usize, mask: u32) -> (r: Vec<usize>)
        requires
            self.links_wf(),
            self.order@.contains(n),
        ensures
            r@ == (if self.nodes@[n as int].node_impl.aggregate_child_kind_set & mask == 0 {
                Seq::empty()
            } else {
                self.filter_range(self.pos(n) + 1, self.order@.len() as int, mask)
            }),
    {
        let ghost o = self.order@;
        let ghost k = self.pos(n);
        let mut result: Vec<usize> = Vec::new();
        let aggregate_child_kind_set = self.nodes[n].node_impl.get_aggregate_child_kind_set();
        if aggregate_child_kind_set & mask == 0 {
            return result;
        }
        proof {
            if k < o.len() - 1 {
                assert(self.nodes@[o[k] as int].node_impl.child == Some(o[k + 1]));
            }
        }
        let mut next = self.nodes[n].node_impl.get_child();
        let ghost mut j: int = k + 1;
        while next.is_some()
            invariant
                self.links_wf(),
                o == self.order@,
                0 <= k < o.len(),
                k + 1 <= j <= o.len(),
                next == (if j < o.len() { Some(o[j]) } else { None::<usize> }),
                result@ == self.filter_range(k + 1, j, mask),
            decreases o.len() - j,
        {
            let m = next.unwrap();
            if self.nodes[m].node_kind & mask != 0 {
                result.push(m);
            }
            proof {
                if j < o.len() - 1 {
                    assert(self.nodes@[o[j] as int].node_impl.child == Some(o[j + 1]));
                }
            }
            next = self.nodes[m].node_impl.get_child();
            proof {
                j = j + 1;
            }
        }
        result
    }

    /// The coordinator that work of `kind` starting at node `n` goes to:
    /// the node's own coordinator, or, when `n` is that coordinator's own
    /// node and the kind includes it in traversal, the coordinator it wraps.
    pub fn require_coordinator(&self, n: usize, kind: NodeKind) -> (c: usize)
        requires
            self.links_wf(),
            n < self.nodes@.len(),
            self.nodes@[n as int].node_impl.coordinator matches Some(c) && c < self.coordinators@.len() && (
            self.coordinators@[c as int].tail == n && kind == NodeKind::LayoutAware ==> self.coordinators@[c as int].wrapped is Some),
        ensures
            ({
                let own = self.nodes@[n as int].node_impl.coordinator.unwrap();
                c == (if self.coordinators@[own as int].tail != n {
                    own
                } else if kind == NodeKind::LayoutAware {
                    self.coordinators@[own as int].wrapped.unwrap()
                } else {
                    own
                })
            }),
    {
        let coordinator = self.nodes[n].node_impl.get_coordinator().unwrap();
        if self.coordinators[coordinator].get_tail() != n {
            coordinator
        } else if kind.include_self_in_traversal() {
            self.coordinators[coordinator].get_wrapped().unwrap()
        } else {
            coordinator
        }
    }

    /// The node a walk over coordinator `c`'s nodes starts from: the chain's
    /// head for the outermost coordinator, else the node of the coordinator
    /// that wraps `c`, or the node after it when the walk includes tails.
    pub open spec fn spec_head_node(self, c: usize, include_tail: bool) -> Option<usize> {
        if self.outer_coordinator == c {
            Some(self.head)
        } else {
            match self.coordinators@[c as int].wrapped_by {
                Some(WrappedBy::Local { index }) => {
                    let tail = self.coordinators@[index as int].tail;
                    if include_tail {
                        self.nodes@[tail as int].node_impl.child
                    } else {
                        Some(tail)
                    }
                },
                _ => None,
            }
        }
    }

    /// The node a walk over coordinator `c`'s nodes stops at: its own node,
    /// or the one before it when the walk excludes tails.
    pub open spec fn spec_stop_node(self, c: usize, include_tail: bool) -> Option<usize> {
        let tail = self.coordinators@[c as int].tail;
        if include_tail {
            Some(tail)
        } else {
            self.nodes@[tail as int].node_impl.parent
        }
    }

    /// The end (exclusive) of the positions a walk from `start` visits when
    /// it stops at `stop`: a walk that starts past its stop runs to the end.
    pub open spec fn walk_bound(self, start: int, stop: int) -> int {
        if start <= stop {
            stop + 1
        } else {
            self.order@.len() as int
        }
    }

    /// A node's child, if it has one, is in the chain, right after it.
    proof fn lemma_child_in_chain(self, p: int)
        requires
            self.links_wf(),
            0 <= p < self.order@.len(),
        ensures
            match self.nodes@[self.order@[p] as int].node_impl.child {
                Some(ch) => p + 1 < self.order@.len() && self.order@[p + 1] == ch,
                None => p + 1 == self.order@.len(),
            },
            match self.nodes@[self.order@[p] as int].node_impl.parent {
                Some(pa) => p >= 1 && self.order@[p - 1] == pa,
                None => p == 0,
            },
    {
        let o = self.order@;
        if p + 1 < o.len() {
            assert(self.nodes@[o[p] as int].node_impl.child == Some(o[p + 1]));
        }
        if p >= 1 {
            assert(self.nodes@[o[p] as int].node_impl.parent == Some(o[p - 1]));
        } else {
            assert(o[0] == o[p]);
        }
        if p + 1 == o.len() {
            assert(o.last() == o[p]);
        }
    }

    pub fn head_node(&self, c: usize, include_tail: bool) -> (r: Option<usize>)
        requires
            self.links_wf(),
            c < self.coordinators@.len(),
            c == self.outer_coordinator || !(self.coordinators@[c as int].wrapped_by matches Some(WrappedBy::ParentInner { .. })),
        ensures
            r == self.spec_head_node(c, include_tail),
            r matches Some(n) ==> self.order@.contains(n),
    {
        if self.outer_coordinator == c {
            proof {
                assert(self.order@[0] == self.head);
            }
            Some(self.head)
        } else {
            match self.coordinators[c].get_wrapped_by() {
                Some(WrappedBy::Local { index }) => {
                    proof {
                        assert(self.coordinator_in_range(self.coordinators@[c as int]));
                        assert(self.coordinator_in_range(self.coordinators@[index as int]));
                    }
                    let tail = self.coordinators[index].get_tail();
                    proof {
                        let p = choose|p: int| 0 <= p < self.order@.len() && self.order@[p] == tail;
                        self.lemma_child_in_chain(p);
                    }
                    if include_tail {
                        self.nodes[tail].node_impl.get_child()
                    } else {
                        Some(tail)
                    }
                },
                _ => None,
            }
        }
    }

    /// The first node of coordinator `c` that takes part in `kind`, found by
    /// walking from the walk's start to its stop node.
    pub open spec fn spec_head(self, c: usize, kind: NodeKind) -> Option<usize> {
        let include_tail = kind == NodeKind::LayoutAware;
        match (self.spec_head_node(c, include_tail), self.spec_stop_node(c, include_tail)) {
            (Some(start), Some(stop)) => match self.scan(
                self.pos(start),
                kind.spec_mask(),
                0,
                self.walk_bound(self.pos(start), self.pos(stop)),
            ) {
                Some(j) => Some(self.order@[j]),
                None => None,
            },
            _ => None,
        }
    }

    /// The first node of coordinator `c` that takes part in `kind`.
    pub fn head(&self, c: usize, kind: NodeKind) -> (r: Option<usize>)
        requires
            self.links_wf(),
            c < self.coordinators@.len(),
            c == self.outer_coordinator || !(self.coordinators@[c as int].wrapped_by matches Some(WrappedBy::ParentInner { .. })),
        ensures
            r == self.spec_head(c, kind),
    {
        let ghost o = self.order@;
        let mut stop_node = self.coordinators[c].get_tail();
        proof {
            assert(self.coordinator_in_range(self.coordinators@[c as int]));
            let p = choose|p: int| 0 <= p < o.len() && o[p] == stop_node;
            self.lemma_child_in_chain(p);
            lemma_masks_disjoint(kind, NodeKind::LayoutAware);
        }
        let include_tail = kind.mask() & NodeKind::LayoutAware.mask() != 0;
        if !include_tail {
            let node = match self.nodes[stop_node].node_impl.get_parent() {
                Some(parent) => parent,
                None => {
                    return None;
                },
            };
            stop_node = node;
        }
        let mut node = self.head_node(c, include_tail);
        if node.is_none() {
            return None;
        }
        let ghost start = self.pos(node.unwrap());
        let ghost stop = self.pos(stop_node);
        let ghost bound = self.walk_bound(start, stop);
        proof {
            assert(o.contains(stop_node));
            let ps = choose|p: int| 0 <= p < o.len() && o[p] == stop_node;
            self.lemma_pos(ps);
            let pn = choose|p: int| 0 <= p < o.len() && o[p] == node.unwrap();
            self.lemma_pos(pn);
        }
        let ghost mut j: int = start;
        while node.is_some()
            invariant
                self.links_wf(),
                o == self.order@,
                0 <= start < o.len(),
                0 <= stop < o.len(),
                o[stop] == stop_node,
                bound == self.walk_bound(start, stop),
                start <= j <= o.len(),
                j <= bound,
                start <= stop ==> j <= stop,
                node == (if j < o.len() { Some(o[j]) } else { None::<usize> }),
                self.scan(start, kind.spec_mask(), 0, bound) == self.scan(j, kind.spec_mask(), 0, bound),
                include_tail == (kind == NodeKind::LayoutAware),
                self.spec_head_node(c, include_tail) is Some,
                start == self.pos(self.spec_head_node(c, include_tail).unwrap()),
                self.spec_stop_node(c, include_tail) == Some(stop_node),
                stop == self.pos(stop_node),
            decreases o.len() - j,
        {
            let visit = node.unwrap();
            proof {
                let kj = self.kind_at(j);
                assert(kj == self.nodes@[visit as int].node_kind);
                assert(kj & 0 == 0) by (bit_vector);
                assert(bound > j);
                assert(self.scan(j, kind.spec_mask(), 0, bound) == (if kj & kind.spec_mask() != 0 {
                    Some(j)
                } else {
                    self.scan(j + 1, kind.spec_mask(), 0, bound)
                }));
                let km = kind.spec_mask();
                assert(km & kj == kj & km) by (bit_vector);
            }
            if kind.bitand(self.nodes[visit].node_kind) != 0 {
                return Some(visit);
            }
            if visit == stop_node {
                proof {
                    assert(j == stop) by {
                        if j != stop {
                            assert(o[j] != o[stop]);
                        }
                    }
                }
                return None;
            }
            proof {
                self.lemma_child_in_chain(j);
                if start <= stop {
                    assert(j != stop);
                }
            }
            node = self.nodes[visit].node_impl.get_child();
            proof {
                j = j + 1;
            }
        }
        None
    }

    /// The nodes of coordinator `c` whose kind set meets `mask`, in order
    /// from the walk's start to its stop node.
    pub fn visit_nodes(&self, c: usize, mask: u32) -> (r: Vec<usize>)
        requires
            self.links_wf(),
            c < self.coordinators@.len(),
            c == self.outer_coordinator || !(self.coordinators@[c as int].wrapped_by matches Some(WrappedBy::ParentInner { .. })),
        ensures
            ({
                let include_tail = mask & NodeKind::LayoutAware.spec_mask() != 0;
                match (self.spec_head_node(c, include_tail), self.spec_stop_node(c, include_tail)) {
                    (Some(start), Some(stop)) => r@ == self.filter_range(
                        self.pos(start),
                        self.walk_bound(self.pos(start), self.pos(stop)),
                        mask,
                    ),
                    _ => r@.len() == 0,
                }
            }),
    {
        let ghost o = self.order@;
        let mut result: Vec<usize> = Vec::new();
        let mut stop_node = self.coordinators[c].get_tail();
        proof {
            assert(self.coordinator_in_range(self.coordinators@[c as int]));
            let p = choose|p: int| 0 <= p < o.len() && o[p] == stop_node;
            self.lemma_child_in_chain(p);
        }
        let include_tail = mask & NodeKind::LayoutAware.mask() != 0;
        if !include_tail {
            let node = match self.nodes[stop_node].node_impl.get_parent() {
                Some(parent) => parent,
                None => {
                    return result;
                },
            };
            stop_node = node;
        }
        let mut node = self.head_node(c, include_tail);
        if node.is_none() {
            return result;
        }
        let ghost start = self.pos(node.unwrap());
        let ghost stop = self.pos(stop_node);
        let ghost bound = self.walk_bound(start, stop);
        proof {
            assert(o.contains(stop_node));
            let ps = choose|p: int| 0 <= p < o.len() && o[p] == stop_node;
            self.lemma_pos(ps);
            let pn = choose|p: int| 0 <= p < o.len() && o[p] == node.unwrap();
            self.lemma_pos(pn);
        }
        let ghost mut j: int = start;
        while node.is_some()
            invariant
                self.links_wf(),
                o == self.order@,
                0 <= start < o.len(),
                0 <= stop < o.len(),
                o[stop] == stop_node,
                bound == self.walk_bound(start, stop),
                start <= j <= o.len(),
                j <= bound,
                start <= stop ==> j <= stop,
                node == (if j < o.len() { Some(o[j]) } else { None::<usize> }),
                result@ == self.filter_range(start, j, mask),
                include_tail == (mask & NodeKind::LayoutAware.spec_mask() != 0),
                self.spec_head_node(c, include_tail) is Some,
                start == self.pos(self.spec_head_node(c, include_tail).unwrap()),
                self.spec_stop_node(c, include_tail) == Some(stop_node),
                stop == self.pos(stop_node),
            decreases o.len() - j,
        {
            let visit = node.unwrap();
            proof {
                assert(self.kind_at(j) == self.nodes@[visit as int].node_kind);
            }
            if self.nodes[visit].node_kind & mask != 0 {
                result.push(visit);
            }
            if visit == stop_node {
                proof {
                    assert(j == stop) by {
                        if j != stop {
                            assert(o[j] != o[stop]);
                        }
                    }
                }
                return result;
            }
            proof {
                self.lemma_child_in_chain(j);
                if start <= stop {
                    assert(j != stop);
                }
            }
            node = self.nodes[visit].node_impl.get_child();
            proof {
                j = j + 1;
            }
        }
        result
    }

    /// The bookkeeping kind set of the node at position `j`.
    pub open spec fn kind_set_at(self, j: int) -> u32 {
        self.nodes@[self.order@[j] as int].node_impl.kind_set
    }

    /// As `scan`, over the nodes' bookkeeping kind sets.
    pub open spec fn scan_set(self, j: int, want: u32, stop: u32, bound: int) -> Option<int>
        decreases bound - j,
    {
        if j >= bound || j < 0 {
            None
        } else if self.kind_set_at(j) & stop != 0 {
            None
        } else if want & self.kind_set_at(j) != 0 {
            Some(j)
        } else {
            self.scan_set(j + 1, want, stop, bound)
        }
    }

    /// The next node below `n` whose kind set holds `kind`, unless its child
    /// says no node below does, or a node of `stop_type` comes first.
    pub open spec fn next_until_spec(self, n: usize, kind: NodeKind, stop_type: NodeKind) -> Option<usize> {
        match self.nodes@[n as int].node_impl.child {
            None => None,
            Some(ch) => if self.nodes@[ch as int].node_impl.aggregate_child_kind_set & kind.spec_mask() == 0 {
                None
            } else {
                match self.scan_set(self.pos(n) + 1, kind.spec_mask(), stop_type.spec_mask(), self.order@.len() as int) {
                    Some(j) => Some(self.order@[j]),
                    None => None,
                }
            },
        }
    }

    proof fn lemma_scan_set_range(self, j: int, want: u32, stop: u32, bound: int)
        ensures
            self.scan_set(j, want, stop, bound) matches Some(r) ==> j <= r < bound,
        decreases bound - j,
    {
        if j < bound && j >= 0 {
            self.lemma_scan_set_range(j + 1, want, stop, bound);
        }
    }

    /// A node found by `next_until` lies further down the chain.
    pub proof fn lemma_next_until_below(self, n: usize, kind: NodeKind, stop_type: NodeKind)
        requires
            self.links_wf(),
            self.order@.contains(n),
        ensures
            self.next_until_spec(n, kind, stop_type) matches Some(m) ==> self.order@.contains(m) && self.pos(m) > self.pos(n),
    {
        let k = choose|p: int| 0 <= p < self.order@.len() && self.order@[p] == n;
        self.lemma_pos(k);
        self.lemma_scan_set_range(self.pos(n) + 1, kind.spec_mask(), stop_type.spec_mask(), self.order@.len() as int);
        match self.scan_set(self.pos(n) + 1, kind.spec_mask(), stop_type.spec_mask(), self.order@.len() as int) {
            Some(j) => {
                self.lemma_pos(j);
                assert(self.order@.contains(self.order@[j]));
            },
            None => {},
        }
    }

    /// The pointer-input nodes a hit passes through, starting at `first`:
    /// each next one is the next pointer-input node below the one before,
    /// unless a layout node comes first; after the last one the children
    /// are tested.
    pub fn hit(&self, first: usize) -> (r: Vec<usize>)
        requires
            self.links_wf(),
            self.order@.contains(first),
        ensures
            r@.len() >= 1,
            r@[0] == first,
            forall|i: int| 0 <= i < r@.len() - 1 ==>
                self.next_until_spec(#[trigger] r@[i], NodeKind::PointerInput, NodeKind::Layout) == Some(r@[i + 1]),
            self.next_until_spec(r@.last(), NodeKind::PointerInput, NodeKind::Layout) is None,
    {
        let mut r: Vec<usize> = Vec::new();
        r.push(first);
        let mut current = first;
        loop
            invariant
                self.links_wf(),
                self.order@.contains(current),
                r@.len() >= 1,
                r@[0] == first,
                r@.last() == current,
                forall|i: int| 0 <= i < r@.len() - 1 ==>
                    self.next_until_spec(#[trigger] r@[i], NodeKind::PointerInput, NodeKind::Layout) == Some(r@[i + 1]),
            ensures
                r@.len() >= 1,
                r@[0] == first,
                r@.last() == current,
                forall|i: int| 0 <= i < r@.len() - 1 ==>
                    self.next_until_spec(#[trigger] r@[i], NodeKind::PointerInput, NodeKind::Layout) == Some(r@[i + 1]),
                self.next_until_spec(current, NodeKind::PointerInput, NodeKind::Layout) is None,
            decreases self.order@.len() - self.pos(current),
        {
            proof {
                self.lemma_next_until_below(current, NodeKind::PointerInput, NodeKind::Layout);
                let k = choose|p: int| 0 <= p < self.order@.len() && self.order@[p] == current;
                self.lemma_pos(k);
            }
            match self.next_until(current, NodeKind::PointerInput, NodeKind::Layout) {
                Some(next) => {
                    let ghost before = r@;
                    r.push(next);
                    proof {
                        assert forall|i: int| 0 <= i < r@.len() - 1 implies
                            self.next_until_spec(#[trigger] r@[i], NodeKind::PointerInput, NodeKind::Layout) == Some(r@[i + 1]) by {
                            if i < before.len() - 1 {
                                assert(r@[i] == before[i] && r@[i + 1] == before[i + 1]);
                            }
                        }
                    }
                    current = next;
                },
                None => {
                    break;
                },
            }
        }
        r
    }

    pub fn next_until(&self, n: usize, kind: NodeKind, stop_type: NodeKind) -> (r: Option<usize>)
        requires
            self.links_wf(),
            self.order@.contains(n),
        ensures
            r == self.next_until_spec(n, kind, stop_type),
    {
        let ghost o = self.order@;
        let ghost k = self.pos(n);
        proof {
            self.lemma_child_in_chain(k);
        }
        let child = match self.nodes[n].node_impl.get_child() {
            Some(ch) => ch,
            None => {
                return None;
            },
        };
        if self.nodes[child].node_impl.get_aggregate_child_kind_set() & kind.mask() == 0 {
            return None;
        }
        let mut next = Some(child);
        let ghost mut j: int = k + 1;
        let want = kind.mask();
        let stop = stop_type.mask();
        while next.is_some()
            invariant
                self.links_wf(),
                o == self.order@,
                0 <= k < o.len(),
                k + 1 <= j <= o.len(),
                next == (if j < o.len() { Some(o[j]) } else { None::<usize> }),
                want == kind.spec_mask(),
                stop == stop_type.spec_mask(),
                k == self.pos(n),
                self.nodes@[n as int].node_impl.child == Some(child),
                self.nodes@[child as int].node_impl.aggregate_child_kind_set & kind.spec_mask() != 0,
                self.scan_set(k + 1, want, stop, o.len() as int) == self.scan_set(j, want, stop, o.len() as int),
            decreases o.len() - j,
        {
            let m = next.unwrap();
            let kind_set = self.nodes[m].node_impl.get_kind_set();
            proof {
                assert(self.kind_set_at(j) == kind_set);
            }
            if kind_set & stop != 0 {
                return None;
            }
            if want & kind_set != 0 {
                return next;
            }
            proof {
                self.lemma_child_in_chain(j);
            }
            next = self.nodes[m].node_impl.get_child();
            proof {
                j = j + 1;
            }
        }
        None
    }

    /// The coordinators of the layout nodes at positions `j..`, outermost
    /// first.
    pub open spec fn coordinators_from(self, j: int) -> Seq<usize>
        decreases self.order@.len() - j,
    {
        if j >= self.order@.len() - 1 || j < 0 {
            Seq::empty()
        } else if self.is_layout(self.order@[j]) {
            seq![self.nodes@[self.order@[j] as int].node_impl.coordinator.unwrap()] + self.coordinators_from(j + 1)
        } else {
            self.coordinators_from(j + 1)
        }
    }

    proof fn lemma_coordinators_from_skip(self, j: int, q: int)
        requires
            0 <= j <= q <= self.order@.len() - 1,
            forall|r: int| j <= r < q ==> !self.is_layout(#[trigger] self.order@[r]),
        ensures
            self.coordinators_from(j) == self.coordinators_from(q),
        decreases q - j,
    {
        if j < q {
            self.lemma_coordinators_from_skip(j + 1, q);
        }
    }

    /// The coordinators of the layout nodes, from the outermost inward, as
    /// reached by following `wrapped` from the outer coordinator down to
    /// the inner one.
    #[verifier::spinoff_prover]
    pub fn for_each_coordinator(&self) -> (r: Vec<usize>)
        requires
            self.wf(),
        ensures
            r@ == self.coordinators_from(0),
    {
        let ghost o = self.order@;
        let mut result: Vec<usize> = Vec::new();
        let mut coordinator = self.outer_coordinator;
        let ghost mut j: int = 0;
        proof {
            assert(result@ + self.coordinators_from(0) =~= self.coordinators_from(0));
        }
        while coordinator != INNER
            invariant
                self.wf(),
                o == self.order@,
                0 <= j <= o.len() - 1,
                coordinator == self.coordinator_below(j),
                result@ + self.coordinators_from(j) == self.coordinators_from(0),
            decreases o.len() - j,
        {
            proof {
                assert forall|r: int| j <= r < o.len() - 1 && self.is_layout(#[trigger] o[r]) implies self.nodes@[o[r] as int].node_impl.coordinator is Some by {
                    assert(self.position_synced(r));
                }
                self.lemma_below_shape(j);
            }
            let ghost q = choose|q: int| {
                &&& j <= q < o.len() - 1
                &&& self.is_layout(#[trigger] o[q])
                &&& self.nodes@[o[q] as int].node_impl.coordinator == Some(self.coordinator_below(j))
                &&& forall|r: int| j <= r < q ==> !self.is_layout(#[trigger] o[r])
            };
            proof {
                assert(self.position_synced(q));
                self.lemma_coordinators_from_skip(j, q);
                assert(self.coordinators_from(j) == seq![coordinator] + self.coordinators_from(q + 1));
                assert(result@.push(coordinator) + self.coordinators_from(q + 1) =~= result@ + self.coordinators_from(j));
            }
            result.push(coordinator);
            coordinator = self.coordinators[coordinator].get_wrapped().unwrap();
            proof {
                j = q + 1;
            }
        }
        proof {
            assert forall|r: int| j <= r < o.len() - 1 && self.is_layout(#[trigger] o[r]) implies self.nodes@[o[r] as int].node_impl.coordinator is Some by {
                assert(self.position_synced(r));
            }
            self.lemma_below_shape(j);
            if !(forall|r: int| j <= r < o.len() - 1 ==> !self.is_layout(#[trigger] o[r])) {
                let q = choose|q: int| {
                    &&& j <= q < o.len() - 1
                    &&& self.is_layout(#[trigger] o[q])
                    &&& self.nodes@[o[q] as int].node_impl.coordinator == Some(self.coordinator_below(j))
                    &&& forall|r: int| j <= r < q ==> !self.is_layout(#[trigger] o[r])
                };
                assert(self.position_synced(q));
            }
            self.lemma_coordinators_from_skip(j, o.len() - 1);
            assert(result@ =~= self.coordinators_from(0));
        }
        result
    }

    /// What drawing the content below `draw_node` continues with: the next
    /// draw node before any layout node, or else the coordinator that draws
    /// what lies below.
    pub fn draw_content(&self, draw_node: usize) -> (r: DrawStep)
        requires
            self.wf(),
            self.order@.contains(draw_node),
            draw_node != TAIL,
        ensures
            r == (match self.scan(self.pos(draw_node) + 1, NodeKind::Draw.spec_mask(), NodeKind::Layout.spec_mask(), self.order@.len() as int) {
                Some(j) => DrawStep::Node(self.order@[j]),
                None => {
                    let own = self.nodes@[draw_node as int].node_impl.coordinator.unwrap();
                    DrawStep::Coordinator(
                        if self.coordinators@[own as int].tail == draw_node {
                            self.coordinators@[own as int].wrapped.unwrap()
                        } else {
                            own
                        },
                    )
                },
            }),
    {
        let ghost o = self.order@;
        proof {
            let k = choose|p: int| 0 <= p < o.len() && o[p] == draw_node;
            self.lemma_pos(k);
            assert(k < o.len() - 1);
            assert(self.position_synced(k));
            let own = self.nodes@[draw_node as int].node_impl.coordinator.unwrap();
            if self.coordinators@[own as int].tail == draw_node {
                if !self.is_layout(draw_node) {
                    let below = self.coordinator_below(k + 1);
                    assert(self.coordinator_in_range(self.coordinators@[below as int]));
                    assert forall|r: int| k + 1 <= r < o.len() - 1 && self.is_layout(#[trigger] o[r]) implies self.nodes@[o[r] as int].node_impl.coordinator is Some by {
                        assert(self.position_synced(r));
                    }
                    self.lemma_below_shape(k + 1);
                    if below == INNER {
                        assert(o[o.len() - 1] == TAIL);
                    } else {
                        let q = choose|q: int| {
                            &&& k + 1 <= q < o.len() - 1
                            &&& self.is_layout(#[trigger] o[q])
                            &&& self.nodes@[o[q] as int].node_impl.coordinator == Some(below)
                            &&& forall|r: int| k + 1 <= r < q ==> !self.is_layout(#[trigger] o[r])
                        };
                        assert(self.position_synced(q));
                        assert(o[q] != o[k]);
                    }
                }
            }
        }
        match self.next_draw_node(draw_node) {
            Some(n) => DrawStep::Node(n),
            None => {
                let coordinator = self.require_coordinator(draw_node, NodeKind::Draw);
                if self.coordinators[coordinator].get_tail() == draw_node {
                    DrawStep::Coordinator(self.coordinators[coordinator].get_wrapped().unwrap())
                } else {
                    DrawStep::Coordinator(coordinator)
                }
            },
        }
    }

    /// What hit testing at coordinator `c` does, given whether the pointer
    /// is within the layer's bounds and within the measured bounds.
    pub fn hit_test(&self, c: usize, within_layer_bounds: bool, pointer_in_bounds: bool) -> (r: HitTestStep)
        requires
            self.links_wf(),
            c < self.coordinators@.len(),
            c == self.outer_coordinator || !(self.coordinators@[c as int].wrapped_by matches Some(WrappedBy::ParentInner { .. })),
        ensures
            r == (if !within_layer_bounds {
                HitTestStep::OutsideLayer
            } else {
                match self.spec_head(c, NodeKind::PointerInput) {
                    None => HitTestStep::Children,
                    Some(h) => if pointer_in_bounds {
                        HitTestStep::Hit(h)
                    } else {
                        HitTestStep::Missed
                    },
                }
            }),
    {
        let head = self.head(c, NodeKind::PointerInput);
        if !within_layer_bounds {
            HitTestStep::OutsideLayer
        } else if head.is_none() {
            HitTestStep::Children
        } else if pointer_in_bounds {
            HitTestStep::Hit(head.unwrap())
        } else {
            HitTestStep::Missed
        }
    }

    proof fn lemma_filter_range_front(self, a: int, b: int, mask: u32)
        requires
            a < b,
        ensures
            self.filter_range(a, b, mask) == (if self.kind_at(a) & mask != 0 {
                seq![self.order@[a]]
            } else {
                Seq::empty()
            }) + self.filter_range(a + 1, b, mask),
        decreases b - a,
    {
        if a + 1 < b {
            self.lemma_filter_range_front(a, b - 1, mask);
        } else {
            assert(self.filter_range(a + 1, b, mask) =~= Seq::<usize>::empty());
            assert(self.filter_range(a, b - 1, mask) =~= Seq::<usize>::empty());
        }
        let front = if self.kind_at(a) & mask != 0 { seq![self.order@[a]] } else { Seq::<usize>::empty() };
        if self.kind_at(b - 1) & mask != 0 {
            assert(front + self.filter_range(a + 1, b - 1, mask).push(self.order@[b - 1]) =~= (front + self.filter_range(a + 1, b - 1, mask)).push(self.order@[b - 1]));
        }
    }

    /// The parent-data nodes, from the tail up to the head: the order in
    /// which they refine the parent data.
    pub fn parent_data_nodes(&self) -> (r: Vec<usize>)
        requires
            self.links_wf(),
        ensures
            r@ == self.filter_range(0, self.order@.len() as int, NodeKind::ParentData.spec_mask()).reverse(),
    {
        let ghost o = self.order@;
        let mask = NodeKind::ParentData.mask();
        let mut result: Vec<usize> = Vec::new();
        let mut node: Option<usize> = Some(self.get_tail());
        let ghost mut j: int = o.len() - 1;
        proof {
            assert(self.filter_range(o.len() as int, o.len() as int, mask).reverse() =~= Seq::<usize>::empty());
        }
        while node.is_some()
            invariant
                self.links_wf(),
                o == self.order@,
                -1 <= j < o.len(),
                mask == NodeKind::ParentData.spec_mask(),
                node == (if j >= 0 { Some(o[j]) } else { None::<usize> }),
                result@ == self.filter_range(j + 1, o.len() as int, mask).reverse(),
            decreases j + 1,
        {
            let n = node.unwrap();
            proof {
                self.lemma_filter_range_front(j, o.len() as int, mask);
                assert(self.kind_at(j) == self.nodes@[n as int].node_kind);
            }
            if self.dispatch_for_kind(n, NodeKind::ParentData) {
                proof {
                    let km = self.kind_at(j);
                    assert(mask & km == km & mask) by (bit_vector);
                    assert((seq![o[j]] + self.filter_range(j + 1, o.len() as int, mask)).reverse() =~= self.filter_range(j + 1, o.len() as int, mask).reverse().push(o[j]));
                }
                result.push(n);
            } else {
                proof {
                    let km = self.kind_at(j);
                    assert(mask & km == km & mask) by (bit_vector);
                    assert(Seq::<usize>::empty() + self.filter_range(j + 1, o.len() as int, mask) =~= self.filter_range(j + 1, o.len() as int, mask));
                }
            }
            proof {
                self.lemma_child_in_chain(j);
            }
            node = self.nodes[n].node_impl.get_parent();
            proof {
                j = j - 1;
            }
        }
        result
    }

    /// Sets what wraps the outer coordinator; the chain stays tied to its
    /// coordinators.
    pub fn set_outer_wrapped_by(&mut self, wrapped_by: Option<WrappedBy>)
        requires
            old(self).wf(),
            wrapped_by matches Some(WrappedBy::Local { index }) ==> index < old(self).coordinators@.len(),
        ensures
            final(self).wf(),
            final(self).coordinators@[final(self).outer_coordinator as int].wrapped_by == wrapped_by,
            final(self).coordinators@.len() == old(self).coordinators@.len(),
            final(self).coordinators@ == old(self).coordinators@.update(
                old(self).outer_coordinator as int,
                NodeCoordinatorImpl { wrapped_by, ..old(self).coordinators@[old(self).outer_coordinator as int] },
            ),
            final(self).nodes@ == old(self).nodes@,
            final(self).order@ == old(self).order@,
            final(self).head == old(self).head,
            final(self).outer_coordinator == old(self).outer_coordinator,
            final(self).modifier_container.current@ == old(self).modifier_container.current@,
            final(self).parent == old(self).parent,
            final(self).layout_node == old(self).layout_node,
            final(self).identify == old(self).identify,
    {
        let ghost before = *self;
        let outer = self.outer_coordinator;
        self.set_coordinator_wrapped_by(outer, wrapped_by);
        proof {
            self.lemma_sync_finish(before);
            assert forall|c: int| 0 <= c < self.coordinators@.len() implies self.coordinator_in_range(#[trigger] self.coordinators@[c]) by {
                assert(before.coordinator_in_range(before.coordinators@[c]));
            }
        }
    }

    /// Replaces coordinator `c` by one with the same links.
    pub fn replace_coordinator(&mut self, c: usize, coordinator: NodeCoordinatorImpl)
        requires
            old(self).wf(),
            c < old(self).coordinators@.len(),
            coordinator.tail == old(self).coordinators@[c as int].tail,
            coordinator.wrapped == old(self).coordinators@[c as int].wrapped,
            coordinator.wrapped_by == old(self).coordinators@[c as int].wrapped_by,
        ensures
            final(self).wf(),
            final(self).coordinators@ == old(self).coordinators@.update(c as int, coordinator),
            final(self).same_but_coordinators(*old(self)),
            final(self).outer_coordinator == old(self).outer_coordinator,
    {
        self.coordinators.set(c, coordinator);
        proof {
            self.lemma_below_same_nodes(*old(self), 0);
            assert forall|k: int| 0 <= k < self.order@.len() - 1 implies #[trigger] self.position_synced(k) by {
                self.lemma_below_same_nodes(*old(self), k + 1);
                assert(old(self).position_synced(k));
            }
            assert forall|i: int| 0 <= i < self.coordinators@.len() implies self.coordinator_in_range(#[trigger] self.coordinators@[i]) by {
                assert(old(self).coordinator_in_range(old(self).coordinators@[i]));
            }
        }
    }
}

/// What drawing one of a chain's coordinators does.
pub trait DrawableNodeCoordinator {
    spec fn can_draw(&self, c: usize) -> bool;

    spec fn draw_spec(&self, c: usize) -> CoordinatorDraw;

    fn draw(&self, c: usize) -> (r: CoordinatorDraw)
        requires
            self.can_draw(c),
        ensures
            r == self.draw_spec(c),
    ;
}

impl DrawableNodeCoordinator for NodeChain {
    open spec fn can_draw(&self, c: usize) -> bool {
        &&& self.links_wf()
        &&& c < self.coordinators@.len()
        &&& c == self.outer_coordinator || !(self.coordinators@[c as int].wrapped_by matches Some(WrappedBy::ParentInner { .. }))
    }

    /// A coordinator with a layer is drawn by it; otherwise, moved to its
    /// position, its first draw node draws, or with none the wrapped
    /// coordinator draws.
    open spec fn draw_spec(&self, c: usize) -> CoordinatorDraw {
        if self.coordinators@[c as int].has_layer {
            CoordinatorDraw::Layer
        } else {
            let offset = self.coordinators@[c as int].get_position_spec();
            match self.spec_head(c, NodeKind::Draw) {
                Some(h) => CoordinatorDraw::Nodes { offset, head: h },
                None => CoordinatorDraw::Wrapped { offset, wrapped: self.coordinators@[c as int].wrapped },
            }
        }
    }

    fn draw(&self, c: usize) -> (r: CoordinatorDraw)
        ensures
            r matches CoordinatorDraw::Nodes { offset, .. } ==> offset == self.coordinators@[c as int].look_ahead_capable_placeable_impl.position,
            r matches CoordinatorDraw::Wrapped { offset, .. } ==> offset == self.coordinators@[c as int].look_ahead_capable_placeable_impl.position,
    {
        if self.coordinators[c].has_layer {
            return CoordinatorDraw::Layer;
        }
        let offset = self.coordinators[c].get_position();
        match self.head(c, NodeKind::Draw) {
            Some(h) => CoordinatorDraw::Nodes { offset, head: h },
            None => CoordinatorDraw::Wrapped { offset, wrapped: self.coordinators[c].wrapped },
        }
    }
}

impl NodeChain {
    /// What `scan` finds, said position by position: the first position
    /// from `j` on whose node has a `want` bit, provided no node up to and
    /// including it has a `stop` bit; without one, every `want` node is
    /// preceded (or met) by a `stop` node.
    pub proof fn lemma_scan_first(self, j: int, want: u32, stop: u32, bound: int)
        requires
            0 <= j,
        ensures
            match self.scan(j, want, stop, bound) {
                Some(r) => {
                    &&& j <= r < bound
                    &&& self.kind_at(r) & want != 0
                    &&& self.kind_at(r) & stop == 0
                    &&& forall|p: int| j <= p < r ==> #[trigger] self.kind_at(p) & want == 0 && self.kind_at(p) & stop == 0
                },
                None => forall|p: int|
                    j <= p < bound && #[trigger] self.kind_at(p) & want != 0 ==> exists|q: int| j <= q <= p && #[trigger] self.kind_at(q) & stop != 0,
            },
        decreases bound - j,
    {
        if j >= bound {
        } else if self.kind_at(j) & stop != 0 {
            assert forall|p: int| j <= p < bound && #[trigger] self.kind_at(p) & want != 0 implies exists|q: int| j <= q <= p && #[trigger] self.kind_at(q) & stop != 0 by {
                assert(self.kind_at(j) & stop != 0);
            }
        } else if self.kind_at(j) & want != 0 {
        } else {
            self.lemma_scan_first(j + 1, want, stop, bound);
            if self.scan(j + 1, want, stop, bound) is None {
                assert forall|p: int| j <= p < bound && #[trigger] self.kind_at(p) & want != 0 implies exists|q: int| j <= q <= p && #[trigger] self.kind_at(q) & stop != 0 by {
                    if p > j {
                        let q = choose|q: int| j + 1 <= q <= p && #[trigger] self.kind_at(q) & stop != 0;
                        assert(j <= q <= p);
                    }
                }
            }
        }
    }

    /// As `lemma_scan_first`, over the nodes' bookkeeping kind sets.
    pub proof fn lemma_scan_set_first(self, j: int, want: u32, stop: u32, bound: int)
        requires
            0 <= j,
        ensures
            match self.scan_set(j, want, stop, bound) {
                Some(r) => {
                    &&& j <= r < bound
                    &&& want & self.kind_set_at(r) != 0
                    &&& self.kind_set_at(r) & stop == 0
                    &&& forall|p: int| j <= p < r ==> want & #[trigger] self.kind_set_at(p) == 0 && self.kind_set_at(p) & stop == 0
                },
                None => forall|p: int|
                    j <= p < bound && want & #[trigger] self.kind_set_at(p) != 0 ==> exists|q: int| j <= q <= p && #[trigger] self.kind_set_at(q) & stop != 0,
            },
        decreases bound - j,
    {
        if j >= bound {
        } else if self.kind_set_at(j) & stop != 0 {
            assert forall|p: int| j <= p < bound && want & #[trigger] self.kind_set_at(p) != 0 implies exists|q: int| j <= q <= p && #[trigger] self.kind_set_at(q) & stop != 0 by {
                assert(self.kind_set_at(j) & stop != 0);
            }
        } else if want & self.kind_set_at(j) != 0 {
        } else {
            self.lemma_scan_set_first(j + 1, want, stop, bound);
            if self.scan_set(j + 1, want, stop, bound) is None {
                assert forall|p: int| j <= p < bound && want & #[trigger] self.kind_set_at(p) != 0 implies exists|q: int| j <= q <= p && #[trigger] self.kind_set_at(q) & stop != 0 by {
                    if p > j {
                        let q = choose|q: int| j + 1 <= q <= p && #[trigger] self.kind_set_at(q) & stop != 0;
                        assert(j <= q <= p);
                    }
                }
            }
        }
    }

    /// Drawing below a draw node stays within its coordinator: the next
    /// draw node found (by `next_draw_node`, or by `draw_content` as a
    /// `DrawStep::Node`) lies further down, draws, and no node after `n` up
    /// to it is a layout node, nor does a draw node come between. When none
    /// is found, every draw node below `n` lies past a layout node.
    pub proof fn lemma_next_draw_node_within_coordinator(self, n: usize)
        requires
            self.links_wf(),
            self.order@.contains(n),
        ensures
            ({
                let k = self.pos(n);
                let draw = NodeKind::Draw.spec_mask();
                let layout = NodeKind::Layout.spec_mask();
                &&& 0 <= k < self.order@.len()
                &&& match self.scan(k + 1, draw, layout, self.order@.len() as int) {
                    Some(j) => {
                        &&& k < j < self.order@.len()
                        &&& self.nodes@[self.order@[j] as int].node_kind & draw != 0
                        &&& forall|p: int| k < p <= j ==> #[trigger] self.kind_at(p) & layout == 0
                        &&& forall|p: int| k < p < j ==> #[trigger] self.kind_at(p) & draw == 0
                    },
                    None => forall|p: int|
                        k < p < self.order@.len() && #[trigger] self.kind_at(p) & draw != 0
                            ==> exists|q: int| k < q <= p && #[trigger] self.kind_at(q) & layout != 0,
                }
            }),
    {
        let p0 = choose|p: int| 0 <= p < self.order@.len() && self.order@[p] == n;
        self.lemma_pos(p0);
        let k = self.pos(n);
        self.lemma_scan_first(k + 1, NodeKind::Draw.spec_mask(), NodeKind::Layout.spec_mask(), self.order@.len() as int);
    }

    /// The first node of a coordinator that takes part in `kind` is the
    /// first of the nodes its walk visits for that kind: it takes part in
    /// `kind`, no node before it on the walk does, and with none found no
    /// node of the walk does.
    pub proof fn lemma_head_is_first(self, c: usize, kind: NodeKind)
        requires
            self.links_wf(),
        ensures
            match (self.spec_head_node(c, kind == NodeKind::LayoutAware), self.spec_stop_node(c, kind == NodeKind::LayoutAware)) {
                (Some(start), Some(stop)) => self.order@.contains(start) ==> {
                    let a = self.pos(start);
                    let b = self.walk_bound(a, self.pos(stop));
                    let visited = self.filter_range(a, b, kind.spec_mask());
                    &&& self.spec_head(c, kind) == (if visited.len() == 0 { None } else { Some(visited[0]) })
                    &&& (match self.spec_head(c, kind) {
                        Some(h) => exists|j: int| {
                            &&& a <= j < b
                            &&& self.order@[j] == h
                            &&& #[trigger] self.kind_at(j) & kind.spec_mask() != 0
                            &&& forall|p: int| a <= p < j ==> #[trigger] self.kind_at(p) & kind.spec_mask() == 0
                        },
                        None => forall|p: int| a <= p < b ==> #[trigger] self.kind_at(p) & kind.spec_mask() == 0,
                    })
                },
                _ => self.spec_head(c, kind) is None,
            },
    {
        let include_tail = kind == NodeKind::LayoutAware;
        match (self.spec_head_node(c, include_tail), self.spec_stop_node(c, include_tail)) {
            (Some(start), Some(stop)) => {
                if self.order@.contains(start) {
                    let p0 = choose|p: int| 0 <= p < self.order@.len() && self.order@[p] == start;
                    self.lemma_pos(p0);
                    let a = self.pos(start);
                    let b = self.walk_bound(a, self.pos(stop));
                    self.lemma_scan_is_first_of_filter(a, b, kind.spec_mask());
                    self.lemma_scan_first(a, kind.spec_mask(), 0, b);
                    match self.scan(a, kind.spec_mask(), 0, b) {
                        Some(j) => {
                            assert(self.kind_at(j) & kind.spec_mask() != 0);
                            assert(a <= j < b && self.order@[j] == self.order@[j]);
                        },
                        None => {
                            assert forall|p: int| a <= p < b implies #[trigger] self.kind_at(p) & kind.spec_mask() == 0 by {
                                if self.kind_at(p) & kind.spec_mask() != 0 {
                                    let q = choose|q: int| a <= q <= p && #[trigger] self.kind_at(q) & 0 != 0;
                                    let kq = self.kind_at(q);
                                    assert(kq & 0u32 == 0u32) by (bit_vector);
                                }
                            }
                        },
                    }
                }
            },
            _ => {},
        }
    }

    /// A scan with no stop bit finds the first of the nodes `filter_range`
    /// lists.
    proof fn lemma_scan_is_first_of_filter(self, a: int, b: int, mask: u32)
        ensures
            match self.scan(a, mask, 0, b) {
                Some(j) => self.filter_range(a, b, mask).len() > 0 && self.filter_range(a, b, mask)[0] == self.order@[j],
                None => 0 <= a ==> self.filter_range(a, b, mask).len() == 0,
            },
        decreases b - a,
    {
        if a >= b || a < 0 {
            if a >= b {
                assert(self.filter_range(a, b, mask) =~= Seq::<usize>::empty());
            }
        } else {
            let k = self.kind_at(a);
            assert(k & 0u32 == 0u32) by (bit_vector);
            self.lemma_filter_range_front(a, b, mask);
            self.lemma_scan_is_first_of_filter(a + 1, b, mask);
        }
    }

    /// Hitting onward from `n` stays within `n`'s coordinator: a node found
    /// by `next_until` lies further down, takes part in `kind`, no node
    /// after `n` up to it is of `stop_type`, and no node of `kind` comes
    /// between.
    pub proof fn lemma_next_until_stops_at(self, n: usize, kind: NodeKind, stop_type: NodeKind)
        requires
            self.links_wf(),
            self.order@.contains(n),
        ensures
            self.next_until_spec(n, kind, stop_type) matches Some(m) ==> {
                let k = self.pos(n);
                exists|j: int| {
                    &&& k < j < self.order@.len()
                    &&& self.order@[j] == m
                    &&& #[trigger] self.kind_set_at(j) & kind.spec_mask() != 0
                    &&& forall|p: int| k < p <= j ==> #[trigger] self.kind_set_at(p) & stop_type.spec_mask() == 0
                    &&& forall|p: int| k < p < j ==> #[trigger] self.kind_set_at(p) & kind.spec_mask() == 0
                }
            },
    {
        let p0 = choose|p: int| 0 <= p < self.order@.len() && self.order@[p] == n;
        self.lemma_pos(p0);
        let k = self.pos(n);
        let want = kind.spec_mask();
        let stop = stop_type.spec_mask();
        self.lemma_scan_set_first(k + 1, want, stop, self.order@.len() as int);
        match self.scan_set(k + 1, want, stop, self.order@.len() as int) {
            Some(j) => {
                let ks = self.kind_set_at(j);
                assert(want & ks == ks & want) by (bit_vector);
                assert forall|p: int| k < p < j implies #[trigger] self.kind_set_at(p) & want == 0 by {
                    let kp = self.kind_set_at(p);
                    assert(want & kp == kp & want) by (bit_vector);
                }
                assert(k < j < self.order@.len() && self.order@[j] == self.order@[j]);
            },
            None => {},
        }
    }
}

/// A coordinator without a layer draws at its own position: the offset
/// its content is moved by is where the coordinator was placed, and what
/// it draws first is its first draw node, or else the coordinator it wraps.
pub proof fn lemma_draw_at_position(chain: NodeChain, c: usize)
    requires
        chain.can_draw(c),
    ensures
        match chain.draw_spec(c) {
            CoordinatorDraw::Layer => chain.coordinators@[c as int].has_layer,
            CoordinatorDraw::Nodes { offset, head } => {
                &&& !chain.coordinators@[c as int].has_layer
                &&& offset == chain.coordinators@[c as int].look_ahead_capable_placeable_impl.position
                &&& chain.spec_head(c, NodeKind::Draw) == Some(head)
            },
            CoordinatorDraw::Wrapped { offset, wrapped } => {
                &&& !chain.coordinators@[c as int].has_layer
                &&& offset == chain.coordinators@[c as int].look_ahead_capable_placeable_impl.position
                &&& wrapped == chain.coordinators@[c as int].wrapped
                &&& chain.spec_head(c, NodeKind::Draw) is None
            },
        },
{
}

} // verus!
