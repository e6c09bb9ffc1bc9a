//! The kinds of modifier node and their bit masks.

use vstd::prelude::*;

verus! {

/// What a modifier node takes part in; each kind owns one bit of a kind set.
#[derive(Debug, PartialEq, Eq, Structural, Clone, Copy)]
pub enum NodeKind {
    Any,
    Layout,
    ParentData,
    Draw,
    LayoutAware,
    PointerInput,
}

/// The position of a kind's bit in a kind set.
pub open spec fn kind_bit(kind: NodeKind) -> u32 {
    match kind {
        NodeKind::Any => 0,
        NodeKind::Layout => 1,
        NodeKind::ParentData => 2,
        NodeKind::Draw => 3,
        NodeKind::LayoutAware => 4,
        NodeKind::PointerInput => 5,
    }
}

/// Distinct single bits below 32 share no bit; a single bit is not zero.
pub proof fn lemma_single_bits()
    by (bit_vector)
    ensures
        forall|i: u32, j: u32| #![auto] i < 32 && j < 32 ==> ((((1u32 << i) & (1u32 << j)) != 0) <==> i == j),
        forall|i: u32| #![auto] i < 32 ==> (1u32 << i) != 0,
{
}

impl NodeKind {
    pub open spec fn spec_mask(self) -> u32 {
        1u32 << kind_bit(self)
    }

    /// The kind's bit: `1 << n` for the n-th kind in declaration order.
    pub fn mask(&self) -> (m: u32)
        ensures
            m == self.spec_mask(),
    {
        match self {
            NodeKind::Any => 1u32 << 0u32,
            NodeKind::Layout => 1u32 << 1u32,
            NodeKind::ParentData => 1u32 << 2u32,
            NodeKind::Draw => 1u32 << 3u32,
            NodeKind::LayoutAware => 1u32 << 4u32,
            NodeKind::PointerInput => 1u32 << 5u32,
        }
    }

    /// The kind's bit, masked with `rhs`.
    pub fn bitand(self, rhs: u32) -> (r: u32)
        ensures
            r == self.spec_mask() & rhs,
    {
        self.mask() & rhs
    }

    /// The kind's bit, joined with `rhs`.
    pub fn bitor(self, rhs: u32) -> (r: u32)
        ensures
            r == self.spec_mask() | rhs,
    {
        self.mask() | rhs
    }

    /// Whether a traversal for this kind starts at the coordinator's own
    /// tail node: only layout-aware traversals do.
    pub fn include_self_in_traversal(&self) -> (b: bool)
        ensures
            b == (NodeKind::LayoutAware.spec_mask() & self.spec_mask() != 0),
            b <==> *self == NodeKind::LayoutAware,
    {
        proof {
            lemma_single_bits();
            lemma_kind_bit_injective(NodeKind::LayoutAware, *self);
        }
        NodeKind::LayoutAware.bitand(self.mask()) != 0
    }
}

/// Different kinds sit at different bit positions, all below 32.
pub proof fn lemma_kind_bit_injective(a: NodeKind, b: NodeKind)
    ensures
        kind_bit(a) < 32,
        kind_bit(b) < 32,
        kind_bit(a) == kind_bit(b) <==> a == b,
{
}

/// Two kinds' masks overlap exactly when the kinds are the same, and no mask
/// is zero.
pub proof fn lemma_masks_disjoint(a: NodeKind, b: NodeKind)
    ensures
        (a.spec_mask() & b.spec_mask() != 0) <==> a == b,
        a.spec_mask() != 0,
{
    lemma_single_bits();
    lemma_kind_bit_injective(a, b);
}

impl From<NodeKind> for u32 {
    fn from(value: NodeKind) -> (r: u32) {
        value.mask()
    }
}

impl vstd::std_specs::convert::FromSpecImpl<NodeKind> for u32 {
    open spec fn obeys_from_spec() -> bool {
        true
    }

    open spec fn from_spec(v: NodeKind) -> u32 {
        v.spec_mask()
    }
}

/// A type whose values report the kind set of the node they stand for.
pub trait NodeKindPatch {
    spec fn spec_node_kind(&self) -> u32;

    fn get_node_kind(&self) -> (k: u32)
        ensures
            k == self.spec_node_kind(),
    ;

    /// Whether the node's kind set holds `node_kind`'s bit.
    fn is_node_kind(&self, node_kind: NodeKind) -> (b: bool)
        ensures
            b == (node_kind.spec_mask() & self.spec_node_kind() != 0),
    {
        node_kind.bitand(self.get_node_kind()) != 0
    }
}

} // verus!
