//! Modifier nodes: the live objects an element creates, linked into a
//! layout node's chain. Links name other nodes by their index in the chain.

use vstd::prelude::*;
use crate::coordinator::NodeCoordinatorImpl;
use crate::geometry::{Density, IntSize};
use crate::modifier::Modifier;
use crate::node_kind::{NodeKind, NodeKindPatch};

verus! {

/// The link and bookkeeping state every modifier node carries.
#[derive(Debug, Clone, Copy, PartialEq, Eq, Structural)]
pub struct ModifierNodeImpl {
    pub parent: Option<usize>,
    pub child: Option<usize>,
    pub coordinator: Option<usize>,
    pub aggregate_child_kind_set: u32,
    pub kind_set: u32,
    pub is_attach: bool,
}

impl Default for ModifierNodeImpl {
    fn default() -> (n: ModifierNodeImpl)
        ensures
            n == ModifierNodeImpl::spec_default(),
    {
        ModifierNodeImpl {
            parent: None,
            child: None,
            coordinator: None,
            aggregate_child_kind_set: 0,
            kind_set: 0,
            is_attach: false,
        }
    }
}

impl ModifierNodeImpl {
    pub open spec fn spec_default() -> ModifierNodeImpl {
        ModifierNodeImpl {
            parent: None,
            child: None,
            coordinator: None,
            aggregate_child_kind_set: 0,
            kind_set: 0,
            is_attach: false,
        }
    }

    pub fn set_parent(&mut self, parent: Option<usize>)
        ensures
            *final(self) == (ModifierNodeImpl { parent, ..*old(self) }),
    {
        self.parent = parent;
    }

    pub fn get_parent(&self) -> (p: Option<usize>)
        ensures
            p == self.parent,
    {
        self.parent
    }

    pub fn set_child(&mut self, child: Option<usize>)
        ensures
            *final(self) == (ModifierNodeImpl { child, ..*old(self) }),
    {
        self.child = child;
    }

    pub fn get_child(&self) -> (c: Option<usize>)
        ensures
            c == self.child,
    {
        self.child
    }

    pub fn update_coordinator(&mut self, coordinator: Option<usize>)
        ensures
            *final(self) == (ModifierNodeImpl { coordinator, ..*old(self) }),
    {
        self.coordinator = coordinator;
    }

    pub fn get_coordinator(&self) -> (c: Option<usize>)
        ensures
            c == self.coordinator,
    {
        self.coordinator
    }

    pub fn get_aggregate_child_kind_set(&self) -> (k: u32)
        ensures
            k == self.aggregate_child_kind_set,
    {
        self.aggregate_child_kind_set
    }

    pub fn set_aggregate_child_kind_set(&mut self, child_kind_set: u32)
        ensures
            *final(self) == (ModifierNodeImpl { aggregate_child_kind_set: child_kind_set, ..*old(self) }),
    {
        self.aggregate_child_kind_set = child_kind_set;
    }

    pub fn get_kind_set(&self) -> (k: u32)
        ensures
            k == self.kind_set,
    {
        self.kind_set
    }

    pub fn set_kind_set(&mut self, kind_set: u32)
        ensures
            *final(self) == (ModifierNodeImpl { kind_set, ..*old(self) }),
    {
        self.kind_set = kind_set;
    }

    pub fn is_attach(&self) -> (b: bool)
        ensures
            b == self.is_attach,
    {
        self.is_attach
    }

    pub fn mark_as_attached(&mut self)
        ensures
            *final(self) == (ModifierNodeImpl { is_attach: true, ..*old(self) }),
    {
        self.is_attach = true;
    }

    pub fn mark_as_detached(&mut self)
        ensures
            *final(self) == (ModifierNodeImpl { is_attach: false, ..*old(self) }),
    {
        self.is_attach = false;
    }
}

/// A modifier node: the kind set its type declares, the key of the element
/// that made it (none for the chain's own sentinel and tail nodes), and its
/// link state.
#[derive(Debug, Clone, Copy, PartialEq, Eq, Structural)]
pub struct ModifierNode {
    pub node_kind: u32,
    pub element: Option<u64>,
    pub node_impl: ModifierNodeImpl,
}

impl ModifierNode {
    /// A detached node of kind `Any` that no element made.
    pub fn any_node() -> (n: ModifierNode)
        ensures
            n.node_kind == NodeKind::Any.spec_mask(),
            n.element is None,
            n.node_impl == ModifierNodeImpl::spec_default(),
    {
        ModifierNode { node_kind: NodeKind::Any.mask(), element: None, node_impl: ModifierNodeImpl::default() }
    }
}

impl NodeKindPatch for ModifierNode {
    open spec fn spec_node_kind(&self) -> u32 {
        self.node_kind
    }

    fn get_node_kind(&self) -> (k: u32) {
        self.node_kind
    }
}

/// The kind set of `node` counting the nodes it delegates to; a node of
/// this library delegates to none, so it is the node's own kind set.
pub fn calculate_node_kind_set_from_includeing_delegates(node: &ModifierNode) -> (k: u32)
    ensures
        k == node.node_kind,
{
    node.get_node_kind()
}

/// Draws one draw node met while drawing a chain's content; the node
/// itself draws nothing at this level.
pub fn perform_draw(draw_modifier_node: &ModifierNode) {
}

/// A node that is told when its coordinator was placed or remeasured; by
/// default it does nothing.
pub trait LayoutAwareModifierNode {
    fn on_placed(&self, coordinates: &NodeCoordinatorImpl) {
    }

    fn on_remeasured(&self, size: IntSize) {
    }
}

/// A node that refines the data its layout node hands to the parent,
/// given what the nodes below it made of it.
pub trait ParentDataModifierNode<D> {
    fn modify_parent_data(&mut self, density: Density, parent_data: Option<D>) -> Option<D>;
}

/// The flattened modifier a layout node's chain was last built from.
#[derive(Debug)]
pub struct LayoutNodeContainer {
    pub current: Vec<Modifier>,
}

impl LayoutNodeContainer {
    pub fn new() -> (c: LayoutNodeContainer)
        ensures
            c.current@.len() == 0,
    {
        LayoutNodeContainer { current: Vec::new() }
    }
}

} // verus!
