//! A node coordinator: one measuring and placing step of a layout node,
//! linked inward to the coordinator it wraps and outward to the one that
//! wraps it.

use vstd::prelude::*;
use crate::geometry::{Density, IntOffset, IntSize, LayoutDirection};
use crate::placeable::{measure_result_eq, LookaheadCapablePlaceable, LookaheadCapablePlaceableImpl, MeasureResult, Measured, PlaceableImpl};

verus! {

/// The coordinator that wraps another: one of the same chain, by index, or
/// the inner coordinator of the parent layout node, by the parent's identity.
#[derive(Debug, Clone, Copy, PartialEq, Eq, Structural)]
pub enum WrappedBy {
    Local { index: usize },
    ParentInner { layout_node: u32 },
}

/// The state of one coordinator. Modifier nodes are named by their index in
/// the owning chain, wrapped coordinators by their index in the same chain.
#[derive(Debug, Clone, Copy)]
pub struct NodeCoordinatorImpl {
    pub look_ahead_capable_placeable_impl: LookaheadCapablePlaceableImpl,
    pub wrapped: Option<usize>,
    pub wrapped_by: Option<WrappedBy>,
    pub layout_node: Option<u32>,
    pub tail: usize,
    pub measure_result: Option<MeasureResult>,
    pub is_clipping: bool,
    pub has_layer: bool,
    pub layer_block: Option<u64>,
    pub layer_density: Density,
    pub layer_layout_direction: LayoutDirection,
}

/// What `update_layer_block` does with the layer.
#[derive(Debug, Clone, Copy, PartialEq, Eq, Structural)]
pub enum LayerUpdate {
    /// A layer is made and its parameters are set.
    Created,
    /// The existing layer is kept as it is.
    Kept,
    /// There is no layer afterwards.
    Released,
}

/// Whether two layer blocks are the same block: both present and equal.
pub open spec fn same_layer_block(left: Option<u64>, right: Option<u64>) -> bool {
    match (left, right) {
        (Some(l), Some(r)) => l == r,
        _ => false,
    }
}

impl NodeCoordinatorImpl {
    pub open spec fn wf(self) -> bool {
        self.look_ahead_capable_placeable_impl.wf()
    }

    /// A detached coordinator whose last modifier node is `tail`.
    pub fn new(tail: usize) -> (c: NodeCoordinatorImpl)
        ensures
            c.wf(),
            c.wrapped is None,
            c.wrapped_by is None,
            c.layout_node is None,
            c.tail == tail,
            c.measure_result is None,
            !c.is_clipping,
            !c.has_layer,
            c.layer_block is None,
            c.look_ahead_capable_placeable_impl.placeable_impl.measured_size == IntSize::spec_zero(),
            c.look_ahead_capable_placeable_impl.position == (IntOffset { x: 0, y: 0 }),
    {
        NodeCoordinatorImpl {
            look_ahead_capable_placeable_impl: LookaheadCapablePlaceableImpl::default(),
            wrapped: None,
            wrapped_by: None,
            layout_node: None,
            tail,
            measure_result: None,
            is_clipping: false,
            has_layer: false,
            layer_block: None,
            layer_density: Density::default(),
            layer_layout_direction: LayoutDirection::default(),
        }
    }

    pub fn attach(&mut self, layout_node: u32)
        ensures
            *final(self) == (NodeCoordinatorImpl { layout_node: Some(layout_node), ..*old(self) }),
    {
        self.layout_node = Some(layout_node);
    }

    pub fn layout_node(&self) -> (n: Option<u32>)
        ensures
            n == self.layout_node,
    {
        self.layout_node
    }

    pub fn set_wrapped(&mut self, wrapped: Option<usize>)
        ensures
            *final(self) == (NodeCoordinatorImpl { wrapped, ..*old(self) }),
    {
        self.wrapped = wrapped;
    }

    pub fn get_wrapped(&self) -> (w: Option<usize>)
        ensures
            w == self.wrapped,
    {
        self.wrapped
    }

    pub fn set_wrapped_by(&mut self, wrapped_by: Option<WrappedBy>)
        ensures
            *final(self) == (NodeCoordinatorImpl { wrapped_by, ..*old(self) }),
    {
        self.wrapped_by = wrapped_by;
    }

    pub fn get_wrapped_by(&self) -> (w: Option<WrappedBy>)
        ensures
            w == self.wrapped_by,
    {
        self.wrapped_by
    }

    pub fn get_tail(&self) -> (t: usize)
        ensures
            t == self.tail,
    {
        self.tail
    }

    pub fn get_measured_size(&self) -> (s: IntSize)
        ensures
            s == self.look_ahead_capable_placeable_impl.placeable_impl.measured_size,
    {
        self.look_ahead_capable_placeable_impl.get_measured_size()
    }

    /// This coordinator with `size` as its measured size.
    pub open spec fn with_measured_size(self, size: IntSize) -> NodeCoordinatorImpl {
        NodeCoordinatorImpl {
            look_ahead_capable_placeable_impl: LookaheadCapablePlaceableImpl {
                placeable_impl: PlaceableImpl { measured_size: size, ..self.look_ahead_capable_placeable_impl.placeable_impl },
                ..self.look_ahead_capable_placeable_impl
            },
            ..self
        }
    }

    pub fn set_measured_size(&mut self, size: IntSize)
        ensures
            *final(self) == old(self).with_measured_size(size),
    {
        self.look_ahead_capable_placeable_impl.set_measured_size(size)
    }

    /// The coordinates' size: the measured size.
    pub fn size(&self) -> (s: IntSize)
        ensures
            s == self.look_ahead_capable_placeable_impl.placeable_impl.measured_size,
    {
        self.get_measured_size()
    }

    /// A new measure result is stored unless it equals the stored one; a
    /// stored one makes the measured size that of the result.
    pub fn set_measured_result(&mut self, measure_result: MeasureResult)
        ensures
            ({
                let unchanged = match old(self).measure_result {
                    Some(prev) => measure_result_eq(prev, measure_result),
                    None => false,
                };
                if unchanged {
                    *final(self) == *old(self)
                } else {
                    *final(self) == (NodeCoordinatorImpl {
                        measure_result: Some(measure_result),
                        ..old(self).with_measured_size(IntSize { width: measure_result.width, height: measure_result.height })
                    })
                }
            }),
    {
        match self.measure_result.as_ref() {
            Some(old_measure_result) => {
                if *old_measure_result == measure_result {
                    return;
                }
            },
            None => {},
        }
        let size = measure_result.as_int_size();
        self.measure_result = Some(measure_result);
        self.on_measure_result_changed(size)
    }

    /// Takes the stored measure result out.
    pub fn get_measured_result(&mut self) -> (r: Option<MeasureResult>)
        ensures
            r == old(self).measure_result,
            *final(self) == (NodeCoordinatorImpl { measure_result: None, ..*old(self) }),
    {
        self.measure_result.take()
    }

    pub fn has_measure_result(&self) -> (b: bool)
        ensures
            b == self.measure_result is Some,
    {
        self.measure_result.is_some()
    }

    fn on_measure_result_changed(&mut self, size: IntSize)
        ensures
            *final(self) == old(self).with_measured_size(size),
    {
        self.set_measured_size(size);
    }

    /// Whether two layer blocks are the same block.
    pub fn compare_layer_block(left: Option<u64>, right: Option<u64>) -> (b: bool)
        ensures
            b == same_layer_block(left, right),
    {
        match (left, right) {
            (Some(l), Some(r)) => l == r,
            _ => false,
        }
    }

    /// Records the layer block and the layout node's density and direction,
    /// and decides the layer's fate: an attached coordinator with a block
    /// gets a layer if it has none; otherwise its layer goes.
    pub fn update_layer_block(
        &mut self,
        layer_block: Option<u64>,
        force_update_parameters: bool,
        layout_node_density: Density,
        layout_node_layout_direction: LayoutDirection,
        is_attached: bool,
    ) -> (u: LayerUpdate)
        requires
            is_attached && layer_block is Some && old(self).has_layer ==> !(force_update_parameters
                || same_layer_block(old(self).layer_block, layer_block)
                || old(self).layer_density != layout_node_density
                || old(self).layer_layout_direction != layout_node_layout_direction),
        ensures
            u == (if is_attached && layer_block is Some {
                if old(self).has_layer { LayerUpdate::Kept } else { LayerUpdate::Created }
            } else {
                LayerUpdate::Released
            }),
            *final(self) == (NodeCoordinatorImpl {
                layer_block,
                layer_density: layout_node_density,
                layer_layout_direction: layout_node_layout_direction,
                has_layer: u != LayerUpdate::Released,
                ..*old(self)
            }),
    {
        let _update_parameters = force_update_parameters || Self::compare_layer_block(self.layer_block, layer_block)
            || self.layer_density != layout_node_density || self.layer_layout_direction != layout_node_layout_direction;
        self.layer_block = layer_block;
        self.layer_density = layout_node_density;
        self.layer_layout_direction = layout_node_layout_direction;
        if is_attached && layer_block.is_some() {
            if !self.has_layer {
                self.has_layer = true;
                LayerUpdate::Created
            } else {
                LayerUpdate::Kept
            }
        } else {
            self.has_layer = false;
            LayerUpdate::Released
        }
    }

    /// Updates the layer as `update_layer_block` does, then moves to
    /// `position`.
    pub fn place_self(
        &mut self,
        position: IntOffset,
        layer_block: Option<u64>,
        layout_node_density: Density,
        layout_node_layout_direction: LayoutDirection,
        is_attached: bool,
    ) -> (u: LayerUpdate)
        requires
            is_attached && layer_block is Some && old(self).has_layer ==> !(same_layer_block(old(self).layer_block, layer_block)
                || old(self).layer_density != layout_node_density
                || old(self).layer_layout_direction != layout_node_layout_direction),
        ensures
            u == (if is_attached && layer_block is Some {
                if old(self).has_layer { LayerUpdate::Kept } else { LayerUpdate::Created }
            } else {
                LayerUpdate::Released
            }),
            *final(self) == (NodeCoordinatorImpl {
                layer_block,
                layer_density: layout_node_density,
                layer_layout_direction: layout_node_layout_direction,
                has_layer: u != LayerUpdate::Released,
                look_ahead_capable_placeable_impl: LookaheadCapablePlaceableImpl {
                    position,
                    ..old(self).look_ahead_capable_placeable_impl
                },
                ..*old(self)
            }),
    {
        let u = self.update_layer_block(layer_block, false, layout_node_density, layout_node_layout_direction, is_attached);
        if self.get_position() != position {
            self.set_position(position);
        }
        u
    }

    pub open spec fn get_position_spec(self) -> IntOffset {
        self.look_ahead_capable_placeable_impl.position
    }
}

/// A coordinator's measured width and height are those of its measured
/// size.
impl Measured for NodeCoordinatorImpl {
    open spec fn measured_width_spec(&self) -> usize {
        self.look_ahead_capable_placeable_impl.placeable_impl.measured_size.width
    }

    open spec fn measured_height_spec(&self) -> usize {
        self.look_ahead_capable_placeable_impl.placeable_impl.measured_size.height
    }

    fn get_measured_width(&self) -> (w: usize) {
        self.get_measured_size().width
    }

    fn get_measured_height(&self) -> (h: usize) {
        self.get_measured_size().height
    }
}

impl LookaheadCapablePlaceable for NodeCoordinatorImpl {
    open spec fn position_spec(&self) -> IntOffset {
        self.look_ahead_capable_placeable_impl.position
    }

    fn set_position(&mut self, position: IntOffset)
        ensures
            *final(self) == (NodeCoordinatorImpl {
                look_ahead_capable_placeable_impl: LookaheadCapablePlaceableImpl {
                    position,
                    ..old(self).look_ahead_capable_placeable_impl
                },
                ..*old(self)
            }),
    {
        self.look_ahead_capable_placeable_impl.set_position(position)
    }

    fn get_position(&self) -> (p: IntOffset) {
        self.look_ahead_capable_placeable_impl.get_position()
    }
}

} // verus!
