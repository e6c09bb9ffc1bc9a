//! The measure pass of a layout node: when it remeasures, how its layout
//! state moves while it measures and is placed, and how the parent's state
//! decides how the parent used the measurement.

use vstd::prelude::*;
use crate::coordinator::NodeCoordinatorImpl;
use crate::geometry::{Constraints, Density, IntOffset, IntSize, LayoutDirection};
use crate::placeable::{MeasureResult, PlaceableImpl, PlacementScopeImpl};

verus! {

/// What a layout node is doing.
#[derive(Debug, Clone, Copy, PartialEq, Eq, Structural)]
pub enum LayoutState {
    Measuring,
    LookaheadMeasuring,
    LayingOut,
    LookaheadLayingOut,
    Idle,
}

impl Default for LayoutState {
    fn default() -> (s: LayoutState)
        ensures
            s == LayoutState::Idle,
    {
        LayoutState::Idle
    }
}

/// How the parent used a child's measurement.
#[derive(Debug, Clone, Copy, PartialEq, Eq, Structural)]
pub enum UsageByParent {
    NotUsed,
    InMeasureBlock,
    InLayoutBlock,
}

/// Where a placed node goes next.
#[derive(Debug, Clone, Copy, PartialEq, Eq, Structural)]
pub enum PlaceOutcome {
    /// The node was placed before and has no pending layout: it is only
    /// marked placed again.
    NodePlaced,
    /// The outer coordinator is placed at this position.
    PlaceOuterCoordinator(IntOffset),
}

/// The measure-pass bookkeeping of one layout node.
#[derive(Debug, Clone, Copy)]
pub struct MeasurePassDelegate {
    pub placeable_impl: PlaceableImpl,
    pub remeasure_pending: bool,
    pub measure_pending: bool,
    pub layout_pending: bool,
    pub measured_by_parent: UsageByParent,
    pub last_position: IntOffset,
    pub place_once: bool,
    pub is_placed: bool,
    pub layout_state: LayoutState,
}

/// Whether a remeasure is skipped: nothing is pending and the constraint is
/// the one last measured with.
pub open spec fn remeasure_skipped(d: MeasurePassDelegate, constraint: Constraints) -> bool {
    !d.measure_pending && d.placeable_impl.measurement_constraint == constraint
}

/// A measure changed the node's size exactly when the outer coordinator's
/// measured size changed, in width or height, or the node's placed size is
/// not the new one.
pub proof fn lemma_size_changed_exactly(previous: IntSize, new_size: IntSize, placed: PlaceableImpl)
    ensures
        size_changed(previous, new_size, placed) <==> (previous.width != new_size.width || previous.height != new_size.height
            || placed.width != new_size.width || placed.height != new_size.height),
{
}

/// Whether a measure that took the outer coordinator from `previous` to
/// `new_size` changed the node's size.
pub open spec fn size_changed(previous: IntSize, new_size: IntSize, placed: PlaceableImpl) -> bool {
    previous != new_size || placed.width != new_size.width || placed.height != new_size.height
}

impl MeasurePassDelegate {
    pub open spec fn wf(self) -> bool {
        self.placeable_impl.wf()
    }

    pub open spec fn spec_new() -> MeasurePassDelegate {
        MeasurePassDelegate {
            placeable_impl: PlaceableImpl::spec_new(),
            remeasure_pending: false,
            measure_pending: false,
            layout_pending: false,
            measured_by_parent: UsageByParent::NotUsed,
            last_position: IntOffset { x: 0, y: 0 },
            place_once: false,
            is_placed: false,
            layout_state: LayoutState::Idle,
        }
    }

    /// A delegate that has measured and placed nothing.
    pub fn new() -> (d: MeasurePassDelegate)
        ensures
            d == MeasurePassDelegate::spec_new(),
            d.wf(),
            d.placeable_impl == PlaceableImpl::spec_new(),
            !d.remeasure_pending,
            !d.measure_pending,
            !d.layout_pending,
            d.measured_by_parent == UsageByParent::NotUsed,
            d.last_position == (IntOffset { x: 0, y: 0 }),
            !d.place_once,
            !d.is_placed,
            d.layout_state == LayoutState::Idle,
    {
        MeasurePassDelegate {
            placeable_impl: PlaceableImpl::new(),
            remeasure_pending: false,
            measure_pending: false,
            layout_pending: false,
            measured_by_parent: UsageByParent::NotUsed,
            last_position: IntOffset::new(0, 0),
            place_once: false,
            is_placed: false,
            layout_state: LayoutState::Idle,
        }
    }

    pub fn set_measured_by_parent(&mut self, measured_by_parent: UsageByParent)
        ensures
            *final(self) == (MeasurePassDelegate { measured_by_parent, ..*old(self) }),
    {
        self.measured_by_parent = measured_by_parent;
    }

    pub fn mark_remeasure_pending(&mut self)
        ensures
            *final(self) == (MeasurePassDelegate { remeasure_pending: true, ..*old(self) }),
    {
        self.remeasure_pending = true;
    }

    pub fn mark_measure_pending(&mut self)
        ensures
            *final(self) == (MeasurePassDelegate { measure_pending: true, ..*old(self) }),
    {
        self.measure_pending = true;
    }

    pub fn mark_layout_pending(&mut self)
        ensures
            *final(self) == (MeasurePassDelegate { layout_pending: true, ..*old(self) }),
    {
        self.layout_pending = true;
    }

    pub fn mark_node_and_subtree_as_placed(&mut self)
        ensures
            *final(self) == (MeasurePassDelegate { is_placed: true, ..*old(self) }),
    {
        self.is_placed = true;
    }

    pub fn set_layout_state(&mut self, layout_state: LayoutState)
        ensures
            *final(self) == (MeasurePassDelegate { layout_state, ..*old(self) }),
    {
        self.layout_state = layout_state;
    }

    pub fn get_layout_state(&self) -> (s: LayoutState)
        ensures
            s == self.layout_state,
    {
        self.layout_state
    }

    /// Parent data always counts as changed.
    pub fn update_parent_data(&self) -> (b: bool)
        ensures
            b,
    {
        true
    }

    /// Measures the outer coordinator: the layout state goes from idle to
    /// measuring and back, the pending measure is done and a layout becomes
    /// pending. `measure` is the outer coordinator's measure and gives its
    /// new measured size.
    pub fn perform_measure<F: Fn(&Constraints) -> IntSize>(
        &mut self,
        outer: &mut NodeCoordinatorImpl,
        constraint: &Constraints,
        measure: &F,
    )
        requires
            old(self).layout_state == LayoutState::Idle,
            call_requires(*measure, (constraint,)),
        ensures
            *final(self) == (MeasurePassDelegate {
                measure_pending: false,
                layout_pending: true,
                layout_state: LayoutState::Idle,
                ..*old(self)
            }),
            call_ensures(*measure, (constraint,), final(outer).look_ahead_capable_placeable_impl.placeable_impl.measured_size),
            *final(outer) == old(outer).with_measured_size(final(outer).look_ahead_capable_placeable_impl.placeable_impl.measured_size),
    {
        self.set_layout_state(LayoutState::Measuring);
        self.measure_pending = false;
        let size = measure(constraint);
        outer.set_measured_size(size);
        if self.get_layout_state() == LayoutState::Measuring {
            self.mark_layout_pending();
            self.set_layout_state(LayoutState::Idle);
        }
    }

    /// Measures again unless nothing is pending and the constraint is the
    /// one measured with; records the outer coordinator's new size as the
    /// measured size and says whether the size changed.
    pub fn remeasure<F: Fn(&Constraints) -> IntSize>(
        &mut self,
        outer: &mut NodeCoordinatorImpl,
        constraint: &Constraints,
        measure: &F,
    ) -> (changed: bool)
        requires
            remeasure_skipped(*old(self), *constraint) || old(self).layout_state == LayoutState::Idle,
            call_requires(*measure, (constraint,)),
        ensures
            remeasure_skipped(*old(self), *constraint) ==> !changed && *final(self) == *old(self) && *final(outer) == *old(outer),
            !remeasure_skipped(*old(self), *constraint) ==> {
                let new_size = final(outer).look_ahead_capable_placeable_impl.placeable_impl.measured_size;
                let previous = old(outer).look_ahead_capable_placeable_impl.placeable_impl.measured_size;
                let placed = old(self).placeable_impl;
                &&& changed <==> (previous.width != new_size.width || previous.height != new_size.height
                    || placed.width != new_size.width || placed.height != new_size.height)
                &&& call_ensures(*measure, (constraint,), new_size)
                &&& changed == size_changed(
                    old(outer).look_ahead_capable_placeable_impl.placeable_impl.measured_size,
                    new_size,
                    old(self).placeable_impl,
                )
                &&& *final(self) == (MeasurePassDelegate {
                    placeable_impl: PlaceableImpl { measured_size: new_size, ..old(self).placeable_impl },
                    measure_pending: false,
                    layout_pending: true,
                    layout_state: LayoutState::Idle,
                    ..*old(self)
                })
                &&& *final(outer) == old(outer).with_measured_size(new_size)
            },
    {
        if !self.measure_pending && self.placeable_impl.get_measurement_constraint() == *constraint {
            return false;
        }
        let previous_size = outer.get_measured_size();
        self.perform_measure(outer, constraint, measure);
        let new_size = outer.get_measured_size();
        let size = self.placeable_impl.get_size();
        let changed = previous_size != new_size || size.width() != new_size.width() || size.height() != new_size.height();
        proof {
            lemma_size_changed_exactly(previous_size, new_size, old(self).placeable_impl);
        }
        self.placeable_impl.set_measured_size(new_size);
        changed
    }

    /// How the parent uses this measurement, from the parent's layout state:
    /// measuring means in its measure block, laying out in its layout
    /// block. Without a parent nothing changes.
    pub fn track_measuremenet_by_parent(&mut self, parent_layout_state: Option<LayoutState>)
        requires
            parent_layout_state matches Some(s) ==> s == LayoutState::Measuring || s == LayoutState::LayingOut,
        ensures
            *final(self) == (MeasurePassDelegate {
                measured_by_parent: match parent_layout_state {
                    Some(LayoutState::Measuring) => UsageByParent::InMeasureBlock,
                    Some(_) => UsageByParent::InLayoutBlock,
                    None => old(self).measured_by_parent,
                },
                ..*old(self)
            }),
    {
        match parent_layout_state {
            Some(layout_state) => {
                self.measured_by_parent = match layout_state {
                    LayoutState::Measuring => UsageByParent::InMeasureBlock,
                    LayoutState::LayingOut => UsageByParent::InLayoutBlock,
                    _ => {
                        proof {
                            assert(false);
                        }
                        UsageByParent::NotUsed
                    },
                };
            },
            None => {},
        }
    }

    /// Measures for the parent: records how the parent uses the measurement,
    /// remeasures, and hands out the placeable.
    pub fn measure<F: Fn(&Constraints) -> IntSize>(
        &mut self,
        outer: &mut NodeCoordinatorImpl,
        parent_layout_state: Option<LayoutState>,
        constraint: &Constraints,
        measure: &F,
    ) -> (p: PlaceableImpl)
        requires
            parent_layout_state matches Some(s) ==> s == LayoutState::Measuring || s == LayoutState::LayingOut,
            remeasure_skipped(*old(self), *constraint) || old(self).layout_state == LayoutState::Idle,
            call_requires(*measure, (constraint,)),
        ensures
            p == final(self).placeable_impl,
            ({
                let noted = MeasurePassDelegate {
                    measured_by_parent: match parent_layout_state {
                        Some(LayoutState::Measuring) => UsageByParent::InMeasureBlock,
                        Some(_) => UsageByParent::InLayoutBlock,
                        None => old(self).measured_by_parent,
                    },
                    ..*old(self)
                };
                if remeasure_skipped(*old(self), *constraint) {
                    *final(self) == noted && *final(outer) == *old(outer)
                } else {
                    let new_size = final(outer).look_ahead_capable_placeable_impl.placeable_impl.measured_size;
                    &&& call_ensures(*measure, (constraint,), new_size)
                    &&& *final(outer) == old(outer).with_measured_size(new_size)
                    &&& *final(self) == (MeasurePassDelegate {
                        placeable_impl: PlaceableImpl { measured_size: new_size, ..old(self).placeable_impl },
                        measure_pending: false,
                        layout_pending: true,
                        layout_state: LayoutState::Idle,
                        ..noted
                    })
                }
            }),
    {
        self.track_measuremenet_by_parent(parent_layout_state);
        self.remeasure(outer, constraint, measure);
        self.placeable_impl
    }

    /// Places the node at `position`: a move makes a layout pending; the
    /// layout state is laying out while it is placed and idle afterwards.
    pub fn place_at(&mut self, position: IntOffset) -> (o: PlaceOutcome)
        ensures
            ({
                let pending = old(self).layout_pending || position != old(self).last_position;
                &&& o == (if !pending && old(self).is_placed {
                    PlaceOutcome::NodePlaced
                } else {
                    PlaceOutcome::PlaceOuterCoordinator(position)
                })
                &&& *final(self) == (MeasurePassDelegate {
                    layout_pending: pending,
                    last_position: position,
                    place_once: true,
                    layout_state: LayoutState::Idle,
                    ..*old(self)
                })
            }),
    {
        if position != self.last_position {
            self.mark_layout_pending();
        }
        self.place_outer_coordinator(position)
    }

    fn place_outer_coordinator(&mut self, position: IntOffset) -> (o: PlaceOutcome)
        ensures
            o == (if !old(self).layout_pending && old(self).is_placed {
                PlaceOutcome::NodePlaced
            } else {
                PlaceOutcome::PlaceOuterCoordinator(position)
            }),
            *final(self) == (MeasurePassDelegate {
                last_position: position,
                place_once: true,
                layout_state: LayoutState::Idle,
                ..*old(self)
            }),
    {
        self.set_layout_state(LayoutState::LayingOut);
        self.last_position = position;
        self.place_once = true;
        let outcome = if !self.layout_pending && self.is_placed {
            self.on_node_placed();
            PlaceOutcome::NodePlaced
        } else {
            PlaceOutcome::PlaceOuterCoordinator(position)
        };
        self.set_layout_state(LayoutState::Idle);
        outcome
    }

    fn on_node_placed(&mut self)
        ensures
            *final(self) == (MeasurePassDelegate { is_placed: true, ..*old(self) }),
    {
        if !self.is_placed {
            self.mark_node_and_subtree_as_placed();
        }
    }
}

/// The layout side of a layout node: the constraint it was last measured
/// with and its measure pass.
#[derive(Debug, Clone, Copy)]
pub struct LayoutNodeLayoutDelegate {
    pub last_constraints: Option<Constraints>,
    pub measure_pass_delegate: MeasurePassDelegate,
    pub identify: u32,
}

impl LayoutNodeLayoutDelegate {
    pub fn new() -> (d: LayoutNodeLayoutDelegate)
        ensures
            d.last_constraints is None,
            d.measure_pass_delegate == MeasurePassDelegate::spec_new(),
            d.identify == 0,
    {
        LayoutNodeLayoutDelegate { last_constraints: None, measure_pass_delegate: MeasurePassDelegate::new(), identify: 0 }
    }

    pub fn attach(&mut self, identify: u32)
        ensures
            *final(self) == (LayoutNodeLayoutDelegate { identify, ..*old(self) }),
    {
        self.identify = identify;
    }

    /// Tells the measure pass that parent data may have changed; that
    /// changes nothing here.
    pub fn update_parent_data(&self) {
        let _ = self.measure_pass_delegate.update_parent_data();
    }

    /// As `update_parent_data`, told which node is the parent; a parent's
    /// remeasure request changes nothing here either.
    pub fn update_parent_data_with_parent(&self, parent: Option<u32>) {
        let _ = self.measure_pass_delegate.update_parent_data();
    }

    /// Remeasures with `constraint`, or with the last constraint when none
    /// is given; without either nothing is measured and nothing changed.
    pub fn remeasure<F: Fn(&Constraints) -> IntSize>(
        &mut self,
        outer: &mut NodeCoordinatorImpl,
        constraint: Option<Constraints>,
        measure: &F,
    ) -> (changed: bool)
        requires
            ({
                let c = if constraint is None { old(self).last_constraints } else { constraint };
                c matches Some(c) ==> {
                    &&& remeasure_skipped(old(self).measure_pass_delegate, c) || old(self).measure_pass_delegate.layout_state == LayoutState::Idle
                    &&& call_requires(*measure, (&c,))
                }
            }),
        ensures
            ({
                let c = if constraint is None { old(self).last_constraints } else { constraint };
                match c {
                    None => !changed && *final(self) == *old(self) && *final(outer) == *old(outer),
                    Some(c) => {
                        &&& final(self).last_constraints == old(self).last_constraints
                        &&& final(self).identify == old(self).identify
                        &&& (remeasure_skipped(old(self).measure_pass_delegate, c) ==> !changed
                            && final(self).measure_pass_delegate == old(self).measure_pass_delegate && *final(outer) == *old(outer))
                        &&& (!remeasure_skipped(old(self).measure_pass_delegate, c) ==> {
                            let new_size = final(outer).look_ahead_capable_placeable_impl.placeable_impl.measured_size;
                            &&& call_ensures(*measure, (&c,), new_size)
                            &&& changed == size_changed(
                                old(outer).look_ahead_capable_placeable_impl.placeable_impl.measured_size,
                                new_size,
                                old(self).measure_pass_delegate.placeable_impl,
                            )
                            &&& final(self).measure_pass_delegate == (MeasurePassDelegate {
                                placeable_impl: PlaceableImpl { measured_size: new_size, ..old(self).measure_pass_delegate.placeable_impl },
                                measure_pending: false,
                                layout_pending: true,
                                layout_state: LayoutState::Idle,
                                ..old(self).measure_pass_delegate
                            })
                            &&& *final(outer) == old(outer).with_measured_size(new_size)
                        })
                    },
                }
            }),
    {
        let mut constraint = constraint;
        if constraint.is_none() {
            constraint = self.last_constraints;
        }
        match constraint {
            Some(c) => self.measure_pass_delegate.remeasure(outer, &c, measure),
            None => false,
        }
    }
}

/// The lookahead pass: a placeable of its own.
#[derive(Debug, Clone, Copy)]
pub struct LookaheadPassDelegate {
    pub placeable_impl: PlaceableImpl,
}

impl LookaheadPassDelegate {
    pub fn new() -> (d: LookaheadPassDelegate)
        ensures
            d.placeable_impl == PlaceableImpl::spec_new(),
    {
        LookaheadPassDelegate { placeable_impl: PlaceableImpl::new() }
    }

    /// Measuring the lookahead pass hands out its placeable unchanged.
    pub fn measure(&mut self, _constraint: &Constraints) -> (p: PlaceableImpl)
        ensures
            p == old(self).placeable_impl,
            *final(self) == *old(self),
    {
        self.placeable_impl
    }
}

/// The receiver of a layout block: density and direction.
#[derive(Debug, Clone, Copy, PartialEq, Eq, Structural)]
pub struct LayoutReceiver {
    pub density: Density,
    pub layout_direction: LayoutDirection,
}

impl LayoutReceiver {
    /// Density one, left to right.
    pub fn new() -> (r: LayoutReceiver)
        ensures
            r.density == Density::spec_identity(),
            r.layout_direction == LayoutDirection::Ltr,
    {
        LayoutReceiver { density: Density::identity(), layout_direction: LayoutDirection::Ltr }
    }

    /// Runs `place_action` in a placement scope of the given size and this
    /// receiver's direction, and reports that size.
    pub fn layout<F: FnOnce(&PlacementScopeImpl)>(&self, width: usize, height: usize, place_action: F) -> (r: MeasureResult)
        requires
            call_requires(place_action, (&PlacementScopeImpl { width, height, layout_direction: self.layout_direction },)),
        ensures
            call_ensures(place_action, (&PlacementScopeImpl { width, height, layout_direction: self.layout_direction },), ()),
            r.width == width,
            r.height == height,
            r.placement_block is None,
    {
        let place_scope = PlacementScopeImpl::new(width, height, self.layout_direction);
        place_action(&place_scope);
        MeasureResult { width, height, placement_block: None }
    }
}

} // verus!
