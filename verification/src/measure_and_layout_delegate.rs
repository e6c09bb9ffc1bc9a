//! Measuring and laying out a tree from its root: the root is measured
//! with the root constraint; the other nodes carry no constraint of their
//! own and are left as they are.

use vstd::prelude::*;
use crate::geometry::{Constraints, IntOffset, IntSize};
use crate::layout_node::LayoutNode;
use crate::measure::{LayoutState, MeasurePassDelegate, PlaceOutcome};

verus! {

/// The root of a tree, the constraint it is measured with, and whether a
/// measure or layout pass is running.
pub struct MeasureAndLayoutDelegate {
    pub root: LayoutNode,
    pub root_constraint: Constraints,
    pub during_measure_layout: bool,
}

/// `after` is `before` with the same state in every node of its subtree,
/// field by field.
pub open spec fn same_subtree(after: LayoutNode, before: LayoutNode) -> bool
    decreases after,
{
    &&& after.identify == before.identify
    &&& after.owner == before.owner
    &&& after.usage_by_parent == before.usage_by_parent
    &&& after.layout_direction == before.layout_direction
    &&& after.layout_node_layout_delegate == before.layout_node_layout_delegate
    &&& after.node_chain.same_but_coordinators(before.node_chain)
    &&& after.node_chain.outer_coordinator == before.node_chain.outer_coordinator
    &&& after.node_chain.coordinators@ == before.node_chain.coordinators@
    &&& after.children@.len() == before.children@.len()
    &&& forall|i: int| 0 <= i < after.children@.len() ==> same_subtree(#[trigger] after.children@[i], before.children@[i])
}

/// `after` is `before` remeasured with `constraint`, its children visited
/// and left as they were, and remeasured with `constraint` again.
pub open spec fn remeasured_around_children<F: Fn(&Constraints) -> IntSize>(
    after: LayoutNode,
    before: LayoutNode,
    constraint: Constraints,
    measure: F,
) -> bool {
    exists|first: LayoutNode, visited: LayoutNode, c1: bool, c2: bool|
        #![trigger first.remeasured(before, constraint, measure, c1), after.remeasured(visited, constraint, measure, c2)]
        {
            &&& first.remeasured(before, constraint, measure, c1)
            &&& same_subtree(visited, first)
            &&& after.remeasured(visited, constraint, measure, c2)
        }
}

impl MeasureAndLayoutDelegate {
    pub open spec fn wf(self) -> bool {
        self.root.tree_wf()
    }

    /// A delegate for a new root known as `identify`, with an unbounded
    /// constraint.
    pub fn new(identify: u32) -> (d: MeasureAndLayoutDelegate)
        ensures
            d.wf(),
            d.root.identify == identify,
            d.root.children@.len() == 0,
            d.root.owner is None,
            d.root.layout_node_layout_delegate.measure_pass_delegate == MeasurePassDelegate::spec_new(),
            d.root_constraint == Constraints::spec_unbounded(),
            !d.during_measure_layout,
    {
        MeasureAndLayoutDelegate {
            root: LayoutNode::new(identify),
            root_constraint: Constraints::unbounded(),
            during_measure_layout: false,
        }
    }

    /// Takes `constraint` as the root constraint; a new one makes the root's
    /// measure pending.
    pub fn update_root_constraints(&mut self, constraint: Constraints)
        requires
            old(self).wf(),
        ensures
            final(self).wf(),
            final(self).root_constraint == constraint,
            final(self).during_measure_layout == old(self).during_measure_layout,
            constraint == old(self).root_constraint ==> final(self).root == old(self).root,
            constraint != old(self).root_constraint ==> {
                &&& final(self).root.layout_node_layout_delegate.measure_pass_delegate == (MeasurePassDelegate {
                    measure_pending: true,
                    ..old(self).root.layout_node_layout_delegate.measure_pass_delegate
                })
                &&& final(self).root.layout_node_layout_delegate.last_constraints
                    == old(self).root.layout_node_layout_delegate.last_constraints
                &&& final(self).root.layout_node_layout_delegate.identify == old(self).root.layout_node_layout_delegate.identify
                &&& final(self).root.identify == old(self).root.identify
                &&& final(self).root.owner == old(self).root.owner
                &&& final(self).root.children == old(self).root.children
                &&& final(self).root.node_chain == old(self).root.node_chain
                &&& final(self).root.usage_by_parent == old(self).root.usage_by_parent
                &&& final(self).root.layout_direction == old(self).root.layout_direction
            },
    {
        if constraint == self.root_constraint {
            return;
        }
        self.root_constraint = constraint;
        self.root.layout_node_layout_delegate.measure_pass_delegate.mark_measure_pending();
    }

    /// Remeasures `layout_node`: the root with the root constraint, any
    /// other node with none of its own, which leaves it as it is.
    fn remeasure_only<F: Fn(&Constraints) -> IntSize>(
        layout_node: &mut LayoutNode,
        is_root: bool,
        root_constraint: Constraints,
        measure: &F,
    ) -> (changed: bool)
        requires
            old(layout_node).tree_wf(),
            is_root ==> {
                &&& crate::measure::remeasure_skipped(old(layout_node).layout_node_layout_delegate.measure_pass_delegate, root_constraint)
                    || old(layout_node).layout_node_layout_delegate.measure_pass_delegate.layout_state == LayoutState::Idle
                &&& call_requires(*measure, (&root_constraint,))
            },
        ensures
            !is_root ==> !changed && *final(layout_node) == *old(layout_node),
            is_root ==> final(layout_node).remeasured(*old(layout_node), root_constraint, *measure, changed),
    {
        let constraint = if is_root {
            Some(root_constraint)
        } else {
            None
        };
        layout_node.remeasure(constraint, measure)
    }

    /// Remeasures `layout_node`, then its subtree child by child, then
    /// `layout_node` again.
    fn recurse_remeasure<F: Fn(&Constraints) -> IntSize>(
        layout_node: &mut LayoutNode,
        is_root: bool,
        root_constraint: Constraints,
        measure: &F,
    )
        requires
            old(layout_node).tree_wf(),
            is_root ==> {
                &&& crate::measure::remeasure_skipped(old(layout_node).layout_node_layout_delegate.measure_pass_delegate, root_constraint)
                    || old(layout_node).layout_node_layout_delegate.measure_pass_delegate.layout_state == LayoutState::Idle
                &&& call_requires(*measure, (&root_constraint,))
            },
        ensures
            final(layout_node).tree_wf(),
            !is_root ==> same_subtree(*final(layout_node), *old(layout_node)),
            is_root ==> remeasured_around_children(*final(layout_node), *old(layout_node), root_constraint, *measure),
        decreases *old(layout_node),
    {
        let c1 = Self::remeasure_only(layout_node, is_root, root_constraint, measure);
        let ghost first = *layout_node;
        let n = layout_node.children.len();
        let mut i: usize = 0;
        while i < n
            invariant
                0 <= i <= n,
                n == first.children@.len(),
                layout_node.children@.len() == n,
                layout_node.identify == first.identify,
                layout_node.owner == first.owner,
                layout_node.usage_by_parent == first.usage_by_parent,
                layout_node.layout_direction == first.layout_direction,
                layout_node.layout_node_layout_delegate == first.layout_node_layout_delegate,
                layout_node.node_chain == first.node_chain,
                first.tree_wf(),
                first.children@ == old(layout_node).children@,
                forall|j: int| 0 <= j < i ==> (#[trigger] layout_node.children@[j]).tree_wf()
                    && same_subtree(layout_node.children@[j], first.children@[j]),
                forall|j: int| i <= j < n ==> #[trigger] layout_node.children@[j] == first.children@[j],
            decreases n - i,
        {
            proof {
                assert(first.children@[i as int].tree_wf());
                assert(decreases_to!(*old(layout_node) => old(layout_node).children));
                assert(decreases_to!(old(layout_node).children => old(layout_node).children@));
                assert(decreases_to!(old(layout_node).children@ => old(layout_node).children@[i as int]));
            }
            Self::recurse_remeasure(&mut layout_node.children[i], false, root_constraint, measure);
            i = i + 1;
        }
        let ghost visited = *layout_node;
        proof {
            assert(same_subtree(visited, first));
        }
        let c2 = Self::remeasure_only(layout_node, is_root, root_constraint, measure);
        proof {
            if is_root {
                assert(first.remeasured(*old(layout_node), root_constraint, *measure, c1)
                    && same_subtree(visited, first)
                    && layout_node.remeasured(visited, root_constraint, *measure, c2));
            }
        }
    }

    /// Places the root at the origin when its layout is pending and it is
    /// placed; otherwise nothing happens.
    fn remeasure_and_relayout_if_need(&mut self) -> (o: Option<PlaceOutcome>)
        requires
            old(self).wf(),
        ensures
            final(self).wf(),
            final(self).root_constraint == old(self).root_constraint,
            final(self).during_measure_layout == old(self).during_measure_layout,
            ({
                let d = old(self).root.layout_node_layout_delegate.measure_pass_delegate;
                if d.layout_pending && d.is_placed {
                    let placed = MeasurePassDelegate {
                        last_position: IntOffset { x: 0, y: 0 },
                        place_once: true,
                        layout_state: LayoutState::Idle,
                        ..d
                    };
                    &&& o == Some(PlaceOutcome::PlaceOuterCoordinator(IntOffset { x: 0, y: 0 }))
                    &&& final(self).root.layout_node_layout_delegate.measure_pass_delegate == placed
                } else {
                    &&& o is None
                    &&& final(self).root.layout_node_layout_delegate.measure_pass_delegate == d
                }
            }),
            final(self).root.layout_node_layout_delegate.last_constraints == old(self).root.layout_node_layout_delegate.last_constraints,
            final(self).root.layout_node_layout_delegate.identify == old(self).root.layout_node_layout_delegate.identify,
            final(self).root.identify == old(self).root.identify,
            final(self).root.owner == old(self).root.owner,
            final(self).root.children == old(self).root.children,
            final(self).root.node_chain == old(self).root.node_chain,
            final(self).root.usage_by_parent == old(self).root.usage_by_parent,
            final(self).root.layout_direction == old(self).root.layout_direction,
    {
        let layout_pending = self.root.layout_node_layout_delegate.measure_pass_delegate.layout_pending;
        let is_placed = self.root.layout_node_layout_delegate.measure_pass_delegate.is_placed;
        if layout_pending && is_placed {
            Some(self.root.layout_node_layout_delegate.measure_pass_delegate.place_at(IntOffset { x: 0, y: 0 }))
        } else {
            None
        }
    }

    /// Runs a measure pass from the root: the root is remeasured with the
    /// root constraint around a visit of its subtree.
    pub fn measure_only<F: Fn(&Constraints) -> IntSize>(&mut self, measure: &F)
        requires
            old(self).wf(),
            crate::measure::remeasure_skipped(old(self).root.layout_node_layout_delegate.measure_pass_delegate, old(self).root_constraint)
                || old(self).root.layout_node_layout_delegate.measure_pass_delegate.layout_state == LayoutState::Idle,
            call_requires(*measure, (&old(self).root_constraint,)),
        ensures
            final(self).wf(),
            final(self).root_constraint == old(self).root_constraint,
            final(self).during_measure_layout == false,
            remeasured_around_children(final(self).root, old(self).root, old(self).root_constraint, *measure),
    {
        self.during_measure_layout = true;
        Self::recurse_remeasure(&mut self.root, true, self.root_constraint, measure);
        self.during_measure_layout = false;
    }

    /// Runs a layout pass from the root; says how the root was placed, if it
    /// was.
    pub fn measure_and_layout(&mut self) -> (o: Option<PlaceOutcome>)
        requires
            old(self).wf(),
        ensures
            final(self).wf(),
            final(self).root_constraint == old(self).root_constraint,
            final(self).during_measure_layout == false,
            ({
                let d = old(self).root.layout_node_layout_delegate.measure_pass_delegate;
                if d.layout_pending && d.is_placed {
                    &&& o == Some(PlaceOutcome::PlaceOuterCoordinator(IntOffset { x: 0, y: 0 }))
                    &&& final(self).root.layout_node_layout_delegate.measure_pass_delegate == (MeasurePassDelegate {
                        last_position: IntOffset { x: 0, y: 0 },
                        place_once: true,
                        layout_state: LayoutState::Idle,
                        ..d
                    })
                } else {
                    &&& o is None
                    &&& final(self).root.layout_node_layout_delegate.measure_pass_delegate == d
                }
            }),
            final(self).root.identify == old(self).root.identify,
            final(self).root.children == old(self).root.children,
            final(self).root.node_chain == old(self).root.node_chain,
    {
        self.during_measure_layout = true;
        let o = self.remeasure_and_relayout_if_need();
        self.during_measure_layout = false;
        o
    }
}

} // verus!
