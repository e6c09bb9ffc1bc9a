use compose::coordinator::NodeCoordinatorImpl;
use compose::geometry::{Constraints, Density, IntOffset, IntSize, LayoutDirection};
use compose::measure::{
    LayoutNodeLayoutDelegate, LayoutReceiver, LayoutState, LookaheadPassDelegate, MeasurePassDelegate, PlaceOutcome,
    UsageByParent,
};
use compose::placeable::{PlaceableImpl, PlacementScopeImpl};

fn fixed_measure(c: &Constraints) -> IntSize {
    IntSize::new(c.min_width, c.max_height)
}

#[test]
fn measure_pass_delegate_new() {
    let d = MeasurePassDelegate::new();
    assert!(!d.measure_pending);
    assert!(!d.layout_pending);
    assert!(!d.is_placed);
    assert!(!d.place_once);
    assert_eq!(d.get_layout_state(), LayoutState::Idle);
    assert_eq!(d.measured_by_parent, UsageByParent::NotUsed);
    assert_eq!(d.last_position, IntOffset::new(0, 0));
}

#[test]
fn measure_pass_delegate_marks() {
    let mut d = MeasurePassDelegate::new();
    d.mark_measure_pending();
    d.mark_layout_pending();
    d.mark_remeasure_pending();
    d.mark_node_and_subtree_as_placed();
    assert!(d.measure_pending && d.layout_pending && d.remeasure_pending && d.is_placed);
    d.set_layout_state(LayoutState::Measuring);
    assert_eq!(d.get_layout_state(), LayoutState::Measuring);
    d.set_measured_by_parent(UsageByParent::InLayoutBlock);
    assert_eq!(d.measured_by_parent, UsageByParent::InLayoutBlock);
    assert!(d.update_parent_data());
}

#[test]
fn perform_measure_sets_the_outer_size() {
    let mut d = MeasurePassDelegate::new();
    let mut outer = NodeCoordinatorImpl::new(1);
    d.mark_measure_pending();
    d.perform_measure(&mut outer, &Constraints::new(3, 10, 0, 7), &fixed_measure);
    assert_eq!(outer.get_measured_size(), IntSize::new(3, 7));
    assert!(!d.measure_pending);
    assert!(d.layout_pending);
    assert_eq!(d.get_layout_state(), LayoutState::Idle);
}

#[test]
fn remeasure_is_skipped_with_nothing_pending_and_the_same_constraint() {
    let mut d = MeasurePassDelegate::new();
    let mut outer = NodeCoordinatorImpl::new(1);
    let changed = d.remeasure(&mut outer, &Constraints::unbounded(), &fixed_measure);
    assert!(!changed);
    assert_eq!(outer.get_measured_size(), IntSize::zero());
    assert!(!d.layout_pending);
}

#[test]
fn remeasure_measures_on_a_new_constraint() {
    let mut d = MeasurePassDelegate::new();
    let mut outer = NodeCoordinatorImpl::new(1);
    let changed = d.remeasure(&mut outer, &Constraints::new(4, 9, 0, 6), &fixed_measure);
    assert!(changed);
    assert_eq!(outer.get_measured_size(), IntSize::new(4, 6));
    assert_eq!(d.placeable_impl.get_measured_size(), IntSize::new(4, 6));
    assert!(d.layout_pending);
}

#[test]
fn remeasure_to_zero_size_reports_no_change() {
    let mut d = MeasurePassDelegate::new();
    let mut outer = NodeCoordinatorImpl::new(1);
    d.mark_measure_pending();
    let changed = d.remeasure(&mut outer, &Constraints::unbounded(), &|_c: &Constraints| IntSize::zero());
    assert!(!changed);
    assert!(!d.measure_pending);
    assert!(d.layout_pending);
}

#[test]
fn track_measuremenet_by_parent_follows_the_parent_state() {
    let mut d = MeasurePassDelegate::new();
    d.track_measuremenet_by_parent(Some(LayoutState::Measuring));
    assert_eq!(d.measured_by_parent, UsageByParent::InMeasureBlock);
    d.track_measuremenet_by_parent(Some(LayoutState::LayingOut));
    assert_eq!(d.measured_by_parent, UsageByParent::InLayoutBlock);
    d.track_measuremenet_by_parent(None);
    assert_eq!(d.measured_by_parent, UsageByParent::InLayoutBlock);
}

#[test]
fn measure_hands_out_the_placeable() {
    let mut d = MeasurePassDelegate::new();
    let mut outer = NodeCoordinatorImpl::new(1);
    let p = d.measure(&mut outer, Some(LayoutState::Measuring), &Constraints::new(2, 5, 0, 8), &fixed_measure);
    assert_eq!(p.get_measured_size(), IntSize::new(2, 8));
    assert_eq!(d.measured_by_parent, UsageByParent::InMeasureBlock);
}

#[test]
fn place_at_first_time_places_the_outer_coordinator() {
    let mut d = MeasurePassDelegate::new();
    let o = d.place_at(IntOffset::new(1, 2));
    assert_eq!(o, PlaceOutcome::PlaceOuterCoordinator(IntOffset::new(1, 2)));
    assert!(d.layout_pending);
    assert!(d.place_once);
    assert_eq!(d.last_position, IntOffset::new(1, 2));
    assert_eq!(d.get_layout_state(), LayoutState::Idle);
}

#[test]
fn place_at_same_place_without_pending_layout_only_marks_placed() {
    let mut d = MeasurePassDelegate::new();
    d.mark_node_and_subtree_as_placed();
    let o = d.place_at(IntOffset::new(0, 0));
    assert_eq!(o, PlaceOutcome::NodePlaced);
    assert!(d.is_placed);
    assert!(!d.layout_pending);
}

#[test]
fn layout_node_layout_delegate_without_constraint_does_nothing() {
    let mut d = LayoutNodeLayoutDelegate::new();
    d.attach(4);
    assert_eq!(d.identify, 4);
    let mut outer = NodeCoordinatorImpl::new(1);
    assert!(!d.remeasure(&mut outer, None, &fixed_measure));
    assert_eq!(outer.get_measured_size(), IntSize::zero());
}

#[test]
fn layout_node_layout_delegate_remeasures_with_a_constraint() {
    let mut d = LayoutNodeLayoutDelegate::new();
    let mut outer = NodeCoordinatorImpl::new(1);
    assert!(d.remeasure(&mut outer, Some(Constraints::fixed(5, 5)), &fixed_measure));
    assert_eq!(outer.get_measured_size(), IntSize::new(5, 5));
    assert!(d.last_constraints.is_none());
}

#[test]
fn lookahead_pass_delegate_new_and_measure() {
    let mut d = LookaheadPassDelegate::new();
    let p = d.measure(&Constraints::fixed(1, 1));
    assert_eq!(p.get_size(), PlaceableImpl::new().get_size());
}

#[test]
fn layout_receiver_new_and_layout() {
    let r = LayoutReceiver::new();
    assert_eq!(r.density, Density::identity());
    assert_eq!(r.layout_direction, LayoutDirection::Ltr);
    let seen = std::cell::Cell::new(None);
    let result = r.layout(10, 20, |scope: &PlacementScopeImpl| seen.set(Some(*scope)));
    assert_eq!((result.width, result.height, result.placement_block), (10, 20, None));
    assert_eq!(seen.get(), Some(PlacementScopeImpl::new(10, 20, LayoutDirection::Ltr)));
}
