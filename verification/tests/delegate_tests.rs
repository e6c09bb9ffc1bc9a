use compose::geometry::{Constraints, IntOffset, IntSize};
use compose::measure::PlaceOutcome;
use compose::measure_and_layout_delegate::MeasureAndLayoutDelegate;
use compose::modifier::ModifierNodeElement;

fn by_constraint(c: &Constraints) -> IntSize {
    IntSize::new(c.max_width, c.max_height)
}

fn outer_size(d: &MeasureAndLayoutDelegate) -> IntSize {
    d.root.node_chain.coordinators[d.root.get_outer_coordinator()].get_measured_size()
}

#[test]
fn delegate_new() {
    let d = MeasureAndLayoutDelegate::new(1);
    assert_eq!(d.root.identify, 1);
    assert_eq!(d.root_constraint, Constraints::unbounded());
    assert!(!d.during_measure_layout);
    assert!(d.root.get_children().is_empty());
}

#[test]
fn update_root_constraints_with_the_same_constraint_does_nothing() {
    let mut d = MeasureAndLayoutDelegate::new(1);
    d.update_root_constraints(Constraints::unbounded());
    assert!(!d.root.get_measure_pass_delegate().measure_pending);
}

#[test]
fn update_root_constraints_with_a_new_constraint_makes_a_measure_pending() {
    let mut d = MeasureAndLayoutDelegate::new(1);
    d.update_root_constraints(Constraints::fixed(10, 20));
    assert_eq!(d.root_constraint, Constraints::fixed(10, 20));
    assert!(d.root.get_measure_pass_delegate().measure_pending);
}

#[test]
fn measure_only_measures_the_root_with_the_root_constraint() {
    let mut d = MeasureAndLayoutDelegate::new(1);
    d.root.set_modifier(ModifierNodeElement(1, 2, 0));
    d.root.insert_at(0, compose::layout_node::LayoutNode::new(2));
    d.update_root_constraints(Constraints::fixed(10, 20));
    d.measure_only(&by_constraint);
    assert_eq!(outer_size(&d), IntSize::new(10, 20));
    assert!(!d.during_measure_layout);
    assert!(!d.root.get_measure_pass_delegate().measure_pending);
    assert!(d.root.get_measure_pass_delegate().layout_pending);
    assert_eq!(d.root.get_children(), vec![2]);
}

#[test]
fn measure_only_with_nothing_pending_measures_nothing() {
    let mut d = MeasureAndLayoutDelegate::new(1);
    d.measure_only(&by_constraint);
    assert_eq!(outer_size(&d), IntSize::zero());
    assert!(!d.root.get_measure_pass_delegate().layout_pending);
}

#[test]
fn measure_and_layout_places_a_placed_root_with_pending_layout() {
    let mut d = MeasureAndLayoutDelegate::new(1);
    d.root.attach(None, 3);
    d.update_root_constraints(Constraints::fixed(10, 20));
    d.measure_only(&by_constraint);
    let o = d.measure_and_layout();
    assert_eq!(o, Some(PlaceOutcome::PlaceOuterCoordinator(IntOffset::new(0, 0))));
    assert!(d.root.get_measure_pass_delegate().place_once);
    assert!(!d.during_measure_layout);
}

#[test]
fn measure_and_layout_without_pending_layout_does_nothing() {
    let mut d = MeasureAndLayoutDelegate::new(1);
    d.root.attach(None, 3);
    assert_eq!(d.measure_and_layout(), None);
}

#[test]
fn measure_and_layout_of_an_unplaced_root_does_nothing() {
    let mut d = MeasureAndLayoutDelegate::new(1);
    d.update_root_constraints(Constraints::fixed(10, 20));
    d.measure_only(&by_constraint);
    assert_eq!(d.measure_and_layout(), None);
}
