use compose::coordinator::{LayerUpdate, NodeCoordinatorImpl, WrappedBy};
use compose::geometry::{Density, IntOffset, IntSize, LayoutDirection};
use compose::placeable::{LookaheadCapablePlaceable, MeasureResult, Measured};

#[test]
fn coordinator_new_is_detached() {
    let c = NodeCoordinatorImpl::new(3);
    assert_eq!(c.get_tail(), 3);
    assert_eq!(c.get_wrapped(), None);
    assert_eq!(c.get_wrapped_by(), None);
    assert_eq!(c.layout_node(), None);
    assert!(!c.has_measure_result());
    assert_eq!(c.get_measured_size(), IntSize::zero());
    assert_eq!(c.get_position(), IntOffset::new(0, 0));
}

#[test]
fn coordinator_links() {
    let mut c = NodeCoordinatorImpl::new(3);
    c.attach(7);
    assert_eq!(c.layout_node(), Some(7));
    c.set_wrapped(Some(2));
    assert_eq!(c.get_wrapped(), Some(2));
    c.set_wrapped_by(Some(WrappedBy::ParentInner { layout_node: 5 }));
    assert_eq!(c.get_wrapped_by(), Some(WrappedBy::ParentInner { layout_node: 5 }));
}

#[test]
fn coordinator_measured_size() {
    let mut c = NodeCoordinatorImpl::new(1);
    c.set_measured_size(IntSize::new(10, 20));
    assert_eq!(c.get_measured_size(), IntSize::new(10, 20));
    assert_eq!(c.get_measured_width(), 10);
    assert_eq!(c.get_measured_height(), 20);
    assert_eq!(c.size(), IntSize::new(10, 20));
}

#[test]
fn set_measured_result_stores_and_resizes() {
    let mut c = NodeCoordinatorImpl::new(1);
    c.set_measured_result(MeasureResult::new(IntSize::new(4, 5), None));
    assert!(c.has_measure_result());
    assert_eq!(c.get_measured_size(), IntSize::new(4, 5));
    let taken = c.get_measured_result().unwrap();
    assert_eq!((taken.width, taken.height), (4, 5));
    assert!(!c.has_measure_result());
}

#[test]
fn set_measured_result_equal_by_its_eq_is_skipped() {
    let mut c = NodeCoordinatorImpl::new(1);
    c.set_measured_result(MeasureResult::new(IntSize::new(4, 5), None));
    c.set_measured_result(MeasureResult::new(IntSize::new(4, 6), None));
    assert_eq!(c.get_measured_size(), IntSize::new(4, 5));
    c.set_measured_result(MeasureResult::new(IntSize::new(4, 5), None));
    assert_eq!(c.get_measured_size(), IntSize::new(4, 5));
    c.set_measured_result(MeasureResult::new(IntSize::new(9, 9), None));
    assert_eq!(c.get_measured_size(), IntSize::new(9, 9));
}

#[test]
fn compare_layer_block_needs_two_equal_blocks() {
    assert!(NodeCoordinatorImpl::compare_layer_block(Some(1), Some(1)));
    assert!(!NodeCoordinatorImpl::compare_layer_block(Some(1), Some(2)));
    assert!(!NodeCoordinatorImpl::compare_layer_block(None, Some(1)));
    assert!(!NodeCoordinatorImpl::compare_layer_block(None, None));
}

#[test]
fn update_layer_block_creates_keeps_and_releases() {
    let mut c = NodeCoordinatorImpl::new(1);
    let d = Density::identity();
    assert_eq!(c.update_layer_block(Some(1), false, d, LayoutDirection::Ltr, true), LayerUpdate::Created);
    assert!(c.has_layer);
    assert_eq!(c.layer_block, Some(1));
    assert_eq!(c.layer_density, d);
    assert_eq!(c.update_layer_block(Some(2), false, d, LayoutDirection::Ltr, true), LayerUpdate::Kept);
    assert_eq!(c.layer_block, Some(2));
    assert_eq!(c.update_layer_block(None, false, d, LayoutDirection::Ltr, true), LayerUpdate::Released);
    assert!(!c.has_layer);
}

#[test]
fn update_layer_block_detached_has_no_layer() {
    let mut c = NodeCoordinatorImpl::new(1);
    let u = c.update_layer_block(Some(1), true, Density::identity(), LayoutDirection::Rtl, false);
    assert_eq!(u, LayerUpdate::Released);
    assert!(!c.has_layer);
    assert_eq!(c.layer_layout_direction, LayoutDirection::Rtl);
}

#[test]
fn place_self_moves_and_updates_the_layer() {
    let mut c = NodeCoordinatorImpl::new(1);
    let u = c.place_self(IntOffset::new(3, 4), None, Density::identity(), LayoutDirection::Ltr, true);
    assert_eq!(u, LayerUpdate::Released);
    assert_eq!(c.get_position(), IntOffset::new(3, 4));
    let u = c.place_self(IntOffset::new(5, 6), Some(8), Density::identity(), LayoutDirection::Ltr, true);
    assert_eq!(u, LayerUpdate::Created);
    assert_eq!(c.get_position(), IntOffset::new(5, 6));
}
