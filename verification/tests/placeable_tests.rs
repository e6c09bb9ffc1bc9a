use compose::geometry::{Constraints, Density, IntOffset, IntSize, LayoutDirection};
use compose::placeable::{
    LookaheadCapablePlaceable, LookaheadCapablePlaceableImpl, MeasureResult, MeasureScopeImpl, Measured, MeasuredImpl,
    PlaceableImpl, PlacementScopeImpl,
};

#[test]
fn measured_impl_new_is_zero() {
    let m = MeasuredImpl::new();
    assert_eq!(m.get_measured_width(), 0);
    assert_eq!(m.get_measured_height(), 0);
}

#[test]
fn placeable_impl_new() {
    let p = PlaceableImpl::new();
    assert_eq!(p.get_width(), 0);
    assert_eq!(p.get_height(), 0);
    assert_eq!(p.get_size(), IntSize::new(0, 0));
    assert_eq!(p.get_measured_size(), IntSize::zero());
    assert_eq!(p.get_measurement_constraint(), Constraints::unbounded());
}

#[test]
fn recalculate_width_and_height_clamps_into_constraint() {
    let mut p = PlaceableImpl::new();
    p.set_measured_size(IntSize::new(500, 5));
    p.set_measurement_constraint(&Constraints::new(10, 100, 20, 40));
    p.recalculate_width_and_height();
    assert_eq!(p.get_width(), 100);
    assert_eq!(p.get_height(), 20);
    assert_eq!(p.get_measured_size(), IntSize::new(500, 5));
}

#[test]
fn recalculate_width_and_height_keeps_size_within_bounds() {
    let mut p = PlaceableImpl::new();
    p.set_measured_size(IntSize::new(30, 35));
    p.set_measurement_constraint(&Constraints::new(10, 100, 20, 40));
    p.recalculate_width_and_height();
    assert_eq!(p.get_size(), IntSize::new(30, 35));
}

#[test]
fn measure_scope_impl_new() {
    let s = MeasureScopeImpl::new();
    assert_eq!(s.get_density(), Density::identity());
    assert_eq!(s.get_layout_direction(), LayoutDirection::Ltr);
}

#[test]
fn lookahead_capable_placeable_default_and_setters() {
    let mut p = LookaheadCapablePlaceableImpl::default();
    assert_eq!(p.get_position(), IntOffset::new(0, 0));
    p.set_position(IntOffset::new(3, 4));
    assert_eq!(p.get_position(), IntOffset::new(3, 4));
    p.set_measured_size(IntSize::new(8, 9));
    assert_eq!(p.get_measured_size(), IntSize::new(8, 9));
    p.set_measurement_constraint(&Constraints::fixed(8, 9));
    assert_eq!(p.get_measurement_constraint(), Constraints::fixed(8, 9));
}

#[test]
fn placement_scope_new() {
    let s = PlacementScopeImpl::new(100, 50, LayoutDirection::Rtl);
    assert_eq!(s.parent_width(), 100);
    assert_eq!(s.parent_height(), 50);
    assert_eq!(s.parent_layout_direction(), LayoutDirection::Rtl);
}

#[test]
fn place_relative_left_to_right_keeps_position() {
    let s = PlacementScopeImpl::new(100, 50, LayoutDirection::Ltr);
    assert_eq!(s.place_relative(30, 10, 5), IntOffset::new(10, 5));
}

#[test]
fn place_relative_right_to_left_mirrors() {
    let s = PlacementScopeImpl::new(100, 50, LayoutDirection::Rtl);
    assert_eq!(s.place_relative(30, 10, 5), IntOffset::new(60, 5));
    assert_eq!(s.place_relative_with_z(30, 10, 5), IntOffset::new(60, 5));
}

#[test]
fn place_relative_mirrored_twice_comes_back() {
    let s = PlacementScopeImpl::new(100, 50, LayoutDirection::Rtl);
    let once = s.place_relative(30, 10, 5);
    assert_eq!(s.place_relative(30, once.x, once.y), IntOffset::new(10, 5));
}

#[test]
fn place_relative_in_zero_width_rtl_parent_is_not_mirrored() {
    let s = PlacementScopeImpl::new(0, 50, LayoutDirection::Rtl);
    assert_eq!(s.place_relative(30, 10, 5), IntOffset::new(10, 5));
}

#[test]
fn measure_result_new_and_size() {
    let r = MeasureResult::new(IntSize::new(4, 5), Some(9));
    assert_eq!(r.as_int_size(), IntSize::new(4, 5));
    assert_eq!(r.placement_block, Some(9));
    let d = MeasureResult::default();
    assert_eq!((d.width, d.height, d.placement_block), (0, 0, None));
    let f = MeasureResult::from((6, 7));
    assert_eq!((f.width, f.height, f.placement_block), (6, 7, None));
}

#[test]
fn measure_result_place_children_takes_the_block_once() {
    let mut r = MeasureResult::new(IntSize::new(4, 5), Some(9));
    let first = r.place_children(LayoutDirection::Rtl);
    let (block, scope) = first.unwrap();
    assert_eq!(block, 9);
    assert_eq!(scope, PlacementScopeImpl::new(4, 5, LayoutDirection::Rtl));
    assert!(r.place_children(LayoutDirection::Ltr).is_none());
}

#[test]
fn measure_result_equality_as_written() {
    let a = MeasureResult::new(IntSize::new(4, 5), None);
    let b = MeasureResult::new(IntSize::new(4, 6), None);
    let c = MeasureResult::new(IntSize::new(4, 5), None);
    assert!(a == b);
    assert!(!(a == c));
    assert!(!(a == a));
    let d = MeasureResult::new(IntSize::new(4, 6), Some(1));
    assert!(!(a == d));
}
