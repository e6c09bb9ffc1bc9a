use compose::geometry::{coerce_in, Constraints, Density, IntOffset, IntSize, LayoutDirection, ONE_BITS};

#[test]
fn int_size_new_and_zero() {
    let s = IntSize::new(3, 4);
    assert_eq!(s.width(), 3);
    assert_eq!(s.height(), 4);
    assert_eq!(IntSize::zero(), IntSize::new(0, 0));
}

#[test]
fn int_offset_new() {
    let o = IntOffset::new(-2, 5);
    assert_eq!(o.x, -2);
    assert_eq!(o.y, 5);
}

#[test]
fn layout_direction_defaults_to_ltr() {
    assert_eq!(LayoutDirection::default(), LayoutDirection::Ltr);
}

#[test]
fn density_identity_is_one() {
    let d = Density::identity();
    assert_eq!(d.density_bits, ONE_BITS);
    assert_eq!(d.font_scale_bits, ONE_BITS);
    assert_eq!(f32::from_bits(d.density_bits), 1.0f32);
    assert_eq!(Density::from_bits(1, 2), Density { density_bits: 1, font_scale_bits: 2 });
}

#[test]
fn density_default_is_zero() {
    assert_eq!(Density::default(), Density { density_bits: 0, font_scale_bits: 0 });
}

#[test]
fn constraints_constructors() {
    let c = Constraints::new(1, 2, 3, 4);
    assert_eq!((c.min_width, c.max_width, c.min_height, c.max_height), (1, 2, 3, 4));
    let u = Constraints::unbounded();
    assert_eq!((u.min_width, u.max_width, u.min_height, u.max_height), (0, usize::MAX, 0, usize::MAX));
    let f = Constraints::fixed(7, 9);
    assert_eq!((f.min_width, f.max_width, f.min_height, f.max_height), (7, 7, 9, 9));
}

#[test]
fn coerce_in_clamps() {
    assert_eq!(coerce_in(5, 10, 20), 10);
    assert_eq!(coerce_in(25, 10, 20), 20);
    assert_eq!(coerce_in(15, 10, 20), 15);
    assert_eq!(coerce_in(10, 10, 10), 10);
}
