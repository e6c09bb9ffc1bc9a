use compose::node_kind::NodeKind;

#[test]
fn node_kind_masks_are_single_bits() {
    assert_eq!(NodeKind::Any.mask(), 1);
    assert_eq!(NodeKind::Layout.mask(), 2);
    assert_eq!(NodeKind::ParentData.mask(), 4);
    assert_eq!(NodeKind::Draw.mask(), 8);
    assert_eq!(NodeKind::LayoutAware.mask(), 16);
    assert_eq!(NodeKind::PointerInput.mask(), 32);
}

#[test]
fn node_kind_masks_are_disjoint() {
    let kinds = [
        NodeKind::Any,
        NodeKind::Layout,
        NodeKind::ParentData,
        NodeKind::Draw,
        NodeKind::LayoutAware,
        NodeKind::PointerInput,
    ];
    for a in kinds.iter() {
        for b in kinds.iter() {
            assert_eq!(a.mask() & b.mask() != 0, a == b);
        }
    }
}

#[test]
fn node_kind_bit_operators() {
    assert_eq!(NodeKind::Draw.bitand(8 | 2), 8);
    assert_eq!(NodeKind::Draw.bitand(2), 0);
    assert_eq!(NodeKind::Draw.bitor(2), 10);
    assert_eq!(u32::from(NodeKind::PointerInput), 32);
}

#[test]
fn include_self_in_traversal_only_for_layout_aware() {
    assert!(NodeKind::LayoutAware.include_self_in_traversal());
    assert!(!NodeKind::Draw.include_self_in_traversal());
    assert!(!NodeKind::Layout.include_self_in_traversal());
    assert!(!NodeKind::Any.include_self_in_traversal());
}
