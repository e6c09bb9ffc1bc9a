use compose::modifier::{Modifier, ModifierInternal, ModifierNodeElement};

fn leaf_key(m: &ModifierInternal) -> i64 {
    match m {
        ModifierInternal::Unit => -1,
        ModifierInternal::ModifierNodeElement { key, .. } => *key as i64,
        ModifierInternal::ComposedModifier { factory } => 1000 + *factory as i64,
        ModifierInternal::Combined { .. } => -2,
    }
}

fn keys(m: Modifier) -> Vec<i64> {
    m.flatten().iter().map(|x| leaf_key(&x.inner)).collect()
}

fn chain(ks: &[u64]) -> Modifier {
    let mut m = Modifier::default();
    for k in ks {
        m = m.then_modifier(ModifierNodeElement(*k, 8, 0));
    }
    m
}

#[test]
fn default_modifier_is_unit() {
    let m = Modifier::default();
    assert!(m.is_unit());
    assert!(!m.is_element());
    assert_eq!(keys(Modifier::default()), vec![-1]);
}

#[test]
fn then_with_unit_is_identity() {
    let m = ModifierNodeElement(3, 8, 0).then_modifier(Modifier::default());
    assert!(m.is_element());
    let m = Modifier::default().then_modifier(ModifierNodeElement(4, 8, 0));
    assert!(m.is_element());
    assert_eq!(keys(m), vec![4]);
}

#[test]
fn then_combines_in_order() {
    let m = ModifierNodeElement(1, 8, 0).then_modifier(ModifierNodeElement(2, 2, 0));
    assert!(!m.is_element());
    assert!(matches!(m.inner, ModifierInternal::Combined { .. }));
    assert_eq!(keys(m), vec![1, 2]);
}

#[test]
fn flatten_is_left_to_right_whatever_the_grouping() {
    let left = ModifierNodeElement(1, 8, 0).then_modifier(ModifierNodeElement(2, 8, 0)).then_modifier(ModifierNodeElement(3, 8, 0));
    let right = ModifierNodeElement(1, 8, 0).then_modifier(ModifierNodeElement(2, 8, 0).then_modifier(ModifierNodeElement(3, 8, 0)));
    assert_eq!(keys(left), vec![1, 2, 3]);
    assert_eq!(keys(right), vec![1, 2, 3]);
}

#[test]
fn fold_in_and_fold_out_run_in_opposite_orders() {
    let m = chain(&[1, 2, 3]);
    let forward = m.fold_in(Vec::new(), |mut acc: Vec<i64>, x: &ModifierInternal| {
        acc.push(leaf_key(x));
        acc
    });
    assert_eq!(forward, vec![1, 2, 3]);
    let backward = m.fold_out(Vec::new(), |x: &ModifierInternal, mut acc: Vec<i64>| {
        acc.push(leaf_key(x));
        acc
    });
    assert_eq!(backward, vec![3, 2, 1]);
}

#[test]
fn fold_in_on_single_leaf() {
    let m = ModifierNodeElement(9, 8, 0);
    let r = m.fold_in(0i64, |acc: i64, x: &ModifierInternal| acc * 10 + leaf_key(x));
    assert_eq!(r, 9);
}

#[test]
fn any_and_all() {
    let m = chain(&[1, 2, 3]);
    assert!(m.any(|x: &ModifierInternal| leaf_key(x) == 2));
    assert!(!m.any(|x: &ModifierInternal| leaf_key(x) == 7));
    assert!(m.all(|x: &ModifierInternal| leaf_key(x) > 0));
    assert!(!m.all(|x: &ModifierInternal| leaf_key(x) > 1));
}

#[test]
fn composed_appends_a_factory() {
    let m = ModifierNodeElement(1, 8, 0).composed(5);
    assert_eq!(keys(m), vec![1, 1005]);
    let only = Modifier::default().composed(6);
    assert!(matches!(only.inner, ModifierInternal::ComposedModifier { factory: 6 }));
}

#[test]
fn materialize_without_composed_is_unchanged() {
    let m = chain(&[1, 2]);
    let r = m.materialize(&|_id: u64, acc: Modifier| acc);
    assert_eq!(keys(r), vec![1, 2]);
}

#[test]
fn materialize_hands_the_result_so_far_to_the_factory() {
    let m = ModifierNodeElement(1, 8, 0).composed(7).then_modifier(ModifierNodeElement(2, 8, 0));
    let r = m.materialize(&|id: u64, acc: Modifier| acc.then_modifier(ModifierNodeElement(100 + id, 2, 0)));
    assert_eq!(keys(r), vec![1, 107, 2]);
}

#[test]
fn materialize_factory_may_replace_the_result() {
    let m = ModifierNodeElement(1, 8, 0).then_modifier(ModifierNodeElement(2, 8, 0)).composed(3);
    let r = m.materialize(&|id: u64, _acc: Modifier| ModifierNodeElement(50 + id, 8, 0));
    assert_eq!(keys(r), vec![53]);
}

#[test]
fn modifier_internal_conversions() {
    let m: Modifier = ModifierInternal::ModifierNodeElement { key: 4, node_kind: 2, kind_set: 0 }.into();
    assert!(m.is_element());
    let inner: ModifierInternal = m.into();
    assert_eq!(leaf_key(&inner), 4);
    assert!(ModifierInternal::Unit.is_unit());
    assert!(ModifierInternal::ComposedModifier { factory: 1 }.is_composed());
    assert!(!ModifierInternal::Unit.is_composed());
}
