use compose::leak_token::{validate_leak, LeakRegistry};

#[test]
fn new_registry_has_no_leaks() {
    let r = LeakRegistry::new();
    assert!(validate_leak(&r).is_empty());
}

#[test]
fn remember_counts_up_per_tag() {
    let mut r = LeakRegistry::new();
    r.remember(1);
    r.remember(2);
    r.remember(1);
    assert_eq!(r.entries, vec![(1, 2), (2, 1)]);
    assert_eq!(validate_leak(&r), vec![(1, 2), (2, 1)]);
}

#[test]
fn forget_counts_down_and_balanced_tags_do_not_leak() {
    let mut r = LeakRegistry::new();
    r.remember(1);
    r.remember(2);
    r.forget(1);
    assert_eq!(r.entries, vec![(1, 0), (2, 1)]);
    assert_eq!(validate_leak(&r), vec![(2, 1)]);
    r.forget(2);
    assert!(validate_leak(&r).is_empty());
}

#[test]
fn remember_then_forget_restores_the_counts() {
    let mut r = LeakRegistry::new();
    r.remember(5);
    r.remember(5);
    let before = r.entries.clone();
    r.remember(5);
    r.forget(5);
    assert_eq!(r.entries, before);
}
