use compose::measure_layout_defer_action_manager::MeasureLayoutDeferActionManager;

#[test]
fn with_manager_starts_empty() {
    let mut m: MeasureLayoutDeferActionManager<u32> = MeasureLayoutDeferActionManager::with_manager();
    assert!(m.apply_layout_defer().is_empty());
    assert!(m.apply_measure_defer().is_empty());
    let d: MeasureLayoutDeferActionManager<u32> = MeasureLayoutDeferActionManager::default();
    assert!(d.layout_defer_actions.is_empty() && d.measure_defer_actions.is_empty());
}

#[test]
fn recorded_actions_come_out_in_order_once() {
    let mut m = MeasureLayoutDeferActionManager::new();
    m.record_layout(1);
    m.record_measure(10);
    m.record_layout(2);
    m.record_layout(3);
    assert_eq!(m.apply_layout_defer(), vec![1, 2, 3]);
    assert!(m.apply_layout_defer().is_empty());
    assert_eq!(m.apply_measure_defer(), vec![10]);
    assert!(m.apply_measure_defer().is_empty());
}

#[test]
fn the_queues_are_independent() {
    let mut m = MeasureLayoutDeferActionManager::new();
    m.record_measure("a");
    m.record_measure("b");
    assert!(m.apply_layout_defer().is_empty());
    assert_eq!(m.apply_measure_defer(), vec!["a", "b"]);
}

#[test]
fn deferred_closures_run_in_recording_order() {
    let log = std::cell::RefCell::new(Vec::new());
    let mut m: MeasureLayoutDeferActionManager<Box<dyn Fn()>> = MeasureLayoutDeferActionManager::new();
    m.record_layout(Box::new(|| log.borrow_mut().push(1)));
    m.record_layout(Box::new(|| log.borrow_mut().push(2)));
    for action in m.apply_layout_defer() {
        action();
    }
    assert_eq!(*log.borrow(), vec![1, 2]);
}
