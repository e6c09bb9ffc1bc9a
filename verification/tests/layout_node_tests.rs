use compose::coordinator::WrappedBy;
use compose::geometry::{Constraints, Density, IntSize, LayoutDirection};
use compose::layout_node::LayoutNode;
use compose::measure::{LayoutState, UsageByParent};
use compose::modifier::ModifierNodeElement;
use compose::node_chain::INNER;

fn ids(nodes: &Vec<LayoutNode>) -> Vec<u32> {
    nodes.iter().map(|n| n.identify).collect()
}

fn with_children(id: u32, children: &[u32]) -> LayoutNode {
    let mut parent = LayoutNode::new(id);
    for (i, c) in children.iter().enumerate() {
        parent.insert_at(i, LayoutNode::new(*c));
    }
    parent
}

#[test]
fn new_layout_node_is_detached_and_empty() {
    let n = LayoutNode::new(1);
    assert_eq!(n.identify, 1);
    assert!(n.get_children().is_empty());
    assert!(!n.is_attached());
    assert!(!n.is_placed());
    assert_eq!(n.get_parent(), None);
    assert_eq!(n.get_layout_direction(), LayoutDirection::Ltr);
    assert_eq!(n.get_layout_state(), LayoutState::Idle);
    assert_eq!(n.get_density(), Density::identity());
    assert_eq!(n.get_inner_coordinator(), INNER);
    assert_eq!(n.get_outer_coordinator(), INNER);
    assert!(!n.measure_affects_parent());
    assert_eq!(n.usage_by_parent, UsageByParent::NotUsed);
}

#[test]
fn setters_of_a_layout_node() {
    let mut n = LayoutNode::new(1);
    n.set_layout_direction(LayoutDirection::Rtl);
    assert_eq!(n.get_layout_direction(), LayoutDirection::Rtl);
    n.set_layout_state(LayoutState::Measuring);
    assert_eq!(n.get_layout_state(), LayoutState::Measuring);
    n.set_parent(Some(8));
    assert_eq!(n.get_parent(), Some(8));
    assert_eq!(n.get_measure_pass_delegate().get_layout_state(), LayoutState::Measuring);
}

#[test]
fn attach_marks_the_subtree_attached() {
    let mut root = with_children(1, &[2, 3]);
    root.attach(None, 99);
    assert!(root.is_attached());
    assert_eq!(root.require_owner(), 99);
    assert!(root.is_placed());
    assert!(root.children.iter().all(|c| c.owner == Some(99)));
    assert_eq!(root.get_children(), vec![2, 3]);
}

#[test]
fn detach_undoes_attach() {
    let mut root = with_children(1, &[2, 3]);
    root.attach(None, 99);
    root.detach();
    assert!(!root.is_attached());
    assert!(root.children.iter().all(|c| c.owner.is_none()));
    assert_eq!(root.get_children(), vec![2, 3]);
}

#[test]
fn insert_at_sets_the_parent_and_the_owner() {
    let mut root = LayoutNode::new(1);
    root.attach(None, 5);
    root.insert_at(0, LayoutNode::new(2));
    root.insert_at(0, LayoutNode::new(3));
    assert_eq!(root.get_children(), vec![3, 2]);
    assert_eq!(root.children[0].get_parent(), Some(1));
    assert_eq!(root.children[0].owner, Some(5));
}

#[test]
fn insert_at_into_a_detached_parent_leaves_the_child_detached() {
    let mut root = LayoutNode::new(1);
    root.insert_at(0, LayoutNode::new(2));
    assert!(!root.children[0].is_attached());
    assert_eq!(root.children[0].get_parent(), Some(1));
}

#[test]
fn remove_at_with_count_one_removes_that_child() {
    let mut root = with_children(1, &[2, 3, 4]);
    root.attach(None, 5);
    let removed = root.remove_at(1, 1);
    assert_eq!(ids(&removed), vec![3]);
    assert_eq!(root.get_children(), vec![2, 4]);
    assert_eq!(removed[0].get_parent(), None);
    assert!(!removed[0].is_attached());
}

#[test]
fn remove_at_with_count_zero_removes_the_neighbours() {
    let mut root = with_children(1, &[2, 3, 4]);
    let removed = root.remove_at(1, 0);
    assert_eq!(ids(&removed), vec![2, 4]);
    assert_eq!(root.get_children(), vec![3]);
}

#[test]
fn remove_at_with_a_larger_count_removes_nothing() {
    let mut root = with_children(1, &[2, 3, 4]);
    let removed = root.remove_at(0, 2);
    assert!(removed.is_empty());
    assert_eq!(root.get_children(), vec![2, 3, 4]);
}

#[test]
fn insert_then_remove_gives_back_the_children() {
    let mut root = with_children(1, &[2, 3]);
    root.insert_at(1, LayoutNode::new(9));
    assert_eq!(root.get_children(), vec![2, 9, 3]);
    let removed = root.remove_at(1, 1);
    assert_eq!(ids(&removed), vec![9]);
    assert_eq!(root.get_children(), vec![2, 3]);
}

#[test]
fn remove_all_removes_last_first() {
    let mut root = with_children(1, &[2, 3, 4]);
    root.attach(None, 5);
    let removed = root.remove_all();
    assert_eq!(ids(&removed), vec![4, 3, 2]);
    assert!(root.get_children().is_empty());
    assert!(removed.iter().all(|c| c.owner.is_none() && c.get_parent().is_none()));
}

#[test]
fn adopt_child_appends() {
    let mut root = with_children(1, &[2]);
    root.attach(None, 5);
    root.adopt_child(LayoutNode::new(3), false);
    assert_eq!(root.get_children(), vec![2, 3]);
    assert_eq!(root.children[1].get_parent(), Some(1));
    assert_eq!(root.children[1].owner, Some(5));
    root.adopt_child(LayoutNode::new(4), true);
    assert_eq!(root.children[2].get_parent(), None);
    assert_eq!(root.children[2].owner, Some(5));
}

#[test]
fn remeasure_without_constraint_changes_nothing() {
    let mut n = LayoutNode::new(1);
    let changed = n.remeasure(None, &|_c: &Constraints| IntSize::new(1, 1));
    assert!(!changed);
    assert_eq!(n.node_chain.coordinators[n.get_outer_coordinator()].get_measured_size(), IntSize::zero());
}

#[test]
fn remeasure_with_constraint_measures_the_outer_coordinator() {
    let mut n = LayoutNode::new(1);
    n.set_modifier(ModifierNodeElement(1, 2, 0));
    let changed = n.remeasure(Some(Constraints::fixed(30, 40)), &|c: &Constraints| IntSize::new(c.max_width, c.max_height));
    assert!(changed);
    assert_eq!(n.node_chain.coordinators[n.get_outer_coordinator()].get_measured_size(), IntSize::new(30, 40));
    assert!(n.get_measure_pass_delegate().layout_pending);
}

#[test]
fn remeasure_with_the_measured_constraint_and_nothing_pending_is_skipped() {
    let mut n = LayoutNode::new(1);
    let changed = n.remeasure(Some(Constraints::unbounded()), &|_c: &Constraints| IntSize::new(5, 5));
    assert!(!changed);
    assert_eq!(n.node_chain.coordinators[n.get_outer_coordinator()].get_measured_size(), IntSize::zero());
}

#[test]
fn new_layout_node_delegate_carries_its_identity() {
    let n = LayoutNode::new(6);
    assert_eq!(n.layout_node_layout_delegate.identify, 6);
}

#[test]
fn attach_names_each_node_once_parents_first() {
    let mut child = with_children(2, &[4, 5]);
    child.attach(None, 1);
    child.detach();
    let mut root = LayoutNode::new(1);
    root.insert_at(0, child);
    root.insert_at(1, LayoutNode::new(3));
    let notified = root.attach(None, 9);
    assert_eq!(notified, vec![1, 2, 4, 5, 3]);
}

#[test]
fn insert_at_into_an_attached_parent_wraps_the_child() {
    let mut root = LayoutNode::new(1);
    root.attach(None, 5);
    let notified = root.insert_at(0, with_children(2, &[3]));
    assert_eq!(notified, vec![2, 3]);
    let child = &root.children[0];
    let outer = child.get_outer_coordinator();
    assert_eq!(child.node_chain.coordinators[outer].get_wrapped_by(), Some(WrappedBy::ParentInner { layout_node: 1 }));
}

#[test]
fn insert_at_into_a_detached_parent_notifies_nobody() {
    let mut root = LayoutNode::new(1);
    assert!(root.insert_at(0, LayoutNode::new(2)).is_empty());
    assert!(root.adopt_child(LayoutNode::new(3), false).is_empty());
}

#[test]
fn remove_at_leaves_the_other_children_untouched() {
    let mut root = with_children(1, &[2, 3, 4]);
    root.children[2].set_layout_direction(LayoutDirection::Rtl);
    let removed = root.remove_at(1, 1);
    assert_eq!(ids(&removed), vec![3]);
    assert_eq!(root.children[0].usage_by_parent, UsageByParent::NotUsed);
    assert_eq!(root.children[1].get_layout_direction(), LayoutDirection::Rtl);
    assert_eq!(root.children[1].get_parent(), Some(1));
}

#[test]
fn attach_changes_only_owner_placement_and_wrapping() {
    let mut root = with_children(1, &[2]);
    root.children[0].set_layout_direction(LayoutDirection::Rtl);
    root.attach(None, 7);
    let child = &root.children[0];
    assert_eq!(child.get_layout_direction(), LayoutDirection::Rtl);
    assert!(!child.is_placed());
    assert_eq!(child.owner, Some(7));
    root.detach();
    assert_eq!(root.children[0].get_layout_direction(), LayoutDirection::Rtl);
    assert!(root.is_placed());
}
