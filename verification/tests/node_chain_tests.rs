use compose::geometry::IntOffset;
use compose::layout_node::LayoutNode;
use compose::modifier::ModifierNodeElement;
use compose::modifier_node::{calculate_node_kind_set_from_includeing_delegates, perform_draw};
use compose::node_chain::{CoordinatorDraw, DrawStep, DrawableNodeCoordinator, HitTestStep, NodeChain, INNER, TAIL};
use compose::node_kind::NodeKind;

const DRAW: u32 = 8;
const LAYOUT: u32 = 2;
const POINTER: u32 = 32;
const PARENT_DATA: u32 = 4;

/// Nodes 2 (draw), 3 (layout), 4 (pointer input), 5 (parent data), then the
/// tail 1; node 3 owns coordinator 1, the others below it share the inner
/// coordinator 0.
fn decorated_node() -> LayoutNode {
    let mut node = LayoutNode::new(7);
    let m = ModifierNodeElement(10, DRAW, 0)
        .then_modifier(ModifierNodeElement(11, LAYOUT, 0))
        .then_modifier(ModifierNodeElement(12, POINTER, 0))
        .then_modifier(ModifierNodeElement(13, PARENT_DATA, 0));
    node.set_modifier(m);
    node
}

#[test]
fn new_chain_is_the_tail_alone() {
    let c = NodeChain::new();
    assert_eq!(c.head, TAIL);
    assert_eq!(c.outer_coordinator, INNER);
    assert_eq!(c.coordinators.len(), 1);
    assert_eq!(c.get_tail(), TAIL);
    assert_eq!(c.tail_to_head(), vec![TAIL]);
    assert_eq!(c.get_parent(), None);
    assert!(c.for_each_coordinator().is_empty());
}

#[test]
fn chain_attach_and_parent() {
    let mut c = NodeChain::new();
    c.attach(9);
    assert_eq!(c.identify, 9);
    assert_eq!(c.layout_node, Some(9));
    assert_eq!(c.coordinators[INNER].layout_node(), Some(9));
    c.set_parent(Some(4));
    assert_eq!(c.get_parent(), Some(4));
}

#[test]
fn update_from_builds_one_node_per_element() {
    let node = decorated_node();
    let c = &node.node_chain;
    assert_eq!(c.head, 2);
    assert_eq!(c.tail_to_head(), vec![1, 5, 4, 3, 2]);
    assert_eq!(c.modifier_container.current.len(), 4);
    assert_eq!(c.nodes[2].element, Some(10));
    assert_eq!(c.nodes[5].element, Some(13));
    assert_eq!(c.nodes[3].node_kind, LAYOUT);
}

#[test]
fn update_from_gives_layout_nodes_coordinators() {
    let node = decorated_node();
    let c = &node.node_chain;
    assert_eq!(c.coordinators.len(), 2);
    assert_eq!(c.outer_coordinator, 1);
    assert_eq!(c.coordinators[1].get_tail(), 3);
    assert_eq!(c.coordinators[1].get_wrapped(), Some(INNER));
    assert_eq!(c.nodes[2].node_impl.get_coordinator(), Some(1));
    assert_eq!(c.nodes[3].node_impl.get_coordinator(), Some(1));
    assert_eq!(c.nodes[4].node_impl.get_coordinator(), Some(INNER));
    assert_eq!(c.for_each_coordinator(), vec![1]);
    assert_eq!(node.get_outer_coordinator(), 1);
}

#[test]
fn two_layout_nodes_nest_their_coordinators() {
    let mut node = LayoutNode::new(3);
    node.set_modifier(
        ModifierNodeElement(1, LAYOUT, 0).then_modifier(ModifierNodeElement(2, DRAW, 0)).then_modifier(ModifierNodeElement(3, LAYOUT, 0)),
    );
    let c = &node.node_chain;
    assert_eq!(c.outer_coordinator, 2);
    assert_eq!(c.for_each_coordinator(), vec![2, 1]);
    assert_eq!(c.coordinators[2].get_wrapped(), Some(1));
    assert_eq!(c.coordinators[1].get_wrapped(), Some(INNER));
}

#[test]
fn kinds_of_nodes() {
    let node = decorated_node();
    let c = &node.node_chain;
    assert!(c.node_as_layout_modifier_node(3));
    assert!(!c.node_as_layout_modifier_node(2));
    assert!(c.dispatch_for_kind(2, NodeKind::Draw));
    assert!(c.dispatch_for_kind(4, NodeKind::PointerInput));
    assert!(!c.dispatch_for_kind(4, NodeKind::Draw));
    assert_eq!(calculate_node_kind_set_from_includeing_delegates(&c.nodes[4]), POINTER);
    perform_draw(&c.nodes[2]);
}

#[test]
fn next_draw_node_stops_at_a_layout_node() {
    let node = decorated_node();
    let c = &node.node_chain;
    assert_eq!(c.next_draw_node(2), None);
    assert_eq!(c.next_draw_node(4), None);
}

#[test]
fn draw_content_hands_over_to_the_coordinator() {
    let node = decorated_node();
    let c = &node.node_chain;
    assert_eq!(c.draw_content(2), DrawStep::Coordinator(1));
}

#[test]
fn draw_content_continues_with_the_next_draw_node() {
    let mut node = LayoutNode::new(3);
    node.set_modifier(ModifierNodeElement(1, DRAW, 0).then_modifier(ModifierNodeElement(2, DRAW, 0)));
    let c = &node.node_chain;
    assert_eq!(c.next_draw_node(2), Some(3));
    assert_eq!(c.draw_content(2), DrawStep::Node(3));
    assert_eq!(c.draw_content(3), DrawStep::Coordinator(INNER));
}

#[test]
fn draw_coordinator_steps() {
    let node = decorated_node();
    let c = &node.node_chain;
    assert_eq!(c.draw(1), CoordinatorDraw::Nodes { offset: IntOffset::new(0, 0), head: 2 });
    assert_eq!(c.draw(INNER), CoordinatorDraw::Wrapped { offset: IntOffset::new(0, 0), wrapped: None });
}

#[test]
fn head_and_head_node() {
    let node = decorated_node();
    let c = &node.node_chain;
    assert_eq!(c.head_node(1, false), Some(2));
    assert_eq!(c.head_node(INNER, true), Some(4));
    assert_eq!(c.head_node(INNER, false), Some(3));
    assert_eq!(c.head(1, NodeKind::Draw), Some(2));
    assert_eq!(c.head(INNER, NodeKind::PointerInput), Some(4));
    assert_eq!(c.head(1, NodeKind::PointerInput), None);
}

#[test]
fn visit_nodes_of_a_coordinator() {
    let node = decorated_node();
    let c = &node.node_chain;
    assert_eq!(c.visit_nodes(INNER, POINTER), vec![4]);
    assert_eq!(c.visit_nodes(1, DRAW), vec![2]);
    assert_eq!(c.visit_nodes(INNER, NodeKind::LayoutAware.mask()), Vec::<usize>::new());
}

#[test]
fn require_coordinator_of_nodes() {
    let node = decorated_node();
    let c = &node.node_chain;
    assert_eq!(c.require_coordinator(2, NodeKind::Draw), 1);
    assert_eq!(c.require_coordinator(3, NodeKind::Draw), 1);
    assert_eq!(c.require_coordinator(3, NodeKind::LayoutAware), INNER);
}

#[test]
fn hit_tests() {
    let node = decorated_node();
    let c = &node.node_chain;
    assert_eq!(c.hit_test(INNER, true, true), HitTestStep::Hit(4));
    assert_eq!(c.hit_test(INNER, true, false), HitTestStep::Missed);
    assert_eq!(c.hit_test(1, true, true), HitTestStep::Children);
    assert_eq!(c.hit_test(1, false, true), HitTestStep::OutsideLayer);
}

#[test]
fn hit_and_next_until() {
    let node = decorated_node();
    let c = &node.node_chain;
    assert_eq!(c.next_until(4, NodeKind::PointerInput, NodeKind::Layout), None);
    assert_eq!(c.hit(4), vec![4]);
    assert_eq!(c.visit_local_descendants(2, DRAW | POINTER), Vec::<usize>::new());
}

#[test]
fn parent_data_nodes_from_the_tail() {
    let mut node = LayoutNode::new(3);
    node.set_modifier(
        ModifierNodeElement(1, PARENT_DATA, 0).then_modifier(ModifierNodeElement(2, DRAW, 0)).then_modifier(ModifierNodeElement(3, PARENT_DATA, 0)),
    );
    assert_eq!(node.node_chain.parent_data_nodes(), vec![4, 2]);
}

#[test]
fn update_from_gives_nodes_their_element_kind_sets() {
    let mut c = NodeChain::new();
    let m = ModifierNodeElement(1, NodeKind::Any.mask(), 1).then_modifier(ModifierNodeElement(2, NodeKind::Any.mask(), 2));
    c.update_from(m);
    let head = c.head;
    assert_eq!(c.nodes[head].node_impl.get_kind_set(), 1);
    let second = c.nodes[head].node_impl.get_child().unwrap();
    assert_eq!(c.nodes[second].node_impl.get_kind_set(), 2);
    assert_eq!(c.nodes[second].node_impl.get_child(), Some(c.get_tail()));
    assert_eq!(c.nodes[head].node_impl.get_parent(), None);
    assert_eq!(c.modifier_container.current.len(), 2);
}
