use boxflow::debug::{u64_to_decimal, DebugTools};
use boxflow::dom::Dom;
use boxflow::events::{EventSystem, MouseEventType};
use boxflow::fragment::DocumentFragment;
use boxflow::node::{Element, Node, NodeContent, Text};
use boxflow::style::{Display, Size, Style};
use boxflow::text::FixedAdvanceMetrics;

#[test]
fn new_dom_has_one_root_element() {
    let dom = Dom::new();
    assert_eq!(dom.root.idx, 0);
    assert!(dom.is_element(dom.root));
    assert!(dom.children(dom.root).unwrap().is_empty());
    assert!(dom.parent(dom.root).is_none());
}

#[test]
fn append_child_links_parent_and_child() {
    let mut dom = Dom::new();
    let root = dom.root;
    let child = dom.create_element(Element::new().with_name("box"));
    dom.append_child(root, child);
    assert_eq!(dom.children(root).unwrap().as_slice(), &[child]);
    assert_eq!(dom.parent(child), Some(root));
}

#[test]
fn backward_edges_are_refused() {
    let mut dom = Dom::new();
    let root = dom.root;
    let a = dom.append_new_element(root, Element::new());
    // Appending the root under its own descendant would point backward.
    dom.append_child(a, root);
    assert!(dom.children(a).unwrap().is_empty());
    assert_eq!(dom.parent(root), None);
}

#[test]
fn set_and_get_inner_text() {
    let mut dom = Dom::new();
    let root = dom.root;
    dom.set_inner_text(root, "hello world".to_string());
    assert_eq!(dom.get_inner_text(root), Some("hello world".to_string()));
    // Setting again replaces the previous text child.
    dom.set_inner_text(root, "bye".to_string());
    assert_eq!(dom.get_inner_text(root), Some("bye".to_string()));
    assert_eq!(dom.children(root).unwrap().len(), 1);
}

#[test]
fn remove_node_clears_the_subtree() {
    let mut dom = Dom::new();
    let root = dom.root;
    let a = dom.append_new_element(root, Element::new());
    let b = dom.append_new_element(a, Element::new());
    dom.remove_node(a);
    assert!(dom.children(root).unwrap().is_empty());
    assert!(!dom.is_element(a));
    assert!(!dom.is_element(b));
    // Handles are never reused.
    let c = dom.create_element(Element::new());
    assert_ne!(c.idx, a.idx);
    assert_ne!(c.idx, b.idx);
}

#[test]
fn dirty_marks_follow_style_changes() {
    let mut dom = Dom::new();
    let root = dom.root;
    assert!(dom.is_dirty(root));
    dom.clear_dirty(root);
    assert!(!dom.is_dirty(root));
    dom.set_width(root, 50);
    assert!(dom.is_dirty(root));
}

#[test]
fn collect_nodes_is_preorder() {
    let mut dom = Dom::new();
    let root = dom.root;
    let a = dom.append_new_element(root, Element::new());
    let b = dom.append_new_element(a, Element::new());
    let c = dom.append_new_element(root, Element::new());
    let order = dom.collect_nodes_depth_first(root);
    assert_eq!(order, vec![root, a, b, c]);
}

#[test]
fn find_node_at_position_hits_the_deepest_box() {
    let mut dom = Dom::new();
    let root = dom.root;
    let mut style = Style::default();
    style.display = Some(Display::Block);
    style.width = Some(Size::Points(100));
    style.height = Some(Size::Points(50));
    let block = dom.append_new_styled_element(root, Element::new(), &style);
    let metrics = FixedAdvanceMetrics::new();
    dom.compute_styles();
    dom.compute_layout(&metrics, 400, 400);
    assert_eq!(dom.find_node_at_position(10, 10), Some(block));
    // A point outside every box falls back to the root.
    assert_eq!(dom.find_node_at_position(399, 399), Some(root));
}

#[test]
fn hover_transitions_emit_leave_then_enter() {
    let mut dom = Dom::new();
    let root = dom.root;
    let mut style = Style::default();
    style.display = Some(Display::Block);
    style.width = Some(Size::Points(100));
    style.height = Some(Size::Points(50));
    let block = dom.append_new_styled_element(root, Element::new(), &style);
    let metrics = FixedAdvanceMetrics::new();
    dom.compute_styles();
    dom.compute_layout(&metrics, 400, 400);

    let mut events = EventSystem::new();
    assert!(events.get_hovered_node().is_none());
    let first = events.process_mouse_move(&dom, 10, 10);
    assert_eq!(first.len(), 1);
    assert_eq!(first[0].event_type, MouseEventType::Enter);
    assert_eq!(first[0].node_id, block);
    assert_eq!(events.get_hovered_node(), Some(block));

    // No transition while the pointer stays on the same node.
    let second = events.process_mouse_move(&dom, 20, 20);
    assert!(second.is_empty());

    // Moving off the block leaves it and enters the fallback root.
    let third = events.process_mouse_move(&dom, 399, 399);
    assert_eq!(third.len(), 2);
    assert_eq!(third[0].event_type, MouseEventType::Leave);
    assert_eq!(third[0].node_id, block);
    assert_eq!(third[1].event_type, MouseEventType::Enter);
    assert_eq!(third[1].node_id, root);
}

#[test]
fn fragment_merges_into_the_tree() {
    let mut frag = DocumentFragment::new();
    let fr = frag.create_element(Element::new().with_name("list"));
    let fc = frag.create_text(Text::new("item".to_string()));
    frag.append_child(fr, fc);
    frag.root = Some(fr);

    let mut dom = Dom::new();
    let root = dom.root;
    let new_ids = frag.merge_into(&mut dom, root);
    assert_eq!(new_ids.len(), 2);
    let new_root = new_ids[0];
    assert_eq!(dom.children(root).unwrap().as_slice(), &[new_root]);
    assert_eq!(dom.get_inner_text(new_root), Some("item".to_string()));
}

#[test]
fn node_constructors_mark_dirty() {
    let n = Node::new_element(Element::new().with_name("div"));
    assert!(n.dirty);
    assert!(matches!(n.content, NodeContent::Element(_)));
    let t = Node::new_text(Text::new("x".to_string()));
    assert!(t.dirty);
    assert!(matches!(t.content, NodeContent::Text(_)));
}

#[test]
fn debug_log_keeps_last_ten() {
    let mut tools = DebugTools::new();
    for i in 0..12u32 {
        tools.log(&format!("message {}", i));
    }
    assert_eq!(tools.logs.len(), 10);
    assert_eq!(tools.logs[0], "message 2");
    assert_eq!(tools.logs[9], "message 11");
}

#[test]
fn performance_metrics_are_formatted() {
    let mut tools = DebugTools::new();
    tools.record_performance_metrics(12, 3, 450);
    assert_eq!(
        tools.performance_metrics,
        vec![
            "Style: 12ms".to_string(),
            "Layout: 3ms".to_string(),
            "Render: 450ms".to_string()
        ]
    );
}

#[test]
fn decimal_formatting_matches() {
    assert_eq!(u64_to_decimal(0), "0");
    assert_eq!(u64_to_decimal(7), "7");
    assert_eq!(u64_to_decimal(10), "10");
    assert_eq!(u64_to_decimal(90210), "90210");
    assert_eq!(u64_to_decimal(u64::MAX), "18446744073709551615");
}

#[test]
fn append_child_reports_whether_the_edge_was_added() {
    let mut dom = Dom::new();
    let root = dom.root;
    let child = dom.create_element(Element::new());
    assert!(dom.append_child(root, child));
    // A backward edge is refused, loudly.
    assert!(!dom.append_child(child, root));
    assert_eq!(dom.children(root).unwrap().as_slice(), &[child]);
}
