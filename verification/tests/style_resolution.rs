use boxflow::dom::Dom;
use boxflow::node::{Element, Text};
use boxflow::resolve::resolve_style;
use boxflow::style::Font;
use boxflow::style::{
    BoxModelValues, BoxSizing, Color, ComputedStyle, Display, Float, Size, Style,
};

#[test]
fn resolution_fills_every_field_from_defaults() {
    let sparse = Style::default();
    let resolved = resolve_style(&sparse, None);
    let defaults = ComputedStyle::default();
    assert_eq!(resolved, defaults);
    assert_eq!(resolved.display, Display::Block);
    assert_eq!(resolved.box_sizing, BoxSizing::ContentBox);
    assert_eq!(resolved.float, Float::NoFloat);
    assert_eq!(resolved.font_size, 16);
}

#[test]
fn authored_fields_overwrite_defaults() {
    let mut authored = Style::default();
    authored.display = Some(Display::Flex);
    authored.width = Some(Size::Points(120));
    authored.bg_color = Some(Color::new(1, 2, 3, 255));
    authored.margin = Some(BoxModelValues::all(4));
    let resolved = resolve_style(&authored, None);
    assert_eq!(resolved.display, Display::Flex);
    assert_eq!(resolved.width, Size::Points(120));
    assert_eq!(resolved.bg_color, Color::new(1, 2, 3, 255));
    assert_eq!(resolved.margin.left, 4);
    assert_eq!(resolved.margin.top, 4);
    // Fields left unset stay at the engine defaults.
    assert_eq!(resolved.height, Size::Auto);
    assert_eq!(resolved.padding.left, 0);
}

#[test]
fn inherit_marker_copies_parent_value() {
    let mut parent_authored = Style::default();
    parent_authored.box_sizing = Some(BoxSizing::BorderBox);
    parent_authored.float = Some(Float::Right);
    let parent = resolve_style(&parent_authored, None);

    let mut child_authored = Style::default();
    child_authored.box_sizing = Some(BoxSizing::Inherit);
    child_authored.float = Some(Float::Inherit);
    let child = resolve_style(&child_authored, Some(&parent));
    assert_eq!(child.box_sizing, BoxSizing::BorderBox);
    assert_eq!(child.float, Float::Right);
}

#[test]
fn inherit_marker_at_root_falls_back_to_hard_default() {
    let mut authored = Style::default();
    authored.box_sizing = Some(BoxSizing::Inherit);
    authored.float = Some(Float::Inherit);
    let resolved = resolve_style(&authored, None);
    assert_eq!(resolved.box_sizing, BoxSizing::ContentBox);
    assert_eq!(resolved.float, Float::NoFloat);
}

#[test]
fn non_inheritable_fields_never_come_from_parent() {
    let mut parent_authored = Style::default();
    parent_authored.margin = Some(BoxModelValues::all(9));
    parent_authored.bg_color = Some(Color::new(7, 7, 7, 255));
    let parent = resolve_style(&parent_authored, None);

    let child = resolve_style(&Style::default(), Some(&parent));
    assert_eq!(child.margin.left, 0);
    assert_eq!(child.bg_color, Color::black());
}

#[test]
fn apply_overwrites_only_provided_fields() {
    let mut base = Style::default();
    base.display = Some(Display::Inline);
    base.width = Some(Size::Points(10));
    let mut patch = Style::default();
    patch.width = Some(Size::Points(20));
    base.apply(&patch);
    assert_eq!(base.display, Some(Display::Inline));
    assert_eq!(base.width, Some(Size::Points(20)));
}

#[test]
fn style_pass_populates_every_element() {
    let mut dom = Dom::new();
    let root = dom.root;
    let a = dom.append_new_element(root, Element::new());
    let b = dom.append_new_element(a, Element::new());
    dom.set_box_sizing(root, BoxSizing::BorderBox);
    dom.set_box_sizing(a, BoxSizing::Inherit);
    dom.compute_styles();
    assert!(dom.get_computed_style(root).is_some());
    assert!(dom.get_computed_style(a).is_some());
    assert!(dom.get_computed_style(b).is_some());
    // The inherit marker picked up the parent's resolved box-sizing.
    assert_eq!(
        dom.get_computed_style(a).unwrap().box_sizing,
        BoxSizing::BorderBox
    );
    // No marker means the hard default, not the parent's value.
    assert_eq!(
        dom.get_computed_style(b).unwrap().box_sizing,
        BoxSizing::ContentBox
    );
}

#[test]
fn text_nodes_get_their_own_resolved_style() {
    let mut dom = Dom::new();
    let root = dom.root;
    let t = dom.create_text(Text::new("aa".to_string()));
    dom.append_child(root, t);
    let mut s = Style::default();
    s.font = Some(Font { color: None, font_size: Some(32), font_family: None });
    dom.set_style(t, s);
    dom.compute_styles();
    let resolved = dom.get_computed_style(t).expect("text node resolved");
    assert_eq!(resolved.font_size, 32);
}
