use boxflow::dom::Dom;
use boxflow::node::Element;
use boxflow::style::{
    BorderStyle, BoxModelValues, BoxSizing, Color, Display, Float, Size, Style,
};
use boxflow::text::FixedAdvanceMetrics;

fn styled(mut f: impl FnMut(&mut Style)) -> Style {
    let mut s = Style::default();
    f(&mut s);
    s
}

fn run(dom: &mut Dom, w: u64, h: u64) {
    let metrics = FixedAdvanceMetrics::new();
    dom.compute_styles();
    dom.compute_layout(&metrics, w, h);
}

#[test]
fn border_box_width_is_authoritative() {
    // Explicit width 100 with box-sizing border-box and border+padding on
    // each side: the stored box width is exactly 100.
    let mut dom = Dom::new();
    let root = dom.root;
    let block = dom.append_new_styled_element(
        root,
        Element::new(),
        &styled(|s| {
            s.display = Some(Display::Block);
            s.width = Some(Size::Points(100));
            s.box_sizing = Some(BoxSizing::BorderBox);
            s.padding = Some(BoxModelValues::all(10));
            s.border = Some(BorderStyle::uniform(5, Color::white()));
        }),
    );
    run(&mut dom, 500, 500);
    let b = dom.layout[block.idx].unwrap();
    assert_eq!(b.actual_width, 100);
}

#[test]
fn content_box_width_gets_padding_and_border_added() {
    let mut dom = Dom::new();
    let root = dom.root;
    let block = dom.append_new_styled_element(
        root,
        Element::new(),
        &styled(|s| {
            s.display = Some(Display::Block);
            s.width = Some(Size::Points(100));
            s.box_sizing = Some(BoxSizing::ContentBox);
            s.padding = Some(BoxModelValues::all(10));
            s.border = Some(BorderStyle::uniform(5, Color::white()));
        }),
    );
    run(&mut dom, 500, 500);
    let b = dom.layout[block.idx].unwrap();
    assert_eq!(b.actual_width, 100 + 2 * 10 + 2 * 5);
}

#[test]
fn auto_block_fills_available_width() {
    let mut dom = Dom::new();
    let root = dom.root;
    let block = dom.append_new_styled_element(
        root,
        Element::new(),
        &styled(|s| {
            s.display = Some(Display::Block);
            s.height = Some(Size::Points(40));
        }),
    );
    run(&mut dom, 320, 200);
    let b = dom.layout[block.idx].unwrap();
    assert_eq!(b.actual_width, 320);
    assert_eq!(b.actual_height, 40);
}

#[test]
fn hidden_display_yields_zero_box_and_skips_children() {
    let mut dom = Dom::new();
    let root = dom.root;
    let hidden = dom.append_new_styled_element(
        root,
        Element::new(),
        &styled(|s| {
            s.display = Some(Display::Hidden);
        }),
    );
    let child = dom.append_new_styled_element(
        hidden,
        Element::new(),
        &styled(|s| {
            s.display = Some(Display::Block);
            s.height = Some(Size::Points(50));
        }),
    );
    run(&mut dom, 200, 200);
    let b = dom.layout[hidden.idx].unwrap();
    assert_eq!(b.actual_width, 0);
    assert_eq!(b.actual_height, 0);
    // Children of a hidden subtree are not visited for layout.
    assert!(dom.layout[child.idx].is_none());
}

#[test]
fn second_inline_block_wraps_to_new_line() {
    // A 200-wide container with two 120-wide inline-block children: the
    // second is pushed to a new line at the first line's height, at the
    // content box's left edge.
    let mut dom = Dom::new();
    let root = dom.root;
    let item = styled(|s| {
        s.display = Some(Display::InlineBlock);
        s.width = Some(Size::Points(120));
        s.height = Some(Size::Points(50));
    });
    let first = dom.append_new_styled_element(root, Element::new(), &item);
    let second = dom.append_new_styled_element(root, Element::new(), &item);
    run(&mut dom, 200, 400);
    let b1 = dom.layout[first.idx].unwrap();
    let b2 = dom.layout[second.idx].unwrap();
    assert_eq!(b1.computed_x, 0);
    assert_eq!(b1.computed_y, 0);
    assert_eq!(b2.computed_x, 0);
    assert_eq!(b2.computed_y, b1.actual_height);
    assert_eq!(b2.computed_y, 50);
}

#[test]
fn text_leaf_is_measured_and_wrapped() {
    let mut dom = Dom::new();
    let root = dom.root;
    dom.set_inner_text(root, "aaaaa aaaaa aaaaa aaaaa aaaaa aaaaa".to_string());
    let text_id = *dom.children(root).unwrap().last().unwrap();
    run(&mut dom, 100, 400);
    let info = dom.text_info[text_id.idx].as_ref().unwrap();
    assert_eq!(info.lines.len(), 3);
    let b = dom.layout[text_id.idx].unwrap();
    assert_eq!(b.actual_width, 99);
    assert_eq!(b.actual_height, 54);
}

#[test]
fn same_side_floats_never_overlap() {
    // Two left floats of 150 in a 200-wide container: the second cannot fit
    // beside the first and clears below it.
    let mut dom = Dom::new();
    let root = dom.root;
    let float_style = styled(|s| {
        s.float = Some(Float::Left);
        s.width = Some(Size::Points(150));
        s.height = Some(Size::Points(30));
        s.display = Some(Display::Block);
    });
    let f1 = dom.append_new_styled_element(root, Element::new(), &float_style);
    let f2 = dom.append_new_styled_element(root, Element::new(), &float_style);
    run(&mut dom, 200, 400);
    let b1 = dom.layout[f1.idx].unwrap();
    let b2 = dom.layout[f2.idx].unwrap();
    let vert_overlap =
        b1.computed_y < b2.computed_y + b2.actual_height && b2.computed_y < b1.computed_y + b1.actual_height;
    let horiz_overlap =
        b1.computed_x < b2.computed_x + b2.actual_width && b2.computed_x < b1.computed_x + b1.actual_width;
    assert!(!(vert_overlap && horiz_overlap));
    assert_eq!(b2.computed_y, 30);
}

#[test]
fn inline_content_flows_beside_float() {
    // A 50-wide left float narrows the band: an inline block starts at x=50.
    let mut dom = Dom::new();
    let root = dom.root;
    let f = dom.append_new_styled_element(
        root,
        Element::new(),
        &styled(|s| {
            s.float = Some(Float::Left);
            s.width = Some(Size::Points(50));
            s.height = Some(Size::Points(40));
            s.display = Some(Display::Block);
        }),
    );
    let inline = dom.append_new_styled_element(
        root,
        Element::new(),
        &styled(|s| {
            s.display = Some(Display::InlineBlock);
            s.width = Some(Size::Points(60));
            s.height = Some(Size::Points(10));
        }),
    );
    run(&mut dom, 200, 400);
    let bf = dom.layout[f.idx].unwrap();
    assert_eq!(bf.computed_x, 0);
    let bi = dom.layout[inline.idx].unwrap();
    assert_eq!(bi.computed_x, 50);
    assert_eq!(bi.computed_y, 0);
}

#[test]
fn unfittable_float_is_squeezed_into_the_band() {
    // A 300-wide float in a 200-wide band fits nowhere; the documented
    // fallback registers it squeezed into the band instead of looping.
    let mut fm = boxflow::floats::FloatManager::new(0, 200);
    let placed = fm.place(Float::Left, 300, 30, 0);
    assert_eq!(placed.x, 0);
    assert_eq!(placed.y, 0);
    assert_eq!(placed.width, 200);
    assert_eq!(placed.height, 30);
    // A second float of natural width clears below the squeezed one.
    let second = fm.place(Float::Left, 100, 10, 0);
    assert_eq!(second.y, 30);
    assert_eq!(second.x, 0);
    assert_eq!(second.width, 100);
}

#[test]
fn percent_width_resolves_against_available_width() {
    let mut dom = Dom::new();
    let root = dom.root;
    let half = dom.append_new_styled_element(
        root,
        Element::new(),
        &styled(|s| {
            s.display = Some(Display::Block);
            s.width = Some(Size::Percent(50));
            s.height = Some(Size::Points(10));
        }),
    );
    run(&mut dom, 400, 400);
    let b = dom.layout[half.idx].unwrap();
    assert_eq!(b.actual_width, 200);
}

#[test]
fn inline_block_width_follows_box_sizing() {
    // The uniform policy applies to inline-block too: a border-box width is
    // authoritative, a content-box width gets padding and border added.
    let mut dom = Dom::new();
    let root = dom.root;
    let bb = dom.append_new_styled_element(
        root,
        Element::new(),
        &styled(|s| {
            s.display = Some(Display::InlineBlock);
            s.width = Some(Size::Points(100));
            s.height = Some(Size::Points(20));
            s.box_sizing = Some(BoxSizing::BorderBox);
            s.padding = Some(BoxModelValues::all(10));
            s.border = Some(BorderStyle::uniform(5, Color::white()));
        }),
    );
    let cb = dom.append_new_styled_element(
        root,
        Element::new(),
        &styled(|s| {
            s.display = Some(Display::InlineBlock);
            s.width = Some(Size::Points(100));
            s.height = Some(Size::Points(20));
            s.box_sizing = Some(BoxSizing::ContentBox);
            s.padding = Some(BoxModelValues::all(10));
            s.border = Some(BorderStyle::uniform(5, Color::white()));
        }),
    );
    run(&mut dom, 500, 500);
    assert_eq!(dom.layout[bb.idx].unwrap().actual_width, 100);
    assert_eq!(dom.layout[cb.idx].unwrap().actual_width, 100 + 2 * 10 + 2 * 5);
}

#[test]
fn flex_container_width_follows_box_sizing() {
    let mut dom = Dom::new();
    let root = dom.root;
    let flex = dom.append_new_styled_element(
        root,
        Element::new(),
        &styled(|s| {
            s.display = Some(Display::Flex);
            s.width = Some(Size::Points(200));
            s.height = Some(Size::Points(50));
            s.box_sizing = Some(BoxSizing::ContentBox);
            s.padding = Some(BoxModelValues::all(10));
        }),
    );
    run(&mut dom, 500, 500);
    // Content-box 200 plus 10px padding each side.
    assert_eq!(dom.layout[flex.idx].unwrap().actual_width, 220);
    assert_eq!(dom.layout[flex.idx].unwrap().actual_height, 50 + 2 * 10);
}

#[test]
fn block_child_honors_the_float_band() {
    // A 50-wide left float narrows the band; a following block child stacks
    // beside it as a full-width block of the band, not below it.
    let mut dom = Dom::new();
    let root = dom.root;
    let _f = dom.append_new_styled_element(
        root,
        Element::new(),
        &styled(|s| {
            s.float = Some(Float::Left);
            s.width = Some(Size::Points(50));
            s.height = Some(Size::Points(40));
            s.display = Some(Display::Block);
        }),
    );
    let block = dom.append_new_styled_element(
        root,
        Element::new(),
        &styled(|s| {
            s.display = Some(Display::Block);
            s.height = Some(Size::Points(10));
        }),
    );
    run(&mut dom, 200, 200);
    let b = dom.layout[block.idx].unwrap();
    assert_eq!(b.computed_x, 50);
    assert_eq!(b.computed_y, 0);
    assert_eq!(b.actual_width, 150);
}

#[test]
fn content_area_offered_to_children_is_width_minus_padding_and_border() {
    // Border-box width 100 with 10px padding and 5px border each side: the
    // content area is 70 wide, and an auto block child fills exactly it.
    let mut dom = Dom::new();
    let root = dom.root;
    let parent = dom.append_new_styled_element(
        root,
        Element::new(),
        &styled(|s| {
            s.display = Some(Display::Block);
            s.width = Some(Size::Points(100));
            s.box_sizing = Some(BoxSizing::BorderBox);
            s.padding = Some(BoxModelValues::all(10));
            s.border = Some(BorderStyle::uniform(5, Color::white()));
        }),
    );
    let child = dom.append_new_styled_element(
        parent,
        Element::new(),
        &styled(|s| {
            s.display = Some(Display::Block);
            s.height = Some(Size::Points(10));
        }),
    );
    run(&mut dom, 500, 500);
    let c = dom.layout[child.idx].unwrap();
    assert_eq!(c.actual_width, 70);
    assert_eq!(c.computed_x, 15);
}

#[test]
fn inline_element_shrinks_to_its_content() {
    // A display:inline parent ignores explicit widths and shrinks to its
    // children's used content width plus its own padding.
    let mut dom = Dom::new();
    let root = dom.root;
    let parent = dom.append_new_styled_element(
        root,
        Element::new(),
        &styled(|s| {
            s.display = Some(Display::Inline);
            s.width = Some(Size::Points(400));
            s.padding = Some(BoxModelValues::all(10));
        }),
    );
    for _ in 0..2 {
        dom.append_new_styled_element(
            parent,
            Element::new(),
            &styled(|s| {
                s.display = Some(Display::InlineBlock);
                s.width = Some(Size::Points(50));
                s.height = Some(Size::Points(20));
            }),
        );
    }
    run(&mut dom, 500, 500);
    let b = dom.layout[parent.idx].unwrap();
    assert_eq!(b.actual_width, 100 + 2 * 10);
    assert_eq!(b.actual_height, 20 + 2 * 10);
}
