use boxflow::dom::Dom;
use boxflow::flex::justify_gaps;
use boxflow::node::Element;
use boxflow::style::{
    AlignItems, BoxModelValues, Display, FlexDirection, FlexWrap, JustifyContent, Size, Style,
};
use boxflow::text::FixedAdvanceMetrics;

fn styled(mut f: impl FnMut(&mut Style)) -> Style {
    let mut s = Style::default();
    f(&mut s);
    s
}

fn run(dom: &mut Dom, w: u64, h: u64) {
    let metrics = FixedAdvanceMetrics::new();
    dom.compute_styles();
    dom.compute_layout(&metrics, w, h);
}

fn flex_container(width: u32, justify: JustifyContent) -> Style {
    styled(|s| {
        s.display = Some(Display::Flex);
        s.width = Some(Size::Points(width));
        s.flex_direction = Some(FlexDirection::Row);
        s.justify_content = Some(justify);
        s.flex_wrap = Some(FlexWrap::NoWrap);
    })
}

fn item(width: u32, height: u32) -> Style {
    styled(|s| {
        s.display = Some(Display::InlineBlock);
        s.width = Some(Size::Points(width));
        s.height = Some(Size::Points(height));
    })
}

#[test]
fn space_between_gaps_sum_to_free_space_exactly() {
    let (offset, gaps) = justify_gaps(100, 3, JustifyContent::SpaceBetween);
    assert_eq!(offset, 0);
    assert_eq!(gaps, vec![50, 50]);
    // A remainder spreads one pixel at a time over the leading gaps.
    let (_, gaps) = justify_gaps(101, 3, JustifyContent::SpaceBetween);
    assert_eq!(gaps, vec![51, 50]);
    assert_eq!(gaps.iter().sum::<u64>(), 101);
    let (_, gaps) = justify_gaps(7, 5, JustifyContent::SpaceBetween);
    assert_eq!(gaps, vec![2, 2, 2, 1]);
    assert_eq!(gaps.iter().sum::<u64>(), 7);
}

#[test]
fn centered_row_of_three_items() {
    // Container width 300, three 50-wide items, justify center: free space
    // is 150, and item i starts at 75 + i * 50.
    let mut dom = Dom::new();
    let root = dom.root;
    let container = dom.append_new_styled_element(
        root,
        Element::new(),
        &flex_container(300, JustifyContent::Center),
    );
    let mut ids = Vec::new();
    for _ in 0..3 {
        ids.push(dom.append_new_styled_element(container, Element::new(), &item(50, 20)));
    }
    run(&mut dom, 300, 300);
    for (i, id) in ids.iter().enumerate() {
        let b = dom.layout[id.idx].unwrap();
        assert_eq!(b.computed_x, 75 + (i as u64) * 50);
        assert_eq!(b.actual_width, 50);
        assert_eq!(b.actual_height, 20);
    }
}

#[test]
fn space_between_positions_first_and_last_at_edges() {
    let mut dom = Dom::new();
    let root = dom.root;
    let container = dom.append_new_styled_element(
        root,
        Element::new(),
        &flex_container(300, JustifyContent::SpaceBetween),
    );
    let a = dom.append_new_styled_element(container, Element::new(), &item(50, 20));
    let b = dom.append_new_styled_element(container, Element::new(), &item(50, 20));
    let c = dom.append_new_styled_element(container, Element::new(), &item(50, 20));
    run(&mut dom, 300, 300);
    assert_eq!(dom.layout[a.idx].unwrap().computed_x, 0);
    assert_eq!(dom.layout[b.idx].unwrap().computed_x, 125);
    assert_eq!(dom.layout[c.idx].unwrap().computed_x, 250);
}

#[test]
fn flex_end_pushes_items_to_the_right() {
    let mut dom = Dom::new();
    let root = dom.root;
    let container = dom.append_new_styled_element(
        root,
        Element::new(),
        &flex_container(200, JustifyContent::FlexEnd),
    );
    let a = dom.append_new_styled_element(container, Element::new(), &item(40, 10));
    let b = dom.append_new_styled_element(container, Element::new(), &item(40, 10));
    run(&mut dom, 200, 200);
    assert_eq!(dom.layout[a.idx].unwrap().computed_x, 120);
    assert_eq!(dom.layout[b.idx].unwrap().computed_x, 160);
}

#[test]
fn row_reverse_reverses_item_order() {
    let mut dom = Dom::new();
    let root = dom.root;
    let container = dom.append_new_styled_element(
        root,
        Element::new(),
        &styled(|s| {
            s.display = Some(Display::Flex);
            s.width = Some(Size::Points(100));
            s.flex_direction = Some(FlexDirection::RowReverse);
            s.justify_content = Some(JustifyContent::FlexStart);
            s.flex_wrap = Some(FlexWrap::NoWrap);
        }),
    );
    let a = dom.append_new_styled_element(container, Element::new(), &item(30, 10));
    let b = dom.append_new_styled_element(container, Element::new(), &item(30, 10));
    run(&mut dom, 100, 100);
    // The later child comes first on the main axis.
    assert_eq!(dom.layout[b.idx].unwrap().computed_x, 0);
    assert_eq!(dom.layout[a.idx].unwrap().computed_x, 30);
}

#[test]
fn wrapping_splits_items_into_lines() {
    let mut dom = Dom::new();
    let root = dom.root;
    let container = dom.append_new_styled_element(
        root,
        Element::new(),
        &styled(|s| {
            s.display = Some(Display::Flex);
            s.width = Some(Size::Points(100));
            s.flex_direction = Some(FlexDirection::Row);
            s.justify_content = Some(JustifyContent::FlexStart);
            s.flex_wrap = Some(FlexWrap::Wrap);
        }),
    );
    let a = dom.append_new_styled_element(container, Element::new(), &item(60, 20));
    let b = dom.append_new_styled_element(container, Element::new(), &item(60, 20));
    run(&mut dom, 100, 300);
    // The second item does not fit on the first line and wraps.
    assert_eq!(dom.layout[a.idx].unwrap().computed_y, 0);
    assert_eq!(dom.layout[b.idx].unwrap().computed_y, 20);
    assert_eq!(dom.layout[b.idx].unwrap().computed_x, 0);
    // The container's auto height is the sum of the line cross sizes.
    assert_eq!(dom.layout[container.idx].unwrap().actual_height, 40);
}

#[test]
fn flex_container_auto_height_is_the_tallest_item_plus_padding() {
    let mut dom = Dom::new();
    let root = dom.root;
    let flex = dom.append_new_styled_element(
        root,
        Element::new(),
        &styled(|s| {
            s.display = Some(Display::Flex);
            s.width = Some(Size::Points(300));
            s.padding = Some(BoxModelValues::all(10));
        }),
    );
    for h in [20u32, 50, 35] {
        dom.append_new_styled_element(
            flex,
            Element::new(),
            &styled(|s| {
                s.display = Some(Display::InlineBlock);
                s.width = Some(Size::Points(40));
                s.height = Some(Size::Points(h));
            }),
        );
    }
    run(&mut dom, 500, 500);
    assert_eq!(dom.layout[flex.idx].unwrap().actual_height, 50 + 2 * 10);
}

#[test]
fn flex_end_alignment_pushes_items_to_the_line_bottom() {
    let mut dom = Dom::new();
    let root = dom.root;
    let flex = dom.append_new_styled_element(
        root,
        Element::new(),
        &styled(|s| {
            s.display = Some(Display::Flex);
            s.width = Some(Size::Points(300));
            s.align_items = Some(AlignItems::FlexEnd);
        }),
    );
    let short = dom.append_new_styled_element(
        flex,
        Element::new(),
        &styled(|s| {
            s.display = Some(Display::InlineBlock);
            s.width = Some(Size::Points(40));
            s.height = Some(Size::Points(20));
        }),
    );
    let tall = dom.append_new_styled_element(
        flex,
        Element::new(),
        &styled(|s| {
            s.display = Some(Display::InlineBlock);
            s.width = Some(Size::Points(40));
            s.height = Some(Size::Points(50));
        }),
    );
    run(&mut dom, 500, 500);
    // The line is 50 tall; the short item sits 30 below its top.
    assert_eq!(dom.layout[short.idx].unwrap().computed_y, 30);
    assert_eq!(dom.layout[tall.idx].unwrap().computed_y, 0);
}
