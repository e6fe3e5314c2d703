//! Block and inline layout: the recursive box-model pass.
//!
//! `compute_layout` descends once from the root. Per node it dispatches on
//! the resolved style: hidden nodes get a zero box and their children are
//! skipped; floated elements and inline(-block) elements take the inline
//! path; block elements stack their children vertically; flex containers
//! delegate to the flex module; text leaves are measured and wrapped against
//! the available width. A node with no resolved style is laid out with the
//! engine defaults, so the pass is total.
//!
//! The box policy is uniform: a border-box width or height is authoritative
//! as given; a content-box value gets padding and border added on top.

use vstd::prelude::*;

use crate::dom::Dom;
use crate::floats::FloatManager;
use crate::geom::{cadd, csub, in_range, smax, smin, Rect, GEOM_MAX, UNBOUNDED};
use crate::node::{NodeContent, NodeId};
use crate::flex::justify_gaps;
use crate::style::{
    AlignContent, AlignItems, AlignSelf, BoxSizing, ComputedStyle, Display, FlexDirection,
    FlexWrap, Float, JustifyContent, Size,
};
use crate::text::FontMetrics;

verus! {

/// A node's computed border box in viewport coordinates: the only geometry
/// the paint stage reads.
#[derive(Clone, Copy, Debug, PartialEq, Eq, Structural)]
pub struct LayoutData {
    pub computed_x: u64,
    pub computed_y: u64,
    pub actual_width: u64,
    pub actual_height: u64,
}

impl LayoutData {
    pub open spec fn wf(self) -> bool {
        in_range(self.computed_x as int) && in_range(self.computed_y as int) && in_range(
            self.actual_width as int,
        ) && in_range(self.actual_height as int)
    }
}

/// The resolved style layout uses for slot `i`: the stored one, or the
/// engine defaults for a node the style pass has not populated.
pub open spec fn spec_style_of(d: Dom, i: int) -> ComputedStyle {
    match d.computed_styles@[i] {
        Some(s) => s,
        None => ComputedStyle::spec_default(),
    }
}

/// An extent resolved against the available extent: points as given,
/// percentages of the available extent, and `auto_val` for `Auto`.
pub open spec fn spec_resolved_size(sz: Size, avail: int, auto_val: int) -> int {
    match sz {
        Size::Points(w) => w as int,
        Size::Percent(p) => crate::geom::cpct(avail, p as int),
        Size::Auto => auto_val,
    }
}

fn resolved_size(sz: Size, avail: u64, auto_val: u64) -> (r: u64)
    requires
        in_range(avail as int),
        in_range(auto_val as int),
    ensures
        r as int == spec_resolved_size(sz, avail as int, auto_val as int),
        in_range(r as int),
{
    match sz {
        Size::Points(w) => w as u64,
        Size::Percent(p) => crate::geom::gpct(avail, p),
        Size::Auto => auto_val,
    }
}

/// The border-box width a block element gets: the explicit width resolved
/// against the available width (falling back to the available width minus
/// the horizontal margins), with padding and border added on top for an
/// explicit content-box width.
pub open spec fn spec_block_width(s: ComputedStyle, avail_w: int) -> int {
    let hb = cadd(s.border.spec_left_width(), s.border.spec_right_width());
    let hp = smin(s.padding.left + s.padding.right, GEOM_MAX as int);
    let hm = smin(s.margin.left + s.margin.right, GEOM_MAX as int);
    let bbw = spec_resolved_size(s.width, avail_w, csub(avail_w, hm));
    if s.box_sizing == BoxSizing::ContentBox && !(s.width is Auto) {
        cadd(bbw, cadd(hp, hb))
    } else {
        bbw
    }
}

/// The border-box height an explicit height resolves to: authoritative as
/// given for border-box sizing, padding and border added for content-box.
pub open spec fn spec_explicit_height(s: ComputedStyle, avail_h: int) -> int {
    let vb = cadd(s.border.spec_top_width(), s.border.spec_bottom_width());
    let vp = smin(s.padding.top + s.padding.bottom, GEOM_MAX as int);
    let h = spec_resolved_size(s.height, avail_h, 0);
    if s.box_sizing == BoxSizing::BorderBox {
        h
    } else {
        cadd(h, cadd(vp, vb))
    }
}

/// The border-box width an explicit (non-auto) width resolves to, under the
/// one uniform policy: authoritative as given for border-box sizing, padding
/// and border added on top for content-box.
pub open spec fn spec_explicit_width(s: ComputedStyle, avail_w: int) -> int {
    let hb = cadd(s.border.spec_left_width(), s.border.spec_right_width());
    let hp = smin(s.padding.left + s.padding.right, GEOM_MAX as int);
    let w = spec_resolved_size(s.width, avail_w, 0);
    if s.box_sizing == BoxSizing::ContentBox {
        cadd(w, cadd(hp, hb))
    } else {
        w
    }
}

/// The horizontal margins, clamped to pixel range.
pub open spec fn spec_hmargin(s: ComputedStyle) -> int {
    smin(s.margin.left + s.margin.right, GEOM_MAX as int)
}

/// The vertical margins, clamped to pixel range.
pub open spec fn spec_vmargin(s: ComputedStyle) -> int {
    smin(s.margin.top + s.margin.bottom, GEOM_MAX as int)
}

/// The x coordinate of a block element's content-box origin.
pub open spec fn spec_block_content_x(s: ComputedStyle, avail: Rect) -> int {
    cadd(
        cadd(cadd(avail.x as int, s.margin.left as int), s.border.spec_left_width()),
        s.padding.left as int,
    )
}

/// The width of the content area a block element offers its children: the
/// border-box width minus border and padding, except that an explicit
/// content-box width is offered as given.
pub open spec fn spec_block_content_width(s: ComputedStyle, avail_w: int) -> int {
    let hb = cadd(s.border.spec_left_width(), s.border.spec_right_width());
    let hp = smin(s.padding.left + s.padding.right, GEOM_MAX as int);
    let hm = smin(s.margin.left + s.margin.right, GEOM_MAX as int);
    let bbw = spec_resolved_size(s.width, avail_w, csub(avail_w, hm));
    if s.box_sizing == BoxSizing::BorderBox {
        csub(bbw, cadd(hb, hp))
    } else if s.width is Auto {
        csub(bbw, cadd(hb, hp))
    } else {
        bbw
    }
}

/// The y coordinate of a block element's content-box origin.
pub open spec fn spec_block_content_y(s: ComputedStyle, avail: Rect) -> int {
    cadd(
        cadd(cadd(avail.y as int, s.margin.top as int), s.border.spec_top_width()),
        s.padding.top as int,
    )
}

/// The width of the content area an inline-level element offers its
/// children: the available width minus its own margins, border and padding.
pub open spec fn spec_inline_avail_width(s: ComputedStyle, avail_w: int) -> int {
    let hb = cadd(s.border.spec_left_width(), s.border.spec_right_width());
    let hp = smin(s.padding.left + s.padding.right, GEOM_MAX as int);
    let hm = smin(s.margin.left + s.margin.right, GEOM_MAX as int);
    csub(avail_w, cadd(hm, cadd(hb, hp)))
}

/// A block container's in-flow children, placed by the inline-flow cursor
/// walk against its content box. When the walk's guard holds of the
/// children — non-floated inline-blocks with explicit extents, in slot
/// order — every child stands where the recurrence puts it: at the cursor,
/// wrapping to a fresh line at the accumulated line height when it
/// overflows mid-line; and with `height: auto` the container's stored
/// height is the children's used content height plus vertical padding and
/// border.
#[verifier::opaque]
pub open spec fn spec_inline_children_flowed(
    pre: Dom,
    post: Dom,
    i: int,
    avail: Rect,
    s: ComputedStyle,
) -> bool {
    let kids = pre.child_seq(i);
    let cb = (Rect {
        x: spec_block_content_x(s, avail) as u64,
        y: spec_block_content_y(s, avail) as u64,
        width: spec_block_content_width(s, avail.width as int) as u64,
        height: UNBOUNDED,
    });
    inline_flow_guard(pre, kids, cb) ==> {
        &&& inline_kids_flowed(pre, post, kids, kids.len() as int, cb)
        &&& (s.height is Auto ==> post.layout@[i] is Some && post.layout@[i]->0.actual_height as int
            == cadd(
            spec_inline_used(pre, kids, cb).1,
            cadd(
                smin(s.padding.top + s.padding.bottom, GEOM_MAX as int),
                cadd(s.border.spec_top_width(), s.border.spec_bottom_width()),
            ),
        ))
    }
}

/// A block container's floated children, placed against its content box:
/// when every child is a floated element with explicit extents (in slot
/// order), each stands where the float scan puts it — flush against its
/// side's band edge at the first fitting candidate height among the floats
/// placed before it.
#[verifier::opaque]
pub open spec fn spec_float_children_placed(
    pre: Dom,
    post: Dom,
    i: int,
    avail: Rect,
    s: ComputedStyle,
) -> bool {
    let kids = pre.child_seq(i);
    let cb = (Rect {
        x: spec_block_content_x(s, avail) as u64,
        y: spec_block_content_y(s, avail) as u64,
        width: spec_block_content_width(s, avail.width as int) as u64,
        height: UNBOUNDED,
    });
    float_flow_guard(pre, kids) ==> float_kids_placed(pre, post, kids, kids.len() as int, cb)
}

/// An inline element's shrink-to-fit extents: when the cursor walk's guard
/// holds of its children, a `display: inline` element's stored width is the
/// used content width plus horizontal padding and border (an explicit width
/// is ignored), and with `height: auto` its stored height is the used
/// content height plus vertical padding and border.
#[verifier::opaque]
pub open spec fn spec_inline_shrink_extents(
    pre: Dom,
    post: Dom,
    i: int,
    avail: Rect,
    s: ComputedStyle,
) -> bool {
    let kids = pre.child_seq(i);
    let cb = (Rect {
        x: spec_block_content_x(s, avail) as u64,
        y: spec_block_content_y(s, avail) as u64,
        width: spec_inline_avail_width(s, avail.width as int) as u64,
        height: UNBOUNDED,
    });
    inline_flow_guard(pre, kids, cb) ==> {
        &&& ((s.display == Display::Inline) ==> post.layout@[i] is Some
            && post.layout@[i]->0.actual_width as int == cadd(
            spec_inline_used(pre, kids, cb).0,
            cadd(
                smin(s.padding.left + s.padding.right, GEOM_MAX as int),
                cadd(s.border.spec_left_width(), s.border.spec_right_width()),
            ),
        ))
        &&& (s.height is Auto ==> post.layout@[i] is Some && post.layout@[i]->0.actual_height as int
            == cadd(
            spec_inline_used(pre, kids, cb).1,
            cadd(
                smin(s.padding.top + s.padding.bottom, GEOM_MAX as int),
                cadd(s.border.spec_top_width(), s.border.spec_bottom_width()),
            ),
        ))
    }
}

/// Block children of a block container, placed against its content area.
/// When the container's children (in strictly increasing slot order) all
/// carry resolved styles, none is floated, and the content area's right
/// edge stays in pixel range, then every block child's stored box sits at
/// the content-box origin plus its own left margin, and its width is the
/// block width its own style resolves to against the content width — the
/// content area offered to the children is the container's border-box
/// width minus padding and border.
#[verifier::opaque]
pub open spec fn spec_block_children_widths(
    pre: Dom,
    post: Dom,
    i: int,
    avail: Rect,
    s: ComputedStyle,
) -> bool {
    let kids = pre.child_seq(i);
    let cx = spec_block_content_x(s, avail);
    let cw = spec_block_content_width(s, avail.width as int);
    (cx + cw <= GEOM_MAX && (forall|k1: int, k2: int|
        0 <= k1 < k2 < kids.len() ==> kids[k1].idx < kids[k2].idx) && (forall|k: int|
        0 <= k < kids.len() ==> pre.computed_styles@[(#[trigger] kids[k]).idx as int] is Some) && (
    forall|k: int|
        0 <= k < kids.len() ==> spec_style_of(pre, (#[trigger] kids[k]).idx as int).float
            == Float::NoFloat)) ==> (forall|k: int|
        0 <= k < kids.len() && crate::dom::node_is_element(pre, (#[trigger] kids[k]).idx as int)
            && spec_style_of(pre, kids[k].idx as int).display == Display::Block ==> {
            let cs = spec_style_of(pre, kids[k].idx as int);
            &&& post.layout@[kids[k].idx as int] is Some
            &&& post.layout@[kids[k].idx as int]->0.computed_x as int == cadd(
                cx,
                cs.margin.left as int,
            )
            &&& post.layout@[kids[k].idx as int]->0.actual_width as int == spec_block_width(cs, cw)
        })
}

/// What one layout visit stores for slot `i` when it is laid out inside
/// `avail`, by dispatch case. A hidden node gets a zero box at the available
/// origin and its subtree is not visited. A text leaf gets its measured
/// extent (the widest produced line, clamped to the available width) and
/// its full line-break result. A block element gets the available origin
/// plus its top-left margins, the block width policy, and its explicit
/// height per box-sizing; an inline, inline-block or floated element the
/// same position and its explicit extents per the uniform box-sizing
/// policy; a flex container the same position, its explicit width or the
/// available width, and its explicit height.
#[verifier::opaque]
pub open spec fn spec_box_stored<M: FontMetrics>(
    m: M,
    pre: Dom,
    post: Dom,
    i: int,
    avail: Rect,
) -> bool {
    let s = spec_style_of(pre, i);
    &&& (s.display == Display::Hidden ==> post.layout@ == pre.layout@.update(
        i,
        Some(
            LayoutData {
                computed_x: avail.x,
                computed_y: avail.y,
                actual_width: 0u64,
                actual_height: 0u64,
            },
        ),
    ) && post.text_info@ == pre.text_info@)
    &&& ((s.display != Display::Hidden && pre.content@[i] is Some && pre.content@[i]->0 is Text)
        ==> {
        let pairs = crate::text::spec_measure(
            m,
            pre.content@[i]->0->Text_0.content@,
            s.font_family,
            s.font_size,
            avail.width as int,
        );
        let lh = crate::text::spec_line_height(s.font_size);
        let mw = smin(
            smin(crate::text::max_width_of(pairs), avail.width as int),
            GEOM_MAX as int,
        );
        let mh = smin(crate::text::spec_total_height(pairs.len() as int, lh), GEOM_MAX as int);
        &&& post.layout@ == pre.layout@.update(
            i,
            Some(
                LayoutData {
                    computed_x: avail.x,
                    computed_y: avail.y,
                    actual_width: mw as u64,
                    actual_height: mh as u64,
                },
            ),
        )
        &&& post.text_info@[i] is Some
        &&& (forall|j: int|
            0 <= j < pre.size() && j != i ==> #[trigger] post.text_info@[j]
                == pre.text_info@[j])
        &&& post.text_info@[i]->0.lines@.len() == pairs.len()
        &&& (forall|k: int|
            0 <= k < pairs.len() ==> post.text_info@[i]->0.lines@[k]@ == (
            #[trigger] pairs[k]).0)
        &&& (forall|k: int|
            0 <= k < pairs.len() ==> post.text_info@[i]->0.line_widths@[k] as int == (
            #[trigger] pairs[k]).1)
        &&& (forall|k: int|
            0 <= k < pairs.len() ==> (#[trigger] post.text_info@[i]->0.line_heights@[k]) as int
                == lh)
    })
    &&& ((crate::dom::node_is_element(pre, i) && s.float == Float::NoFloat && s.display
        == Display::Block) ==> {
        &&& post.layout@[i] == Some(
            LayoutData {
                computed_x: (cadd(avail.x as int, s.margin.left as int)) as u64,
                computed_y: (cadd(avail.y as int, s.margin.top as int)) as u64,
                actual_width: (spec_block_width(s, avail.width as int)) as u64,
                actual_height: post.layout@[i]->0.actual_height,
            },
        )
        &&& (!(s.height is Auto) ==> post.layout@[i]->0.actual_height as int
            == spec_explicit_height(s, avail.height as int))
    })
    &&& ((crate::dom::node_is_element(pre, i) && s.display != Display::Hidden && (s.float
        != Float::NoFloat || s.display == Display::Inline || s.display == Display::InlineBlock))
        ==> {
        &&& post.layout@[i] is Some
        &&& post.layout@[i]->0.computed_x == cadd(avail.x as int, s.margin.left as int)
        &&& post.layout@[i]->0.computed_y == cadd(avail.y as int, s.margin.top as int)
        &&& ((s.display != Display::Inline && !(s.width is Auto)) ==> post.layout@[i]->0.actual_width as int == spec_explicit_width(
            s,
            avail.width as int,
        ))
        &&& (!(s.height is Auto) ==> post.layout@[i]->0.actual_height as int
            == spec_explicit_height(s, avail.height as int))
    })
    &&& ((crate::dom::node_is_element(pre, i) && s.float == Float::NoFloat && s.display
        == Display::Flex) ==> {
        &&& post.layout@[i] is Some
        &&& post.layout@[i]->0.computed_x == cadd(avail.x as int, s.margin.left as int)
        &&& post.layout@[i]->0.computed_y == cadd(avail.y as int, s.margin.top as int)
        &&& (!(s.width is Auto) ==> post.layout@[i]->0.actual_width as int
            == spec_explicit_width(s, avail.width as int))
        &&& (s.width is Auto ==> post.layout@[i]->0.actual_width == avail.width)
        &&& (!(s.height is Auto) ==> post.layout@[i]->0.actual_height as int
            == spec_explicit_height(s, avail.height as int))
    })
}

/// The border-box width a flex container gets: the explicit width per the
/// uniform box-sizing policy, or the available width.
pub open spec fn spec_flex_container_width(s: ComputedStyle, avail_w: int) -> int {
    if s.width is Auto {
        avail_w
    } else {
        spec_explicit_width(s, avail_w)
    }
}

/// The main-axis extent of a row flex container's content area: the
/// container width minus horizontal padding and border.
pub open spec fn spec_flex_main_size(s: ComputedStyle, avail: Rect) -> int {
    let hb = cadd(s.border.spec_left_width(), s.border.spec_right_width());
    let hp = smin(s.padding.left + s.padding.right, GEOM_MAX as int);
    csub(spec_flex_container_width(s, avail.width as int), cadd(hp, hb))
}

/// The x coordinate of a flex container's content-box origin.
pub open spec fn spec_flex_content_x(s: ComputedStyle, avail: Rect) -> int {
    cadd(
        cadd(cadd(avail.x as int, s.margin.left as int), s.border.spec_left_width()),
        s.padding.left as int,
    )
}

/// The content-area height a flex container computes from its explicit
/// height (per the box-sizing policy), or the unbounded sentinel with
/// `height: auto`.
pub open spec fn spec_flex_content_height(s: ComputedStyle, avail: Rect) -> int {
    let vb = cadd(s.border.spec_top_width(), s.border.spec_bottom_width());
    let vp = smin(s.padding.top + s.padding.bottom, GEOM_MAX as int);
    if s.height is Auto {
        UNBOUNDED as int
    } else {
        let h = spec_resolved_size(s.height, avail.height as int, 0);
        if s.box_sizing == BoxSizing::BorderBox {
            csub(h, cadd(vp, vb))
        } else {
            h
        }
    }
}

/// The cross-axis offset of a row container's single line: the free cross
/// space (against a bounded content height) placed per `align-content`.
pub open spec fn spec_flex_cross_offset(s: ComputedStyle, avail: Rect, line_cross: int) -> int {
    let cah = spec_flex_content_height(s, avail);
    let free = if cah != UNBOUNDED as int {
        csub(cah, line_cross)
    } else {
        0int
    };
    match s.align_content {
        AlignContent::FlexStart => 0int,
        AlignContent::FlexEnd => free,
        AlignContent::Center => free / 2,
        _ => 0int,
    }
}

/// Where an item sits across its line: at the line's top, pushed to its
/// bottom, or centered, per its own `align-self` or, when that is auto, the
/// container's `align-items`.
pub open spec fn spec_flex_item_cross(
    s: ComputedStyle,
    item_align: AlignSelf,
    line_cross: int,
    item_cross: int,
    off0: int,
) -> int {
    let align = if item_align == AlignSelf::Auto {
        s.align_items
    } else {
        item_align.spec_to_align_items()
    };
    match align {
        AlignItems::FlexStart | AlignItems::Stretch => off0,
        AlignItems::FlexEnd => cadd(off0, csub(line_cross, item_cross)),
        AlignItems::Center => cadd(off0, csub(line_cross, item_cross) / 2),
        AlignItems::Baseline => off0,
    }
}

/// Main-axis placement of a single-line row flex container's items, carried
/// to the stored boxes. For a non-wrapping row whose children (in strictly
/// increasing slot order) all have resolved styles: every child's box is
/// stored, and, with `ws` the stored border-box widths and `free` the main
/// size minus their clamped sum, child `k` sits at the content-box origin
/// plus [`crate::flex::spec_main_offset`] — the `justify-content` lead,
/// then each earlier child's width and the distribution's gap after it.
#[verifier::opaque]
pub open spec fn spec_flex_row_placement(
    pre: Dom,
    post: Dom,
    i: int,
    avail: Rect,
    s: ComputedStyle,
) -> bool {
    let kids = pre.child_seq(i);
    let base = s.flex_direction == FlexDirection::Row && s.flex_wrap == FlexWrap::NoWrap && (forall|
        k: int,
    |
        0 <= k < kids.len() ==> pre.computed_styles@[(#[trigger] kids[k]).idx as int] is Some) && (
    forall|k1: int, k2: int| 0 <= k1 < k2 < kids.len() ==> kids[k1].idx < kids[k2].idx);
    &&& (base ==> {
        let n = kids.len() as int;
        &&& (forall|k: int|
            0 <= k < n ==> post.layout@[(#[trigger] kids[k]).idx as int] is Some)
        &&& ({
            let ws = Seq::new(
                kids.len(),
                |k: int| post.layout@[kids[k].idx as int]->0.actual_width,
            );
            let free = csub(spec_flex_main_size(s, avail), crate::flex::csum(ws));
            forall|k: int|
                0 <= k < n ==> (#[trigger] post.layout@[kids[k].idx as int])->0.computed_x as int
                    == cadd(
                    spec_flex_content_x(s, avail),
                    crate::flex::spec_main_offset(ws, free, n, s.justify_content, k),
                )
        })
    })
    &&& ((base && flex_intrinsic_guard(pre, kids)) ==> (forall|k: int|
        0 <= k < kids.len() ==> (#[trigger] post.layout@[kids[k].idx as int]) is Some
            && post.layout@[kids[k].idx as int]->0.actual_width as int == spec_outer_width(
            spec_style_of(pre, kids[k].idx as int),
            spec_flex_main_size(s, avail),
        )))
    &&& (base ==> {
        let hs = Seq::new(kids.len(), |k: int| post.layout@[kids[k].idx as int]->0.actual_height);
        let lc = crate::flex::cmax_of(hs);
        &&& (forall|k: int|
            0 <= k < kids.len() ==> (#[trigger] post.layout@[kids[k].idx as int])->0.computed_y as int
                == cadd(
                spec_block_content_y(s, avail),
                spec_flex_item_cross(
                    s,
                    spec_style_of(pre, kids[k].idx as int).align_self,
                    lc,
                    post.layout@[kids[k].idx as int]->0.actual_height as int,
                    spec_flex_cross_offset(s, avail, lc),
                ),
            ))
        &&& (s.height is Auto ==> post.layout@[i] is Some
            && post.layout@[i]->0.actual_height as int == cadd(
            lc,
            cadd(
                smin(s.padding.top + s.padding.bottom, GEOM_MAX as int),
                cadd(s.border.spec_top_width(), s.border.spec_bottom_width()),
            ),
        ))
    })
}

/// The additional premise under which a flex item's stored main size is its
/// intrinsic one: every child is a live, non-floated inline-block element
/// with an explicit width, so its preliminary pass yields its outer width
/// against the container's content area.
pub open spec fn flex_intrinsic_guard(pre: Dom, kids: Seq<NodeId>) -> bool {
    forall|k: int|
        0 <= k < kids.len() ==> {
            let cs = spec_style_of(pre, (#[trigger] kids[k]).idx as int);
            &&& crate::dom::node_is_element(pre, kids[k].idx as int)
            &&& cs.float == Float::NoFloat
            &&& cs.display == Display::InlineBlock
            &&& !(cs.width is Auto)
        }
}

/// One flex item during layout: its handle, its own cross alignment, its
/// main and cross sizes from the preliminary pass, and its position
/// relative to the container's content box.
struct FlexItem {
    node_id: NodeId,
    align_self: AlignSelf,
    main_size: u64,
    cross_size: u64,
    x: u64,
    y: u64,
}

/// One wrap line: its items, the clamped sum of their main sizes, and the
/// largest cross size among them.
struct FlexLine {
    items: Vec<FlexItem>,
    main_size: u64,
    cross_size: u64,
}

spec fn item_ok(n: int, lo: int, it: FlexItem) -> bool {
    &&& lo < it.node_id.idx as int
    &&& (it.node_id.idx as int) < n
    &&& in_range(it.main_size as int)
    &&& in_range(it.cross_size as int)
    &&& in_range(it.x as int)
    &&& in_range(it.y as int)
}

spec fn items_ok(n: int, lo: int, items: Seq<FlexItem>) -> bool {
    forall|k: int| 0 <= k < items.len() ==> item_ok(n, lo, #[trigger] items[k])
}

spec fn line_ok(n: int, lo: int, l: FlexLine) -> bool {
    &&& in_range(l.main_size as int)
    &&& in_range(l.cross_size as int)
    &&& items_ok(n, lo, l.items@)
}

spec fn lines_ok(n: int, lo: int, ls: Seq<FlexLine>) -> bool {
    forall|k: int| 0 <= k < ls.len() ==> line_ok(n, lo, #[trigger] ls[k])
}

/// The outer (margin-inclusive) width a child with an explicit width
/// occupies on its line.
pub open spec fn spec_outer_width(s: ComputedStyle, avail_w: int) -> int {
    cadd(spec_explicit_width(s, avail_w), spec_hmargin(s))
}

/// The outer (margin-inclusive) height a child with an explicit height
/// occupies on its line.
pub open spec fn spec_outer_height(s: ComputedStyle, avail_h: int) -> int {
    cadd(spec_explicit_height(s, avail_h), spec_vmargin(s))
}

/// The child lists the inline-flow recurrence covers: children in strictly
/// increasing slot order, each a live element whose resolved style is a
/// non-floated inline-block with explicit pixel extents, inside a content
/// box whose right edge stays in pixel range. Explicit extents make a
/// child's outer size independent of the band it is offered, so the cursor
/// walk is a pure recurrence.
pub open spec fn inline_flow_guard(pre: Dom, kids: Seq<NodeId>, cb: Rect) -> bool {
    &&& cadd(cb.x as int, cb.width as int) == cb.x + cb.width
    &&& (forall|k1: int, k2: int| 0 <= k1 < k2 < kids.len() ==> kids[k1].idx < kids[k2].idx)
    &&& (forall|k: int|
        0 <= k < kids.len() ==> crate::dom::node_is_element(pre, (#[trigger] kids[k]).idx as int))
    &&& (forall|k: int|
        0 <= k < kids.len() ==> pre.computed_styles@[(#[trigger] kids[k]).idx as int] is Some)
    &&& (forall|k: int|
        0 <= k < kids.len() ==> {
            let cs = spec_style_of(pre, (#[trigger] kids[k]).idx as int);
            &&& cs.float == Float::NoFloat
            &&& cs.display == Display::InlineBlock
            &&& cs.width is Points
            &&& cs.height is Points
        })
}

/// The inline-flow cursor state after the first `k` children: the cursor x,
/// the current line's top y, the current line's height, and the widest line
/// so far — the sub-algorithm's walk as a pure recurrence over the
/// children's outer extents. A child that overflows the remaining band
/// mid-line wraps: the cursor drops by the line height and returns to the
/// band's start; a child at line start is placed there even when over-wide.
pub open spec fn inline_flow_state(pre: Dom, kids: Seq<NodeId>, cb: Rect, k: int) -> (
    int,
    int,
    int,
    int,
)
    decreases k,
{
    if k <= 0 {
        (cb.x as int, cb.y as int, 0int, 0int)
    } else {
        let st = inline_flow_state(pre, kids, cb, k - 1);
        let cs = spec_style_of(pre, kids[k - 1].idx as int);
        let ow = spec_outer_width(cs, cb.width as int);
        let oh = spec_outer_height(cs, UNBOUNDED as int);
        let remaining = csub(cb.x as int + cb.width as int, st.0);
        let wraps = ow > remaining && st.0 > cb.x;
        let px = if wraps {
            cb.x as int
        } else {
            st.0
        };
        let py = if wraps {
            cadd(st.1, st.2)
        } else {
            st.1
        };
        let lh = if wraps {
            0int
        } else {
            st.2
        };
        let nx = cadd(px, ow);
        (nx, py, smax(lh, oh), smax(st.3, csub(nx, cb.x as int)))
    }
}

/// Where the inline-flow walk places child `k`: at the cursor, or at the
/// start of a fresh line below the current one when the child overflows the
/// remaining band and the cursor has already advanced.
pub open spec fn inline_flow_pos(pre: Dom, kids: Seq<NodeId>, cb: Rect, k: int) -> (int, int) {
    let st = inline_flow_state(pre, kids, cb, k);
    let cs = spec_style_of(pre, kids[k].idx as int);
    let ow = spec_outer_width(cs, cb.width as int);
    let remaining = csub(cb.x as int + cb.width as int, st.0);
    if ow > remaining && st.0 > cb.x {
        (cb.x as int, cadd(st.1, st.2))
    } else {
        (st.0, st.1)
    }
}

/// The used content extents the inline-flow walk reports: the widest line,
/// and the bottom of the last line measured from the content-box top.
pub open spec fn spec_inline_used(pre: Dom, kids: Seq<NodeId>, cb: Rect) -> (int, int) {
    let st = inline_flow_state(pre, kids, cb, kids.len() as int);
    (st.3, csub(cadd(st.1, st.2), cb.y as int))
}

/// The first `upto` children stand where the inline-flow walk puts them:
/// each at its cursor position plus its top-left margins, with its explicit
/// extents.
pub open spec fn inline_kids_flowed(
    pre: Dom,
    post: Dom,
    kids: Seq<NodeId>,
    upto: int,
    cb: Rect,
) -> bool {
    forall|k: int|
        0 <= k < upto ==> {
            let cs = spec_style_of(pre, (#[trigger] kids[k]).idx as int);
            let pos = inline_flow_pos(pre, kids, cb, k);
            &&& post.layout@[kids[k].idx as int] is Some
            &&& post.layout@[kids[k].idx as int]->0.computed_x as int == cadd(
                pos.0,
                cs.margin.left as int,
            )
            &&& post.layout@[kids[k].idx as int]->0.computed_y as int == cadd(
                pos.1,
                cs.margin.top as int,
            )
            &&& post.layout@[kids[k].idx as int]->0.actual_width as int == spec_explicit_width(
                cs,
                cb.width as int,
            )
            &&& post.layout@[kids[k].idx as int]->0.actual_height as int == spec_explicit_height(
                cs,
                UNBOUNDED as int,
            )
        }
}

/// The child lists the float-placement theorem covers: children in strictly
/// increasing slot order, each a live element whose resolved style floats
/// it left or right, with explicit pixel extents and a display that is
/// neither hidden nor inline.
pub open spec fn float_flow_guard(pre: Dom, kids: Seq<NodeId>) -> bool {
    &&& (forall|k1: int, k2: int| 0 <= k1 < k2 < kids.len() ==> kids[k1].idx < kids[k2].idx)
    &&& (forall|k: int|
        0 <= k < kids.len() ==> crate::dom::node_is_element(pre, (#[trigger] kids[k]).idx as int))
    &&& (forall|k: int|
        0 <= k < kids.len() ==> pre.computed_styles@[(#[trigger] kids[k]).idx as int] is Some)
    &&& (forall|k: int|
        0 <= k < kids.len() ==> {
            let cs = spec_style_of(pre, (#[trigger] kids[k]).idx as int);
            &&& (cs.float == Float::Left || cs.float == Float::Right)
            &&& cs.display != Display::Inline
            &&& cs.display != Display::Hidden
            &&& cs.width is Points
            &&& cs.height is Points
        })
}

/// The float registries after the first `k` children of an all-float list
/// are placed: each float's spot is chosen by [`crate::floats::spot_of`]
/// among the floats already registered, scanning down from the content-box
/// top, and its rectangle joins its side's registry.
pub open spec fn floats_after(pre: Dom, kids: Seq<NodeId>, cb: Rect, k: int) -> (
    Seq<Rect>,
    Seq<Rect>,
)
    decreases k,
{
    if k <= 0 {
        (Seq::<Rect>::empty(), Seq::<Rect>::empty())
    } else {
        let prev = floats_after(pre, kids, cb, k - 1);
        let cs = spec_style_of(pre, kids[k - 1].idx as int);
        let w = spec_outer_width(cs, cb.width as int);
        let h = spec_outer_height(cs, UNBOUNDED as int);
        let spot = crate::floats::spot_of(
            prev.0,
            prev.1,
            cb.x as int,
            cadd(cb.x as int, cb.width as int),
            cs.float,
            w,
            h,
            cb.y as int,
        );
        let rect = (Rect {
            x: spot.0 as u64,
            y: spot.1 as u64,
            width: spot.2 as u64,
            height: h as u64,
        });
        if cs.float == Float::Left {
            (prev.0.push(rect), prev.1)
        } else {
            (prev.0, prev.1.push(rect))
        }
    }
}

/// The first `upto` floats stand where the scan places them: flush against
/// their side's band edge at the first fitting candidate height (their
/// margins added to the placed corner), with their explicit extents.
pub open spec fn float_kids_placed(
    pre: Dom,
    post: Dom,
    kids: Seq<NodeId>,
    upto: int,
    cb: Rect,
) -> bool {
    forall|k: int|
        0 <= k < upto ==> {
            let cs = spec_style_of(pre, (#[trigger] kids[k]).idx as int);
            let fa = floats_after(pre, kids, cb, k);
            let spot = crate::floats::spot_of(
                fa.0,
                fa.1,
                cb.x as int,
                cadd(cb.x as int, cb.width as int),
                cs.float,
                spec_outer_width(cs, cb.width as int),
                spec_outer_height(cs, UNBOUNDED as int),
                cb.y as int,
            );
            &&& post.layout@[kids[k].idx as int] is Some
            &&& post.layout@[kids[k].idx as int]->0.computed_x as int == cadd(
                spot.0,
                cs.margin.left as int,
            )
            &&& post.layout@[kids[k].idx as int]->0.computed_y as int == cadd(
                spot.1,
                cs.margin.top as int,
            )
            &&& post.layout@[kids[k].idx as int]->0.actual_width as int == spec_explicit_width(
                cs,
                cb.width as int,
            )
            &&& post.layout@[kids[k].idx as int]->0.actual_height as int == spec_explicit_height(
                cs,
                UNBOUNDED as int,
            )
        }
}

/// The in-flow child lists the block-width theorem covers: children in
/// strictly increasing slot order, all with resolved styles, none floated,
/// inside a content box whose right edge stays in pixel range.
spec fn inflow_guard(pre: Dom, kids: Seq<NodeId>, cb: Rect) -> bool {
    &&& cadd(cb.x as int, cb.width as int) == cb.x + cb.width
    &&& (forall|k1: int, k2: int| 0 <= k1 < k2 < kids.len() ==> kids[k1].idx < kids[k2].idx)
    &&& (forall|k: int|
        0 <= k < kids.len() ==> pre.computed_styles@[(#[trigger] kids[k]).idx as int] is Some)
    &&& (forall|k: int|
        0 <= k < kids.len() ==> spec_style_of(pre, (#[trigger] kids[k]).idx as int).float
            == Float::NoFloat)
}

/// The first `upto` children that are block elements sit at the content-box
/// origin plus their left margin, with the block width their own style
/// resolves to against the content width.
spec fn block_kids_placed(pre: Dom, post: Dom, kids: Seq<NodeId>, upto: int, cb: Rect) -> bool {
    forall|k: int|
        0 <= k < upto && crate::dom::node_is_element(pre, (#[trigger] kids[k]).idx as int)
            && spec_style_of(pre, kids[k].idx as int).display == Display::Block ==> {
            let cs = spec_style_of(pre, kids[k].idx as int);
            &&& post.layout@[kids[k].idx as int] is Some
            &&& post.layout@[kids[k].idx as int]->0.computed_x as int == cadd(
                cb.x as int,
                cs.margin.left as int,
            )
            &&& post.layout@[kids[k].idx as int]->0.actual_width as int == spec_block_width(
                cs,
                cb.width as int,
            )
        }
}

/// The flex containers the placement theorem covers: a non-wrapping row
/// whose children (in strictly increasing slot order) all carry resolved
/// styles.
spec fn flex_row_guard(pre: Dom, kids: Seq<NodeId>, s: ComputedStyle) -> bool {
    &&& s.flex_direction == FlexDirection::Row
    &&& s.flex_wrap == FlexWrap::NoWrap
    &&& (forall|k: int|
        0 <= k < kids.len() ==> pre.computed_styles@[(#[trigger] kids[k]).idx as int] is Some)
    &&& (forall|k1: int, k2: int| 0 <= k1 < k2 < kids.len() ==> kids[k1].idx < kids[k2].idx)
}

/// The single-line state the wrap step leaves for a non-wrapping row whose
/// children `gk` all became items, in order, with main sizes `msizes`.
spec fn row_line_ready(lines: Seq<FlexLine>, gk: Seq<NodeId>, msizes: Seq<u64>) -> bool {
    &&& lines.len() == 1
    &&& lines[0].items@.len() == gk.len()
    &&& msizes.len() == gk.len()
    &&& (forall|k: int| 0 <= k < gk.len() ==> (#[trigger] lines[0].items@[k]).node_id == gk[k])
    &&& (forall|k: int|
        0 <= k < gk.len() ==> (#[trigger] lines[0].items@[k]).main_size == msizes[k])
    &&& lines[0].main_size as int == crate::flex::csum(msizes)
}

/// The single line's cross data: each item's cross size and self-alignment
/// as its style records them, the line's cross size their maximum.
spec fn row_cross_ready(pre: Dom, lines: Seq<FlexLine>, gk: Seq<NodeId>, csizes: Seq<u64>) -> bool {
    &&& lines.len() == 1
    &&& lines[0].items@.len() == gk.len()
    &&& csizes.len() == gk.len()
    &&& (forall|k: int|
        0 <= k < gk.len() ==> (#[trigger] lines[0].items@[k]).cross_size == csizes[k])
    &&& (forall|k: int|
        0 <= k < gk.len() ==> (#[trigger] lines[0].items@[k]).align_self == spec_style_of(
            pre,
            gk[k].idx as int,
        ).align_self)
    &&& lines[0].cross_size as int == crate::flex::cmax_of(csizes)
}

/// Every item of the single row line carries its main-axis offset.
spec fn row_x_placed(
    lines: Seq<FlexLine>,
    gk: Seq<NodeId>,
    msizes: Seq<u64>,
    free0: int,
    justify: JustifyContent,
) -> bool {
    forall|k: int|
        0 <= k < gk.len() ==> (#[trigger] lines[0].items@[k]).x as int
            == crate::flex::spec_main_offset(msizes, free0, gk.len() as int, justify, k)
}

impl Dom {
    fn style_of(&self, idx: usize) -> (r: ComputedStyle)
        requires
            self.wf(),
            (idx as int) < self.size(),
        ensures
            r == spec_style_of(*self, idx as int),
            r.wf(),
    {
        match &self.computed_styles[idx] {
            Some(s) => *s,
            None => ComputedStyle::default(),
        }
    }

    /// One full layout pass: a single recursive descent from the root inside
    /// the viewport. Resolved styles must come from a prior style pass; the
    /// tree, authored styles and resolved styles are untouched, and the
    /// root's stored box is the one its dispatch case computes against the
    /// viewport rectangle at the origin.
    pub fn compute_layout<M: FontMetrics>(
        &mut self,
        metrics: &M,
        viewport_width: u64,
        viewport_height: u64,
    )
        requires
            old(self).wf(),
            in_range(viewport_width as int),
            in_range(viewport_height as int),
        ensures
            final(self).wf(),
            Dom::eq_structure(*old(self), *final(self)),
            Dom::eq_styling(*old(self), *final(self)),
            Dom::eq_dirty(*old(self), *final(self)),
            final(self).computed_styles@ == old(self).computed_styles@,
            spec_box_stored(
                *metrics,
                *old(self),
                *final(self),
                old(self).root.idx as int,
                (Rect { x: 0u64, y: 0u64, width: viewport_width, height: viewport_height }),
            ),
            ({
                let s = spec_style_of(*old(self), old(self).root.idx as int);
                let i = old(self).root.idx as int;
                (crate::dom::node_is_element(*old(self), i) && s.float == Float::NoFloat
                    && s.display == Display::Flex) ==> spec_flex_row_placement(
                    *old(self),
                    *final(self),
                    i,
                    (Rect { x: 0u64, y: 0u64, width: viewport_width, height: viewport_height }),
                    s,
                )
            }),
            ({
                let s = spec_style_of(*old(self), old(self).root.idx as int);
                let i = old(self).root.idx as int;
                (crate::dom::node_is_element(*old(self), i) && s.float == Float::NoFloat
                    && s.display == Display::Block) ==> spec_block_children_widths(
                    *old(self),
                    *final(self),
                    i,
                    (Rect { x: 0u64, y: 0u64, width: viewport_width, height: viewport_height }),
                    s,
                ) && spec_inline_children_flowed(
                    *old(self),
                    *final(self),
                    i,
                    (Rect { x: 0u64, y: 0u64, width: viewport_width, height: viewport_height }),
                    s,
                ) && spec_float_children_placed(
                    *old(self),
                    *final(self),
                    i,
                    (Rect { x: 0u64, y: 0u64, width: viewport_width, height: viewport_height }),
                    s,
                )
            }),
    {
        let root = self.root;
        let avail = Rect::new(0, 0, viewport_width, viewport_height);
        self.layout_node(metrics, root, avail);
    }

    /// Lay out one node in the given available rectangle and return its
    /// outer rectangle (margins included, for the parent's cursor). Writes
    /// the node's computed box, and its subtree's, into the layout store.
    ///
    /// For a block element with an explicit border-box width the stored box
    /// width equals that width exactly (the border-box value is
    /// authoritative).
    pub fn layout_node<M: FontMetrics>(
        &mut self,
        metrics: &M,
        node_id: NodeId,
        available_space: Rect,
    ) -> (r: Rect)
        requires
            old(self).wf(),
            (node_id.idx as int) < old(self).size(),
            available_space.wf(),
        ensures
            final(self).wf(),
            Dom::eq_structure(*old(self), *final(self)),
            Dom::eq_styling(*old(self), *final(self)),
            Dom::eq_dirty(*old(self), *final(self)),
            final(self).computed_styles@ == old(self).computed_styles@,
            forall|j: int|
                0 <= j < node_id.idx ==> #[trigger] final(self).layout@[j] == old(self).layout@[j],
            forall|j: int|
                0 <= j < node_id.idx ==> #[trigger] final(self).text_info@[j] == old(self).text_info@[j],
            r.wf(),
            spec_box_stored(
                *metrics,
                *old(self),
                *final(self),
                node_id.idx as int,
                available_space,
            ),
            ({
                let s = spec_style_of(*old(self), node_id.idx as int);
                let i = node_id.idx as int;
                &&& (s.display == Display::Hidden ==> r == (Rect {
                    x: available_space.x,
                    y: available_space.y,
                    width: 0u64,
                    height: 0u64,
                }))
                &&& ((s.display != Display::Hidden && old(self).content@[i] is Some && old(
                    self,
                ).content@[i]->0 is Text) ==> r == (Rect {
                    x: available_space.x,
                    y: available_space.y,
                    width: final(self).layout@[i]->0.actual_width,
                    height: final(self).layout@[i]->0.actual_height,
                }))
                &&& ((crate::dom::node_is_element(*old(self), i) && s.float == Float::NoFloat
                    && s.display == Display::Block) ==> r == (Rect {
                    x: available_space.x,
                    y: available_space.y,
                    width: available_space.width,
                    height: (cadd(
                        final(self).layout@[i]->0.actual_height as int,
                        spec_vmargin(s),
                    )) as u64,
                }))
                &&& ((crate::dom::node_is_element(*old(self), i) && s.display != Display::Hidden
                    && (s.float != Float::NoFloat || s.display == Display::Inline || s.display
                    == Display::InlineBlock || s.display == Display::Flex)) ==> r == (Rect {
                    x: available_space.x,
                    y: available_space.y,
                    width: (cadd(
                        final(self).layout@[i]->0.actual_width as int,
                        spec_hmargin(s),
                    )) as u64,
                    height: (cadd(
                        final(self).layout@[i]->0.actual_height as int,
                        spec_vmargin(s),
                    )) as u64,
                }))
            }),
            ({
                let s = spec_style_of(*old(self), node_id.idx as int);
                let i = node_id.idx as int;
                (crate::dom::node_is_element(*old(self), i) && s.float == Float::NoFloat
                    && s.display == Display::Flex) ==> spec_flex_row_placement(
                    *old(self),
                    *final(self),
                    i,
                    available_space,
                    s,
                )
            }),
            ({
                let s = spec_style_of(*old(self), node_id.idx as int);
                let i = node_id.idx as int;
                (crate::dom::node_is_element(*old(self), i) && s.float == Float::NoFloat
                    && s.display == Display::Block) ==> spec_block_children_widths(
                    *old(self),
                    *final(self),
                    i,
                    available_space,
                    s,
                ) && spec_inline_children_flowed(
                    *old(self),
                    *final(self),
                    i,
                    available_space,
                    s,
                ) && spec_float_children_placed(
                    *old(self),
                    *final(self),
                    i,
                    available_space,
                    s,
                )
            }),
            ({
                let s = spec_style_of(*old(self), node_id.idx as int);
                let i = node_id.idx as int;
                (crate::dom::node_is_element(*old(self), i) && s.display != Display::Hidden && (
                s.float != Float::NoFloat || s.display == Display::Inline || s.display
                    == Display::InlineBlock)) ==> spec_inline_shrink_extents(
                    *old(self),
                    *final(self),
                    i,
                    available_space,
                    s,
                )
            }),
        decreases 4 * (old(self).size() - node_id.idx) + 2,
    {
        proof {
            reveal(spec_box_stored);
        }
        let idx = node_id.idx;
        let style = self.style_of(idx);

        if style.display == Display::Hidden {
            let ld = LayoutData {
                computed_x: available_space.x,
                computed_y: available_space.y,
                actual_width: 0,
                actual_height: 0,
            };
            self.layout[idx] = Some(ld);
            return Rect::new(available_space.x, available_space.y, 0, 0);
        }

        let is_text = match &self.content[idx] {
            Some(NodeContent::Text(_)) => true,
            _ => false,
        };
        let is_elem = match &self.content[idx] {
            Some(NodeContent::Element(_)) => true,
            _ => false,
        };

        if is_elem {
            if style.float != Float::NoFloat {
                self.layout_inline_node(metrics, node_id, available_space, &style)
            } else {
                match style.display {
                    Display::Block => self.layout_block_node(
                        metrics,
                        node_id,
                        available_space,
                        &style,
                    ),
                    Display::Flex => self.layout_flex_node(
                        metrics,
                        node_id,
                        available_space,
                        &style,
                    ),
                    _ => self.layout_inline_node(metrics, node_id, available_space, &style),
                }
            }
        } else if is_text {
            let (measured_width, measured_height, info) = {
                let text = match &self.content[idx] {
                    Some(NodeContent::Text(t)) => t,
                    _ => unreached(),
                };
                crate::text::measure_text(
                    metrics,
                    text.content.as_str(),
                    style.font_family,
                    style.font_size,
                    available_space.width,
                )
            };
            self.text_info[idx] = Some(info);
            let mw = crate::geom::gmin(measured_width, GEOM_MAX);
            let mh = crate::geom::gmin(measured_height, GEOM_MAX);
            let ld = LayoutData {
                computed_x: available_space.x,
                computed_y: available_space.y,
                actual_width: mw,
                actual_height: mh,
            };
            self.layout[idx] = Some(ld);
            Rect::new(available_space.x, available_space.y, mw, mh)
        } else {
            Rect::zero()
        }
    }

    /// Block layout: the content box is the available rectangle minus
    /// margin, border and padding; children stack inside it; the explicit
    /// height, if any, overrides the content height per box-sizing.
    fn layout_block_node<M: FontMetrics>(
        &mut self,
        metrics: &M,
        node_id: NodeId,
        available_space: Rect,
        style: &ComputedStyle,
    ) -> (r: Rect)
        requires
            old(self).wf(),
            (node_id.idx as int) < old(self).size(),
            available_space.wf(),
        ensures
            final(self).wf(),
            Dom::eq_structure(*old(self), *final(self)),
            Dom::eq_styling(*old(self), *final(self)),
            Dom::eq_dirty(*old(self), *final(self)),
            final(self).computed_styles@ == old(self).computed_styles@,
            forall|j: int|
                0 <= j < node_id.idx ==> #[trigger] final(self).layout@[j] == old(self).layout@[j],
            forall|j: int|
                0 <= j < node_id.idx ==> #[trigger] final(self).text_info@[j] == old(self).text_info@[j],
            r.wf(),
            final(self).layout@[node_id.idx as int] == Some(LayoutData {
                computed_x: (cadd(available_space.x as int, style.margin.left as int)) as u64,
                computed_y: (cadd(available_space.y as int, style.margin.top as int)) as u64,
                actual_width: (spec_block_width(*style, available_space.width as int)) as u64,
                actual_height: final(self).layout@[node_id.idx as int]->0.actual_height,
            }),
            !(style.height is Auto) ==> final(self).layout@[node_id.idx as int]->0.actual_height
                == spec_explicit_height(*style, available_space.height as int),
            (style.box_sizing == BoxSizing::BorderBox && style.width is Points) ==> final(self).layout@[node_id.idx as int]->0.actual_width == style.width->Points_0 as u64,
            r == (Rect {
                x: available_space.x,
                y: available_space.y,
                width: available_space.width,
                height: (cadd(
                    final(self).layout@[node_id.idx as int]->0.actual_height as int,
                    spec_vmargin(*style),
                )) as u64,
            }),
            spec_block_children_widths(
                *old(self),
                *final(self),
                node_id.idx as int,
                available_space,
                *style,
            ),
            spec_inline_children_flowed(
                *old(self),
                *final(self),
                node_id.idx as int,
                available_space,
                *style,
            ),
            spec_float_children_placed(
                *old(self),
                *final(self),
                node_id.idx as int,
                available_space,
                *style,
            ),
        decreases 4 * (old(self).size() - node_id.idx) + 1,
    {
        let idx = node_id.idx;
        let bl = style.border.left_width() as u64;
        let br = style.border.right_width() as u64;
        let bt = style.border.top_width() as u64;
        let bb = style.border.bottom_width() as u64;
        let hb = crate::geom::gadd(bl, br);
        let vb = crate::geom::gadd(bt, bb);
        let hp = crate::geom::gmin(style.padding.horizontal(), GEOM_MAX);
        let vp = crate::geom::gmin(style.padding.vertical(), GEOM_MAX);
        let hm = crate::geom::gmin(style.margin.horizontal(), GEOM_MAX);

        // Border-box width: explicit when given, else fill the available
        // width minus the horizontal margins.
        let auto_width = crate::geom::gsub(available_space.width, hm);
        let border_box_width = resolved_size(style.width, available_space.width, auto_width);

        let content_width = if style.box_sizing == BoxSizing::BorderBox {
            crate::geom::gsub(border_box_width, crate::geom::gadd(hb, hp))
        } else {
            match style.width {
                Size::Auto => crate::geom::gsub(border_box_width, crate::geom::gadd(hb, hp)),
                _ => border_box_width,
            }
        };

        let content_x = crate::geom::gadd(
            crate::geom::gadd(
                crate::geom::gadd(available_space.x, style.margin.left as u64),
                bl,
            ),
            style.padding.left as u64,
        );
        let content_y = crate::geom::gadd(
            crate::geom::gadd(
                crate::geom::gadd(available_space.y, style.margin.top as u64),
                bt,
            ),
            style.padding.top as u64,
        );

        let content_box = Rect::new(content_x, content_y, content_width, UNBOUNDED);
        let kids = crate::dom::copy_node_ids(&self.children[idx]);
        proof {
            assert forall|k: int|
                0 <= k < kids@.len() implies (idx as int) < ((#[trigger] kids@[k]).idx as int) && ((
            kids@[k]).idx as int) < self.size() by {
                assert(kids@[k] == self.children@[idx as int]@[k]);
            }
        }
        let (_used_width, used_height) = self.layout_inline_children(
            metrics,
            &kids,
            content_box,
            Ghost(idx as int),
        );

        let vextra = crate::geom::gadd(vp, vb);
        let mut border_box_height = crate::geom::gadd(used_height, vextra);
        match style.height {
            Size::Auto => {},
            _ => {
                let h = resolved_size(style.height, available_space.height, 0);
                border_box_height = if style.box_sizing == BoxSizing::BorderBox {
                    h
                } else {
                    crate::geom::gadd(h, vextra)
                };
            },
        }

        let final_border_box_width = if style.box_sizing == BoxSizing::ContentBox
            && !(matches!(style.width, Size::Auto)) {
            crate::geom::gadd(content_width, crate::geom::gadd(hp, hb))
        } else {
            border_box_width
        };

        let bx = crate::geom::gadd(available_space.x, style.margin.left as u64);
        let by = crate::geom::gadd(available_space.y, style.margin.top as u64);
        self.layout[idx] = Some(
            LayoutData {
                computed_x: bx,
                computed_y: by,
                actual_width: final_border_box_width,
                actual_height: border_box_height,
            },
        );

        proof {
            reveal(spec_block_children_widths);
            reveal(spec_inline_children_flowed);
            let kidsq = old(self).child_seq(node_id.idx as int);
            let cx = spec_block_content_x(*style, available_space);
            let cy = spec_block_content_y(*style, available_space);
            let cw = spec_block_content_width(*style, available_space.width as int);
            assert(content_x as int == cx);
            assert(content_y as int == cy);
            assert(content_width as int == cw);
            assert(content_box == (Rect {
                x: cx as u64,
                y: cy as u64,
                width: cw as u64,
                height: UNBOUNDED,
            }));
            assert forall|k: int| 0 <= k < kidsq.len() implies (
            #[trigger] kidsq[k]).idx as int != node_id.idx as int by {
                assert(kidsq[k] == old(self).children@[node_id.idx as int]@[k]);
            }
            if cx + cw <= GEOM_MAX && (forall|k1: int, k2: int|
                0 <= k1 < k2 < kidsq.len() ==> kidsq[k1].idx < kidsq[k2].idx) && (forall|k: int|
                0 <= k < kidsq.len() ==> old(self).computed_styles@[(
                #[trigger] kidsq[k]).idx as int] is Some) && (forall|k: int|
                0 <= k < kidsq.len() ==> spec_style_of(
                    *old(self),
                    (#[trigger] kidsq[k]).idx as int,
                ).float == Float::NoFloat) {
                assert(inflow_guard(*old(self), kidsq, content_box));
                assert(block_kids_placed(
                    *old(self),
                    *self,
                    kidsq,
                    kidsq.len() as int,
                    content_box,
                ));
            }
            if inline_flow_guard(*old(self), kidsq, content_box) {
                assert(inline_kids_flowed(
                    *old(self),
                    *self,
                    kidsq,
                    kidsq.len() as int,
                    content_box,
                ));
                if style.height is Auto {
                    assert(self.layout@[node_id.idx as int]->0.actual_height as int == cadd(
                        spec_inline_used(*old(self), kidsq, content_box).1,
                        cadd(vp as int, vb as int),
                    ));
                }
            }
            reveal(spec_float_children_placed);
            if float_flow_guard(*old(self), kidsq) {
                assert(float_kids_placed(
                    *old(self),
                    *self,
                    kidsq,
                    kidsq.len() as int,
                    content_box,
                ));
            }
        }

        let vm = crate::geom::gmin(style.margin.vertical(), GEOM_MAX);
        let outer_height = crate::geom::gadd(border_box_height, vm);
        Rect::new(available_space.x, available_space.y, available_space.width, outer_height)
    }

    /// Inline and inline-block layout (also used for floated elements of any
    /// display): the border-box width shrinks to the measured content width,
    /// unless an inline-block gives an explicit width.
    fn layout_inline_node<M: FontMetrics>(
        &mut self,
        metrics: &M,
        node_id: NodeId,
        available_space: Rect,
        style: &ComputedStyle,
    ) -> (r: Rect)
        requires
            old(self).wf(),
            (node_id.idx as int) < old(self).size(),
            available_space.wf(),
        ensures
            final(self).wf(),
            Dom::eq_structure(*old(self), *final(self)),
            Dom::eq_styling(*old(self), *final(self)),
            Dom::eq_dirty(*old(self), *final(self)),
            final(self).computed_styles@ == old(self).computed_styles@,
            forall|j: int|
                0 <= j < node_id.idx ==> #[trigger] final(self).layout@[j] == old(self).layout@[j],
            forall|j: int|
                0 <= j < node_id.idx ==> #[trigger] final(self).text_info@[j] == old(self).text_info@[j],
            r.wf(),
            final(self).layout@[node_id.idx as int] is Some,
            final(self).layout@[node_id.idx as int]->0.computed_x == cadd(
                available_space.x as int,
                style.margin.left as int,
            ),
            final(self).layout@[node_id.idx as int]->0.computed_y == cadd(
                available_space.y as int,
                style.margin.top as int,
            ),
            (style.display != Display::Inline && !(style.width is Auto)) ==> final(self).layout@[node_id.idx as int]->0.actual_width as int == spec_explicit_width(
                *style,
                available_space.width as int,
            ),
            !(style.height is Auto) ==> final(self).layout@[node_id.idx as int]->0.actual_height
                == spec_explicit_height(*style, available_space.height as int),
            r == (Rect {
                x: available_space.x,
                y: available_space.y,
                width: (cadd(
                    final(self).layout@[node_id.idx as int]->0.actual_width as int,
                    spec_hmargin(*style),
                )) as u64,
                height: (cadd(
                    final(self).layout@[node_id.idx as int]->0.actual_height as int,
                    spec_vmargin(*style),
                )) as u64,
            }),
            spec_inline_shrink_extents(
                *old(self),
                *final(self),
                node_id.idx as int,
                available_space,
                *style,
            ),
        decreases 4 * (old(self).size() - node_id.idx) + 1,
    {
        let idx = node_id.idx;
        let bl = style.border.left_width() as u64;
        let br = style.border.right_width() as u64;
        let bt = style.border.top_width() as u64;
        let bb = style.border.bottom_width() as u64;
        let hb = crate::geom::gadd(bl, br);
        let vb = crate::geom::gadd(bt, bb);
        let hp = crate::geom::gmin(style.padding.horizontal(), GEOM_MAX);
        let vp = crate::geom::gmin(style.padding.vertical(), GEOM_MAX);
        let hm = crate::geom::gmin(style.margin.horizontal(), GEOM_MAX);

        let content_x = crate::geom::gadd(
            crate::geom::gadd(
                crate::geom::gadd(available_space.x, style.margin.left as u64),
                bl,
            ),
            style.padding.left as u64,
        );
        let content_y = crate::geom::gadd(
            crate::geom::gadd(
                crate::geom::gadd(available_space.y, style.margin.top as u64),
                bt,
            ),
            style.padding.top as u64,
        );
        let content_width = crate::geom::gsub(
            available_space.width,
            crate::geom::gadd(hm, crate::geom::gadd(hb, hp)),
        );

        let content_box = Rect::new(content_x, content_y, content_width, UNBOUNDED);
        let kids = crate::dom::copy_node_ids(&self.children[idx]);
        proof {
            assert forall|k: int|
                0 <= k < kids@.len() implies (idx as int) < ((#[trigger] kids@[k]).idx as int) && ((
            kids@[k]).idx as int) < self.size() by {
                assert(kids@[k] == self.children@[idx as int]@[k]);
            }
        }
        let (used_content_width, used_content_height) = self.layout_inline_children(
            metrics,
            &kids,
            content_box,
            Ghost(idx as int),
        );

        let hextra = crate::geom::gadd(hp, hb);
        let vextra = crate::geom::gadd(vp, vb);
        let shrink_width = crate::geom::gadd(used_content_width, hextra);
        let border_box_width = if style.display == Display::Inline {
            shrink_width
        } else {
            match style.width {
                Size::Auto => shrink_width,
                _ => {
                    let w = resolved_size(style.width, available_space.width, 0);
                    if style.box_sizing == BoxSizing::ContentBox {
                        crate::geom::gadd(w, hextra)
                    } else {
                        w
                    }
                },
            }
        };

        let mut border_box_height = crate::geom::gadd(used_content_height, vextra);
        match style.height {
            Size::Auto => {},
            _ => {
                let h = resolved_size(style.height, available_space.height, 0);
                border_box_height = if style.box_sizing == BoxSizing::BorderBox {
                    h
                } else {
                    crate::geom::gadd(h, vextra)
                };
            },
        }

        let bx = crate::geom::gadd(available_space.x, style.margin.left as u64);
        let by = crate::geom::gadd(available_space.y, style.margin.top as u64);
        self.layout[idx] = Some(
            LayoutData {
                computed_x: bx,
                computed_y: by,
                actual_width: border_box_width,
                actual_height: border_box_height,
            },
        );

        proof {
            reveal(spec_inline_shrink_extents);
            let kidsq = old(self).child_seq(node_id.idx as int);
            let cx = spec_block_content_x(*style, available_space);
            let cy = spec_block_content_y(*style, available_space);
            let cw = spec_inline_avail_width(*style, available_space.width as int);
            assert(content_x as int == cx);
            assert(content_y as int == cy);
            assert(content_width as int == cw);
            assert(content_box == (Rect {
                x: cx as u64,
                y: cy as u64,
                width: cw as u64,
                height: UNBOUNDED,
            }));
            if inline_flow_guard(*old(self), kidsq, content_box) {
                if style.display == Display::Inline {
                    assert(self.layout@[node_id.idx as int]->0.actual_width as int == cadd(
                        spec_inline_used(*old(self), kidsq, content_box).0,
                        cadd(hp as int, hb as int),
                    ));
                }
                if style.height is Auto {
                    assert(self.layout@[node_id.idx as int]->0.actual_height as int == cadd(
                        spec_inline_used(*old(self), kidsq, content_box).1,
                        cadd(vp as int, vb as int),
                    ));
                }
            }
        }

        let vm = crate::geom::gmin(style.margin.vertical(), GEOM_MAX);
        let outer_w = crate::geom::gadd(border_box_width, hm);
        let outer_h = crate::geom::gadd(border_box_height, vm);
        Rect::new(available_space.x, available_space.y, outer_w, outer_h)
    }

    /// Lay out a child list inside a content box: floats go to the float
    /// manager and do not advance the cursor; block children flush the line
    /// and stack as full-width blocks in the float-adjusted band at that
    /// height; inline children flow along the float-adjusted band, wrapping
    /// to a new line when they do not fit and the cursor has already
    /// advanced. Returns the used content width and height.
    #[verifier::rlimit(100)]
    #[verifier::spinoff_prover]
    fn layout_inline_children<M: FontMetrics>(
        &mut self,
        metrics: &M,
        child_ids: &Vec<NodeId>,
        content_box: Rect,
        Ghost(lo): Ghost<int>,
    ) -> (r: (u64, u64))
        requires
            old(self).wf(),
            content_box.wf(),
            0 <= lo < old(self).size(),
            forall|k: int|
                0 <= k < child_ids@.len() ==> lo < ((#[trigger] child_ids@[k]).idx as int) && ((
                child_ids@[k]).idx as int) < old(self).size(),
        ensures
            final(self).wf(),
            Dom::eq_structure(*old(self), *final(self)),
            Dom::eq_styling(*old(self), *final(self)),
            Dom::eq_dirty(*old(self), *final(self)),
            final(self).computed_styles@ == old(self).computed_styles@,
            forall|j: int|
                0 <= j <= lo ==> #[trigger] final(self).layout@[j] == old(self).layout@[j],
            forall|j: int|
                0 <= j <= lo ==> #[trigger] final(self).text_info@[j] == old(self).text_info@[j],
            in_range(r.0 as int),
            in_range(r.1 as int),
            inflow_guard(*old(self), child_ids@, content_box) ==> block_kids_placed(
                *old(self),
                *final(self),
                child_ids@,
                child_ids@.len() as int,
                content_box,
            ),
            inline_flow_guard(*old(self), child_ids@, content_box) ==> {
                &&& inline_kids_flowed(
                    *old(self),
                    *final(self),
                    child_ids@,
                    child_ids@.len() as int,
                    content_box,
                )
                &&& r.0 as int == spec_inline_used(*old(self), child_ids@, content_box).0
                &&& r.1 as int == spec_inline_used(*old(self), child_ids@, content_box).1
            },
            float_flow_guard(*old(self), child_ids@) ==> {
                let fa = floats_after(
                    *old(self),
                    child_ids@,
                    content_box,
                    child_ids@.len() as int,
                );
                &&& float_kids_placed(
                    *old(self),
                    *final(self),
                    child_ids@,
                    child_ids@.len() as int,
                    content_box,
                )
                &&& r.0 == 0
                &&& r.1 as int == csub(
                    smax(
                        content_box.y as int,
                        smax(
                            crate::floats::floats_bottom_of(fa.0),
                            crate::floats::floats_bottom_of(fa.1),
                        ),
                    ),
                    content_box.y as int,
                )
            },
        decreases 4 * (old(self).size() - lo),
    {
        let ghost gq = inflow_guard(*old(self), child_ids@, content_box);
        let ghost gi = inline_flow_guard(*old(self), child_ids@, content_box);
        let ghost gf = float_flow_guard(*old(self), child_ids@);
        let content_right = crate::geom::gadd(content_box.x, content_box.width);
        let mut fm = FloatManager::new(content_box.x, content_right);
        let mut cursor_x = content_box.x;
        let mut cursor_y = content_box.y;
        let mut max_height_in_line: u64 = 0;
        let mut max_width_so_far: u64 = 0;

        let mut i: usize = 0;
        while i < child_ids.len()
            invariant
                self.wf(),
                old(self).wf(),
                content_box.wf(),
                0 <= lo < old(self).size(),
                self.size() == old(self).size(),
                forall|k: int|
                    0 <= k < child_ids@.len() ==> lo < ((#[trigger] child_ids@[k]).idx as int)
                        && ((child_ids@[k]).idx as int) < old(self).size(),
                i <= child_ids@.len(),
                Dom::eq_structure(*old(self), *self),
                Dom::eq_styling(*old(self), *self),
                Dom::eq_dirty(*old(self), *self),
                self.computed_styles@ == old(self).computed_styles@,
                forall|j: int|
                    0 <= j <= lo ==> #[trigger] self.layout@[j] == old(self).layout@[j],
                forall|j: int|
                    0 <= j <= lo ==> #[trigger] self.text_info@[j] == old(self).text_info@[j],
                fm.wf(),
                fm.content_left == content_box.x,
                fm.content_right == content_right,
                content_right as int == cadd(content_box.x as int, content_box.width as int),
                in_range(fm.content_right as int),
                in_range(cursor_x as int),
                in_range(cursor_y as int),
                in_range(max_height_in_line as int),
                in_range(max_width_so_far as int),
                gq == inflow_guard(*old(self), child_ids@, content_box),
                gq ==> fm.left_floats@ == Seq::<Rect>::empty(),
                gq ==> fm.right_floats@ == Seq::<Rect>::empty(),
                gq ==> block_kids_placed(
                    *old(self),
                    *self,
                    child_ids@,
                    i as int,
                    content_box,
                ),
                gi == inline_flow_guard(*old(self), child_ids@, content_box),
                gi ==> ({
                    let st = inline_flow_state(*old(self), child_ids@, content_box, i as int);
                    &&& cursor_x as int == st.0
                    &&& cursor_y as int == st.1
                    &&& max_height_in_line as int == st.2
                    &&& max_width_so_far as int == st.3
                }),
                gi ==> cursor_x >= content_box.x,
                gi ==> inline_kids_flowed(
                    *old(self),
                    *self,
                    child_ids@,
                    i as int,
                    content_box,
                ),
                gf == float_flow_guard(*old(self), child_ids@),
                gf ==> fm.left_floats@ == floats_after(
                    *old(self),
                    child_ids@,
                    content_box,
                    i as int,
                ).0,
                gf ==> fm.right_floats@ == floats_after(
                    *old(self),
                    child_ids@,
                    content_box,
                    i as int,
                ).1,
                gf ==> cursor_x == content_box.x && cursor_y == content_box.y
                    && max_height_in_line == 0 && max_width_so_far == 0,
                gf ==> float_kids_placed(
                    *old(self),
                    *self,
                    child_ids@,
                    i as int,
                    content_box,
                ),
            decreases child_ids@.len() - i,
        {
            let child_id = child_ids[i];
            let child_style = self.style_of(child_id.idx);
            let (float_type, display_type) = match &self.computed_styles[child_id.idx] {
                Some(_) => (child_style.float, child_style.display),
                None => (Float::NoFloat, Display::Inline),
            };

            if float_type == Float::Left || float_type == Float::Right {
                // Measure the float at its natural size, then place it in
                // the first band (scanning down from the cursor) that fits.
                let ghost cs = spec_style_of(*old(self), child_id.idx as int);
                let ghost fw = spec_outer_width(cs, content_box.width as int);
                let ghost fh = spec_outer_height(cs, UNBOUNDED as int);
                let ideal_space = Rect::new(0, 0, content_box.width, UNBOUNDED);
                let ghost before_ideal = *self;
                let ideal_rect = self.layout_node(metrics, child_id, ideal_space);
                proof {
                    if gf {
                        reveal(spec_box_stored);
                        assert(crate::dom::node_is_element(before_ideal, child_id.idx as int));
                        assert(spec_style_of(before_ideal, child_id.idx as int) == cs);
                        assert(spec_explicit_width(cs, ideal_space.width as int)
                            == spec_explicit_width(cs, content_box.width as int));
                        assert(ideal_rect.width as int == fw);
                        assert(ideal_rect.height as int == fh);
                    }
                }
                let placed = fm.place(
                    float_type,
                    ideal_rect.width,
                    ideal_rect.height,
                    cursor_y,
                );
                proof {
                    if gf {
                        let fa = floats_after(*old(self), child_ids@, content_box, i as int);
                        let spot = crate::floats::spot_of(
                            fa.0,
                            fa.1,
                            content_box.x as int,
                            cadd(content_box.x as int, content_box.width as int),
                            cs.float,
                            fw,
                            fh,
                            content_box.y as int,
                        );
                        assert(float_type == cs.float);
                        assert(placed.x as int == spot.0);
                        assert(placed.y as int == spot.1);
                        assert(placed.width as int == spot.2);
                        assert(placed.height as int == fh);
                        assert(fm.left_floats@ == floats_after(
                            *old(self),
                            child_ids@,
                            content_box,
                            i as int + 1,
                        ).0);
                        assert(fm.right_floats@ == floats_after(
                            *old(self),
                            child_ids@,
                            content_box,
                            i as int + 1,
                        ).1);
                    }
                }
                let ghost before_final = *self;
                self.layout_node(metrics, child_id, placed);
                proof {
                    if gf {
                        reveal(spec_box_stored);
                        assert(crate::dom::node_is_element(before_final, child_id.idx as int));
                        assert(spec_style_of(before_final, child_id.idx as int) == cs);
                        assert(spec_explicit_width(cs, placed.width as int)
                            == spec_explicit_width(cs, content_box.width as int));
                        assert(self.layout@[child_id.idx as int] is Some);
                        assert(self.layout@[child_id.idx as int]->0.computed_x as int == cadd(
                            placed.x as int,
                            cs.margin.left as int,
                        ));
                        assert(self.layout@[child_id.idx as int]->0.computed_y as int == cadd(
                            placed.y as int,
                            cs.margin.top as int,
                        ));
                    }
                }
            } else if display_type == Display::Block {
                // A block child flushes the current line and stacks as a
                // full-width block in the float-adjusted band at that y.
                if cursor_x > content_box.x {
                    cursor_y = crate::geom::gadd(cursor_y, max_height_in_line);
                }
                max_height_in_line = 0;
                cursor_x = content_box.x;

                let (band_start, band_end) = fm.line_bounds(cursor_y);
                let block_space = Rect::new(
                    band_start,
                    cursor_y,
                    crate::geom::gsub(band_end, band_start),
                    UNBOUNDED,
                );
                proof {
                    if gq {
                        assert(band_start == content_box.x);
                        assert(band_end == content_right);
                        assert(block_space.width == content_box.width);
                    }
                }
                let ghost before_child = *self;
                let child_rect = self.layout_node(metrics, child_id, block_space);
                proof {
                    if gq {
                        reveal(spec_box_stored);
                        assert(crate::dom::node_is_element(before_child, child_id.idx as int)
                            == crate::dom::node_is_element(*old(self), child_id.idx as int));
                        assert(spec_style_of(before_child, child_id.idx as int) == spec_style_of(
                            *old(self),
                            child_id.idx as int,
                        ));
                    }
                }
                cursor_y = crate::geom::gadd(cursor_y, child_rect.height);
            } else {
                // Inline flow: fit the child into the remaining band, and
                // wrap to a fresh line when it overflows mid-line.
                let ghost st = inline_flow_state(*old(self), child_ids@, content_box, i as int);
                let ghost cs = spec_style_of(*old(self), child_id.idx as int);
                let ghost ow = spec_outer_width(cs, content_box.width as int);
                let ghost oh = spec_outer_height(cs, UNBOUNDED as int);
                let (line_start, line_end) = fm.line_bounds(cursor_y);
                proof {
                    if gi {
                        assert(line_start == content_box.x);
                        assert(line_end == content_right);
                    }
                }
                cursor_x = crate::geom::gmax(cursor_x, line_start);
                let remaining_width = crate::geom::gsub(line_end, cursor_x);
                let child_space = Rect::new(cursor_x, cursor_y, remaining_width, UNBOUNDED);
                let ghost before_first = *self;
                let mut child_rect = self.layout_node(metrics, child_id, child_space);
                proof {
                    if gi {
                        reveal(spec_box_stored);
                        assert(crate::dom::node_is_element(before_first, child_id.idx as int));
                        assert(spec_style_of(before_first, child_id.idx as int) == cs);
                        assert(spec_explicit_width(cs, remaining_width as int)
                            == spec_explicit_width(cs, content_box.width as int));
                        assert(child_rect.width as int == ow);
                        assert(child_rect.height as int == oh);
                    }
                }

                if child_rect.width > remaining_width && cursor_x > line_start {
                    cursor_y = crate::geom::gadd(cursor_y, max_height_in_line);
                    max_height_in_line = 0;
                    let (new_line_start, new_line_end) = fm.line_bounds(cursor_y);
                    cursor_x = new_line_start;
                    let new_child_space = Rect::new(
                        cursor_x,
                        cursor_y,
                        crate::geom::gsub(new_line_end, new_line_start),
                        UNBOUNDED,
                    );
                    let ghost before_second = *self;
                    child_rect = self.layout_node(metrics, child_id, new_child_space);
                    proof {
                        if gi {
                            reveal(spec_box_stored);
                            assert(new_line_start == content_box.x);
                            assert(new_line_end == content_right);
                            assert(crate::dom::node_is_element(
                                before_second,
                                child_id.idx as int,
                            ));
                            assert(spec_style_of(before_second, child_id.idx as int) == cs);
                            assert(spec_explicit_width(cs, new_child_space.width as int)
                                == spec_explicit_width(cs, content_box.width as int));
                            assert(child_rect.width as int == ow);
                            assert(child_rect.height as int == oh);
                        }
                    }
                }
                proof {
                    if gi {
                        let pos = inline_flow_pos(*old(self), child_ids@, content_box, i as int);
                        assert(self.layout@[child_id.idx as int]->0.computed_x as int == cadd(
                            pos.0,
                            cs.margin.left as int,
                        ));
                        assert(self.layout@[child_id.idx as int]->0.computed_y as int == cadd(
                            pos.1,
                            cs.margin.top as int,
                        ));
                    }
                }

                cursor_x = crate::geom::gadd(cursor_x, child_rect.width);
                max_height_in_line = crate::geom::gmax(max_height_in_line, child_rect.height);
                max_width_so_far = crate::geom::gmax(
                    max_width_so_far,
                    crate::geom::gsub(cursor_x, content_box.x),
                );
                proof {
                    if gi {
                        let nst = inline_flow_state(
                            *old(self),
                            child_ids@,
                            content_box,
                            i as int + 1,
                        );
                        assert(cursor_x as int == nst.0);
                        assert(cursor_y as int == nst.1);
                        assert(max_height_in_line as int == nst.2);
                        assert(max_width_so_far as int == nst.3);
                    }
                }
            }
            proof {
                if gq {
                    assert(block_kids_placed(
                        *old(self),
                        *self,
                        child_ids@,
                        i as int + 1,
                        content_box,
                    ));
                }
                if gi {
                    assert forall|k: int| 0 <= k < i as int + 1 implies ({
                        let csk = spec_style_of(*old(self), (#[trigger] child_ids@[k]).idx as int);
                        let pos = inline_flow_pos(*old(self), child_ids@, content_box, k);
                        &&& self.layout@[child_ids@[k].idx as int] is Some
                        &&& self.layout@[child_ids@[k].idx as int]->0.computed_x as int == cadd(
                            pos.0,
                            csk.margin.left as int,
                        )
                        &&& self.layout@[child_ids@[k].idx as int]->0.computed_y as int == cadd(
                            pos.1,
                            csk.margin.top as int,
                        )
                        &&& self.layout@[child_ids@[k].idx as int]->0.actual_width as int
                            == spec_explicit_width(csk, content_box.width as int)
                        &&& self.layout@[child_ids@[k].idx as int]->0.actual_height as int
                            == spec_explicit_height(csk, UNBOUNDED as int)
                    }) by {
                        if k < i as int {
                            assert(child_ids@[k].idx < child_ids@[i as int].idx);
                        }
                    }
                    assert(inline_kids_flowed(
                        *old(self),
                        *self,
                        child_ids@,
                        i as int + 1,
                        content_box,
                    ));
                }
                if gf {
                    assert forall|k: int| 0 <= k < i as int + 1 implies ({
                        let csk = spec_style_of(*old(self), (#[trigger] child_ids@[k]).idx as int);
                        let fa = floats_after(*old(self), child_ids@, content_box, k);
                        let spot = crate::floats::spot_of(
                            fa.0,
                            fa.1,
                            content_box.x as int,
                            cadd(content_box.x as int, content_box.width as int),
                            csk.float,
                            spec_outer_width(csk, content_box.width as int),
                            spec_outer_height(csk, UNBOUNDED as int),
                            content_box.y as int,
                        );
                        &&& self.layout@[child_ids@[k].idx as int] is Some
                        &&& self.layout@[child_ids@[k].idx as int]->0.computed_x as int == cadd(
                            spot.0,
                            csk.margin.left as int,
                        )
                        &&& self.layout@[child_ids@[k].idx as int]->0.computed_y as int == cadd(
                            spot.1,
                            csk.margin.top as int,
                        )
                        &&& self.layout@[child_ids@[k].idx as int]->0.actual_width as int
                            == spec_explicit_width(csk, content_box.width as int)
                        &&& self.layout@[child_ids@[k].idx as int]->0.actual_height as int
                            == spec_explicit_height(csk, UNBOUNDED as int)
                    }) by {
                        if k < i as int {
                            assert(child_ids@[k].idx < child_ids@[i as int].idx);
                        }
                    }
                    assert(float_kids_placed(
                        *old(self),
                        *self,
                        child_ids@,
                        i as int + 1,
                        content_box,
                    ));
                }
            }
            i += 1;
        }

        proof {
            if gi {
                assert(gq);
            }
        }
        let in_flow_bottom = crate::geom::gadd(cursor_y, max_height_in_line);
        let floats_bottom = fm.bottom();
        proof {
            if gi {
                assert(fm.spec_bottom() == 0);
            }
        }
        let total_bottom = crate::geom::gmax(in_flow_bottom, floats_bottom);
        let total_content_height = crate::geom::gsub(total_bottom, content_box.y);
        (max_width_so_far, total_content_height)
    }

    /// Lay out a `display: flex` container: size the items with a
    /// preliminary pass, partition them into wrap lines, then place each
    /// item per `justify-content`, `align-content` and its cross alignment,
    /// and store every box.
    #[verifier::rlimit(100)]
    #[verifier::spinoff_prover]
    pub(crate) fn layout_flex_node<M: FontMetrics>(
        &mut self,
        metrics: &M,
        node_id: NodeId,
        available_space: Rect,
        style: &ComputedStyle,
    ) -> (r: Rect)
        requires
            old(self).wf(),
            (node_id.idx as int) < old(self).size(),
            available_space.wf(),
        ensures
            final(self).wf(),
            Dom::eq_structure(*old(self), *final(self)),
            Dom::eq_styling(*old(self), *final(self)),
            Dom::eq_dirty(*old(self), *final(self)),
            final(self).computed_styles@ == old(self).computed_styles@,
            forall|j: int|
                0 <= j < node_id.idx ==> #[trigger] final(self).layout@[j] == old(self).layout@[j],
            forall|j: int|
                0 <= j < node_id.idx ==> #[trigger] final(self).text_info@[j] == old(self).text_info@[j],
            r.wf(),
            final(self).layout@[node_id.idx as int] is Some,
            final(self).layout@[node_id.idx as int]->0.computed_x == cadd(
                available_space.x as int,
                style.margin.left as int,
            ),
            final(self).layout@[node_id.idx as int]->0.computed_y == cadd(
                available_space.y as int,
                style.margin.top as int,
            ),
            !(style.width is Auto) ==> final(self).layout@[node_id.idx as int]->0.actual_width as int == spec_explicit_width(
                *style,
                available_space.width as int,
            ),
            style.width is Auto ==> final(self).layout@[node_id.idx as int]->0.actual_width
                == available_space.width,
            !(style.height is Auto) ==> final(self).layout@[node_id.idx as int]->0.actual_height as int == spec_explicit_height(
                *style,
                available_space.height as int,
            ),
            r == (Rect {
                x: available_space.x,
                y: available_space.y,
                width: (cadd(
                    final(self).layout@[node_id.idx as int]->0.actual_width as int,
                    spec_hmargin(*style),
                )) as u64,
                height: (cadd(
                    final(self).layout@[node_id.idx as int]->0.actual_height as int,
                    spec_vmargin(*style),
                )) as u64,
            }),
            spec_flex_row_placement(
                *old(self),
                *final(self),
                node_id.idx as int,
                available_space,
                *style,
            ),
        decreases 4 * (old(self).size() - node_id.idx) + 1,
    {
        let idx = node_id.idx;
        let ghost n = old(self).size();
        let ghost lo = idx as int;

        // 1. The container's content box.
        let bl = style.border.left_width() as u64;
        let br = style.border.right_width() as u64;
        let bt = style.border.top_width() as u64;
        let bb = style.border.bottom_width() as u64;
        let hp = crate::geom::gmin(style.padding.horizontal(), GEOM_MAX);
        let vp = crate::geom::gmin(style.padding.vertical(), GEOM_MAX);
        let hextra = crate::geom::gadd(hp, crate::geom::gadd(bl, br));
        let vextra = crate::geom::gadd(vp, crate::geom::gadd(bt, bb));

        let container_width = match style.width {
            Size::Auto => available_space.width,
            _ => {
                let w = resolved_size(style.width, available_space.width, 0);
                if style.box_sizing == BoxSizing::ContentBox {
                    crate::geom::gadd(w, hextra)
                } else {
                    w
                }
            },
        };
        let content_area_width = crate::geom::gsub(container_width, hextra);
        let content_area_height = match style.height {
            Size::Auto => UNBOUNDED,
            _ => {
                let h = resolved_size(style.height, available_space.height, 0);
                if style.box_sizing == BoxSizing::BorderBox {
                    crate::geom::gsub(h, vextra)
                } else {
                    h
                }
            },
        };

        let is_row = matches!(
            style.flex_direction,
            FlexDirection::Row | FlexDirection::RowReverse
        );
        let main_axis_size = if is_row {
            content_area_width
        } else {
            content_area_height
        };

        // 2. Preliminary pass: each item's intrinsic main and cross size.
        let kids = crate::dom::copy_node_ids(&self.children[idx]);
        proof {
            assert forall|k: int|
                0 <= k < kids@.len() implies (idx as int) < ((#[trigger] kids@[k]).idx as int) && ((
            kids@[k]).idx as int) < self.size() by {
                assert(kids@[k] == self.children@[idx as int]@[k]);
            }
        }
        let ghost gk = kids@;
        let ghost g = flex_row_guard(*old(self), gk, *style);
        let ghost g2 = g && flex_intrinsic_guard(*old(self), gk);
        proof {
            assert(gk == old(self).child_seq(lo));
        }
        let mut flex_items: Vec<FlexItem> = Vec::new();
        let mut ci: usize = 0;
        while ci < kids.len()
            invariant
                self.wf(),
                old(self).wf(),
                self.size() == n,
                n == old(self).size(),
                lo == idx as int,
                lo == node_id.idx as int,
                0 <= lo < n,
                available_space.wf(),
                in_range(content_area_width as int),
                in_range(content_area_height as int),
                forall|k: int|
                    0 <= k < kids@.len() ==> lo < ((#[trigger] kids@[k]).idx as int) && ((
                    kids@[k]).idx as int) < n,
                ci <= kids@.len(),
                kids@ == gk,
                g == flex_row_guard(*old(self), gk, *style),
                g2 == (g && flex_intrinsic_guard(*old(self), gk)),
                is_row == (style.flex_direction == FlexDirection::Row || style.flex_direction
                    == FlexDirection::RowReverse),
                Dom::eq_structure(*old(self), *self),
                Dom::eq_styling(*old(self), *self),
                Dom::eq_dirty(*old(self), *self),
                self.computed_styles@ == old(self).computed_styles@,
                forall|j: int|
                    0 <= j < lo ==> #[trigger] self.layout@[j] == old(self).layout@[j],
                forall|j: int|
                    0 <= j < lo ==> #[trigger] self.text_info@[j] == old(self).text_info@[j],
                items_ok(n, lo, flex_items@),
                g ==> flex_items@.len() == ci as int,
                g ==> (forall|k: int|
                    0 <= k < flex_items@.len() ==> (#[trigger] flex_items@[k]).node_id == gk[k]),
                g2 ==> (forall|k: int|
                    0 <= k < flex_items@.len() ==> (#[trigger] flex_items@[k]).main_size as int
                        == spec_outer_width(
                        spec_style_of(*old(self), gk[k].idx as int),
                        content_area_width as int,
                    )),
                g ==> (forall|k: int|
                    0 <= k < flex_items@.len() ==> (#[trigger] flex_items@[k]).align_self
                        == spec_style_of(*old(self), gk[k].idx as int).align_self),
            decreases kids@.len() - ci,
        {
            let child_id = kids[ci];
            let has_style = self.computed_styles[child_id.idx].is_some();
            if has_style {
                let child_style = match &self.computed_styles[child_id.idx] {
                    Some(s) => *s,
                    None => ComputedStyle::default(),
                };
                let preliminary_space = Rect::new(
                    0,
                    0,
                    content_area_width,
                    content_area_height,
                );
                proof {
                    assert(self.size() == old(self).size());
                    assert(lo < child_id.idx as int);
                }
                let ghost before_item = *self;
                let preliminary_rect = self.layout_node(metrics, child_id, preliminary_space);
                proof {
                    if g2 {
                        reveal(spec_box_stored);
                        let cs = spec_style_of(*old(self), child_id.idx as int);
                        assert(crate::dom::node_is_element(before_item, child_id.idx as int));
                        assert(spec_style_of(before_item, child_id.idx as int) == cs);
                        assert(preliminary_rect.width as int == cadd(
                            spec_explicit_width(cs, content_area_width as int),
                            spec_hmargin(cs),
                        ));
                    }
                }
                let item_main = if is_row {
                    preliminary_rect.width
                } else {
                    preliminary_rect.height
                };
                let item_cross = if is_row {
                    preliminary_rect.height
                } else {
                    preliminary_rect.width
                };
                flex_items.push(
                    FlexItem {
                        node_id: child_id,
                        align_self: child_style.align_self,
                        main_size: item_main,
                        cross_size: item_cross,
                        x: 0,
                        y: 0,
                    },
                );
            }
            ci += 1;
        }

        // 3. Reverse the item order for the *-reverse directions.
        if matches!(
            style.flex_direction,
            FlexDirection::RowReverse | FlexDirection::ColumnReverse
        ) {
            let mut reversed: Vec<FlexItem> = Vec::new();
            let mut ri: usize = flex_items.len();
            while ri > 0
                invariant
                    ri <= flex_items@.len(),
                    items_ok(n, lo, flex_items@),
                    items_ok(n, lo, reversed@),
                decreases ri,
            {
                ri -= 1;
                let it = &flex_items[ri];
                reversed.push(
                    FlexItem {
                        node_id: it.node_id,
                        align_self: it.align_self,
                        main_size: it.main_size,
                        cross_size: it.cross_size,
                        x: it.x,
                        y: it.y,
                    },
                );
            }
            flex_items = reversed;
        }

        // 4. Partition the items into wrap lines.
        let ghost msizes = Seq::new(flex_items@.len(), |k: int| flex_items@[k].main_size);
        let ghost csizes = Seq::new(flex_items@.len(), |k: int| flex_items@[k].cross_size);
        let ghost items0 = flex_items@;
        proof {
            if g2 {
                assert forall|k: int| 0 <= k < msizes.len() implies (
                #[trigger] msizes[k]) as int == spec_outer_width(
                    spec_style_of(*old(self), gk[k].idx as int),
                    content_area_width as int,
                ) by {
                    assert(msizes[k] == flex_items@[k].main_size);
                }
            }
        }
        let mut flex_lines: Vec<FlexLine> = Vec::new();
        if matches!(style.flex_wrap, FlexWrap::NoWrap) {
            let mut total_main: u64 = 0;
            let mut max_cross: u64 = 0;
            let mut ti: usize = 0;
            while ti < flex_items.len()
                invariant
                    ti <= flex_items@.len(),
                    items_ok(n, lo, flex_items@),
                    in_range(total_main as int),
                    in_range(max_cross as int),
                    flex_items@ == items0,
                    msizes.len() == flex_items@.len(),
                    csizes.len() == flex_items@.len(),
                    forall|k: int|
                        0 <= k < msizes.len() ==> msizes[k] == (
                        #[trigger] flex_items@[k]).main_size,
                    forall|k: int|
                        0 <= k < csizes.len() ==> csizes[k] == (
                        #[trigger] flex_items@[k]).cross_size,
                    total_main as int == crate::flex::csum(msizes.take(ti as int)),
                    max_cross as int == crate::flex::cmax_of(csizes.take(ti as int)),
                decreases flex_items@.len() - ti,
            {
                proof {
                    assert(msizes.take(ti as int + 1).drop_last() =~= msizes.take(ti as int));
                    assert(msizes.take(ti as int + 1).last() == msizes[ti as int]);
                    assert(csizes.take(ti as int + 1).drop_last() =~= csizes.take(ti as int));
                    assert(csizes.take(ti as int + 1).last() == csizes[ti as int]);
                }
                total_main = crate::geom::gadd(total_main, flex_items[ti].main_size);
                max_cross = crate::geom::gmax(max_cross, flex_items[ti].cross_size);
                ti += 1;
            }
            proof {
                assert(msizes.take(msizes.len() as int) =~= msizes);
                assert(csizes.take(csizes.len() as int) =~= csizes);
            }
            flex_lines.push(
                FlexLine { items: flex_items, main_size: total_main, cross_size: max_cross },
            );
            proof {
                assert(lines_ok(n, lo, flex_lines@));
                if g {
                    assert(row_line_ready(flex_lines@, gk, msizes));
                    assert(row_cross_ready(*old(self), flex_lines@, gk, csizes));
                }
            }
        } else {
            let mut current_items: Vec<FlexItem> = Vec::new();
            let mut current_main: u64 = 0;
            let mut current_cross: u64 = 0;
            let mut consumed = flex_items;
            // Take the items in order; `consumed` is drained front-first by
            // index to keep ownership simple.
            let mut taken: usize = 0;
            while taken < consumed.len()
                invariant
                    taken <= consumed@.len(),
                    items_ok(n, lo, consumed@),
                    items_ok(n, lo, current_items@),
                    in_range(current_main as int),
                    in_range(current_cross as int),
                    in_range(main_axis_size as int),
                    lines_ok(n, lo, flex_lines@),
                decreases consumed@.len() - taken,
            {
                let it = &consumed[taken];
                let item = FlexItem {
                    node_id: it.node_id,
                    align_self: it.align_self,
                    main_size: it.main_size,
                    cross_size: it.cross_size,
                    x: it.x,
                    y: it.y,
                };
                if current_items.len() != 0 && crate::geom::gadd(current_main, item.main_size)
                    > main_axis_size {
                    flex_lines.push(
                        FlexLine {
                            items: current_items,
                            main_size: current_main,
                            cross_size: current_cross,
                        },
                    );
                    current_items = Vec::new();
                    current_main = 0;
                    current_cross = 0;
                }
                current_main = crate::geom::gadd(current_main, item.main_size);
                current_cross = crate::geom::gmax(current_cross, item.cross_size);
                current_items.push(item);
                taken += 1;
            }
            if current_items.len() != 0 {
                flex_lines.push(
                    FlexLine {
                        items: current_items,
                        main_size: current_main,
                        cross_size: current_cross,
                    },
                );
            }
        }

        // 5. Main-axis alignment per line (justify-content).
        let ghost free0 = csub(main_axis_size as int, crate::flex::csum(msizes));
        let ghost line_count = flex_lines@.len();
        let mut li: usize = 0;
        while li < flex_lines.len()
            invariant
                flex_lines@.len() == line_count,
                li <= flex_lines@.len(),
                lines_ok(n, lo, flex_lines@),
                in_range(main_axis_size as int),
                g == flex_row_guard(*old(self), gk, *style),
                free0 == csub(main_axis_size as int, crate::flex::csum(msizes)),
                is_row == (style.flex_direction == FlexDirection::Row || style.flex_direction
                    == FlexDirection::RowReverse),
                g ==> row_line_ready(flex_lines@, gk, msizes),
                g ==> row_cross_ready(*old(self), flex_lines@, gk, csizes),
                (g && li as int >= 1) ==> row_x_placed(
                    flex_lines@,
                    gk,
                    msizes,
                    free0,
                    style.justify_content,
                ),
            decreases flex_lines@.len() - li,
        {
            let free_space = crate::geom::gsub(main_axis_size, flex_lines[li].main_size);
            let item_count = flex_lines[li].items.len();
            let (offset, gaps) = justify_gaps(free_space, item_count, style.justify_content);
            proof {
                assert forall|k: int| 0 <= k < gaps@.len() implies in_range(
                    (#[trigger] gaps@[k]) as int,
                ) by {
                    assert(gaps@[k] <= free_space);
                }
                if g {
                    assert(li as int == 0);
                    assert(free_space as int == free0);
                    assert(item_count == gk.len());
                }
            }
            let mut current_main = offset;
            let mut ii: usize = 0;
            while ii < item_count
                invariant
                    flex_lines@.len() == line_count,
                    li < flex_lines@.len(),
                    item_count == flex_lines@[li as int].items@.len(),
                    gaps@.len() == (if item_count == 0 { 0int } else { item_count - 1 }),
                    forall|k: int| 0 <= k < gaps@.len() ==> in_range((#[trigger] gaps@[k]) as int),
                    ii <= item_count,
                    lines_ok(n, lo, flex_lines@),
                    in_range(current_main as int),
                    g == flex_row_guard(*old(self), gk, *style),
                    is_row == (style.flex_direction == FlexDirection::Row || style.flex_direction
                        == FlexDirection::RowReverse),
                    g ==> row_line_ready(flex_lines@, gk, msizes),
                    g ==> row_cross_ready(*old(self), flex_lines@, gk, csizes),
                    g ==> li as int == 0,
                    g ==> item_count == gk.len(),
                    g ==> free_space as int == free0,
                    g ==> offset as int == crate::flex::spec_lead(
                        free0,
                        gk.len() as int,
                        style.justify_content,
                    ),
                    g ==> (forall|k: int|
                        0 <= k < gaps@.len() ==> (#[trigger] gaps@[k]) as int
                            == crate::flex::spec_gap(
                            free0,
                            gk.len() as int,
                            style.justify_content,
                            k,
                        )),
                    g ==> (forall|k: int|
                        0 <= k < ii as int ==> (#[trigger] flex_lines@[0].items@[k]).x as int
                            == crate::flex::spec_main_offset(
                            msizes,
                            free0,
                            gk.len() as int,
                            style.justify_content,
                            k,
                        )),
                    (g && (ii as int) < gk.len()) ==> current_main as int
                        == crate::flex::spec_main_offset(
                        msizes,
                        free0,
                        gk.len() as int,
                        style.justify_content,
                        ii as int,
                    ),
                decreases item_count - ii,
            {
                let im = flex_lines[li].items[ii].main_size;
                if is_row {
                    flex_lines[li].items[ii].x = current_main;
                } else {
                    flex_lines[li].items[ii].y = current_main;
                }
                let gap: u64 = if ii + 1 < item_count {
                    gaps[ii]
                } else {
                    0
                };
                proof {
                    if g {
                        assert(row_line_ready(flex_lines@, gk, msizes));
                        assert(row_cross_ready(*old(self), flex_lines@, gk, csizes));
                        assert(im == msizes[ii as int]);
                        if ii + 1 < item_count {
                            assert(gap as int == crate::flex::spec_gap(
                                free0,
                                gk.len() as int,
                                style.justify_content,
                                ii as int,
                            ));
                        }
                    }
                }
                current_main = crate::geom::gadd(current_main, crate::geom::gadd(im, gap));
                proof {
                    assert(lines_ok(n, lo, flex_lines@));
                }
                ii += 1;
            }
            li += 1;
        }

        // 6. Cross-axis alignment: stack the lines, offset per
        // align-content, and pin each item per its alignment.
        let mut total_cross: u64 = 0;
        let mut tc: usize = 0;
        while tc < flex_lines.len()
            invariant
                tc <= flex_lines@.len(),
                lines_ok(n, lo, flex_lines@),
                in_range(total_cross as int),
                g ==> row_cross_ready(*old(self), flex_lines@, gk, csizes),
                (g && tc as int == 0) ==> total_cross == 0,
                (g && tc as int >= 1) ==> total_cross as int == crate::flex::cmax_of(csizes),
            decreases flex_lines@.len() - tc,
        {
            proof {
                if g {
                    assert(tc as int == 0);
                    assert(line_ok(n, lo, flex_lines@[0]));
                    assert(flex_lines@[0].cross_size as int == crate::flex::cmax_of(csizes));
                }
            }
            total_cross = crate::geom::gadd(total_cross, flex_lines[tc].cross_size);
            tc += 1;
        }

        let free_cross = if content_area_height != UNBOUNDED {
            crate::geom::gsub(content_area_height, total_cross)
        } else {
            0
        };
        let cross_offset: u64 = match style.align_content {
            AlignContent::FlexStart => 0,
            AlignContent::FlexEnd => free_cross,
            AlignContent::Center => free_cross / 2,
            _ => 0,
        };

        let ghost lc0 = crate::flex::cmax_of(csizes);
        let ghost off0 = spec_flex_cross_offset(*style, available_space, lc0);
        proof {
            if g {
                assert(content_area_height as int == spec_flex_content_height(
                    *style,
                    available_space,
                ));
                assert(cross_offset as int == off0);
            }
        }
        let mut current_cross_pos = cross_offset;
        let ghost cross_line_count = flex_lines@.len();
        let mut cl: usize = 0;
        while cl < flex_lines.len()
            invariant
                flex_lines@.len() == cross_line_count,
                cl <= flex_lines@.len(),
                lines_ok(n, lo, flex_lines@),
                in_range(current_cross_pos as int),
                g == flex_row_guard(*old(self), gk, *style),
                is_row == (style.flex_direction == FlexDirection::Row || style.flex_direction
                    == FlexDirection::RowReverse),
                lc0 == crate::flex::cmax_of(csizes),
                off0 == spec_flex_cross_offset(*style, available_space, lc0),
                g ==> row_line_ready(flex_lines@, gk, msizes),
                g ==> row_cross_ready(*old(self), flex_lines@, gk, csizes),
                g ==> row_x_placed(flex_lines@, gk, msizes, free0, style.justify_content),
                (g && cl as int == 0) ==> current_cross_pos as int == off0,
                (g && cl as int >= 1) ==> (forall|k: int|
                    0 <= k < gk.len() ==> (#[trigger] flex_lines@[0].items@[k]).y as int
                        == spec_flex_item_cross(
                        *style,
                        spec_style_of(*old(self), gk[k].idx as int).align_self,
                        lc0,
                        csizes[k] as int,
                        off0,
                    )),
            decreases flex_lines@.len() - cl,
        {
            let line_cross = flex_lines[cl].cross_size;
            let item_count = flex_lines[cl].items.len();
            let mut ii: usize = 0;
            while ii < item_count
                invariant
                    flex_lines@.len() == cross_line_count,
                    cl < flex_lines@.len(),
                    item_count == flex_lines@[cl as int].items@.len(),
                    line_cross == flex_lines@[cl as int].cross_size,
                    ii <= item_count,
                    lines_ok(n, lo, flex_lines@),
                    in_range(current_cross_pos as int),
                    in_range(line_cross as int),
                    g == flex_row_guard(*old(self), gk, *style),
                    is_row == (style.flex_direction == FlexDirection::Row || style.flex_direction
                        == FlexDirection::RowReverse),
                    lc0 == crate::flex::cmax_of(csizes),
                    off0 == spec_flex_cross_offset(*style, available_space, lc0),
                    g ==> row_line_ready(flex_lines@, gk, msizes),
                    g ==> row_cross_ready(*old(self), flex_lines@, gk, csizes),
                    g ==> row_x_placed(flex_lines@, gk, msizes, free0, style.justify_content),
                    g ==> cl as int == 0,
                    g ==> item_count == gk.len(),
                    g ==> line_cross as int == lc0,
                    g ==> current_cross_pos as int == off0,
                    g ==> (forall|k: int|
                        0 <= k < ii as int ==> (#[trigger] flex_lines@[0].items@[k]).y as int
                            == spec_flex_item_cross(
                            *style,
                            spec_style_of(*old(self), gk[k].idx as int).align_self,
                            lc0,
                            csizes[k] as int,
                            off0,
                        )),
                decreases item_count - ii,
            {
                let item_align_self = flex_lines[cl].items[ii].align_self;
                let item_cross = flex_lines[cl].items[ii].cross_size;
                let align = if item_align_self == AlignSelf::Auto {
                    style.align_items
                } else {
                    item_align_self.to_align_items()
                };
                let item_cross_pos = match align {
                    AlignItems::FlexStart | AlignItems::Stretch => current_cross_pos,
                    AlignItems::FlexEnd => crate::geom::gadd(
                        current_cross_pos,
                        crate::geom::gsub(line_cross, item_cross),
                    ),
                    AlignItems::Center => crate::geom::gadd(
                        current_cross_pos,
                        crate::geom::gsub(line_cross, item_cross) / 2,
                    ),
                    AlignItems::Baseline => current_cross_pos,
                };
                if is_row {
                    flex_lines[cl].items[ii].y = item_cross_pos;
                } else {
                    flex_lines[cl].items[ii].x = item_cross_pos;
                }
                proof {
                    assert(lines_ok(n, lo, flex_lines@));
                    if g {
                        assert(row_line_ready(flex_lines@, gk, msizes));
                        assert(row_cross_ready(*old(self), flex_lines@, gk, csizes));
                        assert(row_x_placed(flex_lines@, gk, msizes, free0, style.justify_content));
                        assert(item_cross == csizes[ii as int]);
                        assert(item_align_self == spec_style_of(
                            *old(self),
                            gk[ii as int].idx as int,
                        ).align_self);
                        assert(flex_lines@[0].items@[ii as int].y as int == spec_flex_item_cross(
                            *style,
                            spec_style_of(*old(self), gk[ii as int].idx as int).align_self,
                            lc0,
                            csizes[ii as int] as int,
                            off0,
                        ));
                    }
                }
                ii += 1;
            }
            current_cross_pos = crate::geom::gadd(current_cross_pos, line_cross);
            cl += 1;
        }

        // 7. Store every item's box, then the container's own.
        let content_start_x = crate::geom::gadd(
            crate::geom::gadd(
                crate::geom::gadd(available_space.x, style.margin.left as u64),
                bl,
            ),
            style.padding.left as u64,
        );
        let content_start_y = crate::geom::gadd(
            crate::geom::gadd(
                crate::geom::gadd(available_space.y, style.margin.top as u64),
                bt,
            ),
            style.padding.top as u64,
        );

        let mut wl: usize = 0;
        while wl < flex_lines.len()
            invariant
                self.wf(),
                old(self).wf(),
                self.size() == n,
                n == old(self).size(),
                0 <= lo < n,
                lo == idx as int,
                lo == node_id.idx as int,
                wl <= flex_lines@.len(),
                lines_ok(n, lo, flex_lines@),
                in_range(content_start_x as int),
                in_range(content_start_y as int),
                Dom::eq_structure(*old(self), *self),
                Dom::eq_styling(*old(self), *self),
                Dom::eq_dirty(*old(self), *self),
                self.computed_styles@ == old(self).computed_styles@,
                forall|j: int|
                    0 <= j < lo ==> #[trigger] self.layout@[j] == old(self).layout@[j],
                forall|j: int|
                    0 <= j < lo ==> #[trigger] self.text_info@[j] == old(self).text_info@[j],
                g == flex_row_guard(*old(self), gk, *style),
                is_row == (style.flex_direction == FlexDirection::Row || style.flex_direction
                    == FlexDirection::RowReverse),
                g ==> row_line_ready(flex_lines@, gk, msizes),
                g ==> row_x_placed(flex_lines@, gk, msizes, free0, style.justify_content),
                (g && wl as int >= 1) ==> (forall|k: int|
                    0 <= k < gk.len() ==> self.layout@[(#[trigger] gk[k]).idx as int] == Some(
                        LayoutData {
                            computed_x: (cadd(
                                content_start_x as int,
                                flex_lines@[0].items@[k].x as int,
                            )) as u64,
                            computed_y: (cadd(
                                content_start_y as int,
                                flex_lines@[0].items@[k].y as int,
                            )) as u64,
                            actual_width: msizes[k],
                            actual_height: flex_lines@[0].items@[k].cross_size,
                        },
                    )),
            decreases flex_lines@.len() - wl,
        {
            let item_count = flex_lines[wl].items.len();
            let mut ii: usize = 0;
            while ii < item_count
                invariant
                    self.wf(),
                    old(self).wf(),
                    self.size() == n,
                    n == old(self).size(),
                    0 <= lo < n,
                    lo == idx as int,
                    lo == node_id.idx as int,
                    wl < flex_lines@.len(),
                    item_count == flex_lines@[wl as int].items@.len(),
                    ii <= item_count,
                    lines_ok(n, lo, flex_lines@),
                    in_range(content_start_x as int),
                    in_range(content_start_y as int),
                    Dom::eq_structure(*old(self), *self),
                    Dom::eq_styling(*old(self), *self),
                    Dom::eq_dirty(*old(self), *self),
                    self.computed_styles@ == old(self).computed_styles@,
                    forall|j: int|
                        0 <= j < lo ==> #[trigger] self.layout@[j] == old(self).layout@[j],
                    forall|j: int|
                        0 <= j < lo ==> #[trigger] self.text_info@[j] == old(self).text_info@[j],
                    g == flex_row_guard(*old(self), gk, *style),
                    is_row == (style.flex_direction == FlexDirection::Row || style.flex_direction
                        == FlexDirection::RowReverse),
                    g ==> row_line_ready(flex_lines@, gk, msizes),
                    g ==> row_x_placed(flex_lines@, gk, msizes, free0, style.justify_content),
                    g ==> wl as int == 0,
                    g ==> item_count == gk.len(),
                    g ==> (forall|k: int|
                        0 <= k < ii as int ==> self.layout@[(#[trigger] gk[k]).idx as int]
                            == Some(
                            LayoutData {
                                computed_x: (cadd(
                                    content_start_x as int,
                                    flex_lines@[0].items@[k].x as int,
                                )) as u64,
                                computed_y: (cadd(
                                    content_start_y as int,
                                    flex_lines@[0].items@[k].y as int,
                                )) as u64,
                                actual_width: msizes[k],
                                actual_height: flex_lines@[0].items@[k].cross_size,
                            },
                        )),
                decreases item_count - ii,
            {
                let target = flex_lines[wl].items[ii].node_id;
                let ix = flex_lines[wl].items[ii].x;
                let iy = flex_lines[wl].items[ii].y;
                let im = flex_lines[wl].items[ii].main_size;
                let ic = flex_lines[wl].items[ii].cross_size;
                let ld = LayoutData {
                    computed_x: crate::geom::gadd(content_start_x, ix),
                    computed_y: crate::geom::gadd(content_start_y, iy),
                    actual_width: if is_row {
                        im
                    } else {
                        ic
                    },
                    actual_height: if is_row {
                        ic
                    } else {
                        im
                    },
                };
                self.layout[target.idx] = Some(ld);
                proof {
                    if g {
                        assert(target == gk[ii as int]);
                        assert forall|k: int|
                            0 <= k < ii as int + 1 implies self.layout@[(
                        #[trigger] gk[k]).idx as int] == Some(
                            LayoutData {
                                computed_x: (cadd(
                                    content_start_x as int,
                                    flex_lines@[0].items@[k].x as int,
                                )) as u64,
                                computed_y: (cadd(
                                    content_start_y as int,
                                    flex_lines@[0].items@[k].y as int,
                                )) as u64,
                                actual_width: msizes[k],
                                actual_height: flex_lines@[0].items@[k].cross_size,
                            },
                        ) by {
                            if k < ii as int {
                                assert(gk[k].idx < gk[ii as int].idx);
                            }
                        }
                    }
                }
                ii += 1;
            }
            wl += 1;
        }

        let final_width = container_width;
        let final_height = match style.height {
            Size::Auto => crate::geom::gadd(total_cross, vextra),
            _ => {
                let h = resolved_size(style.height, available_space.height, 0);
                if style.box_sizing == BoxSizing::BorderBox {
                    h
                } else {
                    crate::geom::gadd(h, vextra)
                }
            },
        };

        let bx = crate::geom::gadd(available_space.x, style.margin.left as u64);
        let by = crate::geom::gadd(available_space.y, style.margin.top as u64);
        self.layout[idx] = Some(
            LayoutData {
                computed_x: bx,
                computed_y: by,
                actual_width: final_width,
                actual_height: final_height,
            },
        );

        proof {
            reveal(spec_flex_row_placement);
            if g {
                let n0 = gk.len() as int;
                let ws = Seq::new(gk.len(), |k: int| self.layout@[gk[k].idx as int]->0.actual_width);
                assert forall|k: int| 0 <= k < n0 implies ws[k] == msizes[k] by {
                    assert(lo < gk[k].idx as int);
                    assert(self.layout@[gk[k].idx as int]->0.actual_width == msizes[k]);
                }
                assert(ws =~= msizes);
                assert(spec_flex_container_width(*style, available_space.width as int)
                    == container_width as int);
                assert(spec_flex_main_size(*style, available_space) == main_axis_size as int);
                assert(spec_flex_content_x(*style, available_space) == content_start_x as int);
                assert(csub(spec_flex_main_size(*style, available_space), crate::flex::csum(ws))
                    == free0);
                assert forall|k: int| 0 <= k < n0 implies (#[trigger] self.layout@[gk[k].idx as int])->0.computed_x as int == cadd(
                    spec_flex_content_x(*style, available_space),
                    crate::flex::spec_main_offset(ws, free0, n0, style.justify_content, k),
                ) by {
                    assert(lo < gk[k].idx as int);
                    assert(flex_lines@[0].items@[k].x as int == crate::flex::spec_main_offset(
                        msizes,
                        free0,
                        n0,
                        style.justify_content,
                        k,
                    ));
                }
                assert(gk == old(self).child_seq(node_id.idx as int));
                let hs = Seq::new(
                    gk.len(),
                    |k: int| self.layout@[gk[k].idx as int]->0.actual_height,
                );
                assert forall|k: int| 0 <= k < n0 implies hs[k] == csizes[k] by {
                    assert(lo < gk[k].idx as int);
                    assert(self.layout@[gk[k].idx as int]->0.actual_height
                        == flex_lines@[0].items@[k].cross_size);
                }
                assert(hs =~= csizes);
                assert(content_start_y as int == spec_block_content_y(*style, available_space));
                assert forall|k: int| 0 <= k < n0 implies (#[trigger] self.layout@[gk[k].idx as int])->0.computed_y as int == cadd(
                    spec_block_content_y(*style, available_space),
                    spec_flex_item_cross(
                        *style,
                        spec_style_of(*old(self), gk[k].idx as int).align_self,
                        crate::flex::cmax_of(hs),
                        self.layout@[gk[k].idx as int]->0.actual_height as int,
                        spec_flex_cross_offset(
                            *style,
                            available_space,
                            crate::flex::cmax_of(hs),
                        ),
                    ),
                ) by {
                    assert(lo < gk[k].idx as int);
                    assert(flex_lines@[0].items@[k].y as int == spec_flex_item_cross(
                        *style,
                        spec_style_of(*old(self), gk[k].idx as int).align_self,
                        lc0,
                        csizes[k] as int,
                        off0,
                    ));
                }
                if style.height is Auto {
                    assert(self.layout@[lo]->0.actual_height as int == cadd(
                        lc0,
                        cadd(vp as int, cadd(bt as int, bb as int)),
                    ));
                }
                if g2 {
                    assert forall|k: int| 0 <= k < n0 implies (#[trigger] self.layout@[gk[k].idx as int]) is Some
                        && self.layout@[gk[k].idx as int]->0.actual_width as int
                        == spec_outer_width(
                        spec_style_of(*old(self), gk[k].idx as int),
                        spec_flex_main_size(*style, available_space),
                    ) by {
                        assert(lo < gk[k].idx as int);
                        assert(self.layout@[gk[k].idx as int]->0.actual_width == msizes[k]);
                        assert(msizes[k] as int == spec_outer_width(
                            spec_style_of(*old(self), gk[k].idx as int),
                            content_area_width as int,
                        ));
                    }
                }
                assert(spec_flex_row_placement(
                    *old(self),
                    *self,
                    node_id.idx as int,
                    available_space,
                    *style,
                ));
            }
        }

        let hm = crate::geom::gmin(style.margin.horizontal(), GEOM_MAX);
        let vm = crate::geom::gmin(style.margin.vertical(), GEOM_MAX);
        Rect::new(
            available_space.x,
            available_space.y,
            crate::geom::gadd(final_width, hm),
            crate::geom::gadd(final_height, vm),
        )
    }

}

} // verus!
