//! Style resolution: merging an authored style over the engine defaults and,
//! for the inheritable properties, over the parent's resolved style.
//!
//! Resolution is total: every authored field that is set overwrites the
//! engine default, and the box-sizing and float properties additionally
//! understand an explicit inherit sentinel that copies the parent's resolved
//! value (or falls back to the hard default at the root). Non-inheritable
//! properties are never pulled from the parent.

use vstd::prelude::*;

use crate::dom::Dom;
use crate::node::{NodeContent, NodeId};
use crate::style::{
    BoxSides, BoxSizing, ComputedStyle, Display, Float, Size, Style,
};

verus! {

/// The resolved box-sizing: an authored inherit sentinel copies the parent's
/// resolved value, or the hard default when there is no parent.
pub open spec fn spec_resolve_box_sizing(
    authored: Option<BoxSizing>,
    parent: Option<ComputedStyle>,
) -> BoxSizing {
    match authored {
        Some(BoxSizing::Inherit) => match parent {
            Some(p) => p.box_sizing,
            None => BoxSizing::ContentBox,
        },
        Some(b) => b,
        None => BoxSizing::ContentBox,
    }
}

/// The resolved float: an authored inherit sentinel copies the parent's
/// resolved value, or the hard default when there is no parent.
pub open spec fn spec_resolve_float(
    authored: Option<Float>,
    parent: Option<ComputedStyle>,
) -> Float {
    match authored {
        Some(Float::Inherit) => match parent {
            Some(p) => p.float,
            None => Float::NoFloat,
        },
        Some(f) => f,
        None => Float::NoFloat,
    }
}

/// The fully resolved style a sparse authored record stands for, given the
/// parent's already-resolved style (or none, at the root).
pub open spec fn spec_resolve(s: Style, parent: Option<ComputedStyle>) -> ComputedStyle {
    let d = ComputedStyle::spec_default();
    ComputedStyle {
        display: if s.display is Some { s.display->0 } else { d.display },
        width: if s.width is Some { s.width->0 } else { d.width },
        height: if s.height is Some { s.height->0 } else { d.height },
        bg_color: if s.bg_color is Some { s.bg_color->0 } else { d.bg_color },
        margin: if s.margin is Some { BoxSides::spec_from(s.margin->0) } else { d.margin },
        padding: if s.padding is Some { BoxSides::spec_from(s.padding->0) } else { d.padding },
        border: if s.border is Some { s.border->0 } else { d.border },
        box_sizing: spec_resolve_box_sizing(s.box_sizing, parent),
        position: if s.position is Some { s.position->0 } else { d.position },
        position_offsets: if s.position_offsets is Some {
            s.position_offsets->0
        } else {
            d.position_offsets
        },
        float: spec_resolve_float(s.float, parent),
        color: if s.color is Some {
            s.color->0
        } else if s.font is Some && (s.font->0).color is Some {
            (s.font->0).color->0
        } else {
            d.color
        },
        font_size: if s.font is Some && (s.font->0).font_size is Some {
            (s.font->0).font_size->0
        } else {
            d.font_size
        },
        font_family: if s.font is Some && (s.font->0).font_family is Some {
            (s.font->0).font_family->0
        } else {
            d.font_family
        },
        flex_direction: if s.flex_direction is Some { s.flex_direction->0 } else { d.flex_direction },
        justify_content: if s.justify_content is Some {
            s.justify_content->0
        } else {
            d.justify_content
        },
        align_items: if s.align_items is Some { s.align_items->0 } else { d.align_items },
        align_content: if s.align_content is Some { s.align_content->0 } else { d.align_content },
        flex_wrap: if s.flex_wrap is Some { s.flex_wrap->0 } else { d.flex_wrap },
        align_self: if s.align_self is Some { s.align_self->0 } else { d.align_self },
        flex_grow: if s.flex_grow is Some { s.flex_grow->0 } else { d.flex_grow },
        flex_shrink: if s.flex_shrink is Some { s.flex_shrink->0 } else { d.flex_shrink },
    }
}

/// Resolve an authored style against the parent's resolved style (or none,
/// for the root). Resolution never fails and fills every field.
pub fn resolve_style(s: &Style, parent: Option<&ComputedStyle>) -> (r: ComputedStyle)
    requires
        (parent is Some ==> parent->0.wf()),
    ensures
        r == spec_resolve(*s, match parent {
            Some(p) => Some(*p),
            None => None::<ComputedStyle>,
        }),
        r.wf(),
{
    let d = ComputedStyle::default();
    ComputedStyle {
        display: match s.display {
            Some(v) => v,
            None => d.display,
        },
        width: match s.width {
            Some(v) => v,
            None => d.width,
        },
        height: match s.height {
            Some(v) => v,
            None => d.height,
        },
        bg_color: match s.bg_color {
            Some(v) => v,
            None => d.bg_color,
        },
        margin: match &s.margin {
            Some(v) => BoxSides::from_values(v),
            None => d.margin,
        },
        padding: match &s.padding {
            Some(v) => BoxSides::from_values(v),
            None => d.padding,
        },
        border: match s.border {
            Some(v) => v,
            None => d.border,
        },
        box_sizing: match s.box_sizing {
            Some(BoxSizing::Inherit) => match parent {
                Some(p) => p.box_sizing,
                None => BoxSizing::ContentBox,
            },
            Some(v) => v,
            None => BoxSizing::ContentBox,
        },
        position: match s.position {
            Some(v) => v,
            None => d.position,
        },
        position_offsets: match s.position_offsets {
            Some(v) => v,
            None => d.position_offsets,
        },
        float: match s.float {
            Some(Float::Inherit) => match parent {
                Some(p) => p.float,
                None => Float::NoFloat,
            },
            Some(v) => v,
            None => Float::NoFloat,
        },
        color: match s.color {
            Some(v) => v,
            None => match s.font {
                Some(f) => match f.color {
                    Some(v) => v,
                    None => d.color,
                },
                None => d.color,
            },
        },
        font_size: match s.font {
            Some(f) => match f.font_size {
                Some(v) => v,
                None => d.font_size,
            },
            None => d.font_size,
        },
        font_family: match s.font {
            Some(f) => match f.font_family {
                Some(v) => v,
                None => d.font_family,
            },
            None => d.font_family,
        },
        flex_direction: match s.flex_direction {
            Some(v) => v,
            None => d.flex_direction,
        },
        justify_content: match s.justify_content {
            Some(v) => v,
            None => d.justify_content,
        },
        align_items: match s.align_items {
            Some(v) => v,
            None => d.align_items,
        },
        align_content: match s.align_content {
            Some(v) => v,
            None => d.align_content,
        },
        flex_wrap: match s.flex_wrap {
            Some(v) => v,
            None => d.flex_wrap,
        },
        align_self: match s.align_self {
            Some(v) => v,
            None => d.align_self,
        },
        flex_grow: match s.flex_grow {
            Some(v) => v,
            None => d.flex_grow,
        },
        flex_shrink: match s.flex_shrink {
            Some(v) => v,
            None => d.flex_shrink,
        },
    }
}

/// Resolution is total: whatever the authored record leaves unset, the
/// resolved style is fully populated, and in particular free of the inherit
/// sentinels, for every authored style and every (well-formed) parent.
pub proof fn lemma_resolution_total(s: Style, parent: Option<ComputedStyle>)
    requires
        (parent is Some ==> parent->0.wf()),
    ensures
        spec_resolve(s, parent).wf(),
{
}

/// Inheritance of box-sizing: a child whose authored box-sizing is the
/// inherit marker receives exactly its parent's resolved value, and a root
/// with no parent falls back to the hard default.
pub proof fn lemma_box_sizing_inherit(s: Style, parent: Option<ComputedStyle>)
    requires
        s.box_sizing == Some(BoxSizing::Inherit),
    ensures
        parent is Some ==> spec_resolve(s, parent).box_sizing == parent->0.box_sizing,
        parent is None ==> spec_resolve(s, parent).box_sizing == BoxSizing::ContentBox,
{
}

/// Inheritance of float: a child whose authored float is the inherit marker
/// receives exactly its parent's resolved value, and a root with no parent
/// falls back to the hard default.
pub proof fn lemma_float_inherit(s: Style, parent: Option<ComputedStyle>)
    requires
        s.float == Some(Float::Inherit),
    ensures
        parent is Some ==> spec_resolve(s, parent).float == parent->0.float,
        parent is None ==> spec_resolve(s, parent).float == Float::NoFloat,
{
}

/// Non-inheritable properties never come from the parent: with no authored
/// value they are the engine defaults, whatever the parent's resolved style.
pub proof fn lemma_defaults_not_inherited(s: Style, p1: Option<ComputedStyle>, p2: Option<ComputedStyle>)
    ensures
        spec_resolve(s, p1).margin == spec_resolve(s, p2).margin,
        spec_resolve(s, p1).padding == spec_resolve(s, p2).padding,
        spec_resolve(s, p1).border == spec_resolve(s, p2).border,
        spec_resolve(s, p1).bg_color == spec_resolve(s, p2).bg_color,
        spec_resolve(s, p1).display == spec_resolve(s, p2).display,
{
}

/// The authored style of slot `i`: the stored record, or the all-unset one
/// for a node that never had a style set.
pub open spec fn authored_of(d: Dom, i: int) -> Style {
    match d.styles@[i] {
        Some(s) => s,
        None => Style::spec_default(),
    }
}

/// Node `t` lies in the subtree rooted at slot `p`, following child lists.
pub open spec fn subtree_contains(d: Dom, p: int, t: int) -> bool
    decreases d.size() - p
        when d.wf() && 0 <= p < d.size()
{
    p == t || exists|k: int|
        0 <= k < d.child_seq(p).len() && subtree_contains(
            d,
            (#[trigger] d.child_seq(p)[k]).idx as int,
            t,
        )
}

/// Subtree membership depends only on the sizes and child lists: two stores
/// with the same tree agree on it.
pub proof fn lemma_subtree_same(a: Dom, b: Dom, p: int, t: int)
    requires
        a.wf(),
        b.wf(),
        a.size() == b.size(),
        forall|q: int| 0 <= q < a.size() ==> a.child_seq(q) == #[trigger] b.child_seq(q),
        0 <= p < a.size(),
    ensures
        subtree_contains(a, p, t) == subtree_contains(b, p, t),
    decreases a.size() - p,
{
    assert(a.child_seq(p) == b.child_seq(p));
    assert forall|k: int| 0 <= k < a.child_seq(p).len() implies subtree_contains(
        a,
        (#[trigger] a.child_seq(p)[k]).idx as int,
        t,
    ) == subtree_contains(b, (b.child_seq(p)[k]).idx as int, t) by {
        assert(a.children@[p]@[k] == a.child_seq(p)[k]);
        lemma_subtree_same(a, b, a.child_seq(p)[k].idx as int, t);
    }
    if subtree_contains(a, p, t) && p != t {
        let k = choose|k: int|
            0 <= k < a.child_seq(p).len() && subtree_contains(
                a,
                (#[trigger] a.child_seq(p)[k]).idx as int,
                t,
            );
        assert(subtree_contains(b, (b.child_seq(p)[k]).idx as int, t));
    }
    if subtree_contains(b, p, t) && p != t {
        let k = choose|k: int|
            0 <= k < b.child_seq(p).len() && subtree_contains(
                b,
                (#[trigger] b.child_seq(p)[k]).idx as int,
                t,
            );
        assert(subtree_contains(a, (a.child_seq(p)[k]).idx as int, t));
    }
}

/// Every node is the target of at most one tree edge: no handle stands in
/// two child lists, nor twice in one.
pub open spec fn unique_edges(d: Dom) -> bool {
    forall|p1: int, k1: int, p2: int, k2: int|
        (0 <= p1 < d.size() && 0 <= k1 < d.child_seq(p1).len() && 0 <= p2 < d.size() && 0 <= k2
            < d.child_seq(p2).len() && (#[trigger] d.child_seq(p1)[k1]) == (
        #[trigger] d.child_seq(p2)[k2])) ==> (p1 == p2 && k1 == k2)
}

/// A subtree member's slot index is at least the subtree root's.
pub proof fn lemma_subtree_ge(d: Dom, p: int, t: int)
    requires
        d.wf(),
        0 <= p < d.size(),
        subtree_contains(d, p, t),
    ensures
        t >= p,
    decreases d.size() - p,
{
    if p != t {
        let k = choose|k: int|
            0 <= k < d.child_seq(p).len() && subtree_contains(
                d,
                (#[trigger] d.child_seq(p)[k]).idx as int,
                t,
            );
        lemma_subtree_ge(d, d.child_seq(p)[k].idx as int, t);
    }
}

/// Subtree membership is transitive.
pub proof fn lemma_subtree_trans(d: Dom, a: int, b: int, t: int)
    requires
        d.wf(),
        0 <= a < d.size(),
        0 <= b < d.size(),
        subtree_contains(d, a, b),
        subtree_contains(d, b, t),
    ensures
        subtree_contains(d, a, t),
    decreases d.size() - a,
{
    if a != b {
        let k = choose|k: int|
            0 <= k < d.child_seq(a).len() && subtree_contains(
                d,
                (#[trigger] d.child_seq(a)[k]).idx as int,
                b,
            );
        lemma_subtree_trans(d, d.child_seq(a)[k].idx as int, b, t);
        assert(subtree_contains(d, (d.child_seq(a)[k]).idx as int, t));
    }
}

/// A subtree member other than the root is the target of an edge whose
/// source lies in the subtree.
pub proof fn lemma_subtree_step(d: Dom, p: int, t: int)
    requires
        d.wf(),
        0 <= p < d.size(),
        subtree_contains(d, p, t),
        t != p,
    ensures
        exists|q: int, k: int|
            0 <= q < d.size() && subtree_contains(d, p, q) && 0 <= k < d.child_seq(q).len() && ((
            #[trigger] d.child_seq(q)[k]).idx as int) == t,
    decreases d.size() - p,
{
    let k = choose|k: int|
        0 <= k < d.child_seq(p).len() && subtree_contains(
            d,
            (#[trigger] d.child_seq(p)[k]).idx as int,
            t,
        );
    let c = d.child_seq(p)[k].idx as int;
    assert(subtree_contains(d, c, c));
    assert(subtree_contains(d, p, c));
    if c == t {
        assert(subtree_contains(d, p, p));
        assert(((d.child_seq(p)[k]).idx as int) == t);
    } else {
        lemma_subtree_step(d, c, t);
        let (q, k2): (int, int) = choose|q: int, k2: int|
            0 <= q < d.size() && subtree_contains(d, c, q) && 0 <= k2 < d.child_seq(q).len() && ((
            #[trigger] d.child_seq(q)[k2]).idx as int) == t;
        lemma_subtree_trans(d, p, c, q);
        assert(((d.child_seq(q)[k2]).idx as int) == t);
    }
}

/// Subtree membership survives into any store whose child lists contain at
/// least the same edges.
pub proof fn lemma_subtree_sub(a: Dom, b: Dom, p: int, t: int)
    requires
        a.wf(),
        b.wf(),
        a.size() == b.size(),
        forall|q: int, k: int|
            0 <= q < a.size() && 0 <= k < a.child_seq(q).len() ==> b.child_seq(q).contains(
                #[trigger] a.child_seq(q)[k],
            ),
        0 <= p < a.size(),
        subtree_contains(a, p, t),
    ensures
        subtree_contains(b, p, t),
    decreases a.size() - p,
{
    if p != t {
        let k = choose|k: int|
            0 <= k < a.child_seq(p).len() && subtree_contains(
                a,
                (#[trigger] a.child_seq(p)[k]).idx as int,
                t,
            );
        lemma_subtree_sub(a, b, a.child_seq(p)[k].idx as int, t);
        let j = choose|j: int|
            0 <= j < b.child_seq(p).len() && b.child_seq(p)[j] == a.child_seq(p)[k];
        assert(subtree_contains(b, (b.child_seq(p)[j]).idx as int, t));
    }
}

/// Two subtrees that share a node are nested, when every node has at most
/// one incoming edge.
pub proof fn lemma_shared_subtree(d: Dom, c: int, e: int, t: int)
    requires
        d.wf(),
        unique_edges(d),
        0 <= c < d.size(),
        0 <= e < d.size(),
        0 <= t < d.size(),
        subtree_contains(d, c, t),
        subtree_contains(d, e, t),
    ensures
        subtree_contains(d, c, e) || subtree_contains(d, e, c),
    decreases t,
{
    if t == c || t == e {
    } else {
        lemma_subtree_step(d, c, t);
        lemma_subtree_step(d, e, t);
        let (q1, k1): (int, int) = choose|q1: int, k1: int|
            0 <= q1 < d.size() && subtree_contains(d, c, q1) && 0 <= k1 < d.child_seq(q1).len()
                && ((#[trigger] d.child_seq(q1)[k1]).idx as int) == t;
        let (q2, k2): (int, int) = choose|q2: int, k2: int|
            0 <= q2 < d.size() && subtree_contains(d, e, q2) && 0 <= k2 < d.child_seq(q2).len()
                && ((#[trigger] d.child_seq(q2)[k2]).idx as int) == t;
        assert(d.child_seq(q1)[k1] == d.child_seq(q2)[k2]);
        assert(q1 == q2);
        assert(q1 < t);
        lemma_shared_subtree(d, c, e, q1);
    }
}

/// Distinct children of one node have disjoint subtrees, when every node
/// has at most one incoming edge.
pub proof fn lemma_sibling_subtrees_disjoint(d: Dom, p: int, ka: int, kb: int, t: int)
    requires
        d.wf(),
        unique_edges(d),
        0 <= p < d.size(),
        0 <= ka < d.child_seq(p).len(),
        0 <= kb < d.child_seq(p).len(),
        ka != kb,
        0 <= t < d.size(),
        subtree_contains(d, (d.child_seq(p)[ka].idx as int), t),
    ensures
        !subtree_contains(d, (d.child_seq(p)[kb].idx as int), t),
{
    let a = d.child_seq(p)[ka].idx as int;
    let b = d.child_seq(p)[kb].idx as int;
    if subtree_contains(d, b, t) {
        lemma_shared_subtree(d, a, b, t);
        if subtree_contains(d, a, b) {
            if a == b {
                assert(d.child_seq(p)[ka] == d.child_seq(p)[kb]);
                assert(false);
            } else {
                lemma_subtree_step(d, a, b);
                let (q, k2): (int, int) = choose|q: int, k2: int|
                    0 <= q < d.size() && subtree_contains(d, a, q) && 0 <= k2 < d.child_seq(
                        q,
                    ).len() && ((#[trigger] d.child_seq(q)[k2]).idx as int) == b;
                assert(d.child_seq(q)[k2] == d.child_seq(p)[kb]);
                assert(q == p && k2 == kb);
                lemma_subtree_ge(d, a, p);
                assert(false);
            }
        } else {
            lemma_subtree_step(d, b, a);
            let (q, k2): (int, int) = choose|q: int, k2: int|
                0 <= q < d.size() && subtree_contains(d, b, q) && 0 <= k2 < d.child_seq(q).len()
                    && ((#[trigger] d.child_seq(q)[k2]).idx as int) == a;
            assert(d.child_seq(q)[k2] == d.child_seq(p)[ka]);
            assert(q == p && k2 == ka);
            lemma_subtree_ge(d, b, p);
            assert(false);
        }
    }
}

impl Dom {
    /// Resolve the styles of the subtree under `id`, the parent's resolved
    /// style in hand: depth-first pre-order, so a parent is resolved before
    /// its children. Every live node — element or text — gets a freshly
    /// resolved style from its own authored record; removed slots are
    /// skipped and their incoming style is passed through.
    fn resolve_subtree(&mut self, id: NodeId, parent: Option<ComputedStyle>)
        requires
            old(self).wf(),
            (id.idx as int) < old(self).size(),
            (parent is Some ==> parent->0.wf()),
        ensures
            final(self).wf(),
            Dom::eq_structure(*old(self), *final(self)),
            Dom::eq_styling(*old(self), *final(self)),
            Dom::eq_dirty(*old(self), *final(self)),
            final(self).layout@ == old(self).layout@,
            final(self).text_info@ == old(self).text_info@,
            forall|j: int|
                0 <= j < id.idx ==> #[trigger] final(self).computed_styles@[j] == old(self).computed_styles@[j],
            forall|j: int|
                0 <= j < old(self).size() && (#[trigger] old(self).computed_styles@[j]) is Some
                    ==> final(self).computed_styles@[j] is Some,
            crate::dom::node_is_live(*old(self), id.idx as int) ==> final(self).computed_styles@[id.idx as int] == Some(
                spec_resolve(authored_of(*old(self), id.idx as int), parent),
            ),
            !crate::dom::node_is_live(*old(self), id.idx as int) ==> final(self).computed_styles@[id.idx as int] == old(self).computed_styles@[id.idx as int],
            forall|t: int|
                0 <= t < old(self).size() && subtree_contains(*old(self), id.idx as int, t)
                    && crate::dom::node_is_live(*old(self), t) ==> (#[trigger] final(self).computed_styles@[t]) is Some,
            forall|j: int|
                0 <= j < old(self).size() && !subtree_contains(*old(self), id.idx as int, j)
                    ==> #[trigger] final(self).computed_styles@[j] == old(
                    self,
                ).computed_styles@[j],
            ({
                unique_edges(*old(self)) ==> (forall|p: int, k: int|
                    0 <= p < old(self).size() && subtree_contains(*old(self), id.idx as int, p)
                        && crate::dom::node_is_live(*old(self), p) && 0 <= k < old(
                        self,
                    ).child_seq(p).len() && crate::dom::node_is_live(
                        *old(self),
                        ((#[trigger] old(self).child_seq(p)[k]).idx as int),
                    ) ==> final(self).computed_styles@[old(self).child_seq(p)[k].idx as int]
                        == Some(
                        spec_resolve(
                            authored_of(*old(self), old(self).child_seq(p)[k].idx as int),
                            Some(final(self).computed_styles@[p]->0),
                        ),
                    ))
            }),
            ({
                let kids = old(self).child_seq(id.idx as int);
                let myr = if crate::dom::node_is_live(*old(self), id.idx as int) {
                    Some(spec_resolve(authored_of(*old(self), id.idx as int), parent))
                } else {
                    parent
                };
                (forall|k1: int, k2: int| 0 <= k1 < k2 < kids.len() ==> kids[k1].idx < kids[k2].idx)
                    ==> (forall|k: int|
                    0 <= k < kids.len() && crate::dom::node_is_live(
                        *old(self),
                        (#[trigger] kids[k]).idx as int,
                    ) ==> final(self).computed_styles@[kids[k].idx as int] == Some(
                        spec_resolve(authored_of(*old(self), kids[k].idx as int), myr),
                    ))
            }),
        decreases old(self).size() - id.idx,
    {
        let is_live = self.content[id.idx].is_some();
        let mut my: Option<ComputedStyle> = parent;
        if is_live {
            let authored = match &self.styles[id.idx] {
                Some(s) => *s,
                None => Style::default(),
            };
            let resolved = resolve_style(&authored, parent.as_ref());
            self.computed_styles[id.idx] = Some(resolved);
            my = Some(resolved);
        }
        let kids = crate::dom::copy_node_ids(&self.children[id.idx]);
        let ghost base = *self;
        proof {
            assert forall|k: int|
                0 <= k < kids@.len() implies (id.idx as int) < ((#[trigger] kids@[k]).idx as int)
                && ((kids@[k]).idx as int) < base.size() by {
                assert(kids@[k] == base.children@[id.idx as int]@[k]);
            }
        }
        let mut i: usize = 0;
        while i < kids.len()
            invariant
                self.wf(),
                old(self).wf(),
                base.wf(),
                base.size() == old(self).size(),
                (id.idx as int) < base.size(),
                (my is Some ==> my->0.wf()),
                Dom::eq_structure(*old(self), *self),
                Dom::eq_styling(*old(self), *self),
                Dom::eq_dirty(*old(self), *self),
                self.layout@ == old(self).layout@,
                self.text_info@ == old(self).text_info@,
                i <= kids@.len(),
                kids@ == old(self).child_seq(id.idx as int),
                forall|k: int|
                    0 <= k < kids@.len() ==> (id.idx as int) < ((#[trigger] kids@[k]).idx as int)
                        && ((kids@[k]).idx as int) < base.size(),
                forall|j: int|
                    0 <= j < id.idx ==> #[trigger] self.computed_styles@[j] == old(self).computed_styles@[j],
                self.computed_styles@[id.idx as int] == base.computed_styles@[id.idx as int],
                crate::dom::node_is_live(*old(self), id.idx as int)
                    ==> self.computed_styles@[id.idx as int] == Some(
                    spec_resolve(authored_of(*old(self), id.idx as int), parent),
                ),
                !crate::dom::node_is_live(*old(self), id.idx as int)
                    ==> self.computed_styles@[id.idx as int] == old(self).computed_styles@[id.idx as int],
                forall|j: int|
                    0 <= j < old(self).size() && (#[trigger] old(self).computed_styles@[j]) is Some
                        ==> self.computed_styles@[j] is Some,
                forall|t: int, k: int|
                    0 <= t < old(self).size() && 0 <= k < i && subtree_contains(
                        *old(self),
                        (#[trigger] kids@[k]).idx as int,
                        t,
                    ) && crate::dom::node_is_live(*old(self), t) ==> (
                    #[trigger] self.computed_styles@[t]) is Some,
                crate::dom::node_is_live(*old(self), id.idx as int) ==> my == Some(
                    spec_resolve(authored_of(*old(self), id.idx as int), parent),
                ),
                !crate::dom::node_is_live(*old(self), id.idx as int) ==> my == parent,
                forall|j: int|
                    0 <= j < old(self).size() && !subtree_contains(*old(self), id.idx as int, j)
                        ==> #[trigger] self.computed_styles@[j] == old(self).computed_styles@[j],
                unique_edges(*old(self)) ==> (forall|k: int|
                    0 <= k < i as int && crate::dom::node_is_live(
                        *old(self),
                        (#[trigger] kids@[k]).idx as int,
                    ) ==> self.computed_styles@[kids@[k].idx as int] == Some(
                        spec_resolve(authored_of(*old(self), kids@[k].idx as int), my),
                    )),
                unique_edges(*old(self)) ==> (forall|p: int, kk: int|
                    0 <= p < old(self).size() && (exists|m: int|
                        0 <= m < i as int && subtree_contains(
                            *old(self),
                            ((#[trigger] kids@[m]).idx as int),
                            p,
                        )) && crate::dom::node_is_live(*old(self), p) && 0 <= kk < old(
                        self,
                    ).child_seq(p).len() && crate::dom::node_is_live(
                        *old(self),
                        ((#[trigger] old(self).child_seq(p)[kk]).idx as int),
                    ) ==> self.computed_styles@[old(self).child_seq(p)[kk].idx as int] == Some(
                        spec_resolve(
                            authored_of(*old(self), old(self).child_seq(p)[kk].idx as int),
                            Some(self.computed_styles@[p]->0),
                        ),
                    )),
                (forall|k1: int, k2: int|
                    0 <= k1 < k2 < kids@.len() ==> kids@[k1].idx < kids@[k2].idx) ==> (forall|
                    k: int,
                |
                    0 <= k < i && crate::dom::node_is_live(
                        *old(self),
                        (#[trigger] kids@[k]).idx as int,
                    ) ==> self.computed_styles@[kids@[k].idx as int] == Some(
                        spec_resolve(authored_of(*old(self), kids@[k].idx as int), my),
                    )),
            decreases kids@.len() - i,
        {
            let c = kids[i];
            let ghost pre = *self;
            proof {
                assert(self.size() == old(self).size());
                assert((id.idx as int) < c.idx as int);
            }
            self.resolve_subtree(c, my);
            proof {
                assert(pre.wf());
                assert(old(self).wf());
                assert(pre.size() == old(self).size());
                assert forall|q: int| 0 <= q < pre.size() implies pre.child_seq(q) == #[trigger] old(self).child_seq(q) by {
                    assert(pre.child_seq(q) == old(self).child_seq(q));
                }
                assert forall|t: int|
                    0 <= t < old(self).size() && subtree_contains(
                        *old(self),
                        c.idx as int,
                        t,
                    ) implies subtree_contains(pre, c.idx as int, t) by {
                    lemma_subtree_same(pre, *old(self), c.idx as int, t);
                }
                assert forall|t: int, k: int|
                    0 <= t < old(self).size() && 0 <= k <= i && subtree_contains(
                        *old(self),
                        (#[trigger] kids@[k]).idx as int,
                        t,
                    ) && crate::dom::node_is_live(*old(self), t) implies (
                #[trigger] self.computed_styles@[t]) is Some by {
                    if k < i {
                        assert(pre.computed_styles@[t] is Some);
                    } else {
                        assert(subtree_contains(pre, c.idx as int, t));
                        assert(crate::dom::node_is_live(pre, t));
                    }
                }
                if forall|k1: int, k2: int|
                    0 <= k1 < k2 < kids@.len() ==> kids@[k1].idx < kids@[k2].idx {
                    assert forall|k: int|
                        0 <= k < i as int + 1 && crate::dom::node_is_live(
                            *old(self),
                            (#[trigger] kids@[k]).idx as int,
                        ) implies self.computed_styles@[kids@[k].idx as int] == Some(
                        spec_resolve(authored_of(*old(self), kids@[k].idx as int), my),
                    ) by {
                        if k < i as int {
                            assert(kids@[k].idx < c.idx);
                            assert(self.computed_styles@[kids@[k].idx as int]
                                == pre.computed_styles@[kids@[k].idx as int]);
                        } else {
                            assert(crate::dom::node_is_live(pre, c.idx as int));
                            assert(authored_of(pre, c.idx as int) == authored_of(
                                *old(self),
                                c.idx as int,
                            ));
                        }
                    }
                }
                // The frame: slots outside the whole subtree are untouched.
                assert(old(self).child_seq(id.idx as int)[i as int] == c);
                assert(subtree_contains(*old(self), c.idx as int, c.idx as int));
                assert(subtree_contains(*old(self), id.idx as int, c.idx as int));
                assert forall|j: int|
                    0 <= j < old(self).size() && !subtree_contains(
                        *old(self),
                        id.idx as int,
                        j,
                    ) implies #[trigger] self.computed_styles@[j] == old(
                    self,
                ).computed_styles@[j] by {
                    if subtree_contains(pre, c.idx as int, j) {
                        lemma_subtree_same(pre, *old(self), c.idx as int, j);
                        lemma_subtree_trans(*old(self), id.idx as int, c.idx as int, j);
                    }
                    assert(self.computed_styles@[j] == pre.computed_styles@[j]);
                }
                if unique_edges(*old(self)) {
                    assert(unique_edges(pre)) by {
                        assert forall|p1: int, k1: int, p2: int, k2: int|
                            (0 <= p1 < pre.size() && 0 <= k1 < pre.child_seq(p1).len() && 0 <= p2
                                < pre.size() && 0 <= k2 < pre.child_seq(p2).len() && (
                            #[trigger] pre.child_seq(p1)[k1]) == (
                            #[trigger] pre.child_seq(p2)[k2])) implies (p1 == p2 && k1 == k2) by {
                            assert(pre.child_seq(p1) == old(self).child_seq(p1));
                            assert(pre.child_seq(p2) == old(self).child_seq(p2));
                        }
                    }
                    // Earlier direct children sit outside c's subtree.
                    assert forall|k: int|
                        0 <= k < i as int + 1 && crate::dom::node_is_live(
                            *old(self),
                            (#[trigger] kids@[k]).idx as int,
                        ) implies self.computed_styles@[kids@[k].idx as int] == Some(
                        spec_resolve(authored_of(*old(self), kids@[k].idx as int), my),
                    ) by {
                        if k < i as int {
                            assert(old(self).child_seq(id.idx as int)[k] == kids@[k]);
                            assert(subtree_contains(
                                *old(self),
                                kids@[k].idx as int,
                                kids@[k].idx as int,
                            ));
                            lemma_sibling_subtrees_disjoint(
                                *old(self),
                                id.idx as int,
                                k,
                                i as int,
                                kids@[k].idx as int,
                            );
                            lemma_subtree_same(
                                pre,
                                *old(self),
                                c.idx as int,
                                kids@[k].idx as int,
                            );
                            assert(self.computed_styles@[kids@[k].idx as int]
                                == pre.computed_styles@[kids@[k].idx as int]);
                        } else {
                            assert(crate::dom::node_is_live(pre, c.idx as int));
                            assert(authored_of(pre, c.idx as int) == authored_of(
                                *old(self),
                                c.idx as int,
                            ));
                        }
                    }
                    // Deep edges: earlier subtrees are untouched by c's pass,
                    // and c's own subtree comes from the recursive call.
                    assert forall|p: int, kk: int|
                        0 <= p < old(self).size() && (exists|m: int|
                            0 <= m < i as int + 1 && subtree_contains(
                                *old(self),
                                ((#[trigger] kids@[m]).idx as int),
                                p,
                            )) && crate::dom::node_is_live(*old(self), p) && 0 <= kk < old(
                        self,
                    ).child_seq(p).len() && crate::dom::node_is_live(
                        *old(self),
                        ((#[trigger] old(self).child_seq(p)[kk]).idx as int),
                    ) implies self.computed_styles@[old(self).child_seq(p)[kk].idx as int]
                        == Some(
                        spec_resolve(
                            authored_of(*old(self), old(self).child_seq(p)[kk].idx as int),
                            Some(self.computed_styles@[p]->0),
                        ),
                    ) by {
                        let m = choose|m: int|
                            0 <= m < i as int + 1 && subtree_contains(
                                *old(self),
                                ((kids@[m]).idx as int),
                                p,
                            );
                        let ch = old(self).child_seq(p)[kk].idx as int;
                        assert(subtree_contains(*old(self), ch, ch));
                        assert(subtree_contains(*old(self), p, ch));
                        if m < i as int {
                            assert(old(self).child_seq(id.idx as int)[m] == kids@[m]);
                            lemma_sibling_subtrees_disjoint(
                                *old(self),
                                id.idx as int,
                                m,
                                i as int,
                                p,
                            );
                            lemma_subtree_trans(*old(self), kids@[m].idx as int, p, ch);
                            lemma_sibling_subtrees_disjoint(
                                *old(self),
                                id.idx as int,
                                m,
                                i as int,
                                ch,
                            );
                            lemma_subtree_same(pre, *old(self), c.idx as int, p);
                            lemma_subtree_same(pre, *old(self), c.idx as int, ch);
                            assert(self.computed_styles@[p] == pre.computed_styles@[p]);
                            assert(self.computed_styles@[ch] == pre.computed_styles@[ch]);
                        } else {
                            lemma_subtree_same(pre, *old(self), c.idx as int, p);
                            assert(subtree_contains(pre, c.idx as int, p));
                            assert(crate::dom::node_is_live(pre, p));
                            assert(pre.child_seq(p) == old(self).child_seq(p));
                            assert(crate::dom::node_is_live(pre, ch));
                            assert(authored_of(pre, ch) == authored_of(*old(self), ch));
                            assert(self.computed_styles@[ch] == Some(
                                spec_resolve(
                                    authored_of(pre, ch),
                                    Some(self.computed_styles@[p]->0),
                                ),
                            ));
                        }
                    }
                }
            }
            i += 1;
        }
        proof {
            assert forall|t: int|
                0 <= t < old(self).size() && subtree_contains(*old(self), id.idx as int, t)
                    && crate::dom::node_is_live(*old(self), t) implies (
            #[trigger] self.computed_styles@[t]) is Some by {
                if t != id.idx as int {
                    let k = choose|k: int|
                        0 <= k < old(self).child_seq(id.idx as int).len() && subtree_contains(
                            *old(self),
                            (#[trigger] old(self).child_seq(id.idx as int)[k]).idx as int,
                            t,
                        );
                    assert(kids@[k] == old(self).child_seq(id.idx as int)[k]);
                }
            }
            if unique_edges(*old(self)) {
                assert forall|p: int, k: int|
                    0 <= p < old(self).size() && subtree_contains(*old(self), id.idx as int, p)
                        && crate::dom::node_is_live(*old(self), p) && 0 <= k < old(
                    self,
                ).child_seq(p).len() && crate::dom::node_is_live(
                    *old(self),
                    ((#[trigger] old(self).child_seq(p)[k]).idx as int),
                ) implies self.computed_styles@[old(self).child_seq(p)[k].idx as int] == Some(
                    spec_resolve(
                        authored_of(*old(self), old(self).child_seq(p)[k].idx as int),
                        Some(self.computed_styles@[p]->0),
                    ),
                ) by {
                    if p == id.idx as int {
                        assert(kids@[k] == old(self).child_seq(id.idx as int)[k]);
                        assert(my == Some(self.computed_styles@[p]->0));
                    } else {
                        let m = choose|m: int|
                            0 <= m < old(self).child_seq(id.idx as int).len()
                                && subtree_contains(
                                *old(self),
                                (#[trigger] old(self).child_seq(id.idx as int)[m]).idx as int,
                                p,
                            );
                        assert(kids@[m] == old(self).child_seq(id.idx as int)[m]);
                        assert(exists|mm: int|
                            0 <= mm < kids@.len() && subtree_contains(
                                *old(self),
                                ((#[trigger] kids@[mm]).idx as int),
                                p,
                            ));
                    }
                }
            }
        }
    }

    /// One full top-down style pass: every live node of the tree — element or
    /// text — gets a
    /// fully populated resolved style, the root against the engine defaults
    /// and every child against its parent's already-resolved style. The
    /// tree, the authored styles and the layout outputs are untouched.
    pub fn compute_styles(&mut self)
        requires
            old(self).wf(),
        ensures
            final(self).wf(),
            Dom::eq_structure(*old(self), *final(self)),
            Dom::eq_styling(*old(self), *final(self)),
            Dom::eq_dirty(*old(self), *final(self)),
            final(self).layout@ == old(self).layout@,
            final(self).text_info@ == old(self).text_info@,
            forall|t: int|
                0 <= t < old(self).size() && subtree_contains(
                    *old(self),
                    old(self).root.idx as int,
                    t,
                ) && crate::dom::node_is_live(*old(self), t) ==> (#[trigger] final(self).computed_styles@[t]) is Some && final(self).computed_styles@[t]->0.wf(),
            crate::dom::node_is_live(*old(self), old(self).root.idx as int) ==> final(self).computed_styles@[old(self).root.idx as int] == Some(
                spec_resolve(
                    authored_of(*old(self), old(self).root.idx as int),
                    None::<ComputedStyle>,
                ),
            ),
            ({
                unique_edges(*old(self)) ==> (forall|p: int, k: int|
                    0 <= p < old(self).size() && subtree_contains(
                        *old(self),
                        old(self).root.idx as int,
                        p,
                    ) && crate::dom::node_is_live(*old(self), p) && 0 <= k < old(
                        self,
                    ).child_seq(p).len() && crate::dom::node_is_live(
                        *old(self),
                        ((#[trigger] old(self).child_seq(p)[k]).idx as int),
                    ) ==> final(self).computed_styles@[old(self).child_seq(p)[k].idx as int]
                        == Some(
                        spec_resolve(
                            authored_of(*old(self), old(self).child_seq(p)[k].idx as int),
                            Some(final(self).computed_styles@[p]->0),
                        ),
                    ))
            }),
            ({
                let kids = old(self).child_seq(old(self).root.idx as int);
                let myr = if crate::dom::node_is_live(*old(self), old(self).root.idx as int) {
                    Some(
                        spec_resolve(
                            authored_of(*old(self), old(self).root.idx as int),
                            None::<ComputedStyle>,
                        ),
                    )
                } else {
                    None::<ComputedStyle>
                };
                (forall|k1: int, k2: int| 0 <= k1 < k2 < kids.len() ==> kids[k1].idx < kids[k2].idx)
                    ==> (forall|k: int|
                    0 <= k < kids.len() && crate::dom::node_is_live(
                        *old(self),
                        (#[trigger] kids[k]).idx as int,
                    ) ==> final(self).computed_styles@[kids[k].idx as int] == Some(
                        spec_resolve(authored_of(*old(self), kids[k].idx as int), myr),
                    ))
            }),
    {
        let root = self.root;
        self.resolve_subtree(root, None);
    }
}

} // verus!
