//! The node tree and its per-facet stores.
//!
//! Nodes live in an arena of parallel columns keyed by slot index — content,
//! authored style, resolved style, computed box, text line-breaks, children,
//! parent, dirty mark — one entry per node, so the style and layout passes
//! stay independent. Handles are never reused: removing a node clears its
//! slot forever.
//!
//! Every edge points forward: a child's slot index is greater than its
//! parent's. Appending a child that would break this is refused — the
//! append reports whether the edge was added — which rules out cycles by
//! construction and bounds every tree walk. Build trees top-down: create
//! the parent before its children.

use vstd::prelude::*;

use crate::layout::LayoutData;
use crate::node::{Element, NodeContent, NodeId, Text};
use crate::style::{
    BorderStyle, BoxModelValues, BoxSizing, Color, ComputedStyle, Display, Float, Size, Style,
};
use crate::text::TextInfo;

verus! {

/// The node tree: one slot per node, parallel columns per data facet.
pub struct Dom {
    pub content: Vec<Option<NodeContent>>,
    pub styles: Vec<Option<Style>>,
    pub computed_styles: Vec<Option<ComputedStyle>>,
    pub layout: Vec<Option<LayoutData>>,
    pub text_info: Vec<Option<TextInfo>>,
    pub children: Vec<Vec<NodeId>>,
    pub parents: Vec<Option<NodeId>>,
    pub dirty: Vec<bool>,
    pub root: NodeId,
}

impl Dom {
    /// The number of slots ever created.
    pub open spec fn size(self) -> int {
        self.content@.len() as int
    }

    /// The child list of slot `p`.
    pub open spec fn child_seq(self, p: int) -> Seq<NodeId> {
        self.children@[p]@
    }

    /// All columns cover the same slots, every edge points forward, the root
    /// handle is in bounds, and every stored resolved style is well-formed.
    pub open spec fn wf(self) -> bool {
        &&& self.styles@.len() == self.size()
        &&& self.computed_styles@.len() == self.size()
        &&& self.layout@.len() == self.size()
        &&& self.text_info@.len() == self.size()
        &&& self.children@.len() == self.size()
        &&& self.parents@.len() == self.size()
        &&& self.dirty@.len() == self.size()
        &&& self.size() >= 1
        &&& (self.root.idx as int) < self.size()
        &&& (forall|p: int, k: int|
            0 <= p < self.size() && 0 <= k < self.children@[p]@.len() ==> p < (
            #[trigger] self.children@[p]@[k]).idx as int && (self.children@[p]@[k].idx as int)
                < self.size())
        &&& (forall|i: int|
            0 <= i < self.size() && (#[trigger] self.computed_styles@[i]) is Some
                ==> self.computed_styles@[i]->0.wf())
    }

    /// Same tree: content, edges, parents and root agree.
    pub open spec fn eq_structure(a: Dom, b: Dom) -> bool {
        &&& a.content@ == b.content@
        &&& a.parents@ == b.parents@
        &&& a.root == b.root
        &&& a.children@ == b.children@
    }

    /// Same authored styles.
    pub open spec fn eq_styling(a: Dom, b: Dom) -> bool {
        a.styles@ == b.styles@
    }

    /// Same derived state: resolved styles, boxes and line-break results.
    pub open spec fn eq_derived(a: Dom, b: Dom) -> bool {
        &&& a.computed_styles@ == b.computed_styles@
        &&& a.layout@ == b.layout@
        &&& a.text_info@ == b.text_info@
    }

    /// Same dirty marks.
    pub open spec fn eq_dirty(a: Dom, b: Dom) -> bool {
        a.dirty@ == b.dirty@
    }

    /// An empty tree with one root element carrying the default style.
    pub fn new() -> (d: Dom)
        ensures
            d.wf(),
            d.size() == 1,
            d.root.idx == 0,
            d.content@[0] is Some,
            d.content@[0]->0 is Element,
            d.styles@[0] == Some(Style::spec_default()),
            d.computed_styles@[0] is None,
            d.layout@[0] is None,
            d.child_seq(0) == Seq::<NodeId>::empty(),
    {
        let mut d = Dom {
            content: Vec::new(),
            styles: Vec::new(),
            computed_styles: Vec::new(),
            layout: Vec::new(),
            text_info: Vec::new(),
            children: Vec::new(),
            parents: Vec::new(),
            dirty: Vec::new(),
            root: NodeId { idx: 0 },
        };
        d.content.push(Some(NodeContent::Element(Element::new())));
        d.styles.push(Some(Style::default()));
        d.computed_styles.push(None);
        d.layout.push(None);
        d.text_info.push(None);
        d.children.push(Vec::new());
        d.parents.push(None);
        d.dirty.push(true);
        d
    }

    /// Create a detached element node with the default authored style.
    pub fn create_element(&mut self, element: Element) -> (r: NodeId)
        requires
            old(self).wf(),
        ensures
            final(self).wf(),
            r.idx as int == old(self).size(),
            final(self).size() == old(self).size() + 1,
            final(self).content@ == old(self).content@.push(Some(NodeContent::Element(element))),
            final(self).styles@ == old(self).styles@.push(Some(Style::spec_default())),
            final(self).computed_styles@ == old(self).computed_styles@.push(None),
            final(self).layout@ == old(self).layout@.push(None),
            final(self).text_info@ == old(self).text_info@.push(None),
            final(self).parents@ == old(self).parents@.push(None),
            final(self).dirty@ == old(self).dirty@.push(true),
            final(self).children@.len() == old(self).size() + 1,
            forall|p: int|
                0 <= p < old(self).size() ==> final(self).child_seq(p) == #[trigger] old(self).child_seq(p),
            final(self).child_seq(old(self).size()) == Seq::<NodeId>::empty(),
            final(self).root == old(self).root,
    {
        let idx = self.content.len();
        self.content.push(Some(NodeContent::Element(element)));
        self.styles.push(Some(Style::default()));
        self.computed_styles.push(None);
        self.layout.push(None);
        self.text_info.push(None);
        self.children.push(Vec::new());
        self.parents.push(None);
        self.dirty.push(true);
        proof {
            assert forall|p: int| 0 <= p < old(self).size() implies self.child_seq(p) == old(
                self,
            ).child_seq(p) by {
                assert(self.children@[p] == old(self).children@[p]);
            }
            assert(self.child_seq(old(self).size()) =~= Seq::<NodeId>::empty());
            assert forall|p: int, k: int|
                0 <= p < self.size() && 0 <= k < self.children@[p]@.len() implies p < (
            #[trigger] self.children@[p]@[k]).idx as int && (self.children@[p]@[k].idx as int)
                < self.size() by {
                if p < old(self).size() {
                    assert(self.children@[p]@ == old(self).children@[p]@);
                }
            }
        }
        NodeId { idx }
    }

    /// Create a detached text node; text nodes carry no authored style of
    /// their own until one is set.
    pub fn create_text(&mut self, text: Text) -> (r: NodeId)
        requires
            old(self).wf(),
        ensures
            final(self).wf(),
            r.idx as int == old(self).size(),
            final(self).size() == old(self).size() + 1,
            final(self).content@ == old(self).content@.push(Some(NodeContent::Text(text))),
            final(self).styles@ == old(self).styles@.push(None),
            final(self).computed_styles@ == old(self).computed_styles@.push(None),
            final(self).layout@ == old(self).layout@.push(None),
            final(self).text_info@ == old(self).text_info@.push(None),
            final(self).parents@ == old(self).parents@.push(None),
            final(self).dirty@ == old(self).dirty@.push(true),
            final(self).children@.len() == old(self).size() + 1,
            forall|p: int|
                0 <= p < old(self).size() ==> final(self).child_seq(p) == #[trigger] old(self).child_seq(p),
            final(self).child_seq(old(self).size()) == Seq::<NodeId>::empty(),
            final(self).root == old(self).root,
    {
        let idx = self.content.len();
        self.content.push(Some(NodeContent::Text(text)));
        self.styles.push(None);
        self.computed_styles.push(None);
        self.layout.push(None);
        self.text_info.push(None);
        self.children.push(Vec::new());
        self.parents.push(None);
        self.dirty.push(true);
        proof {
            assert forall|p: int| 0 <= p < old(self).size() implies self.child_seq(p) == old(
                self,
            ).child_seq(p) by {
                assert(self.children@[p] == old(self).children@[p]);
            }
            assert(self.child_seq(old(self).size()) =~= Seq::<NodeId>::empty());
            assert forall|p: int, k: int|
                0 <= p < self.size() && 0 <= k < self.children@[p]@.len() implies p < (
            #[trigger] self.children@[p]@[k]).idx as int && (self.children@[p]@[k].idx as int)
                < self.size() by {
                if p < old(self).size() {
                    assert(self.children@[p]@ == old(self).children@[p]@);
                }
            }
        }
        NodeId { idx }
    }

    /// Create a detached text node from a plain string.
    pub fn create_text_node(&mut self, text: String) -> (r: NodeId)
        requires
            old(self).wf(),
        ensures
            final(self).wf(),
            r.idx as int == old(self).size(),
            final(self).size() == old(self).size() + 1,
            final(self).content@ == old(self).content@.push(
                Some(NodeContent::Text(Text { content: text })),
            ),
            final(self).styles@ == old(self).styles@.push(None),
            final(self).root == old(self).root,
            forall|p: int|
                0 <= p < old(self).size() ==> final(self).child_seq(p) == #[trigger] old(self).child_seq(p),
    {
        self.create_text(Text::new(text))
    }

    /// An edge may be added when both slots exist and the child's index is
    /// greater than the parent's, keeping every edge forward.
    pub open spec fn can_append(self, parent: NodeId, child: NodeId) -> bool {
        &&& (child.idx as int) < self.size()
        &&& (parent.idx as int) < child.idx as int
    }

    /// Append `child` under `parent`. An edge that would point backward (or
    /// out of bounds) is refused and nothing changes; this keeps the tree
    /// free of cycles by construction. The result reports whether the edge
    /// was added, so a caller building bottom-up sees the refusal.
    pub fn append_child(&mut self, parent_id: NodeId, child_id: NodeId) -> (added: bool)
        requires
            old(self).wf(),
        ensures
            added == old(self).can_append(parent_id, child_id),
            final(self).wf(),
            old(self).can_append(parent_id, child_id) ==> {
                &&& final(self).children@.len() == old(self).children@.len()
                &&& final(self).child_seq(parent_id.idx as int) == old(self).child_seq(
                    parent_id.idx as int,
                ).push(child_id)
                &&& (forall|p: int|
                    0 <= p < old(self).size() && p != parent_id.idx as int
                        ==> final(self).child_seq(p) == #[trigger] old(self).child_seq(p))
                &&& final(self).parents@ == old(self).parents@.update(
                    child_id.idx as int,
                    Some(parent_id),
                )
            },
            !old(self).can_append(parent_id, child_id) ==> *final(self) == *old(self),
            final(self).content@ == old(self).content@,
            final(self).styles@ == old(self).styles@,
            Dom::eq_derived(*old(self), *final(self)),
            final(self).dirty@ == old(self).dirty@,
            final(self).root == old(self).root,
    {
        if child_id.idx < self.content.len() && parent_id.idx < child_id.idx {
            let ghost before = *self;
            self.children[parent_id.idx].push(child_id);
            self.parents[child_id.idx] = Some(parent_id);
            proof {
                assert(self.child_seq(parent_id.idx as int) == before.child_seq(
                    parent_id.idx as int,
                ).push(child_id));
                assert forall|p: int| 0 <= p < before.size() && p != parent_id.idx as int
                    implies self.child_seq(p) == before.child_seq(p) by {
                    assert(self.children@[p] == before.children@[p]);
                }
                assert forall|p: int, k: int|
                    0 <= p < self.size() && 0 <= k < self.children@[p]@.len() implies p < (
                #[trigger] self.children@[p]@[k]).idx as int && (self.children@[p]@[k].idx as int)
                    < self.size() by {
                    if p != parent_id.idx as int {
                        assert(self.children@[p]@ == before.children@[p]@);
                    } else {
                        assert(self.children@[p]@ == before.children@[p]@.push(child_id));
                    }
                }
            }
            true
        } else {
            false
        }
    }

    /// Create an element and append it under `parent_id` in one step.
    pub fn append_new_element(&mut self, parent_id: NodeId, element: Element) -> (r: NodeId)
        requires
            old(self).wf(),
            (parent_id.idx as int) < old(self).size(),
        ensures
            final(self).wf(),
            r.idx as int == old(self).size(),
            final(self).size() == old(self).size() + 1,
            final(self).content@ == old(self).content@.push(Some(NodeContent::Element(element))),
            final(self).styles@ == old(self).styles@.push(Some(Style::spec_default())),
            final(self).child_seq(parent_id.idx as int) == old(self).child_seq(
                parent_id.idx as int,
            ).push(r),
            forall|p: int|
                0 <= p < old(self).size() && p != parent_id.idx as int ==> final(self).child_seq(p)
                    == #[trigger] old(self).child_seq(p),
            final(self).root == old(self).root,
    {
        let child_id = self.create_element(element);
        let ghost mid = *self;
        self.append_child(parent_id, child_id);
        proof {
            assert(mid.can_append(parent_id, child_id));
            assert forall|p: int|
                0 <= p < old(self).size() && p != parent_id.idx as int implies self.child_seq(p)
                == old(self).child_seq(p) by {
                assert(self.child_seq(p) == mid.child_seq(p));
                assert(mid.child_seq(p) == old(self).child_seq(p));
            }
        }
        child_id
    }

    /// Create an element, give it an authored style, and append it.
    pub fn append_new_styled_element(
        &mut self,
        parent_id: NodeId,
        element: Element,
        style: &Style,
    ) -> (r: NodeId)
        requires
            old(self).wf(),
            (parent_id.idx as int) < old(self).size(),
        ensures
            final(self).wf(),
            r.idx as int == old(self).size(),
            final(self).size() == old(self).size() + 1,
            final(self).content@ == old(self).content@.push(Some(NodeContent::Element(element))),
            final(self).styles@ == old(self).styles@.push(
                Some(Style::spec_apply(Style::spec_default(), *style)),
            ),
            final(self).child_seq(parent_id.idx as int) == old(self).child_seq(
                parent_id.idx as int,
            ).push(r),
            forall|p: int|
                0 <= p < old(self).size() && p != parent_id.idx as int ==> final(self).child_seq(p)
                    == #[trigger] old(self).child_seq(p),
            final(self).root == old(self).root,
    {
        let child_id = self.create_element(element);
        self.set_style(child_id, *style);
        let ghost mid = *self;
        self.append_child(parent_id, child_id);
        proof {
            assert(mid.can_append(parent_id, child_id));
            assert(self.styles@ =~= old(self).styles@.push(
                Some(Style::spec_apply(Style::spec_default(), *style)),
            ));
            assert forall|p: int|
                0 <= p < old(self).size() && p != parent_id.idx as int implies self.child_seq(p)
                == old(self).child_seq(p) by {
                assert(self.child_seq(p) == mid.child_seq(p));
                assert(mid.child_seq(p) == old(self).child_seq(p));
            }
        }
        child_id
    }

    /// Merge an authored style into a node's current one: only the provided
    /// fields overwrite, and the node is marked dirty. A node that never had
    /// an authored style starts from the all-unset record.
    pub fn set_style(&mut self, node_id: NodeId, style: Style)
        requires
            old(self).wf(),
        ensures
            final(self).wf(),
            Dom::eq_structure(*old(self), *final(self)),
            Dom::eq_derived(*old(self), *final(self)),
            (node_id.idx as int) < old(self).size() ==> {
                &&& final(self).styles@ == old(self).styles@.update(
                    node_id.idx as int,
                    Some(
                        Style::spec_apply(
                            match old(self).styles@[node_id.idx as int] {
                                Some(s) => s,
                                None => Style::spec_default(),
                            },
                            style,
                        ),
                    ),
                )
                &&& final(self).dirty@ == old(self).dirty@.update(node_id.idx as int, true)
            },
            (node_id.idx as int) >= old(self).size() ==> *final(self) == *old(self),
    {
        if node_id.idx < self.styles.len() {
            let mut current: Style = match &self.styles[node_id.idx] {
                Some(s) => *s,
                None => Style::default(),
            };
            current.apply(&style);
            self.styles[node_id.idx] = Some(current);
            self.dirty[node_id.idx] = true;
        }
    }

    /// Set one authored property on a node that has an authored style
    /// record, and mark it dirty; nodes without one (text nodes) are left
    /// alone, as is an out-of-range handle.
    pub fn set_display(&mut self, node_id: NodeId, display: Display)
        requires
            old(self).wf(),
        ensures
            final(self).wf(),
            Dom::eq_structure(*old(self), *final(self)),
            Dom::eq_derived(*old(self), *final(self)),
            ({
                let i = node_id.idx as int;
                if i < old(self).size() && old(self).styles@[i] is Some {
                    final(self).styles@ == old(self).styles@.update(
                        i,
                        Some((Style { display: Some(display), ..old(self).styles@[i]->0 })),
                    ) && final(self).dirty@ == old(self).dirty@.update(i, true)
                } else {
                    *final(self) == *old(self)
                }
            }),
    {
        if node_id.idx < self.styles.len() {
            if self.styles[node_id.idx].is_some() {
                let mut s = self.styles[node_id.idx].unwrap();
                s.display = Some(display);
                self.styles[node_id.idx] = Some(s);
                self.dirty[node_id.idx] = true;
            }
        }
    }

    /// Set an absolute authored width, in pixels.
    pub fn set_width(&mut self, node_id: NodeId, width: u32)
        requires
            old(self).wf(),
        ensures
            final(self).wf(),
            Dom::eq_structure(*old(self), *final(self)),
            Dom::eq_derived(*old(self), *final(self)),
            ({
                let i = node_id.idx as int;
                if i < old(self).size() && old(self).styles@[i] is Some {
                    final(self).styles@ == old(self).styles@.update(
                        i,
                        Some(
                            (Style {
                                width: Some(Size::Points(width)),
                                ..old(self).styles@[i]->0
                            }),
                        ),
                    ) && final(self).dirty@ == old(self).dirty@.update(i, true)
                } else {
                    *final(self) == *old(self)
                }
            }),
    {
        if node_id.idx < self.styles.len() {
            if self.styles[node_id.idx].is_some() {
                let mut s = self.styles[node_id.idx].unwrap();
                s.width = Some(Size::Points(width));
                self.styles[node_id.idx] = Some(s);
                self.dirty[node_id.idx] = true;
            }
        }
    }

    /// Set an absolute authored height, in pixels.
    pub fn set_height(&mut self, node_id: NodeId, height: u32)
        requires
            old(self).wf(),
        ensures
            final(self).wf(),
            Dom::eq_structure(*old(self), *final(self)),
            Dom::eq_derived(*old(self), *final(self)),
            ({
                let i = node_id.idx as int;
                if i < old(self).size() && old(self).styles@[i] is Some {
                    final(self).styles@ == old(self).styles@.update(
                        i,
                        Some(
                            (Style {
                                height: Some(Size::Points(height)),
                                ..old(self).styles@[i]->0
                            }),
                        ),
                    ) && final(self).dirty@ == old(self).dirty@.update(i, true)
                } else {
                    *final(self) == *old(self)
                }
            }),
    {
        if node_id.idx < self.styles.len() {
            if self.styles[node_id.idx].is_some() {
                let mut s = self.styles[node_id.idx].unwrap();
                s.height = Some(Size::Points(height));
                self.styles[node_id.idx] = Some(s);
                self.dirty[node_id.idx] = true;
            }
        }
    }

    /// Set the authored background color.
    pub fn set_bg_color(&mut self, node_id: NodeId, color: Color)
        requires
            old(self).wf(),
        ensures
            final(self).wf(),
            Dom::eq_structure(*old(self), *final(self)),
            Dom::eq_derived(*old(self), *final(self)),
            ({
                let i = node_id.idx as int;
                if i < old(self).size() && old(self).styles@[i] is Some {
                    final(self).styles@ == old(self).styles@.update(
                        i,
                        Some((Style { bg_color: Some(color), ..old(self).styles@[i]->0 })),
                    ) && final(self).dirty@ == old(self).dirty@.update(i, true)
                } else {
                    *final(self) == *old(self)
                }
            }),
    {
        if node_id.idx < self.styles.len() {
            if self.styles[node_id.idx].is_some() {
                let mut s = self.styles[node_id.idx].unwrap();
                s.bg_color = Some(color);
                self.styles[node_id.idx] = Some(s);
                self.dirty[node_id.idx] = true;
            }
        }
    }

    /// Set the authored margin, all four sides.
    pub fn set_margin(&mut self, node_id: NodeId, margin: BoxModelValues)
        requires
            old(self).wf(),
        ensures
            final(self).wf(),
            Dom::eq_structure(*old(self), *final(self)),
            Dom::eq_derived(*old(self), *final(self)),
            ({
                let i = node_id.idx as int;
                if i < old(self).size() && old(self).styles@[i] is Some {
                    final(self).styles@ == old(self).styles@.update(
                        i,
                        Some((Style { margin: Some(margin), ..old(self).styles@[i]->0 })),
                    ) && final(self).dirty@ == old(self).dirty@.update(i, true)
                } else {
                    *final(self) == *old(self)
                }
            }),
    {
        if node_id.idx < self.styles.len() {
            if self.styles[node_id.idx].is_some() {
                let mut s = self.styles[node_id.idx].unwrap();
                s.margin = Some(margin);
                self.styles[node_id.idx] = Some(s);
                self.dirty[node_id.idx] = true;
            }
        }
    }

    /// Set the authored padding, all four sides.
    pub fn set_padding(&mut self, node_id: NodeId, padding: BoxModelValues)
        requires
            old(self).wf(),
        ensures
            final(self).wf(),
            Dom::eq_structure(*old(self), *final(self)),
            Dom::eq_derived(*old(self), *final(self)),
            ({
                let i = node_id.idx as int;
                if i < old(self).size() && old(self).styles@[i] is Some {
                    final(self).styles@ == old(self).styles@.update(
                        i,
                        Some((Style { padding: Some(padding), ..old(self).styles@[i]->0 })),
                    ) && final(self).dirty@ == old(self).dirty@.update(i, true)
                } else {
                    *final(self) == *old(self)
                }
            }),
    {
        if node_id.idx < self.styles.len() {
            if self.styles[node_id.idx].is_some() {
                let mut s = self.styles[node_id.idx].unwrap();
                s.padding = Some(padding);
                self.styles[node_id.idx] = Some(s);
                self.dirty[node_id.idx] = true;
            }
        }
    }

    /// Set the authored border, all four sides.
    pub fn set_border(&mut self, node_id: NodeId, border: BorderStyle)
        requires
            old(self).wf(),
        ensures
            final(self).wf(),
            Dom::eq_structure(*old(self), *final(self)),
            Dom::eq_derived(*old(self), *final(self)),
            ({
                let i = node_id.idx as int;
                if i < old(self).size() && old(self).styles@[i] is Some {
                    final(self).styles@ == old(self).styles@.update(
                        i,
                        Some((Style { border: Some(border), ..old(self).styles@[i]->0 })),
                    ) && final(self).dirty@ == old(self).dirty@.update(i, true)
                } else {
                    *final(self) == *old(self)
                }
            }),
    {
        if node_id.idx < self.styles.len() {
            if self.styles[node_id.idx].is_some() {
                let mut s = self.styles[node_id.idx].unwrap();
                s.border = Some(border);
                self.styles[node_id.idx] = Some(s);
                self.dirty[node_id.idx] = true;
            }
        }
    }

    /// Set the authored box-sizing.
    pub fn set_box_sizing(&mut self, node_id: NodeId, box_sizing: BoxSizing)
        requires
            old(self).wf(),
        ensures
            final(self).wf(),
            Dom::eq_structure(*old(self), *final(self)),
            Dom::eq_derived(*old(self), *final(self)),
            ({
                let i = node_id.idx as int;
                if i < old(self).size() && old(self).styles@[i] is Some {
                    final(self).styles@ == old(self).styles@.update(
                        i,
                        Some((Style { box_sizing: Some(box_sizing), ..old(self).styles@[i]->0 })),
                    ) && final(self).dirty@ == old(self).dirty@.update(i, true)
                } else {
                    *final(self) == *old(self)
                }
            }),
    {
        if node_id.idx < self.styles.len() {
            if self.styles[node_id.idx].is_some() {
                let mut s = self.styles[node_id.idx].unwrap();
                s.box_sizing = Some(box_sizing);
                self.styles[node_id.idx] = Some(s);
                self.dirty[node_id.idx] = true;
            }
        }
    }

    /// Set the authored float.
    pub fn set_float(&mut self, node_id: NodeId, float_side: Float)
        requires
            old(self).wf(),
        ensures
            final(self).wf(),
            Dom::eq_structure(*old(self), *final(self)),
            Dom::eq_derived(*old(self), *final(self)),
            ({
                let i = node_id.idx as int;
                if i < old(self).size() && old(self).styles@[i] is Some {
                    final(self).styles@ == old(self).styles@.update(
                        i,
                        Some((Style { float: Some(float_side), ..old(self).styles@[i]->0 })),
                    ) && final(self).dirty@ == old(self).dirty@.update(i, true)
                } else {
                    *final(self) == *old(self)
                }
            }),
    {
        if node_id.idx < self.styles.len() {
            if self.styles[node_id.idx].is_some() {
                let mut s = self.styles[node_id.idx].unwrap();
                s.float = Some(float_side);
                self.styles[node_id.idx] = Some(s);
                self.dirty[node_id.idx] = true;
            }
        }
    }

    /// Set only the authored top margin, keeping the other sides.
    pub fn set_margin_top(&mut self, node_id: NodeId, value: u32)
        requires
            old(self).wf(),
        ensures
            final(self).wf(),
            Dom::eq_structure(*old(self), *final(self)),
            Dom::eq_derived(*old(self), *final(self)),
            ({
                let i = node_id.idx as int;
                if i < old(self).size() && old(self).styles@[i] is Some {
                    final(self).styles@ == old(self).styles@.update(
                        i,
                        Some(
                            (Style {
                                margin: Some(
                                    (BoxModelValues {
                                        top: Some(value),
                                        ..match old(self).styles@[i]->0.margin {
                                            Some(m) => m,
                                            None => BoxModelValues {
                                                top: None,
                                                right: None,
                                                bottom: None,
                                                left: None,
                                            },
                                        }
                                    }),
                                ),
                                ..old(self).styles@[i]->0
                            }),
                        ),
                    ) && final(self).dirty@ == old(self).dirty@.update(i, true)
                } else {
                    *final(self) == *old(self)
                }
            }),
    {
        if node_id.idx < self.styles.len() {
            if self.styles[node_id.idx].is_some() {
                let mut s = self.styles[node_id.idx].unwrap();
                let mut m = match s.margin {
                    Some(m) => m,
                    None => BoxModelValues::default(),
                };
                m.top = Some(value);
                s.margin = Some(m);
                self.styles[node_id.idx] = Some(s);
                self.dirty[node_id.idx] = true;
            }
        }
    }

    /// Set only the authored right margin, keeping the other sides.
    pub fn set_margin_right(&mut self, node_id: NodeId, value: u32)
        requires
            old(self).wf(),
        ensures
            final(self).wf(),
            Dom::eq_structure(*old(self), *final(self)),
            Dom::eq_derived(*old(self), *final(self)),
            ({
                let i = node_id.idx as int;
                if i < old(self).size() && old(self).styles@[i] is Some {
                    final(self).styles@ == old(self).styles@.update(
                        i,
                        Some(
                            (Style {
                                margin: Some(
                                    (BoxModelValues {
                                        right: Some(value),
                                        ..match old(self).styles@[i]->0.margin {
                                            Some(m) => m,
                                            None => BoxModelValues {
                                                top: None,
                                                right: None,
                                                bottom: None,
                                                left: None,
                                            },
                                        }
                                    }),
                                ),
                                ..old(self).styles@[i]->0
                            }),
                        ),
                    ) && final(self).dirty@ == old(self).dirty@.update(i, true)
                } else {
                    *final(self) == *old(self)
                }
            }),
    {
        if node_id.idx < self.styles.len() {
            if self.styles[node_id.idx].is_some() {
                let mut s = self.styles[node_id.idx].unwrap();
                let mut m = match s.margin {
                    Some(m) => m,
                    None => BoxModelValues::default(),
                };
                m.right = Some(value);
                s.margin = Some(m);
                self.styles[node_id.idx] = Some(s);
                self.dirty[node_id.idx] = true;
            }
        }
    }

    /// The ordered children of a node, or none for an out-of-range handle.
    pub fn children(&self, node_id: NodeId) -> (r: Option<&Vec<NodeId>>)
        ensures
            ((node_id.idx as int) < self.children@.len() <==> r is Some),
            r is Some ==> r->0@ == self.child_seq(node_id.idx as int),
    {
        if node_id.idx < self.children.len() {
            Some(&self.children[node_id.idx])
        } else {
            None
        }
    }

    /// A node's parent, or none for the root and detached nodes.
    pub fn parent(&self, node_id: NodeId) -> (r: Option<NodeId>)
        ensures
            (node_id.idx as int) < self.parents@.len() ==> r == self.parents@[node_id.idx as int],
            (node_id.idx as int) >= self.parents@.len() ==> r is None,
    {
        if node_id.idx < self.parents.len() {
            self.parents[node_id.idx]
        } else {
            None
        }
    }

    /// A node's resolved style, once a style pass has produced one.
    pub fn get_computed_style(&self, node_id: NodeId) -> (r: Option<ComputedStyle>)
        ensures
            (node_id.idx as int) < self.computed_styles@.len() ==> r
                == self.computed_styles@[node_id.idx as int],
            (node_id.idx as int) >= self.computed_styles@.len() ==> r is None,
    {
        if node_id.idx < self.computed_styles.len() {
            self.computed_styles[node_id.idx]
        } else {
            None
        }
    }

    /// Whether the node holds an element (as opposed to text, or nothing).
    pub fn is_element(&self, id: NodeId) -> (r: bool)
        ensures
            r == ((id.idx as int) < self.size() && self.content@[id.idx as int] is Some
                && self.content@[id.idx as int]->0 is Element),
    {
        if id.idx < self.content.len() {
            match &self.content[id.idx] {
                Some(NodeContent::Element(_)) => true,
                _ => false,
            }
        } else {
            false
        }
    }

    pub fn is_dirty(&self, node_id: NodeId) -> (r: bool)
        ensures
            r == ((node_id.idx as int) < self.dirty@.len() && self.dirty@[node_id.idx as int]),
    {
        if node_id.idx < self.dirty.len() {
            self.dirty[node_id.idx]
        } else {
            false
        }
    }

    pub fn clear_dirty(&mut self, node_id: NodeId)
        requires
            old(self).wf(),
        ensures
            final(self).wf(),
            Dom::eq_structure(*old(self), *final(self)),
            Dom::eq_styling(*old(self), *final(self)),
            Dom::eq_derived(*old(self), *final(self)),
            (node_id.idx as int) < old(self).size() ==> final(self).dirty@ == old(self).dirty@.update(node_id.idx as int, false),
            (node_id.idx as int) >= old(self).size() ==> final(self).dirty@ == old(self).dirty@,
    {
        if node_id.idx < self.dirty.len() {
            self.dirty[node_id.idx] = false;
        }
    }
}

/// Copy a list of node handles.
pub(crate) fn copy_node_ids(v: &Vec<NodeId>) -> (r: Vec<NodeId>)
    ensures
        r@ == v@,
{
    let mut out: Vec<NodeId> = Vec::new();
    let mut i: usize = 0;
    while i < v.len()
        invariant
            i <= v@.len(),
            out@ == v@.take(i as int),
        decreases v@.len() - i,
    {
        out.push(v[i]);
        proof {
            assert(v@.take(i as int + 1) =~= v@.take(i as int).push(v@[i as int]));
        }
        i += 1;
    }
    proof {
        assert(v@.take(v@.len() as int) =~= v@);
    }
    out
}

impl Dom {
    /// Remove a node and its whole subtree: clear every slot, and take the
    /// node out of its parent's child list. Slots are never reused, so the
    /// handle stays dead. Unknown or already-removed handles are ignored.
    /// No child list ever gains an entry, and the removed node's handle is
    /// gone from the list of the node its parent link names.
    #[verifier::loop_isolation(false)]
    pub fn remove_node(&mut self, node_id: NodeId)
        requires
            old(self).wf(),
        ensures
            final(self).wf(),
            final(self).size() == old(self).size(),
            final(self).root == old(self).root,
            (node_id.idx as int) < old(self).size() ==> final(self).content@[node_id.idx as int]
                is None,
            forall|i: int|
                0 <= i < old(self).size() && (#[trigger] final(self).content@[i]) is Some ==> old(
                    self,
                ).content@[i] is Some,
            forall|j: int|
                0 <= j < node_id.idx ==> #[trigger] final(self).content@[j] == old(
                    self,
                ).content@[j],
            forall|p: int, k: int|
                0 <= p < old(self).size() && 0 <= k < final(self).child_seq(p).len() ==> old(
                    self,
                ).child_seq(p).contains(#[trigger] final(self).child_seq(p)[k]),
            ({
                let par = old(self).parents@[node_id.idx as int];
                let fin = *final(self);
                ((node_id.idx as int) < old(self).size() && old(
                    self,
                ).content@[node_id.idx as int] is Some && par is Some && (par->0.idx as int)
                    < old(self).size()) ==> (forall|k: int|
                    0 <= k < fin.child_seq(par->0.idx as int).len() ==> (#[trigger] fin.child_seq(
                        par->0.idx as int,
                    )[k]).idx != node_id.idx)
            }),
            forall|j: int|
                0 <= j < old(self).size() && j < node_id.idx as int && old(self).dirty@[j]
                    ==> #[trigger] final(self).dirty@[j],
            forall|j: int|
                0 <= j < old(self).size() && !crate::resolve::subtree_contains(
                    *old(self),
                    node_id.idx as int,
                    j,
                ) ==> #[trigger] final(self).content@[j] == old(self).content@[j],
            ({
                let par = old(self).parents@[node_id.idx as int];
                ((node_id.idx as int) < old(self).size() && old(
                    self,
                ).content@[node_id.idx as int] is Some && par is Some && (par->0.idx as int)
                    < node_id.idx as int) ==> final(self).dirty@[par->0.idx as int]
            }),
        decreases old(self).size() - node_id.idx,
    {
        if node_id.idx >= self.content.len() {
            proof {
                assert forall|p: int, k: int|
                    0 <= p < self.size() && 0 <= k < self.child_seq(p).len() implies self.child_seq(
                    p,
                ).contains(#[trigger] self.child_seq(p)[k]) by {
                    let e = self.child_seq(p)[k];
                    assert(self.child_seq(p)[k] == e);
                }
            }
            return ;
        }
        if self.content[node_id.idx].is_none() {
            proof {
                assert forall|p: int, k: int|
                    0 <= p < self.size() && 0 <= k < self.child_seq(p).len() implies self.child_seq(
                    p,
                ).contains(#[trigger] self.child_seq(p)[k]) by {
                    let e = self.child_seq(p)[k];
                    assert(self.child_seq(p)[k] == e);
                }
            }
            return ;
        }
        // Take the node out of its parent's child list and mark the parent.
        let parent = self.parents[node_id.idx];
        if let Some(parent_id) = parent {
            if parent_id.idx < self.children.len() {
                let ghost before = *self;
                let old_list = copy_node_ids(&self.children[parent_id.idx]);
                let mut kept: Vec<NodeId> = Vec::new();
                let mut i: usize = 0;
                while i < old_list.len()
                    invariant
                        old_list@ == before.child_seq(parent_id.idx as int),
                        before.wf(),
                        (parent_id.idx as int) < before.size(),
                        i <= old_list@.len(),
                        forall|k: int|
                            0 <= k < kept@.len() ==> (parent_id.idx as int) < (
                            #[trigger] kept@[k]).idx as int && (kept@[k].idx as int)
                                < before.size(),
                        forall|k: int|
                            0 <= k < kept@.len() ==> old_list@.contains(#[trigger] kept@[k]),
                        forall|k: int|
                            0 <= k < kept@.len() ==> (#[trigger] kept@[k]).idx != node_id.idx,
                    decreases old_list@.len() - i,
                {
                    let c = old_list[i];
                    if !(c.idx == node_id.idx) {
                        kept.push(c);
                        proof {
                            assert(old_list@[i as int] == c);
                        }
                    }
                    i += 1;
                }
                self.children[parent_id.idx] = kept;
                self.dirty[parent_id.idx] = true;
                proof {
                    assert forall|p: int, k: int|
                        0 <= p < self.size() && 0 <= k < self.children@[p]@.len() implies p < (
                    #[trigger] self.children@[p]@[k]).idx as int && (self.children@[p]@[
                    k].idx as int) < self.size() by {
                        if p != parent_id.idx as int {
                            assert(self.children@[p]@ == before.children@[p]@);
                        }
                    }
                }
            }
        }
        // Remove the subtree.
        let kids = copy_node_ids(&self.children[node_id.idx]);
        let ghost at_kids = *self;
        proof {
            assert forall|k: int|
                0 <= k < kids@.len() implies (node_id.idx as int) < ((#[trigger] kids@[k]).idx as int)
                && ((kids@[k]).idx as int) < at_kids.size() by {
                assert(kids@[k] == at_kids.children@[node_id.idx as int]@[k]);
            }
            assert forall|p: int, k: int|
                0 <= p < old(self).size() && 0 <= k < at_kids.child_seq(p).len() implies old(
                self,
            ).child_seq(p).contains(#[trigger] at_kids.child_seq(p)[k]) by {
                let e = at_kids.child_seq(p)[k];
                if parent is Some && (parent->0.idx as int) < old(self).size() && p
                    == parent->0.idx as int {
                } else {
                    assert(at_kids.child_seq(p) == old(self).child_seq(p));
                }
            }
        }
        let mut i: usize = 0;
        while i < kids.len()
            invariant
                self.wf(),
                self.size() == at_kids.size(),
                self.root == at_kids.root,
                i <= kids@.len(),
                kids@ == at_kids.child_seq(node_id.idx as int),
                at_kids.wf(),
                at_kids.size() == old(self).size(),
                (node_id.idx as int) < at_kids.size(),
                forall|k: int|
                    0 <= k < kids@.len() ==> (node_id.idx as int) < ((#[trigger] kids@[k]).idx as int)
                        && ((kids@[k]).idx as int) < at_kids.size(),
                forall|j: int|
                    0 <= j < at_kids.size() && (#[trigger] self.content@[j]) is Some
                        ==> at_kids.content@[j] is Some,
                forall|j: int|
                    0 <= j <= node_id.idx ==> #[trigger] self.content@[j] == at_kids.content@[j],
                forall|p: int, k: int|
                    0 <= p < at_kids.size() && 0 <= k < self.child_seq(p).len()
                        ==> at_kids.child_seq(p).contains(#[trigger] self.child_seq(p)[k]),
                (parent is Some && (parent->0.idx as int) < at_kids.size()) ==> (forall|k: int|
                    0 <= k < self.child_seq(parent->0.idx as int).len() ==> (#[trigger] self.child_seq(
                        parent->0.idx as int,
                    )[k]).idx != node_id.idx),
                forall|j: int|
                    0 <= j < at_kids.size() && j < node_id.idx as int && at_kids.dirty@[j]
                        ==> #[trigger] self.dirty@[j],
                (parent is Some && (parent->0.idx as int) < node_id.idx as int)
                    ==> self.dirty@[parent->0.idx as int],
                forall|j: int|
                    0 <= j < old(self).size() && !crate::resolve::subtree_contains(
                        *old(self),
                        node_id.idx as int,
                        j,
                    ) ==> #[trigger] self.content@[j] == old(self).content@[j],
            decreases kids@.len() - i,
        {
            let c = kids[i];
            proof {
                assert(self.size() == old(self).size());
                assert((node_id.idx as int) < c.idx as int);
            }
            let ghost prev = *self;
            self.remove_node(c);
            proof {
                assert forall|p: int, k: int|
                    0 <= p < at_kids.size() && 0 <= k < self.child_seq(p).len()
                        implies at_kids.child_seq(p).contains(#[trigger] self.child_seq(p)[k]) by {
                    let e = self.child_seq(p)[k];
                    assert(prev.child_seq(p).contains(e));
                    let j = choose|j: int|
                        0 <= j < prev.child_seq(p).len() && prev.child_seq(p)[j] == e;
                    assert(at_kids.child_seq(p).contains(prev.child_seq(p)[j]));
                }
                if parent is Some && (parent->0.idx as int) < at_kids.size() {
                    let pi = parent->0.idx as int;
                    assert forall|k: int|
                        0 <= k < self.child_seq(pi).len() implies (#[trigger] self.child_seq(
                        pi,
                    )[k]).idx != node_id.idx by {
                        let e = self.child_seq(pi)[k];
                        assert(prev.child_seq(pi).contains(e));
                        let j = choose|j: int|
                            0 <= j < prev.child_seq(pi).len() && prev.child_seq(pi)[j] == e;
                        assert(prev.child_seq(pi)[j].idx != node_id.idx);
                    }
                }
                assert forall|j: int|
                    0 <= j < old(self).size() && !crate::resolve::subtree_contains(
                        *old(self),
                        node_id.idx as int,
                        j,
                    ) implies #[trigger] self.content@[j] == old(self).content@[j] by {
                    if crate::resolve::subtree_contains(prev, c.idx as int, j) {
                        assert forall|q: int, k: int|
                            0 <= q < prev.size() && 0 <= k < prev.child_seq(q).len() implies old(
                            self,
                        ).child_seq(q).contains(#[trigger] prev.child_seq(q)[k]) by {
                            let e = prev.child_seq(q)[k];
                            assert(at_kids.child_seq(q).contains(e));
                            let j2 = choose|j2: int|
                                0 <= j2 < at_kids.child_seq(q).len() && at_kids.child_seq(
                                    q,
                                )[j2] == e;
                            assert(old(self).child_seq(q).contains(at_kids.child_seq(q)[j2]));
                        }
                        crate::resolve::lemma_subtree_sub(prev, *old(self), c.idx as int, j);
                        assert(at_kids.child_seq(node_id.idx as int)[i as int] == c);
                        let j3 = choose|j3: int|
                            0 <= j3 < old(self).child_seq(node_id.idx as int).len() && old(
                                self,
                            ).child_seq(node_id.idx as int)[j3] == c;
                        assert(crate::resolve::subtree_contains(
                            *old(self),
                            c.idx as int,
                            c.idx as int,
                        ));
                        assert(crate::resolve::subtree_contains(
                            *old(self),
                            node_id.idx as int,
                            c.idx as int,
                        ));
                        crate::resolve::lemma_subtree_trans(
                            *old(self),
                            node_id.idx as int,
                            c.idx as int,
                            j,
                        );
                        assert(false);
                    }
                    assert(self.content@[j] == prev.content@[j]);
                }
            }
            i += 1;
        }
        // Clear every column of the slot.
        let ghost cleared_from = *self;
        self.content[node_id.idx] = None;
        self.styles[node_id.idx] = None;
        self.computed_styles[node_id.idx] = None;
        self.layout[node_id.idx] = None;
        self.text_info[node_id.idx] = None;
        self.children[node_id.idx] = Vec::new();
        self.parents[node_id.idx] = None;
        self.dirty[node_id.idx] = false;
        proof {
            assert forall|p: int, k: int|
                0 <= p < old(self).size() && 0 <= k < self.child_seq(p).len() implies old(
                self,
            ).child_seq(p).contains(#[trigger] self.child_seq(p)[k]) by {
                let e = self.child_seq(p)[k];
                assert(p != node_id.idx as int);
                assert(self.child_seq(p) == cleared_from.child_seq(p));
                assert(at_kids.child_seq(p).contains(e));
                let j = choose|j: int|
                    0 <= j < at_kids.child_seq(p).len() && at_kids.child_seq(p)[j] == e;
                assert(old(self).child_seq(p).contains(at_kids.child_seq(p)[j]));
            }
            if parent is Some && (parent->0.idx as int) < old(self).size() {
                let pi = parent->0.idx as int;
                assert forall|k: int|
                    0 <= k < self.child_seq(pi).len() implies (#[trigger] self.child_seq(
                    pi,
                )[k]).idx != node_id.idx by {
                    assert(pi != node_id.idx as int);
                    assert(self.child_seq(pi) == cleared_from.child_seq(pi));
                }
            }
            assert(crate::resolve::subtree_contains(
                *old(self),
                node_id.idx as int,
                node_id.idx as int,
            ));
        }
    }

    /// Replace an element's children by a single new text node holding
    /// `text`: the old children are removed — their slots cleared, subtrees
    /// included — and the new text node is the element's only child. Text
    /// nodes and unknown handles are left alone.
    pub fn set_inner_text(&mut self, element_id: NodeId, text: String)
        requires
            old(self).wf(),
        ensures
            final(self).wf(),
            final(self).root == old(self).root,
            ({
                (node_is_element(*old(self), element_id.idx as int)) ==> {
                    &&& final(self).size() == old(self).size() + 1
                    &&& final(self).content@[old(self).size()] == Some(
                        NodeContent::Text(Text { content: text }),
                    )
                    &&& final(self).child_seq(element_id.idx as int).len() == 1
                    &&& (final(self).child_seq(element_id.idx as int)[0].idx as int) == old(
                        self,
                    ).size()
                    &&& (forall|k: int|
                        0 <= k < old(self).child_seq(element_id.idx as int).len() && ((
                        #[trigger] old(self).child_seq(element_id.idx as int)[k]).idx as int)
                            != element_id.idx as int ==> final(self).content@[old(
                            self,
                        ).child_seq(element_id.idx as int)[k].idx as int] is None)
                }
            }),
            !(node_is_element(*old(self), element_id.idx as int)) ==> *final(self) == *old(self),
    {
        if element_id.idx >= self.content.len() {
            return ;
        }
        let is_elem = match &self.content[element_id.idx] {
            Some(NodeContent::Element(_)) => true,
            _ => false,
        };
        if !is_elem {
            return ;
        }
        self.remove_all_children(element_id);
        let text_node_id = self.create_text_node(text);
        self.append_child(element_id, text_node_id);
    }

    /// Remove every child of a node, subtrees included; the node's child
    /// list is empty afterwards and every former child's slot is cleared.
    fn remove_all_children(&mut self, parent_id: NodeId)
        requires
            old(self).wf(),
            (parent_id.idx as int) < old(self).size(),
        ensures
            final(self).wf(),
            final(self).size() == old(self).size(),
            final(self).root == old(self).root,
            final(self).content@[parent_id.idx as int] == old(self).content@[parent_id.idx as int],
            final(self).child_seq(parent_id.idx as int) == Seq::<NodeId>::empty(),
            forall|k: int|
                0 <= k < old(self).child_seq(parent_id.idx as int).len() && ((#[trigger] old(
                    self,
                ).child_seq(parent_id.idx as int)[k]).idx as int) != parent_id.idx as int
                    ==> final(self).content@[old(self).child_seq(parent_id.idx as int)[k].idx as int] is None,
    {
        let kids = copy_node_ids(&self.children[parent_id.idx]);
        let ghost entry = *self;
        let mut i: usize = 0;
        while i < kids.len()
            invariant
                self.wf(),
                self.size() == entry.size(),
                self.root == entry.root,
                i <= kids@.len(),
                kids@ == entry.child_seq(parent_id.idx as int),
                entry.wf(),
                (parent_id.idx as int) < entry.size(),
                forall|j: int|
                    0 <= j < entry.size() && (#[trigger] self.content@[j]) is Some
                        ==> entry.content@[j] is Some,
                self.content@[parent_id.idx as int] == entry.content@[parent_id.idx as int],
                forall|k: int|
                    0 <= k < i as int && ((#[trigger] kids@[k]).idx as int) != parent_id.idx as int
                        ==> self.content@[kids@[k].idx as int] is None,
            decreases kids@.len() - i,
        {
            let c = kids[i];
            if c.idx != parent_id.idx {
                let ghost prev = *self;
                self.remove_node(c);
                proof {
                    assert forall|k: int|
                        0 <= k < i as int + 1 && ((#[trigger] kids@[k]).idx as int)
                            != parent_id.idx as int implies self.content@[kids@[k].idx as int]
                        is None by {
                        if k < i as int {
                            assert(prev.content@[kids@[k].idx as int] is None);
                        }
                    }
                }
            }
            i += 1;
        }
        let ghost looped = *self;
        self.children[parent_id.idx] = Vec::new();
        proof {
            assert(self.child_seq(parent_id.idx as int) =~= Seq::<NodeId>::empty());
            assert forall|p: int, k: int|
                0 <= p < self.size() && 0 <= k < self.children@[p]@.len() implies p < (
            #[trigger] self.children@[p]@[k]).idx as int && (self.children@[p]@[k].idx as int)
                < self.size() by {
                if p != parent_id.idx as int {
                    assert(self.children@[p]@ == looped.children@[p]@);
                }
            }
        }
    }

    /// The concatenated text of an element's direct text children, or none
    /// for a text node or an unknown handle.
    pub fn get_inner_text(&self, element_id: NodeId) -> (r: Option<String>)
        requires
            self.wf(),
        ensures
            (r is Some) == node_is_element(*self, element_id.idx as int),
            r is Some ==> r->0@ == inner_text_upto(
                *self,
                element_id.idx as int,
                self.child_seq(element_id.idx as int).len() as int,
            ),
    {
        if element_id.idx >= self.content.len() {
            return None;
        }
        let is_elem = match &self.content[element_id.idx] {
            Some(NodeContent::Element(_)) => true,
            _ => false,
        };
        if !is_elem {
            return None;
        }
        let mut out = String::new();
        let n = self.children[element_id.idx].len();
        let mut i: usize = 0;
        while i < n
            invariant
                self.wf(),
                (element_id.idx as int) < self.size(),
                n == self.child_seq(element_id.idx as int).len(),
                i <= n,
                out@ == inner_text_upto(*self, element_id.idx as int, i as int),
            decreases n - i,
        {
            let c = self.children[element_id.idx][i];
            match &self.content[c.idx] {
                Some(NodeContent::Text(t)) => {
                    out.append(t.content.as_str());
                },
                _ => {},
            }
            i += 1;
        }
        Some(out)
    }

    /// All nodes of the subtree under `root_id` in depth-first pre-order —
    /// exactly [`preorder`] — beginning with `root_id` itself.
    pub fn collect_nodes_depth_first(&self, root_id: NodeId) -> (r: Vec<NodeId>)
        requires
            self.wf(),
            (root_id.idx as int) < self.size(),
        ensures
            r@.len() >= 1,
            r@[0] == root_id,
            forall|k: int| 0 <= k < r@.len() ==> ((#[trigger] r@[k]).idx as int) < self.size(),
            r@ == preorder(*self, root_id),
        decreases self.size() - root_id.idx,
    {
        let mut out: Vec<NodeId> = Vec::new();
        out.push(root_id);
        proof {
            assert(out@ =~= seq![root_id] + preorder_upto(*self, root_id, 0));
        }
        let n = self.children[root_id.idx].len();
        let mut i: usize = 0;
        while i < n
            invariant
                self.wf(),
                (root_id.idx as int) < self.size(),
                n == self.child_seq(root_id.idx as int).len(),
                i <= n,
                out@.len() >= 1,
                out@[0] == root_id,
                forall|k: int|
                    0 <= k < out@.len() ==> ((#[trigger] out@[k]).idx as int) < self.size(),
                out@ == seq![root_id] + preorder_upto(*self, root_id, i as int),
            decreases n - i,
        {
            let c = self.children[root_id.idx][i];
            let mut sub = self.collect_nodes_depth_first(c);
            out.append(&mut sub);
            proof {
                assert(out@ =~= seq![root_id] + (preorder_upto(*self, root_id, i as int)
                    + preorder(*self, c)));
                assert(preorder_upto(*self, root_id, i as int + 1) == preorder_upto(
                    *self,
                    root_id,
                    i as int,
                ) + preorder(*self, self.child_seq(root_id.idx as int)[i as int]));
            }
            i += 1;
        }
        proof {
            assert(preorder(*self, root_id) == seq![root_id] + preorder_upto(
                *self,
                root_id,
                self.child_seq(root_id.idx as int).len() as int,
            ));
        }
        out
    }

    /// The top-most node in paint order whose computed box contains the
    /// point — the last hit of the depth-first pre-order — falling back to
    /// the root when no box does.
    pub fn find_node_at_position(&self, x: u64, y: u64) -> (r: Option<NodeId>)
        requires
            self.wf(),
        ensures
            r is Some,
            r->0 == self.root || ((r->0.idx as int) < self.size() && self.layout@[r->0.idx as int]
                is Some && box_contains(self.layout@[r->0.idx as int]->0, x as int, y as int)),
            r->0 == last_hit_upto(
                *self,
                preorder(*self, self.root),
                preorder(*self, self.root).len() as int,
                x as int,
                y as int,
            ),
    {
        let nodes = self.collect_nodes_depth_first(self.root);
        let ghost total = nodes@.len() as int;
        let mut i: usize = nodes.len();
        while i > 0
            invariant
                self.wf(),
                i <= nodes@.len(),
                nodes@ == preorder(*self, self.root),
                forall|k: int|
                    0 <= k < nodes@.len() ==> ((#[trigger] nodes@[k]).idx as int) < self.size(),
                last_hit_upto(*self, nodes@, nodes@.len() as int, x as int, y as int)
                    == last_hit_upto(*self, nodes@, i as int, x as int, y as int),
            decreases i,
        {
            i -= 1;
            let node_id = nodes[i];
            if let Some(ld) = &self.layout[node_id.idx] {
                let right = crate::geom::gadd(
                    if ld.computed_x > crate::geom::GEOM_MAX {
                        crate::geom::GEOM_MAX
                    } else {
                        ld.computed_x
                    },
                    if ld.actual_width > crate::geom::GEOM_MAX {
                        crate::geom::GEOM_MAX
                    } else {
                        ld.actual_width
                    },
                );
                let bottom = crate::geom::gadd(
                    if ld.computed_y > crate::geom::GEOM_MAX {
                        crate::geom::GEOM_MAX
                    } else {
                        ld.computed_y
                    },
                    if ld.actual_height > crate::geom::GEOM_MAX {
                        crate::geom::GEOM_MAX
                    } else {
                        ld.actual_height
                    },
                );
                if x >= ld.computed_x && x <= right && y >= ld.computed_y && y <= bottom {
                    proof {
                        assert(node_hit(*self, nodes@[i as int], x as int, y as int));
                        assert(last_hit_upto(*self, nodes@, i as int + 1, x as int, y as int)
                            == nodes@[i as int]);
                    }
                    return Some(node_id);
                }
            }
            proof {
                assert(!node_hit(*self, nodes@[i as int], x as int, y as int));
                assert(last_hit_upto(*self, nodes@, i as int + 1, x as int, y as int)
                    == last_hit_upto(*self, nodes@, i as int, x as int, y as int));
            }
        }
        proof {
            assert(last_hit_upto(*self, nodes@, 0, x as int, y as int) == self.root);
        }
        Some(self.root)
    }
}

/// Slot `i` of `d` holds an element.
pub open spec fn node_is_element(d: Dom, i: int) -> bool {
    0 <= i < d.size() && d.content@[i] is Some && d.content@[i]->0 is Element
}

/// Slot `i` of `d` holds a node (element or text) that has not been removed.
pub open spec fn node_is_live(d: Dom, i: int) -> bool {
    0 <= i < d.size() && d.content@[i] is Some
}

/// The subtree under `r` in depth-first pre-order: `r` itself, then each
/// child's subtree in child-list order.
pub open spec fn preorder(d: Dom, r: NodeId) -> Seq<NodeId>
    decreases d.size() - r.idx, d.child_seq(r.idx as int).len() + 1,
        when d.wf() && (r.idx as int) < d.size()
{
    seq![r] + preorder_upto(d, r, d.child_seq(r.idx as int).len() as int)
}

/// The concatenated pre-orders of the subtrees under the first `k` children
/// of `r`.
pub open spec fn preorder_upto(d: Dom, r: NodeId, k: int) -> Seq<NodeId>
    decreases d.size() - r.idx, k,
        when d.wf() && (r.idx as int) < d.size() && k <= d.child_seq(r.idx as int).len()
{
    if k <= 0 {
        Seq::empty()
    } else {
        preorder_upto(d, r, k - 1) + preorder(d, d.child_seq(r.idx as int)[k - 1])
    }
}

/// Slot of `id` holds a computed box that contains the point.
pub open spec fn node_hit(d: Dom, id: NodeId, x: int, y: int) -> bool {
    &&& (id.idx as int) < d.size()
    &&& d.layout@[id.idx as int] is Some
    &&& box_contains(d.layout@[id.idx as int]->0, x, y)
}

/// The last among the first `i` nodes of `ns` whose computed box contains
/// the point — the top-most in paint order — or the root when none does.
pub open spec fn last_hit_upto(d: Dom, ns: Seq<NodeId>, i: int, x: int, y: int) -> NodeId
    decreases i,
{
    if i <= 0 {
        d.root
    } else if node_hit(d, ns[i - 1], x, y) {
        ns[i - 1]
    } else {
        last_hit_upto(d, ns, i - 1, x, y)
    }
}

/// The concatenated contents of the text nodes among the first `k` children
/// of slot `p`.
pub open spec fn inner_text_upto(d: Dom, p: int, k: int) -> Seq<char>
    decreases k,
{
    if k <= 0 {
        Seq::empty()
    } else {
        let prefix = inner_text_upto(d, p, k - 1);
        let c = d.child_seq(p)[k - 1];
        if 0 <= c.idx < d.content@.len() && d.content@[c.idx as int] is Some && d.content@[
            c.idx as int
        ]->0 is Text {
            prefix + d.content@[c.idx as int]->0->Text_0.content@
        } else {
            prefix
        }
    }
}

/// The point lies inside the box, edges included.
pub open spec fn box_contains(l: LayoutData, x: int, y: int) -> bool {
    &&& l.computed_x <= x
    &&& x <= crate::geom::cadd(
        crate::geom::smin(l.computed_x as int, crate::geom::GEOM_MAX as int),
        crate::geom::smin(l.actual_width as int, crate::geom::GEOM_MAX as int),
    )
    &&& l.computed_y <= y
    &&& y <= crate::geom::cadd(
        crate::geom::smin(l.computed_y as int, crate::geom::GEOM_MAX as int),
        crate::geom::smin(l.actual_height as int, crate::geom::GEOM_MAX as int),
    )
}

} // verus!
