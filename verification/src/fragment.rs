//! Document fragments: a detached subtree built aside and merged into the
//! main tree in one step.

use vstd::prelude::*;

use crate::dom::Dom;
use crate::node::{Element, NodeContent, NodeId, Text};
use crate::style::Style;

verus! {

/// A detached subtree: its own little arena of nodes and edges, merged into
/// a [`Dom`] with [`DocumentFragment::merge_into`].
pub struct DocumentFragment {
    pub content: Vec<Option<NodeContent>>,
    pub styles: Vec<Option<Style>>,
    pub children: Vec<Vec<NodeId>>,
    pub root: Option<NodeId>,
}

impl DocumentFragment {
    /// Columns cover the same slots and every edge points forward, exactly
    /// as in the main tree.
    pub open spec fn wf(self) -> bool {
        &&& self.styles@.len() == self.content@.len()
        &&& self.children@.len() == self.content@.len()
        &&& (forall|p: int, k: int|
            0 <= p < self.children@.len() && 0 <= k < self.children@[p]@.len() ==> p < (
            #[trigger] self.children@[p]@[k]).idx as int && (self.children@[p]@[k].idx as int)
                < self.content@.len())
        &&& (self.root is Some ==> (self.root->0.idx as int) < self.content@.len())
    }

    pub fn new() -> (f: DocumentFragment)
        ensures
            f.wf(),
            f.content@.len() == 0,
            f.root is None,
    {
        DocumentFragment {
            content: Vec::new(),
            styles: Vec::new(),
            children: Vec::new(),
            root: None,
        }
    }

    /// Create a detached element slot with the default authored style.
    pub fn create_element(&mut self, element: Element) -> (r: NodeId)
        requires
            old(self).wf(),
        ensures
            final(self).wf(),
            r.idx as int == old(self).content@.len(),
            final(self).content@ == old(self).content@.push(
                Some(NodeContent::Element(element)),
            ),
            final(self).styles@ == old(self).styles@.push(Some(Style::spec_default())),
            final(self).root == old(self).root,
    {
        let idx = self.content.len();
        self.content.push(Some(NodeContent::Element(element)));
        self.styles.push(Some(Style::default()));
        self.children.push(Vec::new());
        proof {
            assert forall|p: int, k: int|
                0 <= p < self.children@.len() && 0 <= k < self.children@[p]@.len() implies p < (
            #[trigger] self.children@[p]@[k]).idx as int && (self.children@[p]@[k].idx as int)
                < self.content@.len() by {
                if p < old(self).children@.len() {
                    assert(self.children@[p]@ == old(self).children@[p]@);
                }
            }
        }
        NodeId { idx }
    }

    /// Create a detached text slot.
    pub fn create_text(&mut self, text: Text) -> (r: NodeId)
        requires
            old(self).wf(),
        ensures
            final(self).wf(),
            r.idx as int == old(self).content@.len(),
            final(self).content@ == old(self).content@.push(Some(NodeContent::Text(text))),
            final(self).styles@ == old(self).styles@.push(None),
            final(self).root == old(self).root,
    {
        let idx = self.content.len();
        self.content.push(Some(NodeContent::Text(text)));
        self.styles.push(None);
        self.children.push(Vec::new());
        proof {
            assert forall|p: int, k: int|
                0 <= p < self.children@.len() && 0 <= k < self.children@[p]@.len() implies p < (
            #[trigger] self.children@[p]@[k]).idx as int && (self.children@[p]@[k].idx as int)
                < self.content@.len() by {
                if p < old(self).children@.len() {
                    assert(self.children@[p]@ == old(self).children@[p]@);
                }
            }
        }
        NodeId { idx }
    }

    /// Append an edge inside the fragment. As in the main tree, an edge that
    /// would point backward or out of bounds is refused.
    pub fn append_child(&mut self, parent_id: NodeId, child_id: NodeId)
        requires
            old(self).wf(),
        ensures
            final(self).wf(),
            final(self).content@ == old(self).content@,
            final(self).styles@ == old(self).styles@,
            final(self).root == old(self).root,
    {
        if child_id.idx < self.content.len() && parent_id.idx < child_id.idx {
            let ghost before = *self;
            self.children[parent_id.idx].push(child_id);
            proof {
                assert forall|p: int, k: int|
                    0 <= p < self.children@.len() && 0 <= k < self.children@[p]@.len() implies p
                    < (#[trigger] self.children@[p]@[k]).idx as int && (self.children@[p]@[
                k].idx as int) < self.content@.len() by {
                    if p != parent_id.idx as int {
                        assert(self.children@[p]@ == before.children@[p]@);
                    } else {
                        assert(self.children@[p]@ == before.children@[p]@.push(child_id));
                    }
                }
            }
        }
    }

    /// Merge this fragment into `dom`: every slot becomes a fresh node (in
    /// slot order, so edges stay forward), the fragment's edges are rebuilt
    /// between the new nodes, and the fragment's root, if any, is appended
    /// under `parent_id`. Returns the new handles, in fragment slot order.
    pub fn merge_into(self, dom: &mut Dom, parent_id: NodeId) -> (r: Vec<NodeId>)
        requires
            old(dom).wf(),
            self.wf(),
            (parent_id.idx as int) < old(dom).size(),
        ensures
            final(dom).wf(),
            final(dom).size() == old(dom).size() + self.content@.len(),
            final(dom).root == old(dom).root,
            r@.len() == self.content@.len(),
            forall|i: int|
                0 <= i < r@.len() ==> ((#[trigger] r@[i]).idx as int) == old(dom).size() + i,
    {
        let ghost base = dom.size();
        let ghost frag = self;
        let DocumentFragment { mut content, mut styles, children, root } = self;
        let mut new_ids: Vec<NodeId> = Vec::new();
        let total = content.len();
        let mut i: usize = 0;
        while i < total
            invariant
                dom.wf(),
                old(dom).wf(),
                base == old(dom).size(),
                (parent_id.idx as int) < base,
                total == frag.content@.len(),
                total == frag.styles@.len(),
                content@.len() + i == total,
                styles@.len() + i == total,
                content@ == frag.content@.skip(i as int),
                styles@ == frag.styles@.skip(i as int),
                i <= total,
                dom.size() == base + i,
                dom.root == old(dom).root,
                new_ids@.len() == i,
                forall|k: int|
                    0 <= k < new_ids@.len() ==> ((#[trigger] new_ids@[k]).idx as int) == base + k,
            decreases total - i,
        {
            let c = content.remove(0);
            let s = styles.remove(0);
            proof {
                assert(content@ =~= frag.content@.skip(i as int + 1));
                assert forall|k: int| 0 <= k < styles@.len() implies styles@[k]
                    == frag.styles@.skip(i as int + 1)[k] by {
                    assert(styles@[k] == frag.styles@.skip(i as int)[k + 1]);
                }
                assert(styles@ =~= frag.styles@.skip(i as int + 1));
            }
            let new_id = match c {
                Some(NodeContent::Element(el)) => dom.create_element(el),
                Some(NodeContent::Text(t)) => dom.create_text(t),
                None => dom.create_element(Element::new()),
            };
            if let Some(style) = s {
                dom.set_style(new_id, style);
            }
            new_ids.push(new_id);
            i += 1;
        }
        // Rebuild the fragment's edges between the new nodes; slot order is
        // preserved, so every edge still points forward.
        let mut p: usize = 0;
        while p < children.len()
            invariant
                dom.wf(),
                old(dom).wf(),
                base == old(dom).size(),
                (parent_id.idx as int) < base,
                dom.size() == base + total,
                dom.root == old(dom).root,
                new_ids@.len() == total,
                forall|k: int|
                    0 <= k < new_ids@.len() ==> ((#[trigger] new_ids@[k]).idx as int) == base + k,
                p <= children@.len(),
            decreases children@.len() - p,
        {
            let edge_count = children[p].len();
            let mut e: usize = 0;
            while e < edge_count
                invariant
                    dom.wf(),
                    old(dom).wf(),
                    base == old(dom).size(),
                    (parent_id.idx as int) < base,
                    dom.size() == base + total,
                    dom.root == old(dom).root,
                    new_ids@.len() == total,
                    forall|k: int|
                        0 <= k < new_ids@.len() ==> ((#[trigger] new_ids@[k]).idx as int) == base
                            + k,
                    p < children@.len(),
                    edge_count == children@[p as int]@.len(),
                    e <= edge_count,
                decreases edge_count - e,
            {
                let old_child = children[p][e];
                if p < new_ids.len() && old_child.idx < new_ids.len() {
                    let np = new_ids[p];
                    let nc = new_ids[old_child.idx];
                    dom.append_child(np, nc);
                }
                e += 1;
            }
            p += 1;
        }
        // Attach the fragment's root under the requested parent.
        if let Some(fragment_root) = root {
            if fragment_root.idx < new_ids.len() {
                let new_root = new_ids[fragment_root.idx];
                dom.append_child(parent_id, new_root);
            }
        }
        new_ids
    }
}

impl Dom {
    /// A fresh, detached fragment to build a subtree aside.
    pub fn create_fragment() -> (f: DocumentFragment)
        ensures
            f.wf(),
            f.content@.len() == 0,
            f.root is None,
    {
        DocumentFragment::new()
    }

    /// Merge a fragment under `parent_id`; see
    /// [`DocumentFragment::merge_into`].
    pub fn append_fragment(&mut self, parent_id: NodeId, fragment: DocumentFragment)
        requires
            old(self).wf(),
            fragment.wf(),
            (parent_id.idx as int) < old(self).size(),
        ensures
            final(self).wf(),
            final(self).size() == old(self).size() + fragment.content@.len(),
            final(self).root == old(self).root,
    {
        fragment.merge_into(self, parent_id);
    }
}

} // verus!
