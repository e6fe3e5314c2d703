//! Mouse hover tracking: the pure state machine behind event dispatch.
//!
//! The event system keeps the currently hovered node. Feeding it a mouse
//! position computes which node is under the pointer (by hit-testing the
//! computed boxes) and returns the leave/enter events that transition
//! implies; the embedding application dispatches them to its listeners.

use vstd::prelude::*;

use crate::dom::Dom;
use crate::node::NodeId;

verus! {

#[derive(Clone, Copy, Debug, PartialEq, Eq, Structural)]
pub enum MouseEventType {
    Enter,
    Leave,
    Click,
}

/// A mouse event aimed at one node, with the pointer position in pixels.
#[derive(Clone, Copy, Debug, PartialEq, Eq, Structural)]
pub struct MouseEvent {
    pub event_type: MouseEventType,
    pub node_id: NodeId,
    pub x: u64,
    pub y: u64,
}

/// The hover state: which node the pointer was last over.
pub struct EventSystem {
    pub current_hover: Option<NodeId>,
}

impl EventSystem {
    pub fn new() -> (r: EventSystem)
        ensures
            r.current_hover is None,
    {
        EventSystem { current_hover: None }
    }

    pub fn get_hovered_node(&self) -> (r: Option<NodeId>)
        ensures
            r == self.current_hover,
    {
        self.current_hover
    }

    /// Process a pointer move: hit-test the tree, update the hover state,
    /// and return the events the transition implies — nothing when the
    /// hovered node is unchanged, otherwise a leave for the previous node
    /// (when there was one) followed by an enter for the new one.
    pub fn process_mouse_move(&mut self, dom: &Dom, x: u64, y: u64) -> (evs: Vec<MouseEvent>)
        requires
            dom.wf(),
        ensures
            final(self).current_hover is Some,
            ({
                let target = final(self).current_hover->0;
                &&& (target == dom.root || ((target.idx as int) < dom.size()
                    && dom.layout@[target.idx as int] is Some && crate::dom::box_contains(
                    dom.layout@[target.idx as int]->0,
                    x as int,
                    y as int,
                )))
                &&& (old(self).current_hover == Some(target) ==> evs@.len() == 0)
                &&& (old(self).current_hover != Some(target) && old(self).current_hover is Some
                    ==> evs@.len() == 2 && evs@[0] == (MouseEvent {
                    event_type: MouseEventType::Leave,
                    node_id: old(self).current_hover->0,
                    x,
                    y,
                }) && evs@[1] == (MouseEvent {
                    event_type: MouseEventType::Enter,
                    node_id: target,
                    x,
                    y,
                }))
                &&& (old(self).current_hover is None ==> evs@.len() == 1 && evs@[0] == (
                MouseEvent { event_type: MouseEventType::Enter, node_id: target, x, y }))
            }),
    {
        let mut events: Vec<MouseEvent> = Vec::new();
        let found = dom.find_node_at_position(x, y);
        let target = match found {
            Some(t) => t,
            None => dom.root,
        };
        let same = match &self.current_hover {
            Some(prev) => prev.idx == target.idx,
            None => false,
        };
        if !same {
            if let Some(prev) = self.current_hover {
                events.push(
                    MouseEvent { event_type: MouseEventType::Leave, node_id: prev, x, y },
                );
            }
            events.push(MouseEvent { event_type: MouseEventType::Enter, node_id: target, x, y });
            self.current_hover = Some(target);
        }
        events
    }
}

} // verus!
