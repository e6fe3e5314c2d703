//! Node content: elements and text runs, and the stable node handle.

use vstd::prelude::*;

verus! {

/// A stable handle into the arena-backed node store. Slots are never reused:
/// a removed node's handle stays invalid forever.
#[derive(Clone, Copy, Debug, PartialEq, Eq, Structural, Hash)]
pub struct NodeId {
    pub idx: usize,
}

/// An element: a container with no intrinsic size.
#[derive(Clone, Debug)]
pub struct Element {
    pub name: Option<String>,
}

impl Element {
    pub fn new() -> (e: Element)
        ensures
            e.name is None,
    {
        Element { name: None }
    }

    pub fn with_name(self, name: &str) -> (e: Element)
        ensures
            e.name is Some,
            e.name->0@ == name@,
    {
        Element { name: Some(name.to_owned()) }
    }
}

/// A text run: an immutable string styled by its parent element.
#[derive(Clone, Debug)]
pub struct Text {
    pub content: String,
}

impl Text {
    pub fn new(content: String) -> (t: Text)
        ensures
            t.content == content,
    {
        Text { content }
    }
}

/// What a node holds: a container element or a text run.
#[derive(Clone, Debug)]
pub enum NodeContent {
    Element(Element),
    Text(Text),
}

/// A node: its content and a dirty mark for callers that track invalidation.
#[derive(Clone, Debug)]
pub struct Node {
    pub content: NodeContent,
    pub dirty: bool,
}

impl Node {
    pub fn new_element(element: Element) -> (n: Node)
        ensures
            n.content == NodeContent::Element(element),
            n.dirty,
    {
        Node { content: NodeContent::Element(element), dirty: true }
    }

    pub fn new_text(text: Text) -> (n: Node)
        ensures
            n.content == NodeContent::Text(text),
            n.dirty,
    {
        Node { content: NodeContent::Text(text), dirty: true }
    }
}

} // verus!
