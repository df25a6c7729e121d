use vstd::prelude::*;

verus! {

/// One cell of a singly linked chain: an element, and an optional handle
/// (arena index) of the successor node. A chain is kept acyclic by its
/// owning container, not by the node itself.
#[derive(Clone, Copy, Debug, PartialEq)]
pub struct Node<T> {
    pub element: T,
    pub next: Option<usize>,
}

impl<T> Node<T> {
    /// The handle of the successor node, `None` at the end of a chain.
    pub open spec fn next_link(self) -> Option<usize> {
        self.next
    }

    /// Creates a node holding `element`, with no successor.
    pub fn new(element: T) -> (n: Node<T>)
        ensures
            n.element == element,
            n.next_link() is None,
    {
        Node { element, next: None }
    }

    /// Links this node to the node at handle `next`.
    pub fn set_next(&mut self, next: usize)
        ensures
            final(self).element == old(self).element,
            final(self).next_link() == Some(next),
    {
        self.next = Some(next);
    }

    /// Returns the handle of the successor node; does not mutate.
    pub fn get_next(&self) -> (r: Option<usize>)
        ensures
            r == self.next_link(),
    {
        self.next
    }

    /// Replaces the successor link outright, accepting `None` to terminate
    /// the chain. No validation: the caller maintains chain acyclicity.
    pub fn set_next_node(&mut self, node: Option<usize>)
        ensures
            final(self).element == old(self).element,
            final(self).next_link() == node,
    {
        self.next = node;
    }
}

} // verus!
