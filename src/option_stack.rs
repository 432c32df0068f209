//! A stack of `i32` whose links are optional, exclusively owned boxes.
use vstd::prelude::*;

verus! {

type Link = Option<Box<Node>>;

struct Node {
    elem: i32,
    next: Link,
}

/// The elements reachable from `link`, nearest first.
spec fn link_seq(link: Link) -> Seq<i32>
    decreases link,
{
    match link {
        None => Seq::empty(),
        Some(node) => seq![node.elem] + link_seq(node.next),
    }
}

/// A last-in, first-out stack of `i32`.
pub struct List {
    head: Link,
}

impl View for List {
    type V = Seq<i32>;

    /// The elements from top to bottom.
    closed spec fn view(&self) -> Seq<i32> {
        link_seq(self.head)
    }
}

impl List {
    pub fn new() -> (l: Self)
        ensures
            l@ == Seq::<i32>::empty(),
    {
        List { head: None }
    }

    /// Puts `elem` on top.
    pub fn push(&mut self, elem: i32)
        ensures
            final(self)@ == seq![elem] + old(self)@,
    {
        let node = Box::new(Node { elem: elem, next: self.head.take() });
        self.head = Some(node);
    }

    /// Takes the top element off, or reports `None` on an empty stack.
    pub fn pop(&mut self) -> (r: Option<i32>)
        ensures
            old(self)@.len() == 0 ==> r is None && final(self)@ == old(self)@,
            old(self)@.len() > 0 ==> r == Some(old(self)@[0]) && final(self)@
                == old(self)@.drop_first(),
    {
        match self.head.take() {
            None => None,
            Some(node) => {
                let node = *node;
                self.head = node.next;
                assert(self@ =~= old(self)@.drop_first());
                Some(node.elem)
            },
        }
    }
}

/// Releases the nodes one at a time, so that a long stack does not tear
/// itself down by nested destructor calls.
impl Drop for List {
    fn drop(&mut self)
        opens_invariants none
        no_unwind
    {
        let mut link: Link = None;
        std::mem::swap(&mut self.head, &mut link);
        loop
            decreases link_seq(link).len(),
        {
            match link {
                None => break,
                Some(node) => {
                    let node = *node;
                    link = node.next;
                },
            }
        }
    }
}

} // verus!
