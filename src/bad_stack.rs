//! A stack of `i32` whose links are a two-variant enum: either nothing, or an
//! exclusively owned next node.
use vstd::prelude::*;

verus! {

/// What comes after a node (or at the top of the stack).
#[derive(Debug)]
enum Link {
    Empty,
    More(Box<Node>),
}

/// One element and the link to the rest.
#[derive(Debug)]
struct Node {
    elem: i32,
    next: Link,
}

impl Link {
    /// The elements reachable from this link, nearest first.
    spec fn seq(self) -> Seq<i32>
        decreases self,
    {
        match self {
            Link::Empty => Seq::empty(),
            Link::More(node) => seq![node.elem] + node.next.seq(),
        }
    }
}

/// A last-in, first-out stack of `i32`.
#[derive(Debug)]
pub struct List {
    head: Link,
}

impl View for List {
    type V = Seq<i32>;

    /// The elements from top to bottom.
    closed spec fn view(&self) -> Seq<i32> {
        self.head.seq()
    }
}

impl List {
    pub fn new() -> (l: Self)
        ensures
            l@ == Seq::<i32>::empty(),
    {
        List { head: Link::Empty }
    }

    /// Puts `elem` on top.
    pub fn push(&mut self, elem: i32)
        ensures
            final(self)@ == seq![elem] + old(self)@,
    {
        let mut rest = Link::Empty;
        std::mem::swap(&mut self.head, &mut rest);
        let node = Box::new(Node { elem: elem, next: rest });
        self.head = Link::More(node);
    }

    /// Takes the top element off, or reports `None` on an empty stack.
    pub fn pop(&mut self) -> (r: Option<i32>)
        ensures
            old(self)@.len() == 0 ==> r is None && final(self)@ == old(self)@,
            old(self)@.len() > 0 ==> r == Some(old(self)@[0]) && final(self)@
                == old(self)@.drop_first(),
    {
        let mut top = Link::Empty;
        std::mem::swap(&mut self.head, &mut top);
        match top {
            Link::Empty => None,
            Link::More(node) => {
                let node = *node;
                self.head = node.next;
                assert(seq![node.elem] + self@ =~= old(self)@);
                assert(self@ =~= old(self)@.drop_first());
                Some(node.elem)
            },
        }
    }
}

/// Releases the nodes one at a time, so that a long stack does not tear
/// itself down by nested destructor calls.
impl Drop for List {
    fn drop(&mut self)
        opens_invariants none
        no_unwind
    {
        let mut link = Link::Empty;
        std::mem::swap(&mut self.head, &mut link);
        loop
            decreases link.seq().len(),
        {
            match link {
                Link::Empty => break,
                Link::More(node) => {
                    let node = *node;
                    link = node.next;
                },
            }
        }
    }
}

} // verus!
