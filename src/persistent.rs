//! An immutable list whose nodes are shared by reference count: appending
//! and taking the tail build new lists over the same nodes, never copying or
//! changing one.
use std::rc::Rc;
use vstd::prelude::*;

verus! {

type Link<T> = Option<Rc<Node<T>>>;

/// One element and the shared link to the rest.
pub struct Node<T> {
    elem: T,
    next: Link<T>,
}

/// The elements reachable from `link`, nearest first.
spec fn link_seq<T>(link: Link<T>) -> Seq<T>
    decreases link,
{
    match link {
        None => Seq::empty(),
        Some(node) => seq![node.elem] + link_seq(node.next),
    }
}

/// Relies on `Rc::clone`: another handle to the same node, counted as one
/// more owner; the node itself is neither copied nor changed.
#[verifier::external_body]
fn share<T>(node: &Rc<Node<T>>) -> (r: Rc<Node<T>>)
    ensures
        r == *node,
{
    Rc::clone(node)
}

/// Relies on `Rc::try_unwrap`: the node itself when this handle was its only
/// owner, else the handle back, unchanged. It does not panic.
#[verifier::external_body]
fn try_reclaim<T>(node: Rc<Node<T>>) -> (r: Result<Node<T>, Rc<Node<T>>>)
    ensures
        match r {
            Ok(n) => n == *node,
            Err(h) => h == node,
        },
    opens_invariants none
    no_unwind
{
    Rc::try_unwrap(node)
}

/// A persistent list: every operation leaves the lists it reads unchanged.
pub struct List<T> {
    head: Link<T>,
}

impl<T> View for List<T> {
    type V = Seq<T>;

    /// The elements from head to end.
    closed spec fn view(&self) -> Seq<T> {
        link_seq(self.head)
    }
}

impl<T> List<T> {
    pub fn new() -> (l: Self)
        ensures
            l@ == Seq::<T>::empty(),
    {
        List { head: None }
    }

    /// A new list with `elem` in front of this one's nodes, which it shares.
    pub fn append(&mut self, elem: T) -> (r: List<T>)
        ensures
            r@ == seq![elem] + old(self)@,
            final(self)@ == old(self)@,
    {
        let next = match &self.head {
            None => None,
            Some(node) => Some(share(node)),
        };
        List { head: Some(Rc::new(Node { elem: elem, next: next })) }
    }

    /// A new list over this one's nodes but the first; empty if this one is.
    pub fn tail(&self) -> (r: List<T>)
        ensures
            self@.len() == 0 ==> r@ == Seq::<T>::empty(),
            self@.len() > 0 ==> r@ == self@.drop_first(),
    {
        match &self.head {
            None => List { head: None },
            Some(node) => {
                let next = match &node.next {
                    None => None,
                    Some(after) => Some(share(after)),
                };
                let r = List { head: next };
                assert(r@ =~= self@.drop_first());
                r
            },
        }
    }

    /// The first element, if any.
    pub fn head(&self) -> (r: Option<&T>)
        ensures
            self@.len() == 0 ==> r is None,
            self@.len() > 0 ==> r == Some(&self@[0]),
    {
        match &self.head {
            None => None,
            Some(node) => Some(&node.elem),
        }
    }
}

/// Releases the nodes that this list alone owns, one at a time, and stops at
/// the first node that another list still shares.
impl<T> Drop for List<T> {
    fn drop(&mut self)
        opens_invariants none
        no_unwind
    {
        let mut link: Link<T> = None;
        std::mem::swap(&mut self.head, &mut link);
        loop
            decreases link_seq(link).len(),
        {
            match link {
                None => break,
                Some(node) => {
                    match try_reclaim(node) {
                        Ok(node) => {
                            link = node.next;
                        },
                        Err(_) => break,
                    }
                },
            }
        }
    }
}

/// Walks a list by shared reference, head first.
pub struct Iter<'a, T> {
    next: Option<&'a Node<T>>,
}

impl<'a, T> View for Iter<'a, T> {
    type V = Seq<T>;

    /// What is still to come, in order.
    closed spec fn view(&self) -> Seq<T> {
        match self.next {
            None => Seq::empty(),
            Some(node) => seq![node.elem] + link_seq(node.next),
        }
    }
}

impl<T> List<T> {
    pub fn iter(&self) -> (it: Iter<'_, T>)
        ensures
            it@ == self@,
    {
        match &self.head {
            None => Iter { next: None },
            Some(node) => Iter { next: Some(&**node) },
        }
    }
}

impl<'a, T> Iter<'a, T> {
    /// The next element, or `None` for good once all have been handed out.
    pub fn next(&mut self) -> (r: Option<&'a T>)
        ensures
            old(self)@.len() == 0 ==> r is None && final(self)@ == old(self)@,
            old(self)@.len() > 0 ==> r == Some(&old(self)@[0]) && final(self)@
                == old(self)@.drop_first(),
    {
        match self.next {
            None => None,
            Some(node) => {
                match &node.next {
                    None => {
                        self.next = None;
                    },
                    Some(after) => {
                        self.next = Some(&**after);
                    },
                }
                assert(self@ =~= old(self)@.drop_first());
                Some(&node.elem)
            },
        }
    }
}

/// Taking the tail of a list made by `append` gives back the list that was
/// appended to, and its head is the appended element: sharing loses and
/// changes nothing.
pub proof fn lemma_tail_of_append<T>(l: Seq<T>, elem: T)
    ensures
        (seq![elem] + l).len() > 0,
        (seq![elem] + l)[0] == elem,
        (seq![elem] + l).drop_first() == l,
{
    assert((seq![elem] + l).drop_first() =~= l);
}

} // verus!
