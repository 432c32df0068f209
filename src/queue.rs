//! A first-in, first-out list: elements are pushed at the tail in constant
//! time, through a cached handle on the last node, and popped at the head.
//! The nodes live in an arena; a link is the index of the next node, and the
//! cached tail is the index of the last one, present exactly when the list is
//! not empty. Once popped slots make up half the arena, the live nodes are
//! moved down to its start.
use crate::stack::{lemma_walk_then_exhausted, popped};
use vstd::prelude::*;

verus! {

/// One slot of the arena: an element (taken out once popped) and the index of
/// the next node.
pub struct Node<T> {
    elem: Option<T>,
    next: Option<usize>,
}

/// The elements of `nodes` from `start` on.
pub closed spec fn elems_from<T>(nodes: Seq<Node<T>>, start: int) -> Seq<T> {
    Seq::new((nodes.len() - start) as nat, |i: int| nodes[start + i].elem->0)
}

/// The nodes from `start` to the end of the arena are linked in order, the
/// last to nothing, and each holds an element.
spec fn chained<T>(nodes: Seq<Node<T>>, start: int) -> bool {
    &&& 0 <= start < nodes.len()
    &&& forall|i: int|
        start <= i < nodes.len() - 1 ==> (#[trigger] nodes[i].next) is Some && nodes[i].next->0
            == i + 1
    &&& nodes.last().next is None
    &&& forall|i: int| start <= i < nodes.len() ==> (#[trigger] nodes[i]).elem is Some
}

/// Moves the live nodes, from `start` on, out of `nodes` into a new arena
/// where they stand from the first slot on, linked in the same order.
fn compact<T>(nodes: &mut Vec<Node<T>>, start: usize) -> (fresh: Vec<Node<T>>)
    requires
        chained(old(nodes)@, start as int),
    ensures
        chained(fresh@, 0),
        elems_from(fresh@, 0) == elems_from(old(nodes)@, start as int),
{
    let ghost old_nodes = nodes@;
    let len = nodes.len();
    let mut fresh: Vec<Node<T>> = Vec::new();
    let mut i: usize = start;
    while i < len
        invariant
            start <= i <= len,
            len == old_nodes.len(),
            len == nodes@.len(),
            chained(old_nodes, start as int),
            fresh@.len() == i - start,
            forall|j: int| i <= j < len ==> #[trigger] nodes@[j] == old_nodes[j],
            forall|k: int|
                0 <= k < fresh@.len() ==> (#[trigger] fresh@[k]).elem == old_nodes[start + k].elem,
            forall|k: int|
                0 <= k < fresh@.len() ==> (#[trigger] fresh@[k]).next == if start + k + 1 < len {
                    Some((k + 1) as usize)
                } else {
                    None::<usize>
                },
        decreases len - i,
    {
        let elem = nodes[i].elem.take();
        let next = if i + 1 < len {
            Some(i + 1 - start)
        } else {
            None
        };
        fresh.push(Node { elem: elem, next: next });
        i = i + 1;
    }
    assert(elems_from(fresh@, 0) =~= elems_from(old_nodes, start as int));
    fresh
}

/// A first-in, first-out list.
pub struct List<T> {
    nodes: Vec<Node<T>>,
    head: Option<usize>,
    tail: Option<usize>,
}

impl<T> View for List<T> {
    type V = Seq<T>;

    /// The elements from head to tail.
    closed spec fn view(&self) -> Seq<T> {
        match self.head {
            None => Seq::empty(),
            Some(h) => elems_from(self.nodes@, h as int),
        }
    }
}

impl<T> List<T> {
    /// The head leads through the arena to the tail; the cached tail is the
    /// last node, and is absent exactly when the list is empty (and the arena
    /// then holds nothing).
    pub closed spec fn wf(&self) -> bool {
        match self.head {
            None => self.tail is None && self.nodes@.len() == 0,
            Some(h) => {
                &&& chained(self.nodes@, h as int)
                &&& self.tail == Some((self.nodes@.len() - 1) as usize)
            },
        }
    }

    pub fn new() -> (l: Self)
        ensures
            l.wf(),
            l@ == Seq::<T>::empty(),
    {
        List { nodes: Vec::new(), head: None, tail: None }
    }

    /// Puts `elem` at the tail.
    pub fn push(&mut self, elem: T)
        requires
            old(self).wf(),
        ensures
            final(self).wf(),
            final(self)@ == old(self)@.push(elem),
    {
        let idx = self.nodes.len();
        self.nodes.push(Node { elem: Some(elem), next: None });
        match self.tail {
            Some(t) => {
                self.nodes[t].next = Some(idx);
            },
            None => {
                self.head = Some(idx);
            },
        }
        self.tail = Some(idx);
        assert(self@ =~= old(self)@.push(elem));
    }

    /// Takes the head element off, or reports `None` on an empty list.
    pub fn pop(&mut self) -> (r: Option<T>)
        requires
            old(self).wf(),
        ensures
            final(self).wf(),
            old(self)@.len() == 0 ==> r is None && final(self)@ == old(self)@,
            old(self)@.len() > 0 ==> r == Some(old(self)@[0]) && final(self)@
                == old(self)@.drop_first(),
    {
        match self.head {
            None => None,
            Some(h) => {
                let ghost before = self.nodes@;
                let elem = self.nodes[h].elem.take();
                let next = self.nodes[h].next;
                assert(h + 1 < before.len() ==> before[h as int].next->0 == h + 1);
                self.head = next;
                if next.is_none() {
                    self.tail = None;
                    self.nodes.clear();
                } else {
                    assert(h + 1 < self.nodes.len());
                    assert(elems_from(self.nodes@, h + 1) =~= elems_from(
                        before,
                        h as int,
                    ).drop_first());
                    if h >= self.nodes.len() / 2 {
                        let fresh = compact(&mut self.nodes, h + 1);
                        self.head = Some(0);
                        self.tail = Some(fresh.len() - 1);
                        self.nodes = fresh;
                    }
                }
                assert(self@ =~= old(self)@.drop_first());
                elem
            },
        }
    }
}

/// Walks a list by value, head first, emptying it.
pub struct IntoIter<T>(List<T>);

impl<T> View for IntoIter<T> {
    type V = Seq<T>;

    /// What is still to come, in order.
    closed spec fn view(&self) -> Seq<T> {
        self.0@
    }
}

impl<T> IntoIter<T> {
    pub closed spec fn wf(&self) -> bool {
        self.0.wf()
    }

    /// The next element, or `None` for good once all have been handed out.
    pub fn next(&mut self) -> (r: Option<T>)
        requires
            old(self).wf(),
        ensures
            final(self).wf(),
            old(self)@.len() == 0 ==> r is None && final(self)@ == old(self)@,
            old(self)@.len() > 0 ==> r == Some(old(self)@[0]) && final(self)@
                == old(self)@.drop_first(),
    {
        self.0.pop()
    }
}

/// Walks a list by shared reference, head first, along the links.
pub struct Iter<'a, T> {
    nodes: &'a Vec<Node<T>>,
    next: Option<usize>,
}

impl<'a, T> View for Iter<'a, T> {
    type V = Seq<T>;

    /// What is still to come, in order.
    closed spec fn view(&self) -> Seq<T> {
        match self.next {
            None => Seq::empty(),
            Some(i) => elems_from(self.nodes@, i as int),
        }
    }
}

impl<'a, T> Iter<'a, T> {
    /// The node the walk stands on leads to the end of the arena.
    pub closed spec fn wf(&self) -> bool {
        match self.next {
            None => true,
            Some(i) => chained(self.nodes@, i as int),
        }
    }

    /// The next element, or `None` for good once all have been handed out.
    pub fn next(&mut self) -> (r: Option<&'a T>)
        requires
            old(self).wf(),
        ensures
            final(self).wf(),
            old(self)@.len() == 0 ==> r is None && final(self)@ == old(self)@,
            old(self)@.len() > 0 ==> r == Some(&old(self)@[0]) && final(self)@
                == old(self)@.drop_first(),
    {
        match self.next {
            None => None,
            Some(i) => {
                let nodes: &'a Vec<Node<T>> = self.nodes;
                let after = nodes[i].next;
                assert(i + 1 < nodes@.len() ==> nodes@[i as int].next->0 == i + 1);
                if after.is_some() {
                    assert(i + 1 < nodes.len());
                    assert(elems_from(nodes@, i + 1) =~= elems_from(nodes@, i as int).drop_first());
                }
                self.next = after;
                match &nodes[i].elem {
                    Some(e) => Some(e),
                    None => None,
                }
            },
        }
    }
}

impl<T> List<T> {
    pub fn into_iter(self) -> (it: IntoIter<T>)
        requires
            self.wf(),
        ensures
            it.wf(),
            it@ == self@,
    {
        IntoIter(self)
    }

    pub fn iter(&self) -> (it: Iter<'_, T>)
        requires
            self.wf(),
        ensures
            it.wf(),
            it@ == self@,
    {
        Iter { nodes: &self.nodes, next: self.head }
    }
}

/// Walks a list by mutable reference, head first. Each element is handed out
/// once; what is written through it stays in the list.
pub struct IterMut<'a, T> {
    rest: Option<&'a mut [Node<T>]>,
}

impl<'a, T> IterMut<'a, T> {
    /// The nodes still to be walked.
    pub closed spec fn rest(&self) -> Option<&'a mut [Node<T>]> {
        self.rest
    }

    /// Each node still to be walked holds an element.
    pub closed spec fn wf(&self) -> bool {
        match self.rest {
            None => true,
            Some(s) => forall|i: int| 0 <= i < s@.len() ==> (#[trigger] s@[i]).elem is Some,
        }
    }
}

impl<'a, T> View for IterMut<'a, T> {
    type V = Seq<T>;

    /// What is still to come, in order, as it stands now.
    closed spec fn view(&self) -> Seq<T> {
        match self.rest {
            None => Seq::empty(),
            Some(s) => elems_from(s@, 0),
        }
    }
}

impl<'a, T> IterMut<'a, T> {
    /// The next element, or `None` for good once all have been handed out.
    pub fn next(&mut self) -> (r: Option<&'a mut T>)
        requires
            old(self).wf(),
        ensures
            final(self).wf(),
            old(self)@.len() == 0 ==> r is None && final(self)@ == old(self)@,
            old(self)@.len() > 0 ==> {
                &&& r is Some
                &&& *r.unwrap() == old(self)@[0]
                &&& final(self)@ == old(self)@.drop_first()
                &&& elems_from(final(old(self).rest().unwrap())@, 0) == seq![*final(r.unwrap())]
                    + elems_from(final(final(self).rest().unwrap())@, 0)
            },
    {
        match self.rest.take() {
            None => None,
            Some(s) => {
                if s.len() == 0 {
                    self.rest = Some(s);
                    None
                } else {
                    let (first, others) = s.split_at_mut(1);
                    self.rest = Some(others);
                    assert(self@ =~= old(self)@.drop_first());
                    match first.first_mut() {
                        Some(node) => node.elem.as_mut(),
                        None => None,
                    }
                }
            },
        }
    }
}

impl<T> List<T> {
    pub fn iter_mut(&mut self) -> (it: IterMut<'_, T>)
        requires
            old(self).wf(),
        ensures
            it.wf(),
            it@ == old(self)@,
            it.rest() is None ==> final(self)@ == old(self)@,
            it.rest() is Some ==> final(self)@ == elems_from(final(it.rest().unwrap())@, 0),
    {
        match self.head {
            None => IterMut { rest: None },
            Some(h) => {
                let all = self.nodes.as_mut_slice();
                let (_done, live) = all.split_at_mut(h);
                let it = IterMut { rest: Some(live) };
                assert(it@ =~= old(self)@);
                it
            },
        }
    }
}

/// The list that pushing each element of `pushed`, first to last, leaves
/// behind a list holding `s` (each step as `push` states it).
pub open spec fn after_pushes<T>(s: Seq<T>, pushed: Seq<T>) -> Seq<T>
    decreases pushed.len(),
{
    if pushed.len() == 0 {
        s
    } else {
        after_pushes(s, pushed.drop_last()).push(pushed.last())
    }
}

proof fn lemma_after_pushes<T>(s: Seq<T>, pushed: Seq<T>)
    ensures
        after_pushes(s, pushed) == s + pushed,
    decreases pushed.len(),
{
    if pushed.len() > 0 {
        lemma_after_pushes(s, pushed.drop_last());
        assert((s + pushed.drop_last()).push(pushed.last()) =~= s + pushed);
    }
}

/// First in, first out: after pushing `pushed` onto an empty list, as many
/// pops return the pushed elements first to last, and one more reports that
/// nothing is left.
pub proof fn lemma_first_in_first_out<T>(pushed: Seq<T>)
    ensures
        popped(after_pushes(Seq::<T>::empty(), pushed), pushed.len() + 1)
            == pushed.map_values(|x: T| Some(x)) + seq![None::<T>],
{
    lemma_after_pushes(Seq::<T>::empty(), pushed);
    assert(Seq::<T>::empty() + pushed =~= pushed);
    lemma_walk_then_exhausted(pushed, 1);
    assert(Seq::new(1, |i: int| None::<T>) =~= seq![None::<T>]);
}

} // verus!
