//! A generic stack over exclusively owned, optional links, with peeking and
//! three ways to walk it: by value, by shared reference, by mutable reference.
use vstd::prelude::*;

verus! {

type Link<T> = Option<Box<Node<T>>>;

/// One element and the link to the rest.
pub struct Node<T> {
    elem: T,
    next: Link<T>,
}

/// The elements reachable from `link`, nearest first.
spec fn link_seq<T>(link: Link<T>) -> Seq<T>
    decreases link,
{
    match link {
        None => Seq::empty(),
        Some(node) => seq![node.elem] + link_seq(node.next),
    }
}

/// The elements of the chain that starts at `node`, nearest first.
pub closed spec fn node_seq<T>(node: Node<T>) -> Seq<T> {
    seq![node.elem] + link_seq(node.next)
}

/// A last-in, first-out stack.
pub struct List<T> {
    head: Link<T>,
}

impl<T> View for List<T> {
    type V = Seq<T>;

    /// The elements from top to bottom.
    closed spec fn view(&self) -> Seq<T> {
        link_seq(self.head)
    }
}

impl<T> List<T> {
    pub fn new() -> (l: Self)
        ensures
            l@ == Seq::<T>::empty(),
    {
        List { head: None }
    }

    /// Puts `elem` on top.
    pub fn push(&mut self, elem: T)
        ensures
            final(self)@ == seq![elem] + old(self)@,
    {
        let node = Box::new(Node { elem: elem, next: self.head.take() });
        self.head = Some(node);
    }

    /// Takes the top element off, or reports `None` on an empty stack.
    pub fn pop(&mut self) -> (r: Option<T>)
        ensures
            old(self)@.len() == 0 ==> r is None && final(self)@ == old(self)@,
            old(self)@.len() > 0 ==> r == Some(old(self)@[0]) && final(self)@
                == old(self)@.drop_first(),
    {
        match self.head.take() {
            None => None,
            Some(node) => {
                let node = *node;
                self.head = node.next;
                assert(self@ =~= old(self)@.drop_first());
                Some(node.elem)
            },
        }
    }

    /// The top element, left in place.
    pub fn peek(&self) -> (r: Option<&T>)
        ensures
            self@.len() == 0 ==> r is None,
            self@.len() > 0 ==> r == Some(&self@[0]),
    {
        match &self.head {
            None => None,
            Some(node) => Some(&node.elem),
        }
    }

    /// The top element, left in place and open to writing: what is written
    /// through the returned reference becomes the new top.
    pub fn peek_mut(&mut self) -> (r: Option<&mut T>)
        ensures
            old(self)@.len() == 0 ==> r is None && final(self)@ == old(self)@,
            old(self)@.len() > 0 ==> r is Some && *r.unwrap() == old(self)@[0] && final(self)@
                == old(self)@.update(0, *final(r.unwrap())),
    {
        match &mut self.head {
            None => None,
            Some(node) => Some(&mut node.elem),
        }
    }
}

/// Releases the nodes one at a time, so that a long stack does not tear
/// itself down by nested destructor calls.
impl<T> Drop for List<T> {
    fn drop(&mut self)
        opens_invariants none
        no_unwind
    {
        let mut link: Link<T> = None;
        std::mem::swap(&mut self.head, &mut link);
        loop
            decreases link_seq(link).len(),
        {
            match link {
                None => break,
                Some(node) => {
                    let node = *node;
                    link = node.next;
                },
            }
        }
    }
}

/// Walks a stack by value, top first, emptying it.
pub struct IntoIter<T>(List<T>);

impl<T> View for IntoIter<T> {
    type V = Seq<T>;

    /// What is still to come, in order.
    closed spec fn view(&self) -> Seq<T> {
        self.0@
    }
}

impl<T> List<T> {
    pub fn into_iter(self) -> (it: IntoIter<T>)
        ensures
            it@ == self@,
    {
        IntoIter(self)
    }
}

impl<T> IntoIter<T> {
    /// The next element, or `None` for good once all have been handed out.
    pub fn next(&mut self) -> (r: Option<T>)
        ensures
            old(self)@.len() == 0 ==> r is None && final(self)@ == old(self)@,
            old(self)@.len() > 0 ==> r == Some(old(self)@[0]) && final(self)@
                == old(self)@.drop_first(),
    {
        self.0.pop()
    }
}

/// Walks a stack by shared reference, top first.
pub struct Iter<'a, T> {
    next: Option<&'a Node<T>>,
}

impl<'a, T> View for Iter<'a, T> {
    type V = Seq<T>;

    /// What is still to come, in order.
    closed spec fn view(&self) -> Seq<T> {
        match self.next {
            None => Seq::empty(),
            Some(node) => seq![node.elem] + link_seq(node.next),
        }
    }
}

impl<T> List<T> {
    pub fn iter(&self) -> (it: Iter<'_, T>)
        ensures
            it@ == self@,
    {
        match &self.head {
            None => Iter { next: None },
            Some(node) => Iter { next: Some(&**node) },
        }
    }
}

impl<'a, T> Iter<'a, T> {
    /// The next element, or `None` for good once all have been handed out.
    pub fn next(&mut self) -> (r: Option<&'a T>)
        ensures
            old(self)@.len() == 0 ==> r is None && final(self)@ == old(self)@,
            old(self)@.len() > 0 ==> r == Some(&old(self)@[0]) && final(self)@
                == old(self)@.drop_first(),
    {
        match self.next {
            None => None,
            Some(node) => {
                match &node.next {
                    None => {
                        self.next = None;
                    },
                    Some(after) => {
                        self.next = Some(&**after);
                    },
                }
                assert(self@ =~= old(self)@.drop_first());
                Some(&node.elem)
            },
        }
    }
}

/// Walks a stack by mutable reference, top first. Each element is handed out
/// once; what is written through it stays in the stack.
pub struct IterMut<'a, T> {
    next: Option<&'a mut Node<T>>,
}

impl<'a, T> IterMut<'a, T> {
    /// The node the walk stands on, if any.
    pub closed spec fn cursor(&self) -> Option<&'a mut Node<T>> {
        self.next
    }
}

impl<'a, T> View for IterMut<'a, T> {
    type V = Seq<T>;

    /// What is still to come, in order, as it stands now.
    closed spec fn view(&self) -> Seq<T> {
        match self.next {
            None => Seq::empty(),
            Some(node) => node_seq(*node),
        }
    }
}

impl<T> List<T> {
    pub fn iter_mut(&mut self) -> (it: IterMut<'_, T>)
        ensures
            it@ == old(self)@,
            it.cursor() is None ==> final(self)@ == Seq::<T>::empty(),
            it.cursor() is Some ==> final(self)@ == node_seq(*final(it.cursor().unwrap())),
    {
        match &mut self.head {
            None => IterMut { next: None },
            Some(node) => IterMut { next: Some(&mut **node) },
        }
    }
}

impl<'a, T> IterMut<'a, T> {
    /// The next element, or `None` for good once all have been handed out.
    pub fn next(&mut self) -> (r: Option<&'a mut T>)
        ensures
            old(self)@.len() == 0 ==> r is None && final(self)@ == old(self)@
                && final(self).cursor() is None,
            old(self)@.len() > 0 ==> {
                &&& r is Some
                &&& *r.unwrap() == old(self)@[0]
                &&& final(self)@ == old(self)@.drop_first()
                &&& node_seq(*final(old(self).cursor().unwrap())) == seq![*final(r.unwrap())]
                    + match final(self).cursor() {
                    None => Seq::<T>::empty(),
                    Some(c) => node_seq(*final(c)),
                }
            },
    {
        match self.next.take() {
            None => None,
            Some(node) => {
                match &mut node.next {
                    None => {
                        self.next = None;
                    },
                    Some(after) => {
                        self.next = Some(&mut **after);
                    },
                }
                Some(&mut node.elem)
            },
        }
    }
}

/// The stack that pushing each element of `pushed`, first to last, leaves on
/// top of a stack holding `s` (each step as `push` states it).
pub open spec fn after_pushes<T>(s: Seq<T>, pushed: Seq<T>) -> Seq<T>
    decreases pushed.len(),
{
    if pushed.len() == 0 {
        s
    } else {
        seq![pushed.last()] + after_pushes(s, pushed.drop_last())
    }
}

/// What `n` calls in a row return from a stack holding `s` (`pop`) or from a
/// walk with `s` still to come (`next` of any of the three walks): each call
/// hands out the first element and drops it, or reports `None` when nothing
/// is left.
pub open spec fn popped<T>(s: Seq<T>, n: nat) -> Seq<Option<T>>
    decreases n,
{
    if n == 0 {
        Seq::empty()
    } else if s.len() == 0 {
        seq![None] + popped(s, (n - 1) as nat)
    } else {
        seq![Some(s[0])] + popped(s.drop_first(), (n - 1) as nat)
    }
}

proof fn lemma_after_pushes<T>(s: Seq<T>, pushed: Seq<T>)
    ensures
        after_pushes(s, pushed) == pushed.reverse() + s,
    decreases pushed.len(),
{
    if pushed.len() > 0 {
        lemma_after_pushes(s, pushed.drop_last());
        assert(seq![pushed.last()] + (pushed.drop_last().reverse() + s) =~= pushed.reverse() + s);
    }
}

/// A walk, or a run of pops, hands out the elements in order and then
/// reports `None` at every call after the last: once exhausted, it stays so.
pub proof fn lemma_walk_then_exhausted<T>(s: Seq<T>, extra: nat)
    ensures
        popped(s, s.len() + extra) == s.map_values(|x: T| Some(x)) + Seq::new(
            extra,
            |i: int| None::<T>,
        ),
    decreases s.len() + extra,
{
    if s.len() == 0 {
        if extra > 0 {
            lemma_walk_then_exhausted(s, (extra - 1) as nat);
        }
        assert(popped(s, s.len() + extra) =~= s.map_values(|x: T| Some(x)) + Seq::new(
            extra,
            |i: int| None::<T>,
        ));
    } else {
        lemma_walk_then_exhausted(s.drop_first(), extra);
        assert(popped(s, s.len() + extra) =~= s.map_values(|x: T| Some(x)) + Seq::new(
            extra,
            |i: int| None::<T>,
        ));
    }
}

/// Last in, first out: after pushing `pushed` onto an empty stack, as many
/// pops return the pushed elements last to first, and one more reports that
/// nothing is left.
pub proof fn lemma_last_in_first_out<T>(pushed: Seq<T>)
    ensures
        popped(after_pushes(Seq::<T>::empty(), pushed), pushed.len() + 1)
            == pushed.reverse().map_values(|x: T| Some(x)) + seq![None::<T>],
{
    lemma_after_pushes(Seq::<T>::empty(), pushed);
    assert(pushed.reverse() + Seq::<T>::empty() =~= pushed.reverse());
    lemma_walk_then_exhausted(pushed.reverse(), 1);
    assert(Seq::new(1, |i: int| None::<T>) =~= seq![None::<T>]);
}

/// What is written through `peek_mut` is what `peek` and `pop` see next, and
/// the elements below it stay as they were.
pub proof fn lemma_written_top_is_seen<T>(s: Seq<T>, written: T)
    requires
        s.len() > 0,
    ensures
        s.update(0, written)[0] == written,
        s.update(0, written).drop_first() == s.drop_first(),
        popped(s.update(0, written), 1) == seq![Some(written)],
{
    assert(s.update(0, written).drop_first() =~= s.drop_first());
    assert(popped(s.update(0, written), 1) == seq![Some(written)] + popped(
        s.update(0, written).drop_first(),
        0,
    ));
    assert(popped(s.update(0, written), 1) =~= seq![Some(written)]);
}

} // verus!
