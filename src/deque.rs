//! A doubly linked list: elements go in and come out at either end, and either
//! end can be read or written in place. The nodes live in an arena; `prev` and
//! `next` are arena indices, kept consistent in both directions. Once the
//! slots of popped nodes outnumber the live ones, the live nodes are moved
//! into a new arena and relinked there.
use vstd::prelude::*;

verus! {

/// One slot of the arena: an element (taken out once popped) and the indices
/// of its neighbours.
struct Node<T> {
    elem: Option<T>,
    prev: Option<usize>,
    next: Option<usize>,
}

impl<T> Node<T> {
    /// A node holding `elem`, linked to nothing.
    fn new(elem: T) -> (n: Self)
        ensures
            n.elem == Some(elem),
            n.prev is None,
            n.next is None,
    {
        Node { elem: Some(elem), prev: None, next: None }
    }
}

/// The node that follows position `i` of `order`, if any.
spec fn after(order: Seq<usize>, i: int) -> Option<usize> {
    if i + 1 < order.len() {
        Some(order[i + 1])
    } else {
        None
    }
}

/// The node that precedes position `i` of `order`, if any.
spec fn before(order: Seq<usize>, i: int) -> Option<usize> {
    if i > 0 {
        Some(order[i - 1])
    } else {
        None
    }
}

/// A list with a front and a back.
pub struct List<T> {
    nodes: Vec<Node<T>>,
    head: Option<usize>,
    tail: Option<usize>,
    /// How many nodes are live.
    len: usize,
    /// The arena indices of the live nodes, front to back.
    order: Ghost<Seq<usize>>,
}

impl<T> View for List<T> {
    type V = Seq<T>;

    /// The elements from front to back.
    closed spec fn view(&self) -> Seq<T> {
        Seq::new(self.order@.len(), |i: int| self.nodes@[self.order@[i] as int].elem->0)
    }
}

impl<T> List<T> {
    /// The live nodes are distinct slots of the arena, each holding an
    /// element, linked forward and backward in list order; head and tail name
    /// the two ends and are absent exactly when the list is empty (and the
    /// arena then holds nothing).
    pub closed spec fn wf(&self) -> bool {
        let order = self.order@;
        let nodes = self.nodes@;
        &&& forall|i: int| 0 <= i < order.len() ==> #[trigger] order[i] < nodes.len()
        &&& forall|i: int, j: int| 0 <= i < j < order.len() ==> order[i] != order[j]
        &&& forall|i: int|
            0 <= i < order.len() ==> {
                let n = #[trigger] nodes[order[i] as int];
                &&& n.elem is Some
                &&& n.next == after(order, i)
                &&& n.prev == before(order, i)
            }
        &&& self.len == order.len()
        &&& order.len() <= nodes.len()
        &&& order.len() == 0 ==> nodes.len() == 0 && self.head is None && self.tail is None
        &&& order.len() > 0 ==> self.head == Some(order[0]) && self.tail == Some(order.last())
    }

    pub fn new() -> (l: Self)
        ensures
            l.wf(),
            l@ == Seq::<T>::empty(),
    {
        let l = List {
            nodes: Vec::new(),
            head: None,
            tail: None,
            len: 0,
            order: Ghost(Seq::empty()),
        };
        assert(l@ =~= Seq::<T>::empty());
        l
    }

    /// Moves the live nodes into a new arena, in list order from the first
    /// slot on, relinked to their new places; the slots of popped nodes are
    /// given back.
    fn compact(&mut self)
        requires
            old(self).wf(),
            old(self).len > 0,
        ensures
            final(self).wf(),
            final(self)@ == old(self)@,
            final(self).nodes@.len() == old(self).len,
    {
        let ghost nodes0 = self.nodes@;
        let ghost order0 = self.order@;
        let len = self.len;
        let mut fresh: Vec<Node<T>> = Vec::new();
        let mut cur = self.head;
        let mut k: usize = 0;
        while k < len
            invariant
                len == order0.len(),
                self.len == len,
                self.nodes@.len() == nodes0.len(),
                0 < len,
                k <= len,
                fresh@.len() == k,
                k < len ==> cur == Some(order0[k as int]),
                forall|i: int| 0 <= i < order0.len() ==> #[trigger] order0[i] < nodes0.len(),
                forall|i: int, j: int| 0 <= i < j < order0.len() ==> order0[i] != order0[j],
                forall|i: int|
                    0 <= i < order0.len() ==> {
                        let n = #[trigger] nodes0[order0[i] as int];
                        &&& n.elem is Some
                        &&& n.next == after(order0, i)
                    },
                forall|j: int|
                    k <= j < len ==> #[trigger] self.nodes@[order0[j] as int]
                        == nodes0[order0[j] as int],
                forall|m: int|
                    0 <= m < k ==> {
                        let n = #[trigger] fresh@[m];
                        &&& n.elem == nodes0[order0[m] as int].elem
                        &&& n.prev == if m > 0 {
                            Some((m - 1) as usize)
                        } else {
                            None::<usize>
                        }
                        &&& n.next == if m + 1 < len {
                            Some((m + 1) as usize)
                        } else {
                            None::<usize>
                        }
                    },
            decreases len - k,
        {
            let i = match cur {
                Some(i) => i,
                None => 0,
            };
            let ghost before_take = self.nodes@;
            assert(self.nodes@[order0[k as int] as int] == nodes0[order0[k as int] as int]);
            let elem = self.nodes[i].elem.take();
            cur = self.nodes[i].next;
            assert(forall|j: int|
                k < j < len ==> order0[j] != order0[k as int]);
            assert(forall|j: int|
                0 <= j < self.nodes@.len() && j != i ==> self.nodes@[j] == before_take[j]);
            let prev = if k == 0 {
                None
            } else {
                Some(k - 1)
            };
            let next = if k + 1 < len {
                Some(k + 1)
            } else {
                None
            };
            fresh.push(Node { elem: elem, prev: prev, next: next });
            k = k + 1;
        }
        self.nodes = fresh;
        self.head = Some(0);
        self.tail = Some(len - 1);
        self.order = Ghost(Seq::new(len as nat, |i: int| i as usize));
        proof {
            let order = self.order@;
            assert forall|i: int| 0 <= i < order.len() implies {
                let n = #[trigger] self.nodes@[order[i] as int];
                &&& n.elem is Some
                &&& n.next == after(order, i)
                &&& n.prev == before(order, i)
            } by {
                assert(order[i] as int == i);
                assert(nodes0[order0[i] as int].elem is Some);
            }
            assert(self@ =~= old(self)@);
        }
    }

    /// Puts `elem` in front: the new node links forward to the old front,
    /// which links back to it; in an empty list it is the back as well.
    pub fn push_front(&mut self, elem: T)
        requires
            old(self).wf(),
        ensures
            final(self).wf(),
            final(self)@ == seq![elem] + old(self)@,
    {
        let ghost nodes0 = self.nodes@;
        let ghost order0 = self.order@;
        let idx = self.nodes.len();
        self.nodes.push(Node::new(elem));
        match self.head {
            Some(h) => {
                self.nodes[h].prev = Some(idx);
                self.nodes[idx].next = Some(h);
            },
            None => {
                self.tail = Some(idx);
            },
        }
        self.head = Some(idx);
        assert(self.len < self.nodes.len());
        self.len = self.len + 1;
        self.order = Ghost(seq![idx] + order0);
        proof {
            let order = self.order@;
            let nodes = self.nodes@;
            assert(forall|i: int| 0 <= i < order0.len() ==> order0[i] != idx);
            assert forall|i: int| 0 <= i < order.len() implies {
                let n = #[trigger] nodes[order[i] as int];
                &&& n.elem is Some
                &&& n.next == after(order, i)
                &&& n.prev == before(order, i)
            } by {
                if i > 0 {
                    assert(order[i] == order0[i - 1]);
                    assert(nodes0[order0[i - 1] as int].next == after(order0, i - 1));
                    assert(nodes0[order0[i - 1] as int].prev == before(order0, i - 1));
                }
            }
            assert(self@ =~= seq![elem] + old(self)@);
        }
    }

    /// Puts `elem` at the back: the new node links back to the old back,
    /// which links forward to it; in an empty list it is the front as well.
    pub fn push_back(&mut self, elem: T)
        requires
            old(self).wf(),
        ensures
            final(self).wf(),
            final(self)@ == old(self)@.push(elem),
    {
        let ghost nodes0 = self.nodes@;
        let ghost order0 = self.order@;
        let idx = self.nodes.len();
        self.nodes.push(Node::new(elem));
        match self.tail {
            Some(t) => {
                self.nodes[t].next = Some(idx);
                self.nodes[idx].prev = Some(t);
            },
            None => {
                self.head = Some(idx);
            },
        }
        self.tail = Some(idx);
        assert(self.len < self.nodes.len());
        self.len = self.len + 1;
        self.order = Ghost(order0.push(idx));
        proof {
            let order = self.order@;
            let nodes = self.nodes@;
            assert(forall|i: int| 0 <= i < order0.len() ==> order0[i] != idx);
            assert forall|i: int| 0 <= i < order.len() implies {
                let n = #[trigger] nodes[order[i] as int];
                &&& n.elem is Some
                &&& n.next == after(order, i)
                &&& n.prev == before(order, i)
            } by {
                if i < order0.len() {
                    assert(order[i] == order0[i]);
                    assert(nodes0[order0[i] as int].next == after(order0, i));
                    assert(nodes0[order0[i] as int].prev == before(order0, i));
                }
            }
            assert(self@ =~= old(self)@.push(elem));
        }
    }

    /// Takes the front element off, or reports `None` on an empty list. The
    /// next node, if any, becomes the front and links back to nothing; else
    /// the list is empty and the back is cleared too.
    pub fn pop_front(&mut self) -> (r: Option<T>)
        requires
            old(self).wf(),
        ensures
            final(self).wf(),
            old(self)@.len() == 0 ==> r is None && final(self)@ == old(self)@,
            old(self)@.len() > 0 ==> r == Some(old(self)@[0]) && final(self)@
                == old(self)@.drop_first(),
    {
        let ghost nodes0 = self.nodes@;
        let ghost order0 = self.order@;
        match self.head {
            None => None,
            Some(h) => {
                assert(nodes0[order0[0] as int].next == after(order0, 0));
                let next = self.nodes[h].next;
                match next {
                    Some(n) => {
                        assert(nodes0[order0[1] as int].prev == before(order0, 1));
                        self.nodes[n].prev = None;
                        self.head = Some(n);
                    },
                    None => {
                        self.head = None;
                        self.tail = None;
                    },
                }
                self.nodes[h].next = None;
                let elem = self.nodes[h].elem.take();
                self.len = self.len - 1;
                self.order = Ghost(order0.drop_first());
                if self.head.is_none() {
                    self.nodes.clear();
                }
                proof {
                    let order = self.order@;
                    let nodes = self.nodes@;
                    assert forall|i: int| 0 <= i < order.len() implies {
                        let n = #[trigger] nodes[order[i] as int];
                        &&& n.elem is Some
                        &&& n.next == after(order, i)
                        &&& n.prev == before(order, i)
                    } by {
                        assert(order[i] == order0[i + 1]);
                        assert(order0[0] != order0[i + 1]);
                        assert(nodes0[order0[i + 1] as int].next == after(order0, i + 1));
                        assert(nodes0[order0[i + 1] as int].prev == before(order0, i + 1));
                    }
                    assert(self@ =~= old(self)@.drop_first());
                }
                if self.len > 0 && self.nodes.len() - self.len > self.len {
                    self.compact();
                }
                elem
            },
        }
    }

    /// Takes the back element off, or reports `None` on an empty list. The
    /// previous node, if any, becomes the back and links forward to nothing;
    /// else the list is empty and the front is cleared too.
    pub fn pop_back(&mut self) -> (r: Option<T>)
        requires
            old(self).wf(),
        ensures
            final(self).wf(),
            old(self)@.len() == 0 ==> r is None && final(self)@ == old(self)@,
            old(self)@.len() > 0 ==> r == Some(old(self)@.last()) && final(self)@
                == old(self)@.drop_last(),
    {
        let ghost nodes0 = self.nodes@;
        let ghost order0 = self.order@;
        let ghost last = order0.len() - 1;
        match self.tail {
            None => None,
            Some(t) => {
                assert(nodes0[order0[last] as int].prev == before(order0, last));
                let prev = self.nodes[t].prev;
                match prev {
                    Some(p) => {
                        assert(nodes0[order0[last - 1] as int].next == after(order0, last - 1));
                        self.nodes[p].next = None;
                        self.tail = Some(p);
                    },
                    None => {
                        self.head = None;
                        self.tail = None;
                    },
                }
                self.nodes[t].prev = None;
                let elem = self.nodes[t].elem.take();
                self.len = self.len - 1;
                self.order = Ghost(order0.drop_last());
                if self.tail.is_none() {
                    self.nodes.clear();
                }
                proof {
                    let order = self.order@;
                    let nodes = self.nodes@;
                    assert forall|i: int| 0 <= i < order.len() implies {
                        let n = #[trigger] nodes[order[i] as int];
                        &&& n.elem is Some
                        &&& n.next == after(order, i)
                        &&& n.prev == before(order, i)
                    } by {
                        assert(order[i] == order0[i]);
                        assert(order0[last] != order0[i]);
                        assert(nodes0[order0[i] as int].next == after(order0, i));
                        assert(nodes0[order0[i] as int].prev == before(order0, i));
                    }
                    assert(self@ =~= old(self)@.drop_last());
                }
                if self.len > 0 && self.nodes.len() - self.len > self.len {
                    self.compact();
                }
                elem
            },
        }
    }

    /// The front element, left in place.
    pub fn peek_front(&self) -> (r: Option<&T>)
        requires
            self.wf(),
        ensures
            self@.len() == 0 ==> r is None,
            self@.len() > 0 ==> r == Some(&self@[0]),
    {
        match self.head {
            None => None,
            Some(h) => {
                assert(self.nodes@[self.order@[0] as int].elem is Some);
                self.nodes[h].elem.as_ref()
            },
        }
    }

    /// The back element, left in place.
    pub fn peek_back(&self) -> (r: Option<&T>)
        requires
            self.wf(),
        ensures
            self@.len() == 0 ==> r is None,
            self@.len() > 0 ==> r == Some(&self@.last()),
    {
        match self.tail {
            None => None,
            Some(t) => {
                assert(self.nodes@[self.order@.last() as int].elem is Some);
                self.nodes[t].elem.as_ref()
            },
        }
    }

    /// The front element, left in place and open to writing.
    pub fn peek_front_mut(&mut self) -> (r: Option<&mut T>)
        requires
            old(self).wf(),
        ensures
            final(self).wf(),
            old(self)@.len() == 0 ==> r is None && final(self)@ == old(self)@,
            old(self)@.len() > 0 ==> r is Some && *r.unwrap() == old(self)@[0] && final(self)@
                == old(self)@.update(0, *final(r.unwrap())),
    {
        match self.head {
            None => None,
            Some(h) => {
                assert(self.nodes@[self.order@[0] as int].elem is Some);
                let r = self.nodes[h].elem.as_mut();
                r
            },
        }
    }

    /// The back element, left in place and open to writing.
    pub fn peek_back_mut(&mut self) -> (r: Option<&mut T>)
        requires
            old(self).wf(),
        ensures
            final(self).wf(),
            old(self)@.len() == 0 ==> r is None && final(self)@ == old(self)@,
            old(self)@.len() > 0 ==> r is Some && *r.unwrap() == old(self)@.last() && final(self)@
                == old(self)@.update(old(self)@.len() - 1, *final(r.unwrap())),
    {
        match self.tail {
            None => None,
            Some(t) => {
                assert(self.nodes@[self.order@.last() as int].elem is Some);
                let r = self.nodes[t].elem.as_mut();
                r
            },
        }
    }
}

impl<T> List<T> {
    pub fn into_iter(self) -> (it: IntoIter<T>)
        requires
            self.wf(),
        ensures
            it.wf(),
            it@ == self@,
    {
        IntoIter(self)
    }
}

/// Walks a list by value from both ends, emptying it; once the two ends meet,
/// both report `None`.
pub struct IntoIter<T>(List<T>);

impl<T> View for IntoIter<T> {
    type V = Seq<T>;

    /// What is still to come, front to back.
    closed spec fn view(&self) -> Seq<T> {
        self.0@
    }
}

impl<T> IntoIter<T> {
    pub closed spec fn wf(&self) -> bool {
        self.0.wf()
    }

    /// The element at the front of what is left.
    pub fn next(&mut self) -> (r: Option<T>)
        requires
            old(self).wf(),
        ensures
            final(self).wf(),
            old(self)@.len() == 0 ==> r is None && final(self)@ == old(self)@,
            old(self)@.len() > 0 ==> r == Some(old(self)@[0]) && final(self)@
                == old(self)@.drop_first(),
    {
        self.0.pop_front()
    }

    /// The element at the back of what is left.
    pub fn next_back(&mut self) -> (r: Option<T>)
        requires
            old(self).wf(),
        ensures
            final(self).wf(),
            old(self)@.len() == 0 ==> r is None && final(self)@ == old(self)@,
            old(self)@.len() > 0 ==> r == Some(old(self)@.last()) && final(self)@
                == old(self)@.drop_last(),
    {
        self.0.pop_back()
    }
}

} // verus!
