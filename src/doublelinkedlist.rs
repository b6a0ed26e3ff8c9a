use vstd::prelude::*;
use vstd::std_specs::cmp::PartialEqSpec;

verus! {

/// Signal returned when an element is taken from a list that holds none.
#[derive(Debug, Clone, Copy, PartialEq, Eq, Structural)]
pub enum ListError {
    Empty,
}

/// One slot of the arena. A slot that the chain uses holds a value; a slot on
/// the free list holds none.
struct Node<T> {
    value: Option<T>,
    prev: Option<usize>,
    next: Option<usize>,
}

/// A doubly linked sequence whose nodes live in one arena and refer to
/// their neighbours by slot index.
pub struct DoubleLinkedList<T> {
    nodes: Vec<Node<T>>,
    free: Vec<usize>,
    head: Option<usize>,
    tail: Option<usize>,
    len: usize,
    /// The slots of the chain, from head to tail.
    order: Ghost<Seq<usize>>,
}

impl<T> View for DoubleLinkedList<T> {
    type V = Seq<T>;

    closed spec fn view(&self) -> Seq<T> {
        Seq::new(self.order@.len(), |i: int| self.nodes@[self.order@[i] as int].value->0)
    }
}

impl<T> DoubleLinkedList<T> {
    spec fn link_at(ord: Seq<usize>, i: int) -> Option<usize> {
        if 0 <= i < ord.len() {
            Some(ord[i])
        } else {
            None
        }
    }

    spec fn chain_ok(self) -> bool {
        let ord = self.order@;
        let nodes = self.nodes@;
        &&& ord.len() == self.len
        &&& forall|i: int|
            0 <= i < ord.len() ==> #[trigger] ord[i] < nodes.len() && nodes[ord[i] as int].value is Some
        &&& forall|i: int, j: int|
            0 <= i < ord.len() && 0 <= j < ord.len() && i != j ==> #[trigger] ord[i] != #[trigger] ord[j]
        &&& forall|i: int|
            0 <= i < ord.len() ==> nodes[#[trigger] ord[i] as int].next == Self::link_at(ord, i + 1)
        &&& forall|i: int|
            0 <= i < ord.len() ==> nodes[#[trigger] ord[i] as int].prev == Self::link_at(ord, i - 1)
        &&& self.head == Self::link_at(ord, 0)
        &&& self.tail == Self::link_at(ord, ord.len() - 1)
    }

    spec fn free_ok(self) -> bool {
        let free = self.free@;
        &&& forall|k: int|
            0 <= k < free.len() ==> #[trigger] free[k] < self.nodes@.len() && self.nodes@[free[k] as int].value is None
        &&& forall|k: int, m: int|
            0 <= k < free.len() && 0 <= m < free.len() && k != m ==> #[trigger] free[k] != #[trigger] free[m]
    }

    /// The structural invariant: the chain is a simple path through slots in
    /// use, its links agree in both directions, and the free slots are unused.
    pub closed spec fn wf(self) -> bool {
        self.chain_ok() && self.free_ok()
    }

    /// Makes an empty list.
    pub fn new() -> (r: Self)
        ensures
            r.wf(),
            r@ == Seq::<T>::empty(),
    {
        let r = DoubleLinkedList {
            nodes: Vec::new(),
            free: Vec::new(),
            head: None,
            tail: None,
            len: 0,
            order: Ghost(Seq::empty()),
        };
        assert(r@ =~= Seq::<T>::empty());
        r
    }

    /// Whether the list holds no element.
    pub fn is_empty(&self) -> (r: bool)
        requires
            self.wf(),
        ensures
            r == (self@.len() == 0),
    {
        self.len == 0
    }

    /// The number of elements.
    pub fn len(&self) -> (r: usize)
        requires
            self.wf(),
        ensures
            r == self@.len(),
    {
        self.len
    }

    /// Puts `value` in a slot that the chain does not use, with the given links;
    /// a slot of the free list is reused when there is one.
    fn take_slot(&mut self, value: T, prev: Option<usize>, next: Option<usize>) -> (s: usize)
        requires
            old(self).free_ok(),
        ensures
            final(self).free_ok(),
            s <= old(self).nodes@.len(),
            s < old(self).nodes@.len() ==> old(self).nodes@[s as int].value is None,
            final(self).nodes@ == (if s == old(self).nodes@.len() {
                old(self).nodes@.push(Node { value: Some(value), prev, next })
            } else {
                old(self).nodes@.update(s as int, Node { value: Some(value), prev, next })
            }),
            final(self).head == old(self).head,
            final(self).tail == old(self).tail,
            final(self).len == old(self).len,
            final(self).order == old(self).order,
    {
        let node = Node { value: Some(value), prev, next };
        match self.free.pop() {
            Some(s) => {
                self.nodes.set(s, node);
                proof {
                    let free = self.free@;
                    assert forall|k: int| 0 <= k < free.len() implies #[trigger] free[k] != s by {
                        assert(old(self).free@[k] == free[k]);
                        assert(old(self).free@[old(self).free@.len() - 1] == s);
                    }
                }
                s
            },
            None => {
                let s = self.nodes.len();
                self.nodes.push(node);
                s
            },
        }
    }

    /// Appends `value` after the last element.
    pub fn push_back(&mut self, value: T)
        requires
            old(self).wf(),
            old(self)@.len() < usize::MAX,
        ensures
            final(self).wf(),
            final(self)@ == old(self)@.push(value),
    {
        let ghost old_ord = self.order@;
        let tail = self.tail;
        let s = self.take_slot(value, tail, None);
        match tail {
            Some(t) => {
                self.nodes[t].next = Some(s);
            },
            None => {
                self.head = Some(s);
            },
        }
        self.tail = Some(s);
        self.len = self.len + 1;
        self.order = Ghost(old_ord.push(s));
        proof {
            assert(forall|i: int| 0 <= i < old_ord.len() ==> #[trigger] old_ord[i] != s);
        }
        assert(self@ =~= old(self)@.push(value));
    }
    /// Prepends `value` before the first element.
    pub fn push_front(&mut self, value: T)
        requires
            old(self).wf(),
            old(self)@.len() < usize::MAX,
        ensures
            final(self).wf(),
            final(self)@ == seq![value] + old(self)@,
    {
        let ghost old_ord = self.order@;
        let head = self.head;
        let s = self.take_slot(value, None, head);
        match head {
            Some(h) => {
                self.nodes[h].prev = Some(s);
            },
            None => {
                self.tail = Some(s);
            },
        }
        self.head = Some(s);
        self.len = self.len + 1;
        self.order = Ghost(seq![s] + old_ord);
        proof {
            assert(forall|i: int| 0 <= i < old_ord.len() ==> #[trigger] old_ord[i] != s);
            assert(forall|i: int| 0 <= i < old_ord.len() ==> self.order@[i + 1] == #[trigger] old_ord[i]);
        }
        assert(self@ =~= seq![value] + old(self)@);
    }

    /// Empties slot `s`, hands its value back and puts the slot on the free list.
    fn release(&mut self, s: usize) -> (v: T)
        requires
            old(self).free_ok(),
            s < old(self).nodes@.len(),
            old(self).nodes@[s as int].value is Some,
        ensures
            final(self).free_ok(),
            v == old(self).nodes@[s as int].value->0,
            final(self).nodes@ == old(self).nodes@.update(
                s as int,
                Node { value: None, ..old(self).nodes@[s as int] },
            ),
            final(self).head == old(self).head,
            final(self).tail == old(self).tail,
            final(self).len == old(self).len,
            final(self).order == old(self).order,
    {
        let v = self.nodes[s].value.take();
        self.free.push(s);
        v.unwrap()
    }

    /// Removes the last element and hands it back; on an empty list nothing
    /// changes and `ListError::Empty` comes back.
    pub fn pop_back(&mut self) -> (r: Result<T, ListError>)
        requires
            old(self).wf(),
        ensures
            final(self).wf(),
            final(self)@ == without_back(old(self)@),
            r == back_of(old(self)@),
    {
        let ghost old_ord = self.order@;
        match self.tail {
            None => Err(ListError::Empty),
            Some(t) => {
                let prev = self.nodes[t].prev;
                match prev {
                    Some(p) => {
                        self.nodes[p].next = None;
                    },
                    None => {
                        self.head = None;
                    },
                }
                self.tail = prev;
                self.len = self.len - 1;
                self.order = Ghost(old_ord.drop_last());
                let v = self.release(t);
                assert(self@ =~= old(self)@.drop_last());
                Ok(v)
            },
        }
    }

    /// Removes the first element and hands it back; on an empty list nothing
    /// changes and `ListError::Empty` comes back.
    pub fn pop_front(&mut self) -> (r: Result<T, ListError>)
        requires
            old(self).wf(),
        ensures
            final(self).wf(),
            final(self)@ == without_front(old(self)@),
            r == front_of(old(self)@),
    {
        let ghost old_ord = self.order@;
        match self.head {
            None => Err(ListError::Empty),
            Some(h) => {
                let next = self.nodes[h].next;
                match next {
                    Some(n) => {
                        self.nodes[n].prev = None;
                    },
                    None => {
                        self.tail = None;
                    },
                }
                self.head = next;
                self.len = self.len - 1;
                self.order = Ghost(old_ord.drop_first());
                proof {
                    assert(forall|i: int| 0 <= i < self.order@.len() ==> #[trigger] self.order@[i] == old_ord[i + 1]);
                }
                let v = self.release(h);
                assert(self@ =~= old(self)@.drop_first());
                Ok(v)
            },
        }
    }
    /// The slot that holds the element at position `index`, found by walking
    /// the chain from the head.
    fn slot_of(&self, index: usize) -> (s: usize)
        requires
            self.wf(),
            index < self@.len(),
        ensures
            s == self.order@[index as int],
    {
        let mut cur = self.head.unwrap();
        let mut k: usize = 0;
        while k < index
            invariant
                self.wf(),
                index < self.order@.len(),
                k <= index,
                cur == self.order@[k as int],
            decreases index - k,
        {
            cur = self.nodes[cur].next.unwrap();
            k = k + 1;
        }
        cur
    }

    /// Puts `value` at position `index`. An index at or past the end appends,
    /// and index zero prepends.
    pub fn insert(&mut self, index: usize, value: T)
        requires
            old(self).wf(),
            old(self)@.len() < usize::MAX,
        ensures
            final(self).wf(),
            final(self)@ == inserted_at(old(self)@, index as int, value),
    {
        if index >= self.len {
            self.push_back(value);
            return;
        }
        if index == 0 {
            self.push_front(value);
            return;
        }
        self.splice_inner(index, value);
    }

    /// Puts `value` at position `index`, which is neither the first nor past
    /// the end, between the elements now at `index - 1` and `index`.
    #[verifier::rlimit(60)]
    fn splice_inner(&mut self, index: usize, value: T)
        requires
            old(self).wf(),
            0 < index < old(self)@.len() < usize::MAX,
        ensures
            final(self).wf(),
            final(self)@ == old(self)@.insert(index as int, value),
    {
        let ghost old_ord = self.order@;
        let c = self.slot_of(index);
        let p = self.nodes[c].prev.unwrap();
        let ghost old_nodes = self.nodes@;
        let s = self.take_slot(value, Some(p), Some(c));
        self.nodes[p].next = Some(s);
        self.nodes[c].prev = Some(s);
        self.len = self.len + 1;
        self.order = Ghost(old_ord.insert(index as int, s));
        proof {
            let ord = self.order@;
            let nodes = self.nodes@;
            assert(forall|i: int| 0 <= i < old_ord.len() ==> #[trigger] old_ord[i] != s);
            assert(forall|i: int| 0 <= i < index ==> #[trigger] ord[i] == old_ord[i]);
            assert(forall|i: int| index < i <= old_ord.len() ==> #[trigger] ord[i] == old_ord[i - 1]);
            assert(p == old_ord[index - 1]);
            assert forall|i: int| 0 <= i < ord.len() implies #[trigger] ord[i] < nodes.len()
                && nodes[ord[i] as int].value is Some
                && nodes[ord[i] as int].next == Self::link_at(ord, i + 1)
                && nodes[ord[i] as int].prev == Self::link_at(ord, i - 1) by {
                if i < index - 1 {
                    let o = old_ord[i];
                    assert(ord[i] == o);
                    assert(o != p && o != c && o != s);
                    assert(nodes[o as int] == old_nodes[o as int]);
                } else if i == index - 1 {
                } else if i == index {
                } else if i == index + 1 {
                    assert(ord[i] == c);
                } else {
                    let o = old_ord[i - 1];
                    assert(ord[i] == o);
                    assert(o != p && o != c && o != s);
                    assert(nodes[o as int] == old_nodes[o as int]);
                }
            }
            assert forall|i: int, j: int|
                0 <= i < ord.len() && 0 <= j < ord.len() && i != j implies #[trigger] ord[i] != #[trigger] ord[j] by {
                if i != index && j != index {
                    let oi = if i < index { i } else { i - 1 };
                    let oj = if j < index { j } else { j - 1 };
                    assert(ord[i] == old_ord[oi]);
                    assert(ord[j] == old_ord[oj]);
                }
            }
        }
        assert(self@ =~= old(self)@.insert(index as int, value));
    }

    /// Takes out the element at position `index` and hands it back. An index at
    /// or past the end takes the last element, and index zero the first; on an
    /// empty list nothing changes and `ListError::Empty` comes back.
    pub fn remove(&mut self, index: usize) -> (r: Result<T, ListError>)
        requires
            old(self).wf(),
        ensures
            final(self).wf(),
            final(self)@ == removed_at(old(self)@, index as int),
            r == removed_value(old(self)@, index as int),
    {
        if index >= self.len {
            return self.pop_back();
        }
        if index == 0 {
            return self.pop_front();
        }
        Ok(self.unlink_inner(index))
    }

    /// Takes out the element at position `index`, which is neither the first
    /// nor past the end, by joining its neighbours.
    fn unlink_inner(&mut self, index: usize) -> (v: T)
        requires
            old(self).wf(),
            0 < index < old(self)@.len(),
        ensures
            final(self).wf(),
            final(self)@ == old(self)@.remove(index as int),
            v == old(self)@[index as int],
    {
        let ghost old_ord = self.order@;
        let c = self.slot_of(index);
        let p = self.nodes[c].prev.unwrap();
        let next = self.nodes[c].next;
        self.nodes[p].next = next;
        match next {
            Some(n) => {
                self.nodes[n].prev = Some(p);
            },
            None => {
                self.tail = Some(p);
            },
        }
        self.len = self.len - 1;
        self.order = Ghost(old_ord.remove(index as int));
        let v = self.release(c);
        proof {
            let ord = self.order@;
            let nodes = self.nodes@;
            assert(forall|i: int| 0 <= i < index ==> #[trigger] ord[i] == old_ord[i]);
            assert(forall|i: int| index <= i < ord.len() ==> #[trigger] ord[i] == old_ord[i + 1]);
            assert(p == old_ord[index - 1]);
            assert forall|i: int| 0 <= i < ord.len() implies #[trigger] ord[i] < nodes.len()
                && nodes[ord[i] as int].value is Some
                && nodes[ord[i] as int].next == Self::link_at(ord, i + 1)
                && nodes[ord[i] as int].prev == Self::link_at(ord, i - 1) by {
                if i < index - 1 {
                    assert(ord[i] == old_ord[i]);
                    assert(ord[i] != old_ord[index as int]);
                } else if i == index - 1 {
                } else if i == index {
                    assert(ord[i] == old_ord[i + 1]);
                    assert(ord[i] != old_ord[index as int]);
                } else {
                    assert(ord[i] == old_ord[i + 1]);
                    assert(ord[i] != old_ord[index as int]);
                    assert(ord[i] != old_ord[index - 1]);
                }
            }
            assert forall|i: int, j: int|
                0 <= i < ord.len() && 0 <= j < ord.len() && i != j implies #[trigger] ord[i] != #[trigger] ord[j] by {
                let oi = if i < index { i } else { i + 1 };
                let oj = if j < index { j } else { j + 1 };
                assert(ord[i] == old_ord[oi]);
                assert(ord[j] == old_ord[oj]);
            }
        }
        assert(self@ =~= old(self)@.remove(index as int));
        v
    }

    /// Drops every element.
    pub fn clear(&mut self)
        requires
            old(self).wf(),
        ensures
            final(self).wf(),
            final(self)@ == Seq::<T>::empty(),
    {
        self.nodes = Vec::new();
        self.free = Vec::new();
        self.head = None;
        self.tail = None;
        self.len = 0;
        self.order = Ghost(Seq::empty());
        assert(self@ =~= Seq::<T>::empty());
    }
    /// A forward pass over the elements, from first to last.
    pub fn iter(&self) -> (r: Iter<'_, T>)
        requires
            self.wf(),
        ensures
            r.wf(),
            r@ == self@,
    {
        let r = Iter { list: self, current: self.head, remaining: self.len };
        assert(r@ =~= self@);
        r
    }
}

impl<T: PartialEq> DoubleLinkedList<T> {
    /// Whether some element compares equal to `value`, scanning from the head.
    pub fn contains(&self, value: &T) -> (r: bool)
        requires
            self.wf(),
        ensures
            T::obeys_eq_spec() ==> (r == holds_equal(self@, value)),
    {
        let mut cur = self.head;
        let mut k: usize = 0;
        while k < self.len
            invariant
                self.wf(),
                k <= self.len,
                k < self.len ==> cur == Some(self.order@[k as int]),
                T::obeys_eq_spec() ==> forall|i: int| 0 <= i < k ==> !(#[trigger] self@[i]).eq_spec(value),
            decreases self.len - k,
        {
            let c = cur.unwrap();
            let node = &self.nodes[c];
            match &node.value {
                Some(x) => {
                    if x.eq(value) {
                        assert(self@[k as int] == *x);
                        return true;
                    }
                },
                None => {},
            }
            cur = node.next;
            k = k + 1;
        }
        false
    }
}

/// The sequence once its last element is taken, if it has one.
pub open spec fn without_back<T>(s: Seq<T>) -> Seq<T> {
    if s.len() == 0 {
        s
    } else {
        s.drop_last()
    }
}

/// The sequence once its first element is taken, if it has one.
pub open spec fn without_front<T>(s: Seq<T>) -> Seq<T> {
    if s.len() == 0 {
        s
    } else {
        s.drop_first()
    }
}

/// What taking the last element of `s` hands back.
pub open spec fn back_of<T>(s: Seq<T>) -> Result<T, ListError> {
    if s.len() == 0 {
        Err(ListError::Empty)
    } else {
        Ok(s.last())
    }
}

/// What taking the first element of `s` hands back.
pub open spec fn front_of<T>(s: Seq<T>) -> Result<T, ListError> {
    if s.len() == 0 {
        Err(ListError::Empty)
    } else {
        Ok(s[0])
    }
}

/// The sequence with `v` put at position `index`; an index at or past the end
/// appends.
pub open spec fn inserted_at<T>(s: Seq<T>, index: int, v: T) -> Seq<T> {
    if index >= s.len() {
        s.push(v)
    } else {
        s.insert(index, v)
    }
}

/// The sequence once the element at `index` is taken; an index at or past the
/// end takes the last element.
pub open spec fn removed_at<T>(s: Seq<T>, index: int) -> Seq<T> {
    if index >= s.len() {
        without_back(s)
    } else {
        s.remove(index)
    }
}

/// What taking the element at `index` hands back.
pub open spec fn removed_value<T>(s: Seq<T>, index: int) -> Result<T, ListError> {
    if index >= s.len() {
        back_of(s)
    } else {
        Ok(s[index])
    }
}

/// Whether some element of `s` compares equal to `v`.
pub open spec fn holds_equal<T: PartialEq>(s: Seq<T>, v: &T) -> bool {
    exists|i: int| 0 <= i < s.len() && (#[trigger] s[i]).eq_spec(v)
}

/// A forward pass over a list. It borrows the list, so the list cannot change
/// while the pass is alive.
pub struct Iter<'a, T> {
    list: &'a DoubleLinkedList<T>,
    current: Option<usize>,
    remaining: usize,
}

impl<'a, T> View for Iter<'a, T> {
    type V = Seq<T>;

    /// The elements still to come.
    closed spec fn view(&self) -> Seq<T> {
        self.list@.subrange(self.list.len - self.remaining, self.list.len as int)
    }
}

impl<'a, T> Iter<'a, T> {
    /// The pass stands inside its list, at the slot of the next element.
    pub closed spec fn wf(self) -> bool {
        &&& self.list.wf()
        &&& self.remaining <= self.list.len
        &&& self.remaining > 0 ==> self.current == Some(
            self.list.order@[self.list.len - self.remaining],
        )
    }

    /// The next element, or `None` once every element has been handed out.
    pub fn next(&mut self) -> (r: Option<&'a T>)
        requires
            old(self).wf(),
        ensures
            final(self).wf(),
            old(self)@.len() == 0 ==> r == None::<&'a T> && final(self)@ == old(self)@,
            old(self)@.len() > 0 ==> r == Some(&old(self)@[0]) && final(self)@ == old(self)@.drop_first(),
    {
        if self.remaining == 0 {
            return None;
        }
        let list = self.list;
        let c = self.current.unwrap();
        let node = &list.nodes[c];
        self.remaining = self.remaining - 1;
        self.current = node.next;
        assert(self@ =~= old(self)@.drop_first());
        match &node.value {
            Some(x) => Some(x),
            None => None,
        }
    }
}

} // verus!
