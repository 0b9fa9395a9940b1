use vstd::prelude::*;

verus! {

/// An element of a list.
///
/// The list is intrusive in the kernel: a node lives inside the record it
/// links, and its identity is the address of that record. Here a node carries
/// that identity as a plain number, and remembers whether it currently
/// belongs to a list. The caller manages node storage, exactly as the kernel
/// manages the memory behind each node.
pub struct Node {
    /// Identity of the record this node links (the kernel uses its address).
    id: u64,
    /// Whether this node is currently an element of some list.
    linked: bool,
}

impl Node {
    /// The identity this node links.
    pub closed spec fn spec_id(self) -> u64 {
        self.id
    }

    /// Whether this node is currently an element of some list.
    pub closed spec fn spec_linked(self) -> bool {
        self.linked
    }

    /// Creates a disconnected node for the record identified by `id`.
    pub fn new(id: u64) -> (n: Node)
        ensures
            n.spec_id() == id,
            !n.spec_linked(),
    {
        Node { id, linked: false }
    }

    /// Returns the identity this node links.
    pub fn id(&self) -> (r: u64)
        ensures
            r == self.spec_id(),
    {
        self.id
    }

    /// Checks if this node is an element of some list.
    pub fn is_element(&self) -> (r: bool)
        ensures
            r == self.spec_linked(),
    {
        self.linked
    }

    /// Returns a cursor placed at this node's position in `list`.
    pub fn cursor_mut(&self, list: &LinkedList) -> (c: CursorMut)
        requires
            list@.contains(self.spec_id()),
        ensures
            c.wf(*list),
            c.position() matches Some(i) && list@[i as int] == self.spec_id(),
    {
        let mut i: usize = 0;
        loop
            invariant
                i <= list.items.len(),
                list@.contains(self.spec_id()),
                forall|k: int| 0 <= k < i ==> list@[k] != self.spec_id(),
            decreases list.items.len() - i,
        {
            if i >= list.items.len() {
                proof {
                    let w = choose|w: int| 0 <= w < list@.len() && list@[w] == self.spec_id();
                    assert(list@[w] != self.spec_id());
                }
                // Unreachable: the node is in the list.
                return CursorMut { cur: None };
            }
            if list.items[i] == self.id {
                return CursorMut { cur: Some(i) };
            }
            i = i + 1;
        }
    }
}

/// A doubly linked list of nodes, identified by the records they link.
///
/// The kernel's list is intrusive and type-erased; this list keeps the same
/// interface over the sequence of linked identities. The view of a list is
/// that sequence, front first.
pub struct LinkedList {
    items: Vec<u64>,
}

impl View for LinkedList {
    type V = Seq<u64>;

    closed spec fn view(&self) -> Seq<u64> {
        self.items@
    }
}

impl LinkedList {
    /// Creates an empty list.
    pub fn new() -> (r: LinkedList)
        ensures
            r@ =~= Seq::<u64>::empty(),
    {
        LinkedList { items: Vec::new() }
    }

    /// Returns the identity at the front of the list, `None` if the list is
    /// empty.
    pub fn front(&self) -> (r: Option<u64>)
        ensures
            match r {
                Some(v) => self@.len() > 0 && v == self@.first(),
                None => self@.len() == 0,
            },
    {
        if self.items.len() == 0 {
            None
        } else {
            Some(self.items[0])
        }
    }

    /// Returns the identity at the back of the list, `None` if the list is
    /// empty.
    pub fn back(&self) -> (r: Option<u64>)
        ensures
            match r {
                Some(v) => self@.len() > 0 && v == self@.last(),
                None => self@.len() == 0,
            },
    {
        if self.items.len() == 0 {
            None
        } else {
            Some(self.items[self.items.len() - 1])
        }
    }

    /// Returns `true` if the list is empty, `false` otherwise.
    pub fn is_empty(&self) -> (r: bool)
        ensures
            r == (self@.len() == 0),
    {
        self.items.len() == 0
    }

    /// Returns the number of elements in the list.
    pub fn len(&self) -> (r: usize)
        ensures
            r == self@.len(),
    {
        self.items.len()
    }

    /// Clears the list so that it is empty. The nodes of its elements stay
    /// marked linked; the caller owns them, as in the kernel, where a cleared
    /// list simply forgets its nodes.
    pub fn clear(&mut self)
        ensures
            final(self)@ =~= Seq::<u64>::empty(),
    {
        self.items.clear();
    }

    /// Inserts a node at the front of the list, so that it becomes the new
    /// head. Linking a node twice is a fatal error in the kernel, so a linked
    /// node is excluded here.
    pub fn push_front(&mut self, node: &mut Node)
        requires
            !old(node).spec_linked(),
        ensures
            final(self)@ =~= seq![old(node).spec_id()] + old(self)@,
            final(node).spec_id() == old(node).spec_id(),
            final(node).spec_linked(),
    {
        node.linked = true;
        self.items.insert(0, node.id);
    }

    /// Inserts a node at the end of the list, so that it becomes the new
    /// tail. Linking a node twice is a fatal error in the kernel, so a linked
    /// node is excluded here.
    pub fn push_back(&mut self, node: &mut Node)
        requires
            !old(node).spec_linked(),
        ensures
            final(self)@ =~= old(self)@ + seq![old(node).spec_id()],
            final(node).spec_id() == old(node).spec_id(),
            final(node).spec_linked(),
    {
        node.linked = true;
        self.items.push(node.id);
    }

    /// Removes the node from the front of the list, returning it
    /// disconnected. Returns `None` if the list is empty.
    pub fn pop_front(&mut self) -> (r: Option<Node>)
        ensures
            match r {
                Some(n) => old(self)@.len() > 0 && n.spec_id() == old(self)@.first() && !n.spec_linked()
                    && final(self)@ =~= old(self)@.drop_first(),
                None => old(self)@.len() == 0 && final(self)@ =~= old(self)@,
            },
    {
        if self.items.len() == 0 {
            None
        } else {
            let id = self.items.remove(0);
            Some(Node { id, linked: false })
        }
    }

    /// Removes the node from the back of the list, returning it
    /// disconnected. Returns `None` if the list is empty.
    pub fn pop_back(&mut self) -> (r: Option<Node>)
        ensures
            match r {
                Some(n) => old(self)@.len() > 0 && n.spec_id() == old(self)@.last() && !n.spec_linked()
                    && final(self)@ =~= old(self)@.drop_last(),
                None => old(self)@.len() == 0 && final(self)@ =~= old(self)@,
            },
    {
        if self.items.len() == 0 {
            None
        } else {
            let id = self.items.remove(self.items.len() - 1);
            proof {
                assert(final(self)@ =~= old(self)@.drop_last());
            }
            Some(Node { id, linked: false })
        }
    }

    /// Returns an iterator over the elements of the list.
    pub fn iter(&self) -> (it: Iter)
        ensures
            it.wf(),
            it.remaining() =~= self@,
    {
        let items = self.items.clone();
        let done = self.items.len() == 0;
        let tail = items.len();
        Iter { items, head: 0, tail, done }
    }

    /// Returns an iterator over the elements of the list that also lets the
    /// caller fetch each record for mutation by its identity.
    pub fn iter_mut(&self) -> (it: IterMut)
        ensures
            it.wf(),
            it.remaining() =~= self@,
    {
        let items = self.items.clone();
        let done = self.items.len() == 0;
        let tail = items.len();
        IterMut { items, head: 0, tail, done }
    }

    /// Returns a new cursor placed before the first element of the list.
    pub fn cursor_mut(&self) -> (c: CursorMut)
        ensures
            c.wf(*self),
            c.position() is None,
    {
        CursorMut { cur: None }
    }
}

/// An iterator over the elements of a list, front to back and back to front.
pub struct Iter {
    items: Vec<u64>,
    head: usize,
    tail: usize,
    done: bool,
}

/// An iterator over the elements of a list that hands out the identities of
/// records the caller may mutate.
pub struct IterMut {
    items: Vec<u64>,
    head: usize,
    tail: usize,
    done: bool,
}

impl Iter {
    /// The iterator's bounds lie within its snapshot and the done flag is
    /// consistent with them.
    pub closed spec fn wf(self) -> bool {
        self.head <= self.tail <= self.items@.len() && self.done == (self.head >= self.tail)
    }

    /// The elements not yet yielded.
    pub closed spec fn remaining(self) -> Seq<u64> {
        self.items@.subrange(self.head as int, self.tail as int)
    }

    /// Records whether the two ends of the iteration have met.
    fn check_done(&mut self)
        requires
            old(self).head <= old(self).tail <= old(self).items@.len(),
        ensures
            final(self).wf(),
            final(self).remaining() =~= old(self).remaining(),
    {
        self.done = self.head >= self.tail;
    }

    /// Yields the next element from the front, `None` when the iteration is
    /// over.
    pub fn next(&mut self) -> (r: Option<u64>)
        requires
            old(self).wf(),
        ensures
            final(self).wf(),
            match r {
                Some(v) => old(self).remaining().len() > 0 && v == old(self).remaining().first()
                    && final(self).remaining() =~= old(self).remaining().drop_first(),
                None => old(self).remaining().len() == 0 && final(self).remaining() =~= old(self).remaining(),
            },
    {
        if self.done {
            None
        } else {
            let v = self.items[self.head];
            self.head = self.head + 1;
            self.check_done();
            Some(v)
        }
    }

    /// Yields the next element from the back, `None` when the iteration is
    /// over.
    pub fn next_back(&mut self) -> (r: Option<u64>)
        requires
            old(self).wf(),
        ensures
            final(self).wf(),
            match r {
                Some(v) => old(self).remaining().len() > 0 && v == old(self).remaining().last()
                    && final(self).remaining() =~= old(self).remaining().drop_last(),
                None => old(self).remaining().len() == 0 && final(self).remaining() =~= old(self).remaining(),
            },
    {
        if self.done {
            None
        } else {
            self.tail = self.tail - 1;
            let v = self.items[self.tail];
            self.check_done();
            Some(v)
        }
    }
}

impl IterMut {
    /// The iterator's bounds lie within its snapshot and the done flag is
    /// consistent with them.
    pub closed spec fn wf(self) -> bool {
        self.head <= self.tail <= self.items@.len() && self.done == (self.head >= self.tail)
    }

    /// The elements not yet yielded.
    pub closed spec fn remaining(self) -> Seq<u64> {
        self.items@.subrange(self.head as int, self.tail as int)
    }

    /// Records whether the two ends of the iteration have met.
    fn check_done(&mut self)
        requires
            old(self).head <= old(self).tail <= old(self).items@.len(),
        ensures
            final(self).wf(),
            final(self).remaining() =~= old(self).remaining(),
    {
        self.done = self.head >= self.tail;
    }

    /// Yields the next element from the front, `None` when the iteration is
    /// over.
    pub fn next(&mut self) -> (r: Option<u64>)
        requires
            old(self).wf(),
        ensures
            final(self).wf(),
            match r {
                Some(v) => old(self).remaining().len() > 0 && v == old(self).remaining().first()
                    && final(self).remaining() =~= old(self).remaining().drop_first(),
                None => old(self).remaining().len() == 0 && final(self).remaining() =~= old(self).remaining(),
            },
    {
        if self.done {
            None
        } else {
            let v = self.items[self.head];
            self.head = self.head + 1;
            self.check_done();
            Some(v)
        }
    }

    /// Yields the next element from the back, `None` when the iteration is
    /// over.
    pub fn next_back(&mut self) -> (r: Option<u64>)
        requires
            old(self).wf(),
        ensures
            final(self).wf(),
            match r {
                Some(v) => old(self).remaining().len() > 0 && v == old(self).remaining().last()
                    && final(self).remaining() =~= old(self).remaining().drop_last(),
                None => old(self).remaining().len() == 0 && final(self).remaining() =~= old(self).remaining(),
            },
    {
        if self.done {
            None
        } else {
            self.tail = self.tail - 1;
            let v = self.items[self.tail];
            self.check_done();
            Some(v)
        }
    }
}

/// A mutable cursor over a list: a position at one of its elements, or the
/// sentinel position one past both ends. The cursor carries the position
/// only; each operation takes the list it walks, which in the kernel is the
/// list the cursor borrows.
pub struct CursorMut {
    cur: Option<usize>,
}

impl CursorMut {
    /// The position lies within `list`.
    pub open spec fn wf(self, list: LinkedList) -> bool {
        match self.position() {
            Some(i) => i < list@.len(),
            None => true,
        }
    }

    /// The cursor's position: an index into the list, or `None` for the
    /// sentinel.
    pub closed spec fn position(self) -> Option<usize> {
        self.cur
    }

    /// Move the cursor to the next element.
    pub fn move_next(&mut self, list: &LinkedList)
        requires
            old(self).wf(*list),
        ensures
            final(self).wf(*list),
            final(self).position() == match old(self).position() {
                Some(i) => if i + 1 < list@.len() {
                    Some((i + 1) as usize)
                } else {
                    None::<usize>
                },
                None => if list@.len() > 0 {
                    Some(0usize)
                } else {
                    None::<usize>
                },
            },
    {
        match self.cur {
            Some(i) => {
                let len = list.items.len();
                if i < len - 1 {
                    self.cur = Some(i + 1);
                } else {
                    self.cur = None;
                }
            },
            None => {
                if list.items.len() > 0 {
                    self.cur = Some(0);
                } else {
                    self.cur = None;
                }
            },
        }
    }

    /// Move the cursor to the previous element.
    pub fn move_prev(&mut self, list: &LinkedList)
        requires
            old(self).wf(*list),
        ensures
            final(self).wf(*list),
            final(self).position() == match old(self).position() {
                Some(i) => if i > 0 {
                    Some((i - 1) as usize)
                } else {
                    None::<usize>
                },
                None => if list@.len() > 0 {
                    Some((list@.len() - 1) as usize)
                } else {
                    None::<usize>
                },
            },
    {
        match self.cur {
            Some(i) => {
                if i > 0 {
                    self.cur = Some(i - 1);
                } else {
                    self.cur = None;
                }
            },
            None => {
                if list.items.len() > 0 {
                    self.cur = Some(list.items.len() - 1);
                } else {
                    self.cur = None;
                }
            },
        }
    }

    /// Retrieves the element at the cursor.
    pub fn current(&self, list: &LinkedList) -> (r: Option<u64>)
        requires
            self.wf(*list),
        ensures
            r == match self.position() {
                Some(i) => Some(list@[i as int]),
                None => None::<u64>,
            },
    {
        match self.cur {
            Some(i) => Some(list.items[i]),
            None => None,
        }
    }

    /// Retrieves the element after the cursor.
    pub fn peek_next(&self, list: &LinkedList) -> (r: Option<u64>)
        requires
            self.wf(*list),
        ensures
            r == match self.position() {
                Some(i) => if i + 1 < list@.len() {
                    Some(list@[i + 1])
                } else {
                    None::<u64>
                },
                None => if list@.len() > 0 {
                    Some(list@[0])
                } else {
                    None::<u64>
                },
            },
    {
        match self.cur {
            Some(i) => {
                let len = list.items.len();
                if i < len - 1 {
                    Some(list.items[i + 1])
                } else {
                    None
                }
            },
            None => {
                if list.items.len() > 0 {
                    Some(list.items[0])
                } else {
                    None
                }
            },
        }
    }

    /// Retrieves the element before the cursor.
    pub fn peek_prev(&self, list: &LinkedList) -> (r: Option<u64>)
        requires
            self.wf(*list),
        ensures
            r == match self.position() {
                Some(i) => if i > 0 {
                    Some(list@[i - 1])
                } else {
                    None::<u64>
                },
                None => if list@.len() > 0 {
                    Some(list@.last())
                } else {
                    None::<u64>
                },
            },
    {
        match self.cur {
            Some(i) => {
                if i > 0 {
                    Some(list.items[i - 1])
                } else {
                    None
                }
            },
            None => {
                if list.items.len() > 0 {
                    Some(list.items[list.items.len() - 1])
                } else {
                    None
                }
            },
        }
    }

    /// Removes the current element from the list, returning its node
    /// disconnected. The cursor moves to the next element.
    pub fn remove_current(&mut self, list: &mut LinkedList) -> (r: Option<Node>)
        requires
            old(self).wf(*old(list)),
        ensures
            final(self).wf(*final(list)),
            match old(self).position() {
                Some(i) => r matches Some(n) && n.spec_id() == old(list)@[i as int]
                    && !n.spec_linked() && final(list)@ =~= old(list)@.remove(i as int) && final(self).position() == (if i < final(list)@.len() {
                    Some(i)
                } else {
                    None::<usize>
                }),
                None => r is None && final(list)@ =~= old(list)@ && final(self).position()
                    == None::<usize>,
            },
    {
        match self.cur {
            Some(i) => {
                let id = list.items.remove(i);
                if i < list.items.len() {
                    self.cur = Some(i);
                } else {
                    self.cur = None;
                }
                Some(Node { id, linked: false })
            },
            None => None,
        }
    }

    /// Inserts `node` before the cursor. If the cursor is at the sentinel,
    /// the node is appended to the tail of the list.
    pub fn insert_before(&mut self, list: &mut LinkedList, node: &mut Node)
        requires
            old(self).wf(*old(list)),
            !old(node).spec_linked(),
        ensures
            final(self).wf(*final(list)),
            final(node).spec_id() == old(node).spec_id(),
            final(node).spec_linked(),
            match old(self).position() {
                Some(i) => final(list)@ =~= old(list)@.insert(i as int, old(node).spec_id())
                    && final(self).position() == Some((i + 1) as usize),
                None => final(list)@ =~= old(list)@ + seq![old(node).spec_id()] && final(self).position() == None::<usize>,
            },
    {
        let mut other = LinkedList::new();
        other.push_back(node);
        self.splice_before(list, other);
    }

    /// Inserts `node` after the cursor. If the cursor is at the sentinel,
    /// the node is prepended to the head of the list.
    pub fn insert_after(&mut self, list: &mut LinkedList, node: &mut Node)
        requires
            old(self).wf(*old(list)),
            !old(node).spec_linked(),
        ensures
            final(self).wf(*final(list)),
            final(node).spec_id() == old(node).spec_id(),
            final(node).spec_linked(),
            match old(self).position() {
                Some(i) => final(list)@ =~= old(list)@.insert(i + 1, old(node).spec_id()) && final(self).position() == Some(i),
                None => final(list)@ =~= seq![old(node).spec_id()] + old(list)@ && final(self).position() == None::<usize>,
            },
    {
        let mut other = LinkedList::new();
        other.push_back(node);
        self.splice_after(list, other);
    }

    /// Inserts the elements of `other` before the cursor and leaves `other`
    /// consumed. If the cursor is at the sentinel, the elements are appended
    /// to the tail of the list.
    pub fn splice_before(&mut self, list: &mut LinkedList, other: LinkedList)
        requires
            old(self).wf(*old(list)),
        ensures
            final(self).wf(*final(list)),
            match old(self).position() {
                Some(i) => final(list)@ =~= old(list)@.subrange(0, i as int) + other@ + old(list)@.subrange(i as int, old(list)@.len() as int) && final(self).position() == Some(
                    (i + other@.len()) as usize,
                ),
                None => final(list)@ =~= old(list)@ + other@ && final(self).position()
                    == None::<usize>,
            },
    {
        let mut other = other;
        match self.cur {
            Some(i) => {
                let other_len = other.items.len();
                let mut suffix = list.items.split_off(i);
                list.items.append(&mut other.items);
                list.items.append(&mut suffix);
                let total = list.items.len();
                proof {
                    assert(i + other_len < total);
                }
                self.cur = Some(i + other_len);
            },
            None => {
                list.items.append(&mut other.items);
            },
        }
    }

    /// Inserts the elements of `other` after the cursor and leaves `other`
    /// consumed. If the cursor is at the sentinel, the elements are prepended
    /// to the head of the list.
    pub fn splice_after(&mut self, list: &mut LinkedList, other: LinkedList)
        requires
            old(self).wf(*old(list)),
        ensures
            final(self).wf(*final(list)),
            match old(self).position() {
                Some(i) => final(list)@ =~= old(list)@.subrange(0, i + 1) + other@ + old(list)@.subrange(i + 1, old(list)@.len() as int) && final(self).position() == Some(i),
                None => final(list)@ =~= other@ + old(list)@ && final(self).position()
                    == None::<usize>,
            },
    {
        let mut other = other;
        match self.cur {
            Some(i) => {
                let len = list.items.len();
                proof {
                    // The cursor sits on an element, so the split point is in
                    // range.
                    assert(i + 1 <= len);
                }
                let mut suffix = list.items.split_off(i + 1);
                list.items.append(&mut other.items);
                list.items.append(&mut suffix);
            },
            None => {
                other.items.append(&mut list.items);
                list.items = other.items;
            },
        }
    }

    /// Creates a new list from everything before the cursor, returning it.
    /// The cursor keeps its element; at the sentinel the whole list is
    /// returned.
    pub fn split_before(&mut self, list: &mut LinkedList) -> (r: LinkedList)
        requires
            old(self).wf(*old(list)),
        ensures
            final(self).wf(*final(list)),
            match old(self).position() {
                Some(i) => r@ =~= old(list)@.subrange(0, i as int) && final(list)@ =~= old(list)@.subrange(i as int, old(list)@.len() as int) && final(self).position() == Some(
                    0usize,
                ),
                None => r@ =~= old(list)@ && final(list)@ =~= Seq::<u64>::empty() && final(self).position() == None::<usize>,
            },
    {
        match self.cur {
            Some(i) => {
                let mut prefix = list.items.split_off(i);
                core::mem::swap(&mut list.items, &mut prefix);
                self.cur = Some(0);
                LinkedList { items: prefix }
            },
            None => {
                let mut all: Vec<u64> = Vec::new();
                core::mem::swap(&mut list.items, &mut all);
                LinkedList { items: all }
            },
        }
    }

    /// Creates a new list from everything after the cursor, returning it.
    /// The cursor keeps its element; at the sentinel the whole list is
    /// returned.
    pub fn split_after(&mut self, list: &mut LinkedList) -> (r: LinkedList)
        requires
            old(self).wf(*old(list)),
        ensures
            final(self).wf(*final(list)),
            match old(self).position() {
                Some(i) => r@ =~= old(list)@.subrange(i + 1, old(list)@.len() as int) && final(list)@ =~= old(list)@.subrange(0, i + 1) && final(self).position() == Some(i),
                None => r@ =~= old(list)@ && final(list)@ =~= Seq::<u64>::empty() && final(self).position() == None::<usize>,
            },
    {
        match self.cur {
            Some(i) => {
                let len = list.items.len();
                proof {
                    // The cursor sits on an element, so the split point is in
                    // range.
                    assert(i + 1 <= len);
                }
                let suffix = list.items.split_off(i + 1);
                LinkedList { items: suffix }
            },
            None => {
                let mut all: Vec<u64> = Vec::new();
                core::mem::swap(&mut list.items, &mut all);
                LinkedList { items: all }
            },
        }
    }
}

/// Push a run of nodes onto a list, then pop from the same end: the order
/// observed is last-in, first-out. Pop from the opposite end instead: the
/// order is first-in, first-out. With `s` the list's view after the pushes,
/// `k` pops from the back leave `s.take(s.len() - k)`, so the next pop from
/// the back returns the most recent remaining push, while the next pop from
/// the front after `k` front pops (view `s.skip(k)`) returns the oldest
/// remaining push.
pub proof fn lemma_push_pop_order(s: Seq<u64>, k: int)
    requires
        0 <= k < s.len(),
    ensures
        s.take(s.len() - k).last() == s[s.len() - 1 - k],
        s.skip(k).first() == s[k],
{
    assert(s.take(s.len() - k)[s.len() - k - 1] == s[s.len() - 1 - k]);
    assert(s.skip(k)[0] == s[k]);
}

} // verus!
