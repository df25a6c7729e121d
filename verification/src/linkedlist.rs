use vstd::prelude::*;
use vstd::std_specs::cmp::PartialEqSpec;

use crate::node::Node;

verus! {

/// The distinct signal that an operation is not implemented, as opposed to
/// one that was absorbed as a harmless no-op.
#[derive(Clone, Copy, Debug, PartialEq, Eq)]
pub struct NotImplemented;

/// Whether some element of `s` equals `x`, by the element type's equality.
pub open spec fn seq_has<T: PartialEq>(s: Seq<T>, x: T) -> bool {
    exists|i: int| 0 <= i < s.len() && s[i].eq_spec(&x)
}

/// Whether position `i` holds the first element of `s` equal to `x`.
pub open spec fn is_first_match<T: PartialEq>(s: Seq<T>, x: T, i: int) -> bool {
    &&& 0 <= i < s.len()
    &&& s[i].eq_spec(&x)
    &&& forall|j: int| 0 <= j < i ==> !s[j].eq_spec(&x)
}

/// The number of elements of `s` at positions `i` and beyond that equal `x`.
pub open spec fn matches_from<T: PartialEq>(s: Seq<T>, x: T, i: int) -> nat
    decreases s.len() - i,
{
    if i < 0 || i >= s.len() {
        0
    } else {
        (if s[i].eq_spec(&x) {
            1nat
        } else {
            0nat
        }) + matches_from(s, x, i + 1)
    }
}

/// The number of elements of `s` that equal `x`.
pub open spec fn match_count<T: PartialEq>(s: Seq<T>, x: T) -> nat {
    matches_from(s, x, 0)
}

/// A singly linked list. Nodes live in the private arena `nodes` and refer to
/// one another by handle (arena index); `head` and `tail` are the handles of
/// the first and last node of the chain, and `count` is the number of nodes
/// on the chain. The ghost field `order` records the handles of the chain in
/// head-to-tail order, which is what the type invariant is stated over.
pub struct List<T> {
    nodes: Vec<Node<T>>,
    head: Option<usize>,
    tail: Option<usize>,
    count: usize,
    order: Ghost<Seq<usize>>,
}

impl<T> List<T> {
    /// The chain is a simple path: `order` holds distinct in-bounds handles,
    /// consecutive handles are linked, the path starts at `head`, ends at
    /// `tail` with an empty link, and `count` is its length.
    #[verifier::type_invariant]
    spec fn wf(self) -> bool {
        let ord = self.order@;
        &&& self.count == ord.len()
        &&& forall|i: int| 0 <= i < ord.len() ==> (#[trigger] ord[i]) < self.nodes@.len()
        &&& forall|i: int, j: int| 0 <= i < j < ord.len() ==> ord[i] != ord[j]
        &&& forall|i: int|
            0 <= i < ord.len() - 1 ==> (#[trigger] self.nodes@[ord[i] as int].next_link()) == Some(
                ord[i + 1],
            )
        &&& if ord.len() == 0 {
            self.head is None && self.tail is None
        } else {
            &&& self.head == Some(ord[0])
            &&& self.tail == Some(ord[ord.len() - 1])
            &&& self.nodes@[ord[ord.len() - 1] as int].next_link() is None
        }
    }
}

impl<T: Copy + PartialEq> List<T> {
    /// Creates an empty list.
    pub fn new() -> (r: Self)
        ensures
            r@ == Seq::<T>::empty(),
    {
        List { nodes: Vec::new(), head: None, tail: None, count: 0, order: Ghost(Seq::empty()) }
    }

    /// Adds `element` at the beginning of the list.
    pub fn prepend(&mut self, element: T)
        requires
            old(self)@.len() < usize::MAX,
        ensures
            final(self)@ == seq![element] + old(self)@,
    {
        proof {
            use_type_invariant(&*self);
        }
        let ghost pre = *self;
        let mut cur = List::new();
        std::mem::swap(&mut cur, self);
        let List { mut nodes, head, tail, count, order: _ } = cur;
        let idx = nodes.len();
        let mut node = Node::new(element);
        match head {
            Some(h) => node.set_next_node(Some(h)),
            None => (),
        }
        nodes.push(node);
        let tail = match tail {
            Some(t) => Some(t),
            None => Some(idx),
        };
        *self = List {
            nodes,
            head: Some(idx),
            tail,
            count: count + 1,
            order: Ghost(seq![idx] + pre.order@),
        };
        proof {
            assert(self@ =~= seq![element] + pre@);
        }
    }

    /// Adds `element` at the end of the list.
    pub fn append(&mut self, element: T)
        requires
            old(self)@.len() < usize::MAX,
        ensures
            final(self)@ == old(self)@.push(element),
    {
        proof {
            use_type_invariant(&*self);
        }
        let ghost pre = *self;
        let mut cur = List::new();
        std::mem::swap(&mut cur, self);
        let List { mut nodes, head, tail, count, order: _ } = cur;
        let idx = nodes.len();
        nodes.push(Node::new(element));
        match tail {
            Some(t) => {
                let mut nd = nodes[t];
                nd.set_next_node(Some(idx));
                nodes[t] = nd;
            },
            None => (),
        }
        let head = match head {
            Some(h) => Some(h),
            None => Some(idx),
        };
        *self = List {
            nodes,
            head,
            tail: Some(idx),
            count: count + 1,
            order: Ghost(pre.order@.push(idx)),
        };
        proof {
            assert(self@ =~= pre@.push(element));
        }
    }

    /// Detaches every node: the list becomes empty.
    pub fn clear(&mut self)
        ensures
            final(self)@ == Seq::<T>::empty(),
    {
        *self = List::new();
    }

    /// Builds a list holding the elements of `vec`, in order.
    pub fn from(vec: Vec<T>) -> (r: List<T>)
        ensures
            r@ == vec@,
    {
        let mut list = List::new();
        let mut i: usize = 0;
        while i < vec.len()
            invariant
                i <= vec.len(),
                list@ == vec@.subrange(0, i as int),
            decreases vec.len() - i,
        {
            list.append(vec[i]);
            i = i + 1;
            proof {
                assert(list@ =~= vec@.subrange(0, i as int));
            }
        }
        proof {
            assert(vec@.subrange(0, vec@.len() as int) =~= vec@);
        }
        list
    }

    /// Appends a copy of every element of `list`, in order, to `self`.
    /// `list` itself is not changed.
    pub fn extend(&mut self, list: &List<T>)
        requires
            old(self)@.len() + list@.len() <= usize::MAX,
        ensures
            final(self)@ == old(self)@ + list@,
    {
        proof {
            use_type_invariant(list);
            use_type_invariant(&*self);
        }
        let ghost pre = *self;
        let mut i: usize = 0;
        let mut cur = list.head;
        while i < list.count
            invariant
                list.wf(),
                i <= list.count,
                cur == if i < list.count {
                    Some(list.order@[i as int])
                } else {
                    None::<usize>
                },
                self@ == pre@ + list@.subrange(0, i as int),
                pre@.len() + list@.len() <= usize::MAX,
            decreases list.count - i,
        {
            let h = cur.unwrap();
            let nd = list.nodes[h];
            self.append(nd.element);
            cur = nd.get_next();
            i = i + 1;
            proof {
                assert(self@ =~= pre@ + list@.subrange(0, i as int));
            }
        }
        proof {
            assert(pre@ + list@.subrange(0, list@.len() as int) =~= pre@ + list@);
        }
    }

    /// Inserts `element` so that it occupies position `index` afterwards.
    /// An `index` beyond one past the end is silently ignored; `index` equal
    /// to the size appends; `index` zero prepends.
    pub fn insert(&mut self, index: usize, element: T)
        requires
            old(self)@.len() < usize::MAX,
        ensures
            index <= old(self)@.len() ==> final(self)@ == old(self)@.insert(index as int, element),
            index > old(self)@.len() ==> final(self)@ == old(self)@,
    {
        proof {
            use_type_invariant(&*self);
        }
        let ghost pre = *self;
        if index > self.count {
            return;
        }
        if index == self.count {
            self.append(element);
            proof {
                assert(pre@.insert(index as int, element) =~= pre@.push(element));
            }
            return;
        }
        if index == 0 {
            self.prepend(element);
            proof {
                assert(pre@.insert(0, element) =~= seq![element] + pre@);
            }
            return;
        }
        // 1 <= index < count: walk to the node at position index - 1
        let mut i: usize = 0;
        let mut cur = self.head.unwrap();
        while i < index - 1
            invariant
                self.wf(),
                1 <= index < self.count,
                i <= index - 1,
                cur == self.order@[i as int],
            decreases index - 1 - i,
        {
            cur = self.nodes[cur].get_next().unwrap();
            i = i + 1;
        }
        // splice a new node between position index - 1 and its successor
        let mut cur_list = List::new();
        std::mem::swap(&mut cur_list, self);
        let List { mut nodes, head, tail, count, order: _ } = cur_list;
        let idx = nodes.len();
        let mut node = Node::new(element);
        node.set_next_node(nodes[cur].get_next());
        nodes.push(node);
        let mut nd = nodes[cur];
        nd.set_next_node(Some(idx));
        nodes[cur] = nd;
        *self = List {
            nodes,
            head,
            tail,
            count: count + 1,
            order: Ghost(pre.order@.insert(index as int, idx)),
        };
        proof {
            assert(self@ =~= pre@.insert(index as int, element));
        }
    }

    /// Removes the node at 0-based position `index`. An empty list or an
    /// out-of-range `index` leaves the list unchanged.
    pub fn remove_at(&mut self, index: usize)
        ensures
            index < old(self)@.len() ==> final(self)@ == old(self)@.remove(index as int),
            index >= old(self)@.len() ==> final(self)@ == old(self)@,
    {
        proof {
            use_type_invariant(&*self);
        }
        let ghost pre = *self;
        if self.count == 0 {
            return;
        }
        if index > self.count {
            return;
        }
        if index == 0 {
            // the head is removed: its successor becomes the head
            let mut cur_list = List::new();
            std::mem::swap(&mut cur_list, self);
            let List { nodes, head, tail, count, order: _ } = cur_list;
            let h = head.unwrap();
            let new_head = nodes[h].get_next();
            let new_count = count - 1;
            let new_tail = if new_count == 0 {
                None
            } else {
                tail
            };
            *self = List {
                nodes,
                head: new_head,
                tail: new_tail,
                count: new_count,
                order: Ghost(pre.order@.remove(0)),
            };
            proof {
                assert(self@ =~= pre@.remove(0));
            }
            return;
        }
        // 1 <= index <= count: walk to the node at position index - 1
        let mut i: usize = 0;
        let mut cur = self.head.unwrap();
        while i < index - 1
            invariant
                self.wf(),
                1 <= index <= self.count,
                i <= index - 1,
                i < self.count,
                cur == self.order@[i as int],
            decreases index - 1 - i,
        {
            cur = self.nodes[cur].get_next().unwrap();
            i = i + 1;
        }
        match self.nodes[cur].get_next() {
            None => {
                // index equals the size: one past the last valid position,
                // treated as a no-op like any other out-of-range index
            },
            Some(t) => {
                let after = self.nodes[t].get_next();
                let mut cur_list = List::new();
                std::mem::swap(&mut cur_list, self);
                let List { mut nodes, head, tail, count, order: _ } = cur_list;
                let mut nd = nodes[cur];
                nd.set_next_node(after);
                nodes[cur] = nd;
                // when the tail was removed, its predecessor becomes the tail
                let new_tail = match after {
                    None => Some(cur),
                    Some(_) => tail,
                };
                *self = List {
                    nodes,
                    head,
                    tail: new_tail,
                    count: count - 1,
                    order: Ghost(pre.order@.remove(index as int)),
                };
                proof {
                    assert(self@ =~= pre@.remove(index as int));
                }
            },
        }
    }

    /// Removes the first node, in head-to-tail order, whose element equals
    /// `element`. An empty list, or no matching element, leaves the list
    /// unchanged; later duplicates of `element` are untouched.
    pub fn remove(&mut self, element: T)
        ensures
            T::obeys_eq_spec() ==> {
                &&& forall|i: int|
                    is_first_match(old(self)@, element, i) ==> final(self)@ == old(self)@.remove(i)
                &&& !seq_has(old(self)@, element) ==> final(self)@ == old(self)@
            },
    {
        let pos = self.index(element);
        match pos {
            Some(i) => {
                self.remove_at(i);
            },
            None => (),
        }
    }

    /// Returns whether some element of the list equals `element`.
    pub fn has(&self, element: T) -> (r: bool)
        ensures
            T::obeys_eq_spec() ==> r == seq_has(self@, element),
    {
        proof {
            use_type_invariant(self);
        }
        let mut i: usize = 0;
        let mut cur = self.head;
        while i < self.count
            invariant
                self.wf(),
                i <= self.count,
                cur == if i < self.count {
                    Some(self.order@[i as int])
                } else {
                    None::<usize>
                },
                T::obeys_eq_spec() ==> forall|j: int|
                    0 <= j < i ==> !self@[j].eq_spec(&element),
            decreases self.count - i,
        {
            let h = cur.unwrap();
            let nd = self.nodes[h];
            if nd.element == element {
                proof {
                    if T::obeys_eq_spec() {
                        assert(self@[i as int].eq_spec(&element));
                    }
                }
                return true;
            }
            cur = nd.get_next();
            i = i + 1;
        }
        false
    }

    /// Returns how many elements of the list equal `element`.
    pub fn count(&self, element: T) -> (r: usize)
        ensures
            T::obeys_eq_spec() ==> r == match_count(self@, element),
    {
        proof {
            use_type_invariant(self);
        }
        let mut c: usize = 0;
        let mut i: usize = 0;
        let mut cur = self.head;
        while i < self.count
            invariant
                self.wf(),
                i <= self.count,
                c <= i,
                cur == if i < self.count {
                    Some(self.order@[i as int])
                } else {
                    None::<usize>
                },
                T::obeys_eq_spec() ==> match_count(self@, element) == c + matches_from(
                    self@,
                    element,
                    i as int,
                ),
            decreases self.count - i,
        {
            let h = cur.unwrap();
            let nd = self.nodes[h];
            if nd.element == element {
                c = c + 1;
            }
            cur = nd.get_next();
            i = i + 1;
        }
        c
    }

    /// Returns the 0-based position of the first element equal to `element`,
    /// or `None` when no element equals it.
    pub fn index(&self, element: T) -> (r: Option<usize>)
        ensures
            r matches Some(i) ==> i < self@.len(),
            T::obeys_eq_spec() ==> match r {
                Some(i) => is_first_match(self@, element, i as int),
                None => !seq_has(self@, element),
            },
    {
        proof {
            use_type_invariant(self);
        }
        let mut i: usize = 0;
        let mut cur = self.head;
        while i < self.count
            invariant
                self.wf(),
                i <= self.count,
                cur == if i < self.count {
                    Some(self.order@[i as int])
                } else {
                    None::<usize>
                },
                T::obeys_eq_spec() ==> forall|j: int|
                    0 <= j < i ==> !self@[j].eq_spec(&element),
            decreases self.count - i,
        {
            let h = cur.unwrap();
            let nd = self.nodes[h];
            if nd.element == element {
                proof {
                    if T::obeys_eq_spec() {
                        assert(self@[i as int].eq_spec(&element));
                    }
                }
                return Some(i);
            }
            cur = nd.get_next();
            i = i + 1;
        }
        None
    }

    /// Reverses the link direction of every node in place, then swaps head
    /// and tail. An empty list is left unchanged.
    pub fn reverse(&mut self)
        ensures
            final(self)@ == old(self)@.reverse(),
    {
        proof {
            use_type_invariant(&*self);
        }
        let ghost pre = *self;
        if self.count == 0 {
            proof {
                assert(pre@.reverse() =~= pre@);
            }
            return;
        }
        let mut cur_list = List::new();
        std::mem::swap(&mut cur_list, self);
        let List { mut nodes, head, tail, count, order: _ } = cur_list;
        let ghost ord = pre.order@;
        let mut prev: Option<usize> = None;
        let mut cur: Option<usize> = head;
        let mut k: usize = 0;
        while k < count
            invariant
                k <= count,
                count == ord.len(),
                nodes@.len() == pre.nodes@.len(),
                forall|j: int| 0 <= j < ord.len() ==> (#[trigger] ord[j]) < nodes@.len(),
                forall|j: int, j2: int| 0 <= j < j2 < ord.len() ==> ord[j] != ord[j2],
                prev == if k == 0 {
                    None::<usize>
                } else {
                    Some(ord[k - 1])
                },
                cur == if k < count {
                    Some(ord[k as int])
                } else {
                    None::<usize>
                },
                forall|j: int|
                    0 <= j < k ==> (#[trigger] nodes@[ord[j] as int].next_link()) == (if j == 0 {
                        None::<usize>
                    } else {
                        Some(ord[j - 1])
                    }),
                forall|j: int|
                    k <= j < ord.len() ==> (#[trigger] nodes@[ord[j] as int].next_link()) == (if j
                        == ord.len() - 1 {
                        None::<usize>
                    } else {
                        Some(ord[j + 1])
                    }),
                forall|j: int|
                    0 <= j < ord.len() ==> (#[trigger] nodes@[ord[j] as int].element)
                        == pre.nodes@[ord[j] as int].element,
            decreases count - k,
        {
            let c = cur.unwrap();
            let next = nodes[c].get_next();
            let mut nd = nodes[c];
            nd.set_next_node(prev);
            nodes[c] = nd;
            prev = Some(c);
            cur = next;
            k = k + 1;
        }
        *self = List { nodes, head: tail, tail: head, count, order: Ghost(ord.reverse()) };
        proof {
            assert(self@ =~= pre@.reverse());
        }
    }

    /// Sorting is a documented gap: it is not implemented. Calling it leaves
    /// the list unchanged and reports the gap distinctly from the silent
    /// no-op paths of the other operations.
    pub fn sort(&mut self) -> (r: Result<(), NotImplemented>)
        ensures
            *final(self) == *old(self),
            r is Err,
    {
        Err(NotImplemented)
    }

    /// A fresh, independent cursor over the list's nodes, from the head on.
    pub fn iter_node(&self) -> (it: ListNodeIterator<'_, T>)
        ensures
            it.elems() == self@,
            it.pos() == 0,
    {
        ListNodeIterator::new(self)
    }

    /// A fresh, independent cursor over the list's element values, from the
    /// head on.
    pub fn iter(&self) -> (it: ListIterator<'_, T>)
        ensures
            it.elems() == self@,
            it.pos() == 0,
    {
        ListIterator::new(self)
    }

    /// Returns the number of elements in the list.
    pub fn size(&self) -> (r: usize)
        ensures
            r == self@.len(),
    {
        proof {
            use_type_invariant(self);
        }
        self.count
    }

    /// Returns whether the list holds no elements.
    pub fn is_empty(&self) -> (r: bool)
        ensures
            r == (self@.len() == 0),
    {
        proof {
            use_type_invariant(self);
        }
        self.count == 0
    }
}

/// Law: a run of appends yields the appended elements in append order, and
/// the size equals the number of appends. `views` traces the list's contents
/// through the run: it starts empty and each step appends the next element
/// of `elems`, as `List::append` ensures; at the end the contents are
/// exactly `elems`.
pub proof fn lemma_appends_in_order<T>(views: Seq<Seq<T>>, elems: Seq<T>)
    requires
        views.len() == elems.len() + 1,
        views[0] == Seq::<T>::empty(),
        forall|k: int| 0 <= k < elems.len() ==> views[k + 1] == views[k].push(elems[k]),
    ensures
        views[elems.len() as int] == elems,
    decreases elems.len(),
{
    let n = elems.len() as int;
    if n == 0 {
        assert(views[0] =~= elems);
    } else {
        let vp = views.take(n);
        let ep = elems.take(n - 1);
        assert forall|k: int| 0 <= k < ep.len() implies vp[k + 1] == vp[k].push(ep[k]) by {
            assert(views[k + 1] == views[k].push(elems[k]));
        }
        lemma_appends_in_order(vp, ep);
        assert(views[n - 1] == vp[n - 1]);
        assert(views[(n - 1) + 1] == views[n - 1].push(elems[n - 1]));
        assert(views[n] =~= elems);
    }
}

/// Law: a run of prepends yields the prepended elements in reverse prepend
/// order. `views` traces the list's contents through the run: it starts
/// empty and each step prepends the next element of `elems`, as
/// `List::prepend` ensures; at the end the contents are `elems` reversed.
pub proof fn lemma_prepends_in_reverse_order<T>(views: Seq<Seq<T>>, elems: Seq<T>)
    requires
        views.len() == elems.len() + 1,
        views[0] == Seq::<T>::empty(),
        forall|k: int| 0 <= k < elems.len() ==> views[k + 1] == seq![elems[k]] + views[k],
    ensures
        views[elems.len() as int] == elems.reverse(),
    decreases elems.len(),
{
    let n = elems.len() as int;
    if n == 0 {
        assert(views[0] =~= elems.reverse());
    } else {
        let vp = views.take(n);
        let ep = elems.take(n - 1);
        assert forall|k: int| 0 <= k < ep.len() implies vp[k + 1] == seq![ep[k]] + vp[k] by {
            assert(views[k + 1] == seq![elems[k]] + views[k]);
        }
        lemma_prepends_in_reverse_order(vp, ep);
        assert(views[n - 1] == vp[n - 1]);
        assert(views[(n - 1) + 1] == seq![elems[n - 1]] + views[n - 1]);
        assert(views[n] =~= elems.reverse());
    }
}

/// Law: reversing is an involution. With `List::reverse`'s contract this
/// says that reversing a list twice restores the original order, for lists
/// of any size.
pub proof fn lemma_reverse_involution<T>(s: Seq<T>)
    ensures
        s.reverse().reverse() == s,
{
    assert(s.reverse().reverse() =~= s);
}

/// Law: after inserting `e` at position `i`, the first position whose
/// element equals `e` is `i` itself, provided no element before `i` already
/// equals `e`. With the contracts of `List::insert` and `List::index` this
/// says that `insert(i, e)` followed by `index(e)` returns `i`. Equality on
/// the element type must hold of `e` and itself.
pub proof fn lemma_insert_then_index<T: PartialEq>(s: Seq<T>, i: int, e: T)
    requires
        0 <= i <= s.len(),
        e.eq_spec(&e),
        forall|j: int| 0 <= j < i ==> !(#[trigger] s[j]).eq_spec(&e),
    ensures
        is_first_match(s.insert(i, e), e, i),
{
    assert(s.insert(i, e)[i] == e);
    assert forall|j: int| 0 <= j < i implies !(#[trigger] s.insert(i, e)[j]).eq_spec(&e) by {
        assert(s.insert(i, e)[j] == s[j]);
    }
}

/// Law: any two lists holding no elements are equal as lists. With
/// `List::clear`'s contract this says that clearing any list yields a list
/// equal to one built from no elements, and that clearing twice is the same
/// as clearing once.
pub proof fn lemma_empty_lists_equal<T: Copy + PartialEq>(a: List<T>, b: List<T>)
    requires
        a@.len() == 0,
        b@.len() == 0,
    ensures
        a.eq_spec(&b),
{
}

/// When some element of `s` equals `x`, there is a first position that
/// does: the positions that `List::index` returns and that `List::remove`'s
/// contract speaks of exist whenever a match exists at all.
pub proof fn lemma_first_match_exists<T: PartialEq>(s: Seq<T>, x: T)
    requires
        seq_has(s, x),
    ensures
        exists|i: int| is_first_match(s, x, i),
    decreases s.len(),
{
    let k = choose|k: int| 0 <= k < s.len() && s[k].eq_spec(&x);
    if s[0].eq_spec(&x) {
        assert(is_first_match(s, x, 0));
    } else {
        let t = s.subrange(1, s.len() as int);
        assert(t[k - 1].eq_spec(&x));
        lemma_first_match_exists(t, x);
        let i = choose|i: int| is_first_match(t, x, i);
        assert forall|j: int| 0 <= j < i + 1 implies !(#[trigger] s[j]).eq_spec(&x) by {
            if j > 0 {
                assert(s[j] == t[j - 1]);
            }
        }
        assert(s[i + 1] == t[i]);
        assert(is_first_match(s, x, i + 1));
    }
}

/// `matches_from` one step in is `matches_from` of the sequence without its
/// first element.
proof fn lemma_matches_from_shift<T: PartialEq>(s: Seq<T>, x: T, j: int)
    requires
        s.len() >= 1,
        0 <= j,
    ensures
        matches_from(s, x, j + 1) == matches_from(s.subrange(1, s.len() as int), x, j),
    decreases s.len() - j,
{
    let t = s.subrange(1, s.len() as int);
    if j + 1 < s.len() {
        assert(s[j + 1] == t[j]);
        lemma_matches_from_shift(s, x, j + 1);
    }
}

/// The number of matches splits over the first element and the rest.
proof fn lemma_match_count_drop_first<T: PartialEq>(s: Seq<T>, x: T)
    requires
        s.len() >= 1,
    ensures
        match_count(s, x) == (if s[0].eq_spec(&x) {
            1nat
        } else {
            0nat
        }) + match_count(s.subrange(1, s.len() as int), x),
{
    lemma_matches_from_shift(s, x, 0);
}

/// The number of matches adds up over concatenation.
proof fn lemma_match_count_concat<T: PartialEq>(a: Seq<T>, b: Seq<T>, x: T)
    ensures
        match_count(a + b, x) == match_count(a, x) + match_count(b, x),
    decreases a.len(),
{
    if a.len() == 0 {
        assert(a + b =~= b);
    } else {
        let s = a + b;
        lemma_match_count_drop_first(s, x);
        lemma_match_count_drop_first(a, x);
        assert(s.subrange(1, s.len() as int) =~= a.subrange(1, a.len() as int) + b);
        lemma_match_count_concat(a.subrange(1, a.len() as int), b, x);
        assert(s[0] == a[0]);
    }
}

/// Law: removing one element equal to `x` lowers the number of elements
/// equal to `x` by exactly one and moves no other element past another.
/// With `List::remove`'s contract this says that `remove(x)` removes at
/// most one occurrence, the first in order, and leaves the remaining
/// duplicates of `x` untouched.
pub proof fn lemma_remove_match_count<T: PartialEq>(s: Seq<T>, x: T, i: int)
    requires
        0 <= i < s.len(),
        s[i].eq_spec(&x),
    ensures
        match_count(s.remove(i), x) + 1 == match_count(s, x),
{
    let a = s.subrange(0, i);
    let b = s.subrange(i + 1, s.len() as int);
    let m = s.subrange(i, s.len() as int);
    assert(s =~= a + m);
    lemma_match_count_concat(a, m, x);
    lemma_match_count_drop_first(m, x);
    assert(m.subrange(1, m.len() as int) =~= b);
    assert(s.remove(i) =~= a + b);
    lemma_match_count_concat(a, b, x);
}

/// A restartable, forward-only cursor over a list, yielding its nodes from
/// head to tail. A fresh cursor is made by `List::iter_node`; it walks the
/// list's structure at the time it was created.
pub struct ListNodeIterator<'a, T> {
    list: &'a List<T>,
    current: Option<usize>,
    pos: Ghost<int>,
}

impl<'a, T> ListNodeIterator<'a, T> {
    /// The cursor stands at position `pos` of the chain, and `current` is
    /// the handle of the node there, `None` once the chain is exhausted.
    #[verifier::type_invariant]
    spec fn inv(self) -> bool {
        &&& 0 <= self.pos@ <= self.list.order@.len()
        &&& self.current == if self.pos@ < self.list.order@.len() {
            Some(self.list.order@[self.pos@])
        } else {
            None::<usize>
        }
    }

    /// The elements of the underlying list, in head-to-tail order.
    pub closed spec fn elems(self) -> Seq<T> {
        self.list@
    }

    /// How many nodes the cursor has already yielded.
    pub closed spec fn pos(self) -> int {
        self.pos@
    }

    /// A fresh cursor over `list`, standing at its head.
    pub fn new(list: &'a List<T>) -> (it: Self)
        ensures
            it.elems() == list@,
            it.pos() == 0,
    {
        proof {
            use_type_invariant(list);
        }
        ListNodeIterator { list, current: list.head, pos: Ghost(0) }
    }
}

impl<'a, T: Copy + PartialEq> ListNodeIterator<'a, T> {
    /// Yields the node at the cursor's position and moves past it, or
    /// returns `None` once every node has been yielded.
    pub fn next(&mut self) -> (r: Option<Node<T>>)
        ensures
            final(self).elems() == old(self).elems(),
            old(self).pos() < old(self).elems().len() ==> {
                &&& r matches Some(nd) && nd.element == old(self).elems()[old(self).pos()]
                &&& final(self).pos() == old(self).pos() + 1
            },
            old(self).pos() >= old(self).elems().len() ==> r is None && final(self).pos() == old(
                self,
            ).pos(),
    {
        proof {
            use_type_invariant(&*self);
            use_type_invariant(self.list);
        }
        match self.current {
            Some(c) => {
                let nd = self.list.nodes[c];
                *self = ListNodeIterator {
                    list: self.list,
                    current: nd.get_next(),
                    pos: Ghost(self.pos@ + 1),
                };
                Some(nd)
            },
            None => None,
        }
    }
}

/// A restartable, forward-only cursor over a list, yielding element values
/// from head to tail. A fresh cursor is made by `List::iter`.
pub struct ListIterator<'a, T> {
    node_iter: ListNodeIterator<'a, T>,
}

impl<'a, T: Copy + PartialEq> ListIterator<'a, T> {
    /// The elements of the underlying list, in head-to-tail order.
    pub closed spec fn elems(self) -> Seq<T> {
        self.node_iter.elems()
    }

    /// How many elements the cursor has already yielded.
    pub closed spec fn pos(self) -> int {
        self.node_iter.pos()
    }

    /// A fresh cursor over `list`, standing at its head.
    pub fn new(list: &'a List<T>) -> (it: Self)
        ensures
            it.elems() == list@,
            it.pos() == 0,
    {
        ListIterator { node_iter: ListNodeIterator::new(list) }
    }

    /// Yields the element at the cursor's position and moves past it, or
    /// returns `None` once every element has been yielded.
    pub fn next(&mut self) -> (r: Option<T>)
        ensures
            final(self).elems() == old(self).elems(),
            old(self).pos() < old(self).elems().len() ==> {
                &&& r == Some(old(self).elems()[old(self).pos()])
                &&& final(self).pos() == old(self).pos() + 1
            },
            old(self).pos() >= old(self).elems().len() ==> r is None && final(self).pos() == old(
                self,
            ).pos(),
    {
        match self.node_iter.next() {
            Some(n) => Some(n.element),
            None => None,
        }
    }
}

impl<T: Copy + PartialEq> PartialEq for List<T> {
    /// Two lists are equal iff they have the same count and the same
    /// element sequence in the same head-to-tail order.
    fn eq(&self, other: &List<T>) -> (r: bool) {
        proof {
            use_type_invariant(self);
            use_type_invariant(other);
        }
        if self.count != other.count {
            return false;
        }
        let mut i: usize = 0;
        let mut a = self.head;
        let mut b = other.head;
        while i < self.count
            invariant
                self.wf(),
                other.wf(),
                self.count == other.count,
                i <= self.count,
                a == if i < self.count {
                    Some(self.order@[i as int])
                } else {
                    None::<usize>
                },
                b == if i < other.count {
                    Some(other.order@[i as int])
                } else {
                    None::<usize>
                },
                T::obeys_eq_spec() ==> forall|j: int|
                    0 <= j < i ==> (#[trigger] self@[j]).eq_spec(&other@[j]),
            decreases self.count - i,
        {
            let ha = a.unwrap();
            let hb = b.unwrap();
            let na = self.nodes[ha];
            let nb = other.nodes[hb];
            if !(na.element == nb.element) {
                proof {
                    if T::obeys_eq_spec() {
                        assert(!self@[i as int].eq_spec(&other@[i as int]));
                    }
                }
                return false;
            }
            a = na.get_next();
            b = nb.get_next();
            i = i + 1;
        }
        true
    }
}

impl<T: Copy + PartialEq> vstd::std_specs::cmp::PartialEqSpecImpl for List<T> {
    open spec fn obeys_eq_spec() -> bool {
        T::obeys_eq_spec()
    }

    open spec fn eq_spec(&self, other: &List<T>) -> bool {
        &&& self@.len() == other@.len()
        &&& forall|i: int| 0 <= i < self@.len() ==> (#[trigger] self@[i]).eq_spec(&other@[i])
    }
}

impl<T> View for List<T> {
    type V = Seq<T>;

    /// The elements of the list in head-to-tail order.
    closed spec fn view(&self) -> Seq<T> {
        Seq::new(self.order@.len(), |i: int| self.nodes@[self.order@[i] as int].element)
    }
}

} // verus!
