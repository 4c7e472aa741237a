use vstd::prelude::*;

use crate::ordering::{has_match, is_first_match};
use vstd::std_specs::cmp::PartialEqSpec;

verus! {

/// A node of the arena: its value, the slot of its successor (the forward link)
/// and the slot of its predecessor (the back link, used only to navigate).
pub struct DoubleLinkedNode<T> {
    pub data: T,
    pub next: Option<usize>,
    pub prev: Option<usize>,
}

impl<T> DoubleLinkedNode<T> {
    /// A node holding `data` with the given links.
    pub fn new(data: T, next: Option<usize>, prev: Option<usize>) -> (r: Self)
        ensures
            r.data == data,
            r.next == next,
            r.prev == prev,
    {
        DoubleLinkedNode { data, next, prev }
    }
}

/// The slot that follows position `i` of `order`, if any.
spec fn slot_after(order: Seq<usize>, i: int) -> Option<usize> {
    if i + 1 < order.len() {
        Some(order[i + 1])
    } else {
        None
    }
}

/// The slot that precedes position `i` of `order`, if any.
spec fn slot_before(order: Seq<usize>, i: int) -> Option<usize> {
    if i > 0 {
        Some(order[i - 1])
    } else {
        None
    }
}

/// The first slot of `order`, if any.
spec fn first_slot(order: Seq<usize>) -> Option<usize> {
    if order.len() > 0 {
        Some(order[0])
    } else {
        None
    }
}

/// The last slot of `order`, if any.
spec fn last_slot(order: Seq<usize>) -> Option<usize> {
    if order.len() > 0 {
        Some(order.last())
    } else {
        None
    }
}

/// The values of the slots in `order`, front to back.
spec fn values<T>(nodes: Seq<DoubleLinkedNode<T>>, order: Seq<usize>) -> Seq<T> {
    Seq::new(order.len(), |i: int| nodes[order[i] as int].data)
}

/// The slots listed in `order` are linked front to back as `order` lists them:
/// each forward link names the next slot and each back link the previous one,
/// `head` names the first and `tail` the last. `pos` gives the position of each listed slot.
spec fn chain_ok<T>(
    nodes: Seq<DoubleLinkedNode<T>>,
    order: Seq<usize>,
    pos: Seq<int>,
    head: Option<usize>,
    tail: Option<usize>,
) -> bool {
    &&& pos.len() == nodes.len()
    &&& forall|i: int|
        0 <= i < order.len() ==> (#[trigger] order[i] as int) < nodes.len() && pos[order[i] as int]
            == i
    &&& forall|i: int|
        0 <= i < order.len() ==> (#[trigger] nodes[order[i] as int]).next == slot_after(order, i)
            && nodes[order[i] as int].prev == slot_before(order, i)
    &&& head == first_slot(order)
    &&& tail == last_slot(order)
}

/// Every slot of `nodes` but `hole` is listed in `order`, at position `pos[s]`.
spec fn slots_listed<T>(
    nodes: Seq<DoubleLinkedNode<T>>,
    order: Seq<usize>,
    pos: Seq<int>,
    hole: int,
) -> bool {
    forall|s: int|
        0 <= s < nodes.len() && s != hole ==> 0 <= #[trigger] pos[s] < order.len() && order[pos[s]]
            == s
}

/// `o`, with slot `from` renamed `to`.
spec fn relabel(o: Option<usize>, from: usize, to: usize) -> Option<usize> {
    if o == Some(from) {
        Some(to)
    } else {
        o
    }
}

/// Every slot of `order`, with slot `from` renamed `to`.
spec fn relabel_all(order: Seq<usize>, from: usize, to: usize) -> Seq<usize> {
    Seq::new(order.len(), |i: int| if order[i] == from { to } else { order[i] })
}

/// `node`, in slot `s` once the node of slot `from` has moved to slot `to`, holds the value
/// of the node that stood there, with its links to slot `from` renamed `to`.
spec fn moved_into<T>(
    old: Seq<DoubleLinkedNode<T>>,
    node: DoubleLinkedNode<T>,
    s: int,
    from: usize,
    to: usize,
) -> bool {
    let src = if s == to { from as int } else { s };
    &&& node.data == old[src].data
    &&& node.next == relabel(old[src].next, from, to)
    &&& node.prev == relabel(old[src].prev, from, to)
}

/// In a chain whose arena has one unlisted slot `k` and whose last slot is listed,
/// a link names the last slot exactly where the last slot's node links back.
proof fn lemma_neighbours_of_slot<T>(
    nodes: Seq<DoubleLinkedNode<T>>,
    order: Seq<usize>,
    pos: Seq<int>,
    head: Option<usize>,
    tail: Option<usize>,
    k: usize,
    last: usize,
)
    requires
        chain_ok(nodes, order, pos, head, tail),
        slots_listed(nodes, order, pos, k as int),
        forall|i: int| 0 <= i < order.len() ==> order[i] != k,
        last + 1 == nodes.len(),
        k < last,
        order.len() == last,
    ensures
        forall|s: int|
            0 <= s < nodes.len() && s != k && s != last ==> (#[trigger] nodes[s].next == Some(last)
                <==> nodes[last as int].prev == Some(s as usize)) && (nodes[s].prev == Some(last)
                <==> nodes[last as int].next == Some(s as usize)),
        match nodes[last as int].next {
            Some(b) => b < last && b != k,
            None => true,
        },
        match nodes[last as int].prev {
            Some(a) => a < last && a != k,
            None => true,
        },
{
    let p = pos[last as int];
    assert(order[p] == last);
    assert forall|i: int| 0 <= i < order.len() implies (#[trigger] order[i]) != last || i == p by {
        assert(pos[order[i] as int] == i);
    }
    assert forall|s: int|
        0 <= s < nodes.len() && s != k && s != last implies (#[trigger] nodes[s].next == Some(last)
            <==> nodes[last as int].prev == Some(s as usize)) && (nodes[s].prev == Some(last)
            <==> nodes[last as int].next == Some(s as usize)) by {
        let i = pos[s];
        assert(order[i] == s);
        assert(nodes[order[i] as int].next == slot_after(order, i));
        assert(nodes[order[p] as int].next == slot_after(order, p));
        if i + 1 < order.len() {
            assert(order[i + 1] == last ==> i + 1 == p);
        }
        if i > 0 {
            assert(order[i - 1] == last ==> i - 1 == p);
        }
        if p > 0 {
            assert(pos[order[p - 1] as int] == p - 1);
        }
        if p + 1 < order.len() {
            assert(pos[order[p + 1] as int] == p + 1);
        }
    }
    assert(nodes[order[p] as int].next == slot_after(order, p));
    if p > 0 {
        assert(pos[order[p - 1] as int] == p - 1);
    }
    if p + 1 < order.len() {
        assert(pos[order[p + 1] as int] == p + 1);
    }
}

/// Moving the node of the last slot into the unlisted slot `k`, with every link to the
/// last slot renamed, gives a chain over every remaining slot with the same values.
proof fn lemma_relabelled_chain<T>(
    old_nodes: Seq<DoubleLinkedNode<T>>,
    order: Seq<usize>,
    pos: Seq<int>,
    head: Option<usize>,
    tail: Option<usize>,
    nodes: Seq<DoubleLinkedNode<T>>,
    new_head: Option<usize>,
    new_tail: Option<usize>,
    k: usize,
    last: usize,
)
    requires
        chain_ok(old_nodes, order, pos, head, tail),
        slots_listed(old_nodes, order, pos, k as int),
        forall|i: int| 0 <= i < order.len() ==> order[i] != k,
        last + 1 == old_nodes.len(),
        k < last,
        order.len() == last,
        nodes.len() == last,
        forall|s: int|
            0 <= s < last ==> #[trigger] moved_into(
                old_nodes,
                nodes[s],
                s,
                last,
                k,
            ),
        new_head == relabel(head, last, k),
        new_tail == relabel(tail, last, k),
    ensures
        chain_ok(
            nodes,
            relabel_all(order, last, k),
            pos.update(k as int, pos[last as int]).drop_last(),
            new_head,
            new_tail,
        ),
        slots_listed(
            nodes,
            relabel_all(order, last, k),
            pos.update(k as int, pos[last as int]).drop_last(),
            -1,
        ),
        values(nodes, relabel_all(order, last, k)) == values(old_nodes, order),
{
    let o2 = relabel_all(order, last, k);
    let p2 = pos.update(k as int, pos[last as int]).drop_last();
    let p = pos[last as int];
    assert(order[p] == last);
    assert forall|i: int| 0 <= i < o2.len() implies (#[trigger] o2[i] as int) < nodes.len()
        && p2[o2[i] as int] == i by {
        assert(pos[order[i] as int] == i);
    }
    assert forall|i: int| 0 <= i < o2.len() implies (#[trigger] nodes[o2[i] as int]).next
        == slot_after(o2, i)
        && nodes[o2[i] as int].prev == slot_before(o2, i) by {
        assert(pos[order[i] as int] == i);
        assert(moved_into(old_nodes, nodes[o2[i] as int], o2[i] as int, last, k));
        assert(old_nodes[order[i] as int].next == slot_after(order, i));
    }
    assert forall|s: int| 0 <= s < nodes.len() implies 0 <= #[trigger] p2[s] < o2.len()
        && o2[p2[s]] == s by {
        if s != k {
            assert(order[pos[s]] == s);
        }
    }
    assert forall|i: int| 0 <= i < o2.len() implies nodes[o2[i] as int].data
        == old_nodes[order[i] as int].data by {
        assert(pos[order[i] as int] == i);
        assert(moved_into(old_nodes, nodes[o2[i] as int], o2[i] as int, last, k));
    }
    assert(values(nodes, o2) =~= values(old_nodes, order));
}

/// The view after inserting each value of `vs` at the tail, in order, starting from `s`.
pub open spec fn after_tail_inserts<T>(s: Seq<T>, vs: Seq<T>) -> Seq<T>
    decreases vs.len(),
{
    if vs.len() == 0 {
        s
    } else {
        after_tail_inserts(s, vs.drop_last()).push(vs.last())
    }
}

/// The view after deleting at the tail `n` times, starting from `s`; a deletion from an
/// empty list leaves it empty.
pub open spec fn after_tail_deletes<T>(s: Seq<T>, n: nat) -> Seq<T>
    decreases n,
{
    if n == 0 {
        s
    } else {
        let before = after_tail_deletes(s, (n - 1) as nat);
        if before.len() == 0 {
            before
        } else {
            before.drop_last()
        }
    }
}

/// Inserting the values `vs` one by one at the tail of an empty list gives the list `vs`.
pub proof fn lemma_tail_inserts_from_empty<T>(vs: Seq<T>)
    ensures
        after_tail_inserts(Seq::<T>::empty(), vs) == vs,
    decreases vs.len(),
{
    if vs.len() > 0 {
        lemma_tail_inserts_from_empty(vs.drop_last());
        assert(vs.drop_last().push(vs.last()) =~= vs);
    }
}

/// After `N` tail insertions into an empty list, `find` on the `N`-th inserted value
/// gives position `N - 1`, where no earlier value equals it (and it equals itself).
pub proof fn lemma_find_last_tail_insert<T: PartialEq>(vs: Seq<T>)
    requires
        vs.len() > 0,
        vs.last().eq_spec(&vs.last()),
        forall|j: int| 0 <= j < vs.len() - 1 ==> !(#[trigger] vs[j]).eq_spec(&vs.last()),
    ensures
        is_first_match(after_tail_inserts(Seq::<T>::empty(), vs), &vs.last(), vs.len() - 1),
{
    lemma_tail_inserts_from_empty(vs);
}

/// Deleting at the tail as many times as a list has elements empties it.
pub proof fn lemma_tail_deletes_empty<T>(s: Seq<T>, n: nat)
    requires
        n <= s.len(),
    ensures
        after_tail_deletes(s, n) == s.take(s.len() - n),
    decreases n,
{
    if n > 0 {
        lemma_tail_deletes_empty(s, (n - 1) as nat);
        assert(s.take(s.len() - (n - 1)).drop_last() =~= s.take(s.len() - n));
    } else {
        assert(s.take(s.len() as int) =~= s);
    }
}

/// A chain of nodes held in an arena: each node names its successor and its
/// predecessor by slot. The list keeps the slots of its first and last node.
pub struct DoubleLinkedList<T> {
    size: usize,
    head: Option<usize>,
    tail: Option<usize>,
    nodes: Vec<DoubleLinkedNode<T>>,
    order: Ghost<Seq<usize>>,
    pos: Ghost<Seq<int>>,
}

impl<T> View for DoubleLinkedList<T> {
    type V = Seq<T>;

    closed spec fn view(&self) -> Seq<T> {
        values(self.nodes@, self.order@)
    }
}

impl<T> DoubleLinkedList<T> {
    /// Every slot of the arena holds a node of the chain, the links agree with the
    /// chain's order in both directions, and the count is the chain's length.
    pub closed spec fn wf(&self) -> bool {
        &&& self.size == self.nodes@.len()
        &&& self.order@.len() == self.nodes@.len()
        &&& chain_ok(self.nodes@, self.order@, self.pos@, self.head, self.tail)
        &&& slots_listed(self.nodes@, self.order@, self.pos@, -1)
    }

    /// Whether the list has a first node.
    pub closed spec fn has_head(&self) -> bool {
        self.head is Some
    }

    /// Whether the list has a last node.
    pub closed spec fn has_tail(&self) -> bool {
        self.tail is Some
    }

    /// A list has a first and a last node exactly when it is not empty.
    pub proof fn lemma_ends(&self)
        requires
            self.wf(),
        ensures
            self.has_head() <==> self@.len() > 0,
            self.has_tail() <==> self@.len() > 0,
    {
    }

    /// After `N` deletions at the tail of a list of `N` elements, the list is empty and
    /// has neither a first nor a last node.
    pub proof fn lemma_drain_from_tail(l: Self, s: Seq<T>)
        requires
            l.wf(),
            l@ == after_tail_deletes(s, s.len()),
        ensures
            l@.len() == 0,
            !l.has_head(),
            !l.has_tail(),
    {
        lemma_tail_deletes_empty(s, s.len());
        assert(s.take(0).len() == 0);
        l.lemma_ends();
    }

    /// An empty list.
    pub fn new() -> (r: Self)
        ensures
            r.wf(),
            r@ == Seq::<T>::empty(),
    {
        DoubleLinkedList {
            size: 0,
            head: None,
            tail: None,
            nodes: Vec::new(),
            order: Ghost(Seq::empty()),
            pos: Ghost(Seq::empty()),
        }
    }

    /// Makes the empty list hold one node with `data`, which is both first and last.
    fn initialize_list(&mut self, data: T)
        requires
            old(self).wf(),
            old(self)@.len() == 0,
        ensures
            final(self).wf(),
            final(self)@ == seq![data],
    {
        let node = DoubleLinkedNode::new(data, None, None);
        self.nodes.push(node);
        self.head = Some(0);
        self.tail = Some(0);
        self.size = 1;
        proof {
            self.order@ = seq![0usize];
            self.pos@ = seq![0int];
        }
        assert(self@ =~= seq![data]);
    }

    /// Puts `data` in front of the first element.
    pub fn insert_at_head(&mut self, data: T)
        requires
            old(self).wf(),
            old(self)@.len() < usize::MAX,
        ensures
            final(self).wf(),
            final(self)@ == seq![data] + old(self)@,
    {
        match self.head {
            None => {
                self.initialize_list(data);
                assert(self@ =~= seq![data] + old(self)@);
            },
            Some(h) => {
                let slot = self.nodes.len();
                let node = DoubleLinkedNode::new(data, Some(h), None);
                self.nodes.push(node);
                self.nodes[h].prev = Some(slot);
                self.head = Some(slot);
                self.size = self.size + 1;
                let ghost old_order = self.order@;
                let ghost old_pos = self.pos@;
                proof {
                    self.order@ = seq![slot] + old_order;
                    self.pos@ = Seq::new(
                        old_pos.len() + 1,
                        |s: int| if s == slot { 0 } else { old_pos[s] + 1 },
                    );
                }
                assert forall|i: int| 0 <= i < self.order@.len() implies (
                #[trigger] self.nodes@[self.order@[i] as int]).next == slot_after(self.order@, i)
                    && self.nodes@[self.order@[i] as int].prev == slot_before(self.order@, i) by {
                    if i > 0 {
                        assert(self.order@[i] == old_order[i - 1]);
                    }
                }
                assert(self@ =~= seq![data] + old(self)@);
            },
        }
    }

    /// Puts `data` after the last element.
    pub fn insert_at_tail(&mut self, data: T)
        requires
            old(self).wf(),
            old(self)@.len() < usize::MAX,
        ensures
            final(self).wf(),
            final(self)@ == old(self)@.push(data),
    {
        match self.tail {
            None => {
                self.initialize_list(data);
                assert(self@ =~= old(self)@.push(data));
            },
            Some(t) => {
                let slot = self.nodes.len();
                let node = DoubleLinkedNode::new(data, None, Some(t));
                self.nodes.push(node);
                self.nodes[t].next = Some(slot);
                self.tail = Some(slot);
                self.size = self.size + 1;
                let ghost old_order = self.order@;
                let ghost old_pos = self.pos@;
                proof {
                    self.order@ = old_order.push(slot);
                    self.pos@ = old_pos.push(old_order.len() as int);
                }
                assert forall|i: int| 0 <= i < self.order@.len() implies (
                #[trigger] self.nodes@[self.order@[i] as int]).next == slot_after(self.order@, i)
                    && self.nodes@[self.order@[i] as int].prev == slot_before(self.order@, i) by {
                    if i < old_order.len() {
                        assert(self.order@[i] == old_order[i]);
                    }
                }
                assert(self@ =~= old(self)@.push(data));
            },
        }
    }

    /// Takes slot `k`, which no link names any more, out of the arena: the node of the
    /// last slot moves into `k`, and the links that named the last slot name `k` instead.
    /// Returns the value that slot `k` held.
    fn release_slot(&mut self, k: usize) -> (r: T)
        requires
            k < old(self).nodes@.len(),
            old(self).order@.len() + 1 == old(self).nodes@.len(),
            chain_ok(
                old(self).nodes@,
                old(self).order@,
                old(self).pos@,
                old(self).head,
                old(self).tail,
            ),
            slots_listed(old(self).nodes@, old(self).order@, old(self).pos@, k as int),
            forall|i: int| 0 <= i < old(self).order@.len() ==> old(self).order@[i] != k,
        ensures
            final(self).wf(),
            final(self)@ == values(old(self).nodes@, old(self).order@),
            r == old(self).nodes@[k as int].data,
    {
        let last = self.nodes.len() - 1;
        let ghost old_nodes = self.nodes@;
        let ghost old_order = self.order@;
        let ghost old_pos = self.pos@;
        if k < last {
            proof {
                lemma_neighbours_of_slot(
                    old_nodes,
                    old_order,
                    old_pos,
                    self.head,
                    self.tail,
                    k,
                    last,
                );
            }
            let removed = self.nodes.swap_remove(k);
            match self.nodes[k].prev {
                Some(a) => {
                    self.nodes[a].next = Some(k);
                },
                None => {},
            }
            match self.nodes[k].next {
                Some(b) => {
                    self.nodes[b].prev = Some(k);
                },
                None => {},
            }
            match self.head {
                Some(h) => {
                    if h == last {
                        self.head = Some(k);
                    }
                },
                None => {},
            }
            match self.tail {
                Some(t) => {
                    if t == last {
                        self.tail = Some(k);
                    }
                },
                None => {},
            }
            proof {
                let nodes = self.nodes@;
                assert forall|s: int| 0 <= s < last implies #[trigger] moved_into(
                    old_nodes,
                    nodes[s],
                    s,
                    last,
                    k,
                ) by {
                    if s != k {
                        assert(old_nodes[s].next == Some(last) <==> old_nodes[last as int].prev
                            == Some(s as usize));
                        assert(old_nodes[s].prev == Some(last) <==> old_nodes[last as int].next
                            == Some(s as usize));
                    }
                }
                lemma_relabelled_chain(
                    old_nodes,
                    old_order,
                    old_pos,
                    old(self).head,
                    old(self).tail,
                    nodes,
                    self.head,
                    self.tail,
                    k,
                    last,
                );
                self.order@ = relabel_all(old_order, last, k);
                self.pos@ = old_pos.update(k as int, old_pos[last as int]).drop_last();
            }
            self.size = self.nodes.len();
            removed.data
        } else {
            let removed = self.nodes.swap_remove(k);
            proof {
                self.pos@ = old_pos.drop_last();
                assert(self@ =~= values(old_nodes, old_order));
                assert(self.nodes@ =~= old_nodes.drop_last());
                assert forall|i: int| 0 <= i < old_order.len() implies (
                #[trigger] old_order[i] as int) < last by {
                    assert(old_pos[old_order[i] as int] == i);
                }
            }
            self.size = self.nodes.len();
            removed.data
        }
    }

    /// Detaches the first element and returns it; nothing on an empty list.
    /// When the last element goes, the list has neither a first nor a last node.
    pub fn delete_at_head(&mut self) -> (r: Option<T>)
        requires
            old(self).wf(),
        ensures
            final(self).wf(),
            old(self)@.len() == 0 ==> r is None && final(self)@ == old(self)@,
            old(self)@.len() > 0 ==> r == Some(old(self)@[0]) && final(self)@ == old(
                self,
            )@.drop_first(),
    {
        let h = match self.head {
            None => {
                return None;
            },
            Some(h) => h,
        };
        let ghost old_order = self.order@;
        let ghost old_pos = self.pos@;
        match self.nodes[h].next {
            None => {
                self.head = None;
                self.tail = None;
            },
            Some(b) => {
                self.nodes[b].prev = None;
                self.head = Some(b);
            },
        }
        proof {
            self.order@ = old_order.drop_first();
            self.pos@ = Seq::new(old_pos.len(), |s: int| old_pos[s] - 1);
            assert forall|i: int| 0 <= i < old_order.len() implies old_order[i] != h || i == 0 by {
                assert(old_pos[old_order[i] as int] == i);
            }
            let order = self.order@;
            let nodes = self.nodes@;
            assert forall|i: int| 0 <= i < order.len() implies (
            #[trigger] nodes[order[i] as int]).next
                == slot_after(order, i) && nodes[order[i] as int].prev == slot_before(order, i) by {
                assert(order[i] == old_order[i + 1]);
                assert(old_pos[old_order[i + 1] as int] == i + 1);
            }
        }
        let data = self.release_slot(h);
        assert(self@ =~= old(self)@.drop_first());
        Some(data)
    }

    /// Detaches the last element and returns it; nothing on an empty list.
    /// When the last element goes, the list has neither a first nor a last node.
    pub fn delete_at_tail(&mut self) -> (r: Option<T>)
        requires
            old(self).wf(),
        ensures
            final(self).wf(),
            old(self)@.len() == 0 ==> r is None && final(self)@ == old(self)@,
            old(self)@.len() > 0 ==> r == Some(old(self)@.last()) && final(self)@ == old(
                self,
            )@.drop_last(),
    {
        let t = match self.tail {
            None => {
                return None;
            },
            Some(t) => t,
        };
        let ghost old_order = self.order@;
        let ghost old_pos = self.pos@;
        match self.nodes[t].prev {
            None => {
                self.head = None;
                self.tail = None;
            },
            Some(a) => {
                self.nodes[a].next = None;
                self.tail = Some(a);
            },
        }
        proof {
            self.order@ = old_order.drop_last();
            let n = old_order.len();
            assert forall|i: int| 0 <= i < n implies old_order[i] != t || i == n - 1 by {
                assert(old_pos[old_order[i] as int] == i);
            }
            let order = self.order@;
            let nodes = self.nodes@;
            assert forall|i: int| 0 <= i < order.len() implies (
            #[trigger] nodes[order[i] as int]).next
                == slot_after(order, i) && nodes[order[i] as int].prev == slot_before(order, i) by {
                assert(order[i] == old_order[i]);
                assert(old_pos[old_order[i] as int] == i);
            }
        }
        let data = self.release_slot(t);
        assert(self@ =~= old(self)@.drop_last());
        Some(data)
    }

    /// The first element, or nothing on an empty list.
    pub fn get_head(&self) -> (r: Option<&T>)
        requires
            self.wf(),
        ensures
            match r {
                Some(x) => self@.len() > 0 && *x == self@[0],
                None => self@.len() == 0,
            },
    {
        match self.head {
            None => None,
            Some(h) => Some(&self.nodes[h].data),
        }
    }

    /// The last element, or nothing on an empty list.
    pub fn get_tail(&self) -> (r: Option<&T>)
        requires
            self.wf(),
        ensures
            match r {
                Some(x) => self@.len() > 0 && *x == self@.last(),
                None => self@.len() == 0,
            },
    {
        match self.tail {
            None => None,
            Some(t) => Some(&self.nodes[t].data),
        }
    }

    /// The position of the first element equal to `data`, following the forward links
    /// from the head; nothing when no element equals it.
    pub fn find(&self, data: T) -> (r: Option<usize>)
        where
            T: PartialEq,
        requires
            self.wf(),
            T::obeys_eq_spec(),
        ensures
            match r {
                None => !has_match(self@, &data),
                Some(i) => is_first_match(self@, &data, i as int),
            },
    {
        let mut current = self.head;
        let mut index: usize = 0;
        while index < self.nodes.len()
            invariant
                self.wf(),
                T::obeys_eq_spec(),
                index <= self@.len(),
                index < self@.len() ==> current == Some(self.order@[index as int]),
                forall|j: int| 0 <= j < index ==> !(#[trigger] self@[j]).eq_spec(&data),
            decreases self@.len() - index,
        {
            let slot = match current {
                Some(s) => s,
                None => {
                    return None;
                },
            };
            assert(self.nodes@[self.order@[index as int] as int] == self.nodes@[slot as int]);
            if self.nodes[slot].data == data {
                return Some(index);
            }
            assert(self.nodes@[self.order@[index as int] as int].next == slot_after(
                self.order@,
                index as int,
            ));
            current = self.nodes[slot].next;
            index = index + 1;
        }
        None
    }

    /// The elements front to back, reached by following the forward links from the head.
    pub fn elements_forward(&self) -> (r: Vec<&T>)
        requires
            self.wf(),
        ensures
            r@.len() == self@.len(),
            forall|i: int| 0 <= i < r@.len() ==> *r@[i] == self@[i],
    {
        let mut out: Vec<&T> = Vec::new();
        let mut current = self.head;
        while out.len() < self.nodes.len()
            invariant
                self.wf(),
                out@.len() <= self@.len(),
                out@.len() < self@.len() ==> current == Some(self.order@[out@.len() as int]),
                forall|i: int| 0 <= i < out@.len() ==> *out@[i] == self@[i],
            decreases self@.len() - out@.len(),
        {
            let ghost k = out@.len() as int;
            let slot = match current {
                Some(s) => s,
                None => {
                    return out;
                },
            };
            assert(self.nodes@[self.order@[k] as int].next == slot_after(self.order@, k));
            out.push(&self.nodes[slot].data);
            current = self.nodes[slot].next;
        }
        out
    }

    /// The elements back to front, reached by following the back links from the tail.
    pub fn elements_backward(&self) -> (r: Vec<&T>)
        requires
            self.wf(),
        ensures
            r@.len() == self@.len(),
            forall|i: int| 0 <= i < r@.len() ==> *r@[i] == self@[self@.len() - 1 - i],
    {
        let mut out: Vec<&T> = Vec::new();
        let mut current = self.tail;
        while out.len() < self.nodes.len()
            invariant
                self.wf(),
                out@.len() <= self@.len(),
                out@.len() < self@.len() ==> current == Some(
                    self.order@[self@.len() - 1 - out@.len()],
                ),
                forall|i: int| 0 <= i < out@.len() ==> *out@[i] == self@[self@.len() - 1 - i],
            decreases self@.len() - out@.len(),
        {
            let ghost k = self@.len() - 1 - out@.len();
            let slot = match current {
                Some(s) => s,
                None => {
                    return out;
                },
            };
            assert(self.nodes@[self.order@[k] as int].prev == slot_before(self.order@, k));
            out.push(&self.nodes[slot].data);
            current = self.nodes[slot].prev;
        }
        out
    }

    /// Whether the list holds no element.
    pub fn is_empty(&self) -> (r: bool)
        requires
            self.wf(),
        ensures
            r == (self@.len() == 0),
    {
        self.head.is_none()
    }

    /// The number of elements held.
    pub fn get_size(&self) -> (r: usize)
        requires
            self.wf(),
        ensures
            r == self@.len(),
    {
        self.size
    }
}

} // verus!
