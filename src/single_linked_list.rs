use vstd::prelude::*;

use crate::ordering::{has_match, is_first_match};
use vstd::std_specs::cmp::PartialEqSpec;

verus! {

/// One link of the chain: the node owns its successor.
#[derive(Debug)]
struct SingleLinkedNode<T> {
    data: T,
    next: Option<Box<SingleLinkedNode<T>>>,
}

/// The values reached from `link`, following successors to the end of the chain.
spec fn chain_view<T>(link: Option<Box<SingleLinkedNode<T>>>) -> Seq<T>
    decreases link,
{
    match link {
        None => Seq::empty(),
        Some(node) => seq![node.data] + chain_view(node.next),
    }
}

impl<T> SingleLinkedNode<T> {
    fn new(data: T, next: Option<Box<SingleLinkedNode<T>>>) -> (r: Box<Self>)
        ensures
            r.data == data,
            r.next == next,
    {
        Box::new(SingleLinkedNode { data, next })
    }
}

/// Hangs a new node holding `data` after the last node reached from `link`.
fn append_to_chain<T>(link: Option<Box<SingleLinkedNode<T>>>, data: T) -> (r: Option<
    Box<SingleLinkedNode<T>>,
>)
    ensures
        chain_view(r) == chain_view(link).push(data),
    decreases link,
{
    match link {
        None => {
            let r = Some(SingleLinkedNode::new(data, None));
            assert(chain_view::<T>(None) =~= Seq::empty());
            assert(chain_view(r) =~= seq![data]);
            r
        },
        Some(mut node) => {
            let rest = node.next.take();
            node.next = append_to_chain(rest, data);
            let r = Some(node);
            assert(chain_view(r) =~= chain_view(link).push(data));
            r
        },
    }
}

/// Unlinks the first node reached from `link` whose value equals `v`, and hands back
/// the remaining chain with the value that was unlinked.
fn remove_first_from_chain<T: PartialEq>(link: Option<Box<SingleLinkedNode<T>>>, v: &T) -> (r: (
    Option<Box<SingleLinkedNode<T>>>,
    Option<T>,
))
    requires
        T::obeys_eq_spec(),
    ensures
        match r.1 {
            None => !has_match(chain_view(link), v) && chain_view(r.0) == chain_view(link),
            Some(x) => exists|i: int|
                is_first_match(chain_view(link), v, i) && x == chain_view(link)[i] && chain_view(
                    r.0,
                ) == chain_view(link).remove(i),
        },
    decreases link,
{
    match link {
        None => (None, None),
        Some(mut node) => {
            let ghost whole = chain_view(link);
            if node.data == *v {
                let SingleLinkedNode { data, next } = *node;
                assert(is_first_match(whole, v, 0));
                assert(chain_view(next) =~= whole.remove(0));
                (next, Some(data))
            } else {
                let rest = node.next.take();
                let ghost tail = chain_view(rest);
                assert(whole =~= seq![node.data] + tail);
                let (rest, found) = remove_first_from_chain(rest, v);
                node.next = rest;
                let r = (Some(node), found);
                proof {
                    if r.1 is None {
                        assert(chain_view(r.0) =~= whole);
                        assert forall|j: int| 0 <= j < whole.len() implies !(
                        #[trigger] whole[j]).eq_spec(v) by {
                            if j > 0 {
                                assert(whole[j] == tail[j - 1]);
                            }
                        }
                    } else {
                        let x = r.1->Some_0;
                        let i = choose|i: int|
                            is_first_match(tail, v, i) && x == tail[i] && chain_view(rest)
                                == tail.remove(i);
                        assert(is_first_match(whole, v, i + 1)) by {
                            assert forall|j: int| 0 <= j < i + 1 implies !(
                            #[trigger] whole[j]).eq_spec(v) by {
                                if j > 0 {
                                    assert(whole[j] == tail[j - 1]);
                                }
                            }
                        }
                        assert(chain_view(r.0) =~= whole.remove(i + 1));
                    }
                }
                r
            }
        },
    }
}

/// A forward-only chain of owned nodes, with a count of its nodes.
#[derive(Debug)]
pub struct SingleLinkedList<T> {
    head: Option<Box<SingleLinkedNode<T>>>,
    size: usize,
}

impl<T> View for SingleLinkedList<T> {
    type V = Seq<T>;

    closed spec fn view(&self) -> Seq<T> {
        chain_view(self.head)
    }
}

impl<T> SingleLinkedList<T> {
    /// The count equals the number of nodes reachable from the head.
    pub closed spec fn wf(&self) -> bool {
        self.size == chain_view(self.head).len()
    }

    /// An empty list.
    pub fn new() -> (r: Self)
        ensures
            r.wf(),
            r@ == Seq::<T>::empty(),
    {
        SingleLinkedList { head: None, size: 0 }
    }

    /// The elements front to back, reached by following the links from the head.
    pub fn elements(&self) -> (r: Vec<&T>)
        requires
            self.wf(),
        ensures
            r@.len() == self@.len(),
            forall|i: int| 0 <= i < r@.len() ==> *r@[i] == self@[i],
    {
        let mut out: Vec<&T> = Vec::new();
        let mut cur = &self.head;
        loop
            invariant
                out@.len() + chain_view(*cur).len() == self@.len(),
                chain_view(*cur) == self@.subrange(out@.len() as int, self@.len() as int),
                forall|i: int| 0 <= i < out@.len() ==> *out@[i] == self@[i],
            decreases chain_view(*cur).len(),
        {
            match cur {
                None => {
                    return out;
                },
                Some(node) => {
                    assert(chain_view(*cur) == seq![node.data] + chain_view(node.next));
                    assert(self@[out@.len() as int] == chain_view(*cur)[0]);
                    assert(chain_view(node.next) =~= chain_view(*cur).drop_first());
                    assert(chain_view(node.next) =~= self@.subrange(
                        out@.len() + 1 as int,
                        self@.len() as int,
                    ));
                    out.push(&node.data);
                    cur = &node.next;
                },
            }
        }
    }

    /// Whether the list holds no element.
    pub fn is_empty(&self) -> (r: bool)
        ensures
            r == (self@.len() == 0),
    {
        match &self.head {
            None => true,
            Some(_) => false,
        }
    }

    /// The number of elements held.
    pub fn get_size(&self) -> (r: usize)
        requires
            self.wf(),
        ensures
            r == self@.len(),
    {
        self.size
    }

    /// Puts `data` in front of the first element.
    pub fn insert_at_head(&mut self, data: T)
        requires
            old(self).wf(),
            old(self)@.len() < usize::MAX,
        ensures
            final(self).wf(),
            final(self)@ == seq![data] + old(self)@,
    {
        let rest = self.head.take();
        self.head = Some(SingleLinkedNode::new(data, rest));
        self.size = self.size + 1;
    }

    /// Puts `data` after the last element.
    pub fn insert_at_tail(&mut self, data: T)
        requires
            old(self).wf(),
            old(self)@.len() < usize::MAX,
        ensures
            final(self).wf(),
            final(self)@ == old(self)@.push(data),
    {
        let chain = self.head.take();
        self.head = append_to_chain(chain, data);
        self.size = self.size + 1;
    }

    /// Detaches the first element and returns it; nothing on an empty list.
    pub fn delete_at_head(&mut self) -> (r: Option<T>)
        requires
            old(self).wf(),
        ensures
            final(self).wf(),
            old(self)@.len() == 0 ==> r is None && final(self)@ == old(self)@,
            old(self)@.len() > 0 ==> r == Some(old(self)@[0]) && final(self)@ == old(
                self,
            )@.drop_first(),
    {
        match self.head.take() {
            None => None,
            Some(node) => {
                let SingleLinkedNode { data, next } = *node;
                assert(chain_view(next) =~= old(self)@.drop_first());
                self.head = next;
                self.size = self.size - 1;
                Some(data)
            },
        }
    }

    /// Removes the first element equal to `data` and returns it; nothing when
    /// no element equals it.
    pub fn delete(&mut self, data: T) -> (r: Option<T>)
        where
            T: PartialEq,
        requires
            old(self).wf(),
            T::obeys_eq_spec(),
        ensures
            final(self).wf(),
            match r {
                None => !has_match(old(self)@, &data) && final(self)@ == old(self)@,
                Some(x) => exists|i: int|
                    is_first_match(old(self)@, &data, i) && x == old(self)@[i] && final(self)@
                        == old(self)@.remove(i),
            },
    {
        let chain = self.head.take();
        let (rest, found) = remove_first_from_chain(chain, &data);
        assert(chain_view(chain) == old(self)@);
        self.head = rest;
        match found {
            None => {},
            Some(_) => {
                self.size = self.size - 1;
            },
        }
        found
    }

    /// The position of the first element equal to `data`; nothing when no element
    /// equals it.
    pub fn find(&self, data: T) -> (r: Option<usize>)
        where
            T: PartialEq,
        requires
            self.wf(),
            T::obeys_eq_spec(),
        ensures
            match r {
                None => !has_match(self@, &data),
                Some(i) => is_first_match(self@, &data, i as int),
            },
    {
        let mut cur = &self.head;
        let mut index: usize = 0;
        loop
            invariant
                T::obeys_eq_spec(),
                index + chain_view(*cur).len() == self@.len(),
                chain_view(*cur) == self@.subrange(index as int, self@.len() as int),
                self.size == self@.len(),
                forall|j: int| 0 <= j < index ==> !(#[trigger] self@[j]).eq_spec(&data),
            decreases chain_view(*cur).len(),
        {
            match cur {
                None => {
                    return None;
                },
                Some(node) => {
                    assert(chain_view(*cur) == seq![node.data] + chain_view(node.next));
                    assert(self@[index as int] == chain_view(*cur)[0]);
                    if node.data == data {
                        return Some(index);
                    }
                    assert(chain_view(node.next) =~= chain_view(*cur).drop_first());
                    assert(chain_view(node.next) =~= self@.subrange(
                        index + 1,
                        self@.len() as int,
                    ));
                    cur = &node.next;
                    index = index + 1;
                },
            }
        }
    }
}

} // verus!
