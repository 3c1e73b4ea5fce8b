//! A singly linked list with a length counter.
//!
//! Every node owns the node behind it, so the chain from the head is finite, free of cycles and
//! reachable from the list alone. The list is modelled by the sequence of its elements from the
//! head to the tail, and every operation says what it does to that sequence.
//!
//! All four changing operations walk the chain from the head: `push` and `pop` work at the
//! tail and cost as many steps as the list is long.

use vstd::prelude::*;

pub mod laws;

verus! {

/// What a list or a node holds of the chain behind it: the next node with all that follow it,
/// or nothing where the chain ends.
type Link<T> = Option<Box<Node<T>>>;

/// One element of a list and the link to the node behind it.
#[derive(Debug, PartialEq, Eq)]
pub struct Node<T: Clone> {
    elem: T,
    next: Link<T>,
}

/// A singly linked list that keeps count of its nodes.
#[derive(Debug, PartialEq, Eq)]
pub struct LinkedList<T: Clone> {
    head: Link<T>,
    len: usize,
}

/// The elements of the nodes that are reached from `link`, nearest first.
spec fn elems_from<T: Clone>(link: Link<T>) -> Seq<T>
    decreases link,
{
    match link {
        None => Seq::empty(),
        Some(node) => seq![node.elem] + elems_from(node.next),
    }
}

/// Where the elements from position `i` on are `x` and then `rest`, `x` is the element at `i`,
/// `rest` is what stands behind it, and the first `i + 1` elements are the first `i` and `x`.
proof fn lemma_split_at<T>(elems: Seq<T>, i: int, x: T, rest: Seq<T>)
    requires
        0 <= i <= elems.len(),
        elems.skip(i) == seq![x] + rest,
    ensures
        i < elems.len(),
        elems[i] == x,
        elems.skip(i + 1) == rest,
        elems.take(i + 1) == elems.take(i).push(x),
{
    assert(elems.skip(i).len() == 1 + rest.len());
    assert(elems.skip(i)[0] == elems[i]);
    assert(rest =~= elems.skip(i).skip(1));
}

/// Steps from a link that holds a node to the link inside that node.
fn next_link<T: Clone>(link: &mut Link<T>) -> (next: &mut Link<T>)
    requires
        old(link).is_some(),
    ensures
        *next == old(link).unwrap().next,
        elems_from(*old(link)) == seq![old(link).unwrap().elem] + elems_from(*next),
        elems_from(*final(link)) == seq![old(link).unwrap().elem] + elems_from(*final(next)),
{
    &mut link.as_mut().unwrap().next
}

/// Walks down from `head` to the link behind the last node, the one that holds nothing.
/// Whatever is later put into that link stands behind all the elements that were there.
fn tail_link<T: Clone>(head: &mut Link<T>) -> (tail: &mut Link<T>)
    ensures
        *tail is None,
        elems_from(*final(head)) == elems_from(*old(head)) + elems_from(*final(tail)),
{
    let ghost elems = elems_from(*head);
    let ghost mut i: int = 0;
    let mut cur = head;
    while cur.is_some()
        invariant
            0 <= i <= elems.len(),
            elems_from(*cur) == elems.skip(i),
            elems_from(*final(head)) == elems.take(i) + elems_from(*final(cur)),
        decreases elems.len() - i,
    {
        let ghost passed = cur;
        cur = next_link(cur);
        proof {
            lemma_split_at(elems, i, passed.unwrap().elem, elems_from(*cur));
            i = i + 1;
        }
    }
    cur
}

/// Walks `k` links down from `head`: to the link that holds the node at position `k`, or, where
/// `k` is the number of nodes, to the empty link behind the last one. The first `k` elements
/// stay as they are, whatever is later done through the link that is handed back.
fn link_at<T: Clone>(head: &mut Link<T>, k: usize) -> (link: &mut Link<T>)
    requires
        k <= elems_from(*old(head)).len(),
    ensures
        elems_from(*link) == elems_from(*old(head)).skip(k as int),
        elems_from(*final(head)) == elems_from(*old(head)).take(k as int) + elems_from(
            *final(link),
        ),
{
    let ghost elems = elems_from(*head);
    let mut cur = head;
    let mut i: usize = 0;
    while i < k
        invariant
            i <= k <= elems.len(),
            elems_from(*cur) == elems.skip(i as int),
            elems_from(*final(head)) == elems.take(i as int) + elems_from(*final(cur)),
        decreases k - i,
    {
        let ghost passed = cur;
        cur = next_link(cur);
        proof {
            lemma_split_at(elems, i as int, passed.unwrap().elem, elems_from(*cur));
        }
        i = i + 1;
    }
    cur
}

impl<T: Clone> View for LinkedList<T> {
    type V = Seq<T>;

    /// The elements of the list, from the head to the tail.
    closed spec fn view(&self) -> Seq<T> {
        elems_from(self.head)
    }
}

impl<T: Clone> LinkedList<T> {
    /// The counter is the number of nodes behind the head, and the head is absent exactly when
    /// the counter is zero.
    #[verifier::type_invariant]
    spec fn counts_its_nodes(self) -> bool {
        &&& self.len == elems_from(self.head).len()
        &&& self.head is None <==> self.len == 0
    }

    /// Create a new, empty `LinkedList`.
    pub fn new() -> (list: LinkedList<T>)
        ensures
            list@ == Seq::<T>::empty(),
    {
        LinkedList { head: None, len: 0 }
    }

    /// Takes the chain and the counter out and leaves the list empty. The two only fit each
    /// other, so an operation takes both, changes the chain, and puts both back at once.
    fn take_parts(&mut self) -> (parts: (Link<T>, usize))
        ensures
            elems_from(parts.0) == old(self)@,
            parts.1 == old(self)@.len(),
            final(self)@ == Seq::<T>::empty(),
    {
        proof {
            use_type_invariant(&*self);
        }
        let mut taken = LinkedList::new();
        core::mem::swap(self, &mut taken);
        let LinkedList { head, len } = taken;
        (head, len)
    }

    /// Add an element at the tail of the list, behind all the others.
    ///
    /// The whole chain is walked to find the tail.
    pub fn push(&mut self, elem: T)
        requires
            old(self)@.len() < usize::MAX,
        ensures
            final(self)@ == old(self)@.push(elem),
    {
        let (mut head, len) = self.take_parts();
        let tail = tail_link(&mut head);
        *tail = Some(Box::new(Node { elem, next: None }));
        *self = LinkedList { head, len: len + 1 };
    }

    /// Remove the element at the tail of the list and return it.
    /// Returns `None` if the list is empty, and then leaves it as it is.
    pub fn pop(&mut self) -> (popped: Option<T>)
        ensures
            old(self)@.len() == 0 ==> {
                &&& popped is None
                &&& final(self)@ == old(self)@
            },
            old(self)@.len() > 0 ==> {
                &&& popped == Some(old(self)@.last())
                &&& final(self)@ == old(self)@.drop_last()
            },
    {
        if self.is_empty() {
            return None;
        }
        let ghost elems = self@;
        let (mut head, len) = self.take_parts();
        let link = link_at(&mut head, len - 1);
        let last = link.take().unwrap();
        proof {
            lemma_split_at(elems, len - 1, last.elem, elems_from(last.next));
            assert(elems.take(len - 1) =~= elems.drop_last());
        }
        *self = LinkedList { head, len: len - 1 };
        Some(last.elem)
    }

    /// Insert an element behind the one at the given index, so that it comes to stand at
    /// `index + 1`. The element at `index` and those before it keep their places.
    ///
    /// The index must be that of an element of the list: nothing can be inserted before the
    /// head, nor into an empty list.
    pub fn insert(&mut self, index: usize, elem: T)
        requires
            index < old(self)@.len(),
            old(self)@.len() < usize::MAX,
        ensures
            final(self)@ == old(self)@.insert(index + 1, elem),
    {
        let ghost elems = self@;
        let (mut head, len) = self.take_parts();
        let link = link_at(&mut head, index);
        let node = link.as_mut().unwrap();
        let rest = node.next.take();
        node.next = Some(Box::new(Node { elem, next: rest }));
        proof {
            lemma_split_at(elems, index as int, node.elem, elems_from(rest));
            assert(elems_from(node.next) == seq![elem] + elems.skip(index + 1));
            assert(elems.take(index + 1) + (seq![elem] + elems.skip(index + 1)) =~= elems.insert(
                index + 1,
                elem,
            ));
        }
        *self = LinkedList { head, len: len + 1 };
    }

    /// Remove the element at the given index and return it. Those behind it move up by one.
    ///
    /// The index must be that of an element of the list.
    pub fn remove(&mut self, index: usize) -> (removed: T)
        requires
            index < old(self)@.len(),
        ensures
            removed == old(self)@[index as int],
            final(self)@ == old(self)@.remove(index as int),
    {
        let ghost elems = self@;
        let (mut head, len) = self.take_parts();
        let link = link_at(&mut head, index);
        let node = link.take().unwrap();
        let Node { elem, next } = *node;
        *link = next;
        proof {
            lemma_split_at(elems, index as int, elem, elems_from(next));
            assert(elems.take(index as int) + elems.skip(index + 1) =~= elems.remove(index as int));
        }
        *self = LinkedList { head, len: len - 1 };
        elem
    }

    /// Return `true` if the list is empty.
    pub fn is_empty(&self) -> (empty: bool)
        ensures
            empty <==> self@.len() == 0,
    {
        proof {
            use_type_invariant(self);
        }
        self.len == 0
    }

    /// Length of the list: the counter, which is the number of elements at all times.
    pub fn len(&self) -> (n: usize)
        ensures
            n == self@.len(),
    {
        proof {
            use_type_invariant(self);
        }
        self.len
    }
}

impl<T: Clone> Default for LinkedList<T> {
    /// An empty list, as `new` makes it.
    fn default() -> (list: LinkedList<T>)
        ensures
            list@ == Seq::<T>::empty(),
    {
        LinkedList::new()
    }
}

impl<T: Clone> Clone for LinkedList<T> {
    /// A list of its own, as long as this one, that holds a clone of each element in the place
    /// of that element.
    fn clone(&self) -> (copy: LinkedList<T>)
        ensures
            copy@.len() == self@.len(),
            forall|i: int| 0 <= i < self@.len() ==> cloned(self@[i], #[trigger] copy@[i]),
    {
        proof {
            use_type_invariant(self);
        }
        let ghost elems = self@;
        let ghost mut copied: Seq<T> = Seq::empty();
        let mut head: Link<T> = None;
        let mut tail = &mut head;
        let mut from = &self.head;
        while from.is_some()
            invariant
                *tail is None,
                copied.len() <= elems.len(),
                elems_from(*from) == elems.skip(copied.len() as int),
                elems_from(after_borrow(head)) == copied + elems_from(*final(tail)),
                forall|i: int| 0 <= i < copied.len() ==> cloned(elems[i], #[trigger] copied[i]),
            decreases elems.len() - copied.len(),
        {
            let node = from.as_ref().unwrap();
            let elem = node.elem.clone();
            *tail = Some(Box::new(Node { elem, next: None }));
            tail = next_link(tail);
            from = &node.next;
            proof {
                lemma_split_at(elems, copied.len() as int, node.elem, elems_from(*from));
                copied = copied.push(elem);
            }
        }
        LinkedList { head, len: self.len }
    }
}

} // verus!
