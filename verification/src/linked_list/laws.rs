//! What holds between the operations of a list, stated over the sequences of elements that
//! their contracts speak of.

use super::LinkedList;
use vstd::prelude::*;

verus! {

/// The elements that come out when a list with the elements `s` is popped until it gives
/// `None`, in the order in which they come: each pop hands out the last element and leaves
/// those before it.
pub open spec fn drained<T>(s: Seq<T>) -> Seq<T>
    decreases s.len(),
{
    if s.len() == 0 {
        Seq::empty()
    } else {
        seq![s.last()] + drained(s.drop_last())
    }
}

/// Popping a list until it is empty hands out as many elements as `len` counted, and hands
/// them out from the tail to the head: the reverse of the order in which they stand.
pub proof fn lemma_drain_hands_out_all<T: Clone>(list: LinkedList<T>)
    ensures
        drained(list@).len() == list@.len(),
        drained(list@) == list@.reverse(),
{
    lemma_drained_is_reverse(list@);
}

/// `drained` turns a sequence round.
proof fn lemma_drained_is_reverse<T>(s: Seq<T>)
    ensures
        drained(s) == s.reverse(),
    decreases s.len(),
{
    if s.len() > 0 {
        lemma_drained_is_reverse(s.drop_last());
    }
    assert(drained(s) =~= s.reverse());
}

/// A pop that follows a push gives back the element that was pushed and leaves the list as it
/// was before the push.
pub proof fn lemma_pop_undoes_push<T: Clone>(list: LinkedList<T>, elem: T)
    ensures
        list@.push(elem).len() > 0,
        list@.push(elem).last() == elem,
        list@.push(elem).drop_last() == list@,
{
    assert(list@.push(elem).drop_last() =~= list@);
}

/// Three elements pushed onto an empty list come back in the opposite order, one pop after the
/// other, and then the list is empty again, so that a fourth pop gives `None`.
pub proof fn lemma_pops_reverse_pushes<T>(a: T, b: T, c: T)
    ensures
        ({
            let pushed = Seq::<T>::empty().push(a).push(b).push(c);
            let after_one = pushed.drop_last();
            let after_two = after_one.drop_last();
            let after_three = after_two.drop_last();
            &&& pushed.last() == c
            &&& after_one.last() == b
            &&& after_two.last() == a
            &&& after_three.len() == 0
            &&& drained(pushed) == seq![c, b, a]
        }),
{
    let pushed = Seq::<T>::empty().push(a).push(b).push(c);
    lemma_drained_is_reverse(pushed);
    assert(pushed.reverse() =~= seq![c, b, a]);
}

/// An insert at `index` puts the new element at `index + 1`: the elements up to and with the
/// one at `index` keep their places, and those behind it move back by one.
pub proof fn lemma_insert_lands_behind_index<T: Clone>(list: LinkedList<T>, index: usize, elem: T)
    requires
        index < list@.len(),
    ensures
        list@.insert(index + 1, elem).len() == list@.len() + 1,
        list@.insert(index + 1, elem)[index + 1] == elem,
        forall|i: int|
            0 <= i <= index ==> #[trigger] list@.insert(index + 1, elem)[i] == list@[i],
        forall|i: int|
            index + 1 < i <= list@.len() ==> #[trigger] list@.insert(index + 1, elem)[i] == list@[i
                - 1],
{
}

/// A remove at `index` takes out that one element and nothing else: the list is one shorter,
/// the elements before `index` keep their places, and each of those behind it moves up by one,
/// so that the chain ends where the elements that were left end.
pub proof fn lemma_remove_closes_gap<T: Clone>(list: LinkedList<T>, index: usize)
    requires
        index < list@.len(),
    ensures
        list@.remove(index as int).len() == list@.len() - 1,
        forall|i: int| 0 <= i < index ==> #[trigger] list@.remove(index as int)[i] == list@[i],
        forall|i: int|
            index <= i < list@.len() - 1 ==> #[trigger] list@.remove(index as int)[i] == list@[i
                + 1],
{
}

/// A remove at `index + 1` that follows an insert at `index` gives back the element that was
/// inserted and leaves the list as it was before the insert.
pub proof fn lemma_remove_undoes_insert<T: Clone>(list: LinkedList<T>, index: usize, elem: T)
    requires
        index < list@.len(),
    ensures
        list@.insert(index + 1, elem)[index + 1] == elem,
        list@.insert(index + 1, elem).remove(index + 1) == list@,
{
    assert(list@.insert(index + 1, elem).remove(index + 1) =~= list@);
}

} // verus!
