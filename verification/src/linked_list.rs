//! A singly linked list.

use crate::text::texts;
use vstd::pervasive::cloned;
use vstd::prelude::*;
use vstd::std_specs::cmp::{PartialEqSpec, PartialEqSpecImpl};
use vstd::string::{to_string_from_display_ensures, StringExecFns};

verus! {

/// One cell of a list: a value and the rest of the list.
pub struct Node<T> {
    value: T,
    next: Option<Box<Node<T>>>,
}

/// The values of the cells from `link` on, in order.
pub closed spec fn chain<T>(link: Option<Box<Node<T>>>) -> Seq<T>
    decreases link,
{
    match link {
        None => Seq::empty(),
        Some(node) => seq![node.value] + chain(node.next),
    }
}

impl<T> Node<T> {
    /// The values of this cell and of those that follow it, in order.
    pub closed spec fn values(self) -> Seq<T> {
        seq![self.value] + chain(self.next)
    }

    /// A cell that holds `value` in front of the cells of `next`.
    pub fn new(value: T, next: Option<Box<Node<T>>>) -> (node: Node<T>)
        ensures
            node.values() == seq![value] + chain(next),
    {
        Node { value: value, next: next }
    }
}

/// A list of values, with its length.
pub struct LinkedList<T> {
    head: Option<Box<Node<T>>>,
    size: usize,
}

impl<T> View for LinkedList<T> {
    type V = Seq<T>;

    closed spec fn view(&self) -> Seq<T> {
        chain(self.head)
    }
}

impl<T> LinkedList<T> {
    /// The length that the list holds is the number of its values.
    pub closed spec fn wf(&self) -> bool {
        self.size == chain(self.head).len()
    }

    /// The empty list.
    pub fn new() -> (list: LinkedList<T>)
        ensures
            list.wf(),
            list@ == Seq::<T>::empty(),
    {
        LinkedList { head: None, size: 0 }
    }

    /// The number of values in the list.
    pub fn get_size(&self) -> (size: usize)
        requires
            self.wf(),
        ensures
            size == self@.len(),
    {
        self.size
    }

    /// Whether the list holds no value.
    pub fn is_empty(&self) -> (empty: bool)
        requires
            self.wf(),
        ensures
            empty == (self@.len() == 0),
    {
        self.get_size() == 0
    }

    /// Puts `value` in front of the list.
    pub fn push_front(&mut self, value: T)
        requires
            old(self).wf(),
            old(self)@.len() < usize::MAX,
        ensures
            final(self).wf(),
            final(self)@ == seq![value] + old(self)@,
    {
        let rest: Option<Box<Node<T>>> = self.head.take();
        let new_node: Box<Node<T>> = Box::new(Node::new(value, rest));
        self.head = Some(new_node);
        self.size += 1;
    }

    /// Takes the first value off the list, if there is one.
    pub fn pop_front(&mut self) -> (value: Option<T>)
        requires
            old(self).wf(),
        ensures
            final(self).wf(),
            old(self)@.len() == 0 ==> value is None && final(self)@ == old(self)@,
            old(self)@.len() > 0 ==> value == Some(old(self)@[0]) && final(self)@
                == old(self)@.drop_first(),
    {
        match self.head.take() {
            None => None,
            Some(node) => {
                let Node { value, next } = *node;
                assert(old(self)@ == seq![value] + chain(next));
                assert((seq![value] + chain(next)).drop_first() =~= chain(next));
                self.head = next;
                self.size -= 1;
                Some(value)
            },
        }
    }

    /// Takes the first value off the list, if there is one: the list as a
    /// source of its own values.
    pub fn next(&mut self) -> (value: Option<T>)
        requires
            old(self).wf(),
        ensures
            final(self).wf(),
            old(self)@.len() == 0 ==> value is None && final(self)@ == old(self)@,
            old(self)@.len() > 0 ==> value == Some(old(self)@[0]) && final(self)@
                == old(self)@.drop_first(),
    {
        self.pop_front()
    }

    /// A walk over the values of the list, from the first to the last.
    pub fn into_iter(&self) -> (walk: LinkedListIter<'_, T>)
        ensures
            walk.remaining() == self@,
    {
        LinkedListIter { current: &self.head }
    }
}

/// A walk over the values of a list.
pub struct LinkedListIter<'a, T> {
    current: &'a Option<Box<Node<T>>>,
}

impl<'a, T> LinkedListIter<'a, T> {
    /// The values that the walk has yet to give, in order.
    pub closed spec fn remaining(&self) -> Seq<T> {
        chain(*self.current)
    }

    /// Gives the next value of the walk, if there is one.
    pub fn next(&mut self) -> (item: Option<&'a T>)
        ensures
            old(self).remaining().len() == 0 ==> item is None && final(self).remaining()
                == old(self).remaining(),
            old(self).remaining().len() > 0 ==> item == Some(&old(self).remaining()[0])
                && final(self).remaining() == old(self).remaining().drop_first(),
    {
        match self.current {
            Some(node) => {
                assert((seq![node.value] + chain(node.next)).drop_first() =~= chain(node.next));
                self.current = &node.next;
                Some(&node.value)
            },
            None => None,
        }
    }
}

/// The texts `shown`, each with a blank in front of it, one after the other.
pub open spec fn spaced(shown: Seq<Seq<char>>) -> Seq<char>
    decreases shown.len(),
{
    if shown.len() == 0 {
        Seq::empty()
    } else {
        spaced(shown.drop_last()) + seq![' '] + shown.last()
    }
}

/// Whether `shown` holds, for each value of `values` in order, a text that
/// the value shows itself as.
pub open spec fn shows<T: core::fmt::Display>(values: Seq<T>, shown: Seq<String>) -> bool {
    &&& shown.len() == values.len()
    &&& forall|i: int|
        0 <= i < values.len() ==> to_string_from_display_ensures::<T>(
            &#[trigger] values[i],
            shown[i],
        )
}

impl<T: core::fmt::Display> LinkedList<T> {
    /// The list as text: each value as it shows itself, with a blank in
    /// front of it.
    pub fn to_string(&self) -> (text: String)
        ensures
            exists|shown: Seq<String>|
                #[trigger] shows(self@, shown) && text@ == spaced(texts(shown)),
    {
        let mut current: &Option<Box<Node<T>>> = &self.head;
        let mut result: String = String::new();
        let ghost all = chain(self.head);
        let ghost mut shown: Seq<String> = Seq::empty();
        assert(all.skip(0) =~= all);
        assert(texts(shown) =~= Seq::<Seq<char>>::empty());
        loop
            invariant
                all == chain(self.head),
                shown.len() + chain(*current).len() == all.len(),
                chain(*current) == all.skip(shown.len() as int),
                forall|i: int|
                    0 <= i < shown.len() ==> to_string_from_display_ensures::<T>(
                        &#[trigger] all[i],
                        shown[i],
                    ),
                result@ == spaced(texts(shown)),
            ensures
                shows(all, shown),
                result@ == spaced(texts(shown)),
            decreases chain(*current).len(),
        {
            match current {
                Some(node) => {
                    let ghost index = shown.len() as int;
                    let ghost before = texts(shown);
                    let value: String = node.value.to_string();
                    proof {
                        reveal_strlit(" ");
                        assert(chain(*current)[0] == node.value);
                        assert(all[index] == node.value);
                        assert(chain(*current).drop_first() =~= chain(node.next));
                        assert(chain(node.next) =~= all.skip(index + 1));
                        shown = shown.push(value);
                        let after = texts(shown);
                        assert(after.drop_last() =~= before);
                        assert(after.last() == value@);
                    }
                    result.append(" ");
                    result.append(value.as_str());
                    assert(result@ =~= spaced(before) + seq![' '] + value@);
                    current = &node.next;
                },
                None => {
                    break;
                },
            }
        }
        assert(shows(self@, shown) && result@ == spaced(texts(shown)));
        result
    }
}

/// Whether `copy` holds a clone of each value of `list`, in reverse order.
pub open spec fn is_reversed_clone<T: Clone>(list: Seq<T>, copy: Seq<T>) -> bool {
    &&& copy.len() == list.len()
    &&& forall|i: int| 0 <= i < list.len() ==> cloned::<T>(#[trigger] list[i], copy[list.len() - 1 - i])
}

impl<T: Clone> Clone for LinkedList<T> {
    /// A list of clones of the values of this list, in reverse order: each
    /// value is cloned and put in front of those cloned before it.
    fn clone(&self) -> (copy: Self)
        ensures
            copy.wf(),
            self.wf() ==> is_reversed_clone(self@, copy@),
    {
        let mut new_list: LinkedList<T> = LinkedList::new();
        let mut current: &Option<Box<Node<T>>> = &self.head;
        let ghost all = chain(self.head);
        loop
            invariant
                new_list.wf(),
                all == chain(self.head),
                new_list@.len() + chain(*current).len() == all.len(),
                chain(*current) == all.skip(new_list@.len() as int),
                forall|i: int|
                    0 <= i < new_list@.len() ==> cloned::<T>(
                        #[trigger] all[i],
                        new_list@[new_list@.len() - 1 - i],
                    ),
            ensures
                self.wf() ==> is_reversed_clone(all, new_list@),
                new_list.wf(),
            decreases chain(*current).len(),
        {
            match current {
                Some(node) => {
                    if new_list.get_size() == usize::MAX {
                        break;
                    }
                    let ghost before = new_list@;
                    let ghost index = before.len() as int;
                    let value: T = node.value.clone();
                    assert(all[index] == node.value) by {
                        assert(chain(*current)[0] == node.value);
                    }
                    new_list.push_front(value);
                    assert(chain(node.next) =~= all.skip(index + 1)) by {
                        assert(chain(*current).drop_first() =~= chain(node.next));
                    }
                    assert forall|i: int| 0 <= i < new_list@.len() implies cloned::<T>(
                        #[trigger] all[i],
                        new_list@[new_list@.len() - 1 - i],
                    ) by {
                        if i < index {
                            assert(new_list@[new_list@.len() - 1 - i] == before[before.len() - 1 - i]);
                        }
                    }
                    current = &node.next;
                },
                None => {
                    break;
                },
            }
        }
        new_list
    }
}

/// Whether `a` and `b` hold equal values in the same order, by the `==` of the
/// values.
pub open spec fn equal_values<T: PartialEq>(a: Seq<T>, b: Seq<T>) -> bool {
    &&& a.len() == b.len()
    &&& forall|i: int| 0 <= i < a.len() ==> (#[trigger] a[i]).eq_spec(&b[i])
}

proof fn lemma_equal_values_step<T: PartialEq>(x: T, a: Seq<T>, y: T, b: Seq<T>)
    ensures
        equal_values(seq![x] + a, seq![y] + b) <==> x.eq_spec(&y) && equal_values(a, b),
{
    let left = seq![x] + a;
    let right = seq![y] + b;
    if equal_values(left, right) {
        assert(left[0].eq_spec(&right[0]));
        assert forall|i: int| 0 <= i < a.len() implies (#[trigger] a[i]).eq_spec(&b[i]) by {
            assert(left[i + 1].eq_spec(&right[i + 1]));
        }
    }
    if x.eq_spec(&y) && equal_values(a, b) {
        assert forall|i: int| 0 <= i < left.len() implies (#[trigger] left[i]).eq_spec(&right[i]) by {
            if i > 0 {
                assert(a[i - 1].eq_spec(&b[i - 1]));
            }
        }
    }
}

impl<T: PartialEq> PartialEq for LinkedList<T> {
    fn eq(&self, other: &Self) -> (equal: bool) {
        let mut current: &Option<Box<Node<T>>> = &self.head;
        let mut other_current: &Option<Box<Node<T>>> = &other.head;
        loop
            invariant
                T::obeys_eq_spec() ==> (equal_values(chain(self.head), chain(other.head))
                    <==> equal_values(chain(*current), chain(*other_current))),
            decreases chain(*current).len(),
        {
            match (current, other_current) {
                (Some(node), Some(other_node)) => {
                    proof {
                        lemma_equal_values_step(
                            node.value,
                            chain(node.next),
                            other_node.value,
                            chain(other_node.next),
                        );
                    }
                    if !(node.value == other_node.value) {
                        return false;
                    }
                    current = &node.next;
                    other_current = &other_node.next;
                },
                (None, None) => {
                    return true;
                },
                _ => {
                    return false;
                },
            }
        }
    }
}

impl<T: PartialEq> PartialEqSpecImpl for LinkedList<T> {
    open spec fn obeys_eq_spec() -> bool {
        T::obeys_eq_spec()
    }

    open spec fn eq_spec(&self, other: &LinkedList<T>) -> bool {
        equal_values(self@, other@)
    }
}

} // verus!
