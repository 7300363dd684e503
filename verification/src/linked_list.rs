//! A singly linked list that owns its elements.

use vstd::prelude::*;

verus! {

/// One cell of a list: an element and the rest of the list.
#[derive(Debug, PartialEq)]
pub struct Node<T> {
    value: T,
    next: Option<Box<Node<T>>>,
}

/// The elements reachable from a link, first to last.
pub open spec fn chain<T>(link: Option<Box<Node<T>>>) -> Seq<T>
    decreases link,
{
    match link {
        None => Seq::empty(),
        Some(node) => seq![node.element()] + chain(node.rest()),
    }
}

impl<T> Node<T> {
    /// The element of the cell.
    pub closed spec fn element(self) -> T {
        self.value
    }

    /// The link to the cells behind this one.
    pub closed spec fn rest(self) -> Option<Box<Node<T>>> {
        self.next
    }

    /// Makes a cell that holds `value` in front of `next`.
    pub fn new(value: T, next: Option<Box<Node<T>>>) -> (r: Node<T>)
        ensures
            r.element() == value,
            r.rest() == next,
    {
        Node { value: value, next: next }
    }
}

/// `b` holds, position by position, clones of the elements of `a`.
pub open spec fn clones<T: Clone>(a: Seq<T>, b: Seq<T>) -> bool {
    &&& a.len() == b.len()
    &&& forall|i: int| 0 <= i < a.len() ==> cloned(#[trigger] a[i], b[i])
}

impl<T: Clone> Clone for Node<T> {
    /// Clones the cell and all cells behind it.
    fn clone(&self) -> (res: Self)
        ensures
            clones(chain(Some(Box::new(*self))), chain(Some(Box::new(res)))),
        decreases self,
    {
        let res = Node {
            value: self.value.clone(),
            next: match &self.next {
                Some(node) => Some(Box::new((&**node).clone())),
                None => None,
            },
        };
        proof {
            let a = chain(Some(Box::new(*self)));
            let b = chain(Some(Box::new(res)));
            assert(a == seq![self.value] + chain(self.next));
            assert(b == seq![res.value] + chain(res.next));
            assert(clones(chain(self.next), chain(res.next)));
            assert forall|i: int| 0 <= i < a.len() implies cloned(#[trigger] a[i], b[i]) by {
                if i > 0 {
                    assert(a[i] == chain(self.next)[i - 1]);
                    assert(b[i] == chain(res.next)[i - 1]);
                }
            }
        }
        res
    }
}

/// A list of elements with its length kept alongside.
#[derive(Debug, PartialEq)]
pub struct LinkedList<T> {
    head: Option<Box<Node<T>>>,
    size: usize,
}

impl<T> View for LinkedList<T> {
    type V = Seq<T>;

    /// The elements of the list, front first.
    closed spec fn view(&self) -> Seq<T> {
        chain(self.head)
    }
}

impl<T> LinkedList<T> {
    /// The recorded length is the number of elements.
    pub closed spec fn well_formed(&self) -> bool {
        self.size == chain(self.head).len()
    }

    /// Makes an empty list.
    pub fn new() -> (r: LinkedList<T>)
        ensures
            r.well_formed(),
            r@ == Seq::<T>::empty(),
    {
        LinkedList { head: None, size: 0 }
    }

    /// The number of elements.
    pub fn get_size(&self) -> (r: usize)
        requires
            self.well_formed(),
        ensures
            r == self@.len(),
    {
        self.size
    }

    /// Tells whether the list has no element.
    pub fn is_empty(&self) -> (r: bool)
        requires
            self.well_formed(),
        ensures
            r == (self@.len() == 0),
    {
        self.get_size() == 0
    }

    /// Puts `value` in front of all elements.
    pub fn push_front(&mut self, value: T)
        requires
            old(self).well_formed(),
            old(self)@.len() < usize::MAX,
        ensures
            final(self).well_formed(),
            final(self)@ == seq![value] + old(self)@,
    {
        let new_node: Box<Node<T>> = Box::new(Node::new(value, self.head.take()));
        self.head = Some(new_node);
        self.size += 1;
    }

    /// Takes the front element off the list, if there is one.
    pub fn pop_front(&mut self) -> (r: Option<T>)
        requires
            old(self).well_formed(),
        ensures
            final(self).well_formed(),
            old(self)@.len() == 0 ==> r is None && final(self)@ == old(self)@,
            old(self)@.len() > 0 ==> r == Some(old(self)@[0]) && final(self)@ == old(
                self,
            )@.drop_first(),
    {
        match self.head.take() {
            None => None,
            Some(boxed) => {
                let node: Node<T> = *boxed;
                assert(chain(Some(boxed)) == seq![node.value] + chain(node.next));
                assert((seq![node.value] + chain(node.next)).drop_first() =~= chain(node.next));
                self.head = node.next;
                self.size -= 1;
                Some(node.value)
            },
        }
    }

    /// Removes all elements, one cell at a time.
    pub fn clear(&mut self)
        ensures
            final(self).well_formed(),
            final(self)@ == Seq::<T>::empty(),
    {
        let mut current = self.head.take();
        self.size = 0;
        loop
            invariant
                self.head is None,
                self.size == 0,
            decreases current,
        {
            match current {
                None => {
                    break ;
                },
                Some(boxed) => {
                    let node: Node<T> = *boxed;
                    current = node.next;
                },
            }
        }
    }

    /// A cursor over the elements, front first. The list is not changed.
    pub fn iter(&self) -> (r: LinkedListIter<'_, T>)
        ensures
            r@ == self@,
    {
        LinkedListIter { current: &self.head }
    }
}

impl<T: Clone> Clone for LinkedList<T> {
    /// Clones the list element by element.
    fn clone(&self) -> (res: Self)
        ensures
            clones(self@, res@),
            self.well_formed() ==> res.well_formed(),
    {
        let head = match &self.head {
            Some(node) => Some(Box::new((&**node).clone())),
            None => None,
        };
        LinkedList { head, size: self.size }
    }
}

/// A cursor that hands out clones of the elements of a list, front first.
pub struct LinkedListIter<'a, T> {
    current: &'a Option<Box<Node<T>>>,
}

impl<'a, T> View for LinkedListIter<'a, T> {
    type V = Seq<T>;

    /// The elements still to come.
    closed spec fn view(&self) -> Seq<T> {
        chain(*self.current)
    }
}

impl<'a, T: Clone> LinkedListIter<'a, T> {
    /// Hands out a clone of the next element and moves past it; `None` at the
    /// end.
    pub fn next(&mut self) -> (r: Option<T>)
        ensures
            old(self)@.len() == 0 ==> r is None && final(self)@ == old(self)@,
            old(self)@.len() > 0 ==> r is Some && cloned(old(self)@[0], r->0) && final(self)@
                == old(self)@.drop_first(),
    {
        match self.current {
            Some(node) => {
                assert((seq![node.value] + chain(node.next)).drop_first() =~= chain(node.next));
                self.current = &node.next;
                Some(node.value.clone())
            },
            None => None,
        }
    }
}

} // verus!
