//! The value stack of the virtual machine.
use vstd::prelude::*;
use vstd::std_specs::iter::IteratorSpec;

verus! {

broadcast use vstd::std_specs::slice::group_slice_axioms;

/// A stack with a maximum size.
///
/// The elements are kept bottom to top; the top of the stack is the last
/// element of its view.
pub struct Stack<T> {
    items: Vec<T>,
    max_size: usize,
}

impl<T> View for Stack<T> {
    type V = Seq<T>;

    closed spec fn view(&self) -> Seq<T> {
        self.items@
    }
}

impl<T> Stack<T> {
    /// The maximum number of elements the stack accepts.
    pub closed spec fn max_len(&self) -> nat {
        self.max_size as nat
    }

    /// The stack holds no more elements than it accepts. Every stack made
    /// and changed only through these functions has this property.
    pub open spec fn within_capacity(&self) -> bool {
        self@.len() <= self.max_len()
    }

    /// Creates an empty stack that holds at most `max_size` elements.
    pub fn new(max_size: usize) -> (s: Self)
        ensures
            s@ == Seq::<T>::empty(),
            s.max_len() == max_size,
            s.within_capacity(),
    {
        let initial_capacity: usize = if max_size < 256 {
            max_size
        } else {
            256
        };
        Stack { items: Vec::with_capacity(initial_capacity), max_size }
    }

    /// Pushes a value on top of the stack.
    pub fn push(&mut self, value: T)
        requires
            old(self)@.len() < old(self).max_len(),
        ensures
            final(self)@ == old(self)@.push(value),
            final(self).max_len() == old(self).max_len(),
            old(self).within_capacity() ==> final(self).within_capacity(),
    {
        self.items.push(value);
    }

    /// Removes and returns the top value, or `None` if the stack is empty.
    pub fn pop(&mut self) -> (r: Option<T>)
        ensures
            final(self).max_len() == old(self).max_len(),
            old(self).within_capacity() ==> final(self).within_capacity(),
            old(self)@.len() == 0 ==> r is None && final(self)@ == old(self)@,
            old(self)@.len() > 0 ==> r == Some(old(self)@.last()) && final(self)@
                == old(self)@.drop_last(),
    {
        self.items.pop()
    }

    /// The top value, or `None` if the stack is empty.
    pub fn peek(&self) -> (r: Option<&T>)
        ensures
            self@.len() == 0 ==> r is None,
            self@.len() > 0 ==> r == Some(&self@.last()),
    {
        self.items.as_slice().last()
    }

    /// A mutable reference to the top value, or `None` if the stack is empty.
    pub fn peek_mut(&mut self) -> (r: Option<&mut T>)
        ensures
            final(self).max_len() == old(self).max_len(),
            old(self).within_capacity() ==> final(self).within_capacity(),
            old(self)@.len() == 0 ==> r is None && final(self)@ == old(self)@,
            old(self)@.len() > 0 ==> r is Some && *r.unwrap() == old(self)@.last()
                && final(self)@ == old(self)@.update(old(self)@.len() - 1, *final(r.unwrap())),
    {
        self.items.as_mut_slice().last_mut()
    }

    /// The number of elements on the stack.
    pub fn len(&self) -> (n: usize)
        ensures
            n == self@.len(),
    {
        self.items.len()
    }

    /// Whether the stack holds no element.
    pub fn is_empty(&self) -> (b: bool)
        ensures
            b == (self@.len() == 0),
    {
        self.items.len() == 0
    }

    /// The maximum number of elements the stack accepts.
    pub fn capacity(&self) -> (n: usize)
        ensures
            n == self.max_len(),
    {
        self.max_size
    }

    /// Removes every element.
    pub fn clear(&mut self)
        ensures
            final(self)@ == Seq::<T>::empty(),
            final(self).max_len() == old(self).max_len(),
            old(self).within_capacity() ==> final(self).within_capacity(),
    {
        self.items.clear();
    }

    /// Removes the top `n` elements, or every element if there are fewer.
    pub fn pop_n(&mut self, n: usize)
        ensures
            final(self).max_len() == old(self).max_len(),
            old(self).within_capacity() ==> final(self).within_capacity(),
            n <= old(self)@.len() ==> final(self)@ == old(self)@.subrange(
                0,
                old(self)@.len() - n,
            ),
            n > old(self)@.len() ==> final(self)@ == Seq::<T>::empty(),
    {
        let len = self.items.len();
        let new_len: usize = if n < len {
            len - n
        } else {
            0
        };
        self.items.truncate(new_len);
    }

    /// An iterator over the elements, bottom to top.
    pub fn iter(&self) -> (it: core::slice::Iter<'_, T>)
        ensures
            IteratorSpec::remaining(&it) == self@.as_ref(),
    {
        self.items.as_slice().iter()
    }

    /// The top `n` elements, bottom to top, or `None` if there are fewer than `n`.
    pub fn top_n(&self, n: usize) -> (r: Option<&[T]>)
        ensures
            n > self@.len() ==> r is None,
            n <= self@.len() ==> r is Some && r.unwrap()@ == self@.subrange(
                self@.len() - n,
                self@.len() as int,
            ),
    {
        let len = self.items.len();
        if n > len {
            None
        } else {
            let (_, top) = self.items.as_slice().split_at(len - n);
            Some(top)
        }
    }

    /// The top `n` elements, bottom to top and mutable, or `None` if there
    /// are fewer than `n`.
    pub fn top_n_mut(&mut self, n: usize) -> (r: Option<&mut [T]>)
        ensures
            final(self).max_len() == old(self).max_len(),
            n > old(self)@.len() ==> r is None && final(self)@ == old(self)@,
            n <= old(self)@.len() ==> r is Some && r.unwrap()@ == old(self)@.subrange(
                old(self)@.len() - n,
                old(self)@.len() as int,
            ) && final(self)@ == old(self)@.subrange(0, old(self)@.len() - n)
                + final(r.unwrap())@,
    {
        let len = self.items.len();
        if n > len {
            None
        } else {
            let (_, top) = self.items.as_mut_slice().split_at_mut(len - n);
            Some(top)
        }
    }
}

impl<T: Clone> Stack<T> {
    /// The element `offset` places below the top (`0` is the top), or `None`
    /// if there is no such element.
    pub fn peek_at(&self, offset: usize) -> (r: Option<&T>)
        ensures
            offset >= self@.len() ==> r is None,
            offset < self@.len() ==> r == Some(&self@[self@.len() - 1 - offset]),
    {
        let len = self.items.len();
        if offset >= len {
            None
        } else {
            Some(&self.items[len - 1 - offset])
        }
    }

    /// Pushes a clone of the top element; `false` if the stack is empty.
    pub fn dup(&mut self) -> (ok: bool)
        requires
            old(self)@.len() > 0 ==> old(self)@.len() < old(self).max_len(),
        ensures
            final(self).max_len() == old(self).max_len(),
            old(self).within_capacity() ==> final(self).within_capacity(),
            ok == (old(self)@.len() > 0),
            !ok ==> final(self)@ == old(self)@,
            ok ==> final(self)@.len() == old(self)@.len() + 1 && final(self)@.drop_last()
                == old(self)@ && cloned::<T>(old(self)@.last(), final(self)@.last()),
    {
        let len = self.items.len();
        if len == 0 {
            false
        } else {
            let value = self.items[len - 1].clone();
            self.items.push(value);
            assert(self@.drop_last() =~= old(self)@);
            true
        }
    }
}

/// Indexing counts from the top: `stack[0]` is the top element, `stack[1]`
/// the one below it.
impl<T> core::ops::Index<usize> for Stack<T> {
    type Output = T;

    fn index(&self, index: usize) -> (r: &T)
        ensures
            *r == self@[self@.len() - 1 - index],
    {
        let len = self.items.len();
        &self.items[len - 1 - index]
    }
}

impl<T> vstd::std_specs::core::IndexSpecImpl<usize> for Stack<T> {
    open spec fn index_req(&self, index: &usize) -> bool {
        *index < self@.len()
    }
}

/// Popping right after a push gives back the pushed value and the stack as it
/// was; peeking right after a push sees the pushed value.
pub proof fn law_pop_after_push<T>(s: Seq<T>, v: T)
    ensures
        s.push(v).len() > 0,
        s.push(v).last() == v,
        s.push(v).drop_last() == s,
{
    assert(s.push(v).drop_last() =~= s);
}

/// Removing the top `n` elements and then the top `m` removes the top `n + m`.
pub proof fn law_pop_n_twice<T>(s: Seq<T>, n: nat, m: nat)
    requires
        n + m <= s.len(),
    ensures
        s.subrange(0, s.len() - n).subrange(0, s.len() - n - m) == s.subrange(
            0,
            s.len() - (n + m),
        ),
{
    assert(s.subrange(0, s.len() - n).subrange(0, s.len() - n - m) =~= s.subrange(
        0,
        s.len() - (n + m),
    ));
}

} // verus!
