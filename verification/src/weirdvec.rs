//! Vectors in borrowed memory.

use vstd::prelude::*;

verus! {

/// What a vector of any kind offers: a length, room, and a stack of items.
pub trait GenericVec<T> {
    /// The vector is in a state that its own functions leave it in.
    spec fn valid(&self) -> bool;

    /// The items, oldest first.
    spec fn items(&self) -> Seq<T>;

    /// How many items there is room for.
    spec fn room(&self) -> nat;

    fn len(&self) -> (r: usize)
        requires
            self.valid(),
        ensures
            r == self.items().len(),
    ;

    /// How many items the vector holds in the memory it has: at least those
    /// it holds now, and no more than there is room for.
    fn capacity(&self) -> (r: usize)
        requires
            self.valid(),
        ensures
            self.items().len() <= r <= self.room(),
    ;

    /// Puts `val` on top, or hands it back where there is no room.
    fn push(&mut self, val: T) -> (r: Result<(), T>)
        requires
            old(self).valid(),
        ensures
            final(self).valid(),
            final(self).room() == old(self).room(),
            old(self).items().len() < old(self).room() ==> r is Ok && final(self).items() == old(self).items().push(val),
            old(self).items().len() >= old(self).room() ==> r == Err::<(), T>(val) && final(self).items() == old(self).items(),
    ;

    /// Takes the item on top, if there is one.
    fn pop(&mut self) -> (r: Option<T>)
        requires
            old(self).valid(),
        ensures
            final(self).valid(),
            final(self).room() == old(self).room(),
            old(self).items().len() == 0 ==> r is None && final(self).items() == old(self).items(),
            old(self).items().len() > 0 ==> r == Some(old(self).items().last()) && final(self).items() == old(self).items().drop_last(),
    ;
}

/// A vector in borrowed memory: the first `len` items of a slice.
pub struct BorrowVec<'a, T> {
    data: &'a mut [T],
    len: usize,
}

impl<'a, T: Copy> BorrowVec<'a, T> {
    /// The length lies within the memory.
    pub closed spec fn wf(&self) -> bool {
        self.len <= self.data@.len()
    }

    /// The items of the vector, oldest first.
    pub closed spec fn view_items(&self) -> Seq<T> {
        self.data@.subrange(0, self.len as int)
    }

    /// How many items the memory has room for.
    pub closed spec fn view_room(&self) -> nat {
        self.data@.len()
    }

    /// The empty vector in the memory `data`.
    pub fn from_empty(data: &'a mut [T]) -> (r: Self)
        ensures
            r.wf(),
            r.view_items() == Seq::<T>::empty(),
            r.view_room() == old(data)@.len(),
    {
        let r = BorrowVec { data, len: 0 };
        assert(r.view_items() =~= Seq::<T>::empty());
        r
    }

    /// Parts the memory in the items of the vector and an empty vector in
    /// what is left of the room.
    pub fn split(&'a mut self) -> (r: (&'a mut [T], BorrowVec<'a, T>))
        requires
            old(self).wf(),
        ensures
            r.0@ == old(self).view_items(),
            r.1.wf(),
            r.1.view_items() == Seq::<T>::empty(),
            r.1.view_room() == old(self).view_room() - old(self).view_items().len(),
    {
        let (left, right) = self.data.split_at_mut(self.len);
        (left, BorrowVec::from_empty(right))
    }

    /// The same vector under a new borrow.
    pub fn clone_mut(&'a mut self) -> (r: Self)
        requires
            old(self).wf(),
        ensures
            r.wf(),
            r.view_items() == old(self).view_items(),
            r.view_room() == old(self).view_room(),
    {
        BorrowVec { data: &mut *self.data, len: self.len }
    }
}

impl<'a, T: Copy> GenericVec<T> for BorrowVec<'a, T> {
    open spec fn valid(&self) -> bool {
        self.wf()
    }

    open spec fn items(&self) -> Seq<T> {
        self.view_items()
    }

    open spec fn room(&self) -> nat {
        self.view_room()
    }

    fn len(&self) -> (r: usize) {
        self.len
    }

    /// Borrowed memory does not grow: the capacity is all the room there is.
    fn capacity(&self) -> (r: usize)
        ensures
            r == self.room(),
    {
        self.data.len()
    }

    fn push(&mut self, val: T) -> (r: Result<(), T>) {
        if self.len == self.data.len() {
            Err(val)
        } else {
            self.data[self.len] = val;
            self.len = self.len + 1;
            assert(final(self).view_items() =~= old(self).view_items().push(val));
            Ok(())
        }
    }

    fn pop(&mut self) -> (r: Option<T>) {
        if self.len == 0 {
            None
        } else {
            let val: T = self.data[self.len - 1];
            self.len = self.len - 1;
            assert(final(self).view_items() =~= old(self).view_items().drop_last());
            Some(val)
        }
    }
}

/// `Vec::capacity`: how many items the vector holds without getting new
/// memory, which is never less than it holds.
#[verifier::external_body]
fn vec_capacity<T>(v: &Vec<T>) -> (r: usize)
    ensures
        r >= v@.len(),
{
    v.capacity()
}

impl<T> GenericVec<T> for Vec<T> {
    open spec fn valid(&self) -> bool {
        true
    }

    open spec fn items(&self) -> Seq<T> {
        self@
    }

    /// A vector on the heap grows as it must.
    open spec fn room(&self) -> nat {
        usize::MAX as nat
    }

    fn len(&self) -> (r: usize) {
        Vec::len(self)
    }

    fn capacity(&self) -> (r: usize) {
        vec_capacity(self)
    }

    fn push(&mut self, val: T) -> (r: Result<(), T>) {
        if Vec::len(self) == usize::MAX {
            return Err(val);
        }
        Vec::push(self, val);
        Ok(())
    }

    fn pop(&mut self) -> (r: Option<T>) {
        Vec::pop(self)
    }
}

} // verus!
