//! Typed handles into a storage of items. Items are only ever added, so a handle
//! stays valid and keeps naming the same item.
use core::marker::PhantomData;
use vstd::prelude::*;

verus! {

/// A typed index of an item in a [`Storage`].
pub struct Handle<T>(usize, PhantomData<T>);

impl<T> Handle<T> {
    /// The slot the handle names.
    pub closed spec fn id(&self) -> int {
        self.0 as int
    }

    /// The handle of slot `index`.
    pub fn from_index(index: usize) -> (r: Self)
        ensures
            r.id() == index,
    {
        Handle(index, PhantomData)
    }

    /// The slot the handle names.
    pub fn index(&self) -> (r: usize)
        ensures
            r == self.id(),
    {
        self.0
    }
}

impl<T> Clone for Handle<T> {
    fn clone(&self) -> (r: Self)
        ensures
            r == *self,
    {
        Handle(self.0, PhantomData)
    }
}

impl<T> Copy for Handle<T> {
}

/// Items addressed by handles; handles are given out in insertion order.
/// Items are never removed, so the items sit in a `Vec` at the position of
/// their handle: the keys a slab hands out when nothing is removed.
pub struct Storage<T> {
    items: Vec<T>,
}

impl<T> Storage<T> {
    /// The items, indexed by handle.
    pub closed spec fn view(&self) -> Seq<T> {
        self.items@
    }

    /// An empty storage.
    pub fn new() -> (r: Self)
        ensures
            r.view() == Seq::<T>::empty(),
    {
        Storage { items: Vec::new() }
    }

    /// Number of items.
    pub fn len(&self) -> (r: usize)
        ensures
            r == self.view().len(),
    {
        self.items.len()
    }

    /// The item of `handle`, if the storage holds one there.
    pub fn get(&self, handle: Handle<T>) -> (r: Option<&T>)
        ensures
            0 <= handle.id() < self.view().len() ==> r == Some(&self.view()[handle.id()]),
            !(0 <= handle.id() < self.view().len()) ==> r is None,
    {
        if handle.0 < self.items.len() {
            Some(&self.items[handle.0])
        } else {
            None
        }
    }

    /// Mutable access to the item of `handle`, if the storage holds one there.
    pub fn get_mut(&mut self, handle: Handle<T>) -> (r: Option<&mut T>)
        ensures
            (0 <= handle.id() < old(self).view().len()) == (r is Some),
            r matches Some(item) ==> {
                &&& *item == old(self).view()[handle.id()]
                &&& final(self).view() == old(self).view().update(handle.id(), *final(item))
            },
            r is None ==> final(self).view() == old(self).view(),
    {
        if handle.0 < self.items.len() {
            Some(&mut self.items[handle.0])
        } else {
            None
        }
    }

    /// Add an item and return its handle.
    pub fn insert(&mut self, item: T) -> (r: Handle<T>)
        ensures
            r.id() == old(self).view().len(),
            final(self).view() == old(self).view().push(item),
    {
        let index = self.items.len();
        self.items.push(item);
        Handle(index, PhantomData)
    }
}

/// Reading the handle that `insert` handed out gives the inserted item back, and
/// every handle given out earlier still reads its own item.
pub proof fn lemma_read_after_insert<T>(before: Seq<T>, after: Seq<T>, item: T, handle: int)
    requires
        after == before.push(item),
        handle == before.len(),
    ensures
        0 <= handle < after.len(),
        after[handle] == item,
        forall|h: int| 0 <= h < before.len() ==> #[trigger] after[h] == before[h],
{
}

} // verus!
