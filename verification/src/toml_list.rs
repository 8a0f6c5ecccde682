//! An ordered, named collection of records.
//!
//! Insertion order is significant: it defines the selection indices.
//! Loading and saving the collection against its per-name store is the
//! surrounding application's concern; the store text itself is produced
//! and checked by the `store` module.

use vstd::prelude::*;

verus! {

/// Why a store operation failed.
#[derive(Debug, PartialEq, Eq, Structural, Clone, Copy)]
pub enum StoreError {
    /// An index addressed a record past the end of the list.
    IndexOutOfRange,
    /// The persisted text is not a record list this crate wrote.
    CorruptStore,
}

#[derive(Debug, PartialEq, Clone)]
pub struct TomlList<T> {
    pub entry: Vec<T>,
}

impl<T> TomlList<T> {
    pub fn new() -> (r: TomlList<T>)
        ensures
            r.entry@ == Seq::<T>::empty(),
    {
        let r = TomlList { entry: Vec::new() };
        proof {
            assert(r.entry@ =~= Seq::<T>::empty());
        }
        r
    }

    pub fn push(&mut self, item: T)
        ensures
            final(self).entry@ == old(self).entry@.push(item),
    {
        self.entry.push(item);
    }

    /// The record at `index`, or `IndexOutOfRange` past the end.
    pub fn get(&self, index: usize) -> (r: Result<&T, StoreError>)
        ensures
            index < self.entry@.len() <==> r is Ok,
            r matches Ok(x) ==> *x == self.entry@[index as int],
            index >= self.entry@.len() ==> r == Err::<&T, StoreError>(StoreError::IndexOutOfRange),
    {
        if index < self.entry.len() {
            Ok(&self.entry[index])
        } else {
            Err(StoreError::IndexOutOfRange)
        }
    }

    /// Replace the record at `index`, or say the index is out of range.
    pub fn set(&mut self, index: usize, item: T) -> (r: Result<(), StoreError>)
        ensures
            index < old(self).entry@.len() <==> r is Ok,
            r is Ok ==> final(self).entry@ == old(self).entry@.update(index as int, item),
            r is Err ==> final(self).entry@ == old(self).entry@ && r == Err::<(), StoreError>(
                StoreError::IndexOutOfRange,
            ),
    {
        if index < self.entry.len() {
            self.entry[index] = item;
            Ok(())
        } else {
            Err(StoreError::IndexOutOfRange)
        }
    }

    /// Remove the record at `index`; the records after it move up.
    pub fn remove(&mut self, index: usize)
        requires
            index < old(self).entry@.len(),
        ensures
            final(self).entry@ == old(self).entry@.remove(index as int),
    {
        self.entry.remove(index);
    }

    pub fn len(&self) -> (r: usize)
        ensures
            r == self.entry@.len(),
    {
        self.entry.len()
    }

    /// Replace the whole collection.
    pub fn set_list(&mut self, entry: Vec<T>)
        ensures
            final(self).entry@ == entry@,
    {
        self.entry = entry;
    }
}

} // verus!
