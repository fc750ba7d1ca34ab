use std::collections::HashMap;
use vstd::prelude::*;

verus! {

broadcast use vstd::std_specs::hash::group_hash_axioms;

/// Resources by handle. Entries are added and looked up, never removed.
pub struct ResourceRegistry<T> {
    mapping: HashMap<usize, T>,
}

impl<T> View for ResourceRegistry<T> {
    type V = Map<usize, T>;

    closed spec fn view(&self) -> Map<usize, T> {
        self.mapping@
    }
}

impl<T> ResourceRegistry<T> {
    pub fn new() -> (registry: ResourceRegistry<T>)
        ensures
            registry@ == Map::<usize, T>::empty(),
    {
        ResourceRegistry { mapping: HashMap::new() }
    }

    /// Stores `data` under `handle`, which must be new to the registry.
    pub fn insert(&mut self, handle: usize, data: T)
        requires
            !old(self)@.dom().contains(handle),
        ensures
            final(self)@ == old(self)@.insert(handle, data),
    {
        self.mapping.insert(handle, data);
    }

    /// The resource stored under `handle`, which must be in the registry.
    pub fn get(&self, handle: usize) -> (data: &T)
        requires
            self@.dom().contains(handle),
        ensures
            *data == self@[handle],
    {
        let found = self.mapping.get(&handle);
        found.unwrap()
    }

    /// Whether a resource is stored under `handle`.
    pub fn contains(&self, handle: usize) -> (found: bool)
        ensures
            found == self@.dom().contains(handle),
    {
        self.mapping.contains_key(&handle)
    }

    /// Puts `data` in the place of the resource stored under `handle`, which must be in the
    /// registry, and returns the resource that was there.
    pub fn replace(&mut self, handle: usize, data: T) -> (previous: T)
        requires
            old(self)@.dom().contains(handle),
        ensures
            final(self)@ == old(self)@.insert(handle, data),
            previous == old(self)@[handle],
    {
        let previous = self.mapping.insert(handle, data);
        previous.unwrap()
    }

    /// The number of resources stored.
    pub fn len(&self) -> (count: usize)
        ensures
            count == self@.len(),
            self@.dom().finite(),
    {
        self.mapping.len()
    }
}

} // verus!
