//! The table of the collators and extractors that the engine has asked
//! for, each under a handle of its own.
//!
//! The engine customizes a collator or an extractor once for each index
//! and terminates it when the index goes. Between the two it names the
//! instance by its handle. The table itself is plain data: the caller that
//! shares it between the engine's threads guards it with a lock.

use vstd::prelude::*;
use std::collections::HashMap;

verus! {

broadcast use vstd::std_specs::hash::group_hash_axioms;

/// The instances that are alive, by handle.
#[derive(Debug)]
pub struct Registry<T> {
    pub instances: HashMap<u64, T>,
    /// The next handle to give out. Handles only grow, so that none is
    /// given out twice.
    pub next_id: u64,
}

impl<T> Registry<T> {
    /// A table with no instance.
    pub fn new() -> (r: Self)
        ensures
            r.instances@ == Map::<u64, T>::empty(),
            r.next_id == 0,
    {
        Registry { instances: HashMap::new(), next_id: 0 }
    }

    /// Takes in an instance and gives out its handle: the next handle,
    /// which names no instance yet. Where no handle is left, the instance
    /// is handed back and the table is unchanged.
    pub fn register(&mut self, instance: T) -> (r: Result<u64, T>)
        ensures
            r is Ok <==> old(self).next_id < u64::MAX && !old(self).instances@.contains_key(
                old(self).next_id,
            ),
            r matches Ok(id) ==> id == old(self).next_id && final(self).instances@ == old(self).instances@.insert(id, instance) && final(self).next_id == id + 1,
            r matches Err(back) ==> back == instance && final(self).instances@ == old(self).instances@ && final(self).next_id == old(self).next_id,
    {
        let id = self.next_id;
        if id == u64::MAX || self.instances.contains_key(&id) {
            return Err(instance);
        }
        self.instances.insert(id, instance);
        self.next_id = id + 1;
        Ok(id)
    }

    /// The instance with the given handle, if it is alive.
    pub fn get(&self, id: u64) -> (r: Option<&T>)
        ensures
            r is Some <==> self.instances@.contains_key(id),
            r matches Some(instance) ==> *instance == self.instances@[id],
    {
        self.instances.get(&id)
    }

    /// Ends the life of the instance with the given handle and hands it
    /// out; nothing happens where no such instance is alive.
    pub fn terminate(&mut self, id: u64) -> (r: Option<T>)
        ensures
            final(self).instances@ == old(self).instances@.remove(id),
            final(self).next_id == old(self).next_id,
            r is Some <==> old(self).instances@.contains_key(id),
            r matches Some(instance) ==> instance == old(self).instances@[id],
    {
        self.instances.remove(&id)
    }

    /// The number of instances alive.
    pub fn len(&self) -> (n: usize)
        ensures
            n == self.instances@.len(),
    {
        self.instances.len()
    }
}

/// An instance is terminated once: after its termination its handle names
/// nothing, and a second termination finds nothing to end.
pub proof fn lemma_terminated_once<T>(instances: Map<u64, T>, id: u64)
    ensures
        !instances.remove(id).contains_key(id),
        instances.remove(id).remove(id) == instances.remove(id),
{
    assert(instances.remove(id).remove(id) =~= instances.remove(id));
}

/// Terminating one instance leaves every other instance alive and as it
/// was.
pub proof fn lemma_terminate_keeps_others<T>(instances: Map<u64, T>, id: u64, other: u64)
    requires
        other != id,
    ensures
        instances.remove(id).contains_key(other) == instances.contains_key(other),
        instances.contains_key(other) ==> instances.remove(id)[other] == instances[other],
{
}

} // verus!
