use std::collections::HashMap;

use vstd::prelude::*;

verus! {

broadcast use vstd::std_specs::hash::group_hash_axioms;

/// A map keyed by index id.
pub struct IdMap<V> {
    entries: HashMap<u128, V>,
}

impl<V> View for IdMap<V> {
    type V = Map<u128, V>;

    closed spec fn view(&self) -> Map<u128, V> {
        self.entries@
    }
}

impl<V> IdMap<V> {
    pub fn new() -> (r: IdMap<V>)
        ensures
            r@ == Map::<u128, V>::empty(),
    {
        IdMap { entries: HashMap::new() }
    }

    pub fn contains(&self, id: u128) -> (r: bool)
        ensures
            r == self@.contains_key(id),
    {
        self.entries.contains_key(&id)
    }

    pub fn get(&self, id: u128) -> (r: Option<&V>)
        ensures
            match r {
                Some(v) => self@.contains_key(id) && self@[id] == *v,
                None => !self@.contains_key(id),
            },
    {
        self.entries.get(&id)
    }

    /// Removes the entry of `id` and hands back its value.
    pub fn remove(&mut self, id: u128) -> (r: Option<V>)
        ensures
            final(self)@ == old(self)@.remove(id),
            match r {
                Some(v) => old(self)@.contains_key(id) && old(self)@[id] == v,
                None => !old(self)@.contains_key(id),
            },
    {
        self.entries.remove(&id)
    }

    /// Sets the value of `id`, replacing any previous one.
    pub fn insert(&mut self, id: u128, v: V)
        ensures
            final(self)@ == old(self)@.insert(id, v),
    {
        let _ = self.entries.insert(id, v);
    }
}

} // verus!
