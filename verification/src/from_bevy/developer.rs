//! The developer backend's registry: every foreend registers there and gets a unique id.

use vstd::prelude::*;
use std::collections::HashMap;
use vstd::std_specs::iter::IteratorSpec;

verus! {

broadcast use vstd::std_specs::hash::group_hash_axioms;

/// The abstract state of the registry.
pub struct DeveloperBackendView {
    /// The identifier the next foreend receives.
    pub counter: nat,
    /// Registered foreends and their descriptions.
    pub pool: Map<usize, String>,
}

/// The registry of foreends. Events injected from the developer console, replayed events and
/// events sent through a user backend are redirected to a foreend by its identifier.
pub struct DeveloperBackend {
    counter: usize,
    pool: HashMap<usize, String>,
}

impl View for DeveloperBackend {
    type V = DeveloperBackendView;

    closed spec fn view(&self) -> DeveloperBackendView {
        DeveloperBackendView { counter: self.counter as nat, pool: self.pool@ }
    }
}

/// The registry after a foreend described by `desc` registers.
pub open spec fn spec_register_foreend(v: DeveloperBackendView, desc: String) -> DeveloperBackendView {
    DeveloperBackendView {
        counter: if v.counter == usize::MAX { 0 } else { v.counter + 1 },
        pool: v.pool.insert(v.counter as usize, desc),
    }
}

/// Identifiers are unique: while the counter has not wrapped around, a registering foreend
/// gets an identifier no registered foreend has, and all identifiers stay below the counter.
pub proof fn lemma_foreend_fresh_id(v: DeveloperBackendView, desc: String)
    requires
        forall|id: usize| v.pool.contains_key(id) ==> id < v.counter,
        v.counter < usize::MAX,
    ensures
        !v.pool.contains_key(v.counter as usize),
        forall|id: usize|
            spec_register_foreend(v, desc).pool.contains_key(id) ==> id < spec_register_foreend(
                v,
                desc,
            ).counter,
{
}

impl DeveloperBackend {
    /// An empty registry; the first foreend gets identifier 1.
    pub fn new() -> (d: Self)
        ensures
            d@.counter == 1,
            d@.pool == Map::<usize, String>::empty(),
    {
        DeveloperBackend { counter: 1, pool: HashMap::new() }
    }

    /// Registers a foreend described by `desc` and returns its identifier.
    pub fn register(&mut self, desc: String) -> (id: usize)
        ensures
            id == old(self)@.counter,
            final(self)@ == spec_register_foreend(old(self)@, desc),
    {
        let id = self.counter;
        self.counter = self.counter.wrapping_add(1);
        self.pool.insert(id, desc);
        id
    }

    /// Forgets foreend `id`.
    pub fn unregister(&mut self, id: usize)
        ensures
            final(self)@ == (DeveloperBackendView { pool: old(self)@.pool.remove(id), ..old(self)@ }),
    {
        self.pool.remove(&id);
    }

    /// Whether an event for foreend `id` is delivered: only registered foreends receive events.
    /// When the delivery fails, the foreend is gone and the caller unregisters it.
    pub fn redirect(&self, id: usize) -> (deliver: bool)
        ensures
            deliver == self@.pool.contains_key(id),
    {
        self.pool.contains_key(&id)
    }

    /// The description foreend `id` registered with.
    pub fn get_desc(&self, id: usize) -> (d: Option<&String>)
        ensures
            d == (if self@.pool.contains_key(id) { Some(&self@.pool[id]) } else { None }),
    {
        self.pool.get(&id)
    }

    /// Identifiers of the registered foreends.
    pub fn foreends(&self) -> (ids: Vec<usize>)
        ensures
            ids@.to_set() == self@.pool.dom(),
            ids@.no_duplicates(),
    {
        let mut ids: Vec<usize> = Vec::new();
        let keys = self.pool.keys();
        proof {
            vstd::std_specs::hash::axiom_spec_keys_iter(&self.pool);
        }
        let ghost all = vstd::std_specs::hash::spec_keys_iter(&self.pool).remaining();
        for id in iter: keys
            invariant
                iter.seq() == all,
                ids@.len() == iter.index(),
                forall|j: int| 0 <= j < ids@.len() ==> ids@[j] == *all[j],
        {
            ids.push(*id);
        }
        assert(ids@ =~= all.unref());
        ids
    }
}

} // verus!
