use vstd::prelude::*;

use crate::id_map::IdMap;
use crate::updates::{
    first_pending, outcome_state, UpdateError, UpdateMeta, UpdateRecord, UpdateResult, UpdateState,
    UpdateStore,
};

verus! {

/// Update log of `id` in `m`, empty when `m` holds none.
pub open spec fn records_of(m: Map<u128, UpdateStore>, id: u128) -> Seq<UpdateRecord> {
    if m.contains_key(id) {
        m[id].records_view()
    } else {
        Seq::empty()
    }
}

/// Next update id of the log of `id` in `m`.
pub open spec fn next_of(m: Map<u128, UpdateStore>, id: u128) -> u64 {
    if m.contains_key(id) {
        m[id].next_id_view()
    } else {
        0
    }
}

/// The update logs of the indexes, keyed by index id.
pub struct UpdateStores {
    stores: IdMap<UpdateStore>,
}

impl View for UpdateStores {
    type V = Map<u128, UpdateStore>;

    closed spec fn view(&self) -> Map<u128, UpdateStore> {
        self.stores@
    }
}

impl UpdateStores {
    pub closed spec fn wf(&self) -> bool {
        forall|id: u128| #[trigger] self.stores@.contains_key(id) ==> self.stores@[id].wf()
    }

    /// Every log in the map is well-formed.
    pub proof fn lemma_logs_wf(&self)
        requires
            self.wf(),
        ensures
            forall|id: u128| #[trigger] self@.contains_key(id) ==> self@[id].wf(),
    {
    }

    pub fn new() -> (r: UpdateStores)
        ensures
            r.wf(),
            r@ == Map::<u128, UpdateStore>::empty(),
    {
        UpdateStores { stores: IdMap::new() }
    }

    /// The log of `id` is loaded (the check made under the shared lock).
    pub fn is_loaded(&self, id: u128) -> (r: bool)
        requires
            self.wf(),
        ensures
            r == self@.contains_key(id),
    {
        self.stores.contains(id)
    }

    /// Takes in the log of `id` read from disk, unless another task loaded it
    /// in the meantime, in which case that one is kept; returns whether the
    /// given log was taken.
    pub fn install_loaded(&mut self, id: u128, store: UpdateStore) -> (r: bool)
        requires
            old(self).wf(),
            store.wf(),
        ensures
            final(self).wf(),
            r == !old(self)@.contains_key(id),
            r ==> final(self)@ == old(self)@.insert(id, store),
            !r ==> final(self)@ == old(self)@,
    {
        if self.stores.contains(id) {
            false
        } else {
            self.stores.insert(id, store);
            true
        }
    }

    /// Makes sure that `id` has a log, creating an empty one if needed.
    pub fn get_or_create(&mut self, id: u128)
        requires
            old(self).wf(),
        ensures
            final(self).wf(),
            final(self)@.contains_key(id),
            final(self)@.remove(id) == old(self)@.remove(id),
            old(self)@.contains_key(id) ==> final(self)@ == old(self)@,
            !old(self)@.contains_key(id) ==> final(self)@[id].records_view().len() == 0
                && final(self)@[id].next_id_view() == 0,
    {
        if !self.stores.contains(id) {
            self.stores.insert(id, UpdateStore::new());
            assert(self@.remove(id) =~= old(self)@.remove(id));
        }
    }

    /// Takes the log of `id` out of the map.
    pub fn delete(&mut self, id: u128) -> (r: Option<UpdateStore>)
        requires
            old(self).wf(),
        ensures
            final(self).wf(),
            final(self)@ == old(self)@.remove(id),
            match r {
                Some(s) => old(self)@.contains_key(id) && old(self)@[id] == s && s.wf(),
                None => !old(self)@.contains_key(id),
            },
    {
        self.stores.remove(id)
    }

    /// Appends an enqueued update to the log of `id`, creating the log if
    /// needed, and returns the update's id.
    pub fn register_update(&mut self, id: u128, meta: UpdateMeta, payload: String, now: i64) -> (r:
        Result<u64, UpdateError>)
        requires
            old(self).wf(),
        ensures
            final(self).wf(),
            final(self)@.contains_key(id),
            final(self)@.remove(id) == old(self)@.remove(id),
            (r is Ok) == (next_of(old(self)@, id) < u64::MAX),
            match r {
                Ok(uid) => {
                    &&& uid == next_of(old(self)@, id)
                    &&& forall|i: int|
                        0 <= i < records_of(old(self)@, id).len() ==> (#[trigger] records_of(
                            old(self)@,
                            id,
                        )[i]).update_id < uid
                    &&& final(self)@[id].next_id_view() == uid + 1
                    &&& final(self)@[id].records_view() == records_of(old(self)@, id).push(
                        UpdateRecord {
                            update_id: uid,
                            meta,
                            enqueued_at: now,
                            payload: Some(payload),
                            state: UpdateState::Enqueued,
                            terminated_at: None,
                        },
                    )
                },
                Err(_) => final(self)@ == old(self)@,
            },
    {
        self.get_or_create(id);
        let ghost mid = self@;
        let mut store = match self.stores.remove(id) {
            Some(s) => s,
            None => UpdateStore::new(),
        };
        let r = store.register_update(meta, payload, now);
        self.stores.insert(id, store);
        assert(self@.remove(id) =~= mid.remove(id));
        if r.is_err() {
            assert(self@ =~= old(self)@);
        }
        r
    }

    /// The log of `id`, ordered by update id.
    pub fn list_updates(&self, id: u128) -> (r: Result<&Vec<UpdateRecord>, UpdateError>)
        requires
            self.wf(),
        ensures
            match r {
                Ok(v) => self@.contains_key(id) && v@ == self@[id].records_view() && forall|i: int, j: int|
                    0 <= i < j < v@.len() ==> (#[trigger] v@[i]).update_id < (#[trigger] v@[j]).update_id,
                Err(e) => !self@.contains_key(id) && e == UpdateError::UnexistingIndex(id),
            },
    {
        match self.stores.get(id) {
            Some(s) => Ok(s.list()),
            None => Err(UpdateError::UnexistingIndex(id)),
        }
    }

    /// The update `update_id` of the log of `id`.
    pub fn get_update(&self, id: u128, update_id: u64) -> (r: Result<Option<&UpdateRecord>, UpdateError>)
        requires
            self.wf(),
        ensures
            match r {
                Ok(Some(rec)) => self@.contains_key(id) && rec.update_id == update_id && exists|i: int|
                    0 <= i < self@[id].records_view().len() && self@[id].records_view()[i] == *rec,
                Ok(None) => self@.contains_key(id) && forall|i: int|
                    0 <= i < self@[id].records_view().len() ==> (
                    #[trigger] self@[id].records_view()[i]).update_id != update_id,
                Err(e) => !self@.contains_key(id) && e == UpdateError::UnexistingIndex(id),
            },
    {
        match self.stores.get(id) {
            Some(s) => Ok(s.meta(update_id)),
            None => Err(UpdateError::UnexistingIndex(id)),
        }
    }

    /// Takes the oldest enqueued update of `id` into processing, unless one is
    /// being processed already.
    pub fn start_next(&mut self, id: u128) -> (r: Result<Option<u64>, UpdateError>)
        requires
            old(self).wf(),
        ensures
            final(self).wf(),
            final(self)@.dom() == old(self)@.dom(),
            final(self)@.remove(id) == old(self)@.remove(id),
            !old(self)@.contains_key(id) ==> r == Err::<Option<u64>, UpdateError>(
                UpdateError::UnexistingIndex(id),
            ),
            old(self)@.contains_key(id) ==> ({
                let recs = old(self)@[id].records_view();
                let p = first_pending(recs);
                &&& final(self)@[id].next_id_view() == old(self)@[id].next_id_view()
                &&& match r {
                    Ok(Some(uid)) => {
                        &&& p < recs.len()
                        &&& recs[p].state is Enqueued
                        &&& uid == recs[p].update_id
                        &&& final(self)@[id].records_view() == recs.update(
                            p,
                            UpdateRecord { state: UpdateState::Processing, ..recs[p] },
                        )
                    },
                    Ok(None) => {
                        &&& (p == recs.len() || recs[p].state is Processing)
                        &&& final(self)@[id].records_view() == recs
                    },
                    Err(_) => false,
                }
            }),
    {
        let ghost m0 = self@;
        match self.stores.remove(id) {
            None => Err(UpdateError::UnexistingIndex(id)),
            Some(mut store) => {
                let r = store.start_next();
                self.stores.insert(id, store);
                assert(self@.remove(id) =~= m0.remove(id));
                assert(self@.dom() =~= m0.dom());
                Ok(r)
            },
        }
    }

    /// Records the outcome of the update of `id` being processed and hands
    /// back the path of its staged payload, released for deletion.
    pub fn finish(&mut self, id: u128, update_id: u64, outcome: Result<UpdateResult, String>, now: i64) -> (r:
        Result<String, UpdateError>)
        requires
            old(self).wf(),
        ensures
            final(self).wf(),
            final(self)@.dom() == old(self)@.dom(),
            final(self)@.remove(id) == old(self)@.remove(id),
            !old(self)@.contains_key(id) ==> r == Err::<String, UpdateError>(
                UpdateError::UnexistingIndex(id),
            ),
            old(self)@.contains_key(id) ==> ({
                let recs = old(self)@[id].records_view();
                let p = first_pending(recs);
                &&& final(self)@[id].next_id_view() == old(self)@[id].next_id_view()
                &&& (r is Ok <==> (p < recs.len() && recs[p].state is Processing && recs[p].update_id
                    == update_id))
                &&& match r {
                    Ok(path) => {
                        &&& recs[p].payload == Some(path)
                        &&& final(self)@[id].records_view() == recs.update(
                            p,
                            UpdateRecord {
                                state: outcome_state(outcome),
                                payload: None,
                                terminated_at: Some(now),
                                ..recs[p]
                            },
                        )
                    },
                    Err(_) => final(self)@[id].records_view() == recs,
                }
            }),
    {
        let ghost m0 = self@;
        match self.stores.remove(id) {
            None => Err(UpdateError::UnexistingIndex(id)),
            Some(mut store) => {
                let r = store.finish(update_id, outcome, now);
                self.stores.insert(id, store);
                assert(self@.remove(id) =~= m0.remove(id));
                assert(self@.dom() =~= m0.dom());
                r
            },
        }
    }
}

/// What arrives on the payload queue of an update being staged.
pub enum PayloadEvent {
    /// A chunk of this many bytes.
    Chunk(usize),
    /// The producer reported an error.
    Failed,
    /// The queue was closed: the payload is complete, or its sender was
    /// cancelled and what arrived is committed as it is.
    Closed,
}

/// What the update actor does with a payload event.
#[derive(PartialEq, Eq, Structural, Clone, Copy, Debug)]
pub enum StagingAction {
    /// Append the chunk to the staged file and wait for the next event.
    Append,
    /// Delete the staged file and fail the registration.
    Abort,
    /// Flush the staged file and register the update.
    Register,
}

/// Decision of the staging protocol for one payload event.
pub fn staging_step(event: &PayloadEvent) -> (r: StagingAction)
    ensures
        r == match event {
            PayloadEvent::Chunk(_) => StagingAction::Append,
            PayloadEvent::Failed => StagingAction::Abort,
            PayloadEvent::Closed => StagingAction::Register,
        },
{
    match event {
        PayloadEvent::Chunk(_) => StagingAction::Append,
        PayloadEvent::Failed => StagingAction::Abort,
        PayloadEvent::Closed => StagingAction::Register,
    }
}

/// Milliseconds to wait before checking again whether a closing store or
/// index has been released by every other holder.
pub const RELEASE_POLL_MS: u64 = 100;

/// Decision of the closing task, given how many holders share the handle
/// (itself included): it takes sole ownership, and may then close and remove
/// the directory, only when it is the last holder; otherwise it waits.
pub fn get_arc_ownership_blocking(holders: usize) -> (r: Option<u64>)
    requires
        holders >= 1,
    ensures
        r == (if holders == 1 {
            None::<u64>
        } else {
            Some(RELEASE_POLL_MS)
        }),
{
    if holders == 1 {
        None
    } else {
        Some(RELEASE_POLL_MS)
    }
}

} // verus!
