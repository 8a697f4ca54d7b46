use vstd::prelude::*;

use crate::index_store::{written_at, IndexError, IndexMeta, IndexStore};
use crate::resolver::{
    create_failure, delete_failure, get_or_create_failure, resolve_failure, NameMap, UuidResolverError,
};
use crate::update_actor::{next_of, records_of, UpdateStores};
use crate::updates::{IndexDocumentsMethod, UpdateFormat, UpdateError, UpdateMeta, UpdateRecord, UpdateResult, UpdateState, UpdateStore};

verus! {

/// Relies on chrono::Utc::now for the current time, taken in milliseconds
/// since the Unix epoch by DateTime::timestamp_millis; nothing is promised of
/// the value.
#[verifier::external_body]
fn now_millis() -> (r: i64) {
    chrono::Utc::now().timestamp_millis()
}

/// The JSON array of strings that `serde_json` writes for `ids`.
pub uninterp spec fn json_of_ids(ids: Seq<Seq<char>>) -> Seq<u8>;

/// Relies on serde_json::to_vec: the JSON encoding of the list of ids, a
/// function of the ids alone. The encoder fails only when a `Serialize` impl
/// fails or a map has a key that is not a string; a list of strings has
/// neither, and writing into a vector cannot fail, so it always succeeds.
#[verifier::external_body]
fn encode_ids(ids: &Vec<String>) -> (r: Option<Vec<u8>>)
    ensures
        r is Some,
        r matches Some(b) ==> b@ == json_of_ids(ids@.map_values(|s: String| s@)),
{
    serde_json::to_vec(ids).ok()
}

/// The staged payload of a deletion of the documents `ids`: the JSON array
/// of the ids.
pub fn document_ids_payload(ids: &Vec<String>) -> (r: Vec<u8>)
    ensures
        r@ == json_of_ids(ids@.map_values(|s: String| s@)),
{
    match encode_ids(ids) {
        Some(bytes) => bytes,
        None => Vec::new(),
    }
}

/// An index as callers see it: its name and its metadata.
pub struct IndexMetadata {
    pub name: String,
    pub meta: IndexMeta,
}

/// What a request to create an index carries.
pub struct IndexSettings {
    pub name: Option<String>,
    pub primary_key: Option<String>,
}

/// Errors of the controller, by the component that raised them.
pub enum ControllerError {
    Resolver(UuidResolverError),
    Update(UpdateError),
    Index(IndexError),
}

/// The resolver's error in `r`, if `r` is one.
pub open spec fn resolver_err_of<T>(r: Result<T, ControllerError>) -> Option<UuidResolverError> {
    match r {
        Err(ControllerError::Resolver(e)) => Some(e),
        _ => None,
    }
}

/// The names and metadata that listing the indexes gives, from the
/// resolver's entries in their order: each name whose index has metadata.
pub open spec fn listed(entries: Seq<(Seq<char>, u128)>, metas: Map<u128, IndexMeta>) -> Seq<
    (Seq<char>, IndexMeta),
>
    decreases entries.len(),
{
    if entries.len() == 0 {
        Seq::empty()
    } else {
        let prev = listed(entries.drop_last(), metas);
        let e = entries.last();
        if metas.contains_key(e.1) {
            prev.push((e.0, metas[e.1]))
        } else {
            prev
        }
    }
}

/// The controller: the name resolver, the update logs and the index
/// registry, with handles of type `H` to the open engines.
pub struct IndexController<H> {
    pub resolver: NameMap,
    pub updates: UpdateStores,
    pub indexes: IndexStore<H>,
}

impl<H> IndexController<H> {
    pub open spec fn wf(&self) -> bool {
        self.resolver.wf() && self.updates.wf() && self.indexes.wf()
    }

    pub fn new() -> (r: IndexController<H>)
        ensures
            r.wf(),
            r.resolver@.names.is_empty(),
            r.resolver@.issued.is_empty(),
            r.updates@.is_empty(),
            r.indexes@.metas.is_empty(),
    {
        IndexController { resolver: NameMap::new(), updates: UpdateStores::new(), indexes: IndexStore::new() }
    }

    /// First step of creating an index: registers its name under a new id,
    /// which the caller then uses to open the engine's directory.
    pub fn create_index(&mut self, settings: IndexSettings) -> (r: Result<u128, ControllerError>)
        requires
            old(self).wf(),
        ensures
            final(self).wf(),
            final(self).updates@ == old(self).updates@,
            final(self).indexes@ == old(self).indexes@,
            settings.name is None ==> (r matches Err(ControllerError::Resolver(UuidResolverError::BadlyFormatted(s)))
                && s@.len() == 0 && final(self).resolver@ == old(self).resolver@),
            settings.name matches Some(n) ==> exists|fresh: u128|
                (final(self).resolver@, crate::resolver::ok_id(r)) == #[trigger] old(self).resolver@.create(n@, fresh),
            settings.name matches Some(n) ==> (r is Err ==> create_failure(resolver_err_of(r), n@, old(self).resolver@)),
    {
        match settings.name {
            None => Err(ControllerError::Resolver(UuidResolverError::BadlyFormatted(String::new()))),
            Some(name) => match self.resolver.create(name) {
                Ok(id) => Ok(id),
                Err(e) => Err(ControllerError::Resolver(e)),
            },
        }
    }

    /// Second step of creating an index: records the engine opened for `id`
    /// and gives the index its metadata and an empty update log.
    pub fn index_opened(&mut self, id: u128, name: String, primary_key: Option<String>, handle: H) -> (r:
        Result<IndexMetadata, ControllerError>)
        requires
            old(self).wf(),
        ensures
            final(self).wf(),
            final(self).resolver@ == old(self).resolver@,
            old(self).indexes@.metas.contains_key(id) ==> (r matches Err(ControllerError::Index(IndexError::IndexAlreadyExists))
                && final(self).indexes@ == old(self).indexes@ && final(self).updates@ == old(self).updates@),
            !old(self).indexes@.metas.contains_key(id) ==> {
                &&& r matches Ok(m) && m.name == name && m.meta.uuid == id && m.meta.primary_key == primary_key
                    && m.meta.created_at == m.meta.updated_at
                    && final(self).indexes@.metas == old(self).indexes@.metas.insert(id, m.meta)
                &&& final(self).indexes@.handles == old(self).indexes@.handles.insert(id, handle)
                &&& final(self).updates@.contains_key(id)
                &&& final(self).updates@.remove(id) == old(self).updates@.remove(id)
                &&& old(self).updates@.contains_key(id) ==> final(self).updates@ == old(self).updates@
                &&& !old(self).updates@.contains_key(id) ==> final(self).updates@[id].records_view().len() == 0
            },
    {
        let now = now_millis();
        match self.indexes.create_index(id, primary_key, handle, now) {
            Err(e) => Err(ControllerError::Index(e)),
            Ok(meta) => {
                self.updates.get_or_create(id);
                Ok(IndexMetadata { name, meta })
            },
        }
    }

    /// Removes the index `name`: its name, its update log and its metadata.
    /// The update log and the engine handle, if they were open, are handed
    /// back to be closed once no task holds them any more.
    pub fn delete_index(&mut self, name: String) -> (r: Result<(Option<UpdateStore>, Option<H>), ControllerError>)
        requires
            old(self).wf(),
        ensures
            final(self).wf(),
            !old(self).resolver@.names.contains_key(name@) ==> (delete_failure(resolver_err_of(r), name@)
                && final(self).resolver@ == old(self).resolver@ && final(self).updates@ == old(self).updates@
                && final(self).indexes@ == old(self).indexes@),
            old(self).resolver@.names.contains_key(name@) ==> {
                let id = old(self).resolver@.names[name@];
                &&& r matches Ok((s, h)) && (s is Some <==> old(self).updates@.contains_key(id)) && (s matches Some(x)
                    ==> x == old(self).updates@[id]) && (h is Some <==> old(self).indexes@.handles.contains_key(id)) && (
                h matches Some(x) ==> x == old(self).indexes@.handles[id])
                &&& final(self).resolver@ == old(self).resolver@.without(name@)
                &&& final(self).updates@ == old(self).updates@.remove(id)
                &&& final(self).indexes@.metas == old(self).indexes@.metas.remove(id)
                &&& final(self).indexes@.handles == old(self).indexes@.handles.remove(id)
            },
    {
        match self.resolver.delete(name) {
            Err(e) => Err(ControllerError::Resolver(e)),
            Ok(id) => {
                let store = self.updates.delete(id);
                let handle = self.indexes.delete(id);
                Ok((store, handle))
            },
        }
    }

    /// Id of the index `name`, created on the way when `create` is set.
    fn index_id(&mut self, name: String, create: bool) -> (r: Result<u128, ControllerError>)
        requires
            old(self).wf(),
        ensures
            final(self).wf(),
            final(self).updates@ == old(self).updates@,
            final(self).indexes@ == old(self).indexes@,
            !create ==> final(self).resolver@ == old(self).resolver@ && crate::resolver::ok_id(r) == old(self).resolver@.resolve(name@),
            create ==> exists|fresh: u128|
                (final(self).resolver@, crate::resolver::ok_id(r)) == #[trigger] old(self).resolver@.get_or_create(name@, fresh),
            r is Err && !create ==> resolve_failure(resolver_err_of(r), name@),
            r is Err && create ==> get_or_create_failure(resolver_err_of(r), name@),
    {
        let r = if create {
            self.resolver.get_or_create(name)
        } else {
            self.resolver.resolve(name)
        };
        match r {
            Ok(id) => Ok(id),
            Err(e) => Err(ControllerError::Resolver(e)),
        }
    }

    /// What enqueuing an update of the index `name`, staged at `payload`,
    /// leaves behind: `before` is the controller before the call, `self` after.
    pub open spec fn registered(
        self,
        before: Self,
        name: Seq<char>,
        create: bool,
        meta: UpdateMeta,
        payload: String,
        r: Result<(u128, u64), ControllerError>,
    ) -> bool {
        &&& self.indexes@ == before.indexes@
        &&& !create ==> self.resolver@ == before.resolver@
        &&& create ==> exists|fresh: u128| #[trigger] before.resolver@.get_or_create(name, fresh).0 == self.resolver@
        &&& match r {
            Ok((id, uid)) => {
                &&& self.resolver@.resolve(name) == Some(id)
                &&& self.updates@.contains_key(id)
                &&& uid == next_of(before.updates@, id)
                &&& self.updates@[id].next_id_view() == uid + 1
                &&& forall|i: int|
                    0 <= i < records_of(before.updates@, id).len() ==> (#[trigger] records_of(
                        before.updates@,
                        id,
                    )[i]).update_id < uid
                &&& self.updates@.remove(id) == before.updates@.remove(id)
                &&& exists|now: i64| self.updates@[id].records_view() == #[trigger] records_of(before.updates@, id).push(
                    UpdateRecord {
                        update_id: uid,
                        meta,
                        enqueued_at: now,
                        payload: Some(payload),
                        state: UpdateState::Enqueued,
                        terminated_at: None,
                    },
                )
            },
            Err(ControllerError::Resolver(e)) => {
                &&& self.updates@ == before.updates@
                &&& !create ==> before.resolver@.resolve(name) is None && resolve_failure(Some(e), name)
                &&& create ==> get_or_create_failure(Some(e), name)
                &&& create ==> exists|fresh: u128| #[trigger] before.resolver@.get_or_create(name, fresh).1 is None
            },
            Err(ControllerError::Update(_)) => {
                &&& self.updates@ == before.updates@
                &&& exists|id: u128|
                    self.resolver@.resolve(name) == Some(id) && #[trigger] next_of(before.updates@, id) == u64::MAX
            },
            Err(ControllerError::Index(_)) => false,
        }
    }

    /// Enqueues an update of the index `name` whose payload is staged at
    /// `payload`; with `create` set an unknown name is registered first.
    /// Returns the index id and the update id.
    pub fn register_update(&mut self, name: String, create: bool, meta: UpdateMeta, payload: String) -> (r:
        Result<(u128, u64), ControllerError>)
        requires
            old(self).wf(),
        ensures
            final(self).wf(),
            final(self).registered(*old(self), name@, create, meta, payload, r),
            !create && old(self).resolver@.resolve(name@) is None ==> resolve_failure(resolver_err_of(r), name@),
    {
        let r0 = self.index_id(name, create);
        proof {
            if create {
                let fresh = choose|fresh: u128|
                    (self.resolver@, crate::resolver::ok_id(r0)) == #[trigger] old(self).resolver@.get_or_create(name@, fresh);
                assert(old(self).resolver@.get_or_create(name@, fresh).0 == self.resolver@);
                assert(old(self).resolver@.get_or_create(name@, fresh).1 == crate::resolver::ok_id(r0));
            }
        }
        let id = match r0 {
            Ok(id) => id,
            Err(e) => return Err(e),
        };
        proof {
            if create {
                let fresh = choose|fresh: u128|
                    (self.resolver@, crate::resolver::ok_id(r0)) == #[trigger] old(self).resolver@.get_or_create(name@, fresh);
                let m = old(self).resolver@;
                if !(crate::name::valid_name(name@) && m.names.contains_key(name@)) {
                    assert(self.resolver@ == m.with_entry(name@, fresh));
                    assert(self.resolver@.names[name@] == id);
                }
            }
        }
        let now = now_millis();
        match self.updates.register_update(id, meta, payload, now) {
            Ok(uid) => Ok((id, uid)),
            Err(e) => {
                assert(next_of(old(self).updates@, id) == u64::MAX);
                Err(ControllerError::Update(e))
            },
        }
    }

    /// Enqueues a documents addition on the index `name`, created if unknown.
    pub fn add_documents(
        &mut self,
        name: String,
        method: IndexDocumentsMethod,
        format: UpdateFormat,
        primary_key: Option<String>,
        payload: String,
    ) -> (r: Result<(u128, u64), ControllerError>)
        requires
            old(self).wf(),
        ensures
            final(self).wf(),
            final(self).registered(
                *old(self),
                name@,
                true,
                UpdateMeta::DocumentsAddition { method, format, primary_key },
                payload,
                r,
            ),
    {
        let meta = UpdateMeta::DocumentsAddition { method, format, primary_key };
        self.register_update(name, true, meta, payload)
    }

    /// Enqueues the removal of every document of the index `name`.
    pub fn clear_documents(&mut self, name: String, payload: String) -> (r: Result<(u128, u64), ControllerError>)
        requires
            old(self).wf(),
        ensures
            final(self).wf(),
            final(self).registered(*old(self), name@, false, UpdateMeta::ClearDocuments, payload, r),
            old(self).resolver@.resolve(name@) is None ==> resolve_failure(resolver_err_of(r), name@),
    {
        self.register_update(name, false, UpdateMeta::ClearDocuments, payload)
    }

    /// Enqueues the deletion of the documents whose ids, as a JSON array, are
    /// staged at `payload`.
    pub fn delete_documents(&mut self, name: String, payload: String) -> (r: Result<(u128, u64), ControllerError>)
        requires
            old(self).wf(),
        ensures
            final(self).wf(),
            final(self).registered(*old(self), name@, false, UpdateMeta::DeleteDocuments, payload, r),
            old(self).resolver@.resolve(name@) is None ==> resolve_failure(resolver_err_of(r), name@),
    {
        self.register_update(name, false, UpdateMeta::DeleteDocuments, payload)
    }

    /// Enqueues a settings change, given as its encoded JSON; with `create`
    /// set an unknown index is created.
    pub fn update_settings(&mut self, name: String, settings: Vec<u8>, create: bool, payload: String) -> (r:
        Result<(u128, u64), ControllerError>)
        requires
            old(self).wf(),
        ensures
            final(self).wf(),
            final(self).registered(*old(self), name@, create, UpdateMeta::Settings(settings), payload, r),
            !create && old(self).resolver@.resolve(name@) is None ==> resolve_failure(resolver_err_of(r), name@),
    {
        self.register_update(name, create, UpdateMeta::Settings(settings), payload)
    }

    /// Update `update_id` of the index `name`.
    pub fn update_status(&self, name: String, update_id: u64) -> (r: Result<Option<&UpdateRecord>, ControllerError>)
        requires
            self.wf(),
        ensures
            self.resolver@.resolve(name@) is None ==> resolve_failure(resolver_err_of(r), name@),
            self.resolver@.resolve(name@) matches Some(id) ==> match r {
                Ok(Some(rec)) => self.updates@.contains_key(id) && rec.update_id == update_id && exists|i: int|
                    0 <= i < self.updates@[id].records_view().len() && self.updates@[id].records_view()[i] == *rec,
                Ok(None) => self.updates@.contains_key(id) && forall|i: int|
                    0 <= i < self.updates@[id].records_view().len() ==> (
                    #[trigger] self.updates@[id].records_view()[i]).update_id != update_id,
                Err(e) => !self.updates@.contains_key(id) && e == ControllerError::Update(UpdateError::UnexistingIndex(id)),
            },
    {
        match self.resolver.resolve(name) {
            Err(e) => Err(ControllerError::Resolver(e)),
            Ok(id) => match self.updates.get_update(id, update_id) {
                Ok(r) => Ok(r),
                Err(e) => Err(ControllerError::Update(e)),
            },
        }
    }

    /// The whole update log of the index `name`, ordered by update id.
    pub fn all_update_status(&self, name: String) -> (r: Result<&Vec<UpdateRecord>, ControllerError>)
        requires
            self.wf(),
        ensures
            self.resolver@.resolve(name@) is None ==> resolve_failure(resolver_err_of(r), name@),
            self.resolver@.resolve(name@) matches Some(id) ==> match r {
                Ok(v) => self.updates@.contains_key(id) && v@ == self.updates@[id].records_view(),
                Err(e) => !self.updates@.contains_key(id) && e == ControllerError::Update(UpdateError::UnexistingIndex(id)),
            },
    {
        match self.resolver.resolve(name) {
            Err(e) => Err(ControllerError::Resolver(e)),
            Ok(id) => match self.updates.list_updates(id) {
                Ok(v) => Ok(v),
                Err(e) => Err(ControllerError::Update(e)),
            },
        }
    }

    /// The index `name` with its metadata, `None` when it has none.
    pub fn get_index(&self, name: String) -> (r: Result<Option<IndexMetadata>, ControllerError>)
        requires
            self.wf(),
        ensures
            self.resolver@.resolve(name@) is None ==> resolve_failure(resolver_err_of(r), name@),
            self.resolver@.resolve(name@) matches Some(id) ==> match r {
                Ok(Some(m)) => m.name@ == name@ && self.indexes@.metas.contains_key(id) && m.meta == self.indexes@.metas[id],
                Ok(None) => !self.indexes@.metas.contains_key(id),
                Err(_) => false,
            },
    {
        let n2 = name.clone();
        match self.resolver.resolve(name) {
            Err(e) => Err(ControllerError::Resolver(e)),
            Ok(id) => match self.indexes.get_meta(id) {
                Some(meta) => Ok(Some(IndexMetadata { name: n2, meta })),
                None => Ok(None),
            },
        }
    }

    /// The engine handle of the index `name`, for the read path.
    pub fn index_for_read(&self, name: String) -> (r: Result<&H, ControllerError>)
        requires
            self.wf(),
        ensures
            self.resolver@.resolve(name@) is None ==> resolve_failure(resolver_err_of(r), name@),
            self.resolver@.resolve(name@) matches Some(id) ==> match r {
                Ok(h) => self.indexes@.handles.contains_key(id) && self.indexes@.handles[id] == *h,
                Err(e) => !self.indexes@.handles.contains_key(id) && e == ControllerError::Index(IndexError::UnexistingIndex),
            },
    {
        match self.resolver.resolve(name) {
            Err(e) => Err(ControllerError::Resolver(e)),
            Ok(id) => match self.indexes.get(id) {
                Some(h) => Ok(h),
                None => Err(ControllerError::Index(IndexError::UnexistingIndex)),
            },
        }
    }

    /// Closes update `update_id` of index `id` with the engine's outcome:
    /// the log records it, the index's `updated_at` advances, and the path of
    /// the staged payload is handed back for deletion.
    pub fn update_done(&mut self, id: u128, update_id: u64, outcome: Result<UpdateResult, String>) -> (r:
        Result<String, ControllerError>)
        requires
            old(self).wf(),
        ensures
            final(self).wf(),
            final(self).resolver@ == old(self).resolver@,
            final(self).indexes@.handles == old(self).indexes@.handles,
            final(self).updates@.remove(id) == old(self).updates@.remove(id),
            !old(self).updates@.contains_key(id) ==> r == Err::<String, ControllerError>(
                ControllerError::Update(UpdateError::UnexistingIndex(id)),
            ),
            old(self).updates@.contains_key(id) ==> ({
                let recs = old(self).updates@[id].records_view();
                let p = crate::updates::first_pending(recs);
                &&& (r is Ok <==> (p < recs.len() && recs[p].state is Processing && recs[p].update_id
                    == update_id))
                &&& match r {
                    Ok(path) => {
                        &&& recs[p].payload == Some(path)
                        &&& exists|now: i64|
                            final(self).updates@[id].records_view() == recs.update(
                                p,
                                #[trigger] crate::updates::finished_record(recs[p], outcome, now),
                            )
                    },
                    Err(_) => final(self).updates@[id].records_view() == recs,
                }
            }),
            r is Ok && old(self).indexes@.metas.contains_key(id) ==> exists|now: i64|
                final(self).indexes@.metas == old(self).indexes@.metas.insert(
                    id,
                    #[trigger] written_at(old(self).indexes@.metas[id], now),
                ),
            !(r is Ok && old(self).indexes@.metas.contains_key(id)) ==> final(self).indexes@.metas == old(
                self,
            ).indexes@.metas,
    {
        let now = now_millis();
        match self.updates.finish(id, update_id, outcome, now) {
            Err(e) => Err(ControllerError::Update(e)),
            Ok(path) => {
                proof {
                    assert(old(self).updates@.contains_key(id));
                    let recs = old(self).updates@[id].records_view();
                    let p = crate::updates::first_pending(recs);
                    crate::updates::lemma_first_pending_bounds(recs);
                    assert(self.updates@[id].records_view() == recs.update(
                        p,
                        crate::updates::finished_record(recs[p], outcome, now),
                    ));
                    assert(self.updates@[id].records_view()[p].state == crate::updates::outcome_state(outcome));
                }
                let _ = self.indexes.record_write(id, now);
                Ok(path)
            },
        }
    }

    /// Indexes known by name that have metadata, in the resolver's order.
    pub fn list_indexes(&self) -> (r: Vec<IndexMetadata>)
        requires
            self.wf(),
        ensures
            r@.len() == listed(self.resolver.entries_view(), self.indexes@.metas).len(),
            forall|i: int|
                0 <= i < r@.len() ==> ((#[trigger] r@[i]).name@, r@[i].meta) == listed(
                    self.resolver.entries_view(),
                    self.indexes@.metas,
                )[i],
            forall|i: int, j: int|
                0 <= i < j < r@.len() ==> (#[trigger] r@[i]).name@ != (#[trigger] r@[j]).name@
                    && r@[i].meta.uuid != r@[j].meta.uuid,
            forall|i: int|
                0 <= i < r@.len() ==> self.resolver@.names.contains_key((#[trigger] r@[i]).name@)
                    && self.resolver@.names[r@[i].name@] == r@[i].meta.uuid
                    && self.indexes@.metas.contains_key(r@[i].meta.uuid)
                    && self.indexes@.metas[r@[i].meta.uuid] == r@[i].meta,
            forall|n: Seq<char>|
                #[trigger] self.resolver@.names.contains_key(n) && self.indexes@.metas.contains_key(
                    self.resolver@.names[n],
                ) ==> exists|i: int| 0 <= i < r@.len() && r@[i].name@ == n,
    {
        let all = self.resolver.list();
        let ghost ev = self.resolver.entries_view();
        let ghost metas = self.indexes@.metas;
        proof {
            self.resolver.lemma_model_wf();
            assert(ev.subrange(0, 0) =~= Seq::<(Seq<char>, u128)>::empty());
        }
        let mut out: Vec<IndexMetadata> = Vec::new();
        let ghost mut src: Seq<int> = Seq::empty();
        let mut i: usize = 0;
        while i < all.len()
            invariant
                self.wf(),
                self.resolver@.wf(),
                ev == self.resolver.entries_view(),
                metas == self.indexes@.metas,
                0 <= i <= all@.len(),
                all@.len() == ev.len(),
                forall|k: int| 0 <= k < all@.len() ==> (#[trigger] all@[k]).0@ == ev[k].0 && all@[k].1 == ev[k].1,
                forall|p: int, q: int| 0 <= p < q < all@.len() ==> #[trigger] all@[p].0@ != #[trigger] all@[q].0@,
                forall|k: int|
                    0 <= k < all@.len() ==> self.resolver@.names.contains_key((#[trigger] all@[k]).0@)
                        && self.resolver@.names[all@[k].0@] == all@[k].1,
                out@.len() == listed(ev.subrange(0, i as int), metas).len(),
                forall|k: int|
                    0 <= k < out@.len() ==> ((#[trigger] out@[k]).name@, out@[k].meta) == listed(
                        ev.subrange(0, i as int),
                        metas,
                    )[k],
                src.len() == out@.len(),
                forall|k: int|
                    0 <= k < out@.len() ==> 0 <= #[trigger] src[k] < i && out@[k].name@ == all@[src[k]].0@,
                forall|p: int, q: int|
                    0 <= p < q < out@.len() ==> (#[trigger] out@[p]).name@ != (#[trigger] out@[q]).name@
                        && out@[p].meta.uuid != out@[q].meta.uuid,
                forall|k: int|
                    0 <= k < out@.len() ==> self.resolver@.names.contains_key((#[trigger] out@[k]).name@)
                        && self.resolver@.names[out@[k].name@] == out@[k].meta.uuid
                        && self.indexes@.metas.contains_key(out@[k].meta.uuid)
                        && self.indexes@.metas[out@[k].meta.uuid] == out@[k].meta,
                forall|k: int|
                    0 <= k < i && self.indexes@.metas.contains_key(#[trigger] all@[k].1) ==> exists|j: int|
                        0 <= j < out@.len() && out@[j].name@ == all@[k].0@,
            decreases all@.len() - i,
        {
            proof {
                assert(ev.subrange(0, i + 1).drop_last() =~= ev.subrange(0, i as int));
                assert(ev.subrange(0, i + 1).last() == ev[i as int]);
            }
            let id = all[i].1;
            match self.indexes.get_meta(id) {
                Some(meta) => {
                    let ghost out0 = out@;
                    let name = all[i].0.clone();
                    out.push(IndexMetadata { name, meta });
                    proof {
                        src = src.push(i as int);
                        assert forall|k: int|
                            0 <= k < out@.len() implies self.resolver@.names.contains_key((#[trigger] out@[k]).name@)
                                && self.resolver@.names[out@[k].name@] == out@[k].meta.uuid
                                && self.indexes@.metas.contains_key(out@[k].meta.uuid)
                                && self.indexes@.metas[out@[k].meta.uuid] == out@[k].meta by {
                            if k < out0.len() {
                                assert(out@[k] == out0[k]);
                            }
                        }
                        assert forall|k: int|
                            0 <= k < out@.len() implies ((#[trigger] out@[k]).name@, out@[k].meta) == listed(
                                ev.subrange(0, i + 1),
                                metas,
                            )[k] by {
                            if k < out0.len() {
                                assert(out@[k] == out0[k]);
                            }
                        }
                        assert forall|k: int|
                            0 <= k < out@.len() implies 0 <= #[trigger] src[k] < i + 1 && out@[k].name@ == all@[src[k]].0@ by {
                            if k < out0.len() {
                                assert(out@[k] == out0[k]);
                            }
                        }
                        assert forall|p: int, q: int|
                            0 <= p < q < out@.len() implies (#[trigger] out@[p]).name@ != (#[trigger] out@[q]).name@
                                && out@[p].meta.uuid != out@[q].meta.uuid by {
                            assert(out@[p] == out0[p]);
                            if q == out0.len() {
                                assert(src[p] < i);
                                assert(all@[src[p]].0@ != all@[i as int].0@);
                            } else {
                                assert(out@[q] == out0[q]);
                            }
                            assert(self.resolver@.names.contains_key(out@[p].name@));
                            assert(self.resolver@.names.contains_key(out@[q].name@));
                        }
                        assert(out@[out@.len() - 1].name@ == all@[i as int].0@);
                        assert forall|k: int|
                            0 <= k < i + 1 && self.indexes@.metas.contains_key(#[trigger] all@[k].1) implies exists|j: int|
                                0 <= j < out@.len() && out@[j].name@ == all@[k].0@ by {
                            if k < i {
                                let j = choose|j: int| 0 <= j < out0.len() && out0[j].name@ == all@[k].0@;
                                assert(out@[j] == out0[j]);
                            } else {
                                assert(out@[out@.len() - 1].name@ == all@[k].0@);
                            }
                        }
                    }
                },
                None => {},
            }
            i += 1;
        }
        proof {
            assert(ev.subrange(0, ev.len() as int) =~= ev);
            assert forall|n: Seq<char>|
                #[trigger] self.resolver@.names.contains_key(n) && self.indexes@.metas.contains_key(
                    self.resolver@.names[n],
                ) implies exists|j: int| 0 <= j < out@.len() && out@[j].name@ == n by {
                let k = choose|k: int| 0 <= k < all@.len() && #[trigger] all@[k].0@ == n;
                assert(self.indexes@.metas.contains_key(all@[k].1));
            }
        }
        out
    }
}

} // verus!
