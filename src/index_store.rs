use vstd::prelude::*;

verus! {

/// Errors of the index side.
pub enum IndexError {
    Error(String),
    IndexAlreadyExists,
    UnexistingIndex,
}

/// Bookkeeping of one index; times are milliseconds since the Unix epoch.
pub struct IndexMeta {
    pub uuid: u128,
    pub created_at: i64,
    pub updated_at: i64,
    pub primary_key: Option<String>,
}

impl IndexMeta {
    pub fn duplicate(&self) -> (r: IndexMeta)
        ensures
            r == *self,
    {
        let primary_key = match &self.primary_key {
            Some(k) => Some(k.clone()),
            None => None,
        };
        IndexMeta {
            uuid: self.uuid,
            created_at: self.created_at,
            updated_at: self.updated_at,
            primary_key,
        }
    }
}

/// `m` after a successful write at time `now`: `updated_at` moves to `now`
/// unless that would move it back.
pub open spec fn written_at(m: IndexMeta, now: i64) -> IndexMeta {
    IndexMeta { updated_at: if now > m.updated_at { now } else { m.updated_at }, ..m }
}

/// How the write path came by the handle of an index.
#[derive(PartialEq, Eq, Structural, Clone, Copy, Debug)]
pub enum Opening {
    /// The handle was already open.
    Cached,
    /// The index was known and its directory had to be opened again.
    Reopen,
    /// The index was unknown: it was registered now, created by its first write.
    Create,
}

/// Abstract state of the registry: the metadata of each known index and the
/// open handles.
pub struct IndexModel<H> {
    pub metas: Map<u128, IndexMeta>,
    pub handles: Map<u128, H>,
}

impl<H> IndexModel<H> {
    /// Every open handle belongs to a known index, each index was updated no
    /// earlier than it was created, and metadata is filed under its own id.
    pub open spec fn wf(self) -> bool {
        &&& self.handles.dom().subset_of(self.metas.dom())
        &&& forall|id: u128| #[trigger]
            self.metas.contains_key(id) ==> self.metas[id].uuid == id && self.metas[id].created_at
                <= self.metas[id].updated_at
    }

    pub open spec fn fresh_meta(id: u128, primary_key: Option<String>, now: i64) -> IndexMeta {
        IndexMeta { uuid: id, created_at: now, updated_at: now, primary_key }
    }
}

/// The slots hold exactly the model: one slot per known index, each with
/// the index's metadata and, when open, its handle.
spec fn slots_wf<H>(slots: Seq<(IndexMeta, Option<H>)>, model: IndexModel<H>) -> bool {
    &&& forall|i: int|
        0 <= i < slots.len() ==> model.metas.contains_key(
            (#[trigger] slots[i]).0.uuid,
        ) && model.metas[slots[i].0.uuid] == slots[i].0 && match slots[i].1 {
            Some(h) => model.handles.contains_key(slots[i].0.uuid)
                && model.handles[slots[i].0.uuid] == h,
            None => !model.handles.contains_key(slots[i].0.uuid),
        }
    &&& forall|id: u128| #[trigger]
        model.metas.contains_key(id) ==> exists|i: int|
            0 <= i < slots.len() && (#[trigger] slots[i]).0.uuid == id
    &&& forall|i: int, j: int|
        0 <= i < j < slots.len() ==> (#[trigger] slots[i]).0.uuid != (
        #[trigger] slots[j]).0.uuid
}

/// Replacing one slot by another for the same index, with the model updated
/// to match, keeps slots and model in step.
proof fn lemma_slot_replaced<H>(
    old_slots: Seq<(IndexMeta, Option<H>)>,
    old_model: IndexModel<H>,
    i: int,
    slot: (IndexMeta, Option<H>),
    m: IndexModel<H>,
)
    requires
        slots_wf(old_slots, old_model),
        0 <= i < old_slots.len(),
        slot.0.uuid == old_slots[i].0.uuid,
        m.metas == old_model.metas.insert(slot.0.uuid, slot.0),
        m.handles == match slot.1 {
            Some(h) => old_model.handles.insert(slot.0.uuid, h),
            None => old_model.handles.remove(slot.0.uuid),
        },
    ensures
        slots_wf(old_slots.update(i, slot), m),
{
    let slots = old_slots.update(i, slot);
    let id = slot.0.uuid;
    assert forall|k: int|
        0 <= k < slots.len() implies m.metas.contains_key((#[trigger] slots[k]).0.uuid) && m.metas[slots[k].0.uuid]
        == slots[k].0 && match slots[k].1 {
        Some(h) => m.handles.contains_key(slots[k].0.uuid) && m.handles[slots[k].0.uuid] == h,
        None => !m.handles.contains_key(slots[k].0.uuid),
    } by {
        if k != i {
            assert(slots[k] == old_slots[k]);
            assert(old_slots[k].0.uuid != id) by {
                if k < i {
                    assert(old_slots[k].0.uuid != old_slots[i].0.uuid);
                } else {
                    assert(old_slots[i].0.uuid != old_slots[k].0.uuid);
                }
            }
        }
    }
    assert forall|x: u128| #[trigger] m.metas.contains_key(x) implies exists|k: int|
        0 <= k < slots.len() && (#[trigger] slots[k]).0.uuid == x by {
        if x == id {
            assert(slots[i].0.uuid == x);
        } else {
            let k = choose|k: int| 0 <= k < old_slots.len() && (#[trigger] old_slots[k]).0.uuid == x;
            assert(slots[k] == old_slots[k]);
        }
    }
    assert forall|p: int, q: int| 0 <= p < q < slots.len() implies (#[trigger] slots[p]).0.uuid != (
    #[trigger] slots[q]).0.uuid by {
        assert(old_slots[p].0.uuid != old_slots[q].0.uuid);
    }
}

/// The registry of indexes: their metadata and the handles to their open
/// engines, of type `H`.
pub struct IndexStore<H> {
    slots: Vec<(IndexMeta, Option<H>)>,
    model: Ghost<IndexModel<H>>,
}

impl<H> View for IndexStore<H> {
    type V = IndexModel<H>;

    closed spec fn view(&self) -> IndexModel<H> {
        self.model@
    }
}

impl<H> IndexStore<H> {
    pub closed spec fn wf(&self) -> bool {
        slots_wf(self.slots@, self.model@) && self.model@.wf()
    }

    pub fn new() -> (r: IndexStore<H>)
        ensures
            r.wf(),
            r@.metas.is_empty(),
            r@.handles.is_empty(),
    {
        IndexStore {
            slots: Vec::new(),
            model: Ghost(IndexModel { metas: Map::empty(), handles: Map::empty() }),
        }
    }

    /// The invariants of the model follow from those of the store.
    pub proof fn lemma_model_wf(&self)
        requires
            self.wf(),
        ensures
            self@.wf(),
    {
    }

    fn find(&self, id: u128) -> (r: Option<usize>)
        requires
            self.wf(),
        ensures
            match r {
                Some(i) => i < self.slots@.len() && self.slots@[i as int].0.uuid == id,
                None => !self@.metas.contains_key(id),
            },
    {
        let mut i: usize = 0;
        while i < self.slots.len()
            invariant
                self.wf(),
                0 <= i <= self.slots@.len(),
                forall|k: int| 0 <= k < i ==> (#[trigger] self.slots@[k]).0.uuid != id,
            decreases self.slots@.len() - i,
        {
            if self.slots[i].0.uuid == id {
                return Some(i);
            }
            i += 1;
        }
        None
    }

    /// Replaces the slot at `i` by one for the same index.
    fn put_slot(&mut self, i: usize, slot: (IndexMeta, Option<H>), Ghost(m): Ghost<IndexModel<H>>)
        requires
            old(self).wf(),
            i < old(self).slots@.len(),
            slot.0.uuid == old(self).slots@[i as int].0.uuid,
            m.wf(),
            m.metas == old(self)@.metas.insert(slot.0.uuid, slot.0),
            m.handles == match slot.1 {
                Some(h) => old(self)@.handles.insert(slot.0.uuid, h),
                None => old(self)@.handles.remove(slot.0.uuid),
            },
        ensures
            final(self).wf(),
            final(self)@ == m,
    {
        let ghost old_slots = self.slots@;
        let ghost old_model = self.model@;
        let ghost new_slot = slot;
        self.slots.set(i, slot);
        self.model = Ghost(m);
        proof {
            lemma_slot_replaced(old_slots, old_model, i as int, new_slot, m);
            assert(self.slots@ == old_slots.update(i as int, new_slot));
        }
    }

    /// Adds a slot for an index the registry does not know.
    fn push_slot(&mut self, slot: (IndexMeta, Option<H>), Ghost(m): Ghost<IndexModel<H>>)
        requires
            old(self).wf(),
            !old(self)@.metas.contains_key(slot.0.uuid),
            m.wf(),
            m.metas == old(self)@.metas.insert(slot.0.uuid, slot.0),
            m.handles == match slot.1 {
                Some(h) => old(self)@.handles.insert(slot.0.uuid, h),
                None => old(self)@.handles,
            },
        ensures
            final(self).wf(),
            final(self)@ == m,
    {
        let ghost old_slots = self.slots@;
        let ghost old_m = self.model@;
        let ghost id = slot.0.uuid;
        self.slots.push(slot);
        self.model = Ghost(m);
        assert forall|k: int|
            0 <= k < self.slots@.len() implies self.model@.metas.contains_key(
            (#[trigger] self.slots@[k]).0.uuid,
        ) && self.model@.metas[self.slots@[k].0.uuid] == self.slots@[k].0 && match self.slots@[k].1 {
            Some(h) => self.model@.handles.contains_key(self.slots@[k].0.uuid)
                && self.model@.handles[self.slots@[k].0.uuid] == h,
            None => !self.model@.handles.contains_key(self.slots@[k].0.uuid),
        } by {
            if k < old_slots.len() {
                assert(self.slots@[k] == old_slots[k]);
                assert(old_m.metas.contains_key(old_slots[k].0.uuid));
            }
        }
        assert forall|x: u128| #[trigger] self.model@.metas.contains_key(x) implies exists|k: int|
            0 <= k < self.slots@.len() && (#[trigger] self.slots@[k]).0.uuid == x by {
            if x == id {
                assert(self.slots@[old_slots.len() as int].0.uuid == x);
            } else {
                let k = choose|k: int| 0 <= k < old_slots.len() && (#[trigger] old_slots[k]).0.uuid == x;
                assert(self.slots@[k] == old_slots[k]);
            }
        }
        assert forall|p: int, q: int| 0 <= p < q < self.slots@.len() implies (
        #[trigger] self.slots@[p]).0.uuid != (#[trigger] self.slots@[q]).0.uuid by {
            if q == old_slots.len() {
                assert(old_m.metas.contains_key(old_slots[p].0.uuid));
            } else {
                assert(old_slots[p].0.uuid != old_slots[q].0.uuid);
            }
        }
    }

    /// Registers index `id` with fresh metadata and its newly opened handle.
    pub fn create_index(&mut self, id: u128, primary_key: Option<String>, handle: H, now: i64) -> (r:
        Result<IndexMeta, IndexError>)
        requires
            old(self).wf(),
        ensures
            final(self).wf(),
            old(self)@.metas.contains_key(id) ==> (r matches Err(IndexError::IndexAlreadyExists)
                && final(self)@ == old(self)@),
            !old(self)@.metas.contains_key(id) ==> {
                &&& r == Ok::<IndexMeta, IndexError>(IndexModel::<H>::fresh_meta(id, primary_key, now))
                &&& final(self)@.metas == old(self)@.metas.insert(id, IndexModel::<H>::fresh_meta(id, primary_key, now))
                &&& final(self)@.handles == old(self)@.handles.insert(id, handle)
            },
    {
        if self.find(id).is_some() {
            return Err(IndexError::IndexAlreadyExists);
        }
        let meta = IndexMeta { uuid: id, created_at: now, updated_at: now, primary_key };
        let out = meta.duplicate();
        let ghost m = IndexModel {
            metas: self@.metas.insert(id, meta),
            handles: self@.handles.insert(id, handle),
        };
        self.push_slot((meta, Some(handle)), Ghost(m));
        Ok(out)
    }

    /// How the write path obtains the handle of index `id`: from the cache,
    /// by opening the directory of a known index again, or by registering
    /// an unknown index, which its first write creates.
    pub fn opening(&self, id: u128) -> (r: Opening)
        requires
            self.wf(),
        ensures
            r == (if self@.handles.contains_key(id) {
                Opening::Cached
            } else if self@.metas.contains_key(id) {
                Opening::Reopen
            } else {
                Opening::Create
            }),
    {
        match self.find(id) {
            None => Opening::Create,
            Some(i) => match &self.slots[i].1 {
                Some(_) => Opening::Cached,
                None => Opening::Reopen,
            },
        }
    }

    /// Stores the handle just opened for index `id`, registering the index
    /// with fresh metadata when it was unknown. A handle already open is kept.
    pub fn install(&mut self, id: u128, primary_key: Option<String>, handle: H, now: i64)
        requires
            old(self).wf(),
        ensures
            final(self).wf(),
            old(self)@.handles.contains_key(id) ==> final(self)@ == old(self)@,
            !old(self)@.handles.contains_key(id) ==> final(self)@.handles == old(self)@.handles.insert(id, handle),
            old(self)@.metas.contains_key(id) ==> final(self)@.metas == old(self)@.metas,
            !old(self)@.metas.contains_key(id) ==> final(self)@.metas == old(self)@.metas.insert(
                id,
                IndexModel::<H>::fresh_meta(id, primary_key, now),
            ),
    {
        match self.find(id) {
            None => {
                let meta = IndexMeta { uuid: id, created_at: now, updated_at: now, primary_key };
                let ghost m = IndexModel {
                    metas: self@.metas.insert(id, meta),
                    handles: self@.handles.insert(id, handle),
                };
                self.push_slot((meta, Some(handle)), Ghost(m));
            },
            Some(i) => {
                if self.slots[i].1.is_none() {
                    let meta = self.slots[i].0.duplicate();
                    let ghost m = IndexModel {
                        metas: self@.metas,
                        handles: self@.handles.insert(id, handle),
                    };
                    proof {
                        assert(self@.metas.insert(id, meta) =~= self@.metas);
                    }
                    self.put_slot(i, (meta, Some(handle)), Ghost(m));
                }
            },
        }
    }

    /// The open handle of index `id`.
    pub fn get(&self, id: u128) -> (r: Option<&H>)
        requires
            self.wf(),
        ensures
            match r {
                Some(h) => self@.handles.contains_key(id) && self@.handles[id] == *h,
                None => !self@.handles.contains_key(id),
            },
    {
        match self.find(id) {
            None => None,
            Some(i) => match &self.slots[i].1 {
                Some(h) => Some(h),
                None => None,
            },
        }
    }

    /// The metadata of index `id`.
    pub fn get_meta(&self, id: u128) -> (r: Option<IndexMeta>)
        requires
            self.wf(),
        ensures
            match r {
                Some(m) => self@.metas.contains_key(id) && self@.metas[id] == m && m.uuid == id,
                None => !self@.metas.contains_key(id),
            },
    {
        match self.find(id) {
            None => None,
            Some(i) => Some(self.slots[i].0.duplicate()),
        }
    }

    /// Notes a successful write on index `id` at time `now`: its `updated_at`
    /// advances to `now`, and never moves back.
    pub fn record_write(&mut self, id: u128, now: i64) -> (r: Result<(), IndexError>)
        requires
            old(self).wf(),
        ensures
            final(self).wf(),
            final(self)@.handles == old(self)@.handles,
            !old(self)@.metas.contains_key(id) ==> (r matches Err(IndexError::UnexistingIndex)
                && final(self)@ == old(self)@),
            old(self)@.metas.contains_key(id) ==> {
                let m = old(self)@.metas[id];
                &&& r is Ok
                &&& final(self)@.metas == old(self)@.metas.insert(
                    id,
                    written_at(m, now),
                )
            },
    {
        match self.find(id) {
            None => Err(IndexError::UnexistingIndex),
            Some(i) => {
                let mut meta = self.slots[i].0.duplicate();
                if now > meta.updated_at {
                    meta.updated_at = now;
                }
                let ghost m = IndexModel { metas: self@.metas.insert(id, meta), handles: self@.handles };
                self.set_meta(i, meta, Ghost(m));
                Ok(())
            },
        }
    }

    /// Replaces the metadata in slot `i` by `meta`, for the same index,
    /// keeping its handle.
    fn set_meta(&mut self, i: usize, meta: IndexMeta, Ghost(m): Ghost<IndexModel<H>>)
        requires
            old(self).wf(),
            i < old(self).slots@.len(),
            meta.uuid == old(self).slots@[i as int].0.uuid,
            m.wf(),
            m.metas == old(self)@.metas.insert(meta.uuid, meta),
            m.handles == old(self)@.handles,
        ensures
            final(self).wf(),
            final(self)@ == m,
    {
        let ghost old_slots = self.slots@;
        let ghost old_model = self.model@;
        let ghost id = meta.uuid;
        let (_, handle) = self.slots.remove(i);
        let ghost new_slot = (meta, handle);
        self.slots.insert(i, (meta, handle));
        self.model = Ghost(m);
        proof {
            assert(self.slots@ =~= old_slots.update(i as int, new_slot));
            match new_slot.1 {
                Some(h) => assert(old_model.handles.insert(id, h) =~= old_model.handles),
                None => assert(old_model.handles.remove(id) =~= old_model.handles),
            }
            lemma_slot_replaced(old_slots, old_model, i as int, new_slot, m);
        }
    }

    /// Forgets index `id`: its metadata is dropped and its handle, if one
    /// was open, is handed back so that it can be closed once no task holds it.
    pub fn delete(&mut self, id: u128) -> (r: Option<H>)
        requires
            old(self).wf(),
        ensures
            final(self).wf(),
            final(self)@.metas == old(self)@.metas.remove(id),
            final(self)@.handles == old(self)@.handles.remove(id),
            match r {
                Some(h) => old(self)@.handles.contains_key(id) && old(self)@.handles[id] == h,
                None => !old(self)@.handles.contains_key(id),
            },
    {
        match self.find(id) {
            None => {
                proof {
                    assert(self@.metas.remove(id) =~= self@.metas);
                    assert(self@.handles.remove(id) =~= self@.handles);
                }
                None
            },
            Some(i) => {
                let ghost old_slots = self.slots@;
                let ghost mo = self.model@;
                let (_, handle) = self.slots.remove(i);
                self.model = Ghost(IndexModel { metas: mo.metas.remove(id), handles: mo.handles.remove(id) });
                assert forall|k: int|
                    0 <= k < self.slots@.len() implies self.model@.metas.contains_key(
                    (#[trigger] self.slots@[k]).0.uuid,
                ) && self.model@.metas[self.slots@[k].0.uuid] == self.slots@[k].0 && match self.slots@[k].1 {
                    Some(h) => self.model@.handles.contains_key(self.slots@[k].0.uuid)
                        && self.model@.handles[self.slots@[k].0.uuid] == h,
                    None => !self.model@.handles.contains_key(self.slots@[k].0.uuid),
                } by {
                    let kk = if k < i { k } else { k + 1 };
                    assert(self.slots@[k] == old_slots[kk]);
                    if kk < i {
                        assert(old_slots[kk].0.uuid != old_slots[i as int].0.uuid);
                    } else {
                        assert(old_slots[i as int].0.uuid != old_slots[kk].0.uuid);
                    }
                }
                assert forall|x: u128| #[trigger] self.model@.metas.contains_key(x) implies exists|k: int|
                    0 <= k < self.slots@.len() && (#[trigger] self.slots@[k]).0.uuid == x by {
                    let k = choose|k: int| 0 <= k < old_slots.len() && (#[trigger] old_slots[k]).0.uuid == x;
                    if k < i {
                        assert(self.slots@[k] == old_slots[k]);
                    } else {
                        assert(self.slots@[k - 1] == old_slots[k]);
                    }
                }
                assert forall|p: int, q: int| 0 <= p < q < self.slots@.len() implies (
                #[trigger] self.slots@[p]).0.uuid != (#[trigger] self.slots@[q]).0.uuid by {
                    let pp = if p < i { p } else { p + 1 };
                    let qq = if q < i { q } else { q + 1 };
                    assert(self.slots@[p] == old_slots[pp]);
                    assert(self.slots@[q] == old_slots[qq]);
                    assert(old_slots[pp].0.uuid != old_slots[qq].0.uuid);
                }
                handle
            },
        }
    }
}


/// Every known index was last updated no earlier than it was created.
pub proof fn lemma_created_before_updated<H>(m: IndexModel<H>, id: u128)
    requires
        m.wf(),
        m.metas.contains_key(id),
    ensures
        m.metas[id].created_at <= m.metas[id].updated_at,
{
}

} // verus!
