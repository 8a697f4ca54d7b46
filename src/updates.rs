use vstd::prelude::*;

verus! {

/// How added documents combine with the ones already stored.
#[derive(PartialEq, Eq, Structural, Clone, Copy, Debug)]
pub enum IndexDocumentsMethod {
    ReplaceDocuments,
    UpdateDocuments,
}

/// Encoding of a documents payload.
#[derive(PartialEq, Eq, Structural, Clone, Copy, Debug)]
pub enum UpdateFormat {
    Json,
    JsonStream,
    Csv,
}

/// What an update does. Settings and facet changes travel as their encoded
/// JSON bytes.
#[derive(Clone, Debug)]
pub enum UpdateMeta {
    DocumentsAddition {
        method: IndexDocumentsMethod,
        format: UpdateFormat,
        primary_key: Option<String>,
    },
    ClearDocuments,
    DeleteDocuments,
    Settings(Vec<u8>),
    Facets(Vec<u8>),
}

/// What the engine reports for a processed update.
#[derive(PartialEq, Eq, Structural, Clone, Copy, Debug)]
pub enum UpdateResult {
    DocumentsAddition { nb_documents: u64 },
    DocumentDeletion { deleted: u64 },
    Other,
}

/// Where an update stands.
pub enum UpdateState {
    Enqueued,
    Processing,
    Processed(UpdateResult),
    Failed(String),
}

/// Errors of the update side.
pub enum UpdateError {
    Error(String),
    UnexistingIndex(u128),
}

/// One entry of an index's update log.
pub struct UpdateRecord {
    pub update_id: u64,
    pub meta: UpdateMeta,
    pub enqueued_at: i64,
    /// Path of the staged payload; held while the update is not terminal.
    pub payload: Option<String>,
    pub state: UpdateState,
    pub terminated_at: Option<i64>,
}

pub open spec fn is_terminal(s: UpdateState) -> bool {
    s is Processed || s is Failed
}

/// Rank of a state along the lifecycle; a log is ordered by decreasing rank.
pub open spec fn rank(s: UpdateState) -> int {
    match s {
        UpdateState::Enqueued => 0,
        UpdateState::Processing => 1,
        _ => 2,
    }
}

/// A well-formed log: ids strictly increasing and below `next_id`; the
/// terminal updates form a prefix, followed by at most one update being
/// processed, followed by the enqueued ones; a non-terminal update holds its
/// staged payload and a terminal one holds none.
pub open spec fn log_wf(recs: Seq<UpdateRecord>, next_id: u64) -> bool {
    &&& forall|i: int, j: int|
        0 <= i < j < recs.len() ==> (#[trigger] recs[i]).update_id < (#[trigger] recs[j]).update_id
    &&& forall|i: int| 0 <= i < recs.len() ==> (#[trigger] recs[i]).update_id < next_id
    &&& forall|i: int, j: int|
        0 <= i < j < recs.len() ==> rank((#[trigger] recs[i]).state) >= rank((#[trigger] recs[j]).state)
    &&& forall|i: int, j: int|
        0 <= i < j < recs.len() ==> !((#[trigger] recs[i]).state is Processing && (
        #[trigger] recs[j]).state is Processing)
    &&& forall|i: int|
        0 <= i < recs.len() ==> (is_terminal((#[trigger] recs[i]).state) <==> recs[i].payload is None)
}

fn state_is_terminal(s: &UpdateState) -> (r: bool)
    ensures
        r == is_terminal(*s),
{
    match s {
        UpdateState::Processed(_) => true,
        UpdateState::Failed(_) => true,
        _ => false,
    }
}

/// State that an engine outcome leads to.
pub open spec fn outcome_state(o: Result<UpdateResult, String>) -> UpdateState {
    match o {
        Ok(res) => UpdateState::Processed(res),
        Err(msg) => UpdateState::Failed(msg),
    }
}

/// `rec` once finished at time `now` with the engine's `outcome`: its
/// staged payload is released.
pub open spec fn finished_record(rec: UpdateRecord, outcome: Result<UpdateResult, String>, now: i64) -> UpdateRecord {
    UpdateRecord { state: outcome_state(outcome), payload: None, terminated_at: Some(now), ..rec }
}

/// The log that recovery keeps from `recs`, where `present[i]` tells whether
/// the staged payload of `recs[i]` is on disk: terminal updates stay, the
/// others are enqueued again when their payload is present and dropped
/// otherwise.
pub open spec fn recovered(recs: Seq<UpdateRecord>, present: Seq<bool>) -> Seq<UpdateRecord>
    decreases recs.len(),
{
    if recs.len() == 0 {
        Seq::empty()
    } else {
        let prev = recovered(recs.drop_last(), present);
        let r = recs.last();
        if is_terminal(r.state) {
            prev.push(r)
        } else if present[recs.len() - 1] {
            prev.push(UpdateRecord { state: UpdateState::Enqueued, ..r })
        } else {
            prev
        }
    }
}

fn state_is_processing(s: &UpdateState) -> (r: bool)
    ensures
        r == (*s is Processing),
{
    match s {
        UpdateState::Processing => true,
        _ => false,
    }
}

fn state_rank(s: &UpdateState) -> (r: u8)
    ensures
        r as int == rank(*s),
{
    match s {
        UpdateState::Enqueued => 0,
        UpdateState::Processing => 1,
        _ => 2,
    }
}

/// Position of the first update that is not terminal, or the length.
pub open spec fn first_pending(recs: Seq<UpdateRecord>) -> int
    decreases recs.len(),
{
    if recs.len() == 0 {
        0
    } else if !is_terminal(recs[0].state) {
        0
    } else {
        1 + first_pending(recs.drop_first())
    }
}

pub proof fn lemma_first_pending_bounds(recs: Seq<UpdateRecord>)
    ensures
        0 <= first_pending(recs) <= recs.len(),
    decreases recs.len(),
{
    if recs.len() > 0 {
        lemma_first_pending_bounds(recs.drop_first());
    }
}

/// The per-index update log.
pub struct UpdateStore {
    records: Vec<UpdateRecord>,
    next_id: u64,
}

impl UpdateStore {
    pub closed spec fn records_view(&self) -> Seq<UpdateRecord> {
        self.records@
    }

    pub closed spec fn next_id_view(&self) -> u64 {
        self.next_id
    }

    pub open spec fn wf(&self) -> bool {
        log_wf(self.records_view(), self.next_id_view())
    }

    pub fn new() -> (r: UpdateStore)
        ensures
            r.wf(),
            r.records_view().len() == 0,
            r.next_id_view() == 0,
    {
        UpdateStore { records: Vec::new(), next_id: 0 }
    }

    /// Rebuilds a log from its records as read back from disk, in the order
    /// they were stored; `None` when they do not form a well-formed log.
    pub fn from_records(records: Vec<UpdateRecord>) -> (r: Option<UpdateStore>)
        ensures
            r is Some <==> (records@.len() == 0 || (records@.last().update_id < u64::MAX && log_wf(
                records@,
                (records@.last().update_id + 1) as u64,
            ))),
            r matches Some(s) ==> s.wf() && s.records_view() == records@ && s.next_id_view() == (if records@.len()
                == 0 {
                0
            } else {
                (records@.last().update_id + 1) as u64
            }),
    {
        let n = records.len();
        if n == 0 {
            return Some(UpdateStore { records, next_id: 0 });
        }
        let last = records[n - 1].update_id;
        if last == u64::MAX {
            return None;
        }
        let next_id = last + 1;
        let first_terminal = state_is_terminal(&records[0].state);
        if !(records[0].update_id < next_id && first_terminal == records[0].payload.is_none()) {
            return None;
        }
        assert(log_wf(records@.subrange(0, 1), next_id));
        let mut i: usize = 1;
        while i < n
            invariant
                n == records@.len(),
                n > 0,
                1 <= i <= n,
                next_id == records@.last().update_id + 1,
                log_wf(records@.subrange(0, i as int), next_id),
            decreases n - i,
        {
            let ghost pre = records@.subrange(0, i as int);
            let a = &records[i - 1];
            let b = &records[i];
            let b_terminal = state_is_terminal(&b.state);
            let ok = a.update_id < b.update_id && state_rank(&a.state) >= state_rank(&b.state) && !(
            state_is_processing(&a.state) && state_is_processing(&b.state)) && (b_terminal
                == b.payload.is_none()) && b.update_id < next_id;
            if !ok {
                proof {
                    assert(!log_wf(records@, next_id)) by {
                        if log_wf(records@, next_id) {
                            assert(records@[i - 1].update_id < records@[i as int].update_id);
                            assert(rank(records@[i - 1].state) >= rank(records@[i as int].state));
                        }
                    }
                }
                return None;
            }
            proof {
                let post = records@.subrange(0, i + 1);
                assert forall|p: int, q: int| 0 <= p < q < post.len() implies (#[trigger] post[p]).update_id < (
                #[trigger] post[q]).update_id by {
                    if q < i {
                        assert(pre[p] == post[p] && pre[q] == post[q]);
                    } else if p < i - 1 {
                        assert(pre[p].update_id < pre[i - 1].update_id);
                    }
                }
                assert forall|p: int, q: int| 0 <= p < q < post.len() implies rank((#[trigger] post[p]).state) >= rank(
                    (#[trigger] post[q]).state,
                ) by {
                    if q < i {
                        assert(pre[p] == post[p] && pre[q] == post[q]);
                    } else if p < i - 1 {
                        assert(rank(pre[p].state) >= rank(pre[i - 1].state));
                    }
                }
                assert forall|p: int, q: int| 0 <= p < q < post.len() implies !((#[trigger] post[p]).state is Processing
                    && (#[trigger] post[q]).state is Processing) by {
                    if q < i {
                        assert(pre[p] == post[p] && pre[q] == post[q]);
                    } else if p < i - 1 {
                        assert(rank(pre[p].state) >= rank(pre[i - 1].state));
                        assert(!(pre[p].state is Processing && pre[i - 1].state is Processing));
                    }
                }
                assert forall|p: int| 0 <= p < post.len() implies (#[trigger] post[p]).update_id < next_id by {
                    if p < i {
                        assert(pre[p] == post[p]);
                    }
                }
                assert forall|p: int| 0 <= p < post.len() implies (is_terminal((#[trigger] post[p]).state)
                    <==> post[p].payload is None) by {
                    if p < i {
                        assert(pre[p] == post[p]);
                    }
                }
            }
            i += 1;
        }
        proof {
            assert(records@.subrange(0, n as int) =~= records@);
        }
        Some(UpdateStore { records, next_id })
    }

    /// Appends an enqueued update for the staged payload at `payload` and
    /// returns its id, the next one in sequence.
    pub fn register_update(&mut self, meta: UpdateMeta, payload: String, now: i64) -> (r: Result<
        u64,
        UpdateError,
    >)
        requires
            old(self).wf(),
        ensures
            final(self).wf(),
            old(self).next_id_view() < u64::MAX ==> r == Ok::<u64, UpdateError>(old(self).next_id_view()),
            old(self).next_id_view() == u64::MAX ==> r is Err,
            match r {
                Ok(id) => {
                    &&& final(self).next_id_view() == id + 1
                    &&& final(self).records_view() == old(self).records_view().push(
                        UpdateRecord {
                            update_id: id,
                            meta,
                            enqueued_at: now,
                            payload: Some(payload),
                            state: UpdateState::Enqueued,
                            terminated_at: None,
                        },
                    )
                },
                Err(_) => *final(self) == *old(self),
            },
    {
        if self.next_id == u64::MAX {
            return Err(UpdateError::Error(String::from_str("update ids exhausted")));
        }
        let id = self.next_id;
        let rec = UpdateRecord {
            update_id: id,
            meta,
            enqueued_at: now,
            payload: Some(payload),
            state: UpdateState::Enqueued,
            terminated_at: None,
        };
        let ghost old_recs = self.records@;
        self.records.push(rec);
        self.next_id = id + 1;
        assert forall|i: int, j: int| 0 <= i < j < self.records@.len() implies rank(
            (#[trigger] self.records@[i]).state,
        ) >= rank((#[trigger] self.records@[j]).state) by {
            if j < old_recs.len() {
                assert(self.records@[i] == old_recs[i]);
                assert(self.records@[j] == old_recs[j]);
            }
        }
        assert forall|i: int, j: int| 0 <= i < j < self.records@.len() implies (
        #[trigger] self.records@[i]).update_id < (#[trigger] self.records@[j]).update_id by {
            assert(self.records@[i] == old_recs[i]);
        }
        Ok(id)
    }

    /// Position of the first update that is not terminal.
    fn pending_pos(&self) -> (r: usize)
        requires
            self.wf(),
        ensures
            r as int == first_pending(self.records_view()),
            r <= self.records_view().len(),
            forall|i: int| 0 <= i < r ==> is_terminal(#[trigger] self.records_view()[i].state),
            r < self.records_view().len() ==> !is_terminal(self.records_view()[r as int].state),
    {
        let mut i: usize = 0;
        assert(self.records@.subrange(0, self.records@.len() as int) =~= self.records@);
        while i < self.records.len() && state_is_terminal(&self.records[i].state)
            invariant
                self.wf(),
                0 <= i <= self.records@.len(),
                forall|k: int| 0 <= k < i ==> is_terminal(#[trigger] self.records@[k].state),
                first_pending(self.records@) == i + first_pending(self.records@.subrange(i as int, self.records@.len() as int)),
            decreases self.records@.len() - i,
        {
            proof {
                let s = self.records@.subrange(i as int, self.records@.len() as int);
                assert(s.drop_first() =~= self.records@.subrange(i + 1, self.records@.len() as int));
            }
            i += 1;
        }
        proof {
            let s = self.records@.subrange(i as int, self.records@.len() as int);
            if i < self.records@.len() {
                assert(s[0] == self.records@[i as int]);
            }
        }
        i
    }

    /// Takes the oldest enqueued update into processing, unless an update is
    /// being processed already; returns its id.
    pub fn start_next(&mut self) -> (r: Option<u64>)
        requires
            old(self).wf(),
        ensures
            final(self).wf(),
            final(self).next_id_view() == old(self).next_id_view(),
            final(self).records_view().len() == old(self).records_view().len(),
            ({
                let p = first_pending(old(self).records_view());
                let recs = old(self).records_view();
                match r {
                    Some(id) => {
                        &&& p < recs.len()
                        &&& recs[p].state is Enqueued
                        &&& id == recs[p].update_id
                        &&& final(self).records_view() == recs.update(
                            p,
                            UpdateRecord { state: UpdateState::Processing, ..recs[p] },
                        )
                    },
                    None => {
                        &&& (p == recs.len() || recs[p].state is Processing)
                        &&& final(self).records_view() == recs
                    },
                }
            }),
    {
        let p = self.pending_pos();
        if p == self.records.len() {
            return None;
        }
        match self.records[p].state {
            UpdateState::Enqueued => {},
            _ => {
                return None;
            },
        }
        let ghost old_recs = self.records@;
        let mut rec = self.records.remove(p);
        rec.state = UpdateState::Processing;
        let id = rec.update_id;
        self.records.insert(p, rec);
        assert(self.records@ =~= old_recs.update(
            p as int,
            UpdateRecord { state: UpdateState::Processing, ..old_recs[p as int] },
        ));
        assert forall|i: int, j: int| 0 <= i < j < self.records@.len() implies rank(
            (#[trigger] self.records@[i]).state,
        ) >= rank((#[trigger] self.records@[j]).state) by {
            assert(rank(old_recs[i].state) >= rank(old_recs[j].state));
            if i == p {
                assert(rank(old_recs[j].state) == 0);
            }
        }
        assert forall|i: int, j: int| 0 <= i < j < self.records@.len() implies !((
        #[trigger] self.records@[i]).state is Processing && (
        #[trigger] self.records@[j]).state is Processing) by {
            assert(rank(old_recs[i].state) >= rank(old_recs[j].state));
            assert(rank(old_recs[p as int].state) >= rank(old_recs[j].state) || j <= p);
        }
        assert forall|i: int, j: int| 0 <= i < j < self.records@.len() implies (
        #[trigger] self.records@[i]).update_id < (#[trigger] self.records@[j]).update_id by {
            assert(old_recs[i].update_id < old_recs[j].update_id);
        }
        Some(id)
    }

    /// Records the outcome of the update being processed, which must be
    /// `update_id`, and hands back the path of its staged payload, which is
    /// released for deletion.
    pub fn finish(&mut self, update_id: u64, outcome: Result<UpdateResult, String>, now: i64) -> (r:
        Result<String, UpdateError>)
        requires
            old(self).wf(),
        ensures
            final(self).wf(),
            final(self).next_id_view() == old(self).next_id_view(),
            ({
                let p = first_pending(old(self).records_view());
                let recs = old(self).records_view();
                &&& (r is Ok <==> (p < recs.len() && recs[p].state is Processing && recs[p].update_id
                    == update_id))
                &&& match r {
                    Ok(path) => {
                        &&& recs[p].payload == Some(path)
                        &&& final(self).records_view() == recs.update(
                            p,
                            UpdateRecord {
                                state: outcome_state(outcome),
                                payload: None,
                                terminated_at: Some(now),
                                ..recs[p]
                            },
                        )
                    },
                    Err(_) => final(self).records_view() == recs,
                }
            }),
    {
        let p = self.pending_pos();
        if p == self.records.len() {
            return Err(UpdateError::Error(String::from_str("no update is being processed")));
        }
        let processing = match self.records[p].state {
            UpdateState::Processing => true,
            _ => false,
        };
        if !processing || self.records[p].update_id != update_id {
            return Err(UpdateError::Error(String::from_str("update is not being processed")));
        }
        let ghost old_recs = self.records@;
        let mut rec = self.records.remove(p);
        rec.state = match outcome {
            Ok(res) => UpdateState::Processed(res),
            Err(msg) => UpdateState::Failed(msg),
        };
        rec.terminated_at = Some(now);
        let path = match rec.payload {
            Some(path) => path,
            None => {
                proof {
                    assert(old_recs[p as int].payload is Some);
                }
                String::new()
            },
        };
        rec.payload = None;
        self.records.insert(p, rec);
        assert(self.records@ =~= old_recs.update(
            p as int,
            UpdateRecord {
                state: outcome_state(outcome),
                payload: None,
                terminated_at: Some(now),
                ..old_recs[p as int]
            },
        ));
        assert forall|i: int, j: int| 0 <= i < j < self.records@.len() implies rank(
            (#[trigger] self.records@[i]).state,
        ) >= rank((#[trigger] self.records@[j]).state) by {
            assert(rank(old_recs[i].state) >= rank(old_recs[j].state));
        }
        assert forall|i: int, j: int| 0 <= i < j < self.records@.len() implies !((
        #[trigger] self.records@[i]).state is Processing && (
        #[trigger] self.records@[j]).state is Processing) by {
            assert(rank(old_recs[i].state) >= rank(old_recs[j].state));
        }
        assert forall|i: int, j: int| 0 <= i < j < self.records@.len() implies (
        #[trigger] self.records@[i]).update_id < (#[trigger] self.records@[j]).update_id by {
            assert(old_recs[i].update_id < old_recs[j].update_id);
        }
        Ok(path)
    }

    /// The whole log, ordered by update id.
    pub fn list(&self) -> (r: &Vec<UpdateRecord>)
        ensures
            r@ == self.records_view(),
    {
        &self.records
    }

    /// The update with id `update_id`, if the log holds one.
    pub fn meta(&self, update_id: u64) -> (r: Option<&UpdateRecord>)
        requires
            self.wf(),
        ensures
            match r {
                Some(rec) => exists|i: int|
                    0 <= i < self.records_view().len() && self.records_view()[i] == *rec
                        && rec.update_id == update_id,
                None => forall|i: int|
                    0 <= i < self.records_view().len() ==> (#[trigger] self.records_view()[i]).update_id
                        != update_id,
            },
    {
        let mut i: usize = 0;
        while i < self.records.len()
            invariant
                0 <= i <= self.records@.len(),
                forall|k: int| 0 <= k < i ==> (#[trigger] self.records@[k]).update_id != update_id,
            decreases self.records@.len() - i,
        {
            if self.records[i].update_id == update_id {
                return Some(&self.records[i]);
            }
            i += 1;
        }
        None
    }

    /// Reads a log back after a restart: rebuilds it from the stored
    /// `records` and repairs it, where `present[i]` tells whether the staged
    /// payload of `records[i]` is still on disk. The result has no duplicate
    /// update ids, no update left in processing, and no unfinished update
    /// whose payload is missing; `None` when the records do not form a
    /// well-formed log.
    pub fn restore(records: Vec<UpdateRecord>, present: &Vec<bool>) -> (r: Option<UpdateStore>)
        requires
            present@.len() == records@.len(),
        ensures
            r is Some <==> (records@.len() == 0 || (records@.last().update_id < u64::MAX && log_wf(
                records@,
                (records@.last().update_id + 1) as u64,
            ))),
            r matches Some(s) ==> {
                &&& s.wf()
                &&& s.records_view() == recovered(records@, present@)
                &&& forall|i: int, j: int|
                    0 <= i < j < s.records_view().len() ==> (#[trigger] s.records_view()[i]).update_id
                        != (#[trigger] s.records_view()[j]).update_id
                &&& forall|i: int|
                    0 <= i < s.records_view().len() ==> !((#[trigger] s.records_view()[i]).state is Processing)
                &&& forall|i: int|
                    #![trigger s.records_view()[i]]
                    0 <= i < s.records_view().len() ==> exists|j: int|
                        0 <= j < records@.len() && records@[j].update_id == s.records_view()[i].update_id
                            && (!is_terminal(s.records_view()[i].state) ==> present@[j])
            },
    {
        let ghost stored = records@;
        match UpdateStore::from_records(records) {
            None => None,
            Some(mut s) => {
                s.recover(present);
                assert forall|i: int, j: int|
                    0 <= i < j < s.records_view().len() implies (#[trigger] s.records_view()[i]).update_id
                        != (#[trigger] s.records_view()[j]).update_id by {
                    assert(s.records_view()[i].update_id < s.records_view()[j].update_id);
                }
                Some(s)
            },
        }
    }

    /// Brings the log back to a consistent state after a restart, where
    /// `present[i]` tells whether the staged payload of the `i`-th update is
    /// still on disk. Terminal updates are kept; an update that was enqueued
    /// or being processed is enqueued again if its payload is present, and
    /// dropped otherwise.
    pub fn recover(&mut self, present: &Vec<bool>)
        requires
            old(self).wf(),
            present@.len() == old(self).records_view().len(),
        ensures
            final(self).wf(),
            final(self).next_id_view() == old(self).next_id_view(),
            final(self).records_view() == recovered(old(self).records_view(), present@),
            forall|i: int|
                0 <= i < final(self).records_view().len() ==> !((
                #[trigger] final(self).records_view()[i]).state is Processing),
            forall|i: int|
                #![trigger final(self).records_view()[i]]
                0 <= i < final(self).records_view().len() ==> exists|j: int|
                    0 <= j < old(self).records_view().len() && old(self).records_view()[j].update_id == 
                    final(self).records_view()[i].update_id && (!is_terminal(
                        final(self).records_view()[i].state,
                    ) ==> present@[j]),
    {
        let ghost orig = self.records@;
        let ghost n = orig.len();
        let total = self.records.len();
        let mut rest: Vec<UpdateRecord> = Vec::new();
        std::mem::swap(&mut self.records, &mut rest);
        let mut kept: Vec<UpdateRecord> = Vec::new();
        let mut k: usize = 0;
        let ghost mut src: Seq<int> = Seq::empty();
        assert(rest@.subrange(0, n as int) =~= rest@);
        assert(orig.subrange(0, 0) =~= Seq::<UpdateRecord>::empty());
        while rest.len() > 0
            invariant
                orig == old(self).records_view(),
                log_wf(orig, self.next_id),
                self.next_id == old(self).next_id_view(),
                n == orig.len(),
                n == total,
                present@.len() == n,
                0 <= k <= n,
                rest@ == orig.subrange(k as int, n as int),
                kept@ == recovered(orig.subrange(0, k as int), present@),
                log_wf(kept@, self.next_id),
                forall|a: int, j: int|
                    0 <= a < kept@.len() && k <= j < n ==> (#[trigger] kept@[a]).update_id < (
                    #[trigger] orig[j]).update_id,
                forall|a: int| 0 <= a < kept@.len() ==> !((#[trigger] kept@[a]).state is Processing),
                forall|a: int, j: int|
                    0 <= a < kept@.len() && k <= j < n && !is_terminal((#[trigger] kept@[a]).state)
                        ==> !is_terminal((#[trigger] orig[j]).state),
                src.len() == kept@.len(),
                forall|a: int|
                    0 <= a < kept@.len() ==> 0 <= #[trigger] src[a] < k && orig[src[a]].update_id
                        == kept@[a].update_id && (!is_terminal(kept@[a].state) ==> present@[src[a]]),
            decreases n - k,
        {
            let ghost kept0 = kept@;
            let rec = rest.remove(0);
            assert(rec == orig[k as int]);
            assert(rest@ =~= orig.subrange(k + 1, n as int));
            assert(orig.subrange(0, k + 1).drop_last() =~= orig.subrange(0, k as int));
            assert(orig.subrange(0, k + 1).last() == orig[k as int]);
            let terminal = state_is_terminal(&rec.state);
            if terminal {
                kept.push(rec);
            } else if present[k] {
                let mut r2 = rec;
                r2.state = UpdateState::Enqueued;
                kept.push(r2);
            }
            proof {
                let e = orig[k as int];
                assert forall|a: int, j: int|
                    0 <= a < kept@.len() && k + 1 <= j < n implies (#[trigger] kept@[a]).update_id < (
                    #[trigger] orig[j]).update_id by {
                    if a < kept0.len() {
                        assert(kept@[a] == kept0[a]);
                    }
                }
                assert forall|a: int, j: int|
                    0 <= a < kept@.len() && k + 1 <= j < n && !is_terminal(
                        (#[trigger] kept@[a]).state,
                    ) implies !is_terminal((#[trigger] orig[j]).state) by {
                    if a < kept0.len() {
                        assert(kept@[a] == kept0[a]);
                        assert(!is_terminal(orig[k as int].state));
                    }
                    assert(rank(orig[k as int].state) >= rank(orig[j].state));
                }
                if kept@.len() > kept0.len() {
                    src = src.push(k as int);
                }
                assert forall|a: int|
                    0 <= a < kept@.len() implies 0 <= #[trigger] src[a] < k + 1 && orig[src[a]].update_id
                        == kept@[a].update_id && (!is_terminal(kept@[a].state) ==> present@[src[a]]) by {
                    if a < kept0.len() {
                        assert(kept@[a] == kept0[a]);
                    }
                }
                assert forall|i: int, j: int| 0 <= i < j < kept@.len() implies rank(
                    (#[trigger] kept@[i]).state,
                ) >= rank((#[trigger] kept@[j]).state) by {
                    if j < kept0.len() {
                        assert(kept@[i] == kept0[i]);
                        assert(kept@[j] == kept0[j]);
                    } else {
                        assert(kept@[i] == kept0[i]);
                        if is_terminal(kept@[j].state) && !is_terminal(kept0[i].state) {
                            assert(!is_terminal(orig[k as int].state));
                        }
                    }
                }
                assert forall|i: int, j: int| 0 <= i < j < kept@.len() implies (
                #[trigger] kept@[i]).update_id < (#[trigger] kept@[j]).update_id by {
                    assert(kept@[i] == kept0[i]);
                }
                assert forall|i: int| 0 <= i < kept@.len() implies (#[trigger] kept@[i]).update_id
                    < self.next_id by {
                    if i < kept0.len() {
                        assert(kept@[i] == kept0[i]);
                    }
                }
                assert forall|i: int| 0 <= i < kept@.len() implies (is_terminal(
                    (#[trigger] kept@[i]).state,
                ) <==> kept@[i].payload is None) by {
                    if i < kept0.len() {
                        assert(kept@[i] == kept0[i]);
                    }
                }
                assert forall|i: int, j: int| 0 <= i < j < kept@.len() implies !((
                #[trigger] kept@[i]).state is Processing && (#[trigger] kept@[j]).state is Processing) by {
                    assert(kept@[i] == kept0[i]);
                }
                assert forall|a: int| 0 <= a < kept@.len() implies !((#[trigger] kept@[a]).state is Processing) by {
                    if a < kept0.len() {
                        assert(kept@[a] == kept0[a]);
                    }
                }
            }
            k += 1;
        }
        assert(orig.subrange(0, n as int) =~= orig);
        self.records = kept;
        assert forall|i: int|
            #![trigger self.records@[i]]
            0 <= i < self.records@.len() implies exists|j: int|
                0 <= j < orig.len() && orig[j].update_id == self.records@[i].update_id && (!is_terminal(
                    self.records@[i].state,
                ) ==> present@[j]) by {
            let j = src[i];
            assert(self.records@[i] == kept@[i]);
            assert(0 <= j < k);
            assert(0 <= j < orig.len() && orig[j].update_id == self.records@[i].update_id && (!is_terminal(
                    self.records@[i].state,
                ) ==> present@[j]));
        }
    }
}


/// In a well-formed log, ids strictly increase along the log, and updates
/// reach a terminal state in the order they were enqueued: an update is
/// terminal only if every earlier one is.
pub proof fn lemma_updates_complete_in_order(recs: Seq<UpdateRecord>, next_id: u64)
    requires
        log_wf(recs, next_id),
    ensures
        forall|i: int, j: int|
            0 <= i < j < recs.len() ==> (#[trigger] recs[i]).update_id < (#[trigger] recs[j]).update_id,
        forall|i: int, j: int|
            0 <= i < j < recs.len() && is_terminal((#[trigger] recs[j]).state) ==> is_terminal(
                (#[trigger] recs[i]).state,
            ),
{
    assert forall|i: int, j: int|
        0 <= i < j < recs.len() && is_terminal((#[trigger] recs[j]).state) implies is_terminal(
        (#[trigger] recs[i]).state,
    ) by {
        assert(rank(recs[i].state) >= rank(recs[j].state));
    }
}

/// A terminal update no longer refers to a staged payload: its file was
/// handed back for deletion when the update finished.
pub proof fn lemma_terminal_update_holds_no_payload(recs: Seq<UpdateRecord>, next_id: u64, i: int)
    requires
        log_wf(recs, next_id),
        0 <= i < recs.len(),
        is_terminal(recs[i].state),
    ensures
        recs[i].payload is None,
{
}


/// Properties of the first unfinished update of a log.
pub proof fn lemma_first_pending(recs: Seq<UpdateRecord>)
    ensures
        0 <= first_pending(recs) <= recs.len(),
        forall|j: int| 0 <= j < first_pending(recs) ==> is_terminal(#[trigger] recs[j].state),
        first_pending(recs) < recs.len() ==> !is_terminal(recs[first_pending(recs)].state),
    decreases recs.len(),
{
    if recs.len() > 0 && is_terminal(recs[0].state) {
        let rest = recs.drop_first();
        lemma_first_pending(rest);
        assert forall|j: int| 0 <= j < first_pending(recs) implies is_terminal(#[trigger] recs[j].state) by {
            if j > 0 {
                assert(recs[j] == rest[j - 1]);
            }
        }
        if first_pending(recs) < recs.len() {
            assert(recs[first_pending(recs)] == rest[first_pending(rest)]);
        }
    }
}

/// Updates are applied in the order they were enqueued: the update that
/// `start_next` takes, the first unfinished one, comes after every finished
/// update, and every update after it is unfinished and has a larger id.
pub proof fn lemma_next_update_is_oldest_pending(recs: Seq<UpdateRecord>, next_id: u64)
    requires
        log_wf(recs, next_id),
        first_pending(recs) < recs.len(),
    ensures
        forall|j: int| 0 <= j < first_pending(recs) ==> is_terminal(#[trigger] recs[j].state),
        forall|j: int|
            first_pending(recs) < j < recs.len() ==> !is_terminal((#[trigger] recs[j]).state)
                && recs[first_pending(recs)].update_id < recs[j].update_id,
{
    lemma_first_pending(recs);
    let p = first_pending(recs);
    assert forall|j: int| p < j < recs.len() implies !is_terminal((#[trigger] recs[j]).state)
        && recs[p].update_id < recs[j].update_id by {
        assert(rank(recs[p].state) >= rank(recs[j].state));
        assert(recs[p].update_id < recs[j].update_id);
    }
}

} // verus!
