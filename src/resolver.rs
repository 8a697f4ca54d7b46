use vstd::prelude::*;

use crate::name::{is_valid_index_uid, valid_name};

verus! {

/// Errors of the name resolver.
pub enum UuidResolverError {
    NameAlreadyExist,
    UnexistingIndex(String),
    BadlyFormatted(String),
    Internal(String),
}

/// User-facing classification of an error.
#[derive(PartialEq, Eq, Structural, Clone, Copy, Debug)]
pub enum Code {
    IndexAlreadyExists,
    IndexNotFound,
    InvalidIndexUid,
    Internal,
}

impl UuidResolverError {
    pub open spec fn code_of(&self) -> Code {
        match self {
            UuidResolverError::NameAlreadyExist => Code::IndexAlreadyExists,
            UuidResolverError::UnexistingIndex(_) => Code::IndexNotFound,
            UuidResolverError::BadlyFormatted(_) => Code::InvalidIndexUid,
            UuidResolverError::Internal(_) => Code::Internal,
        }
    }

    pub fn error_code(&self) -> (r: Code)
        ensures
            r == self.code_of(),
    {
        match self {
            UuidResolverError::NameAlreadyExist => Code::IndexAlreadyExists,
            UuidResolverError::UnexistingIndex(_) => Code::IndexNotFound,
            UuidResolverError::BadlyFormatted(_) => Code::InvalidIndexUid,
            UuidResolverError::Internal(_) => Code::Internal,
        }
    }
}

/// The abstract state of the resolver: the current bijection between names
/// and ids, and every id handed out so far.
pub struct NameModel {
    pub names: Map<Seq<char>, u128>,
    pub issued: Set<u128>,
}

/// `Some` of the id in an `Ok`, `None` for an error.
pub open spec fn ok_id<E>(r: Result<u128, E>) -> Option<u128> {
    match r {
        Ok(id) => Some(id),
        Err(_) => None,
    }
}

/// The error of a failed lookup of `n`: a badly formatted name is reported
/// as such, a well-formed unknown one as unknown, each with the name.
pub open spec fn resolve_failure(e: Option<UuidResolverError>, n: Seq<char>) -> bool {
    match e {
        Some(UuidResolverError::BadlyFormatted(s)) => s@ == n && !valid_name(n),
        Some(UuidResolverError::UnexistingIndex(s)) => s@ == n && valid_name(n),
        _ => false,
    }
}

/// The error of a failed `create(n)` on `m`: a badly formatted name, a name
/// already taken, or else a drawn id that was issued before.
pub open spec fn create_failure(e: Option<UuidResolverError>, n: Seq<char>, m: NameModel) -> bool {
    match e {
        Some(UuidResolverError::BadlyFormatted(s)) => s@ == n && !valid_name(n),
        Some(UuidResolverError::NameAlreadyExist) => valid_name(n) && m.names.contains_key(n),
        Some(UuidResolverError::Internal(_)) => valid_name(n) && !m.names.contains_key(n),
        _ => false,
    }
}

/// The error of a failed `get_or_create(n)`: a badly formatted name, or else
/// a drawn id that was issued before.
pub open spec fn get_or_create_failure(e: Option<UuidResolverError>, n: Seq<char>) -> bool {
    match e {
        Some(UuidResolverError::BadlyFormatted(s)) => s@ == n && !valid_name(n),
        Some(UuidResolverError::Internal(_)) => valid_name(n),
        _ => false,
    }
}

/// The error of a failed `delete(n)`: the name is unknown.
pub open spec fn delete_failure(e: Option<UuidResolverError>, n: Seq<char>) -> bool {
    match e {
        Some(UuidResolverError::UnexistingIndex(s)) => s@ == n,
        _ => false,
    }
}

/// The error in `r`, if it is one.
pub open spec fn err_of<T>(r: Result<T, UuidResolverError>) -> Option<UuidResolverError> {
    match r {
        Ok(_) => None,
        Err(e) => Some(e),
    }
}

impl NameModel {
    /// Every name is well-formed, no two names share an id, and every live
    /// id was issued.
    pub open spec fn wf(self) -> bool {
        &&& forall|a: Seq<char>| #[trigger] self.names.contains_key(a) ==> valid_name(a)
        &&& forall|a: Seq<char>, b: Seq<char>|
            self.names.contains_key(a) && self.names.contains_key(b) && a != b ==> #[trigger] self.names[a]
                != #[trigger] self.names[b]
        &&& forall|a: Seq<char>| #[trigger]
            self.names.contains_key(a) ==> self.issued.contains(self.names[a])
    }

    pub open spec fn with_entry(self, n: Seq<char>, id: u128) -> NameModel {
        NameModel { names: self.names.insert(n, id), issued: self.issued.insert(id) }
    }

    pub open spec fn without(self, n: Seq<char>) -> NameModel {
        NameModel { names: self.names.remove(n), issued: self.issued }
    }

    /// `create(n)` with the freshly drawn id `fresh` succeeds.
    pub open spec fn can_create(self, n: Seq<char>, fresh: u128) -> bool {
        valid_name(n) && !self.names.contains_key(n) && !self.issued.contains(fresh)
    }

    /// State and id after `create(n)` with the freshly drawn id `fresh`.
    pub open spec fn create(self, n: Seq<char>, fresh: u128) -> (NameModel, Option<u128>) {
        if self.can_create(n, fresh) {
            (self.with_entry(n, fresh), Some(fresh))
        } else {
            (self, None)
        }
    }

    /// State and id after `get_or_create(n)` with the freshly drawn id `fresh`.
    pub open spec fn get_or_create(self, n: Seq<char>, fresh: u128) -> (NameModel, Option<u128>) {
        if valid_name(n) && self.names.contains_key(n) {
            (self, Some(self.names[n]))
        } else {
            self.create(n, fresh)
        }
    }

    /// Id that `resolve(n)` returns.
    pub open spec fn resolve(self, n: Seq<char>) -> Option<u128> {
        if valid_name(n) && self.names.contains_key(n) {
            Some(self.names[n])
        } else {
            None
        }
    }

    /// State and id after `delete(n)`.
    pub open spec fn delete(self, n: Seq<char>) -> (NameModel, Option<u128>) {
        if self.names.contains_key(n) {
            (self.without(n), Some(self.names[n]))
        } else {
            (self, None)
        }
    }
}

/// Relies on uuid::Uuid::new_v4 for a random version-4 id, taken as its
/// 128-bit value; nothing is promised of the value. The call panics only
/// when the system's random source fails.
#[verifier::external_body]
fn new_index_id() -> (r: u128) {
    uuid::Uuid::new_v4().as_u128()
}

/// The resolver's name map: names are unique, ids are unique, and an id once
/// issued is never handed out again by this map.
pub struct NameMap {
    entries: Vec<(String, u128)>,
    issued: Vec<u128>,
    model: Ghost<NameModel>,
}

impl View for NameMap {
    type V = NameModel;

    closed spec fn view(&self) -> NameModel {
        self.model@
    }
}

impl NameMap {
    pub closed spec fn wf(&self) -> bool {
        &&& forall|i: int|
            0 <= i < self.entries@.len() ==> self.model@.names.contains_key(
                #[trigger] self.entries@[i].0@,
            ) && self.model@.names[self.entries@[i].0@] == self.entries@[i].1
        &&& forall|n: Seq<char>| #[trigger]
            self.model@.names.contains_key(n) ==> exists|i: int|
                0 <= i < self.entries@.len() && #[trigger] self.entries@[i].0@ == n
        &&& forall|i: int, j: int|
            0 <= i < j < self.entries@.len() ==> #[trigger] self.entries@[i].0@
                != #[trigger] self.entries@[j].0@
        &&& forall|id: u128|
            self.model@.issued.contains(id) <==> #[trigger] self.issued@.contains(id)
        &&& self.model@.wf()
    }

    /// Names and ids in the order the map holds them, the order of `list`.
    pub closed spec fn entries_view(&self) -> Seq<(Seq<char>, u128)> {
        self.entries@.map_values(|e: (String, u128)| (e.0@, e.1))
    }

    pub fn new() -> (r: NameMap)
        ensures
            r.wf(),
            r@.names.is_empty(),
            r@.issued.is_empty(),
    {
        NameMap {
            entries: Vec::new(),
            issued: Vec::new(),
            model: Ghost(NameModel { names: Map::empty(), issued: Set::empty() }),
        }
    }

    /// The invariants of the model follow from those of the map.
    pub proof fn lemma_model_wf(&self)
        requires
            self.wf(),
        ensures
            self@.wf(),
    {
    }

    /// Position of `name` in the entries, if present.
    fn find(&self, name: &String) -> (r: Option<usize>)
        requires
            self.wf(),
        ensures
            match r {
                Some(i) => i < self.entries@.len() && self.entries@[i as int].0@ == name@,
                None => !self@.names.contains_key(name@),
            },
    {
        let mut i: usize = 0;
        while i < self.entries.len()
            invariant
                self.wf(),
                0 <= i <= self.entries@.len(),
                forall|j: int| 0 <= j < i ==> #[trigger] self.entries@[j].0@ != name@,
            decreases self.entries@.len() - i,
        {
            if self.entries[i].0.eq(name) {
                return Some(i);
            }
            i += 1;
        }
        None
    }

    fn was_issued(&self, id: u128) -> (r: bool)
        requires
            self.wf(),
        ensures
            r == self@.issued.contains(id),
    {
        let mut i: usize = 0;
        while i < self.issued.len()
            invariant
                self.wf(),
                0 <= i <= self.issued@.len(),
                forall|j: int| 0 <= j < i ==> self.issued@[j] != id,
            decreases self.issued@.len() - i,
        {
            if self.issued[i] == id {
                assert(self.issued@[i as int] == id);
                assert(self.issued@.contains(id));
                return true;
            }
            i += 1;
        }
        assert(!self.issued@.contains(id));
        false
    }

    fn insert_new(&mut self, name: String, id: u128)
        requires
            old(self).wf(),
            old(self)@.can_create(name@, id),
        ensures
            final(self).wf(),
            final(self)@ == old(self)@.with_entry(name@, id),
    {
        let ghost n = name@;
        let ghost old_entries = self.entries@;
        let ghost old_issued = self.issued@;
        let ghost m = self.model@;
        self.entries.push((name, id));
        self.issued.push(id);
        self.model = Ghost(m.with_entry(n, id));
        assert forall|x: u128| self.model@.issued.contains(x) <==> #[trigger] self.issued@.contains(x) by {
            if x != id {
                if old_issued.contains(x) {
                    let k = choose|k: int| 0 <= k < old_issued.len() && old_issued[k] == x;
                    assert(self.issued@[k] == x);
                }
                if self.issued@.contains(x) {
                    let k = choose|k: int| 0 <= k < self.issued@.len() && self.issued@[k] == x;
                    assert(old_issued[k] == x);
                }
            } else {
                assert(self.issued@[old_issued.len() as int] == id);
            }
        }
        assert forall|a: Seq<char>| #[trigger] self.model@.names.contains_key(a) implies exists|i: int|
            0 <= i < self.entries@.len() && #[trigger] self.entries@[i].0@ == a by {
            if a == n {
                assert(self.entries@[old_entries.len() as int].0@ == n);
            } else {
                let i = choose|i: int| 0 <= i < old_entries.len() && #[trigger] old_entries[i].0@ == a;
                assert(self.entries@[i] == old_entries[i]);
            }
        }
        assert forall|i: int, j: int| 0 <= i < j < self.entries@.len() implies #[trigger] self.entries@[i].0@
            != #[trigger] self.entries@[j].0@ by {
            if j == old_entries.len() {
                assert(m.names.contains_key(old_entries[i].0@));
            } else {
                assert(self.entries@[i] == old_entries[i]);
                assert(self.entries@[j] == old_entries[j]);
            }
        }
        assert forall|i: int| 0 <= i < self.entries@.len() implies self.model@.names.contains_key(
            #[trigger] self.entries@[i].0@,
        ) && self.model@.names[self.entries@[i].0@] == self.entries@[i].1 by {
            if i < old_entries.len() {
                assert(self.entries@[i] == old_entries[i]);
                assert(m.names.contains_key(old_entries[i].0@));
            }
        }
        assert forall|a: Seq<char>, b: Seq<char>|
            self.model@.names.contains_key(a) && self.model@.names.contains_key(b) && a
                != b implies #[trigger] self.model@.names[a] != #[trigger] self.model@.names[b] by {
            if a != n && b != n {
                assert(m.names[a] != m.names[b]);
            } else if a == n {
                assert(m.issued.contains(m.names[b]));
            } else {
                assert(m.issued.contains(m.names[a]));
            }
        }
    }

    /// Registers `name` under the freshly drawn id `fresh`.
    pub fn create_with_id(&mut self, name: String, fresh: u128) -> (r: Result<u128, UuidResolverError>)
        requires
            old(self).wf(),
        ensures
            final(self).wf(),
            (final(self)@, ok_id(r)) == old(self)@.create(name@, fresh),
            !valid_name(name@) ==> (r matches Err(UuidResolverError::BadlyFormatted(s)) && s@ == name@),
            valid_name(name@) && old(self)@.names.contains_key(name@) ==> r matches Err(
                UuidResolverError::NameAlreadyExist,
            ),
            valid_name(name@) && !old(self)@.names.contains_key(name@) && old(self)@.issued.contains(fresh)
                ==> r matches Err(UuidResolverError::Internal(_)),
            r is Err ==> create_failure(err_of(r), name@, old(self)@),
    {
        if !is_valid_index_uid(name.as_str()) {
            return Err(UuidResolverError::BadlyFormatted(name));
        }
        if self.find(&name).is_some() {
            return Err(UuidResolverError::NameAlreadyExist);
        }
        if self.was_issued(fresh) {
            return Err(UuidResolverError::Internal(String::from_str("index id already issued")));
        }
        self.insert_new(name, fresh);
        Ok(fresh)
    }

    /// Returns the id of `name`, registering it under `fresh` when absent.
    pub fn get_or_create_with_id(&mut self, name: String, fresh: u128) -> (r: Result<u128, UuidResolverError>)
        requires
            old(self).wf(),
        ensures
            final(self).wf(),
            (final(self)@, ok_id(r)) == old(self)@.get_or_create(name@, fresh),
            !valid_name(name@) ==> (r matches Err(UuidResolverError::BadlyFormatted(s)) && s@ == name@),
            valid_name(name@) && !old(self)@.names.contains_key(name@) && old(self)@.issued.contains(fresh)
                ==> r matches Err(UuidResolverError::Internal(_)),
            r is Err ==> get_or_create_failure(err_of(r), name@),
    {
        if !is_valid_index_uid(name.as_str()) {
            return Err(UuidResolverError::BadlyFormatted(name));
        }
        match self.find(&name) {
            Some(i) => {
                let id = self.entries[i].1;
                Ok(id)
            },
            None => self.create_with_id(name, fresh),
        }
    }

    /// Registers `name` under a newly drawn random id.
    pub fn create(&mut self, name: String) -> (r: Result<u128, UuidResolverError>)
        requires
            old(self).wf(),
        ensures
            final(self).wf(),
            exists|fresh: u128| (final(self)@, ok_id(r)) == #[trigger] old(self)@.create(name@, fresh),
            !valid_name(name@) ==> (r matches Err(UuidResolverError::BadlyFormatted(s)) && s@ == name@),
            valid_name(name@) && old(self)@.names.contains_key(name@) ==> r matches Err(
                UuidResolverError::NameAlreadyExist,
            ),
            r is Err ==> create_failure(err_of(r), name@, old(self)@),
    {
        let fresh = new_index_id();
        self.create_with_id(name, fresh)
    }

    /// Returns the id of `name`, registering it under a newly drawn random id
    /// when absent.
    pub fn get_or_create(&mut self, name: String) -> (r: Result<u128, UuidResolverError>)
        requires
            old(self).wf(),
        ensures
            final(self).wf(),
            exists|fresh: u128|
                (final(self)@, ok_id(r)) == #[trigger] old(self)@.get_or_create(name@, fresh),
            !valid_name(name@) ==> (r matches Err(UuidResolverError::BadlyFormatted(s)) && s@ == name@),
            valid_name(name@) && old(self)@.names.contains_key(name@) ==> r == Ok::<u128, UuidResolverError>(
                old(self)@.names[name@],
            ),
            r is Err ==> get_or_create_failure(err_of(r), name@),
    {
        let fresh = new_index_id();
        self.get_or_create_with_id(name, fresh)
    }

    /// Id registered under `name`.
    pub fn resolve(&self, name: String) -> (r: Result<u128, UuidResolverError>)
        requires
            self.wf(),
        ensures
            ok_id(r) == self@.resolve(name@),
            !valid_name(name@) ==> (r matches Err(UuidResolverError::BadlyFormatted(s)) && s@ == name@),
            valid_name(name@) && !self@.names.contains_key(name@) ==> (r matches Err(
                UuidResolverError::UnexistingIndex(s),
            ) && s@ == name@),
            r is Err ==> resolve_failure(err_of(r), name@),
    {
        if !is_valid_index_uid(name.as_str()) {
            return Err(UuidResolverError::BadlyFormatted(name));
        }
        match self.find(&name) {
            Some(i) => Ok(self.entries[i].1),
            None => Err(UuidResolverError::UnexistingIndex(name)),
        }
    }

    /// Removes `name` and returns the id it had.
    pub fn delete(&mut self, name: String) -> (r: Result<u128, UuidResolverError>)
        requires
            old(self).wf(),
        ensures
            final(self).wf(),
            (final(self)@, ok_id(r)) == old(self)@.delete(name@),
            !old(self)@.names.contains_key(name@) ==> (r matches Err(
                UuidResolverError::UnexistingIndex(s),
            ) && s@ == name@),
            r is Err ==> delete_failure(err_of(r), name@),
    {
        match self.find(&name) {
            None => Err(UuidResolverError::UnexistingIndex(name)),
            Some(i) => {
                let ghost old_entries = self.entries@;
                let ghost m = self.model@;
                let ghost n = name@;
                let (_, id) = self.entries.remove(i);
                self.model = Ghost(m.without(n));
                assert forall|k: int| 0 <= k < self.entries@.len() implies self.model@.names.contains_key(
                    #[trigger] self.entries@[k].0@,
                ) && self.model@.names[self.entries@[k].0@] == self.entries@[k].1 by {
                    if k < i {
                        assert(self.entries@[k] == old_entries[k]);
                        assert(old_entries[k].0@ != old_entries[i as int].0@);
                    } else {
                        assert(self.entries@[k] == old_entries[k + 1]);
                        assert(old_entries[k + 1].0@ != old_entries[i as int].0@);
                    }
                }
                assert forall|a: Seq<char>| #[trigger] self.model@.names.contains_key(a) implies exists|k: int|
                    0 <= k < self.entries@.len() && #[trigger] self.entries@[k].0@ == a by {
                    let k = choose|k: int| 0 <= k < old_entries.len() && #[trigger] old_entries[k].0@ == a;
                    if k < i {
                        assert(self.entries@[k] == old_entries[k]);
                    } else {
                        assert(k != i);
                        assert(self.entries@[k - 1] == old_entries[k]);
                    }
                }
                assert forall|p: int, q: int| 0 <= p < q < self.entries@.len() implies #[trigger] self.entries@[p].0@
                    != #[trigger] self.entries@[q].0@ by {
                    let pp = if p < i { p } else { p + 1 };
                    let qq = if q < i { q } else { q + 1 };
                    assert(self.entries@[p] == old_entries[pp]);
                    assert(self.entries@[q] == old_entries[qq]);
                }
                Ok(id)
            },
        }
    }

    /// All names with their ids, in the order the map holds them.
    pub fn list(&self) -> (r: Vec<(String, u128)>)
        requires
            self.wf(),
        ensures
            r@.len() == self@.names.len(),
            forall|i: int|
                0 <= i < r@.len() ==> self@.names.contains_key(#[trigger] r@[i].0@) && self@.names[r@[i].0@]
                    == r@[i].1,
            forall|n: Seq<char>| #[trigger]
                self@.names.contains_key(n) ==> exists|i: int| 0 <= i < r@.len() && #[trigger] r@[i].0@ == n,
            forall|i: int, j: int| 0 <= i < j < r@.len() ==> #[trigger] r@[i].0@ != #[trigger] r@[j].0@,
            r@.len() == self.entries_view().len(),
            forall|i: int|
                0 <= i < r@.len() ==> (#[trigger] r@[i]).0@ == self.entries_view()[i].0 && r@[i].1
                    == self.entries_view()[i].1,
    {
        let mut out: Vec<(String, u128)> = Vec::new();
        let mut i: usize = 0;
        while i < self.entries.len()
            invariant
                self.wf(),
                0 <= i <= self.entries@.len(),
                out@.len() == i,
                forall|j: int| 0 <= j < i ==> (#[trigger] out@[j]).0@ == self.entries@[j].0@ && out@[j].1
                    == self.entries@[j].1,
            decreases self.entries@.len() - i,
        {
            let name = self.entries[i].0.clone();
            out.push((name, self.entries[i].1));
            i += 1;
        }
        proof {
            self.lemma_len();
            assert forall|n: Seq<char>| #[trigger] self@.names.contains_key(n) implies exists|k: int|
                0 <= k < out@.len() && #[trigger] out@[k].0@ == n by {
                let k = choose|k: int| 0 <= k < self.entries@.len() && #[trigger] self.entries@[k].0@ == n;
                assert(out@[k].0@ == n);
            }
        }
        out
    }

    /// The map holds one entry per name.
    proof fn lemma_len(&self)
        requires
            self.wf(),
        ensures
            self@.names.len() == self.entries@.len(),
    {
        let keys = Set::new(|k: Seq<char>| exists|i: int| 0 <= i < self.entries@.len() && self.entries@[i].0@ == k);
        assert(self@.names.dom() =~= keys);
        let s = Seq::new(self.entries@.len(), |i: int| self.entries@[i].0@);
        assert forall|i: int, j: int| 0 <= i < s.len() && 0 <= j < s.len() && i != j implies s[i] != s[j] by {
            if i < j {
                assert(self.entries@[i].0@ != self.entries@[j].0@);
            } else {
                assert(self.entries@[j].0@ != self.entries@[i].0@);
            }
        }
        assert(s.no_duplicates());
        assert(s.to_set() =~= keys) by {
            assert forall|k: Seq<char>| keys.contains(k) implies s.to_set().contains(k) by {
                let i = choose|i: int| 0 <= i < self.entries@.len() && self.entries@[i].0@ == k;
                assert(s[i] == k);
            }
        }
        s.unique_seq_to_set();
    }
}


/// Every operation of the resolver keeps the name map unique both ways: a
/// name maps to one id, and no two names share an id.
pub proof fn lemma_name_map_stays_unique(m: NameModel, n: Seq<char>, fresh: u128)
    requires
        m.wf(),
    ensures
        m.create(n, fresh).0.wf(),
        m.get_or_create(n, fresh).0.wf(),
        m.delete(n).0.wf(),
{
    let c = m.with_entry(n, fresh);
    if m.can_create(n, fresh) {
        assert forall|a: Seq<char>, b: Seq<char>|
            c.names.contains_key(a) && c.names.contains_key(b) && a != b implies #[trigger] c.names[a]
                != #[trigger] c.names[b] by {
            if a != n && b != n {
                assert(m.names[a] != m.names[b]);
            } else if a == n {
                assert(m.issued.contains(m.names[b]));
            } else {
                assert(m.issued.contains(m.names[a]));
            }
        }
    }
    let d = m.without(n);
    assert forall|a: Seq<char>, b: Seq<char>|
        d.names.contains_key(a) && d.names.contains_key(b) && a != b implies #[trigger] d.names[a]
            != #[trigger] d.names[b] by {
        assert(m.names[a] != m.names[b]);
    }
}

/// A name keeps its id for as long as it lives: operations on other names
/// leave it alone, and `get_or_create` on the name itself returns that id
/// and changes nothing.
pub proof fn lemma_id_stable(m: NameModel, n: Seq<char>, other: Seq<char>, fresh: u128)
    requires
        m.wf(),
        m.resolve(n) is Some,
        other != n,
    ensures
        m.create(other, fresh).0.resolve(n) == m.resolve(n),
        m.get_or_create(other, fresh).0.resolve(n) == m.resolve(n),
        m.delete(other).0.resolve(n) == m.resolve(n),
        m.get_or_create(n, fresh) == (m, m.resolve(n)),
{
}

/// After a name is deleted and created again, it gets an id other than the
/// one it had.
pub proof fn lemma_recreated_name_gets_new_id(m: NameModel, n: Seq<char>, fresh: u128)
    requires
        m.wf(),
        m.names.contains_key(n),
    ensures
        m.delete(n).0.create(n, fresh).1 != Some(m.names[n]),
{
    assert(m.issued.contains(m.names[n]));
}

/// `get_or_create` is idempotent: once it has returned an id for a name, a
/// second call returns the same id and leaves the map as it is, which then
/// holds exactly one entry for that name.
pub proof fn lemma_get_or_create_idempotent(m: NameModel, n: Seq<char>, f1: u128, f2: u128)
    requires
        m.wf(),
        m.get_or_create(n, f1).1 is Some,
    ensures
        m.get_or_create(n, f1).0.get_or_create(n, f2) == m.get_or_create(n, f1),
        m.get_or_create(n, f1).0.names.dom() == m.names.dom().insert(n),
{
    let m1 = m.get_or_create(n, f1).0;
    assert(m1.names.dom() =~= m.names.dom().insert(n));
}

} // verus!
