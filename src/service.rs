//! The service's state across sessions: the store of key-share records and
//! the table of key generations in progress.
use vstd::prelude::*;

use crate::context::KeygenInitSanitized;
use crate::store::{shares_view, ShareStore};

verus! {

/// The protocol families that the service answers for.
#[derive(Clone, Copy, Debug, PartialEq, Eq, Structural)]
pub enum ServiceType {
    Gg20,
    Multisig,
}

#[derive(Clone, Copy, Debug, PartialEq, Eq, Structural)]
pub enum ServiceError {
    /// A key generation with this session id is in progress or has a stored record.
    DuplicateSession,
    /// No key generation with this session id is in progress, or no record is stored for it.
    UnknownSession,
    /// The stored record holds another number of shares than the local party signs with.
    ShareCountMismatch,
}

pub ghost struct ServiceView {
    /// Stored key-share records by session id.
    pub records: Map<Seq<char>, Seq<Seq<u8>>>,
    /// Session ids of the key generations in progress.
    pub active: Set<Seq<char>>,
}

/// Accepting a key generation for `key`: refused where `key` is in progress or stored.
pub open spec fn start_keygen_step(v: ServiceView, key: Seq<char>) -> (ServiceView, Result<(), ServiceError>) {
    if v.records.contains_key(key) || v.active.contains(key) {
        (v, Err(ServiceError::DuplicateSession))
    } else {
        (ServiceView { records: v.records, active: v.active.insert(key) }, Ok(()))
    }
}

/// Ending a key generation of `key` in progress by storing `record`.
pub open spec fn finish_keygen_step(v: ServiceView, key: Seq<char>, record: Seq<Seq<u8>>) -> (
    ServiceView,
    Result<(), ServiceError>,
) {
    if !v.active.contains(key) {
        (v, Err(ServiceError::UnknownSession))
    } else if v.records.contains_key(key) {
        (v, Err(ServiceError::DuplicateSession))
    } else {
        (
            ServiceView { records: v.records.insert(key, record), active: v.active.remove(key) },
            Ok(()),
        )
    }
}

/// Ending a key generation of `key` without storing anything.
pub open spec fn abort_keygen_step(v: ServiceView, key: Seq<char>) -> ServiceView {
    ServiceView { records: v.records, active: v.active.remove(key) }
}

/// The record that a signing with the key of session `key` reads.
pub open spec fn sign_record(v: ServiceView, key: Seq<char>) -> Result<Seq<Seq<u8>>, ServiceError> {
    if v.records.contains_key(key) {
        Ok(v.records[key])
    } else {
        Err(ServiceError::UnknownSession)
    }
}

/// `k` is the view of some name in `names`.
pub open spec fn listed(names: Seq<String>, k: Seq<char>) -> bool {
    exists|j: int| 0 <= j < names.len() && #[trigger] names[j]@ == k
}

pub struct Service {
    kv: ShareStore,
    sessions: Vec<String>,
}

impl View for Service {
    type V = ServiceView;

    closed spec fn view(&self) -> ServiceView {
        ServiceView {
            records: self.kv@,
            active: Set::new(|k: Seq<char>| listed(self.sessions@, k)),
        }
    }
}

impl Service {
    pub closed spec fn wf(&self) -> bool {
        self.kv.wf()
    }

    /// A service with no records and no session in progress.
    pub fn new() -> (r: Self)
        ensures
            r.wf(),
            r@.records == Map::<Seq<char>, Seq<Seq<u8>>>::empty(),
            r@.active == Set::<Seq<char>>::empty(),
    {
        let r = Service { kv: ShareStore::new(), sessions: Vec::new() };
        proof {
            assert(r@.active =~= Set::<Seq<char>>::empty());
        }
        r
    }

    fn is_active(&self, key: &String) -> (r: bool)
        ensures
            r == self@.active.contains(key@),
    {
        let mut i: usize = 0;
        while i < self.sessions.len()
            invariant
                i <= self.sessions@.len(),
                forall|j: int| 0 <= j < i ==> #[trigger] self.sessions@[j]@ != key@,
            decreases self.sessions.len() - i,
        {
            if self.sessions[i] == *key {
                assert(self.sessions@[i as int]@ == key@);
                return true;
            }
            i += 1;
        }
        false
    }

    fn deactivate(&mut self, key: &String)
        requires
            old(self).wf(),
        ensures
            final(self).wf(),
            final(self)@ == abort_keygen_step(old(self)@, key@),
    {
        let mut kept: Vec<String> = Vec::new();
        let mut i: usize = 0;
        while i < self.sessions.len()
            invariant
                i <= self.sessions@.len(),
                forall|k: Seq<char>| #[trigger] listed(kept@, k) <==> (k != key@ && listed(self.sessions@.take(i as int), k)),
            decreases self.sessions.len() - i,
        {
            let ghost before = kept@;
            let ghost prefix = self.sessions@.take(i as int);
            let ghost next = self.sessions@.take(i as int + 1);
            proof {
                assert(next =~= prefix.push(self.sessions@[i as int]));
            }
            if self.sessions[i] != *key {
                kept.push(self.sessions[i].clone());
                proof {
                    assert forall|k: Seq<char>| #[trigger] listed(kept@, k) <==> (k != key@ && listed(next, k)) by {
                        assert(listed(before, k) <==> (k != key@ && listed(prefix, k)));
                        if listed(kept@, k) {
                            let j = choose|j: int| 0 <= j < kept@.len() && #[trigger] kept@[j]@ == k;
                            if j < before.len() {
                                assert(before[j]@ == k);
                                assert(listed(before, k));
                                let m = choose|m: int| 0 <= m < prefix.len() && #[trigger] prefix[m]@ == k;
                                assert(next[m]@ == k);
                            } else {
                                assert(next[i as int]@ == k);
                            }
                        }
                        if k != key@ && listed(next, k) {
                            let j = choose|j: int| 0 <= j < next.len() && #[trigger] next[j]@ == k;
                            if j < i {
                                assert(prefix[j]@ == k);
                                assert(listed(prefix, k));
                                let m = choose|m: int| 0 <= m < before.len() && #[trigger] before[m]@ == k;
                                assert(kept@[m]@ == k);
                            } else {
                                assert(kept@[kept@.len() - 1]@ == k);
                            }
                        }
                    }
                }
            } else {
                proof {
                    assert forall|k: Seq<char>| #[trigger] listed(kept@, k) <==> (k != key@ && listed(next, k)) by {
                        assert(listed(before, k) <==> (k != key@ && listed(prefix, k)));
                        if listed(kept@, k) {
                            let m = choose|m: int| 0 <= m < prefix.len() && #[trigger] prefix[m]@ == k;
                            assert(next[m]@ == k);
                        }
                        if k != key@ && listed(next, k) {
                            let j = choose|j: int| 0 <= j < next.len() && #[trigger] next[j]@ == k;
                            assert(j < i);
                            assert(prefix[j]@ == k);
                        }
                    }
                }
            }
            i += 1;
        }
        proof {
            assert(self.sessions@.take(self.sessions@.len() as int) =~= self.sessions@);
        }
        self.sessions = kept;
        proof {
            assert(self@.active =~= old(self)@.active.remove(key@));
        }
    }

    /// Whether `key` is in progress or has a stored record.
    pub fn is_key_in_use(&self, key: &String) -> (r: bool)
        requires
            self.wf(),
        ensures
            r == (self@.records.contains_key(key@) || self@.active.contains(key@)),
    {
        self.kv.has_record(key) || self.is_active(key)
    }

    /// Accepts a key generation, before any of its shares runs: refused with
    /// `DuplicateSession` where the session id is in progress or has a stored record.
    pub fn start_keygen(&mut self, keygen_init: &KeygenInitSanitized) -> (r: Result<(), ServiceError>)
        requires
            old(self).wf(),
        ensures
            final(self).wf(),
            (final(self)@, r) == start_keygen_step(old(self)@, keygen_init.new_key_uid@),
    {
        let key = &keygen_init.new_key_uid;
        if self.kv.has_record(key) || self.is_active(key) {
            return Err(ServiceError::DuplicateSession);
        }
        self.sessions.push(key.clone());
        proof {
            assert(self.sessions@[self.sessions@.len() - 1]@ == key@);
            assert forall|k: Seq<char>| #[trigger] self@.active.contains(k) == old(self)@.active.insert(key@).contains(k) by {
                if listed(old(self).sessions@, k) {
                    let j = choose|j: int| 0 <= j < old(self).sessions@.len() && #[trigger] old(self).sessions@[j]@ == k;
                    assert(self.sessions@[j]@ == k);
                }
                if listed(self.sessions@, k) && k != key@ {
                    let j = choose|j: int| 0 <= j < self.sessions@.len() && #[trigger] self.sessions@[j]@ == k;
                    assert(old(self).sessions@[j]@ == k);
                }
                if k == key@ {
                    assert(listed(self.sessions@, k));
                }
            }
            assert(self@.active =~= old(self)@.active.insert(key@));
        }
        Ok(())
    }

    /// Ends a key generation in progress by storing its share record; only a
    /// stored record lets the session report success.
    pub fn finish_keygen(&mut self, key_uid: &String, record: Vec<Vec<u8>>) -> (r: Result<(), ServiceError>)
        requires
            old(self).wf(),
        ensures
            final(self).wf(),
            (final(self)@, r) == finish_keygen_step(old(self)@, key_uid@, shares_view(record@)),
    {
        if !self.is_active(key_uid) {
            return Err(ServiceError::UnknownSession);
        }
        if self.kv.has_record(key_uid) {
            return Err(ServiceError::DuplicateSession);
        }
        let ghost rv = shares_view(record@);
        let _ = self.kv.put(key_uid.clone(), record);
        self.deactivate(key_uid);
        proof {
            assert(self@ == finish_keygen_step(old(self)@, key_uid@, rv).0);
        }
        Ok(())
    }

    /// Ends a key generation in progress without storing anything.
    pub fn abort_keygen(&mut self, key_uid: &String)
        requires
            old(self).wf(),
        ensures
            final(self).wf(),
            final(self)@ == abort_keygen_step(old(self)@, key_uid@),
    {
        self.deactivate(key_uid);
    }

    /// The share record that a signing with the key of session `key_uid` needs;
    /// `UnknownSession` where none is stored.
    pub fn start_sign(&self, key_uid: &String) -> (r: Result<Vec<Vec<u8>>, ServiceError>)
        requires
            self.wf(),
        ensures
            match r {
                Ok(v) => sign_record(self@, key_uid@) == Ok::<Seq<Seq<u8>>, ServiceError>(
                    shares_view(v@),
                ),
                Err(e) => sign_record(self@, key_uid@) == Err::<Seq<Seq<u8>>, ServiceError>(e),
            },
    {
        match self.kv.get(key_uid) {
            Ok(v) => Ok(v),
            Err(_) => Err(ServiceError::UnknownSession),
        }
    }

    /// The share records that a signing with the key of session `key_uid`
    /// needs, where its local party runs `local_share_count` shares: refused
    /// where no record is stored, or where it holds another number of shares.
    pub fn start_sign_shares(&self, key_uid: &String, local_share_count: usize) -> (r: Result<
        Vec<Vec<u8>>,
        ServiceError,
    >)
        requires
            self.wf(),
        ensures
            match r {
                Ok(v) => sign_records(self@, key_uid@, local_share_count as int) == Ok::<
                    Seq<Seq<u8>>,
                    ServiceError,
                >(shares_view(v@)),
                Err(e) => sign_records(self@, key_uid@, local_share_count as int) == Err::<
                    Seq<Seq<u8>>,
                    ServiceError,
                >(e),
            },
    {
        match self.start_sign(key_uid) {
            Err(e) => Err(e),
            Ok(v) => {
                if v.len() == local_share_count {
                    Ok(v)
                } else {
                    Err(ServiceError::ShareCountMismatch)
                }
            },
        }
    }
}

/// The record to store for a key generation whose local shares ended with
/// `secrets`: one entry per share, `Some` with its secret material where it
/// finished and waits to be stored. A record is given only where there are
/// shares and every one of them finished; otherwise nothing is stored.
pub fn persistable_record(secrets: &Vec<Option<Vec<u8>>>) -> (r: Option<Vec<Vec<u8>>>)
    ensures
        match r {
            Some(rec) => {
                &&& secrets@.len() > 0
                &&& forall|i: int| 0 <= i < secrets@.len() ==> #[trigger] secrets@[i] is Some
                &&& rec@.len() == secrets@.len()
                &&& forall|i: int| 0 <= i < rec@.len() ==> (#[trigger] rec@[i])@ == secrets@[i]->Some_0@
            },
            None => secrets@.len() == 0 || exists|i: int| 0 <= i < secrets@.len() && #[trigger] secrets@[i] is None,
        },
{
    if secrets.len() == 0 {
        return None;
    }
    let mut rec: Vec<Vec<u8>> = Vec::new();
    let mut i: usize = 0;
    while i < secrets.len()
        invariant
            i <= secrets@.len(),
            rec@.len() == i,
            forall|j: int| 0 <= j < i ==> #[trigger] secrets@[j] is Some,
            forall|j: int| 0 <= j < i ==> (#[trigger] rec@[j])@ == secrets@[j]->Some_0@,
        decreases secrets.len() - i,
    {
        match &secrets[i] {
            None => {
                return None;
            },
            Some(v) => {
                rec.push(v.clone());
            },
        }
        i += 1;
    }
    Some(rec)
}

/// The records that a signing whose local party runs `local_share_count`
/// shares reads from the key of session `key`: one per share.
pub open spec fn sign_records(v: ServiceView, key: Seq<char>, local_share_count: int) -> Result<
    Seq<Seq<u8>>,
    ServiceError,
> {
    match sign_record(v, key) {
        Err(e) => Err(e),
        Ok(rec) => if rec.len() == local_share_count {
            Ok(rec)
        } else {
            Err(ServiceError::ShareCountMismatch)
        },
    }
}

/// A session id is accepted for key generation at most once: once accepted, a
/// second start is refused with `DuplicateSession` and changes nothing, both
/// while the first runs and after it stored its record, which stays as stored.
pub proof fn lemma_keygen_accepted_once(v0: ServiceView, key: Seq<char>, record: Seq<Seq<u8>>)
    ensures
        ({
            let (v1, r1) = start_keygen_step(v0, key);
            r1 is Ok ==> {
                &&& start_keygen_step(v1, key) == (v1, Err::<(), ServiceError>(ServiceError::DuplicateSession))
                &&& ({
                    let (v2, r2) = finish_keygen_step(v1, key, record);
                    &&& r2 is Ok
                    &&& start_keygen_step(v2, key) == (v2, Err::<(), ServiceError>(ServiceError::DuplicateSession))
                    &&& v2.records[key] == record
                })
            }
        }),
{
}

/// The record that a finished key generation stored is the one that a later
/// signing with its session id reads, whatever other sessions do in between
/// to other ids.
pub proof fn lemma_record_read_back(v0: ServiceView, key: Seq<char>, record: Seq<Seq<u8>>, other: Seq<char>, other_record: Seq<Seq<u8>>)
    requires
        other != key,
    ensures
        ({
            let (v1, r1) = start_keygen_step(v0, key);
            let (v2, r2) = finish_keygen_step(v1, key, record);
            let (v3, r3) = start_keygen_step(v2, other);
            let (v4, r4) = finish_keygen_step(v3, other, other_record);
            r1 is Ok ==> {
                &&& r2 is Ok
                &&& sign_record(v2, key) == Ok::<Seq<Seq<u8>>, ServiceError>(record)
                &&& sign_record(v4, key) == Ok::<Seq<Seq<u8>>, ServiceError>(record)
            }
        }),
{
    let (v1, r1) = start_keygen_step(v0, key);
    let (v2, r2) = finish_keygen_step(v1, key, record);
    let (v3, r3) = start_keygen_step(v2, other);
    let (v4, r4) = finish_keygen_step(v3, other, other_record);
    if r1 is Ok && r4 is Ok {
        assert(v4.records[key] == v2.records[key]);
    }
}

} // verus!
