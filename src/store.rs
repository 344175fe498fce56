//! The store of key-share records, keyed by session id; each key is written at
//! most once. A session's record holds the secret material of each local share.
use vstd::prelude::*;

use crate::context::distinct_uids;

verus! {

#[derive(Clone, Copy, Debug, PartialEq, Eq, Structural)]
pub enum StoreError {
    AlreadyExists,
    NotFound,
}

/// A session's record: the secret material of each local share, by subindex.
pub open spec fn shares_view(v: Seq<Vec<u8>>) -> Seq<Seq<u8>> {
    v.map_values(|b: Vec<u8>| b@)
}

/// A copy of the share records `v`.
pub fn copy_shares(v: &Vec<Vec<u8>>) -> (r: Vec<Vec<u8>>)
    ensures
        shares_view(r@) == shares_view(v@),
{
    let mut r: Vec<Vec<u8>> = Vec::new();
    let mut i: usize = 0;
    while i < v.len()
        invariant
            i <= v@.len(),
            r@.len() == i,
            forall|j: int| 0 <= j < i ==> (#[trigger] r@[j])@ == v@[j]@,
        decreases v.len() - i,
    {
        r.push(v[i].clone());
        i += 1;
    }
    assert(shares_view(r@) =~= shares_view(v@));
    r
}

/// The records held under `keys` and `values`, entry by entry.
pub open spec fn entries_map(keys: Seq<String>, values: Seq<Vec<Vec<u8>>>) -> Map<Seq<char>, Seq<Seq<u8>>>
    decreases keys.len(),
{
    if keys.len() == 0 || values.len() == 0 {
        Map::empty()
    } else {
        entries_map(keys.drop_last(), values.drop_last()).insert(
            keys.last()@,
            shares_view(values.last()@),
        )
    }
}

pub proof fn lemma_entries_map(keys: Seq<String>, values: Seq<Vec<Vec<u8>>>)
    requires
        keys.len() == values.len(),
        distinct_uids(keys),
    ensures
        forall|k: Seq<char>|
            entries_map(keys, values).contains_key(k) <==> exists|i: int|
                0 <= i < keys.len() && #[trigger] keys[i]@ == k,
        forall|i: int|
            0 <= i < keys.len() ==> entries_map(keys, values)[#[trigger] keys[i]@] == shares_view(
                values[i]@,
            ),
    decreases keys.len(),
{
    if keys.len() > 0 {
        let kp = keys.drop_last();
        let vp = values.drop_last();
        assert(distinct_uids(kp)) by {
            assert forall|i: int, j: int| 0 <= i < kp.len() && 0 <= j < kp.len() && i != j implies #[trigger] kp[i]@ != #[trigger] kp[j]@ by {
                assert(keys[i]@ != keys[j]@);
            }
        }
        lemma_entries_map(kp, vp);
        let n = keys.len() - 1;
        assert forall|k: Seq<char>| entries_map(keys, values).contains_key(k) <==> exists|i: int|
            0 <= i < keys.len() && #[trigger] keys[i]@ == k by {
            if exists|i: int| 0 <= i < keys.len() && #[trigger] keys[i]@ == k {
                let i = choose|i: int| 0 <= i < keys.len() && #[trigger] keys[i]@ == k;
                if i < n {
                    assert(kp[i]@ == k);
                }
            }
            if entries_map(kp, vp).contains_key(k) {
                let i = choose|i: int| 0 <= i < kp.len() && #[trigger] kp[i]@ == k;
                assert(keys[i]@ == k);
            }
        }
        assert forall|i: int| 0 <= i < keys.len() implies entries_map(keys, values)[#[trigger] keys[i]@] == shares_view(values[i]@) by {
            if i < n {
                assert(keys[i]@ != keys[n]@);
                assert(kp[i]@ == keys[i]@);
            }
        }
    }
}

/// Key-share records by session id.
pub struct ShareStore {
    keys: Vec<String>,
    values: Vec<Vec<Vec<u8>>>,
}

impl View for ShareStore {
    type V = Map<Seq<char>, Seq<Seq<u8>>>;

    closed spec fn view(&self) -> Map<Seq<char>, Seq<Seq<u8>>> {
        entries_map(self.keys@, self.values@)
    }
}

impl ShareStore {
    pub closed spec fn wf(&self) -> bool {
        &&& self.keys@.len() == self.values@.len()
        &&& distinct_uids(self.keys@)
    }

    /// An empty store.
    pub fn new() -> (r: Self)
        ensures
            r.wf(),
            r@ == Map::<Seq<char>, Seq<Seq<u8>>>::empty(),
    {
        ShareStore { keys: Vec::new(), values: Vec::new() }
    }

    fn position(&self, key: &String) -> (r: Option<usize>)
        requires
            self.wf(),
        ensures
            match r {
                Some(i) => i < self.keys@.len() && self.keys@[i as int]@ == key@,
                None => forall|i: int| 0 <= i < self.keys@.len() ==> #[trigger] self.keys@[i]@ != key@,
            },
    {
        let mut i: usize = 0;
        while i < self.keys.len()
            invariant
                i <= self.keys@.len(),
                forall|j: int| 0 <= j < i ==> #[trigger] self.keys@[j]@ != key@,
            decreases self.keys.len() - i,
        {
            if self.keys[i] == *key {
                return Some(i);
            }
            i += 1;
        }
        None
    }

    /// Whether a record is held under `key`.
    pub fn has_record(&self, key: &String) -> (r: bool)
        requires
            self.wf(),
        ensures
            r == self@.contains_key(key@),
    {
        proof {
            lemma_entries_map(self.keys@, self.values@);
        }
        self.position(key).is_some()
    }

    /// The record held under `key`.
    pub fn get(&self, key: &String) -> (r: Result<Vec<Vec<u8>>, StoreError>)
        requires
            self.wf(),
        ensures
            match r {
                Ok(v) => self@.contains_key(key@) && shares_view(v@) == self@[key@],
                Err(e) => !self@.contains_key(key@) && e == StoreError::NotFound,
            },
    {
        proof {
            lemma_entries_map(self.keys@, self.values@);
        }
        match self.position(key) {
            Some(i) => Ok(copy_shares(&self.values[i])),
            None => Err(StoreError::NotFound),
        }
    }

    /// Stores `value` under `key` unless a record is held there already.
    pub fn put(&mut self, key: String, value: Vec<Vec<u8>>) -> (r: Result<(), StoreError>)
        requires
            old(self).wf(),
        ensures
            final(self).wf(),
            old(self)@.contains_key(key@) ==> r == Err::<(), StoreError>(StoreError::AlreadyExists)
                && final(self)@ == old(self)@,
            !old(self)@.contains_key(key@) ==> r is Ok && final(self)@ == old(self)@.insert(
                key@,
                shares_view(value@),
            ),
    {
        proof {
            lemma_entries_map(self.keys@, self.values@);
        }
        if self.position(&key).is_some() {
            return Err(StoreError::AlreadyExists);
        }
        let ghost k = key@;
        self.keys.push(key);
        self.values.push(value);
        proof {
            assert(self.keys@.drop_last() =~= old(self).keys@);
            assert(self.values@.drop_last() =~= old(self).values@);
            assert forall|i: int, j: int| 0 <= i < self.keys@.len() && 0 <= j < self.keys@.len() && i != j implies #[trigger] self.keys@[i]@ != #[trigger] self.keys@[j]@ by {
                if i < old(self).keys@.len() && j < old(self).keys@.len() {
                    assert(old(self).keys@[i]@ != old(self).keys@[j]@);
                } else if i < old(self).keys@.len() {
                    assert(old(self).keys@[i]@ != k);
                } else if j < old(self).keys@.len() {
                    assert(old(self).keys@[j]@ != k);
                }
            }
        }
        Ok(())
    }
}

} // verus!
