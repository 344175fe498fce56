//! Merging the outcomes of a session's local shares into one session outcome.
use vstd::prelude::*;

use crate::context::{
    KeygenInitSanitized, lemma_owner_unique, lemma_share_offset_full,
    lemma_share_offset_monotone, lemma_share_offset_step, owns_share, share_offset, sum_counts,
};
use crate::driver::Abort;

verus! {

/// How the execution of one local share ended.
pub enum ShareOutcome {
    /// The engine's result: a public key or a signature.
    Completed(Vec<u8>),
    /// The engine's fault report: global indices of the accused shares.
    Faulted(Vec<usize>),
    Aborted(Abort),
}

/// The verdict of a session.
pub enum SessionOutcome {
    /// The result that every local share produced.
    Success(Vec<u8>),
    /// Positions in the roster of the parties that own an accused share, in increasing order.
    Culprits(Vec<usize>),
    /// No fault was reported, and some share was aborted.
    Aborted,
}

/// The result of a key generation, tagged with its scheme.
pub enum KeygenOutput {
    Gg20(SessionOutcome),
    Multisig(SessionOutcome),
}

#[derive(Clone, Copy, Debug, PartialEq, Eq, Structural)]
pub enum ReconcileError {
    /// There was no share outcome to merge.
    NoShares,
    /// A fault report accuses a share index that the session does not have.
    UnknownShare,
    /// Two local shares completed with different results.
    ProtocolInconsistency,
}

/// All shares accused by the fault reports among `os`, report by report.
pub open spec fn accused_shares(os: Seq<ShareOutcome>) -> Seq<usize>
    decreases os.len(),
{
    if os.len() == 0 {
        Seq::empty()
    } else {
        accused_shares(os.drop_last()) + match os.last() {
            ShareOutcome::Faulted(v) => v@,
            _ => Seq::empty(),
        }
    }
}

pub open spec fn any_faulted(os: Seq<ShareOutcome>) -> bool {
    exists|i: int| 0 <= i < os.len() && #[trigger] os[i] is Faulted
}

pub open spec fn any_aborted(os: Seq<ShareOutcome>) -> bool {
    exists|i: int| 0 <= i < os.len() && #[trigger] os[i] is Aborted
}

pub open spec fn artifact(o: ShareOutcome) -> Seq<u8> {
    match o {
        ShareOutcome::Completed(v) => v@,
        _ => Seq::empty(),
    }
}

/// Every share completed with the same result as the first.
pub open spec fn all_agree(os: Seq<ShareOutcome>) -> bool {
    forall|i: int| 0 <= i < os.len() ==> artifact(#[trigger] os[i]) == artifact(os[0])
}

/// The party at position `p` owns one of the shares in `accused`.
pub open spec fn is_culprit(counts: Seq<usize>, accused: Seq<usize>, p: int) -> bool {
    exists|j: int| 0 <= j < accused.len() && owns_share(counts, p, #[trigger] accused[j] as int)
}

/// `c` lists, in increasing order, the parties that own a share in `accused`.
pub open spec fn lists_culprits(counts: Seq<usize>, accused: Seq<usize>, c: Seq<usize>) -> bool {
    &&& forall|p: int| 0 <= p < counts.len() ==> (c.contains(p as usize) <==> is_culprit(counts, accused, p))
    &&& forall|i: int| 0 <= i < c.len() ==> #[trigger] c[i] < counts.len()
    &&& forall|i: int, j: int| 0 <= i < j < c.len() ==> c[i] < c[j]
}

/// The session outcome that the share outcomes `os` give.
pub open spec fn reconciled(
    counts: Seq<usize>,
    os: Seq<ShareOutcome>,
    r: Result<SessionOutcome, ReconcileError>,
) -> bool {
    if os.len() == 0 {
        r == Err::<SessionOutcome, ReconcileError>(ReconcileError::NoShares)
    } else if any_faulted(os) {
        if exists|j: int|
            0 <= j < accused_shares(os).len() && #[trigger] accused_shares(os)[j] >= sum_counts(
                counts,
            ) {
            r == Err::<SessionOutcome, ReconcileError>(ReconcileError::UnknownShare)
        } else {
            match r {
                Ok(SessionOutcome::Culprits(c)) => lists_culprits(counts, accused_shares(os), c@),
                _ => false,
            }
        }
    } else if any_aborted(os) {
        r matches Ok(SessionOutcome::Aborted)
    } else if all_agree(os) {
        match r {
            Ok(SessionOutcome::Success(v)) => v@ == artifact(os[0]),
            _ => false,
        }
    } else {
        r == Err::<SessionOutcome, ReconcileError>(ReconcileError::ProtocolInconsistency)
    }
}

/// The position of the party that owns the global share index `share`, or `None`
/// where the session has no such share.
pub fn owner_of_share(params: &KeygenInitSanitized, share: usize) -> (r: Option<usize>)
    requires
        params.wf(),
    ensures
        match r {
            Some(p) => owns_share(params.party_share_counts@, p as int, share as int),
            None => share >= params.spec_total_shares(),
        },
{
    let counts = &params.party_share_counts;
    let mut offset: usize = 0;
    let mut p: usize = 0;
    proof {
        lemma_share_offset_full(counts@);
    }
    while p < counts.len()
        invariant
            params.wf(),
            counts == &params.party_share_counts,
            p <= counts.len(),
            offset == share_offset(counts@, p as int),
            share >= offset,
            share_offset(counts@, counts@.len() as int) <= usize::MAX,
        decreases counts.len() - p,
    {
        proof {
            lemma_share_offset_step(counts@, p as int);
            lemma_share_offset_monotone(counts@, p as int + 1, counts@.len() as int);
        }
        let next = offset + counts[p];
        if share < next {
            return Some(p);
        }
        offset = next;
        p += 1;
    }
    None
}

fn bytes_equal(a: &Vec<u8>, b: &Vec<u8>) -> (r: bool)
    ensures
        r == (a@ == b@),
{
    if a.len() != b.len() {
        return false;
    }
    let mut i: usize = 0;
    while i < a.len()
        invariant
            a@.len() == b@.len(),
            i <= a@.len(),
            forall|k: int| 0 <= k < i ==> a@[k] == b@[k],
        decreases a.len() - i,
    {
        if a[i] != b[i] {
            return false;
        }
        i += 1;
    }
    assert(a@ =~= b@);
    true
}

/// All shares accused by the fault reports among `outcomes`.
pub fn collect_accused(outcomes: &Vec<ShareOutcome>) -> (r: Vec<usize>)
    ensures
        r@ == accused_shares(outcomes@),
{
    let mut acc: Vec<usize> = Vec::new();
    let mut i: usize = 0;
    while i < outcomes.len()
        invariant
            i <= outcomes.len(),
            acc@ == accused_shares(outcomes@.take(i as int)),
        decreases outcomes.len() - i,
    {
        proof {
            assert(outcomes@.take(i as int + 1).drop_last() =~= outcomes@.take(i as int));
        }
        match &outcomes[i] {
            ShareOutcome::Faulted(v) => {
                let mut c = v.clone();
                acc.append(&mut c);
            },
            _ => {},
        }
        proof {
            assert(acc@ =~= accused_shares(outcomes@.take(i as int + 1)));
        }
        i += 1;
    }
    proof {
        assert(outcomes@.take(outcomes@.len() as int) =~= outcomes@);
    }
    acc
}

/// The parties that own a share in `accused`, in increasing order; `None` where
/// some accused index is no share of the session.
pub fn culprit_parties(params: &KeygenInitSanitized, accused: &Vec<usize>) -> (r: Option<Vec<usize>>)
    requires
        params.wf(),
    ensures
        match r {
            None => exists|j: int|
                0 <= j < accused@.len() && #[trigger] accused@[j] >= params.spec_total_shares(),
            Some(c) => {
                &&& forall|j: int|
                    0 <= j < accused@.len() ==> #[trigger] accused@[j] < params.spec_total_shares()
                &&& lists_culprits(params.party_share_counts@, accused@, c@)
            },
        },
{
    let ghost counts = params.party_share_counts@;
    let n = params.party_uids.len();
    let mut flags: Vec<bool> = vec![false; n];
    let mut j: usize = 0;
    while j < accused.len()
        invariant
            params.wf(),
            counts == params.party_share_counts@,
            n == counts.len(),
            flags@.len() == n,
            j <= accused@.len(),
            forall|k: int| 0 <= k < j ==> #[trigger] accused@[k] < sum_counts(counts),
            forall|p: int|
                0 <= p < n ==> (#[trigger] flags@[p] <==> exists|k: int|
                    0 <= k < j && owns_share(counts, p, #[trigger] accused@[k] as int)),
        decreases accused.len() - j,
    {
        match owner_of_share(params, accused[j]) {
            None => {
                return None;
            },
            Some(p) => {
                flags.set(p, true);
                proof {
                    lemma_share_offset_monotone(counts, p as int + 1, counts.len() as int);
                    lemma_share_offset_full(counts);
                    assert forall|q: int| 0 <= q < n implies (#[trigger] flags@[q] <==> exists|k: int|
                        0 <= k < j + 1 && owns_share(counts, q, #[trigger] accused@[k] as int)) by {
                        if flags@[q] && q != p {
                            let k = choose|k: int| 0 <= k < j && owns_share(counts, q, #[trigger] accused@[k] as int);
                            assert(0 <= k < j + 1 && owns_share(counts, q, accused@[k] as int));
                        }
                        if q == p {
                            assert(owns_share(counts, q, accused@[j as int] as int));
                        }
                        if exists|k: int| 0 <= k < j + 1 && owns_share(counts, q, #[trigger] accused@[k] as int) {
                            let k = choose|k: int| 0 <= k < j + 1 && owns_share(counts, q, #[trigger] accused@[k] as int);
                            if k == j {
                                lemma_owner_unique(counts, p as int, q, accused@[k] as int);
                            }
                        }
                    }
                }
            },
        }
        j += 1;
    }
    let mut c: Vec<usize> = Vec::new();
    let mut p: usize = 0;
    while p < n
        invariant
            n == counts.len(),
            flags@.len() == n,
            p <= n,
            forall|q: int|
                0 <= q < n ==> (#[trigger] flags@[q] <==> is_culprit(counts, accused@, q)),
            forall|q: int| 0 <= q < n ==> (c@.contains(q as usize) <==> (q < p && flags@[q])),
            forall|i: int| 0 <= i < c@.len() ==> #[trigger] c@[i] < p,
            forall|i: int, k: int| 0 <= i < k < c@.len() ==> c@[i] < c@[k],
        decreases n - p,
    {
        if flags[p] {
            let ghost before = c@;
            c.push(p);
            proof {
                assert forall|q: int| 0 <= q < n implies (c@.contains(q as usize) <==> (q < p + 1 && flags@[q])) by {
                    if c@.contains(q as usize) {
                        let i = choose|i: int| 0 <= i < c@.len() && c@[i] == q as usize;
                        if i < before.len() {
                            assert(before[i] == q as usize);
                            assert(before.contains(q as usize));
                        }
                    }
                    if q < p && flags@[q] {
                        let i = choose|i: int| 0 <= i < before.len() && before[i] == q as usize;
                        assert(c@[i] == q as usize);
                    }
                    if q == p {
                        assert(c@[c@.len() - 1] == q as usize);
                    }
                }
            }
        }
        p += 1;
    }
    proof {
        assert forall|q: int| 0 <= q < counts.len() implies (c@.contains(q as usize) <==> is_culprit(counts, accused@, q)) by {
            assert(flags@[q] <==> is_culprit(counts, accused@, q));
        }
    }
    Some(c)
}

/// Merges the outcomes of a session's local shares, as `reconciled` states: a
/// fault report outweighs everything else and names each accused party once;
/// otherwise an aborted share makes the session aborted; otherwise all shares
/// must agree on their result.
pub fn reconcile(params: &KeygenInitSanitized, outcomes: &Vec<ShareOutcome>) -> (r: Result<
    SessionOutcome,
    ReconcileError,
>)
    requires
        params.wf(),
    ensures
        reconciled(params.party_share_counts@, outcomes@, r),
{
    if outcomes.len() == 0 {
        return Err(ReconcileError::NoShares);
    }
    let mut faulted = false;
    let mut aborted = false;
    let mut agree = true;
    let empty: Vec<u8> = Vec::new();
    let first: &Vec<u8> = match &outcomes[0] {
        ShareOutcome::Completed(v) => v,
        _ => &empty,
    };
    let mut i: usize = 0;
    while i < outcomes.len()
        invariant
            outcomes@.len() > 0,
            i <= outcomes.len(),
            first@ == artifact(outcomes@[0]),
            faulted == exists|k: int| 0 <= k < i && #[trigger] outcomes@[k] is Faulted,
            aborted == exists|k: int| 0 <= k < i && #[trigger] outcomes@[k] is Aborted,
            agree == forall|k: int| 0 <= k < i ==> artifact(#[trigger] outcomes@[k]) == artifact(outcomes@[0]),
        decreases outcomes.len() - i,
    {
        match &outcomes[i] {
            ShareOutcome::Completed(v) => {
                if !bytes_equal(v, first) {
                    agree = false;
                }
            },
            ShareOutcome::Faulted(_) => {
                faulted = true;
                if first.len() != 0 {
                    agree = false;
                }
            },
            ShareOutcome::Aborted(_) => {
                aborted = true;
                if first.len() != 0 {
                    agree = false;
                }
            },
        }
        proof {
            if !(outcomes@[i as int] is Completed) && first@.len() == 0 {
                assert(artifact(outcomes@[i as int]) =~= first@);
            }
        }
        i += 1;
    }
    if faulted {
        let accused = collect_accused(outcomes);
        match culprit_parties(params, &accused) {
            None => Err(ReconcileError::UnknownShare),
            Some(c) => Ok(SessionOutcome::Culprits(c)),
        }
    } else if aborted {
        Ok(SessionOutcome::Aborted)
    } else if agree {
        Ok(SessionOutcome::Success(first.clone()))
    } else {
        Err(ReconcileError::ProtocolInconsistency)
    }
}

/// The identities of the parties at the positions `culprits`, in the same order.
pub fn culprit_uids(params: &KeygenInitSanitized, culprits: &Vec<usize>) -> (r: Vec<String>)
    requires
        params.wf(),
        forall|i: int| 0 <= i < culprits@.len() ==> #[trigger] culprits@[i] < params.party_uids@.len(),
    ensures
        r@.len() == culprits@.len(),
        forall|i: int|
            0 <= i < r@.len() ==> (#[trigger] r@[i])@ == params.party_uids@[culprits@[i] as int]@,
{
    let mut r: Vec<String> = Vec::new();
    let mut i: usize = 0;
    while i < culprits.len()
        invariant
            i <= culprits@.len(),
            r@.len() == i,
            forall|j: int| 0 <= j < culprits@.len() ==> #[trigger] culprits@[j] < params.party_uids@.len(),
            forall|j: int|
                0 <= j < i ==> (#[trigger] r@[j])@ == params.party_uids@[culprits@[j] as int]@,
        decreases culprits.len() - i,
    {
        r.push(params.party_uids[culprits[i]].clone());
        i += 1;
    }
    r
}

/// However many of its shares are accused, a culprit party stands exactly once
/// in a list that `lists_culprits` describes.
pub proof fn lemma_culprit_listed_once(counts: Seq<usize>, accused: Seq<usize>, c: Seq<usize>, p: usize)
    requires
        lists_culprits(counts, accused, c),
        p < counts.len(),
        is_culprit(counts, accused, p as int),
    ensures
        exists|i: int| 0 <= i < c.len() && c[i] == p,
        forall|i: int, j: int| 0 <= i < c.len() && 0 <= j < c.len() && c[i] == p && c[j] == p ==> i == j,
{
    assert(c.contains(p));
    assert forall|i: int, j: int| 0 <= i < c.len() && 0 <= j < c.len() && c[i] == p && c[j] == p implies i == j by {
        if i < j {
            assert(c[i] < c[j]);
        } else if j < i {
            assert(c[j] < c[i]);
        }
    }
}

} // verus!
