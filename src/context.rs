//! Session parameters and the per-share context derived from them.
use std::sync::Arc;
use vstd::prelude::*;
use vstd::string::StringExecFns;

use crate::service::{finish_keygen_step, start_keygen_step, Service, ServiceError, ServiceView};
use crate::text::{debug_names, debug_names_of, decimal, name_views, push_decimal};

verus! {

/// Sum of the share counts in `s`.
pub open spec fn sum_counts(s: Seq<usize>) -> int
    decreases s.len(),
{
    if s.len() == 0 {
        0
    } else {
        sum_counts(s.drop_last()) + s.last()
    }
}

/// Global index of the first share owned by the party at position `i`.
pub open spec fn share_offset(s: Seq<usize>, i: int) -> int {
    sum_counts(s.take(i))
}

/// The party at position `p` owns the global share index `share`.
pub open spec fn owns_share(s: Seq<usize>, p: int, share: int) -> bool {
    0 <= p < s.len() && share_offset(s, p) <= share < share_offset(s, p + 1)
}

pub proof fn lemma_share_offset_step(s: Seq<usize>, i: int)
    requires
        0 <= i < s.len(),
    ensures
        share_offset(s, i + 1) == share_offset(s, i) + s[i],
{
    assert(s.take(i + 1).drop_last() =~= s.take(i));
}

pub proof fn lemma_share_offset_monotone(s: Seq<usize>, i: int, j: int)
    requires
        0 <= i <= j <= s.len(),
    ensures
        share_offset(s, i) <= share_offset(s, j),
    decreases j - i,
{
    if i < j {
        lemma_share_offset_monotone(s, i, j - 1);
        lemma_share_offset_step(s, j - 1);
    }
}

pub proof fn lemma_share_offset_full(s: Seq<usize>)
    ensures
        share_offset(s, s.len() as int) == sum_counts(s),
{
    assert(s.take(s.len() as int) =~= s);
}

/// A share index is owned by at most one party.
pub proof fn lemma_owner_unique(s: Seq<usize>, p: int, q: int, share: int)
    requires
        owns_share(s, p, share),
        owns_share(s, q, share),
    ensures
        p == q,
{
    if p < q {
        lemma_share_offset_monotone(s, p + 1, q);
    } else if q < p {
        lemma_share_offset_monotone(s, q + 1, p);
    }
}

/// Why session parameters are refused.
#[derive(Clone, Copy, Debug, PartialEq, Eq, Structural)]
pub enum InitError {
    /// The lists are not aligned, identities repeat, or the threshold is out of range.
    InvalidParameters,
    /// The local position names no participant of the roster.
    UnknownParticipant,
}

/// No identity occurs twice in `u`.
pub open spec fn distinct_uids(u: Seq<String>) -> bool {
    forall|i: int, j: int|
        0 <= i < u.len() && 0 <= j < u.len() && i != j ==> #[trigger] u[i]@ != #[trigger] u[j]@
}

/// The error that session parameters are refused with, if any; the checks run in this order.
pub open spec fn init_check(
    uids: Seq<String>,
    counts: Seq<usize>,
    my_index: int,
    threshold: int,
) -> Option<InitError> {
    if uids.len() != counts.len() {
        Some(InitError::InvalidParameters)
    } else if my_index >= uids.len() {
        Some(InitError::UnknownParticipant)
    } else if !distinct_uids(uids) {
        Some(InitError::InvalidParameters)
    } else if sum_counts(counts) > usize::MAX || threshold >= sum_counts(counts) {
        Some(InitError::InvalidParameters)
    } else {
        None
    }
}

/// Sum of `counts`, or `None` where it does not fit in `usize`.
pub fn total_share_count(counts: &Vec<usize>) -> (r: Option<usize>)
    ensures
        match r {
            Some(t) => t == sum_counts(counts@),
            None => sum_counts(counts@) > usize::MAX,
        },
{
    let mut total: usize = 0;
    let mut i: usize = 0;
    while i < counts.len()
        invariant
            i <= counts.len(),
            total == share_offset(counts@, i as int),
        decreases counts.len() - i,
    {
        proof {
            lemma_share_offset_step(counts@, i as int);
        }
        match total.checked_add(counts[i]) {
            Some(t) => {
                total = t;
            },
            None => {
                proof {
                    lemma_share_offset_monotone(counts@, i as int + 1, counts@.len() as int);
                    lemma_share_offset_full(counts@);
                }
                return None;
            },
        }
        i += 1;
    }
    proof {
        lemma_share_offset_full(counts@);
    }
    Some(total)
}

/// Whether no identity occurs twice in `uids`.
pub fn uids_are_distinct(uids: &Vec<String>) -> (r: bool)
    ensures
        r == distinct_uids(uids@),
{
    let n = uids.len();
    let mut i: usize = 0;
    while i < n
        invariant
            n == uids@.len(),
            i <= n,
            forall|a: int, b: int|
                0 <= a < i && 0 <= b < n && a != b ==> #[trigger] uids@[a]@ != #[trigger] uids@[b]@,
        decreases n - i,
    {
        let mut j: usize = 0;
        while j < n
            invariant
                n == uids@.len(),
                i < n,
                j <= n,
                forall|a: int, b: int|
                    0 <= a < i && 0 <= b < n && a != b ==> #[trigger] uids@[a]@ != #[trigger] uids@[b]@,
                forall|b: int| 0 <= b < j && b != i ==> uids@[i as int]@ != #[trigger] uids@[b]@,
            decreases n - j,
        {
            if j != i && uids[i] == uids[j] {
                return false;
            }
            j += 1;
        }
        i += 1;
    }
    true
}

/// Applies the checks of `init_check`, in its order.
pub fn check_params(
    party_uids: &Vec<String>,
    party_share_counts: &Vec<usize>,
    my_index: usize,
    threshold: usize,
) -> (r: Result<(), InitError>)
    ensures
        match r {
            Ok(()) => init_check(party_uids@, party_share_counts@, my_index as int, threshold as int) is None,
            Err(e) => init_check(party_uids@, party_share_counts@, my_index as int, threshold as int)
                == Some(e),
        },
{
    if party_uids.len() != party_share_counts.len() {
        return Err(InitError::InvalidParameters);
    }
    if my_index >= party_uids.len() {
        return Err(InitError::UnknownParticipant);
    }
    if !uids_are_distinct(party_uids) {
        return Err(InitError::InvalidParameters);
    }
    match total_share_count(party_share_counts) {
        None => Err(InitError::InvalidParameters),
        Some(total) => {
            if threshold >= total {
                Err(InitError::InvalidParameters)
            } else {
                Ok(())
            }
        },
    }
}

/// Arguments of a key generation, checked and in the form the protocol needs.
pub struct KeygenInitSanitized {
    /// The session's id.
    pub new_key_uid: String,
    /// The identities of all parties, aligned with `party_share_counts`.
    pub party_uids: Vec<String>,
    /// The number of shares of each party, aligned with `party_uids`.
    pub party_share_counts: Vec<usize>,
    /// The local party's position in `party_uids`.
    pub my_index: usize,
    /// The protocol's threshold.
    pub threshold: usize,
}

/// `a` and `b` hold the same parameters.
pub open spec fn same_params(a: KeygenInitSanitized, b: KeygenInitSanitized) -> bool {
    &&& a.new_key_uid@ == b.new_key_uid@
    &&& a.party_uids@ == b.party_uids@
    &&& a.party_share_counts@ == b.party_share_counts@
    &&& a.my_index == b.my_index
    &&& a.threshold == b.threshold
}

impl KeygenInitSanitized {
    pub open spec fn wf(&self) -> bool {
        init_check(
            self.party_uids@,
            self.party_share_counts@,
            self.my_index as int,
            self.threshold as int,
        ) is None
    }

    pub open spec fn spec_total_shares(&self) -> int {
        sum_counts(self.party_share_counts@)
    }

    pub open spec fn spec_my_shares_count(&self) -> usize {
        self.party_share_counts@[self.my_index as int]
    }

    pub open spec fn spec_my_share_offset(&self) -> int {
        share_offset(self.party_share_counts@, self.my_index as int)
    }

    /// Checks session parameters and holds them; refuses them with the error of `init_check`.
    pub fn new(
        new_key_uid: String,
        party_uids: Vec<String>,
        party_share_counts: Vec<usize>,
        my_index: usize,
        threshold: usize,
    ) -> (r: Result<Self, InitError>)
        ensures
            match r {
                Ok(p) => {
                    &&& init_check(
                        party_uids@,
                        party_share_counts@,
                        my_index as int,
                        threshold as int,
                    ) is None
                    &&& p.wf()
                    &&& p.new_key_uid == new_key_uid
                    &&& p.party_uids == party_uids
                    &&& p.party_share_counts == party_share_counts
                    &&& p.my_index == my_index
                    &&& p.threshold == threshold
                },
                Err(e) => init_check(
                    party_uids@,
                    party_share_counts@,
                    my_index as int,
                    threshold as int,
                ) == Some(e),
            },
    {
        match check_params(&party_uids, &party_share_counts, my_index, threshold) {
            Err(e) => Err(e),
            Ok(()) => Ok(
                KeygenInitSanitized {
                    new_key_uid,
                    party_uids,
                    party_share_counts,
                    my_index,
                    threshold,
                },
            ),
        }
    }

    /// Whether these parameters hold up; refuses them with the error of `init_check`.
    pub fn validate(&self) -> (r: Result<(), InitError>)
        ensures
            match r {
                Ok(()) => self.wf(),
                Err(e) => init_check(
                    self.party_uids@,
                    self.party_share_counts@,
                    self.my_index as int,
                    self.threshold as int,
                ) == Some(e),
            },
    {
        check_params(&self.party_uids, &self.party_share_counts, self.my_index, self.threshold)
    }

    /// The number of shares of the local party.
    pub fn my_shares_count(&self) -> (r: usize)
        requires
            self.wf(),
        ensures
            r == self.spec_my_shares_count(),
    {
        self.party_share_counts[self.my_index]
    }

    /// The number of shares of all parties together.
    pub fn total_shares(&self) -> (r: usize)
        requires
            self.wf(),
        ensures
            r == self.spec_total_shares(),
    {
        match total_share_count(&self.party_share_counts) {
            Some(t) => t,
            None => 0,
        }
    }

    /// The global index of the local party's first share.
    pub fn my_share_offset(&self) -> (r: usize)
        requires
            self.wf(),
        ensures
            r == self.spec_my_share_offset(),
            r + self.spec_my_shares_count() <= self.spec_total_shares(),
    {
        let counts = &self.party_share_counts;
        let mut offset: usize = 0;
        let mut i: usize = 0;
        proof {
            lemma_share_offset_monotone(counts@, self.my_index as int, counts@.len() as int);
            lemma_share_offset_step(counts@, self.my_index as int);
            lemma_share_offset_monotone(counts@, self.my_index as int + 1, counts@.len() as int);
            lemma_share_offset_full(counts@);
        }
        while i < self.my_index
            invariant
                self.wf(),
                counts == &self.party_share_counts,
                i <= self.my_index,
                offset == share_offset(counts@, i as int),
                share_offset(counts@, self.my_index as int) <= usize::MAX,
            decreases self.my_index - i,
        {
            proof {
                lemma_share_offset_step(counts@, i as int);
                lemma_share_offset_monotone(counts@, i as int + 1, self.my_index as int);
            }
            offset = offset + counts[i];
            i += 1;
        }
        offset
    }

    /// A copy of these parameters.
    pub fn duplicate(&self) -> (r: Self)
        ensures
            same_params(r, *self),
    {
        KeygenInitSanitized {
            new_key_uid: self.new_key_uid.clone(),
            party_uids: self.party_uids.clone(),
            party_share_counts: self.party_share_counts.clone(),
            my_index: self.my_index,
            threshold: self.threshold,
        }
    }

    /// The start line, with `participants` as the text of the roster.
    pub open spec fn spec_log_line(&self, participants: Seq<char>) -> Seq<char> {
        "[uid:"@ + self.party_uids@[self.my_index as int]@ + ", shares:"@ + decimal(
            self.spec_my_shares_count() as nat,
        ) + "] starting Keygen with [key: "@ + self.new_key_uid@ + ", (t,n)=("@ + decimal(
            self.threshold as nat,
        ) + ","@ + decimal(self.spec_total_shares() as nat) + "), participants:"@ + participants
    }

    /// The line that announces the start of this key generation, with
    /// `participants` as the text of the roster.
    pub fn log_line(&self, participants: &str) -> (r: String)
        requires
            self.wf(),
        ensures
            r@ == self.spec_log_line(participants@),
    {
        let mut s = String::new();
        s.append("[uid:");
        s.append(self.party_uids[self.my_index].as_str());
        s.append(", shares:");
        push_decimal(&mut s, self.my_shares_count());
        s.append("] starting Keygen with [key: ");
        s.append(self.new_key_uid.as_str());
        s.append(", (t,n)=(");
        push_decimal(&mut s, self.threshold);
        s.append(",");
        push_decimal(&mut s, self.total_shares());
        s.append("), participants:");
        s.append(participants);
        proof {
            assert(s@ =~= self.spec_log_line(participants@));
        }
        s
    }

    /// The line that announces the start of this key generation; the roster
    /// is written as std's `Debug` writes a list of names.
    pub fn log_info(&self) -> (r: String)
        requires
            self.wf(),
        ensures
            r@ == self.spec_log_line(debug_names(name_views(self.party_uids@))),
    {
        let participants = debug_names_of(&self.party_uids);
        self.log_line(participants.as_str())
    }
}

/// What one local share carries through its execution: the session's
/// parameters, shared by all local shares, and the share's position among
/// the local party's own shares.
pub struct Context {
    pub params: Arc<KeygenInitSanitized>,
    /// The share's position among the local party's shares.
    pub tofnd_subindex: usize,
}

impl Context {
    pub open spec fn wf(&self) -> bool {
        &&& self.params.wf()
        &&& self.tofnd_subindex < self.params.spec_my_shares_count()
    }

    /// Global index of this share among the shares of all parties.
    pub open spec fn spec_share_index(&self) -> int {
        self.params.spec_my_share_offset() + self.tofnd_subindex
    }

    /// The context of the local share at `tofnd_subindex`.
    pub fn new(keygen_init: &KeygenInitSanitized, tofnd_subindex: usize) -> (r: Self)
        requires
            keygen_init.wf(),
            tofnd_subindex < keygen_init.spec_my_shares_count(),
        ensures
            r.wf(),
            same_params(*r.params, *keygen_init),
            r.tofnd_subindex == tofnd_subindex,
    {
        Context { params: Arc::new(keygen_init.duplicate()), tofnd_subindex }
    }

    /// The context of another local share of the same session; the parameters are shared, not copied.
    pub fn clone_with_subindex(&self, tofnd_subindex: usize) -> (r: Self)
        requires
            self.wf(),
            tofnd_subindex < self.params.spec_my_shares_count(),
        ensures
            r.wf(),
            same_params(*r.params, *self.params),
            r.tofnd_subindex == tofnd_subindex,
    {
        Context { params: self.params.clone(), tofnd_subindex }
    }

    /// Global index of this share among the shares of all parties.
    pub fn share_index(&self) -> (r: usize)
        requires
            self.wf(),
        ensures
            r == self.spec_share_index(),
            r < self.params.spec_total_shares(),
    {
        self.params.my_share_offset() + self.tofnd_subindex
    }

    pub open spec fn spec_log_info(&self) -> Seq<char> {
        "["@ + self.params.new_key_uid@ + "] [uid:"@
            + self.params.party_uids@[self.params.my_index as int]@ + ", share:"@ + decimal(
            self.tofnd_subindex as nat + 1,
        ) + "/"@ + decimal(self.params.spec_my_shares_count() as nat) + "]"@
    }

    /// The prefix that names this share in log lines.
    pub fn log_info(&self) -> (r: String)
        requires
            self.wf(),
        ensures
            r@ == self.spec_log_info(),
    {
        let p = &*self.params;
        let mut s = String::new();
        s.append("[");
        s.append(p.new_key_uid.as_str());
        s.append("] [uid:");
        s.append(p.party_uids[p.my_index].as_str());
        s.append(", share:");
        push_decimal(&mut s, self.tofnd_subindex + 1);
        s.append("/");
        push_decimal(&mut s, p.my_shares_count());
        s.append("]");
        proof {
            assert(s@ =~= self.spec_log_info());
        }
        s
    }
}

/// The signature schemes that key generation serves.
#[derive(Clone, Copy, Debug, PartialEq, Eq, Structural)]
pub enum KeygenType {
    Gg20,
    Multisig,
}

/// Why a key generation is not started.
#[derive(Clone, Copy, Debug, PartialEq, Eq, Structural)]
pub enum KeygenError {
    InvalidParameters,
    UnknownParticipant,
    /// The session id is in progress or has a stored record.
    DuplicateSession,
}

/// The error that starting a key generation with `p` on a service in state `v`
/// gives, if any; the checks run in this order.
pub open spec fn keygen_start_error(v: ServiceView, p: KeygenInitSanitized) -> Option<KeygenError> {
    match init_check(p.party_uids@, p.party_share_counts@, p.my_index as int, p.threshold as int) {
        Some(InitError::InvalidParameters) => Some(KeygenError::InvalidParameters),
        Some(InitError::UnknownParticipant) => Some(KeygenError::UnknownParticipant),
        None => if start_keygen_step(v, p.new_key_uid@).1 is Err {
            Some(KeygenError::DuplicateSession)
        } else {
            None
        },
    }
}

/// A share's context, tagged with the scheme it runs.
pub enum KeygenContext {
    Gg20(Context),
    Multisig(Context),
}

impl KeygenContext {
    pub open spec fn spec_context(&self) -> Context {
        match self {
            KeygenContext::Gg20(c) => *c,
            KeygenContext::Multisig(c) => *c,
        }
    }

    pub open spec fn spec_keygen_type(&self) -> KeygenType {
        match self {
            KeygenContext::Gg20(_) => KeygenType::Gg20,
            KeygenContext::Multisig(_) => KeygenType::Multisig,
        }
    }

    pub open spec fn wf(&self) -> bool {
        self.spec_context().wf()
    }

    /// Starts a key generation for the scheme `keygen_type`: the parameters
    /// are checked, then the session id is reserved in `service` unless it is
    /// in use. Gives the context of the local party's first share, or `None`
    /// where the local party owns no share and nothing runs here. On any
    /// refusal `service` is left as it was.
    pub fn new_without_subindex(
        keygen_type: KeygenType,
        service: &mut Service,
        keygen_init: &KeygenInitSanitized,
    ) -> (r: Result<Option<Self>, KeygenError>)
        requires
            old(service).wf(),
        ensures
            final(service).wf(),
            match r {
                Ok(first) => {
                    &&& keygen_start_error(old(service)@, *keygen_init) is None
                    &&& keygen_init.wf()
                    &&& (final(service)@, Ok::<(), ServiceError>(())) == start_keygen_step(
                        old(service)@,
                        keygen_init.new_key_uid@,
                    )
                    &&& (first is None <==> keygen_init.spec_my_shares_count() == 0)
                    &&& match first {
                        Some(ctx) => {
                            &&& ctx.wf()
                            &&& ctx.spec_keygen_type() == keygen_type
                            &&& same_params(*ctx.spec_context().params, *keygen_init)
                            &&& ctx.spec_context().tofnd_subindex == 0
                        },
                        None => true,
                    }
                },
                Err(e) => {
                    &&& keygen_start_error(old(service)@, *keygen_init) == Some(e)
                    &&& final(service)@ == old(service)@
                },
            },
    {
        match keygen_init.validate() {
            Err(InitError::InvalidParameters) => {
                return Err(KeygenError::InvalidParameters);
            },
            Err(InitError::UnknownParticipant) => {
                return Err(KeygenError::UnknownParticipant);
            },
            Ok(()) => {},
        }
        if service.is_key_in_use(&keygen_init.new_key_uid) {
            return Err(KeygenError::DuplicateSession);
        }
        let started = service.start_keygen(keygen_init);
        assert(started is Ok);
        if keygen_init.my_shares_count() == 0 {
            return Ok(None);
        }
        let ctx = Context::new(keygen_init, 0);
        match keygen_type {
            KeygenType::Gg20 => Ok(Some(KeygenContext::Gg20(ctx))),
            KeygenType::Multisig => Ok(Some(KeygenContext::Multisig(ctx))),
        }
    }

    /// The context of another local share of the same session and scheme.
    pub fn clone_with_subindex(&self, tofnd_subindex: usize) -> (r: Self)
        requires
            self.wf(),
            tofnd_subindex < self.spec_context().params.spec_my_shares_count(),
        ensures
            r.wf(),
            r.spec_keygen_type() == self.spec_keygen_type(),
            same_params(*r.spec_context().params, *self.spec_context().params),
            r.spec_context().tofnd_subindex == tofnd_subindex,
    {
        match self {
            KeygenContext::Gg20(c) => KeygenContext::Gg20(c.clone_with_subindex(tofnd_subindex)),
            KeygenContext::Multisig(c) => KeygenContext::Multisig(
                c.clone_with_subindex(tofnd_subindex),
            ),
        }
    }

    /// The prefix that names this share in log lines.
    pub fn log_info(&self) -> (r: String)
        requires
            self.wf(),
        ensures
            r@ == self.spec_context().spec_log_info(),
    {
        match self {
            KeygenContext::Gg20(c) => c.log_info(),
            KeygenContext::Multisig(c) => c.log_info(),
        }
    }
}

/// Parameters whose lists are aligned, whose local position names a party,
/// whose identities are distinct, and whose threshold is below the total share
/// count (which fits in `usize`) are accepted, and the local party then has the
/// share count listed at its position.
pub proof fn lemma_valid_params_accepted(
    uids: Seq<String>,
    counts: Seq<usize>,
    my_index: int,
    threshold: int,
)
    requires
        uids.len() == counts.len(),
        0 <= my_index < uids.len(),
        distinct_uids(uids),
        sum_counts(counts) <= usize::MAX,
        0 <= threshold < sum_counts(counts),
    ensures
        init_check(uids, counts, my_index, threshold) is None,
        forall|p: KeygenInitSanitized|
            p.party_uids@ == uids && p.party_share_counts@ == counts && p.my_index == my_index
                && p.threshold == threshold ==> #[trigger] p.wf() && p.spec_my_shares_count()
                == counts[my_index],
{
}

/// One context per share of the local party, in the order of their
/// subindices, all sharing one copy of the parameters.
pub fn local_contexts(keygen_init: &KeygenInitSanitized) -> (r: Vec<Context>)
    requires
        keygen_init.wf(),
    ensures
        r@.len() == keygen_init.spec_my_shares_count(),
        forall|i: int|
            0 <= i < r@.len() ==> (#[trigger] r@[i]).wf() && r@[i].tofnd_subindex == i
                && same_params(*r@[i].params, *keygen_init),
{
    let n = keygen_init.my_shares_count();
    let mut r: Vec<Context> = Vec::new();
    if n == 0 {
        return r;
    }
    let first = Context::new(keygen_init, 0);
    let mut i: usize = 1;
    r.push(first);
    while i < n
        invariant
            keygen_init.wf(),
            n == keygen_init.spec_my_shares_count(),
            1 <= i <= n,
            r@.len() == i,
            forall|j: int|
                0 <= j < r@.len() ==> (#[trigger] r@[j]).wf() && r@[j].tofnd_subindex == j
                    && same_params(*r@[j].params, *keygen_init),
        decreases n - i,
    {
        let c = r[0].clone_with_subindex(i);
        r.push(c);
        i += 1;
    }
    r
}

/// Starting a key generation with one set of parameters succeeds at most once
/// per session id: once it has started, a second start is refused with
/// `DuplicateSession`, both while the first runs and after it stored its
/// record, which stays as stored.
pub proof fn lemma_keygen_start_once(v0: ServiceView, p: KeygenInitSanitized, record: Seq<Seq<u8>>)
    requires
        keygen_start_error(v0, p) is None,
    ensures
        ({
            let v1 = start_keygen_step(v0, p.new_key_uid@).0;
            let v2 = finish_keygen_step(v1, p.new_key_uid@, record).0;
            &&& keygen_start_error(v1, p) == Some(KeygenError::DuplicateSession)
            &&& finish_keygen_step(v1, p.new_key_uid@, record).1 is Ok
            &&& keygen_start_error(v2, p) == Some(KeygenError::DuplicateSession)
            &&& v2.records[p.new_key_uid@] == record
        }),
{
}

} // verus!
