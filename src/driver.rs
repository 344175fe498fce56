//! The round driver of one local share, as a state machine: each event that
//! the share's execution meets (a start, an inbound message, the engine's
//! status after a round, a timeout, the stream's closure, the outcome of
//! persisting) moves it to its next phase and says what to do next.
//!
//! Messages from one sender arrive in the order sent, while messages of
//! different senders interleave freely. The driver keeps, for each sender, the
//! latest round it has heard from it: a sender whose message for a later round
//! came early has thereby sent its messages for the rounds before.
use vstd::prelude::*;

verus! {

#[derive(Clone, Copy, Debug, PartialEq, Eq, Structural)]
pub enum Phase {
    Initialized,
    RoundActive,
    /// Key generation finished; the share record is being stored.
    Persisting,
    Completed,
    Faulted,
    Aborted,
}

#[derive(Clone, Copy, Debug, PartialEq, Eq, Structural)]
pub enum DriverKind {
    Keygen,
    Sign,
}

/// What the protocol engine reports once a round's messages are consumed.
#[derive(Clone, Copy, Debug, PartialEq, Eq, Structural)]
pub enum EngineStatus {
    InProgress,
    Done,
    Faulted,
}

/// What the share's execution does next.
#[derive(Clone, Copy, Debug, PartialEq, Eq, Structural)]
pub enum Action {
    /// Ask the engine for this round's outgoing messages and send them.
    ProduceOutgoing,
    /// Hand the message to the engine.
    Consume,
    /// Take the result from the engine (and, for key generation, store it).
    ExtractResult,
    /// Take the fault report from the engine.
    ExtractFaults,
    /// The event does not apply in the current phase; nothing changed.
    Ignore,
}

#[derive(Clone, Copy, Debug, PartialEq, Eq, Structural)]
pub enum AbortCause {
    Timeout,
    StreamClosed,
    StoreFailed,
    /// The round counter cannot advance any further.
    RoundLimit,
}

/// Why and where a share's execution was aborted: the round, and the senders
/// whose message for that round had not arrived, in increasing order.
pub struct Abort {
    pub cause: AbortCause,
    pub round: usize,
    pub missing: Vec<usize>,
}

pub struct RoundDriver {
    kind: DriverKind,
    share_index: usize,
    share_count: usize,
    local_start: usize,
    local_count: usize,
    round: usize,
    heard: Vec<usize>,
    phase: Phase,
}

impl RoundDriver {
    pub closed spec fn spec_kind(&self) -> DriverKind {
        self.kind
    }

    pub closed spec fn spec_share_index(&self) -> int {
        self.share_index as int
    }

    pub closed spec fn spec_share_count(&self) -> int {
        self.share_count as int
    }

    pub closed spec fn spec_local_start(&self) -> int {
        self.local_start as int
    }

    pub closed spec fn spec_local_count(&self) -> int {
        self.local_count as int
    }

    pub closed spec fn spec_round(&self) -> int {
        self.round as int
    }

    pub closed spec fn spec_phase(&self) -> Phase {
        self.phase
    }

    /// The latest round of which a message from sender `s` has arrived; 0 for none.
    pub closed spec fn spec_heard(&self, s: int) -> int {
        self.heard@[s] as int
    }

    pub closed spec fn wf(&self) -> bool {
        &&& self.local_start <= self.share_index
        &&& self.share_index < self.local_start + self.local_count
        &&& self.local_start + self.local_count <= self.share_count
        &&& self.heard@.len() == self.share_count
    }

    /// Share `s` runs in this process, beside this one.
    pub open spec fn is_local(&self, s: int) -> bool {
        self.spec_local_start() <= s < self.spec_local_start() + self.spec_local_count()
    }

    /// The message of sender `s` for the current round has arrived.
    pub open spec fn spec_received(&self, s: int) -> bool {
        self.spec_heard(s) >= self.spec_round()
    }

    /// Share `s` is to send this share a message each round.
    pub open spec fn expected(&self, s: int) -> bool {
        0 <= s < self.spec_share_count() && s != self.spec_share_index()
    }

    pub open spec fn is_missing(&self, s: int) -> bool {
        self.expected(s) && !self.spec_received(s)
    }

    pub open spec fn round_done(&self) -> bool {
        forall|s: int| #[trigger] self.expected(s) ==> self.spec_received(s)
    }

    /// Some sender still missing in the current round is reached through the external stream.
    pub open spec fn missing_remote(&self) -> bool {
        exists|s: int| #[trigger] self.is_missing(s) && !self.is_local(s)
    }

    pub open spec fn same_identity(&self, other: &RoundDriver) -> bool {
        &&& self.spec_kind() == other.spec_kind()
        &&& self.spec_share_index() == other.spec_share_index()
        &&& self.spec_share_count() == other.spec_share_count()
        &&& self.spec_local_start() == other.spec_local_start()
        &&& self.spec_local_count() == other.spec_local_count()
    }

    pub open spec fn same_heard(&self, other: &RoundDriver) -> bool {
        forall|s: int| 0 <= s < self.spec_share_count() ==> #[trigger] self.spec_heard(s) == other.spec_heard(s)
    }

    pub open spec fn nothing_heard(&self) -> bool {
        forall|s: int| 0 <= s < self.spec_share_count() ==> #[trigger] self.spec_heard(s) == 0
    }

    /// `r` names the senders missing in `d`, in increasing order.
    pub open spec fn lists_missing(d: &RoundDriver, r: Seq<usize>) -> bool {
        &&& forall|i: int| 0 <= i < r.len() ==> d.is_missing(#[trigger] r[i] as int)
        &&& forall|s: int| #[trigger] d.is_missing(s) ==> r.contains(s as usize)
        &&& forall|i: int, j: int| 0 <= i < j < r.len() ==> r[i] < r[j]
    }

    /// `a` reports an abort for `cause` in the current round of `d`, naming the
    /// senders still missing there.
    pub open spec fn abort_of(a: Abort, cause: AbortCause, d: &RoundDriver) -> bool {
        a.cause == cause && a.round == d.spec_round() && Self::lists_missing(d, a.missing@)
    }

    pub open spec fn aborted_with(r: Option<Abort>, cause: AbortCause, d: &RoundDriver) -> bool {
        match r {
            Some(a) => Self::abort_of(a, cause, d),
            None => false,
        }
    }

    /// The driver of the share `share_index` out of `share_count`, before its
    /// first round; the shares `local_start..local_start + local_count` run in
    /// this process.
    pub fn new(
        kind: DriverKind,
        share_index: usize,
        share_count: usize,
        local_start: usize,
        local_count: usize,
    ) -> (r: Self)
        requires
            local_start <= share_index < local_start + local_count <= share_count,
        ensures
            r.wf(),
            r.spec_kind() == kind,
            r.spec_share_index() == share_index,
            r.spec_share_count() == share_count,
            r.spec_local_start() == local_start,
            r.spec_local_count() == local_count,
            r.spec_phase() == Phase::Initialized,
            r.spec_round() == 0,
            r.nothing_heard(),
    {
        let heard = vec![0usize; share_count];
        RoundDriver {
            kind,
            share_index,
            share_count,
            local_start,
            local_count,
            round: 0,
            heard,
            phase: Phase::Initialized,
        }
    }

    pub fn phase(&self) -> (r: Phase)
        ensures
            r == self.spec_phase(),
    {
        self.phase
    }

    pub fn round(&self) -> (r: usize)
        ensures
            r == self.spec_round(),
    {
        self.round
    }

    /// Starts the first round.
    pub fn start(&mut self) -> (r: Action)
        requires
            old(self).wf(),
        ensures
            final(self).wf(),
            final(self).same_identity(old(self)),
            final(self).same_heard(old(self)),
            old(self).spec_phase() == Phase::Initialized ==> {
                &&& r == Action::ProduceOutgoing
                &&& final(self).spec_phase() == Phase::RoundActive
                &&& final(self).spec_round() == 1
            },
            old(self).spec_phase() != Phase::Initialized ==> r == Action::Ignore && *final(self)
                == *old(self),
    {
        if self.phase != Phase::Initialized {
            return Action::Ignore;
        }
        self.round = 1;
        self.phase = Phase::RoundActive;
        Action::ProduceOutgoing
    }

    /// A message of round `round` from share `from` arrived. During a round,
    /// each message from another share of the session goes to the engine in
    /// the order of arrival, whatever its round, and raises the latest round
    /// heard from its sender; one of a later round counts for the rounds to come.
    pub fn on_message(&mut self, round: usize, from: usize) -> (r: Action)
        requires
            old(self).wf(),
        ensures
            final(self).wf(),
            final(self).same_identity(old(self)),
            final(self).spec_round() == old(self).spec_round(),
            final(self).spec_phase() == old(self).spec_phase(),
            old(self).spec_phase() == Phase::RoundActive && old(self).expected(from as int) ==> {
                &&& r == Action::Consume
                &&& forall|s: int|
                    0 <= s < old(self).spec_share_count() ==> #[trigger] final(self).spec_heard(s)
                        == if s == from && round > old(self).spec_heard(s) {
                        round as int
                    } else {
                        old(self).spec_heard(s)
                    }
            },
            !(old(self).spec_phase() == Phase::RoundActive && old(self).expected(from as int))
                ==> r == Action::Ignore && *final(self) == *old(self),
    {
        if self.phase != Phase::RoundActive || from >= self.share_count || from == self.share_index {
            return Action::Ignore;
        }
        if round > self.heard[from] {
            self.heard.set(from, round);
        }
        Action::Consume
    }

    /// Whether the message of every other share for the current round has arrived.
    pub fn round_complete(&self) -> (r: bool)
        requires
            self.wf(),
        ensures
            r == self.round_done(),
    {
        let mut i: usize = 0;
        while i < self.share_count
            invariant
                self.wf(),
                i <= self.share_count,
                forall|s: int| 0 <= s < i && #[trigger] self.expected(s) ==> self.spec_received(s),
            decreases self.share_count - i,
        {
            if i != self.share_index && self.heard[i] < self.round {
                assert(self.expected(i as int));
                return false;
            }
            i += 1;
        }
        true
    }

    /// The engine's status once the current round's messages are consumed. It
    /// applies only when the round is complete. A next round starts with the
    /// senders whose message for it came early counted as received.
    pub fn on_status(&mut self, status: EngineStatus) -> (r: Result<Action, Abort>)
        requires
            old(self).wf(),
        ensures
            final(self).wf(),
            final(self).same_identity(old(self)),
            final(self).same_heard(old(self)),
            old(self).spec_phase() == Phase::RoundActive && old(self).round_done() ==> match status {
                EngineStatus::InProgress => if old(self).spec_round() < usize::MAX {
                    &&& r == Ok::<Action, Abort>(Action::ProduceOutgoing)
                    &&& final(self).spec_phase() == Phase::RoundActive
                    &&& final(self).spec_round() == old(self).spec_round() + 1
                } else {
                    &&& final(self).spec_phase() == Phase::Aborted
                    &&& final(self).spec_round() == old(self).spec_round()
                    &&& match r {
                        Err(a) => Self::abort_of(a, AbortCause::RoundLimit, old(self)),
                        Ok(_) => false,
                    }
                },
                EngineStatus::Done => {
                    &&& r == Ok::<Action, Abort>(Action::ExtractResult)
                    &&& final(self).spec_round() == old(self).spec_round()
                    &&& final(self).spec_phase() == if old(self).spec_kind() == DriverKind::Keygen {
                        Phase::Persisting
                    } else {
                        Phase::Completed
                    }
                },
                EngineStatus::Faulted => {
                    &&& r == Ok::<Action, Abort>(Action::ExtractFaults)
                    &&& final(self).spec_round() == old(self).spec_round()
                    &&& final(self).spec_phase() == Phase::Faulted
                },
            },
            !(old(self).spec_phase() == Phase::RoundActive && old(self).round_done()) ==> r
                == Ok::<Action, Abort>(Action::Ignore) && *final(self) == *old(self),
    {
        if self.phase != Phase::RoundActive || !self.round_complete() {
            return Ok(Action::Ignore);
        }
        match status {
            EngineStatus::InProgress => {
                if self.round == usize::MAX {
                    return Err(self.abort(AbortCause::RoundLimit));
                }
                self.round = self.round + 1;
                Ok(Action::ProduceOutgoing)
            },
            EngineStatus::Done => {
                self.phase = match self.kind {
                    DriverKind::Keygen => Phase::Persisting,
                    DriverKind::Sign => Phase::Completed,
                };
                Ok(Action::ExtractResult)
            },
            EngineStatus::Faulted => {
                self.phase = Phase::Faulted;
                Ok(Action::ExtractFaults)
            },
        }
    }

    /// The senders whose message for the current round has not arrived, in increasing order.
    pub fn missing_senders(&self) -> (r: Vec<usize>)
        requires
            self.wf(),
        ensures
            Self::lists_missing(self, r@),
    {
        let mut r: Vec<usize> = Vec::new();
        let mut i: usize = 0;
        while i < self.share_count
            invariant
                self.wf(),
                i <= self.share_count,
                forall|k: int| 0 <= k < r@.len() ==> self.is_missing(#[trigger] r@[k] as int),
                forall|k: int| 0 <= k < r@.len() ==> #[trigger] r@[k] < i,
                forall|s: int| 0 <= s < i && #[trigger] self.is_missing(s) ==> r@.contains(s as usize),
                forall|a: int, b: int| 0 <= a < b < r@.len() ==> r@[a] < r@[b],
            decreases self.share_count - i,
        {
            if i != self.share_index && self.heard[i] < self.round {
                let ghost before = r@;
                r.push(i);
                proof {
                    assert(r@[r@.len() - 1] == i);
                    assert forall|s: int| 0 <= s < i + 1 && #[trigger] self.is_missing(s) implies r@.contains(s as usize) by {
                        if s < i {
                            let k = choose|k: int| 0 <= k < before.len() && before[k] == s as usize;
                            assert(r@[k] == s as usize);
                        } else {
                            assert(r@[r@.len() - 1] == s as usize);
                        }
                    }
                }
            } else {
                proof {
                    assert forall|s: int| 0 <= s < i + 1 && #[trigger] self.is_missing(s) implies r@.contains(s as usize) by {
                        if s == i {
                            assert(!self.is_missing(s));
                        }
                    }
                }
            }
            i += 1;
        }
        proof {
            assert forall|s: int| #[trigger] self.is_missing(s) implies r@.contains(s as usize) by {
                assert(0 <= s < self.share_count);
            }
        }
        r
    }

    /// Whether some sender still missing in the current round is a remote share.
    pub fn missing_remote_sender(&self) -> (r: bool)
        requires
            self.wf(),
        ensures
            r == self.missing_remote(),
    {
        let mut i: usize = 0;
        while i < self.share_count
            invariant
                self.wf(),
                i <= self.share_count,
                forall|s: int| 0 <= s < i ==> !(#[trigger] self.is_missing(s) && !self.is_local(s)),
            decreases self.share_count - i,
        {
            if i != self.share_index && self.heard[i] < self.round && !(self.local_start <= i && i
                - self.local_start < self.local_count) {
                assert(self.is_missing(i as int) && !self.is_local(i as int));
                return true;
            }
            i += 1;
        }
        proof {
            assert forall|s: int| #[trigger] self.is_missing(s) implies self.is_local(s) by {
                assert(0 <= s < self.share_count);
            }
        }
        false
    }

    fn abort(&mut self, cause: AbortCause) -> (r: Abort)
        requires
            old(self).wf(),
        ensures
            final(self).wf(),
            final(self).same_identity(old(self)),
            final(self).same_heard(old(self)),
            final(self).spec_round() == old(self).spec_round(),
            final(self).spec_phase() == Phase::Aborted,
            Self::abort_of(r, cause, old(self)),
    {
        let missing = self.missing_senders();
        self.phase = Phase::Aborted;
        Abort { cause, round: self.round, missing }
    }

    /// The wait for the current round's messages ran out: an active round is aborted.
    pub fn on_timeout(&mut self) -> (r: Option<Abort>)
        requires
            old(self).wf(),
        ensures
            final(self).wf(),
            final(self).same_identity(old(self)),
            final(self).same_heard(old(self)),
            final(self).spec_round() == old(self).spec_round(),
            old(self).spec_phase() == Phase::RoundActive ==> final(self).spec_phase()
                == Phase::Aborted && Self::aborted_with(r, AbortCause::Timeout, old(self)),
            old(self).spec_phase() != Phase::RoundActive ==> r is None && *final(self) == *old(self),
    {
        if self.phase != Phase::RoundActive {
            return None;
        }
        Some(self.abort(AbortCause::Timeout))
    }

    /// The external stream closed: a round that still waits for the message of
    /// a remote share is aborted. One that waits only for local shares goes on.
    pub fn on_stream_closed(&mut self) -> (r: Option<Abort>)
        requires
            old(self).wf(),
        ensures
            final(self).wf(),
            final(self).same_identity(old(self)),
            final(self).same_heard(old(self)),
            final(self).spec_round() == old(self).spec_round(),
            old(self).spec_phase() == Phase::RoundActive && old(self).missing_remote() ==> final(self).spec_phase() == Phase::Aborted && Self::aborted_with(
                r,
                AbortCause::StreamClosed,
                old(self),
            ),
            !(old(self).spec_phase() == Phase::RoundActive && old(self).missing_remote()) ==> r is None
                && *final(self) == *old(self),
    {
        if self.phase != Phase::RoundActive || !self.missing_remote_sender() {
            return None;
        }
        Some(self.abort(AbortCause::StreamClosed))
    }

    /// The share record of a finished key generation was stored (`stored`) or
    /// could not be: only then is the share completed.
    pub fn on_persisted(&mut self, stored: bool) -> (r: Option<Abort>)
        requires
            old(self).wf(),
        ensures
            final(self).wf(),
            final(self).same_identity(old(self)),
            final(self).same_heard(old(self)),
            final(self).spec_round() == old(self).spec_round(),
            old(self).spec_phase() == Phase::Persisting && stored ==> r is None && final(self).spec_phase() == Phase::Completed,
            old(self).spec_phase() == Phase::Persisting && !stored ==> final(self).spec_phase()
                == Phase::Aborted && Self::aborted_with(r, AbortCause::StoreFailed, old(self)),
            old(self).spec_phase() != Phase::Persisting ==> r is None && *final(self) == *old(self),
    {
        if self.phase != Phase::Persisting {
            return None;
        }
        if stored {
            self.phase = Phase::Completed;
            None
        } else {
            Some(self.abort(AbortCause::StoreFailed))
        }
    }
}

} // verus!
