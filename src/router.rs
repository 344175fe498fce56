//! The delivery channel of one session: one inbound queue per local share,
//! and one queue of messages bound for the external stream.
use vstd::prelude::*;

verus! {

/// A protocol message with its routing metadata; `to == None` marks a broadcast.
pub struct ProtocolMessage {
    pub round: usize,
    /// Global index of the sending share.
    pub from: usize,
    /// Global index of the receiving share, or `None` for every other share.
    pub to: Option<usize>,
    pub payload: Vec<u8>,
}

pub ghost struct MessageView {
    pub round: usize,
    pub from: usize,
    pub to: Option<usize>,
    pub payload: Seq<u8>,
}

impl View for ProtocolMessage {
    type V = MessageView;

    open spec fn view(&self) -> MessageView {
        MessageView { round: self.round, from: self.from, to: self.to, payload: self.payload@ }
    }
}

impl ProtocolMessage {
    /// A copy of this message.
    pub fn duplicate(&self) -> (r: Self)
        ensures
            r@ == self@,
    {
        ProtocolMessage {
            round: self.round,
            from: self.from,
            to: self.to,
            payload: self.payload.clone(),
        }
    }
}

/// Share `share` is to receive `m`: it is the named recipient, or `m` is a
/// broadcast and `share` is not its sender.
pub open spec fn addressed_to(m: MessageView, share: int) -> bool {
    &&& m.from != share
    &&& match m.to {
        None => true,
        Some(t) => t == share,
    }
}

/// Why the router refuses a message.
#[derive(Clone, Copy, Debug, PartialEq, Eq, Structural)]
pub enum RouteError {
    /// The sender is no share of the session, or is on the wrong side of the stream.
    BadSender,
    /// The recipient is no share of the session, is the sender itself, or is on the wrong side of the stream.
    BadRecipient,
    /// The external stream is closed.
    StreamClosed,
}

pub open spec fn views(s: Seq<ProtocolMessage>) -> Seq<MessageView> {
    s.map_values(|m: ProtocolMessage| m@)
}

pub proof fn lemma_views_push(s: Seq<ProtocolMessage>, m: ProtocolMessage)
    ensures
        views(s.push(m)) == views(s).push(m@),
{
    assert(views(s.push(m)) =~= views(s).push(m@));
}

pub proof fn lemma_views_drop_first(s: Seq<ProtocolMessage>)
    requires
        s.len() > 0,
    ensures
        views(s.subrange(1, s.len() as int)) == views(s).drop_first(),
{
    assert(views(s.subrange(1, s.len() as int)) =~= views(s).drop_first());
}

/// Routing table of one session. The shares of the session are numbered
/// `0..share_count`; those in `local_start..local_start + local_count` run
/// here, the others are reached through the external stream.
pub struct Router {
    share_count: usize,
    local_start: usize,
    local_count: usize,
    inboxes: Vec<Vec<ProtocolMessage>>,
    outgoing: Vec<ProtocolMessage>,
    closed: bool,
}

impl Router {
    pub closed spec fn spec_share_count(&self) -> int {
        self.share_count as int
    }

    pub closed spec fn spec_local_start(&self) -> int {
        self.local_start as int
    }

    pub closed spec fn spec_local_count(&self) -> int {
        self.local_count as int
    }

    pub closed spec fn spec_closed(&self) -> bool {
        self.closed
    }

    /// Messages waiting for the local share `share`, oldest first.
    pub closed spec fn spec_inbox(&self, share: int) -> Seq<MessageView> {
        views(self.inboxes@[share - self.local_start]@)
    }

    /// Messages waiting to be written to the external stream, oldest first.
    pub closed spec fn spec_outgoing(&self) -> Seq<MessageView> {
        views(self.outgoing@)
    }

    pub closed spec fn wf(&self) -> bool {
        &&& self.local_start + self.local_count <= self.share_count
        &&& self.inboxes@.len() == self.local_count
    }

    pub open spec fn is_local(&self, share: int) -> bool {
        self.spec_local_start() <= share < self.spec_local_start() + self.spec_local_count()
    }

    /// Some share that is not local is to receive `m`.
    pub open spec fn reaches_remote(&self, m: MessageView) -> bool {
        exists|s: int|
            0 <= s < self.spec_share_count() && !self.is_local(s) && #[trigger] addressed_to(m, s)
    }

    /// The inbox of each local share after `m` was delivered to the shares it is addressed to.
    pub open spec fn delivered(&self, old_router: &Router, m: MessageView) -> bool {
        forall|s: int|
            #[trigger] self.is_local(s) ==> self.spec_inbox(s) == if addressed_to(m, s) {
                old_router.spec_inbox(s).push(m)
            } else {
                old_router.spec_inbox(s)
            }
    }

    pub open spec fn same_layout(&self, other: &Router) -> bool {
        &&& self.spec_share_count() == other.spec_share_count()
        &&& self.spec_local_start() == other.spec_local_start()
        &&& self.spec_local_count() == other.spec_local_count()
    }

    /// A router with empty queues for a session of `share_count` shares, of which
    /// `local_start..local_start + local_count` run here.
    pub fn new(share_count: usize, local_start: usize, local_count: usize) -> (r: Self)
        requires
            local_start + local_count <= share_count,
        ensures
            r.wf(),
            r.spec_share_count() == share_count,
            r.spec_local_start() == local_start,
            r.spec_local_count() == local_count,
            !r.spec_closed(),
            r.spec_outgoing().len() == 0,
            forall|s: int| #[trigger] r.is_local(s) ==> r.spec_inbox(s).len() == 0,
    {
        let mut inboxes: Vec<Vec<ProtocolMessage>> = Vec::new();
        let mut i: usize = 0;
        while i < local_count
            invariant
                i <= local_count,
                inboxes@.len() == i,
                forall|j: int| 0 <= j < i ==> (#[trigger] inboxes@[j])@.len() == 0,
            decreases local_count - i,
        {
            inboxes.push(Vec::new());
            i += 1;
        }
        let r = Router {
            share_count,
            local_start,
            local_count,
            inboxes,
            outgoing: Vec::new(),
            closed: false,
        };
        proof {
            assert forall|s: int| #[trigger] r.is_local(s) implies r.spec_inbox(s).len() == 0 by {
                assert(r.inboxes@[s - local_start]@.len() == 0);
            }
            assert(r.spec_outgoing() =~= Seq::<MessageView>::empty());
        }
        r
    }

    /// Puts `m` into the inbox of each local share in range that it is addressed to.
    fn fan_in(&mut self, m: &ProtocolMessage)
        requires
            old(self).wf(),
        ensures
            final(self).wf(),
            final(self).same_layout(old(self)),
            final(self).spec_closed() == old(self).spec_closed(),
            final(self).spec_outgoing() == old(self).spec_outgoing(),
            final(self).delivered(old(self), m@),
    {
        let ghost start = *self;
        let mut i: usize = 0;
        while i < self.local_count
            invariant
                self.wf(),
                self.same_layout(&start),
                self.closed == start.closed,
                self.outgoing == start.outgoing,
                start.wf(),
                i <= self.local_count,
                forall|j: int|
                    0 <= j < i ==> #[trigger] views(self.inboxes@[j]@) == if addressed_to(
                        m@,
                        self.local_start + j,
                    ) {
                        views(start.inboxes@[j]@).push(m@)
                    } else {
                        views(start.inboxes@[j]@)
                    },
                forall|j: int| i <= j < self.local_count ==> #[trigger] self.inboxes@[j] == start.inboxes@[j],
            decreases self.local_count - i,
        {
            let share = self.local_start + i;
            let hit = m.from != share && match m.to {
                None => true,
                Some(t) => t == share,
            };
            if hit {
                let ghost before = self.inboxes@[i as int]@;
                self.inboxes[i].push(m.duplicate());
                proof {
                    lemma_views_push(before, self.inboxes@[i as int]@.last());
                    assert(self.inboxes@[i as int]@ == before.push(self.inboxes@[i as int]@.last()));
                }
            }
            i += 1;
        }
        proof {
            assert forall|s: int| #[trigger] self.is_local(s) implies self.spec_inbox(s) == if addressed_to(m@, s) {
                start.spec_inbox(s).push(m@)
            } else {
                start.spec_inbox(s)
            } by {
                let j = s - self.local_start;
                assert(views(self.inboxes@[j]@) == if addressed_to(m@, self.local_start + j) {
                    views(start.inboxes@[j]@).push(m@)
                } else {
                    views(start.inboxes@[j]@)
                });
            }
        }
    }

    pub open spec fn same_inboxes(&self, other: &Router) -> bool {
        forall|s: int| #[trigger] self.is_local(s) ==> self.spec_inbox(s) == other.spec_inbox(s)
    }

    /// Routes a message that the local share `m.from` produced: to the inboxes of
    /// the local shares it is addressed to, and once to the external stream where
    /// some remote share is to receive it.
    pub fn send(&mut self, m: ProtocolMessage) -> (r: Result<(), RouteError>)
        requires
            old(self).wf(),
        ensures
            final(self).wf(),
            final(self).same_layout(old(self)),
            final(self).spec_closed() == old(self).spec_closed(),
            !(m.from < old(self).spec_share_count() && old(self).is_local(m.from as int)) ==> r
                == Err::<(), RouteError>(RouteError::BadSender),
            m.from < old(self).spec_share_count() && old(self).is_local(m.from as int) ==> (r
                == Err::<(), RouteError>(RouteError::BadRecipient) <==> (m.to matches Some(t) && (t
                >= old(self).spec_share_count() || t == m.from))),
            r is Ok <==> (m.from < old(self).spec_share_count() && old(self).is_local(m.from as int)
                && !(m.to matches Some(t) && (t >= old(self).spec_share_count() || t == m.from))),
            r is Ok ==> final(self).delivered(old(self), m@) && final(self).spec_outgoing() == if old(self).reaches_remote(m@) {
                old(self).spec_outgoing().push(m@)
            } else {
                old(self).spec_outgoing()
            },
            r is Err ==> *final(self) == *old(self),
    {
        if !(m.from < self.share_count && self.local_start <= m.from && m.from - self.local_start
            < self.local_count) {
            return Err(RouteError::BadSender);
        }
        let remote = match m.to {
            Some(t) => {
                if t >= self.share_count || t == m.from {
                    return Err(RouteError::BadRecipient);
                }
                !(self.local_start <= t && t - self.local_start < self.local_count)
            },
            None => self.local_count < self.share_count,
        };
        proof {
            if m.to is None {
                if self.local_count < self.share_count {
                    let w: int = if self.local_start > 0 {
                        0
                    } else {
                        self.local_start + self.local_count
                    };
                    assert(addressed_to(m@, w));
                } else {
                    assert forall|s: int| 0 <= s < self.spec_share_count() && !self.is_local(s) implies !#[trigger] addressed_to(m@, s) by {}
                }
            } else {
                let t = m.to->Some_0;
                if remote {
                    assert(addressed_to(m@, t as int));
                } else {
                    assert forall|s: int| 0 <= s < self.spec_share_count() && !self.is_local(s) implies !#[trigger] addressed_to(m@, s) by {}
                }
            }
            assert(remote == self.reaches_remote(m@));
        }
        self.fan_in(&m);
        let ghost mid = *self;
        let ghost mv = m@;
        if remote {
            let ghost before = self.outgoing@;
            self.outgoing.push(m);
            proof {
                lemma_views_push(before, self.outgoing@.last());
                assert(self.outgoing@.last()@ == mv);
                assert forall|s: int| #[trigger] self.is_local(s) implies self.spec_inbox(s) == if addressed_to(mv, s) {
                    old(self).spec_inbox(s).push(mv)
                } else {
                    old(self).spec_inbox(s)
                } by {
                    assert(mid.is_local(s));
                }
            }
        }
        Ok(())
    }

    /// Fans a message that arrived on the external stream in to the inboxes of the
    /// local shares it is addressed to.
    pub fn receive_remote(&mut self, m: ProtocolMessage) -> (r: Result<(), RouteError>)
        requires
            old(self).wf(),
        ensures
            final(self).wf(),
            final(self).same_layout(old(self)),
            final(self).spec_closed() == old(self).spec_closed(),
            final(self).spec_outgoing() == old(self).spec_outgoing(),
            old(self).spec_closed() ==> r == Err::<(), RouteError>(RouteError::StreamClosed),
            !old(self).spec_closed() ==> (r == Err::<(), RouteError>(RouteError::BadSender) <==> !(
            m.from < old(self).spec_share_count() && !old(self).is_local(m.from as int))),
            !old(self).spec_closed() && m.from < old(self).spec_share_count() && !old(self).is_local(
                m.from as int,
            ) ==> (r == Err::<(), RouteError>(RouteError::BadRecipient) <==> (m.to matches Some(t)
                && !(t < old(self).spec_share_count() && old(self).is_local(t as int)))),
            r is Ok <==> (!old(self).spec_closed() && m.from < old(self).spec_share_count()
                && !old(self).is_local(m.from as int) && !(m.to matches Some(t) && !(t < old(self).spec_share_count()
                && old(self).is_local(t as int)))),
            r is Ok ==> final(self).delivered(old(self), m@),
            r is Err ==> *final(self) == *old(self),
    {
        if self.closed {
            return Err(RouteError::StreamClosed);
        }
        if !(m.from < self.share_count && !(self.local_start <= m.from && m.from - self.local_start
            < self.local_count)) {
            return Err(RouteError::BadSender);
        }
        if let Some(t) = m.to {
            if !(t < self.share_count && self.local_start <= t && t - self.local_start
                < self.local_count) {
                return Err(RouteError::BadRecipient);
            }
        }
        self.fan_in(&m);
        Ok(())
    }

    /// Takes the oldest message waiting for the local share `share`, if any.
    pub fn next_inbound(&mut self, share: usize) -> (r: Option<ProtocolMessage>)
        requires
            old(self).wf(),
            old(self).is_local(share as int),
        ensures
            final(self).wf(),
            final(self).same_layout(old(self)),
            final(self).spec_closed() == old(self).spec_closed(),
            final(self).spec_outgoing() == old(self).spec_outgoing(),
            forall|s: int|
                #[trigger] final(self).is_local(s) && s != share ==> final(self).spec_inbox(s)
                    == old(self).spec_inbox(s),
            match r {
                None => old(self).spec_inbox(share as int).len() == 0 && final(self).spec_inbox(
                    share as int,
                ) == old(self).spec_inbox(share as int),
                Some(m) => old(self).spec_inbox(share as int).len() > 0 && m@ == old(self).spec_inbox(share as int)[0] && final(self).spec_inbox(share as int) == old(self).spec_inbox(share as int).drop_first(),
            },
    {
        let i = share - self.local_start;
        if self.inboxes[i].len() == 0 {
            return None;
        }
        let ghost before = self.inboxes@[i as int]@;
        let m = self.inboxes[i].remove(0);
        proof {
            lemma_views_drop_first(before);
            assert(self.inboxes@[i as int]@ =~= before.subrange(1, before.len() as int));
            assert forall|s: int| #[trigger] self.is_local(s) && s != share implies self.spec_inbox(s)
                == old(self).spec_inbox(s) by {
                assert(self.inboxes@[s - self.local_start] == old(self).inboxes@[s - self.local_start]);
            }
        }
        Some(m)
    }

    /// Takes all messages waiting for the external stream, oldest first.
    pub fn take_outgoing(&mut self) -> (r: Vec<ProtocolMessage>)
        requires
            old(self).wf(),
        ensures
            final(self).wf(),
            final(self).same_layout(old(self)),
            final(self).spec_closed() == old(self).spec_closed(),
            final(self).same_inboxes(old(self)),
            views(r@) == old(self).spec_outgoing(),
            final(self).spec_outgoing().len() == 0,
    {
        let r = self.outgoing.split_off(0);
        proof {
            assert(r@ =~= old(self).outgoing@);
            assert(self.spec_outgoing() =~= Seq::<MessageView>::empty());
        }
        r
    }

    /// Marks the external stream closed: no message will come from it any more.
    pub fn close(&mut self)
        requires
            old(self).wf(),
        ensures
            final(self).wf(),
            final(self).same_layout(old(self)),
            final(self).spec_closed(),
            final(self).same_inboxes(old(self)),
            final(self).spec_outgoing() == old(self).spec_outgoing(),
    {
        self.closed = true;
    }

    /// Whether the external stream is closed.
    pub fn is_closed(&self) -> (r: bool)
        ensures
            r == self.spec_closed(),
    {
        self.closed
    }

    /// The number of messages waiting for the local share `share`.
    pub fn pending(&self, share: usize) -> (r: usize)
        requires
            self.wf(),
            self.is_local(share as int),
        ensures
            r == self.spec_inbox(share as int).len(),
    {
        self.inboxes[share - self.local_start].len()
    }
}

} // verus!
