use vstd::prelude::*;

use crate::errors::TopicError;
use crate::frame::{Frame, FrameView, Signal};

verus! {

/// A request buffered while no replier is bound.
#[derive(Clone, Debug)]
pub struct PendingRequest {
    pub client_id: u64,
    pub request_id: u32,
    pub payload: Vec<u8>,
}

/// The model of a pending request.
pub struct PendingRequestView {
    pub client_id: u64,
    pub request_id: u32,
    pub payload: Seq<u8>,
}

impl View for PendingRequest {
    type V = PendingRequestView;

    open spec fn view(&self) -> PendingRequestView {
        PendingRequestView {
            client_id: self.client_id,
            request_id: self.request_id,
            payload: self.payload@,
        }
    }
}

/// The pending-request views a vector stands for.
pub open spec fn pending_views(ps: Seq<PendingRequest>) -> Seq<PendingRequestView> {
    Seq::new(ps.len(), |i: int| ps[i]@)
}

/// What the topic does with a newly bound or rejected replier.
pub enum RegisterReplier {
    /// The slot was empty: the replier is bound, and these frames — one
    /// `ServerRequest` per request buffered while the slot was empty — are
    /// drained to it in arrival order.
    Bound(Vec<Frame>),
    /// The slot was occupied: the new channel is told so and closed.
    Rejected(Signal),
}

/// What the topic does with a frame from a requestor.
pub enum RequestAction {
    /// Forward this `ServerRequest` to the bound replier.
    Forward(Frame),
    /// No replier is bound yet: the request was buffered.
    Buffered,
}

/// What the topic does with a frame from the replier.
pub enum ReplyAction {
    /// Hand this `Reply` to the requestor channel keyed by the client id.
    Deliver(u64, Frame),
    /// The addressed requestor is gone: the reply is dropped.
    Dropped,
}

/// The server request that carries a client's request to the replier.
pub open spec fn spec_server_request(client_id: u64, request_id: u32, payload: Seq<u8>)
    -> FrameView {
    FrameView::ServerRequest(client_id, request_id, payload)
}

/// The reply a requestor receives for a server reply addressed to it.
pub open spec fn spec_client_reply(request_id: u32, payload: Seq<u8>) -> FrameView {
    FrameView::Reply(request_id, payload)
}

/// Where a server reply goes: to the requestor its client id names, if that
/// requestor is still registered, stripped down to a plain `Reply`.
pub open spec fn spec_route_reply(clients: Seq<u64>, f: FrameView) -> Option<(u64, FrameView)> {
    match f {
        FrameView::ServerReply(c, rid, b) => if clients.contains(c) {
            Some((c, spec_client_reply(rid, b)))
        } else {
            None
        },
        _ => None,
    }
}

/// The buffered requests that do not belong to a departing client.
pub open spec fn spec_pending_without(ps: Seq<PendingRequestView>, cid: u64) -> Seq<
    PendingRequestView,
>
    decreases ps.len(),
{
    if ps.len() == 0 {
        Seq::empty()
    } else if ps.last().client_id == cid {
        spec_pending_without(ps.drop_last(), cid)
    } else {
        spec_pending_without(ps.drop_last(), cid).push(ps.last())
    }
}

/// The request/reply topic actor's state: whether a replier is bound, the
/// client ids of the registered requestors, the next client id, and the
/// requests buffered while no replier is bound.
pub struct ReqRepTopic {
    replier_bound: bool,
    clients: Vec<u64>,
    next_client_id: u64,
    pending: Vec<PendingRequest>,
}

impl ReqRepTopic {
    /// Whether a replier is bound.
    pub closed spec fn spec_replier_bound(self) -> bool {
        self.replier_bound
    }

    /// The registered requestors' client ids, oldest first.
    pub closed spec fn spec_clients(self) -> Seq<u64> {
        self.clients@
    }

    /// The next client id to assign.
    pub closed spec fn spec_next_client_id(self) -> u64 {
        self.next_client_id
    }

    /// The requests buffered while no replier is bound, oldest first.
    pub closed spec fn spec_pending(self) -> Seq<PendingRequestView> {
        pending_views(self.pending@)
    }

    /// Client ids are assigned sequentially: every registered id is below
    /// the next one, and no id repeats.
    pub closed spec fn wf(self) -> bool {
        &&& forall|i: int|
            0 <= i < self.clients@.len() ==> (#[trigger] self.clients@[i])
                < self.next_client_id
        &&& forall|i: int, j: int|
            0 <= i < j < self.clients@.len() ==> self.clients@[i] != self.clients@[j]
    }

    /// A topic with no replier, no requestors, and nothing buffered.
    pub fn new() -> (r: ReqRepTopic)
        ensures
            r.wf(),
            !r.spec_replier_bound(),
            r.spec_clients() == Seq::<u64>::empty(),
            r.spec_next_client_id() == 0,
            r.spec_pending() == Seq::<PendingRequestView>::empty(),
    {
        let r = ReqRepTopic {
            replier_bound: false,
            clients: Vec::new(),
            next_client_id: 0,
            pending: Vec::new(),
        };
        proof {
            assert(r.spec_pending() =~= Seq::<PendingRequestView>::empty());
        }
        r
    }

    /// Registers a replier. An empty slot binds it and drains the buffered
    /// requests to it in order; an occupied slot leaves every part of the
    /// state unchanged and answers `ReplierAlreadyBound`.
    pub fn register_replier(&mut self) -> (r: RegisterReplier)
        requires
            old(self).wf(),
        ensures
            final(self).wf(),
            final(self).spec_clients() == old(self).spec_clients(),
            final(self).spec_next_client_id() == old(self).spec_next_client_id(),
            old(self).spec_replier_bound() ==> (r matches RegisterReplier::Rejected(
                Signal::ReplierAlreadyBound,
            )) && *final(self) == *old(self),
            !old(self).spec_replier_bound() ==> final(self).spec_replier_bound()
                && final(self).spec_pending() == Seq::<PendingRequestView>::empty() && (r matches
            RegisterReplier::Bound(fs) && crate::pubsub::frame_views(fs@) == Seq::new(
                old(self).spec_pending().len(),
                |i: int|
                    spec_server_request(
                        old(self).spec_pending()[i].client_id,
                        old(self).spec_pending()[i].request_id,
                        old(self).spec_pending()[i].payload,
                    ),
            )),
    {
        if self.replier_bound {
            return RegisterReplier::Rejected(Signal::ReplierAlreadyBound);
        }
        self.replier_bound = true;
        let mut drained: Vec<Frame> = Vec::new();
        let n = self.pending.len();
        let mut i: usize = 0;
        let ghost pend = self.spec_pending();
        while i < n
            invariant
                i <= n,
                n == self.pending@.len(),
                pend == pending_views(self.pending@),
                crate::pubsub::frame_views(drained@) == Seq::new(
                    i as nat,
                    |j: int|
                        spec_server_request(pend[j].client_id, pend[j].request_id, pend[j].payload),
                ),
            decreases n - i,
        {
            let p = &self.pending[i];
            let payload = p.payload.clone();
            assert(payload@ == p.payload@);
            let f = Frame::ServerRequest(p.client_id, p.request_id, payload);
            let ghost before = drained@;
            drained.push(f);
            proof {
                assert(crate::pubsub::frame_views(drained@) =~= crate::pubsub::frame_views(
                    before,
                ).push(f@));
                assert(crate::pubsub::frame_views(drained@) =~= Seq::new(
                    (i + 1) as nat,
                    |j: int|
                        spec_server_request(pend[j].client_id, pend[j].request_id, pend[j].payload),
                ));
            }
            i = i + 1;
        }
        self.pending.clear();
        proof {
            assert(self.spec_pending() =~= Seq::<PendingRequestView>::empty());
            assert(Seq::new(
                n as nat,
                |j: int|
                    spec_server_request(pend[j].client_id, pend[j].request_id, pend[j].payload),
            ) =~= Seq::new(
                pend.len(),
                |j: int|
                    spec_server_request(pend[j].client_id, pend[j].request_id, pend[j].payload),
            ));
        }
        RegisterReplier::Bound(drained)
    }

    /// Unbinds the replier; new requests buffer until another one binds.
    pub fn remove_replier(&mut self)
        requires
            old(self).wf(),
        ensures
            final(self).wf(),
            !final(self).spec_replier_bound(),
            final(self).spec_clients() == old(self).spec_clients(),
            final(self).spec_next_client_id() == old(self).spec_next_client_id(),
            final(self).spec_pending() == old(self).spec_pending(),
    {
        self.replier_bound = false;
    }

    /// The client id the next requestor will receive.
    pub fn next_client_id(&self) -> (r: u64)
        ensures
            r == self.spec_next_client_id(),
    {
        self.next_client_id
    }

    /// Registers a requestor: assigns it the next sequential client id.
    pub fn register_requestor(&mut self) -> (r: u64)
        requires
            old(self).wf(),
            old(self).spec_next_client_id() < u64::MAX,
        ensures
            final(self).wf(),
            r == old(self).spec_next_client_id(),
            final(self).spec_clients() == old(self).spec_clients().push(r),
            final(self).spec_next_client_id() == old(self).spec_next_client_id() + 1,
            final(self).spec_replier_bound() == old(self).spec_replier_bound(),
            final(self).spec_pending() == old(self).spec_pending(),
    {
        let id = self.next_client_id;
        self.clients.push(id);
        self.next_client_id = self.next_client_id + 1;
        proof {
            assert(final(self).spec_pending() =~= old(self).spec_pending());
        }
        id
    }

    /// Whether a client id is registered.
    pub fn is_registered(&self, client_id: u64) -> (r: bool)
        ensures
            r == self.spec_clients().contains(client_id),
    {
        let n = self.clients.len();
        let mut i: usize = 0;
        while i < n
            invariant
                i <= n,
                n == self.clients@.len(),
                forall|j: int| 0 <= j < i ==> self.clients@[j] != client_id,
            decreases n - i,
        {
            if self.clients[i] == client_id {
                proof {
                    assert(self.spec_clients()[i as int] == client_id);
                }
                return true;
            }
            i = i + 1;
        }
        proof {
            assert(!self.spec_clients().contains(client_id));
        }
        false
    }

    /// Deregisters a requestor: its row and its buffered requests go away;
    /// every other requestor's registration is untouched.
    pub fn remove_requestor(&mut self, client_id: u64)
        requires
            old(self).wf(),
        ensures
            final(self).wf(),
            final(self).spec_replier_bound() == old(self).spec_replier_bound(),
            final(self).spec_next_client_id() == old(self).spec_next_client_id(),
            !final(self).spec_clients().contains(client_id),
            forall|c: u64|
                c != client_id ==> (final(self).spec_clients().contains(c) == old(
                    self,
                ).spec_clients().contains(c)),
            final(self).spec_pending() == spec_pending_without(old(self).spec_pending(), client_id),
    {
        let n = self.clients.len();
        let mut i: usize = 0;
        let mut found = false;
        while i < n && !found
            invariant
                i <= n,
                n == old(self).spec_clients().len(),
                old(self).wf(),
                self.replier_bound == old(self).spec_replier_bound(),
                self.next_client_id == old(self).spec_next_client_id(),
                self.pending@ == old(self).pending@,
                if found {
                    self.clients@ == old(self).spec_clients().remove(i - 1)
                        && old(self).spec_clients()[i - 1] == client_id && 0 < i <= n
                } else {
                    self.clients@ == old(self).spec_clients() && (forall|j: int|
                        0 <= j < i ==> old(self).spec_clients()[j] != client_id)
                },
            decreases n - i,
        {
            if self.clients[i] == client_id {
                self.clients.remove(i);
                found = true;
            }
            i = i + 1;
        }
        proof {
            if found {
                let k = i - 1;
                assert forall|j: int|
                    0 <= j < self.clients@.len() implies self.clients@[j] != client_id by {
                    if j < k {
                        assert(self.clients@[j] == old(self).spec_clients()[j]);
                    } else {
                        assert(self.clients@[j] == old(self).spec_clients()[j + 1]);
                    }
                }
                assert forall|c: u64|
                    c != client_id implies (self.clients@.contains(c) == old(
                    self,
                ).spec_clients().contains(c)) by {
                    if old(self).spec_clients().contains(c) {
                        let j = choose|j: int|
                            0 <= j < old(self).spec_clients().len() && old(self).spec_clients()[j]
                                == c;
                        if j < k {
                            assert(self.clients@[j] == c);
                        } else if j > k {
                            assert(self.clients@[j - 1] == c);
                        }
                    } else {
                        if self.clients@.contains(c) {
                            let j = choose|j: int|
                                0 <= j < self.clients@.len() && self.clients@[j] == c;
                            if j < k {
                                assert(old(self).spec_clients()[j] == c);
                            } else {
                                assert(old(self).spec_clients()[j + 1] == c);
                            }
                        }
                    }
                }
                assert forall|a: int, b: int|
                    0 <= a < b < self.clients@.len() implies self.clients@[a]
                    != self.clients@[b] by {
                    let oa: int = if a < k {
                        a
                    } else {
                        a + 1
                    };
                    let ob: int = if b < k {
                        b
                    } else {
                        b + 1
                    };
                    assert(self.clients@[a] == old(self).spec_clients()[oa]);
                    assert(self.clients@[b] == old(self).spec_clients()[ob]);
                }
            } else {
                assert(!self.clients@.contains(client_id));
            }
        }
        let np = self.pending.len();
        let mut kept_pending: Vec<PendingRequest> = Vec::new();
        let mut p: usize = 0;
        let ghost pend = pending_views(self.pending@);
        proof {
            assert(pend == old(self).spec_pending());
            assert(spec_pending_without(pend.subrange(0, 0), client_id)
                =~= Seq::<PendingRequestView>::empty());
            assert(pending_views(kept_pending@) =~= Seq::<PendingRequestView>::empty());
        }
        while p < np
            invariant
                p <= np,
                np == self.pending@.len(),
                pend == pending_views(self.pending@),
                pending_views(kept_pending@) == spec_pending_without(
                    pend.subrange(0, p as int),
                    client_id,
                ),
            decreases np - p,
        {
            proof {
                assert(pend.subrange(0, p + 1 as int).drop_last() =~= pend.subrange(0, p as int));
                assert(pend.subrange(0, p + 1 as int).last() == pend[p as int]);
            }
            let q = &self.pending[p];
            if q.client_id != client_id {
                let payload = q.payload.clone();
                assert(payload@ == q.payload@);
                let ghost before = pending_views(kept_pending@);
                let fresh = PendingRequest { client_id: q.client_id, request_id: q.request_id, payload };
                let ghost fv = fresh@;
                kept_pending.push(fresh);
                proof {
                    assert(fv == pend[p as int]);
                    assert(pending_views(kept_pending@) =~= before.push(fv));
                }
            }
            p = p + 1;
        }
        proof {
            assert(pend.subrange(0, np as int) =~= pend);
        }
        self.pending = kept_pending;
    }

    /// Accepts one frame from the requestor keyed by `client_id`: a request
    /// is forwarded to the bound replier as a `ServerRequest` carrying the
    /// requestor's client id and its own request id, or buffered while no
    /// replier is bound. Anything else is a protocol error.
    pub fn handle_requestor_frame(&mut self, client_id: u64, frame: &Frame) -> (r: Result<
        RequestAction,
        TopicError,
    >)
        requires
            old(self).wf(),
        ensures
            final(self).wf(),
            final(self).spec_replier_bound() == old(self).spec_replier_bound(),
            final(self).spec_clients() == old(self).spec_clients(),
            final(self).spec_next_client_id() == old(self).spec_next_client_id(),
            match r {
                Ok(RequestAction::Forward(f)) => old(self).spec_replier_bound() && (frame@ matches
                FrameView::Request(rid, b) && f@ == spec_server_request(client_id, rid, b))
                    && final(self).spec_pending() == old(self).spec_pending(),
                Ok(RequestAction::Buffered) => !old(self).spec_replier_bound() && (frame@ matches
                FrameView::Request(rid, b) && final(self).spec_pending() == old(
                    self,
                ).spec_pending().push(
                    (PendingRequestView { client_id, request_id: rid, payload: b }),
                )),
                Err(TopicError::UnexpectedFrame(t)) => t == frame.ty_spec() && !(frame@ matches
                FrameView::Request(_, _)) && *final(self) == *old(self),
                Err(_) => false,
            },
    {
        match frame {
            Frame::Request(rid, b) => {
                let payload = b.clone();
                assert(payload@ == b@);
                if self.replier_bound {
                    Ok(RequestAction::Forward(Frame::ServerRequest(client_id, *rid, payload)))
                } else {
                    let ghost before = self.spec_pending();
                    let pr = PendingRequest { client_id, request_id: *rid, payload };
                    let ghost prv = pr@;
                    self.pending.push(pr);
                    proof {
                        assert(self.spec_pending() =~= before.push(prv));
                    }
                    Ok(RequestAction::Buffered)
                }
            },
            _ => Err(TopicError::UnexpectedFrame(frame.ty())),
        }
    }

    /// Accepts one frame from the replier: a `ServerReply` is stripped of
    /// its client id and delivered as a `Reply` to exactly the requestor the
    /// client id names, or dropped when that requestor is gone. Anything
    /// else is a protocol error.
    pub fn handle_replier_frame(&self, frame: &Frame) -> (r: Result<ReplyAction, TopicError>)
        ensures
            match r {
                Ok(ReplyAction::Deliver(cid, f)) => spec_route_reply(self.spec_clients(), frame@)
                    == Some((cid, f@)),
                Ok(ReplyAction::Dropped) => (frame@ matches FrameView::ServerReply(_, _, _))
                    && spec_route_reply(self.spec_clients(), frame@) is None,
                Err(TopicError::UnexpectedFrame(t)) => t == frame.ty_spec() && !(frame@ matches
                FrameView::ServerReply(_, _, _)),
                Err(_) => false,
            },
    {
        match frame {
            Frame::ServerReply(cid, rid, b) => {
                if self.is_registered(*cid) {
                    let payload = b.clone();
                    assert(payload@ == b@);
                    Ok(ReplyAction::Deliver(*cid, Frame::Reply(*rid, payload)))
                } else {
                    Ok(ReplyAction::Dropped)
                }
            },
            _ => Err(TopicError::UnexpectedFrame(frame.ty())),
        }
    }
}

/// Request/reply correlation: the server request forwarded for a client's
/// request carries exactly that client's id and request id, and a server
/// reply the replier addresses to that pair is delivered back to the same
/// client with the same request id and body — never to another requestor,
/// whatever order replies come back in.
pub proof fn lemma_request_reply_correlation(
    clients: Seq<u64>,
    c1: u64,
    c2: u64,
    rid: u32,
    reply: Seq<u8>,
)
    requires
        c1 != c2,
        clients.contains(c1),
    ensures
        ({
            let r = spec_route_reply(clients, FrameView::ServerReply(c1, rid, reply));
            &&& r matches Some((cid, f)) && cid == c1 && cid != c2 && f == FrameView::Reply(
                rid,
                reply,
            )
        }),
{
}

} // verus!
