//! The virtual network: endpoints bound to addresses exchange byte messages.
//! A send lands at the end of the receiver's inbox, so messages between two
//! endpoints arrive in the order they were sent. Faults are injected by
//! configuration: a loss rate, and partitions that cut pairs of addresses.
use vstd::prelude::*;

use crate::addr::Addr;

verus! {

/// Why a network operation failed.
#[derive(Clone, Copy, Debug, PartialEq, Eq, Structural)]
pub enum NetError {
    /// No endpoint is bound at the address.
    NotFound,
    /// An endpoint is already bound at the address.
    AlreadyExists,
    /// The endpoint at one end has been closed.
    ConnectionClosed,
    /// The message could not cross a partition.
    Dropped,
}

/// What a send across a partition does.
#[derive(Clone, Copy, Debug, PartialEq, Eq, Structural)]
pub enum PartitionMode {
    /// The send fails with `Dropped`.
    Fail,
    /// The send reports success and the message is lost.
    Drop,
}

/// A message as it waits in an inbox.
#[derive(Clone, Debug)]
pub struct Message {
    pub from: Addr,
    pub payload: Vec<u8>,
}

/// The abstract value of a message.
pub struct MessageView {
    pub from: Addr,
    pub payload: Seq<u8>,
}

impl View for Message {
    type V = MessageView;

    open spec fn view(&self) -> MessageView {
        MessageView { from: self.from, payload: self.payload@ }
    }
}

/// The abstract state of one endpoint.
pub struct EndpointView {
    pub addr: Addr,
    pub inbox: Seq<MessageView>,
    pub closed: bool,
}

/// The abstract state of the network.
pub struct NetView {
    pub endpoints: Seq<EndpointView>,
    pub cuts: Seq<(Addr, Addr)>,
    pub mode: PartitionMode,
    pub loss_ppm: u32,
    pub conns: Seq<ConnView>,
}

/// One end of a connection.
#[derive(Clone, Copy, Debug, PartialEq, Eq, Structural)]
pub enum Side {
    /// The end that connected.
    Client,
    /// The end that accepted.
    Server,
}

/// The abstract state of a connection: its two addresses, whether the server
/// has accepted it, whether it is closed, and what waits for each end.
pub struct ConnView {
    pub client: Addr,
    pub server: Addr,
    pub accepted: bool,
    pub closed: bool,
    pub to_server: Seq<Seq<u8>>,
    pub to_client: Seq<Seq<u8>>,
}

impl ConnView {
    /// What waits to be received at `side`.
    pub open spec fn inbox(self, side: Side) -> Seq<Seq<u8>> {
        match side {
            Side::Client => self.to_client,
            Side::Server => self.to_server,
        }
    }

    /// The connection with what waits at `side` replaced by `q`.
    pub open spec fn with_inbox(self, side: Side, q: Seq<Seq<u8>>) -> ConnView {
        match side {
            Side::Client => ConnView { to_client: q, ..self },
            Side::Server => ConnView { to_server: q, ..self },
        }
    }
}

/// The other end.
pub open spec fn peer_side(side: Side) -> Side {
    match side {
        Side::Client => Side::Server,
        Side::Server => Side::Client,
    }
}

/// How a send ends.
#[derive(Clone, Copy, Debug, PartialEq, Eq, Structural)]
pub enum Outcome {
    /// The message is at the end of the receiver's inbox.
    Delivered,
    /// The sender is told of success, but the message is gone.
    Lost,
    /// The send fails with this error.
    Failed(NetError),
}

impl NetView {
    /// No address is bound twice.
    pub open spec fn wf(self) -> bool {
        forall|i: int, j: int|
            0 <= i < self.endpoints.len() && 0 <= j < self.endpoints.len() && i != j
                ==> self.endpoints[i].addr != self.endpoints[j].addr
    }

    /// Endpoint `i` is bound at `a`.
    pub open spec fn at(self, i: int, a: Addr) -> bool {
        0 <= i < self.endpoints.len() && self.endpoints[i].addr == a
    }

    /// Some endpoint is bound at `a`.
    pub open spec fn bound(self, a: Addr) -> bool {
        exists|i: int| self.at(i, a)
    }

    /// Some endpoint is bound at `a`, and it is open.
    pub open spec fn open_at(self, a: Addr) -> bool {
        exists|i: int| self.at(i, a) && !self.endpoints[i].closed
    }

    /// `a` and `b` are cut from each other, in either direction.
    pub open spec fn partitioned(self, a: Addr, b: Addr) -> bool {
        exists|i: int| 0 <= i < self.cuts.len() && (self.cuts[i] == (a, b) || self.cuts[i] == (b, a))
    }

    /// How a send from `from` to `to` ends, given a roll in parts per million
    /// for the loss rate. The sender must be open; a partition then decides
    /// before anything else; then the receiver must be open; then a roll under
    /// the loss rate loses the message.
    pub open spec fn send_outcome(self, from: Addr, to: Addr, roll: u32) -> Outcome {
        if !self.bound(from) {
            Outcome::Failed(NetError::NotFound)
        } else if !self.open_at(from) {
            Outcome::Failed(NetError::ConnectionClosed)
        } else if self.partitioned(from, to) {
            match self.mode {
                PartitionMode::Fail => Outcome::Failed(NetError::Dropped),
                PartitionMode::Drop => Outcome::Lost,
            }
        } else if !self.bound(to) {
            Outcome::Failed(NetError::NotFound)
        } else if !self.open_at(to) {
            Outcome::Failed(NetError::ConnectionClosed)
        } else if roll < self.loss_ppm {
            Outcome::Lost
        } else {
            Outcome::Delivered
        }
    }
}

impl NetView {
    /// Whether `from` may open a connection to `to`: both open, and not cut
    /// from each other.
    pub open spec fn connect_result(self, from: Addr, to: Addr) -> Result<(), NetError> {
        if !self.bound(from) || !self.bound(to) {
            Err(NetError::NotFound)
        } else if !self.open_at(from) || !self.open_at(to) {
            Err(NetError::ConnectionClosed)
        } else if self.partitioned(from, to) {
            Err(NetError::Dropped)
        } else {
            Ok(())
        }
    }

    /// How a send on connection `c` from `side` ends: a closed connection
    /// fails; a partition between its ends decides as for any send; then the
    /// roll may lose the message.
    pub open spec fn conn_send_outcome(self, c: int, roll: u32) -> Outcome {
        let k = self.conns[c];
        if k.closed {
            Outcome::Failed(NetError::ConnectionClosed)
        } else if self.partitioned(k.client, k.server) {
            match self.mode {
                PartitionMode::Fail => Outcome::Failed(NetError::Dropped),
                PartitionMode::Drop => Outcome::Lost,
            }
        } else if roll < self.loss_ppm {
            Outcome::Lost
        } else {
            Outcome::Delivered
        }
    }

    /// Connection `c` waits, not yet accepted, at `at`, and no earlier one does.
    pub open spec fn first_pending(self, at: Addr, c: int) -> bool {
        &&& 0 <= c < self.conns.len()
        &&& self.pending_at(c, at)
        &&& forall|d: int| 0 <= d < c ==> !self.pending_at(d, at)
    }

    pub open spec fn pending_at(self, c: int, at: Addr) -> bool {
        self.conns[c].server == at && !self.conns[c].accepted && !self.conns[c].closed
    }

    /// The state with connection `c` replaced by `k`.
    pub open spec fn with_conn(self, c: int, k: ConnView) -> NetView {
        NetView { conns: self.conns.update(c, k), ..self }
    }
}

/// What `send` returns for an outcome.
pub open spec fn send_result(o: Outcome) -> Result<(), NetError> {
    match o {
        Outcome::Failed(e) => Err(e),
        _ => Ok(()),
    }
}

struct Endpoint {
    addr: Addr,
    inbox: Vec<Message>,
    closed: bool,
}

spec fn endpoint_view(e: Endpoint) -> EndpointView {
    EndpointView { addr: e.addr, inbox: e.inbox@.map_values(|m: Message| m@), closed: e.closed }
}

/// All endpoints of a simulation and the faults configured between them.
pub struct Network {
    endpoints: Vec<Endpoint>,
    cuts: Vec<(Addr, Addr)>,
    mode: PartitionMode,
    loss_ppm: u32,
    conns: Vec<Conn>,
}

struct Conn {
    client: Addr,
    server: Addr,
    accepted: bool,
    closed: bool,
    to_server: Vec<Vec<u8>>,
    to_client: Vec<Vec<u8>>,
}

spec fn queue_view(q: Seq<Vec<u8>>) -> Seq<Seq<u8>> {
    q.map_values(|m: Vec<u8>| m@)
}

spec fn conn_view(c: Conn) -> ConnView {
    ConnView {
        client: c.client,
        server: c.server,
        accepted: c.accepted,
        closed: c.closed,
        to_server: queue_view(c.to_server@),
        to_client: queue_view(c.to_client@),
    }
}

impl View for Network {
    type V = NetView;

    closed spec fn view(&self) -> NetView {
        NetView {
            endpoints: self.endpoints@.map_values(|e: Endpoint| endpoint_view(e)),
            cuts: self.cuts@,
            mode: self.mode,
            loss_ppm: self.loss_ppm,
            conns: self.conns@.map_values(|c: Conn| conn_view(c)),
        }
    }
}

impl Network {
    pub open spec fn wf(&self) -> bool {
        self@.wf()
    }

    /// A network with no endpoint and no partition. Sends across a partition
    /// behave as `mode` says; a send is lost when its roll is under `loss_ppm`.
    pub fn new(mode: PartitionMode, loss_ppm: u32) -> (r: Network)
        ensures
            r.wf(),
            r@ == (NetView { endpoints: Seq::empty(), cuts: Seq::empty(), mode, loss_ppm, conns: Seq::empty() }),
    {
        let r = Network { endpoints: Vec::new(), cuts: Vec::new(), mode, loss_ppm, conns: Vec::new() };
        assert(r@.endpoints =~= Seq::empty());
        assert(r@.conns =~= Seq::empty());
        r
    }

    fn find(&self, a: Addr) -> (r: Option<usize>)
        requires
            self.wf(),
        ensures
            match r {
                Some(i) => self@.at(i as int, a),
                None => !self@.bound(a),
            },
    {
        let mut i: usize = 0;
        while i < self.endpoints.len()
            invariant
                i <= self.endpoints@.len(),
                forall|k: int| 0 <= k < i ==> self@.endpoints[k].addr != a,
            decreases self.endpoints@.len() - i,
        {
            if self.endpoints[i].addr == a {
                return Some(i);
            }
            i = i + 1;
        }
        None
    }

    /// Binds an endpoint at `a`, with an empty inbox; `AlreadyExists` if one
    /// is bound there.
    pub fn bind(&mut self, a: Addr) -> (r: Result<(), NetError>)
        requires
            old(self).wf(),
        ensures
            final(self).wf(),
            old(self)@.bound(a) ==> r == Err::<(), NetError>(NetError::AlreadyExists) && final(self)@
                == old(self)@,
            !old(self)@.bound(a) ==> r == Ok::<(), NetError>(()) && final(self)@ == (NetView {
                endpoints: old(self)@.endpoints.push(EndpointView { addr: a, inbox: Seq::empty(), closed: false }),
                ..old(self)@
            }),
    {
        match self.find(a) {
            Some(_) => Err(NetError::AlreadyExists),
            None => {
                let ghost before = self@;
                self.endpoints.push(Endpoint { addr: a, inbox: Vec::new(), closed: false });
                proof {
                    assert forall|k: int| 0 <= k < before.endpoints.len() implies before.endpoints[k].addr != a by {
                        assert(!before.at(k, a));
                    }
                    let e = self.endpoints@[self.endpoints@.len() - 1];
                    assert(endpoint_view(e).inbox =~= Seq::empty());
                    assert(self@.endpoints =~= before.endpoints.push(
                        EndpointView { addr: a, inbox: Seq::empty(), closed: false },
                    ));
                }
                Ok(())
            },
        }
    }

    /// Cuts `a` from `b`, both ways, until healed.
    pub fn partition(&mut self, a: Addr, b: Addr)
        ensures
            final(self)@ == (NetView { cuts: old(self)@.cuts.push((a, b)), ..old(self)@ }),
            final(self)@.partitioned(a, b),
            forall|x: Addr, y: Addr| old(self)@.partitioned(x, y) ==> final(self)@.partitioned(x, y),
    {
        self.cuts.push((a, b));
        assert(self@.cuts[self@.cuts.len() - 1] == (a, b));
        assert forall|x: Addr, y: Addr| old(self)@.partitioned(x, y) implies self@.partitioned(x, y) by {
            let i = choose|i: int| 0 <= i < old(self)@.cuts.len() && (old(self)@.cuts[i] == (x, y) || old(self)@.cuts[i] == (y, x));
            assert(self@.cuts[i] == old(self)@.cuts[i]);
        }
    }

    /// Removes every cut between `a` and `b`.
    pub fn heal(&mut self, a: Addr, b: Addr)
        ensures
            final(self)@ == (NetView {
                cuts: old(self)@.cuts.filter(|c: (Addr, Addr)| c != (a, b) && c != (b, a)),
                ..old(self)@
            }),
            !final(self)@.partitioned(a, b),
    {
        let ghost pred = |c: (Addr, Addr)| c != (a, b) && c != (b, a);
        let mut kept: Vec<(Addr, Addr)> = Vec::new();
        let mut i: usize = 0;
        while i < self.cuts.len()
            invariant
                i <= self.cuts@.len(),
                pred == (|c: (Addr, Addr)| c != (a, b) && c != (b, a)),
                kept@ == self.cuts@.subrange(0, i as int).filter(pred),
            decreases self.cuts@.len() - i,
        {
            proof {
                reveal(Seq::filter);
                assert(self.cuts@.subrange(0, i + 1).drop_last() =~= self.cuts@.subrange(0, i as int));
            }
            let c = self.cuts[i];
            let hit = (c.0 == a && c.1 == b) || (c.0 == b && c.1 == a);
            assert((c.0 == a && c.1 == b) <==> c == (a, b));
            assert((c.0 == b && c.1 == a) <==> c == (b, a));
            assert(hit == !pred(c));
            if !hit {
                kept.push(c);
            }
            i = i + 1;
        }
        assert(self.cuts@.subrange(0, self.cuts@.len() as int) =~= self.cuts@);
        self.cuts = kept;
        proof {
            self.cuts@.filter_lemma(pred);
            assert(self@.cuts == old(self)@.cuts.filter(pred));
            assert forall|k: int| 0 <= k < self@.cuts.len() implies pred(#[trigger] self@.cuts[k]) by {
                old(self)@.cuts.filter_lemma(pred);
            }
        }
    }

    /// Closes the endpoint at `a` and drops what waits in its inbox. Later
    /// sends to it or from it, and receives on it, fail with
    /// `ConnectionClosed`. `NotFound` if nothing is bound at `a`.
    pub fn close(&mut self, a: Addr) -> (r: Result<(), NetError>)
        requires
            old(self).wf(),
        ensures
            final(self).wf(),
            !old(self)@.bound(a) ==> r == Err::<(), NetError>(NetError::NotFound) && final(self)@ == old(self)@,
            old(self)@.bound(a) ==> r == Ok::<(), NetError>(()) && exists|i: int|
                old(self)@.at(i, a) && final(self)@ == (NetView {
                    endpoints: old(self)@.endpoints.update(
                        i,
                        EndpointView { addr: a, inbox: Seq::empty(), closed: true },
                    ),
                    ..old(self)@
                }),
    {
        match self.find(a) {
            None => Err(NetError::NotFound),
            Some(i) => {
                let ghost before = self@;
                let e = Endpoint { addr: a, inbox: Vec::new(), closed: true };
                self.endpoints.set(i, e);
                proof {
                    let ev = EndpointView { addr: a, inbox: Seq::empty(), closed: true };
                    assert(endpoint_view(self.endpoints@[i as int]).inbox =~= Seq::empty());
                    assert(self@.endpoints =~= before.endpoints.update(i as int, ev));
                }
                Ok(())
            },
        }
    }

    fn is_cut(&self, a: Addr, b: Addr) -> (r: bool)
        ensures
            r == self@.partitioned(a, b),
    {
        let mut i: usize = 0;
        while i < self.cuts.len()
            invariant
                i <= self.cuts@.len(),
                forall|k: int| 0 <= k < i ==> self.cuts@[k] != (a, b) && self.cuts@[k] != (b, a),
            decreases self.cuts@.len() - i,
        {
            let c = self.cuts[i];
            if (c.0 == a && c.1 == b) || (c.0 == b && c.1 == a) {
                assert(self@.cuts[i as int] == (a, b) || self@.cuts[i as int] == (b, a));
                return true;
            }
            i = i + 1;
        }
        false
    }

    /// Whether `a` and `b` are cut from each other.
    pub fn is_partitioned(&self, a: Addr, b: Addr) -> (r: bool)
        ensures
            r == self@.partitioned(a, b),
    {
        self.is_cut(a, b)
    }

    /// Sends `payload` from `from` to `to`; `roll` is a draw in parts per
    /// million, from the sender's random stream, for the loss rate. The result
    /// and the new state follow `send_outcome`: only a delivered message
    /// changes anything, and it goes to the end of the receiver's inbox.
    pub fn send(&mut self, from: Addr, to: Addr, payload: Vec<u8>, roll: u32) -> (r: Result<(), NetError>)
        requires
            old(self).wf(),
        ensures
            final(self).wf(),
            r == send_result(old(self)@.send_outcome(from, to, roll)),
            old(self)@.send_outcome(from, to, roll) != Outcome::Delivered ==> final(self)@ == old(self)@,
            old(self)@.send_outcome(from, to, roll) == Outcome::Delivered ==> exists|i: int|
                old(self)@.at(i, to) && final(self)@ == (NetView {
                    endpoints: old(self)@.endpoints.update(
                        i,
                        EndpointView {
                            inbox: old(self)@.endpoints[i].inbox.push(MessageView { from, payload: payload@ }),
                            ..old(self)@.endpoints[i]
                        },
                    ),
                    ..old(self)@
                }),
    {
        let ghost v = self@;
        let si = match self.find(from) {
            None => return Err(NetError::NotFound),
            Some(si) => si,
        };
        if self.endpoints[si].closed {
            proof {
                assert forall|k: int| v.at(k, from) implies v.endpoints[k].closed by {
                    assert(k == si);
                }
            }
            return Err(NetError::ConnectionClosed);
        }
        if self.is_cut(from, to) {
            return match self.mode {
                PartitionMode::Fail => Err(NetError::Dropped),
                PartitionMode::Drop => Ok(()),
            };
        }
        let ti = match self.find(to) {
            None => return Err(NetError::NotFound),
            Some(ti) => ti,
        };
        if self.endpoints[ti].closed {
            proof {
                assert forall|k: int| v.at(k, to) implies v.endpoints[k].closed by {
                    assert(k == ti);
                }
            }
            return Err(NetError::ConnectionClosed);
        }
        if roll < self.loss_ppm {
            return Ok(());
        }
        let ghost pv = payload@;
        let mut e = self.endpoints.remove(ti);
        e.inbox.push(Message { from, payload });
        self.endpoints.insert(ti, e);
        proof {
            let ev = EndpointView {
                inbox: v.endpoints[ti as int].inbox.push(MessageView { from, payload: pv }),
                ..v.endpoints[ti as int]
            };
            assert(endpoint_view(e).inbox =~= ev.inbox);
            assert(self@.endpoints =~= v.endpoints.update(ti as int, ev));
        }
        Ok(())
    }

    /// Takes the oldest message from the inbox at `at`: `Ok(None)` when the
    /// inbox is empty, `NotFound` when nothing is bound there, and
    /// `ConnectionClosed` once the endpoint is closed.
    pub fn recv(&mut self, at: Addr) -> (r: Result<Option<Message>, NetError>)
        requires
            old(self).wf(),
        ensures
            final(self).wf(),
            !old(self)@.bound(at) ==> (r matches Err(NetError::NotFound) && final(self)@ == old(self)@),
            old(self)@.bound(at) && !old(self)@.open_at(at) ==> (r matches Err(NetError::ConnectionClosed)
                && final(self)@ == old(self)@),
            forall|i: int| #[trigger] old(self)@.at(i, at) && !old(self)@.endpoints[i].closed ==> {
                let inbox = old(self)@.endpoints[i].inbox;
                &&& inbox.len() == 0 ==> (r matches Ok(None) && final(self)@ == old(self)@)
                &&& inbox.len() > 0 ==> (r matches Ok(Some(m)) && m@ == inbox[0] && final(self)@ == (NetView {
                    endpoints: old(self)@.endpoints.update(
                        i,
                        EndpointView { inbox: inbox.subrange(1, inbox.len() as int), ..old(self)@.endpoints[i] },
                    ),
                    ..old(self)@
                }))
            },
    {
        let ghost v = self@;
        let i = match self.find(at) {
            None => return Err(NetError::NotFound),
            Some(i) => i,
        };
        if self.endpoints[i].closed {
            proof {
                assert forall|k: int| v.at(k, at) implies v.endpoints[k].closed by {
                    assert(k == i);
                }
            }
            return Err(NetError::ConnectionClosed);
        }
        if self.endpoints[i].inbox.len() == 0 {
            proof {
                assert forall|k: int| #[trigger] v.at(k, at) implies k == i by {}
            }
            return Ok(None);
        }
        let mut e = self.endpoints.remove(i);
        let m = e.inbox.remove(0);
        self.endpoints.insert(i, e);
        proof {
            let inbox = v.endpoints[i as int].inbox;
            let ev = EndpointView { inbox: inbox.subrange(1, inbox.len() as int), ..v.endpoints[i as int] };
            assert(endpoint_view(e).inbox =~= ev.inbox);
            assert(self@.endpoints =~= v.endpoints.update(i as int, ev));
            assert forall|k: int| #[trigger] v.at(k, at) implies k == i by {}
        }
        Ok(Some(m))
    }

    /// Opens a connection from `from` to `to`, as `connect_result` allows; its
    /// number is returned. It waits at `to` until accepted.
    pub fn connect(&mut self, from: Addr, to: Addr) -> (r: Result<usize, NetError>)
        requires
            old(self).wf(),
        ensures
            final(self).wf(),
            old(self)@.connect_result(from, to) is Err ==> r == Err::<usize, NetError>(
                old(self)@.connect_result(from, to)->Err_0,
            ) && final(self)@ == old(self)@,
            old(self)@.connect_result(from, to) is Ok ==> r == Ok::<usize, NetError>(old(self)@.conns.len() as usize)
                && final(self)@ == (NetView {
                conns: old(self)@.conns.push(
                    ConnView {
                        client: from,
                        server: to,
                        accepted: false,
                        closed: false,
                        to_server: Seq::empty(),
                        to_client: Seq::empty(),
                    },
                ),
                ..old(self)@
            }),
    {
        let fi = self.find(from);
        let ti = self.find(to);
        let (fi, ti) = match (fi, ti) {
            (Some(a), Some(b)) => (a, b),
            _ => return Err(NetError::NotFound),
        };
        proof {
            assert forall|k: int| self@.at(k, from) implies k == fi by {}
            assert forall|k: int| self@.at(k, to) implies k == ti by {}
        }
        if self.endpoints[fi].closed || self.endpoints[ti].closed {
            return Err(NetError::ConnectionClosed);
        }
        if self.is_cut(from, to) {
            return Err(NetError::Dropped);
        }
        let ghost v = self@;
        let id = self.conns.len();
        self.conns.push(
            Conn { client: from, server: to, accepted: false, closed: false, to_server: Vec::new(), to_client: Vec::new() },
        );
        proof {
            let k = self.conns@[id as int];
            assert(conn_view(k).to_server =~= Seq::empty());
            assert(conn_view(k).to_client =~= Seq::empty());
            assert(self@.conns =~= v.conns.push(
                ConnView {
                    client: from,
                    server: to,
                    accepted: false,
                    closed: false,
                    to_server: Seq::empty(),
                    to_client: Seq::empty(),
                },
            ));
            assert(self@.endpoints =~= v.endpoints);
        }
        Ok(id)
    }

    /// Accepts the oldest connection waiting at `at`: its number and the
    /// address of the other end. `None` when none waits.
    pub fn accept(&mut self, at: Addr) -> (r: Option<(usize, Addr)>)
        requires
            old(self).wf(),
        ensures
            final(self).wf(),
            (forall|c: int| 0 <= c < old(self)@.conns.len() ==> !old(self)@.pending_at(c, at)) ==> r is None
                && final(self)@ == old(self)@,
            forall|c: int| #[trigger] old(self)@.first_pending(at, c) ==> r == Some((c as usize, old(self)@.conns[c].client))
                && final(self)@ == old(self)@.with_conn(c, ConnView { accepted: true, ..old(self)@.conns[c] }),
    {
        let mut c: usize = 0;
        while c < self.conns.len()
            invariant
                c <= self.conns@.len(),
                self.wf(),
                *self == *old(self),
                forall|d: int| 0 <= d < c ==> !self@.pending_at(d, at),
            decreases self.conns@.len() - c,
        {
            if self.conns[c].server == at && !self.conns[c].accepted && !self.conns[c].closed {
                let ghost v = self@;
                let peer = self.conns[c].client;
                let mut k = self.conns.remove(c);
                k.accepted = true;
                self.conns.insert(c, k);
                proof {
                    assert(v.pending_at(c as int, at));
                    assert(self@.conns =~= v.conns.update(c as int, ConnView { accepted: true, ..v.conns[c as int] }));
                    assert(self@.endpoints =~= v.endpoints);
                    assert forall|d: int| #[trigger] v.first_pending(at, d) implies d == c by {
                        if d < c {
                        } else if d > c {
                            assert(v.pending_at(c as int, at));
                        }
                    }
                }
                return Some((c, peer));
            }
            c = c + 1;
        }
        None
    }

    /// Sends `payload` on connection `c` from end `side`; `roll` is a draw in
    /// parts per million for the loss rate. A delivered message goes to the
    /// end of the other end's queue, so each end receives in the order sent.
    pub fn send_on(&mut self, c: usize, side: Side, payload: Vec<u8>, roll: u32) -> (r: Result<(), NetError>)
        requires
            old(self).wf(),
            c < old(self)@.conns.len(),
        ensures
            final(self).wf(),
            r == send_result(old(self)@.conn_send_outcome(c as int, roll)),
            old(self)@.conn_send_outcome(c as int, roll) != Outcome::Delivered ==> final(self)@ == old(self)@,
            old(self)@.conn_send_outcome(c as int, roll) == Outcome::Delivered ==> final(self)@ == old(self)@.with_conn(
                c as int,
                old(self)@.conns[c as int].with_inbox(
                    peer_side(side),
                    old(self)@.conns[c as int].inbox(peer_side(side)).push(payload@),
                ),
            ),
    {
        if self.conns[c].closed {
            return Err(NetError::ConnectionClosed);
        }
        let a = self.conns[c].client;
        let b = self.conns[c].server;
        if self.is_cut(a, b) {
            return match self.mode {
                PartitionMode::Fail => Err(NetError::Dropped),
                PartitionMode::Drop => Ok(()),
            };
        }
        if roll < self.loss_ppm {
            return Ok(());
        }
        let ghost v = self@;
        let ghost pv = payload@;
        let mut k = self.conns.remove(c);
        match side {
            Side::Client => k.to_server.push(payload),
            Side::Server => k.to_client.push(payload),
        }
        self.conns.insert(c, k);
        proof {
            let kv = v.conns[c as int].with_inbox(peer_side(side), v.conns[c as int].inbox(peer_side(side)).push(pv));
            assert(conn_view(k).to_server =~= kv.to_server);
            assert(conn_view(k).to_client =~= kv.to_client);
            assert(self@.conns =~= v.conns.update(c as int, kv));
            assert(self@.endpoints =~= v.endpoints);
        }
        Ok(())
    }

    /// Takes the oldest message waiting at end `side` of connection `c`:
    /// `Ok(None)` when none waits; `ConnectionClosed` once either end has
    /// closed it.
    pub fn recv_on(&mut self, c: usize, side: Side) -> (r: Result<Option<Vec<u8>>, NetError>)
        requires
            old(self).wf(),
            c < old(self)@.conns.len(),
        ensures
            final(self).wf(),
            old(self)@.conns[c as int].closed ==> r == Err::<Option<Vec<u8>>, NetError>(NetError::ConnectionClosed)
                && final(self)@ == old(self)@,
            !old(self)@.conns[c as int].closed && old(self)@.conns[c as int].inbox(side).len() == 0 ==> r
                == Ok::<Option<Vec<u8>>, NetError>(None) && final(self)@ == old(self)@,
            ({
                let q = old(self)@.conns[c as int].inbox(side);
                !old(self)@.conns[c as int].closed && q.len() > 0 ==> (r matches Ok(Some(m)) && m@ == q[0]
                    && final(self)@ == old(self)@.with_conn(
                    c as int,
                    old(self)@.conns[c as int].with_inbox(side, q.subrange(1, q.len() as int)),
                ))
            }),
    {
        if self.conns[c].closed {
            return Err(NetError::ConnectionClosed);
        }
        let empty = match side {
            Side::Client => self.conns[c].to_client.len() == 0,
            Side::Server => self.conns[c].to_server.len() == 0,
        };
        if empty {
            return Ok(None);
        }
        let ghost v = self@;
        let mut k = self.conns.remove(c);
        let m = match side {
            Side::Client => k.to_client.remove(0),
            Side::Server => k.to_server.remove(0),
        };
        self.conns.insert(c, k);
        proof {
            let q = v.conns[c as int].inbox(side);
            let kv = v.conns[c as int].with_inbox(side, q.subrange(1, q.len() as int));
            assert(conn_view(k).to_server =~= kv.to_server);
            assert(conn_view(k).to_client =~= kv.to_client);
            assert(self@.conns =~= v.conns.update(c as int, kv));
            assert(self@.endpoints =~= v.endpoints);
        }
        Ok(Some(m))
    }

    /// Closes connection `c`, for both ends: what waits in it is dropped, and
    /// the next send or receive at either end fails with `ConnectionClosed`.
    pub fn close_conn(&mut self, c: usize)
        requires
            old(self).wf(),
            c < old(self)@.conns.len(),
        ensures
            final(self).wf(),
            final(self)@ == old(self)@.with_conn(
                c as int,
                ConnView { closed: true, to_server: Seq::empty(), to_client: Seq::empty(), ..old(self)@.conns[c as int] },
            ),
    {
        let ghost v = self@;
        let k = self.conns.remove(c);
        self.conns.insert(
            c,
            Conn { closed: true, to_server: Vec::new(), to_client: Vec::new(), ..k },
        );
        proof {
            let kv = ConnView { closed: true, to_server: Seq::empty(), to_client: Seq::empty(), ..v.conns[c as int] };
            assert(conn_view(self.conns@[c as int]).to_server =~= kv.to_server);
            assert(conn_view(self.conns@[c as int]).to_client =~= kv.to_client);
            assert(self@.conns =~= v.conns.update(c as int, kv));
            assert(self@.endpoints =~= v.endpoints);
        }
    }
}

/// Partitions are pairwise: while `a` and `b` are cut, nothing `a` sends to
/// `b` or `b` sends to `a` arrives and no connection opens between them,
/// while a send from `a` to an open `c` that is not cut from `a` arrives (when
/// the roll does not lose it) and a connection from `a` to `c` opens.
pub proof fn lemma_partition_is_pairwise(v: NetView, a: Addr, b: Addr, c: Addr, roll: u32)
    requires
        v.wf(),
        v.partitioned(a, b),
        !v.partitioned(a, c),
        v.open_at(a),
        v.open_at(c),
        roll >= v.loss_ppm,
    ensures
        v.send_outcome(a, b, roll) != Outcome::Delivered,
        v.send_outcome(b, a, roll) != Outcome::Delivered,
        v.send_outcome(a, c, roll) == Outcome::Delivered,
        v.open_at(b) ==> v.connect_result(a, b) == Err::<(), NetError>(NetError::Dropped),
        v.connect_result(a, c) == Ok::<(), NetError>(()),
{
    assert(v.partitioned(b, a));
}

/// Cutting `a` from `b` leaves every other pair as it was: after
/// `partition(a, b)`, a pair that shares at most one address with `{a, b}` is
/// cut exactly when it was cut before.
pub proof fn lemma_partition_scoped(v: NetView, a: Addr, b: Addr, x: Addr, y: Addr)
    requires
        !((x == a && y == b) || (x == b && y == a)),
    ensures
        (NetView { cuts: v.cuts.push((a, b)), ..v }).partitioned(x, y) == v.partitioned(x, y),
{
    let w = NetView { cuts: v.cuts.push((a, b)), ..v };
    if v.partitioned(x, y) {
        let i = choose|i: int| 0 <= i < v.cuts.len() && (v.cuts[i] == (x, y) || v.cuts[i] == (y, x));
        assert(w.cuts[i] == v.cuts[i]);
    }
    if w.partitioned(x, y) {
        let i = choose|i: int| 0 <= i < w.cuts.len() && (w.cuts[i] == (x, y) || w.cuts[i] == (y, x));
        assert(i < v.cuts.len());
        assert(w.cuts[i] == v.cuts[i]);
    }
}

} // verus!
