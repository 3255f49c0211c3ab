//! The coordinator of one node: its bind address, the shared event table,
//! the registry of live peers, and the decisions taken when a datagram, a
//! connection, a chunk of bytes or an internal notice arrives.
//!
//! Nothing here touches a socket. Each function says what is to be done, and
//! the caller does it and reports back.

use crate::codec::{encode, encoded, json_string_text, CodecError, Packet};
use crate::discovery::{
    endpoint, endpoint_parts, endpoint_text, parse_endpoint, payload_of, port_from_payload,
    port_of, port_payload, DISCOVERY_SOURCE_PORT,
};
use crate::event::{resolve, Dispatch, Event, EventBus};
use crate::peer::{resolve_scoped, Peer};
use vstd::prelude::*;

verus! {

/// A message for the dispatcher, one variant per kind.
#[derive(Clone, Debug, PartialEq, Eq)]
pub enum Notice {
    /// A link was established and its peer registered.
    Connect { peer: u64 },
    /// A peer's stream ended.
    Disconnect { peer: u64 },
    /// A node asks to be connected to; `endpoint` is its `ip:port`.
    Request { endpoint: String },
    /// A packet arrived from a peer.
    Packet { peer: u64, event: String, data: String },
}

/// The one argument a handler is called with.
#[derive(Clone, Debug, PartialEq, Eq)]
pub enum Argument {
    /// The `data` of a packet, or the endpoint of a request.
    Data(String),
    /// The peer that connected or disconnected.
    Peer(u64),
}

/// What the dispatcher owes for one notice: at most one handler call, and
/// at most one outbound connection.
pub struct Step<'a, H> {
    pub call: Dispatch<'a, H, Argument>,
    pub connect: Option<(String, u16)>,
}

/// The discovery datagram to send.
#[derive(Clone, Debug, PartialEq, Eq)]
pub struct Datagram {
    pub source_port: u16,
    pub ip: String,
    pub port: u16,
    pub payload: Vec<u8>,
}

/// The loops that `serve` asks for.
#[derive(Clone, Copy, Debug, PartialEq, Eq, Structural)]
pub struct Plan {
    pub dispatcher: bool,
    pub tcp_accept: bool,
    pub udp_discovery: bool,
}

/// One frame and the peers it is to be written to.
#[derive(Clone, Debug, PartialEq, Eq)]
pub struct Broadcast {
    pub frame: Vec<u8>,
    pub recipients: Vec<u64>,
}

/// The name under which a new link is announced.
pub open spec fn connect_name() -> Seq<char> {
    "connect"@
}

/// The name under which the end of a link is announced.
pub open spec fn disconnect_name() -> Seq<char> {
    "disconnect"@
}

/// The name under which a node asks to be connected to.
pub open spec fn request_name() -> Seq<char> {
    "connection_request"@
}

/// The identifiers of a list of peers, in order.
pub open spec fn ids_of<H>(peers: Seq<Peer<H>>) -> Seq<u64> {
    Seq::new(peers.len(), |k: int| peers[k].spec_id())
}

/// True when a peer with this identifier is listed.
pub open spec fn listed<H>(peers: Seq<Peer<H>>, id: u64) -> bool {
    exists|k: int| 0 <= k < peers.len() && #[trigger] peers[k].spec_id() == id
}

/// The own event table of the listed peer with this identifier; the empty
/// table where none is listed.
pub open spec fn local_of<H>(peers: Seq<Peer<H>>, id: u64) -> Map<Seq<char>, Event<H>> {
    if listed(peers, id) {
        peers[choose|k: int| 0 <= k < peers.len() && #[trigger] peers[k].spec_id() == id].local()
    } else {
        Map::empty()
    }
}

/// True when an optional connection target is the one that `parts` gives.
pub open spec fn targets(connect: Option<(String, u16)>, parts: Option<(Seq<char>, u16)>) -> bool {
    match (connect, parts) {
        (Some((ip, port)), Some((address, number))) => ip@ == address && port == number,
        (None, None) => true,
        _ => false,
    }
}

/// What the dispatcher owes for a request to connect to `endpoint`.
pub open spec fn request_step<'a, H>(
    global: Map<Seq<char>, Event<H>>,
    endpoint: String,
    step: Step<'a, H>,
) -> bool {
    &&& step.call == resolve(global, request_name(), Argument::Data(endpoint))
    &&& targets(step.connect, endpoint_parts(endpoint@))
}

/// What the dispatcher owes for `notice`, given the shared table and the
/// registry.
pub open spec fn owed<'a, H>(
    global: Map<Seq<char>, Event<H>>,
    peers: Seq<Peer<H>>,
    notice: Notice,
    step: Step<'a, H>,
) -> bool {
    match notice {
        Notice::Connect { peer } => {
            &&& step.call == resolve(global, connect_name(), Argument::Peer(peer))
            &&& step.connect is None
        },
        Notice::Disconnect { peer } => {
            &&& step.call == resolve(global, disconnect_name(), Argument::Peer(peer))
            &&& step.connect is None
        },
        Notice::Request { endpoint } => request_step(global, endpoint, step),
        Notice::Packet { peer, event, data } => if event@ == request_name() {
            request_step(global, data, step)
        } else {
            &&& step.call == resolve_scoped(
                local_of(peers, peer),
                global,
                event@,
                Argument::Data(data),
            )
            &&& step.connect is None
        },
    }
}

/// The peers that stay after the ones named in `failed` are dropped, in
/// their old order.
pub open spec fn kept<H>(peers: Seq<Peer<H>>, failed: Seq<u64>) -> Seq<Peer<H>> {
    peers.filter(|p: Peer<H>| !failed.contains(p.spec_id()))
}

/// True when `call` is what triggering the request name on `global` owes,
/// with the text `endpoint` as its argument.
pub open spec fn announces<'a, H>(
    call: Dispatch<'a, H, Argument>,
    global: Map<Seq<char>, Event<H>>,
    endpoint: Seq<char>,
) -> bool {
    match resolve(global, request_name(), ()) {
        Dispatch::Unbound => call is Unbound,
        Dispatch::Silent => call is Silent,
        Dispatch::Invoke { handler: owed, .. } => match call {
            Dispatch::Invoke { handler, payload: Argument::Data(text) } => handler == owed && text@
                == endpoint,
            _ => false,
        },
    }
}

/// True when `after` is `before` with `name` bound to `event` in the own
/// table of the peer `id`, and nothing else changed.
pub open spec fn rebound<H>(
    before: Seq<Peer<H>>,
    after: Seq<Peer<H>>,
    id: u64,
    name: Seq<char>,
    event: Event<H>,
) -> bool {
    exists|k: int|
        {
            &&& 0 <= k < before.len()
            &&& (#[trigger] before[k]).spec_id() == id
            &&& after.len() == before.len()
            &&& after[k].spec_id() == id
            &&& after[k].spec_address() == before[k].spec_address()
            &&& after[k].pending() == before[k].pending()
            &&& after[k].local() == before[k].local().insert(name, event)
            &&& forall|j: int| 0 <= j < before.len() && j != k ==> after[j] == before[j]
        }
}

/// A freshly registered peer: the given identifier and address, nothing
/// bound, nothing received, stream open.
pub open spec fn fresh<H>(peer: Peer<H>, id: u64, address: Seq<char>) -> bool {
    &&& peer.wf()
    &&& peer.spec_id() == id
    &&& peer.spec_address() == address
    &&& peer.local() == Map::<Seq<char>, Event<H>>::empty()
    &&& peer.pending() == Seq::<u8>::empty()
    &&& peer.is_open()
}

/// After a broadcast, a peer is registered exactly when it was registered
/// before and the write to it did not fail.
pub proof fn lemma_prune_keeps_exactly_delivered<H>(peers: Seq<Peer<H>>, failed: Seq<u64>, id: u64)
    ensures
        listed(kept(peers, failed), id) <==> listed(peers, id) && !failed.contains(id),
{
    let pred = |p: Peer<H>| !failed.contains(p.spec_id());
    let after = peers.filter(pred);
    if listed(after, id) {
        let k = choose|k: int| 0 <= k < after.len() && #[trigger] after[k].spec_id() == id;
        peers.lemma_filter_pred(pred, k);
        assert(after.contains(after[k]));
        peers.lemma_filter_contains_rev(pred, after[k]);
        let j = choose|j: int| 0 <= j < peers.len() && peers[j] == after[k];
        assert(peers[j].spec_id() == id);
    }
    if listed(peers, id) && !failed.contains(id) {
        let j = choose|j: int| 0 <= j < peers.len() && #[trigger] peers[j].spec_id() == id;
        assert(pred(peers[j]));
        peers.lemma_filter_contains(pred, j);
        let k = choose|k: int| 0 <= k < after.len() && after[k] == peers[j];
        assert(after[k].spec_id() == id);
    }
}

/// True when two texts are equal.
fn same_text(a: &str, b: &str) -> (same: bool)
    ensures
        same == (a@ == b@),
{
    let left = a.to_owned();
    let right = b.to_owned();
    left == right
}

/// True when `id` occurs in `ids`.
fn holds(ids: &[u64], id: u64) -> (found: bool)
    ensures
        found == ids@.contains(id),
{
    let mut i: usize = 0;
    while i < ids.len()
        invariant
            i <= ids.len(),
            forall|j: int| 0 <= j < i ==> ids@[j] != id,
        decreases ids.len() - i,
    {
        if ids[i] == id {
            return true;
        }
        i += 1;
    }
    false
}

/// The coordinator of one node.
pub struct Network<H> {
    ip: String,
    port: u16,
    events: EventBus<H>,
    peers: Vec<Peer<H>>,
    next_id: u64,
    listening: bool,
}

impl<H> Network<H> {
    /// The address the node binds.
    pub closed spec fn spec_ip(&self) -> Seq<char> {
        self.ip@
    }

    /// The port the node binds, for TCP and for UDP.
    pub closed spec fn spec_port(&self) -> u16 {
        self.port
    }

    /// The shared event table.
    pub closed spec fn global(&self) -> Map<Seq<char>, Event<H>> {
        self.events@
    }

    /// The live peers, oldest first.
    pub closed spec fn registry(&self) -> Seq<Peer<H>> {
        self.peers@
    }

    /// The identifier that the next peer will get.
    pub closed spec fn spec_next_id(&self) -> u64 {
        self.next_id
    }

    /// Whether `serve` has been called.
    pub closed spec fn is_listening(&self) -> bool {
        self.listening
    }

    /// The table and every peer are well formed, every peer's stream is
    /// open, and every peer has an identifier of its own, lower than the
    /// next one to be given.
    pub closed spec fn wf(&self) -> bool {
        &&& self.events.wf()
        &&& forall|k: int| 0 <= k < self.peers@.len() ==> (#[trigger] self.peers@[k]).wf()
        &&& forall|k: int| 0 <= k < self.peers@.len() ==> (#[trigger] self.peers@[k]).is_open()
        &&& forall|k: int|
            0 <= k < self.peers@.len() ==> (#[trigger] self.peers@[k]).spec_id() < self.next_id
        &&& forall|j: int, k: int|
            0 <= j < k < self.peers@.len() ==> (#[trigger] self.peers@[j]).spec_id() != (
            #[trigger] self.peers@[k]).spec_id()
    }

    /// Identifiers are given in rising order and never twice: every
    /// registered peer has one below the next to be given, and no two peers
    /// share one.
    pub proof fn lemma_identifiers(&self)
        requires
            self.wf(),
        ensures
            forall|id: u64| listed(self.registry(), id) ==> id < self.spec_next_id(),
            forall|j: int, k: int|
                0 <= j < k < self.registry().len() ==> self.registry()[j].spec_id()
                    != self.registry()[k].spec_id(),
    {
    }

    /// A node that is idle: nothing bound, nobody registered.
    pub fn new(ip: String, port: u16) -> (network: Network<H>)
        ensures
            network.wf(),
            network.spec_ip() == ip@,
            network.spec_port() == port,
            network.global() == Map::<Seq<char>, Event<H>>::empty(),
            network.registry() == Seq::<Peer<H>>::empty(),
            network.spec_next_id() == 0,
            !network.is_listening(),
    {
        Network {
            ip,
            port,
            events: EventBus::new(),
            peers: Vec::new(),
            next_id: 0,
            listening: false,
        }
    }

    /// The address the node binds.
    pub fn ip(&self) -> (ip: &String)
        ensures
            ip@ == self.spec_ip(),
    {
        &self.ip
    }

    /// The port the node binds.
    pub fn port(&self) -> (port: u16)
        ensures
            port == self.spec_port(),
    {
        self.port
    }

    /// Whether `serve` has been called.
    pub fn listening(&self) -> (listening: bool)
        ensures
            listening == self.is_listening(),
    {
        self.listening
    }

    /// The shared event table.
    pub fn events(&self) -> (events: &EventBus<H>)
        requires
            self.wf(),
        ensures
            events.wf(),
            events@ == self.global(),
    {
        &self.events
    }

    /// The identifiers of the live peers, oldest first.
    pub fn peer_ids(&self) -> (ids: Vec<u64>)
        ensures
            ids@ == ids_of(self.registry()),
    {
        let mut ids: Vec<u64> = Vec::new();
        let mut i: usize = 0;
        while i < self.peers.len()
            invariant
                i <= self.peers@.len(),
                ids@ == ids_of(self.peers@.subrange(0, i as int)),
            decreases self.peers.len() - i,
        {
            ids.push(self.peers[i].id());
            i += 1;
            assert(ids@ =~= ids_of(self.peers@.subrange(0, i as int)));
        }
        assert(self.peers@.subrange(0, self.peers@.len() as int) =~= self.peers@);
        ids
    }

    /// The position of the peer with this identifier, if it is registered.
    fn position(&self, id: u64) -> (r: Option<usize>)
        ensures
            r matches Some(k) ==> k < self.peers@.len() && self.peers@[k as int].spec_id() == id,
            r is None ==> !listed(self.peers@, id),
    {
        let mut i: usize = 0;
        while i < self.peers.len()
            invariant
                i <= self.peers@.len(),
                forall|j: int| 0 <= j < i ==> (#[trigger] self.peers@[j]).spec_id() != id,
            decreases self.peers.len() - i,
        {
            if self.peers[i].id() == id {
                return Some(i);
            }
            i += 1;
        }
        None
    }

    /// The live peer with this identifier, if there is one.
    pub fn peer(&self, id: u64) -> (r: Option<&Peer<H>>)
        requires
            self.wf(),
        ensures
            r is Some <==> listed(self.registry(), id),
            r matches Some(peer) ==> peer.wf() && peer.spec_id() == id && self.registry().contains(
                *peer,
            ),
    {
        match self.position(id) {
            Some(k) => Some(&self.peers[k]),
            None => None,
        }
    }

    /// Binds `name` in the shared table to a fresh slot and returns the slot.
    pub fn on(&mut self, name: &str) -> (event: &mut Event<H>)
        requires
            old(self).wf(),
        ensures
            event.handler is None,
            final(self).wf(),
            final(self).global() == old(self).global().insert(name@, *final(event)),
            final(self).registry() == old(self).registry(),
            final(self).spec_ip() == old(self).spec_ip(),
            final(self).spec_port() == old(self).spec_port(),
            final(self).spec_next_id() == old(self).spec_next_id(),
            final(self).is_listening() == old(self).is_listening(),
    {
        self.events.bind(name)
    }

    /// Binds `name` in the own table of the registered peer `id` to a fresh
    /// slot and returns the slot. Returns `None`, and changes nothing, exactly
    /// when no such peer is registered.
    pub fn peer_on(&mut self, id: u64, name: &str) -> (r: Option<&mut Event<H>>)
        requires
            old(self).wf(),
        ensures
            final(self).wf(),
            final(self).global() == old(self).global(),
            final(self).spec_ip() == old(self).spec_ip(),
            final(self).spec_port() == old(self).spec_port(),
            final(self).spec_next_id() == old(self).spec_next_id(),
            final(self).is_listening() == old(self).is_listening(),
            r is Some <==> listed(old(self).registry(), id),
            r is None ==> final(self).registry() == old(self).registry(),
            r matches Some(event) ==> event.handler is None && rebound(
                old(self).registry(),
                final(self).registry(),
                id,
                name@,
                *final(event),
            ),
    {
        match self.position(id) {
            Some(k) => Some(self.peers[k].on(name)),
            None => None,
        }
    }

    /// The discovery half of the rendezvous: the one datagram to send to
    /// `(ip, port)`. Its payload announces this node's own listening port.
    pub fn connect(&self, ip: String, port: u16) -> (datagram: Datagram)
        ensures
            datagram.source_port == DISCOVERY_SOURCE_PORT,
            datagram.ip == ip,
            datagram.port == port,
            datagram.payload@ == payload_of(self.spec_port()),
    {
        Datagram { source_port: DISCOVERY_SOURCE_PORT, ip, port, payload: port_payload(self.port) }
    }

    /// Moves the node from idle to listening and names the loops to start:
    /// always the dispatcher, and the accept and discovery loops as asked.
    pub fn serve(&mut self, tcp: bool, udp: bool) -> (plan: Plan)
        requires
            old(self).wf(),
        ensures
            plan == (Plan { dispatcher: true, tcp_accept: tcp, udp_discovery: udp }),
            final(self).wf(),
            final(self).is_listening(),
            final(self).global() == old(self).global(),
            final(self).registry() == old(self).registry(),
            final(self).spec_ip() == old(self).spec_ip(),
            final(self).spec_port() == old(self).spec_port(),
            final(self).spec_next_id() == old(self).spec_next_id(),
    {
        self.listening = true;
        Plan { dispatcher: true, tcp_accept: tcp, udp_discovery: udp }
    }

    /// One turn of the accept loop: registers the peer of a link that was
    /// just established, under the next free identifier, and returns the
    /// notice that announces it.
    ///
    /// Returns `None`, and changes nothing, exactly when the identifiers are
    /// used up.
    pub fn tcp_server(&mut self, address: String) -> (r: Option<Notice>)
        requires
            old(self).wf(),
        ensures
            final(self).wf(),
            final(self).global() == old(self).global(),
            final(self).spec_ip() == old(self).spec_ip(),
            final(self).spec_port() == old(self).spec_port(),
            final(self).is_listening() == old(self).is_listening(),
            old(self).spec_next_id() == u64::MAX ==> r is None && final(self).registry() == old(
                self,
            ).registry() && final(self).spec_next_id() == old(self).spec_next_id(),
            old(self).spec_next_id() < u64::MAX ==> {
                &&& r == Some(Notice::Connect { peer: old(self).spec_next_id() })
                &&& !listed(old(self).registry(), old(self).spec_next_id())
                &&& final(self).spec_next_id() == old(self).spec_next_id() + 1
                &&& final(self).registry().len() == old(self).registry().len() + 1
                &&& final(self).registry().drop_last() == old(self).registry()
                &&& fresh(final(self).registry().last(), old(self).spec_next_id(), address@)
            },
    {
        if self.next_id == u64::MAX {
            return None;
        }
        let id: u64 = self.next_id;
        let ghost before = self.peers@;
        self.peers.push(Peer::new(id, address));
        self.next_id = id + 1;
        assert(self.peers@.drop_last() =~= before);
        Some(Notice::Connect { peer: id })
    }

    /// Registers the peer of an outbound link to `(ip, port)`; its address is
    /// the text `ip:port`. Otherwise as [`Network::tcp_server`].
    pub fn tcp_connect(&mut self, ip: &str, port: u16) -> (r: Option<Notice>)
        requires
            old(self).wf(),
        ensures
            final(self).wf(),
            final(self).global() == old(self).global(),
            final(self).spec_ip() == old(self).spec_ip(),
            final(self).spec_port() == old(self).spec_port(),
            final(self).is_listening() == old(self).is_listening(),
            old(self).spec_next_id() == u64::MAX ==> r is None && final(self).registry() == old(
                self,
            ).registry() && final(self).spec_next_id() == old(self).spec_next_id(),
            old(self).spec_next_id() < u64::MAX ==> {
                &&& r == Some(Notice::Connect { peer: old(self).spec_next_id() })
                &&& !listed(old(self).registry(), old(self).spec_next_id())
                &&& final(self).spec_next_id() == old(self).spec_next_id() + 1
                &&& final(self).registry().len() == old(self).registry().len() + 1
                &&& final(self).registry().drop_last() == old(self).registry()
                &&& fresh(
                    final(self).registry().last(),
                    old(self).spec_next_id(),
                    endpoint_text(ip@, port),
                )
            },
    {
        self.tcp_server(endpoint(ip, port))
    }

    /// One turn of the discovery loop: what a datagram from `sender_ip` with
    /// this payload calls for. The request is announced on the shared table
    /// with the text `ip:port` as its argument, and a connection back to the
    /// sender, on the port that the payload announces, is owed at once.
    pub fn udp_server(&self, sender_ip: &str, payload: &[u8]) -> (step: Step<'_, H>)
        requires
            self.wf(),
        ensures
            announces(
                step.call,
                self.global(),
                endpoint_text(sender_ip@, port_of(payload@) as u16),
            ),
            step.connect matches Some((ip, port)) && ip@ == sender_ip@ && port == port_of(
                payload@,
            ),
    {
        let port: u16 = port_from_payload(payload);
        let text = endpoint(sender_ip, port);
        let call = self.events.trigger("connection_request", Argument::Data(text));
        Step { call, connect: Some((sender_ip.to_owned(), port)) }
    }

    /// The first half of a broadcast: the frame for one packet and the peers
    /// to write it to, oldest first. Fails exactly as [`encode`] does, and
    /// then nothing is to be written.
    pub fn emit(&self, event: String, data: String) -> (r: Result<Broadcast, CodecError>)
        ensures
            match encoded(json_string_text(event@), json_string_text(data@)) {
                Ok(frame) => r matches Ok(broadcast) && broadcast.frame@ == frame
                    && broadcast.recipients@ == ids_of(self.registry()),
                Err(e) => r matches Err(reported) && reported == e,
            },
    {
        let packet = Packet { event, data };
        match encode(&packet) {
            Ok(frame) => Ok(Broadcast { frame, recipients: self.peer_ids() }),
            Err(e) => Err(e),
        }
    }

    /// The second half of a broadcast: drops every peer to which the write
    /// failed. The others stay, in their order.
    pub fn prune(&mut self, failed: &[u64])
        requires
            old(self).wf(),
        ensures
            final(self).wf(),
            final(self).registry() == kept(old(self).registry(), failed@),
            forall|id: u64|
                listed(final(self).registry(), id) <==> listed(old(self).registry(), id)
                    && !failed@.contains(id),
            final(self).global() == old(self).global(),
            final(self).spec_ip() == old(self).spec_ip(),
            final(self).spec_port() == old(self).spec_port(),
            final(self).spec_next_id() == old(self).spec_next_id(),
            final(self).is_listening() == old(self).is_listening(),
    {
        let ghost before = self.peers@;
        let ghost pred = |p: Peer<H>| !failed@.contains(p.spec_id());
        let ghost mut k: int = 0;
        let mut i: usize = 0;
        assert(before.subrange(0, 0).filter(pred) =~= Seq::<Peer<H>>::empty()) by {
            reveal(Seq::filter);
        }
        assert(self.peers@.subrange(0, 0) =~= Seq::<Peer<H>>::empty());
        assert(self.peers@.subrange(0, self.peers@.len() as int) =~= before);
        assert(before.subrange(0, before.len() as int) =~= before);
        while i < self.peers.len()
            invariant
                self.wf(),
                0 <= i <= self.peers@.len(),
                0 <= k <= before.len(),
                self.peers@.len() - i == before.len() - k,
                pred == (|p: Peer<H>| !failed@.contains(p.spec_id())),
                self.peers@.subrange(0, i as int) == before.subrange(0, k).filter(pred),
                self.peers@.subrange(i as int, self.peers@.len() as int) == before.subrange(
                    k,
                    before.len() as int,
                ),
                self.events@ == old(self).events@,
                self.ip@ == old(self).ip@,
                self.port == old(self).port,
                self.next_id == old(self).next_id,
                self.listening == old(self).listening,
            decreases self.peers@.len() - i,
        {
            let ghost current = self.peers@;
            let ghost tail = current.subrange(i as int, current.len() as int);
            assert(tail[0] == before.subrange(k, before.len() as int)[0]);
            assert(current[i as int] == before[k]);
            assert(before.subrange(0, k + 1).drop_last() =~= before.subrange(0, k));
            assert(before.subrange(0, k + 1).last() == before[k]);
            assert(before.subrange(0, k + 1).filter(pred) == if pred(before[k]) {
                before.subrange(0, k).filter(pred).push(before[k])
            } else {
                before.subrange(0, k).filter(pred)
            }) by {
                reveal(Seq::filter);
            }
            if holds(failed, self.peers[i].id()) {
                self.peers.remove(i);
                assert(self.peers@.subrange(0, i as int) =~= current.subrange(0, i as int));
                assert(self.peers@.subrange(i as int, self.peers@.len() as int) =~= tail.subrange(
                    1,
                    tail.len() as int,
                ));
                assert(tail.subrange(1, tail.len() as int) =~= before.subrange(
                    k + 1,
                    before.len() as int,
                ));
                assert forall|j: int| 0 <= j < self.peers@.len() implies (
                #[trigger] self.peers@[j]).wf() && self.peers@[j].is_open()
                    && self.peers@[j].spec_id() < self.next_id by {
                    if j < i {
                        assert(self.peers@[j] == current[j]);
                    } else {
                        assert(self.peers@[j] == current[j + 1]);
                    }
                }
                assert forall|a: int, b: int| 0 <= a < b < self.peers@.len() implies (
                #[trigger] self.peers@[a]).spec_id() != (#[trigger] self.peers@[b]).spec_id() by {
                    let a0 = if a < i { a } else { a + 1 };
                    let b0 = if b < i { b } else { b + 1 };
                    assert(self.peers@[a] == current[a0]);
                    assert(self.peers@[b] == current[b0]);
                }
            } else {
                i += 1;
                assert(self.peers@.subrange(0, i as int) =~= current.subrange(0, i - 1).push(
                    current[i - 1],
                ));
                assert(self.peers@.subrange(i as int, self.peers@.len() as int) =~= tail.subrange(
                    1,
                    tail.len() as int,
                ));
                assert(tail.subrange(1, tail.len() as int) =~= before.subrange(
                    k + 1,
                    before.len() as int,
                ));
            }
            proof {
                k = k + 1;
            }
        }
        assert(self.peers@.subrange(0, i as int) =~= self.peers@);
        assert(before.subrange(0, k) =~= before);
        proof {
            assert forall|id: u64|
                listed(self.peers@, id) <==> listed(before, id) && !failed@.contains(id) by {
                lemma_prune_keeps_exactly_delivered(before, failed@, id);
            }
        }
    }

    /// One turn of a peer's reader: hands the chunk to the registered peer
    /// `id` and returns what it decodes. For an identifier that is not
    /// registered nothing is returned and nothing changes.
    pub fn received(&mut self, id: u64, chunk: &[u8]) -> (outcomes: Vec<Result<Packet, CodecError>>)
        requires
            old(self).wf(),
        ensures
            final(self).wf(),
            final(self).global() == old(self).global(),
            final(self).spec_ip() == old(self).spec_ip(),
            final(self).spec_port() == old(self).spec_port(),
            final(self).spec_next_id() == old(self).spec_next_id(),
            final(self).is_listening() == old(self).is_listening(),
            !listed(old(self).registry(), id) ==> outcomes@.len() == 0 && final(self).registry()
                == old(self).registry(),
            listed(old(self).registry(), id) ==> exists|k: int|
                0 <= k < old(self).registry().len() && (#[trigger] old(self).registry()[k]).spec_id()
                    == id && old(self).registry()[k].heard(
                    chunk@,
                    outcomes@,
                    final(self).registry()[k],
                ) && final(self).registry() == old(self).registry().update(
                    k,
                    final(self).registry()[k],
                ),
    {
        match self.position(id) {
            Some(k) => {
                let ghost before = self.peers@;
                let outcomes = self.peers[k].listen(chunk);
                assert(self.peers@ =~= before.update(k as int, self.peers@[k as int]));
                assert(before[k as int].heard(chunk@, outcomes@, self.peers@[k as int]));
                outcomes
            },
            None => Vec::new(),
        }
    }

    /// Records that the stream of peer `id` has ended: the peer leaves the
    /// registry, and the notice of its disconnect is returned.
    ///
    /// Returns `None`, and changes nothing, exactly when no such peer is
    /// registered; so the end of one link is announced once.
    pub fn closed(&mut self, id: u64) -> (r: Option<Notice>)
        requires
            old(self).wf(),
        ensures
            final(self).wf(),
            r == (if listed(old(self).registry(), id) {
                Some(Notice::Disconnect { peer: id })
            } else {
                None
            }),
            final(self).registry() == kept(old(self).registry(), seq![id]),
            !listed(final(self).registry(), id),
            final(self).global() == old(self).global(),
            final(self).spec_ip() == old(self).spec_ip(),
            final(self).spec_port() == old(self).spec_port(),
            final(self).spec_next_id() == old(self).spec_next_id(),
            final(self).is_listening() == old(self).is_listening(),
    {
        let was_listed = self.position(id).is_some();
        let gone: Vec<u64> = vec![id];
        assert(gone@ =~= seq![id]);
        assert(seq![id].contains(id)) by {
            assert(seq![id][0] == id);
        }
        self.prune(gone.as_slice());
        if was_listed {
            Some(Notice::Disconnect { peer: id })
        } else {
            None
        }
    }

    /// What a request to connect to `endpoint` calls for.
    fn request(&self, endpoint: String) -> (step: Step<'_, H>)
        requires
            self.wf(),
        ensures
            request_step(self.global(), endpoint, step),
    {
        let connect = parse_endpoint(endpoint.as_str());
        let call = self.events.trigger("connection_request", Argument::Data(endpoint));
        Step { call, connect }
    }

    /// One turn of the dispatcher: what `notice` calls for.
    ///
    /// A connect or a disconnect is announced on the shared table with the
    /// peer as argument. A request, and a packet named as one, is announced
    /// on the shared table and calls for a connection to the endpoint it
    /// carries, where that reads as `ip:port`. Any other packet is triggered
    /// for its peer: the peer's own table first, then the shared one.
    pub fn dispatch(&self, notice: Notice) -> (step: Step<'_, H>)
        requires
            self.wf(),
        ensures
            owed(self.global(), self.registry(), notice, step),
    {
        match notice {
            Notice::Connect { peer } => Step {
                call: self.events.trigger("connect", Argument::Peer(peer)),
                connect: None,
            },
            Notice::Disconnect { peer } => Step {
                call: self.events.trigger("disconnect", Argument::Peer(peer)),
                connect: None,
            },
            Notice::Request { endpoint } => self.request(endpoint),
            Notice::Packet { peer, event, data } => {
                if same_text(event.as_str(), "connection_request") {
                    self.request(data)
                } else {
                    match self.position(peer) {
                        Some(k) => {
                            Step {
                                call: self.peers[k].trigger(
                                    &self.events,
                                    event.as_str(),
                                    Argument::Data(data),
                                ),
                                connect: None,
                            }
                        },
                        None => Step {
                            call: self.events.trigger(event.as_str(), Argument::Data(data)),
                            connect: None,
                        },
                    }
                }
            },
        }
    }
}

} // verus!
