//! One established link to a remote node: its address, its own event scope,
//! and the receiving end of its stream.

use crate::codec::{
    bytes_outcome, decode, decoded, encode, encoded, json_object_fields, json_string_text,
    packet_outcome, CodecError, Packet,
};
use crate::event::{resolve, Dispatch, Event, EventBus};
use crate::stream::{frames_view, splits, FrameReader};
use vstd::prelude::*;

verus! {

/// What triggering `name` on a peer amounts to: the peer's own table decides
/// where it binds the name, and the shared table decides otherwise.
pub open spec fn resolve_scoped<'a, H, P>(
    local: Map<Seq<char>, Event<H>>,
    global: Map<Seq<char>, Event<H>>,
    name: Seq<char>,
    payload: P,
) -> Dispatch<'a, H, P> {
    if local.contains_key(name) {
        resolve(local, name, payload)
    } else {
        resolve(global, name, payload)
    }
}

/// True when `outcomes` are the decodings of `frames`, one for one.
pub open spec fn decoded_all(
    frames: Seq<Seq<u8>>,
    outcomes: Seq<Result<Packet, CodecError>>,
) -> bool {
    &&& outcomes.len() == frames.len()
    &&& forall|k: int|
        0 <= k < frames.len() ==> packet_outcome(#[trigger] outcomes[k]) == decoded(
            json_object_fields(frames[k]),
        )
}

/// One live link.
pub struct Peer<H> {
    id: u64,
    address: String,
    events: EventBus<H>,
    reader: FrameReader,
}

impl<H> Peer<H> {
    /// The number under which the registry knows this peer.
    pub closed spec fn spec_id(&self) -> u64 {
        self.id
    }

    /// The remote address, as text.
    pub closed spec fn spec_address(&self) -> Seq<char> {
        self.address@
    }

    /// The peer's own event table.
    pub closed spec fn local(&self) -> Map<Seq<char>, Event<H>> {
        self.events@
    }

    /// The bytes of the record in progress.
    pub closed spec fn pending(&self) -> Seq<u8> {
        self.reader.pending()
    }

    /// Whether the stream is still open.
    pub closed spec fn is_open(&self) -> bool {
        self.reader.is_open()
    }

    /// The table and the reader are well formed.
    pub closed spec fn wf(&self) -> bool {
        &&& self.events.wf()
        &&& self.reader.wf()
    }

    /// How a peer changes when it hears `chunk`: only its record in progress
    /// moves on, and `outcomes` are the decodings of the records that the
    /// chunk completes, in arrival order. A closed peer hears nothing.
    pub open spec fn heard(
        &self,
        chunk: Seq<u8>,
        outcomes: Seq<Result<Packet, CodecError>>,
        after: Peer<H>,
    ) -> bool {
        &&& after.wf()
        &&& after.spec_id() == self.spec_id()
        &&& after.spec_address() == self.spec_address()
        &&& after.local() == self.local()
        &&& after.is_open() == self.is_open()
        &&& self.is_open() ==> exists|frames: Seq<Seq<u8>>|
            splits(self.pending() + chunk, frames, after.pending()) && decoded_all(
                frames,
                outcomes,
            )
        &&& !self.is_open() ==> outcomes.len() == 0 && after.pending() == self.pending()
    }

    /// A peer on which nothing has been bound and nothing has arrived.
    pub fn new(id: u64, address: String) -> (peer: Peer<H>)
        ensures
            peer.wf(),
            peer.spec_id() == id,
            peer.spec_address() == address@,
            peer.local() == Map::<Seq<char>, Event<H>>::empty(),
            peer.pending() == Seq::<u8>::empty(),
            peer.is_open(),
    {
        Peer { id, address, events: EventBus::new(), reader: FrameReader::new() }
    }

    /// The number under which the registry knows this peer.
    pub fn id(&self) -> (id: u64)
        ensures
            id == self.spec_id(),
    {
        self.id
    }

    /// The remote address, as text.
    pub fn address(&self) -> (address: &String)
        ensures
            address@ == self.spec_address(),
    {
        &self.address
    }

    /// The peer's own event table.
    pub fn events(&self) -> (events: &EventBus<H>)
        requires
            self.wf(),
        ensures
            events.wf(),
            events@ == self.local(),
    {
        &self.events
    }

    /// Whether the stream is still open.
    pub fn open(&self) -> (open: bool)
        ensures
            open == self.is_open(),
    {
        self.reader.open()
    }

    /// Binds `name` in this peer's own table to a fresh slot and returns the
    /// slot, so that a handler can be scoped to this peer's traffic alone.
    pub fn on(&mut self, name: &str) -> (event: &mut Event<H>)
        requires
            old(self).wf(),
        ensures
            event.handler is None,
            final(self).wf(),
            final(self).local() == old(self).local().insert(name@, *final(event)),
            final(self).spec_id() == old(self).spec_id(),
            final(self).spec_address() == old(self).spec_address(),
            final(self).pending() == old(self).pending(),
            final(self).is_open() == old(self).is_open(),
    {
        self.events.bind(name)
    }

    /// Triggers `name` for this peer: its own table first, the shared table
    /// only where its own does not bind the name. A name bound locally to a
    /// slot without a handler is silent and does not fall through.
    pub fn trigger<'a, P>(&'a self, global: &'a EventBus<H>, name: &str, payload: P) -> (r: Dispatch<
        'a,
        H,
        P,
    >)
        requires
            self.wf(),
            global.wf(),
        ensures
            r == resolve_scoped(self.local(), global@, name@, payload),
    {
        match self.events.lookup(name) {
            Some(event) => event.call(payload),
            None => global.trigger(name, payload),
        }
    }

    /// The frame to write on this link for one packet.
    ///
    /// Fails exactly as [`encode`] does; whether the write then succeeds is
    /// for the caller to report.
    pub fn emit(&self, event: String, data: String) -> (r: Result<Vec<u8>, CodecError>)
        ensures
            bytes_outcome(r) == encoded(json_string_text(event@), json_string_text(data@)),
    {
        let packet = Packet { event, data };
        encode(&packet)
    }

    /// Takes the next chunk read from the link and returns the records it
    /// completes, in arrival order. After [`Peer::close`] nothing is returned.
    pub fn receive(&mut self, chunk: &[u8]) -> (frames: Vec<Vec<u8>>)
        requires
            old(self).wf(),
        ensures
            final(self).wf(),
            final(self).spec_id() == old(self).spec_id(),
            final(self).spec_address() == old(self).spec_address(),
            final(self).local() == old(self).local(),
            final(self).is_open() == old(self).is_open(),
            old(self).is_open() ==> splits(
                old(self).pending() + chunk@,
                frames_view(frames@),
                final(self).pending(),
            ),
            !old(self).is_open() ==> frames@.len() == 0 && final(self).pending() == old(
                self,
            ).pending(),
    {
        self.reader.feed(chunk)
    }

    /// Decodes one record. A record that does not decode is reported and is
    /// the only thing lost: the link and its reader are untouched.
    pub fn decode_message(&self, record: &[u8]) -> (r: Result<Packet, CodecError>)
        ensures
            packet_outcome(r) == decoded(json_object_fields(record@)),
    {
        decode(record)
    }

    /// One turn of the reader: takes the next chunk read from the link,
    /// cuts it into records and decodes each. A record that does not decode
    /// yields its error in place and does not disturb the ones after it.
    pub fn listen(&mut self, chunk: &[u8]) -> (outcomes: Vec<Result<Packet, CodecError>>)
        requires
            old(self).wf(),
        ensures
            old(self).heard(chunk@, outcomes@, *final(self)),
    {
        let frames = self.receive(chunk);
        let mut outcomes: Vec<Result<Packet, CodecError>> = Vec::new();
        let mut i: usize = 0;
        while i < frames.len()
            invariant
                i <= frames@.len(),
                outcomes@.len() == i,
                forall|k: int|
                    0 <= k < i ==> packet_outcome(#[trigger] outcomes@[k]) == decoded(
                        json_object_fields(frames@[k]@),
                    ),
            decreases frames.len() - i,
        {
            let outcome = self.decode_message(frames[i].as_slice());
            outcomes.push(outcome);
            i += 1;
        }
        proof {
            if old(self).is_open() {
                assert(decoded_all(frames_view(frames@), outcomes@));
            }
        }
        outcomes
    }

    /// Records that the stream has ended. Returns `true` exactly when it was
    /// open until now: the one occasion on which the disconnect is owed.
    pub fn close(&mut self) -> (was_open: bool)
        requires
            old(self).wf(),
        ensures
            final(self).wf(),
            was_open == old(self).is_open(),
            !final(self).is_open(),
            final(self).pending() == Seq::<u8>::empty(),
            final(self).spec_id() == old(self).spec_id(),
            final(self).spec_address() == old(self).spec_address(),
            final(self).local() == old(self).local(),
    {
        self.reader.close()
    }
}

} // verus!
