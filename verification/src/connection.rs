//! The per-connection protocol: a credential first, then the stream.
//!
//! A client sends its credential, closed by a zero byte. If the configured
//! key is a prefix of what it sent, the connection subscribes to the bus and
//! from then on every frame that the bus holds for it is written to the
//! client. Anything else ends the connection without an answer. Reading and
//! writing are left to the caller, which reports what it read and asks what
//! to write next.

use vstd::prelude::*;
use crate::bus::{BusError, EventBus, Subscription};
use crate::frame::Frame;

verus! {

/// The byte that closes a credential on the wire.
pub const CREDENTIAL_END: u8 = 0x00;

/// Whether `candidate` authenticates against `key`: `key` is a prefix of it.
/// What follows the key in `candidate`, the closing byte among it, is not
/// looked at.
pub open spec fn accepts(key: Seq<u8>, candidate: Seq<u8>) -> bool {
    key.len() <= candidate.len() && forall|i: int| 0 <= i < key.len() ==> candidate[i] == key[i]
}

/// Whether `candidate` authenticates against `key`.
pub fn authenticate(candidate: &[u8], key: &[u8]) -> (ok: bool)
    ensures
        ok == accepts(key@, candidate@),
{
    let len: usize = key.len();
    if candidate.len() < len {
        return false;
    }
    let mut i: usize = 0;
    while i < len
        invariant
            i <= len,
            len == key@.len(),
            len <= candidate@.len(),
            forall|j: int| 0 <= j < i ==> candidate@[j] == key@[j],
        decreases len - i,
    {
        if candidate[i] != key[i] {
            return false;
        }
        i += 1;
    }
    true
}

/// Where a connection stands.
#[derive(Debug)]
pub enum Connection {
    /// Nothing was read yet.
    AwaitingCredential,
    /// The client authenticated and holds a subscription.
    Streaming(Subscription),
    /// The connection is over and holds nothing.
    Closed,
}

/// What a streaming connection does next.
#[derive(Clone, Copy, Debug)]
pub enum Delivery {
    /// Write the meaningful bytes of this frame to the client.
    Send(Frame),
    /// Nothing waits yet: wait for the bus and ask again.
    Wait,
    /// Nothing more will come: the connection is over.
    End,
}

impl Connection {
    /// A connection on which nothing was read yet.
    pub fn new() -> (connection: Connection)
        ensures
            connection is AwaitingCredential,
    {
        Connection::AwaitingCredential
    }

    /// Whether the connection holds a subscription.
    pub fn is_streaming(&self) -> (b: bool)
        ensures
            b == (self is Streaming),
    {
        match self {
            Connection::Streaming(_) => true,
            _ => false,
        }
    }

    /// Whether the connection is over.
    pub fn is_closed(&self) -> (b: bool)
        ensures
            b == (self is Closed),
    {
        match self {
            Connection::Closed => true,
            _ => false,
        }
    }

    /// Takes the credential that was read from the client. A connection that
    /// awaits it subscribes to the bus if the credential authenticates and is
    /// over if it does not; the bus is then not touched. On a connection that
    /// does not await a credential this changes nothing.
    pub fn credential_read(self, candidate: &[u8], key: &[u8], bus: &mut EventBus) -> (next:
        Connection)
        ensures
            self is AwaitingCredential && accepts(key@, candidate@) ==> {
                &&& next matches Connection::Streaming(sub)
                &&& old(bus)@.next_free(sub@)
                &&& final(bus)@ == old(bus)@.subscribe(sub@)
            },
            self is AwaitingCredential && !accepts(key@, candidate@) ==> {
                &&& next is Closed
                &&& final(bus)@ == old(bus)@
            },
            !(self is AwaitingCredential) ==> next == self && final(bus)@ == old(bus)@,
    {
        match self {
            Connection::AwaitingCredential => {
                if authenticate(candidate, key) {
                    Connection::Streaming(bus.subscribe())
                } else {
                    Connection::Closed
                }
            },
            other => other,
        }
    }

    /// Ends the connection, for instance after a failed read or write, and
    /// gives up the subscription if it holds one.
    pub fn close(self, bus: &mut EventBus) -> (next: Connection)
        ensures
            next is Closed,
            self matches Connection::Streaming(sub) ==> final(bus)@ == old(bus)@.release(sub@),
            !(self is Streaming) ==> final(bus)@ == old(bus)@,
    {
        match self {
            Connection::Streaming(sub) => {
                bus.unsubscribe(sub);
            },
            _ => {},
        }
        Connection::Closed
    }

    /// Says what a connection does next and takes the frame to send, if
    /// there is one, out of its queue. A streaming connection sends the oldest
    /// frame that waits for it, waits if there is none yet, and is over, its
    /// subscription given up, once the bus is closed and drained. A connection
    /// that does not stream has nothing to deliver.
    pub fn next_delivery(self, bus: &mut EventBus) -> (r: (Connection, Delivery))
        ensures
            !(self is Streaming) ==> r.0 == self && r.1 is End && final(bus)@ == old(bus)@,
            self matches Connection::Streaming(sub) ==> {
                let before = old(bus)@;
                if !before.live(sub@) {
                    r.0 is Closed && r.1 is End && final(bus)@ == before
                } else if before.pending(sub@).len() > 0 {
                    &&& r.0 == self
                    &&& r.1 matches Delivery::Send(frame)
                    &&& frame@ == before.pending(sub@)[0]
                    &&& final(bus)@ == before.take(sub@)
                } else if before.closed {
                    r.0 is Closed && r.1 is End && final(bus)@ == before.release(sub@)
                } else {
                    r.0 == self && r.1 is Wait && final(bus)@ == before
                }
            },
    {
        match self {
            Connection::Streaming(sub) => {
                match bus.recv(&sub) {
                    Ok(Some(frame)) => (Connection::Streaming(sub), Delivery::Send(frame)),
                    Ok(None) => (Connection::Streaming(sub), Delivery::Wait),
                    Err(_) => {
                        bus.unsubscribe(sub);
                        (Connection::Closed, Delivery::End)
                    },
                }
            },
            other => (other, Delivery::End),
        }
    }
}

/// The boundary of authentication. The key itself authenticates, and so does
/// the key followed by anything. A candidate that is shorter than the key, or
/// that differs from it at a position within the key, does not.
pub proof fn lemma_auth_boundary(key: Seq<u8>, candidate: Seq<u8>, extension: Seq<u8>)
    ensures
        accepts(key, key),
        accepts(key, key + extension),
        candidate.len() < key.len() ==> !accepts(key, candidate),
        (exists|i: int| 0 <= i < key.len() && i < candidate.len() && candidate[i] != key[i])
            ==> !accepts(key, candidate),
        accepts(key, candidate) <==> candidate == key + candidate.skip(key.len() as int),
{
    if accepts(key, candidate) {
        assert(candidate =~= key + candidate.skip(key.len() as int));
    }
    if candidate == key + candidate.skip(key.len() as int) {
        if key.len() > candidate.len() {
            assert((key + candidate.skip(key.len() as int)).len() >= key.len());
        }
        assert forall|i: int| 0 <= i < key.len() implies candidate[i] == key[i] by {
            assert((key + candidate.skip(key.len() as int))[i] == key[i]);
        }
    }
}

} // verus!
