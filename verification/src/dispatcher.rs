//! The dispatcher: one socket, many transfers.
//!
//! Every datagram that arrives is decoded and routed by the address it came
//! from, which stands for the transfer. The dispatcher keeps the set of peers
//! with a running transfer; a peer is a number that its user derives from
//! the socket address, one number per address.

use crate::packet::{
    bare_error, decode_frame, error_frame, Error, Frame, Packet, ILLEGAL_OP, READ_OPCODE,
    UNKNOWN_TID, WRITE_OPCODE,
};
use vstd::prelude::*;

verus! {

/// What is to be done with a datagram.
#[derive(Debug)]
pub enum Route {
    /// Send this frame back to the sender.
    Reply(Packet),
    /// Start a read transfer of this file for the sender.
    StartRead { file: String },
    /// Start a write transfer of this file for the sender.
    StartWrite { file: String },
    /// Hand this frame to the sender's transfer.
    Deliver(Packet),
    /// Drop the datagram.
    Ignore,
}

/// A route as a mathematical value.
pub enum Routing {
    Reply(Frame),
    StartRead { file: Seq<char> },
    StartWrite { file: Seq<char> },
    Deliver(Frame),
    Ignore,
}

impl Route {
    /// Whether a frame in the route can be encoded, and a data frame has
    /// zeros behind its payload.
    pub open spec fn wf(&self) -> bool {
        match *self {
            Route::Reply(p) => p.wf(),
            Route::Deliver(p) => p.wf() && p.zero_padded(),
            _ => true,
        }
    }
}

impl View for Route {
    type V = Routing;

    open spec fn view(&self) -> Routing {
        match *self {
            Route::Reply(p) => Routing::Reply(p@),
            Route::StartRead { file } => Routing::StartRead { file: file@ },
            Route::StartWrite { file } => Routing::StartWrite { file: file@ },
            Route::Deliver(p) => Routing::Deliver(p@),
            Route::Ignore => Routing::Ignore,
        }
    }
}

/// What the dispatcher does with a decoded datagram from `peer`: the peers
/// with a transfer afterwards, and the route.
///
/// A datagram that is no frame is answered with "illegal operation". A
/// request from a peer without a transfer starts one, a read for opcode 1
/// and a write otherwise; a request from a peer that has one is dropped. Any
/// other frame goes to the peer's transfer, or is answered with "unknown
/// transfer ID" where there is none.
pub open spec fn route_of(sessions: Set<u64>, peer: u64, decoded: Result<Frame, Error>) -> (
    Set<u64>,
    Routing,
) {
    match decoded {
        Err(_) => (sessions, Routing::Reply(bare_error(ILLEGAL_OP))),
        Ok(Frame::Request { op_code, file, mode }) => if sessions.contains(peer) {
            (sessions, Routing::Ignore)
        } else if op_code == READ_OPCODE {
            (sessions.insert(peer), Routing::StartRead { file })
        } else {
            (sessions.insert(peer), Routing::StartWrite { file })
        },
        Ok(frame) => if sessions.contains(peer) {
            (sessions, Routing::Deliver(frame))
        } else {
            (sessions, Routing::Reply(bare_error(UNKNOWN_TID)))
        },
    }
}

/// Whether a datagram decoded to a request.
pub open spec fn is_request(decoded: Result<Frame, Error>) -> bool {
    decoded matches Ok(Frame::Request { .. })
}

/// The registry of running transfers and the routing of datagrams to them.
#[derive(Debug)]
pub struct Dispatcher {
    peers: Vec<u64>,
}

impl View for Dispatcher {
    type V = Set<u64>;

    /// The peers that have a transfer.
    closed spec fn view(&self) -> Set<u64> {
        self.peers@.to_set()
    }
}

impl Dispatcher {
    /// Whether the registry is consistent: no peer is listed twice.
    pub closed spec fn wf(&self) -> bool {
        self.peers@.no_duplicates()
    }

    /// A dispatcher without transfers.
    pub fn new() -> (d: Self)
        ensures
            d.wf(),
            d@ == Set::<u64>::empty(),
    {
        let d = Dispatcher { peers: Vec::new() };
        assert(d.peers@.to_set() =~= Set::<u64>::empty());
        d
    }

    /// Where `peer` is listed.
    fn position(&self, peer: u64) -> (at: Option<usize>)
        ensures
            match at {
                Some(i) => i < self.peers@.len() && self.peers@[i as int] == peer,
                None => !self.peers@.contains(peer),
            },
    {
        let mut i: usize = 0;
        while i < self.peers.len()
            invariant
                i <= self.peers@.len(),
                forall|j: int| 0 <= j < i ==> self.peers@[j] != peer,
            decreases self.peers@.len() - i,
        {
            if self.peers[i] == peer {
                return Some(i);
            }
            i += 1;
        }
        None
    }

    /// Whether `peer` has a transfer.
    pub fn has_session(&self, peer: u64) -> (found: bool)
        ensures
            found == self@.contains(peer),
    {
        self.position(peer).is_some()
    }

    /// The number of peers with a transfer.
    pub fn session_count(&self) -> (n: usize)
        requires
            self.wf(),
        ensures
            n == self@.len(),
            self@.finite(),
    {
        proof {
            self.peers@.unique_seq_to_set();
        }
        self.peers.len()
    }

    /// Lists `peer`, which is not listed yet.
    fn open_session(&mut self, peer: u64)
        requires
            old(self).wf(),
            !old(self)@.contains(peer),
        ensures
            final(self).wf(),
            final(self)@ == old(self)@.insert(peer),
    {
        self.peers.push(peer);
        proof {
            let before = old(self).peers@;
            let after = self.peers@;
            assert forall|x: u64| after.to_set().contains(x) <==> before.to_set().insert(
                peer,
            ).contains(x) by {
                if before.contains(x) {
                    let j = choose|j: int| 0 <= j < before.len() && before[j] == x;
                    assert(after[j] == x);
                }
                if x == peer {
                    assert(after[before.len() as int] == x);
                }
            }
            assert(after.to_set() =~= before.to_set().insert(peer));
        }
    }

    /// Ends the transfer of `peer`, if it has one: afterwards `peer` has
    /// none, and every other peer is as before.
    pub fn finish(&mut self, peer: u64)
        requires
            old(self).wf(),
        ensures
            final(self).wf(),
            final(self)@ == old(self)@.remove(peer),
    {
        match self.position(peer) {
            None => {
                assert(self.peers@.to_set() =~= self.peers@.to_set().remove(peer));
            },
            Some(i) => {
                self.peers.remove(i);
                proof {
                    let before = old(self).peers@;
                    let after = self.peers@;
                    assert(after =~= before.remove(i as int));
                    assert forall|x: u64| after.to_set().contains(x) <==> before.to_set().remove(
                        peer,
                    ).contains(x) by {
                        if after.contains(x) {
                            let j = choose|j: int| 0 <= j < after.len() && after[j] == x;
                            if j < i {
                                assert(before[j] == x);
                            } else {
                                assert(before[j + 1] == x);
                            }
                        }
                        if before.contains(x) && x != peer {
                            let j = choose|j: int| 0 <= j < before.len() && before[j] == x;
                            if j < i {
                                assert(after[j] == x);
                            } else {
                                assert(after[j - 1] == x);
                            }
                        }
                    }
                    assert(after.to_set() =~= before.to_set().remove(peer));
                }
            },
        }
    }

    /// Decodes a datagram that came from `peer` and routes it, as `route_of`
    /// lays down for what `decode_frame` makes of the bytes.
    pub fn dispatch(&mut self, peer: u64, datagram: &[u8]) -> (route: Route)
        requires
            old(self).wf(),
        ensures
            final(self).wf(),
            route.wf(),
            (final(self)@, route@) == route_of(old(self)@, peer, decode_frame(datagram@)),
    {
        match Packet::deserialize(datagram) {
            Err(_) => Route::Reply(error_frame(ILLEGAL_OP)),
            Ok(Packet::Request { op_code, file, mode: _ }) => {
                if self.has_session(peer) {
                    Route::Ignore
                } else {
                    self.open_session(peer);
                    if op_code == READ_OPCODE {
                        Route::StartRead { file }
                    } else {
                        Route::StartWrite { file }
                    }
                }
            },
            Ok(packet) => {
                if self.has_session(peer) {
                    Route::Deliver(packet)
                } else {
                    Route::Reply(error_frame(UNKNOWN_TID))
                }
            },
        }
    }
}

/// A request that decodes is a read or a write: no other opcode reaches
/// the start of a transfer.
pub proof fn lemma_decoded_request_is_read_or_write(bytes: Seq<u8>)
    ensures
        decode_frame(bytes) matches Ok(Frame::Request { op_code, .. }) ==> (op_code == READ_OPCODE
            || op_code == WRITE_OPCODE),
{
}

/// A transfer starts only on a request from a peer that has none, and then
/// for that peer alone; nothing else changes who has a transfer. A frame that
/// is no request, from a peer without a transfer, is answered with "unknown
/// transfer ID" and starts nothing.
pub proof fn lemma_sessions_change_on_request_only(
    sessions: Set<u64>,
    peer: u64,
    decoded: Result<Frame, Error>,
)
    ensures
        ({
            let (after, routing) = route_of(sessions, peer, decoded);
            &&& (after != sessions ==> is_request(decoded) && !sessions.contains(peer) && after
                == sessions.insert(peer))
            &&& (decoded is Ok && !is_request(decoded) && !sessions.contains(peer) ==> after
                == sessions && routing == Routing::Reply(bare_error(UNKNOWN_TID)))
        }),
{
}

} // verus!
