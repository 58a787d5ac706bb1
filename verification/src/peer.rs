//! Per-connection dispatch logic and round-trip timing

use vstd::prelude::*;

use std::collections::VecDeque;

use crate::reader::encode_spec;
use crate::reader::to_binary;
use crate::reader::Kind;

verus! {

/// A notification that a peer has been stopped
///
/// The connection is closed; the owner that receives this drops the
/// peer from its registry, exactly once.
pub struct PeerClose;

/// Parsed message
///
/// A message after being read and parsed
#[derive(Debug)]
pub struct Msg {
    /// Bytes of the received data, including header
    bytes: Vec<u8>,
    /// [`Kind`] of the message
    kind: Kind,
    /// Header len
    header_len: usize,
}

impl Msg {
    /// The raw bytes of the frame, header included.
    pub closed spec fn spec_bytes(&self) -> Seq<u8> {
        self.bytes@
    }

    /// The kind recorded when the frame was parsed.
    pub closed spec fn spec_kind(&self) -> Kind {
        self.kind
    }

    /// How many leading bytes of the frame are header.
    pub closed spec fn spec_header_len(&self) -> int {
        self.header_len as int
    }

    /// A message's header never extends past its bytes.
    pub open spec fn wf(&self) -> bool {
        0 <= self.spec_header_len() <= self.spec_bytes().len()
    }

    pub fn new(bytes: Vec<u8>, kind: Kind, header_len: usize) -> (m: Msg)
        requires
            header_len <= bytes@.len(),
        ensures
            m.spec_bytes() == bytes@,
            m.spec_kind() == kind,
            m.spec_header_len() == header_len as int,
            m.wf(),
    {
        Msg { bytes, kind, header_len }
    }

    /// Return the message without the header
    pub fn message(&self) -> (r: Vec<u8>)
        requires
            self.wf(),
        ensures
            r@ == self.spec_bytes().subrange(self.spec_header_len(), self.spec_bytes().len() as int),
    {
        let mut r: Vec<u8> = Vec::new();
        let mut i: usize = self.header_len;
        while i < self.bytes.len()
            invariant
                self.spec_header_len() <= i as int <= self.spec_bytes().len(),
                r@ == self.spec_bytes().subrange(self.spec_header_len(), i as int),
            decreases self.bytes.len() - i,
        {
            r.push(self.bytes[i]);
            proof {
                assert(r@ =~= self.spec_bytes().subrange(self.spec_header_len(), i as int + 1));
            }
            i = i + 1;
        }
        r
    }

    /// The kind recorded when the frame was parsed.
    pub fn kind(&self) -> (k: Kind)
        ensures
            k == self.spec_kind(),
    {
        self.kind
    }
}

impl Msg {
    /// The message without the header: the frame's payload.
    pub open spec fn spec_message(&self) -> Seq<u8> {
        self.spec_bytes().subrange(self.spec_header_len(), self.spec_bytes().len() as int)
    }
}

/// The fixed payload a peer acknowledges every data message with:
/// the bytes of "message received".
pub open spec fn response_text() -> Seq<u8> {
    seq![
        109u8,
        101u8,
        115u8,
        115u8,
        97u8,
        103u8,
        101u8,
        32u8,
        114u8,
        101u8,
        99u8,
        101u8,
        105u8,
        118u8,
        101u8,
        100u8,
    ]
}

/// The fixed acknowledgement payload, as a buffer: the bytes of
/// "message received".
pub fn make_response_text() -> (r: Vec<u8>)
    ensures
        r@ == response_text(),
{
    let mut r: Vec<u8> = Vec::new();
    r.push(109);
    r.push(101);
    r.push(115);
    r.push(115);
    r.push(97);
    r.push(103);
    r.push(101);
    r.push(32);
    r.push(114);
    r.push(101);
    r.push(99);
    r.push(101);
    r.push(105);
    r.push(118);
    r.push(101);
    r.push(100);
    proof {
        assert(r@ =~= response_text());
    }
    r
}

/// The timing queue after one response arrives: the oldest pending
/// send, if any, is retired.
pub open spec fn popped(d: Seq<u64>) -> Seq<u64> {
    if d.len() == 0 {
        d
    } else {
        d.drop_first()
    }
}

/// The round-trip time one response reports: now minus the oldest
/// pending send's timestamp, and zero when no send is pending (a
/// protocol violation by the remote, not treated as fatal) or when the
/// clock reads earlier than the recorded send.
pub open spec fn elapsed_of(d: Seq<u64>, now: u64) -> u64 {
    if d.len() > 0 && now >= d[0] {
        (now - d[0]) as u64
    } else {
        0
    }
}

/// What a peer does with one decoded message.
pub enum PeerAction {
    /// A data message arrived: write `reply` — the acknowledgement
    /// frame — back on the socket, then hand `payload` to the display
    /// policy.
    Respond { reply: Vec<u8>, payload: Vec<u8> },
    /// A response message arrived: report its payload and the measured
    /// round-trip time.
    Report { payload: Vec<u8>, elapsed: u64 },
    /// A message of invalid kind: nothing to do.
    Ignore,
}

/// Peer
///
/// A Peer is responsible for deciding what is written and reported for
/// each message that crosses its socket, and for pairing every data
/// frame it sends with the response that acknowledges it, in FIFO
/// order. The socket itself stays with the caller, who writes the
/// returned frames and supplies timestamps.
pub struct Peer {
    /// Send timestamps used to determine the roundtrip time of a
    /// message
    delays: VecDeque<u64>,
}

impl Peer {
    /// The timestamps of the sends still awaiting a response, oldest
    /// first.
    pub closed spec fn spec_delays(&self) -> Seq<u64> {
        self.delays@
    }

    /// Create a Peer with no send awaiting a response.
    pub fn new() -> (p: Peer)
        ensures
            p.spec_delays() == Seq::<u64>::empty(),
    {
        Peer { delays: VecDeque::new() }
    }

    /// The user submitted data: frame it as a data message and record
    /// the send's timestamp, so the matching response can be timed.
    pub fn handle_input(&mut self, data: &[u8], now: u64) -> (frame: Vec<u8>)
        ensures
            frame@ == encode_spec(data@, Kind::Data),
            final(self).spec_delays() == old(self).spec_delays().push(now),
    {
        self.delays.push_back(now);
        to_binary(data, Kind::Data)
    }

    /// One decoded message arrived: decide what to write back and what
    /// to report.
    ///
    /// A data message is acknowledged with a fixed-payload response
    /// frame; a response message retires the oldest pending send and
    /// reports the elapsed time; an invalid kind does nothing.
    pub fn handle_message(&mut self, msg: Msg, now: u64) -> (act: PeerAction)
        requires
            msg.wf(),
        ensures
            msg.spec_kind() == Kind::Data ==> {
                &&& match act {
                    PeerAction::Respond { reply, payload } => reply@ == encode_spec(
                        response_text(),
                        Kind::Response,
                    ) && payload@ == msg.spec_message(),
                    _ => false,
                }
                &&& final(self).spec_delays() == old(self).spec_delays()
            },
            msg.spec_kind() == Kind::Response ==> {
                &&& match act {
                    PeerAction::Report { payload, elapsed } => payload@ == msg.spec_message()
                        && elapsed == elapsed_of(old(self).spec_delays(), now),
                    _ => false,
                }
                &&& final(self).spec_delays() == popped(old(self).spec_delays())
            },
            msg.spec_kind() == Kind::Wrong ==> act is Ignore && final(self).spec_delays() == old(
                self,
            ).spec_delays(),
    {
        match msg.kind() {
            Kind::Data => {
                let text = make_response_text();
                let reply = to_binary(text.as_slice(), Kind::Response);
                let payload = msg.message();
                PeerAction::Respond { reply, payload }
            },
            Kind::Response => {
                let payload = msg.message();
                let elapsed = match self.delays.pop_front() {
                    Some(sent) => if now >= sent {
                        now - sent
                    } else {
                        0
                    },
                    None => 0,
                };
                PeerAction::Report { payload, elapsed }
            },
            Kind::Wrong => PeerAction::Ignore,
        }
    }
}

/// Round-trip timing is FIFO: with at least two sends pending, the next
/// response is attributed to the oldest send's timestamp, and the one
/// after it to the next pending send's.
pub proof fn lemma_fifo_timing(d: Seq<u64>, r1: u64, r2: u64)
    requires
        d.len() >= 2,
        r1 >= d[0],
        r2 >= d[1],
    ensures
        elapsed_of(d, r1) == r1 - d[0],
        popped(d) == d.drop_first(),
        elapsed_of(popped(d), r2) == r2 - d[1],
{
    assert(d.drop_first()[0] == d[1]);
}

} // verus!
