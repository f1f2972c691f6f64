//! Gossip messages: their kinds, payloads, contact information, and the
//! hash used to tell messages apart.

use crate::consensus::vote::now_millis;
use crate::crypto::{append_bytes, append_u64_le, sha256, sha256_digest};
use crate::turbine::shred::copy_bytes;
use vstd::bytes::spec_u64_to_le_bytes;
use vstd::prelude::*;
use vstd::string::StringSliceAdditionalSpecFns;

verus! {

/// The kinds of gossip messages.
#[derive(Debug, Clone, Copy, PartialEq, Eq, Structural, Hash)]
pub enum MessageType {
    /// New data pushed to a peer.
    Push,
    /// A request for data.
    PullRequest,
    /// The answer to a pull request.
    PullResponse,
    /// Stop sending some data.
    Prune,
    /// A liveness check.
    Ping,
    /// The answer to a ping.
    Pong,
}

/// The byte of a message type: its position in the list of kinds.
pub open spec fn spec_type_code(t: MessageType) -> u8 {
    match t {
        MessageType::Push => 0,
        MessageType::PullRequest => 1,
        MessageType::PullResponse => 2,
        MessageType::Prune => 3,
        MessageType::Ping => 4,
        MessageType::Pong => 5,
    }
}

/// The byte of a message type.
pub fn type_code(t: MessageType) -> (b: u8)
    ensures
        b == spec_type_code(t),
{
    match t {
        MessageType::Push => 0,
        MessageType::PullRequest => 1,
        MessageType::PullResponse => 2,
        MessageType::Prune => 3,
        MessageType::Ping => 4,
        MessageType::Pong => 5,
    }
}

/// Milliseconds from `timestamp` to `now`, zero if `now` is earlier.
pub open spec fn age_between(timestamp: u64, now: u64) -> u64 {
    if now >= timestamp {
        (now - timestamp) as u64
    } else {
        0
    }
}

/// A gossip message.
#[derive(Debug)]
pub struct GossipMessage {
    /// Sender's public key.
    pub from: [u8; 32],
    /// The kind of message.
    pub message_type: MessageType,
    /// The payload.
    pub payload: GossipPayload,
    /// Milliseconds since the Unix epoch.
    pub timestamp: u64,
    /// Signature over the message.
    pub signature: Vec<u8>,
}

/// What a message carries.
#[derive(Debug)]
pub enum GossipPayload {
    Push(PushData),
    PullRequest(PullRequestData),
    PullResponse(PullResponseData),
    Prune(PruneData),
    Ping(PingData),
    Pong(PongData),
}

/// Data pushed to peers.
#[derive(Debug)]
pub struct PushData {
    /// Identity used to drop duplicates.
    pub id: [u8; 32],
    /// Content.
    pub content: Vec<u8>,
    /// Kind of data, such as "vote".
    pub kind: String,
}

/// Pushed data as values.
pub struct PushView {
    pub id: [u8; 32],
    pub content: Seq<u8>,
    pub kind: Seq<char>,
}

impl View for PushData {
    type V = PushView;

    open spec fn view(&self) -> PushView {
        PushView { id: self.id, content: self.content@, kind: self.kind@ }
    }
}

impl Clone for PushData {
    fn clone(&self) -> (r: Self)
        ensures
            r@ == self@,
    {
        PushData { id: self.id, content: copy_bytes(&self.content), kind: self.kind.clone() }
    }
}

/// A request for data newer than the given time, per kind.
#[derive(Debug)]
pub struct PullRequestData {
    /// Kinds with the newest time already held.
    pub filters: Vec<(String, u64)>,
    /// The requester's contact information.
    pub contact_info: ContactInfo,
}

/// The answer to a pull request.
#[derive(Debug)]
pub struct PullResponseData {
    /// The data sent.
    pub items: Vec<PushData>,
    /// The responder's contact information.
    pub contact_info: ContactInfo,
}

/// Kinds of data to stop sending.
#[derive(Debug, Clone)]
pub struct PruneData {
    pub kinds: Vec<String>,
    pub from: [u8; 32],
}

/// A ping with its nonce.
#[derive(Debug, Clone, Copy)]
pub struct PingData {
    pub nonce: u64,
}

/// A pong echoing a ping's nonce.
#[derive(Debug, Clone, Copy)]
pub struct PongData {
    pub nonce: u64,
}

/// How to reach a validator.
#[derive(Debug)]
pub struct ContactInfo {
    /// Public key.
    pub pubkey: [u8; 32],
    /// Gossip address.
    pub gossip: SocketAddr,
    /// Transaction processing address.
    pub tpu: SocketAddr,
    /// RPC address.
    pub rpc: SocketAddr,
    /// Transaction validation address.
    pub tvu: SocketAddr,
    /// Stake.
    pub stake: u64,
    /// Version string.
    pub version: String,
    /// Time of the information.
    pub wallclock: u64,
}

impl Clone for ContactInfo {
    fn clone(&self) -> (r: Self)
        ensures
            r == *self,
    {
        ContactInfo {
            pubkey: self.pubkey,
            gossip: self.gossip,
            tpu: self.tpu,
            rpc: self.rpc,
            tvu: self.tvu,
            stake: self.stake,
            version: self.version.clone(),
            wallclock: self.wallclock,
        }
    }
}

/// An IPv4 address and port.
#[derive(Debug, Clone, Copy)]
pub struct SocketAddr {
    pub ip: [u8; 4],
    pub port: u16,
}

impl SocketAddr {
    /// The address `ip:port`.
    pub fn new(ip: [u8; 4], port: u16) -> (a: Self)
        ensures
            a.ip == ip,
            a.port == port,
    {
        SocketAddr { ip, port }
    }

    /// `127.0.0.1:port`.
    pub fn localhost(port: u16) -> (a: Self)
        ensures
            a.ip@ == seq![127u8, 0, 0, 1],
            a.port == port,
    {
        let a = SocketAddr { ip: [127, 0, 0, 1], port };
        assert(a.ip@ =~= seq![127u8, 0, 0, 1]);
        a
    }
}

/// The bytes a pull request's filters add to its hash.
pub open spec fn filters_hash_input(filters: Seq<(String, u64)>) -> Seq<u8>
    decreases filters.len(),
{
    if filters.len() == 0 {
        Seq::empty()
    } else {
        filters_hash_input(filters.drop_last()) + vstd::utf8::encode_utf8(filters.last().0@) + spec_u64_to_le_bytes(
            filters.last().1,
        )
    }
}

/// The bytes hashed for a message: sender, kind, time, then for a push its
/// id and content, for a pull request each filter's kind and time.
pub open spec fn message_hash_input(m: GossipMessage) -> Seq<u8> {
    m.from@ + seq![spec_type_code(m.message_type)] + spec_u64_to_le_bytes(m.timestamp) + match m.payload {
        GossipPayload::Push(d) => d.id@ + d.content@,
        GossipPayload::PullRequest(r) => filters_hash_input(r.filters@),
        _ => Seq::empty(),
    }
}

impl GossipMessage {
    /// An unsigned message stamped with the current time.
    pub fn new(from: [u8; 32], message_type: MessageType, payload: GossipPayload) -> (m: Self)
        ensures
            m.from == from,
            m.message_type == message_type,
            m.payload == payload,
            m.signature@.len() == 0,
    {
        let timestamp = now_millis();
        Self::with_timestamp(from, message_type, payload, timestamp)
    }

    /// An unsigned message stamped with `timestamp`.
    pub fn with_timestamp(from: [u8; 32], message_type: MessageType, payload: GossipPayload, timestamp: u64) -> (m: Self)
        ensures
            m.from == from,
            m.message_type == message_type,
            m.payload == payload,
            m.timestamp == timestamp,
            m.signature@.len() == 0,
    {
        GossipMessage { from, message_type, payload, timestamp, signature: Vec::new() }
    }

    /// SHA-256 of the sender, the kind, the time and the payload's key
    /// parts.
    pub fn hash(&self) -> (h: [u8; 32])
        ensures
            h@ == sha256(message_hash_input(*self)),
    {
        let mut buf: Vec<u8> = Vec::new();
        append_bytes(&mut buf, self.from.as_slice());
        let code = [type_code(self.message_type)];
        append_bytes(&mut buf, code.as_slice());
        append_u64_le(&mut buf, self.timestamp);
        let ghost head = buf@;
        match &self.payload {
            GossipPayload::Push(data) => {
                append_bytes(&mut buf, data.id.as_slice());
                append_bytes(&mut buf, data.content.as_slice());
                assert(buf@ =~= head + (data.id@ + data.content@));
            },
            GossipPayload::PullRequest(request) => {
                let filters = &request.filters;
                let mut i: usize = 0;
                while i < filters.len()
                    invariant
                        i <= filters@.len(),
                        buf@ == head + filters_hash_input(filters@.take(i as int)),
                    decreases filters@.len() - i,
                {
                    let (kind, ts) = &filters[i];
                    append_bytes(&mut buf, kind.as_str().as_bytes());
                    append_u64_le(&mut buf, *ts);
                    proof {
                        assert(filters@.take(i + 1).drop_last() =~= filters@.take(i as int));
                        assert(filters@.take(i + 1).last() == filters@[i as int]);
                    }
                    i = i + 1;
                }
                assert(filters@.take(i as int) =~= filters@);
            },
            _ => {
                assert(buf@ =~= head + Seq::<u8>::empty());
            },
        }
        proof {
            assert(code@ =~= seq![spec_type_code(self.message_type)]);
        }
        sha256_digest(buf.as_slice())
    }

    /// Signatures are not checked: every message passes.
    pub fn verify_signature(&self) -> (b: bool)
        ensures
            b,
    {
        true
    }

    /// Milliseconds since the message's time, zero if it lies ahead.
    pub fn age_ms(&self) -> (a: u64)
        ensures
            exists|now: u64| a == #[trigger] age_between(self.timestamp, now),
    {
        let now = now_millis();
        self.age_at(now)
    }

    /// Milliseconds from the message's time to `now`, zero if it lies
    /// ahead.
    pub fn age_at(&self, now: u64) -> (a: u64)
        ensures
            a == age_between(self.timestamp, now),
    {
        now.saturating_sub(self.timestamp)
    }
}

} // verus!
