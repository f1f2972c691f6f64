//! The gossip protocol's decisions: how each incoming message changes the
//! store and which messages go out in answer. Sending them is left to the
//! caller.

use crate::gossip::crds::{
    lists_contacts, lists_entries, newer_than, of_kind, push_outcome, Crds, CrdsEntry, CrdsEntryView, CrdsView,
};
use crate::gossip::message::{
    ContactInfo, GossipMessage, GossipPayload, MessageType, PingData, PongData, PullRequestData,
    PullResponseData, PushData, PushView, SocketAddr,
};
use dashmap::DashMap;
use vstd::prelude::*;
use vstd::string::StringExecFns;

verus! {

/// Peers a new push is passed on to, at most.
pub const FORWARD_FANOUT: usize = 3;

/// Protocol counters.
#[derive(Debug, Clone)]
pub struct ProtocolStats {
    pub messages_handled: u64,
    pub invalid_messages: u64,
    pub prunes_received: u64,
    pub pongs_received: u64,
}

impl Default for ProtocolStats {
    fn default() -> (s: Self)
        ensures
            s.messages_handled == 0,
            s.invalid_messages == 0,
            s.prunes_received == 0,
            s.pongs_received == 0,
    {
        ProtocolStats { messages_handled: 0, invalid_messages: 0, prunes_received: 0, pongs_received: 0 }
    }
}

/// How many messages of each kind arrived.
pub uninterp spec fn count_map(m: DashMap<MessageType, u64>) -> Map<MessageType, u64>;

/// The pings awaiting a pong: nonce to peer.
pub uninterp spec fn ping_map(m: DashMap<u64, [u8; 32]>) -> Map<u64, [u8; 32]>;

/// An empty count map (`DashMap::new`).
///
/// Trusted: a new map holds nothing.
#[verifier::external_body]
fn counts_new() -> (m: DashMap<MessageType, u64>)
    ensures
        count_map(m).dom().is_empty(),
{
    DashMap::new()
}

/// `DashMap::insert` on the count map.
///
/// Trusted: the kind now maps to the count; other kinds are unchanged.
#[verifier::external_body]
fn counts_insert(m: &mut DashMap<MessageType, u64>, t: MessageType, count: u64)
    ensures
        count_map(*final(m)) == count_map(*old(m)).insert(t, count),
{
    m.insert(t, count);
}

/// An empty ping map (`DashMap::new`).
///
/// Trusted: a new map holds nothing.
#[verifier::external_body]
fn pings_new() -> (m: DashMap<u64, [u8; 32]>)
    ensures
        ping_map(m).dom().is_empty(),
{
    DashMap::new()
}

/// `DashMap::insert` on the ping map.
///
/// Trusted: the nonce now maps to the peer; other nonces are unchanged.
#[verifier::external_body]
fn pings_insert(m: &mut DashMap<u64, [u8; 32]>, nonce: u64, peer: [u8; 32])
    ensures
        ping_map(*final(m)) == ping_map(*old(m)).insert(nonce, peer),
{
    m.insert(nonce, peer);
}

/// `DashMap::remove` on the ping map.
///
/// Trusted: the nonce no longer maps to anything; others are unchanged.
#[verifier::external_body]
fn pings_remove(m: &mut DashMap<u64, [u8; 32]>, nonce: u64)
    ensures
        ping_map(*final(m)) == ping_map(*old(m)).remove(nonce),
{
    m.remove(&nonce);
}

/// The count of a kind (`DashMap::get`).
///
/// Trusted: the count of a kind seen, nothing otherwise.
#[verifier::external_body]
fn counts_get(m: &DashMap<MessageType, u64>, t: MessageType) -> (r: Option<u64>)
    ensures
        r == (if count_map(*m).contains_key(t) {
            Some(count_map(*m)[t])
        } else {
            None::<u64>
        }),
{
    m.get(&t).map(|c| *c.value())
}

/// A random nonce (`rand::random`).
///
/// Trusted: nothing is stated about the value.
#[verifier::external_body]
fn random_nonce() -> u64 {
    rand::random::<u64>()
}

/// The count of a kind, zero if unseen.
pub open spec fn count_of(m: Map<MessageType, u64>, t: MessageType) -> int {
    if m.contains_key(t) {
        m[t] as int
    } else {
        0
    }
}

/// The protocol's state as values.
pub struct ProtocolView {
    pub crds: CrdsView,
    pub validator_id: [u8; 32],
    pub counts: Map<MessageType, u64>,
    pub pending_pings: Map<u64, [u8; 32]>,
    pub messages_handled: u64,
    pub invalid_messages: u64,
    pub prunes_received: u64,
    pub pongs_received: u64,
}

/// The gossip protocol handler.
pub struct GossipProtocol {
    crds: Crds,
    /// This validator's identity.
    pub validator_id: [u8; 32],
    received_count: DashMap<MessageType, u64>,
    pending_pings: DashMap<u64, [u8; 32]>,
    stats: ProtocolStats,
}

impl View for GossipProtocol {
    type V = ProtocolView;

    closed spec fn view(&self) -> ProtocolView {
        ProtocolView {
            crds: self.crds@,
            validator_id: self.validator_id,
            counts: count_map(self.received_count),
            pending_pings: ping_map(self.pending_pings),
            messages_handled: self.stats.messages_handled,
            invalid_messages: self.stats.invalid_messages,
            prunes_received: self.stats.prunes_received,
            pongs_received: self.stats.pongs_received,
        }
    }
}

/// The contact information sent when this validator has none set: its key,
/// local ports 8000 to 8003, no stake, version "0.1.0", time zero.
pub open spec fn is_default_contact(c: ContactInfo, id: [u8; 32]) -> bool {
    &&& c.pubkey == id
    &&& c.gossip.port == 8000
    &&& c.tpu.port == 8001
    &&& c.rpc.port == 8002
    &&& c.tvu.port == 8003
    &&& c.gossip.ip@ == seq![127u8, 0, 0, 1]
    &&& c.tpu.ip@ == seq![127u8, 0, 0, 1]
    &&& c.rpc.ip@ == seq![127u8, 0, 0, 1]
    &&& c.tvu.ip@ == seq![127u8, 0, 0, 1]
    &&& c.stake == 0
    &&& c.version@ == "0.1.0"@
    &&& c.wallclock == 0
}

/// The contact information this validator sends: its own, or the default.
pub open spec fn sent_contact(c: ContactInfo, crds: CrdsView, id: [u8; 32]) -> bool {
    match crds.self_info {
        Some(info) => c == info,
        None => is_default_contact(c, id),
    }
}

/// A push passed on from this validator with the same data.
pub open spec fn is_forward(out: GossipMessage, id: [u8; 32], data: PushView) -> bool {
    &&& out.from == id
    &&& out.message_type == MessageType::Push
    &&& out.payload matches GossipPayload::Push(d) && d@ == data
}

/// The number of entries a list of filters asks for: for each filter, the
/// entries of its kind newer than its time.
pub open spec fn requested_count(entries: Map<[u8; 32], CrdsEntryView>, filters: Seq<(String, u64)>) -> nat
    decreases filters.len(),
{
    if filters.len() == 0 {
        0
    } else {
        requested_count(entries, filters.drop_last()) + newer_than(entries, filters.last().1).intersect(
            of_kind(entries, filters.last().0@),
        ).len()
    }
}

/// Some filter asks for the entry under `k`.
pub open spec fn requested(entries: Map<[u8; 32], CrdsEntryView>, filters: Seq<(String, u64)>, k: [u8; 32]) -> bool {
    exists|f: int|
        0 <= f < filters.len() && newer_than(entries, filters[f].1).contains(k) && of_kind(
            entries,
            #[trigger] filters[f].0@,
        ).contains(k)
}

/// `item` is the data of a stored entry that one of the filters asks for.
pub open spec fn supplies(entries: Map<[u8; 32], CrdsEntryView>, filters: Seq<(String, u64)>, item: PushView) -> bool {
    &&& entries.contains_key(item.id)
    &&& entries[item.id].data == item
    &&& requested(entries, filters, item.id)
}

/// The data of the listed entries of a kind, in the listing's order.
pub open spec fn kind_data(r: Seq<CrdsEntry>, kind: Seq<char>) -> Seq<PushView>
    decreases r.len(),
{
    if r.len() == 0 {
        Seq::empty()
    } else {
        let rest = kind_data(r.drop_last(), kind);
        if r.last().data.kind@ == kind {
            rest.push(r.last().data@)
        } else {
            rest
        }
    }
}

/// Of a listing of the chosen entries, those of a kind are as many as the
/// chosen entries of that kind, and each is the data of one of them.
proof fn lemma_kind_data(r: Seq<CrdsEntry>, entries: Map<[u8; 32], CrdsEntryView>, chosen: Set<[u8; 32]>, kind: Seq<char>)
    requires
        lists_entries(r, entries, chosen),
        chosen.finite(),
        chosen.subset_of(entries.dom()),
    ensures
        kind_data(r, kind).len() == chosen.intersect(of_kind(entries, kind)).len(),
        forall|i: int|
            0 <= i < kind_data(r, kind).len() ==> chosen.contains(#[trigger] kind_data(r, kind)[i].id)
                && entries[kind_data(r, kind)[i].id].data == kind_data(r, kind)[i] && of_kind(entries, kind).contains(
                kind_data(r, kind)[i].id,
            ),
    decreases r.len(),
{
    if r.len() == 0 {
        assert(chosen.intersect(of_kind(entries, kind)) =~= Set::empty());
    } else {
        let last = r.last();
        let rest = r.drop_last();
        let c2 = chosen.remove(last.data.id);
        assert(chosen.contains(last.data.id)) by {
            assert(r[r.len() - 1] == last);
        }
        assert forall|i: int| 0 <= i < rest.len() implies c2.contains(#[trigger] rest[i].data.id) && rest[i]@
            == entries[rest[i].data.id] by {
            assert(rest[i] == r[i]);
            assert(r[i].data.id != r[r.len() - 1].data.id);
        }
        assert forall|i: int, j: int| 0 <= i < j < rest.len() implies #[trigger] rest[i].data.id
            != #[trigger] rest[j].data.id by {
            assert(rest[i] == r[i] && rest[j] == r[j]);
        }
        lemma_kind_data(rest, entries, c2, kind);
        let k2 = c2.intersect(of_kind(entries, kind));
        let k1 = chosen.intersect(of_kind(entries, kind));
        vstd::set_lib::lemma_len_subset(k2, c2);
        assert(last@ == entries[last.data.id]) by {
            assert(r[r.len() - 1] == last);
        }
        let kd = kind_data(r, kind);
        let kr = kind_data(rest, kind);
        if last.data.kind@ == kind {
            assert(k1 =~= k2.insert(last.data.id));
            assert(kd == kr.push(last.data@));
            assert forall|i: int| 0 <= i < kd.len() implies chosen.contains(#[trigger] kd[i].id) && entries[kd[i].id].data
                == kd[i] && of_kind(entries, kind).contains(kd[i].id) by {
                if i < kr.len() {
                    assert(kd[i] == kr[i]);
                }
            }
        } else {
            assert(k1 =~= k2);
            assert(kd == kr);
            assert forall|i: int| 0 <= i < kd.len() implies chosen.contains(#[trigger] kd[i].id) && entries[kd[i].id].data
                == kd[i] && of_kind(entries, kind).contains(kd[i].id) by {
                assert(kd[i] == kr[i]);
            }
        }
    }
}

/// Appends the data of the listed entries of a kind.
fn push_of_kind(items: &mut Vec<PushData>, listed: &Vec<CrdsEntry>, kind: &String)
    ensures
        final(items)@.map_values(|d: PushData| d@) == old(items)@.map_values(|d: PushData| d@) + kind_data(
            listed@,
            kind@,
        ),
{
    let ghost start = items@.map_values(|d: PushData| d@);
    let mut j: usize = 0;
    while j < listed.len()
        invariant
            j <= listed@.len(),
            items@.map_values(|d: PushData| d@) == start + kind_data(listed@.take(j as int), kind@),
        decreases listed@.len() - j,
    {
        let e = &listed[j];
        let ghost pre = items@;
        proof {
            assert(listed@.take(j + 1).drop_last() =~= listed@.take(j as int));
            assert(listed@.take(j + 1).last() == listed@[j as int]);
        }
        if e.data.kind == *kind {
            let d = e.data.clone();
            items.push(d);
            proof {
                assert(items@.map_values(|d: PushData| d@) =~= pre.map_values(|d: PushData| d@).push(d@));
            }
        }
        j = j + 1;
    }
    proof {
        assert(listed@.take(listed@.len() as int) =~= listed@);
    }
}

/// Peers picked at random to pass a push on to: distinct stored contacts,
/// as many as the fan-out allows.
pub open spec fn picked_peers(peers: Seq<ContactInfo>, contacts: Map<[u8; 32], ContactInfo>) -> bool {
    &&& lists_contacts(peers, contacts)
    &&& peers.len() == (if FORWARD_FANOUT < contacts.dom().len() {
        FORWARD_FANOUT as int
    } else {
        contacts.dom().len() as int
    })
}

/// How many of the peers are neither this validator nor the sender.
pub open spec fn forward_count(peers: Seq<ContactInfo>, id: [u8; 32], from: [u8; 32]) -> nat
    decreases peers.len(),
{
    if peers.len() == 0 {
        0
    } else {
        forward_count(peers.drop_last(), id, from) + (if peers.last().pubkey != id && peers.last().pubkey != from {
            1nat
        } else {
            0nat
        })
    }
}

/// How many insertions a message may make: a pull response's items, at
/// least one.
pub open spec fn room_needed(payload: GossipPayload) -> nat {
    match payload {
        GossipPayload::PullResponse(r) => if r.items@.len() == 0 {
            1
        } else {
            r.items@.len()
        },
        _ => 1,
    }
}

/// The store can take `n` more insertions without a counter overflowing.
pub open spec fn can_take(c: CrdsView, n: nat) -> bool {
    &&& c.total_inserted + n <= u64::MAX
    &&& c.total_pruned + c.entries.dom().len() + n <= u64::MAX
    &&& c.max_entries * 9 <= usize::MAX
}

/// The contact information sent with requests and responses.
fn default_contact(id: [u8; 32]) -> (c: ContactInfo)
    ensures
        is_default_contact(c, id),
{
    let c = ContactInfo {
        pubkey: id,
        gossip: SocketAddr::localhost(8000),
        tpu: SocketAddr::localhost(8001),
        rpc: SocketAddr::localhost(8002),
        tvu: SocketAddr::localhost(8003),
        stake: 0,
        version: String::from_str("0.1.0"),
        wallclock: 0,
    };
    c
}

impl GossipProtocol {
    /// The store is well formed.
    pub closed spec fn wf(&self) -> bool {
        self.crds.wf()
    }

    /// A handler for `validator_id` over the store, with nothing counted.
    pub fn new(validator_id: [u8; 32], crds: Crds) -> (p: Self)
        requires
            crds.wf(),
        ensures
            p.wf(),
            p@.crds == crds@,
            p@.validator_id == validator_id,
            p@.counts.dom().is_empty(),
            p@.pending_pings.dom().is_empty(),
            p@.messages_handled == 0,
            p@.invalid_messages == 0,
            p@.prunes_received == 0,
            p@.pongs_received == 0,
    {
        GossipProtocol {
            crds,
            validator_id,
            received_count: counts_new(),
            pending_pings: pings_new(),
            stats: ProtocolStats::default(),
        }
    }

    /// The contact information sent with requests and responses.
    fn contact_to_send(&self) -> (c: ContactInfo)
        ensures
            sent_contact(c, self@.crds, self@.validator_id),
    {
        match self.crds.self_info() {
            Some(info) => info,
            None => default_contact(self.validator_id),
        }
    }

    /// Handles an incoming message and returns the messages to send in
    /// answer: a new push is stored and passed on to up to three random
    /// peers (not this validator, not the sender); a pull request is
    /// answered with the entries it asks for; a pull response's items and
    /// contact are stored; a ping is answered with a pong; a pong clears its
    /// ping; a prune is counted.
    pub fn handle_message(&mut self, msg: GossipMessage) -> (out: Vec<GossipMessage>)
        requires
            old(self).wf(),
            count_of(old(self)@.counts, msg.message_type) < u64::MAX,
            old(self)@.messages_handled < u64::MAX,
            old(self)@.prunes_received < u64::MAX,
            old(self)@.pongs_received < u64::MAX,
            can_take(old(self)@.crds, room_needed(msg.payload)),
        ensures
            final(self).wf(),
            final(self)@.validator_id == old(self)@.validator_id,
            final(self)@.counts == old(self)@.counts.insert(
                msg.message_type,
                (count_of(old(self)@.counts, msg.message_type) + 1) as u64,
            ),
            final(self)@.messages_handled == old(self)@.messages_handled + 1,
            final(self)@.invalid_messages == old(self)@.invalid_messages,
            handled(old(self)@, msg, final(self)@, out@),
    {
        if !msg.verify_signature() {
            self.stats.invalid_messages = self.stats.invalid_messages + 1;
            return Vec::new();
        }
        let seen = match counts_get(&self.received_count, msg.message_type) {
            Some(c) => c,
            None => 0,
        };
        counts_insert(&mut self.received_count, msg.message_type, seen + 1);
        let ghost p0 = self@;
        let out = match msg.message_type {
            MessageType::Push => self.handle_push(&msg),
            MessageType::PullRequest => self.handle_pull_request(&msg),
            MessageType::PullResponse => {
                self.handle_pull_response(&msg);
                Vec::new()
            },
            MessageType::Prune => {
                self.stats.prunes_received = self.stats.prunes_received + 1;
                Vec::new()
            },
            MessageType::Ping => self.handle_ping(&msg),
            MessageType::Pong => {
                self.handle_pong(&msg);
                Vec::new()
            },
        };
        self.stats.messages_handled = self.stats.messages_handled + 1;
        out
    }

    /// Stores a push and, if it is new, passes it on.
    fn handle_push(&mut self, msg: &GossipMessage) -> (out: Vec<GossipMessage>)
        requires
            old(self).wf(),
            can_take(old(self)@.crds, 1),
        ensures
            final(self).wf(),
            final(self)@ == (ProtocolView { crds: final(self)@.crds, ..old(self)@ }),
            exists|now: u64, inserted: bool|
                #![trigger push_outcome(old(self)@.crds, *msg, now, final(self)@.crds, inserted)]
                push_outcome(old(self)@.crds, *msg, now, final(self)@.crds, inserted) && (!inserted ==> out@.len()
                    == 0) && (inserted ==> exists|peers: Seq<ContactInfo>|
                    #[trigger] picked_peers(peers, old(self)@.crds.contacts) && out@.len() == forward_count(
                        peers,
                        old(self)@.validator_id,
                        msg.from,
                    )),
            out@.len() <= FORWARD_FANOUT,
            forall|i: int|
                0 <= i < out@.len() ==> (msg.payload matches GossipPayload::Push(d) && is_forward(
                    #[trigger] out@[i],
                    old(self)@.validator_id,
                    d@,
                )),
    {
        let inserted = self.crds.insert_push(msg);
        if inserted {
            self.forward_push(msg)
        } else {
            Vec::new()
        }
    }

    /// Passes a push on to up to three random peers, skipping this
    /// validator and the sender.
    fn forward_push(&self, msg: &GossipMessage) -> (out: Vec<GossipMessage>)
        requires
            self.wf(),
        ensures
            out@.len() <= FORWARD_FANOUT,
            forall|i: int|
                0 <= i < out@.len() ==> (msg.payload matches GossipPayload::Push(d) && is_forward(
                    #[trigger] out@[i],
                    self@.validator_id,
                    d@,
                )),
            !(msg.payload is Push) ==> out@.len() == 0,
            msg.payload is Push ==> exists|peers: Seq<ContactInfo>|
                #[trigger] picked_peers(peers, self@.crds.contacts) && out@.len() == forward_count(
                    peers,
                    self@.validator_id,
                    msg.from,
                ),
    {
        let peers = self.crds.random_contacts(FORWARD_FANOUT);
        let mut out: Vec<GossipMessage> = Vec::new();
        let data = match &msg.payload {
            GossipPayload::Push(d) => d,
            _ => {
                return out;
            },
        };
        let mut i: usize = 0;
        while i < peers.len()
            invariant
                peers@.len() <= FORWARD_FANOUT,
                i <= peers@.len(),
                out@.len() <= i,
                out@.len() == forward_count(peers@.take(i as int), self@.validator_id, msg.from),
                msg.payload == GossipPayload::Push(*data),
                forall|j: int| 0 <= j < out@.len() ==> is_forward(#[trigger] out@[j], self@.validator_id, data@),
            decreases peers@.len() - i,
        {
            proof {
                assert(peers@.take(i + 1).drop_last() =~= peers@.take(i as int));
                assert(peers@.take(i + 1).last() == peers@[i as int]);
            }
            let peer = &peers[i];
            if !crate::crypto::keys_eq(&peer.pubkey, &self.validator_id) && !crate::crypto::keys_eq(
                &peer.pubkey,
                &msg.from,
            ) {
                let forward = GossipMessage::new(self.validator_id, MessageType::Push, GossipPayload::Push(data.clone()));
                out.push(forward);
            }
            i = i + 1;
        }
        proof {
            assert(peers@.take(peers@.len() as int) =~= peers@);
            assert(picked_peers(peers@, self@.crds.contacts));
        }
        out
    }

    /// Answers a pull request with the entries its filters ask for.
    fn handle_pull_request(&self, msg: &GossipMessage) -> (out: Vec<GossipMessage>)
        requires
            self.wf(),
        ensures
            match msg.payload {
                GossipPayload::PullRequest(req) => out@.len() == 1 && pull_response_for(
                    out@[0],
                    self@,
                    req.filters@,
                ),
                _ => out@.len() == 0,
            },
    {
        let mut out: Vec<GossipMessage> = Vec::new();
        let request = match &msg.payload {
            GossipPayload::PullRequest(r) => r,
            _ => {
                return out;
            },
        };
        let ghost entries = self@.crds.entries;
        let ghost filters = request.filters@;
        let mut items: Vec<PushData> = Vec::new();
        let mut f: usize = 0;
        while f < request.filters.len()
            invariant
                self.wf(),
                entries == self@.crds.entries,
                filters == request.filters@,
                f <= filters.len(),
                items@.len() == requested_count(entries, filters.take(f as int)),
                forall|i: int|
                    0 <= i < items@.len() ==> #[trigger] supplies(entries, filters, items@[i]@),
            decreases filters.len() - f,
        {
            let (kind, timestamp) = &request.filters[f];
            let newer = self.crds.entries_newer_than(*timestamp);
            let ghost chosen = newer_than(entries, *timestamp);
            let ghost before = items@;
            proof {
                vstd::set_lib::lemma_len_subset(chosen, entries.dom());
                lemma_kind_data(newer@, entries, chosen, kind@);
            }
            push_of_kind(&mut items, &newer, kind);
            proof {
                let kd = kind_data(newer@, kind@);
                assert(items@.map_values(|d: PushData| d@).len() == items@.len());
                assert(before.map_values(|d: PushData| d@).len() == before.len());
                assert(filters.take(f + 1).drop_last() =~= filters.take(f as int));
                assert(filters.take(f + 1).last() == filters[f as int]);
                assert forall|i: int| 0 <= i < items@.len() implies #[trigger] supplies(entries, filters, items@[i]@) by {
                    assert(items@.map_values(|d: PushData| d@)[i] == items@[i]@);
                    if i < before.len() {
                        assert(before.map_values(|d: PushData| d@)[i] == before[i]@);
                    } else {
                        let k = i - before.len();
                        assert(items@[i]@ == kd[k]);
                        let id = kd[k].id;
                        assert(of_kind(entries, filters[f as int].0@).contains(id));
                        assert(newer_than(entries, filters[f as int].1).contains(id));
                    }
                }
            }
            f = f + 1;
        }
        proof {
            assert(filters.take(filters.len() as int) =~= filters);
        }
        let contact = self.contact_to_send();
        let response = GossipMessage::new(
            self.validator_id,
            MessageType::PullResponse,
            GossipPayload::PullResponse(PullResponseData { items, contact_info: contact }),
        );
        out.push(response);
        out
    }

    /// Stores a pull response's items as pushes from its sender, then its
    /// contact.
    fn handle_pull_response(&mut self, msg: &GossipMessage)
        requires
            old(self).wf(),
            can_take(
                old(self)@.crds,
                match msg.payload {
                    GossipPayload::PullResponse(r) => r.items@.len(),
                    _ => 0,
                },
            ),
        ensures
            final(self).wf(),
            final(self)@ == (ProtocolView { crds: final(self)@.crds, ..old(self)@ }),
            match msg.payload {
                GossipPayload::PullResponse(r) => final(self)@.crds.contacts == old(self)@.crds.contacts.insert(
                    r.contact_info.pubkey,
                    r.contact_info,
                ) && final(self)@.crds.self_info == old(self)@.crds.self_info,
                _ => final(self)@.crds == old(self)@.crds,
            },
    {
        let response = match &msg.payload {
            GossipPayload::PullResponse(r) => r,
            _ => {
                return ;
            },
        };
        let ghost c0 = self@.crds;
        let mut i: usize = 0;
        while i < response.items.len()
            invariant
                self.wf(),
                i <= response.items@.len(),
                self@ == (ProtocolView { crds: self@.crds, ..old(self)@ }),
                self@.crds.contacts == c0.contacts,
                self@.crds.self_info == c0.self_info,
                self@.crds.max_entries == c0.max_entries,
                self@.crds.total_inserted <= c0.total_inserted + i,
                self@.crds.total_pruned + self@.crds.entries.dom().len() <= c0.total_pruned + c0.entries.dom().len()
                    + i,
                can_take(c0, response.items@.len()),
            decreases response.items@.len() - i,
        {
            let push = GossipMessage::new(msg.from, MessageType::Push, GossipPayload::Push(response.items[i].clone()));
            let ghost before = self@.crds;
            let _ = self.crds.insert_push(&push);
            proof {
                let after = self@.crds;
                let (now, ins) = choose|now: u64, ins: bool| #[trigger] push_outcome(before, push, now, after, ins);
                assert(push_outcome(before, push, now, after, ins));
                if !before.entries.contains_key(push.payload->Push_0.id) {
                    let grown = before.entries.insert(push.payload->Push_0.id, crate::gossip::crds::new_entry(
                        push.payload->Push_0@,
                        push.from,
                        now,
                    ));
                    vstd::set_lib::lemma_set_insert_finite_iff(before.entries.dom(), push.payload->Push_0.id);
                    assert(grown.dom() =~= before.entries.dom().insert(push.payload->Push_0.id));
                }
            }
            i = i + 1;
        }
        self.crds.insert_contact(response.contact_info.clone());
    }

    /// Answers a ping with a pong carrying its nonce.
    fn handle_ping(&self, msg: &GossipMessage) -> (out: Vec<GossipMessage>)
        ensures
            match msg.payload {
                GossipPayload::Ping(ping) => out@.len() == 1 && out@[0].from == self@.validator_id
                    && out@[0].message_type == MessageType::Pong && out@[0].payload == GossipPayload::Pong(
                    PongData { nonce: ping.nonce },
                ),
                _ => out@.len() == 0,
            },
    {
        let mut out: Vec<GossipMessage> = Vec::new();
        match &msg.payload {
            GossipPayload::Ping(ping) => {
                let pong = GossipMessage::new(
                    self.validator_id,
                    MessageType::Pong,
                    GossipPayload::Pong(PongData { nonce: ping.nonce }),
                );
                out.push(pong);
            },
            _ => {},
        }
        out
    }

    /// Clears the ping a pong answers and counts the pong.
    fn handle_pong(&mut self, msg: &GossipMessage)
        requires
            old(self)@.pongs_received < u64::MAX,
        ensures
            final(self).wf() == old(self).wf(),
            match msg.payload {
                GossipPayload::Pong(pong) => final(self)@ == (ProtocolView {
                    pending_pings: old(self)@.pending_pings.remove(pong.nonce),
                    pongs_received: (old(self)@.pongs_received + 1) as u64,
                    ..old(self)@
                }),
                _ => final(self)@ == old(self)@,
            },
    {
        match &msg.payload {
            GossipPayload::Pong(pong) => {
                pings_remove(&mut self.pending_pings, pong.nonce);
                self.stats.pongs_received = self.stats.pongs_received + 1;
            },
            _ => {},
        }
    }

    /// A ping to `peer` with a random nonce, remembered until its pong.
    pub fn send_ping(&mut self, peer: ContactInfo) -> (ping: GossipMessage)
        ensures
            final(self).wf() == old(self).wf(),
            ping.from == old(self)@.validator_id,
            ping.message_type == MessageType::Ping,
            ping.payload matches GossipPayload::Ping(p) && final(self)@ == (ProtocolView {
                pending_pings: old(self)@.pending_pings.insert(p.nonce, peer.pubkey),
                ..old(self)@
            }),
    {
        let nonce = random_nonce();
        pings_insert(&mut self.pending_pings, nonce, peer.pubkey);
        GossipMessage::new(self.validator_id, MessageType::Ping, GossipPayload::Ping(PingData { nonce }))
    }

    /// A pull request with the given filters and this validator's contact.
    pub fn send_pull_request(&self, _peer: ContactInfo, filters: Vec<(String, u64)>) -> (req: GossipMessage)
        ensures
            req.from == self@.validator_id,
            req.message_type == MessageType::PullRequest,
            req.payload matches GossipPayload::PullRequest(r) && r.filters == filters && sent_contact(
                r.contact_info,
                self@.crds,
                self@.validator_id,
            ),
    {
        let contact = self.contact_to_send();
        GossipMessage::new(
            self.validator_id,
            MessageType::PullRequest,
            GossipPayload::PullRequest(PullRequestData { filters, contact_info: contact }),
        )
    }

    /// The counters.
    pub fn stats(&self) -> (s: ProtocolStats)
        ensures
            s.messages_handled == self@.messages_handled,
            s.invalid_messages == self@.invalid_messages,
            s.prunes_received == self@.prunes_received,
            s.pongs_received == self@.pongs_received,
    {
        ProtocolStats {
            messages_handled: self.stats.messages_handled,
            invalid_messages: self.stats.invalid_messages,
            prunes_received: self.stats.prunes_received,
            pongs_received: self.stats.pongs_received,
        }
    }

    /// The store.
    pub fn crds(&self) -> (c: &Crds)
        ensures
            c@ == self@.crds,
            self.wf() ==> c.wf(),
    {
        &self.crds
    }
}

/// The answer to a pull request: a pull response from this validator with
/// as many items as the filters ask for, each the data of an entry one of
/// them asks for, and the contact information it sends.
pub open spec fn pull_response_for(out: GossipMessage, p: ProtocolView, filters: Seq<(String, u64)>) -> bool {
    &&& out.from == p.validator_id
    &&& out.message_type == MessageType::PullResponse
    &&& out.payload matches GossipPayload::PullResponse(r) && {
        &&& r.items@.len() == requested_count(p.crds.entries, filters)
        &&& forall|i: int| 0 <= i < r.items@.len() ==> #[trigger] supplies(p.crds.entries, filters, r.items@[i]@)
        &&& sent_contact(r.contact_info, p.crds, p.validator_id)
    }
}

/// What handling a message did, beyond the counts.
pub open spec fn handled(p0: ProtocolView, msg: GossipMessage, p1: ProtocolView, out: Seq<GossipMessage>) -> bool {
    match msg.message_type {
        MessageType::Push => {
            &&& p1.pending_pings == p0.pending_pings
            &&& p1.prunes_received == p0.prunes_received
            &&& p1.pongs_received == p0.pongs_received
            &&& exists|now: u64, inserted: bool|
                #![trigger push_outcome(p0.crds, msg, now, p1.crds, inserted)]
                push_outcome(p0.crds, msg, now, p1.crds, inserted) && (!inserted ==> out.len() == 0) && (inserted
                    ==> exists|peers: Seq<ContactInfo>|
                    #[trigger] picked_peers(peers, p0.crds.contacts) && out.len() == forward_count(
                        peers,
                        p0.validator_id,
                        msg.from,
                    ))
            &&& out.len() <= FORWARD_FANOUT
            &&& forall|i: int|
                0 <= i < out.len() ==> (msg.payload matches GossipPayload::Push(d) && is_forward(
                    #[trigger] out[i],
                    p0.validator_id,
                    d@,
                ))
        },
        MessageType::PullRequest => {
            &&& p1.crds == p0.crds
            &&& p1.pending_pings == p0.pending_pings
            &&& p1.prunes_received == p0.prunes_received
            &&& p1.pongs_received == p0.pongs_received
            &&& match msg.payload {
                GossipPayload::PullRequest(req) => out.len() == 1 && pull_response_for(out[0], p0, req.filters@),
                _ => out.len() == 0,
            }
        },
        MessageType::PullResponse => {
            &&& p1.pending_pings == p0.pending_pings
            &&& p1.prunes_received == p0.prunes_received
            &&& p1.pongs_received == p0.pongs_received
            &&& out.len() == 0
            &&& match msg.payload {
                GossipPayload::PullResponse(r) => p1.crds.contacts == p0.crds.contacts.insert(
                    r.contact_info.pubkey,
                    r.contact_info,
                ) && p1.crds.self_info == p0.crds.self_info,
                _ => p1.crds == p0.crds,
            }
        },
        MessageType::Prune => {
            &&& p1.crds == p0.crds
            &&& p1.pending_pings == p0.pending_pings
            &&& p1.prunes_received == p0.prunes_received + 1
            &&& p1.pongs_received == p0.pongs_received
            &&& out.len() == 0
        },
        MessageType::Ping => {
            &&& p1.crds == p0.crds
            &&& p1.pending_pings == p0.pending_pings
            &&& p1.prunes_received == p0.prunes_received
            &&& p1.pongs_received == p0.pongs_received
            &&& match msg.payload {
                GossipPayload::Ping(ping) => out.len() == 1 && out[0].from == p0.validator_id
                    && out[0].message_type == MessageType::Pong && out[0].payload == GossipPayload::Pong(
                    PongData { nonce: ping.nonce },
                ),
                _ => out.len() == 0,
            }
        },
        MessageType::Pong => {
            &&& p1.crds == p0.crds
            &&& p1.prunes_received == p0.prunes_received
            &&& out.len() == 0
            &&& match msg.payload {
                GossipPayload::Pong(pong) => p1.pending_pings == p0.pending_pings.remove(pong.nonce)
                    && p1.pongs_received == p0.pongs_received + 1,
                _ => p1.pending_pings == p0.pending_pings && p1.pongs_received == p0.pongs_received,
            }
        },
    }
}

} // verus!
