//! The propagator's bookkeeping: which shreds go to which neighbors, the
//! shreds received per slot, reassembly, and the counters. Sending is left
//! to the caller, who gets the messages to send.

use crate::consensus::vote::now_millis;
use crate::turbine::erasure::{shred_views, spec_decode, spec_encode, ErasureCoder};
use crate::turbine::neighborhoods::{node_views, position_of, tree_ok, Neighborhood, TurbineNode};
use crate::turbine::shred::{Shred, ShredView};
use dashmap::DashMap;
use vstd::prelude::*;

verus! {

/// A received shred with where and when it came from.
#[derive(Debug)]
pub struct ReceivedShred {
    pub shred: Shred,
    pub received_from: [u8; 32],
    pub received_at: u64,
}

/// A received shred as values.
pub struct ReceivedView {
    pub shred: ShredView,
    pub received_from: [u8; 32],
    pub received_at: u64,
}

impl View for ReceivedShred {
    type V = ReceivedView;

    open spec fn view(&self) -> ReceivedView {
        ReceivedView { shred: self.shred@, received_from: self.received_from, received_at: self.received_at }
    }
}

impl Clone for ReceivedShred {
    fn clone(&self) -> (r: Self)
        ensures
            r@ == self@,
    {
        ReceivedShred { shred: self.shred.clone(), received_from: self.received_from, received_at: self.received_at }
    }
}

/// Propagation counters.
#[derive(Debug, Clone)]
pub struct PropagationStats {
    pub blocks_propagated: u64,
    pub shreds_sent: u64,
    pub shreds_received: u64,
    pub blocks_reassembled: u64,
    pub propagation_errors: u64,
}

impl Default for PropagationStats {
    fn default() -> (s: Self)
        ensures
            s.blocks_propagated == 0,
            s.shreds_sent == 0,
            s.shreds_received == 0,
            s.blocks_reassembled == 0,
            s.propagation_errors == 0,
    {
        PropagationStats {
            blocks_propagated: 0,
            shreds_sent: 0,
            shreds_received: 0,
            blocks_reassembled: 0,
            propagation_errors: 0,
        }
    }
}

/// The shreds of some received shreds, in order.
pub fn shreds_of(received: &Vec<ReceivedShred>) -> (r: Vec<Shred>)
    ensures
        shred_views(r@) == received@.map_values(|x: ReceivedShred| x@.shred),
{
    let mut r: Vec<Shred> = Vec::new();
    let mut i: usize = 0;
    while i < received.len()
        invariant
            i <= received@.len(),
            shred_views(r@) == received@.take(i as int).map_values(|x: ReceivedShred| x@.shred),
        decreases received@.len() - i,
    {
        let ghost before = r@;
        let c = received[i].shred.clone();
        r.push(c);
        proof {
            assert(shred_views(r@) =~= shred_views(before).push(received@[i as int]@.shred));
            assert(received@.take(i + 1) =~= received@.take(i as int).push(received@[i as int]));
        }
        i = i + 1;
        assert(shred_views(r@) =~= received@.take(i as int).map_values(|x: ReceivedShred| x@.shred));
    }
    assert(received@.take(i as int) =~= received@);
    r
}

/// The number of received shreds in a list.
pub fn received_len(received: &Vec<ReceivedShred>) -> (n: usize)
    ensures
        n == received@.len(),
{
    received.len()
}

/// What the received-shred map holds: the shreds of each slot in arrival
/// order.
pub uninterp spec fn received_entries(m: DashMap<u64, Vec<ReceivedShred>>) -> Map<u64, Seq<ReceivedView>>;

/// An empty map (`DashMap::new`).
///
/// Trusted: a new map holds nothing.
#[verifier::external_body]
fn received_new() -> (m: DashMap<u64, Vec<ReceivedShred>>)
    ensures
        received_entries(m).dom().is_empty(),
{
    DashMap::new()
}

/// Appends a received shred to its slot's list, creating the list if there
/// is none (`entry(..).or_default().push(..)`).
///
/// Trusted: only that slot's list changes, by the one push.
#[verifier::external_body]
fn received_push(m: &mut DashMap<u64, Vec<ReceivedShred>>, slot: u64, r: ReceivedShred)
    ensures
        received_entries(*final(m)) == received_entries(*old(m)).insert(
            slot,
            (if received_entries(*old(m)).contains_key(slot) {
                received_entries(*old(m))[slot]
            } else {
                Seq::<ReceivedView>::empty()
            }).push(r@),
        ),
{
    m.entry(slot).or_default().push(r);
}

/// Copies of the shreds received for `slot` (`DashMap::get`).
///
/// Trusted: the shreds of a present slot, in order; nothing otherwise.
#[verifier::external_body]
fn received_shreds_at(m: &DashMap<u64, Vec<ReceivedShred>>, slot: u64) -> (r: Option<Vec<Shred>>)
    ensures
        match r {
            Some(v) => received_entries(*m).contains_key(slot) && shred_views(v@) == received_entries(
                *m,
            )[slot].map_values(|x: ReceivedView| x.shred),
            None => !received_entries(*m).contains_key(slot),
        },
{
    m.get(&slot).map(|v| shreds_of(v.value()))
}

/// The number of shreds received for `slot` (`DashMap::get`).
///
/// Trusted: the count of a present slot; nothing otherwise.
#[verifier::external_body]
fn received_count_at(m: &DashMap<u64, Vec<ReceivedShred>>, slot: u64) -> (r: Option<usize>)
    ensures
        r == (if received_entries(*m).contains_key(slot) {
            Some(received_entries(*m)[slot].len() as usize)
        } else {
            None::<usize>
        }),
{
    m.get(&slot).map(|v| received_len(v.value()))
}

/// A message to a neighbor: its key and the shreds.
pub type Outgoing = (Vec<u8>, Vec<Shred>);

/// The views of some messages.
pub open spec fn outgoing_views(msgs: Seq<Outgoing>) -> Seq<(Seq<u8>, Seq<ShredView>)> {
    msgs.map_values(|o: Outgoing| (o.0@, shred_views(o.1@)))
}

/// Copies of some shreds.
fn copy_shreds(shreds: &Vec<Shred>) -> (r: Vec<Shred>)
    ensures
        shred_views(r@) == shred_views(shreds@),
{
    let mut r: Vec<Shred> = Vec::new();
    let mut i: usize = 0;
    while i < shreds.len()
        invariant
            i <= shreds@.len(),
            shred_views(r@) == shred_views(shreds@.take(i as int)),
        decreases shreds@.len() - i,
    {
        let ghost before = r@;
        let c = shreds[i].clone();
        r.push(c);
        proof {
            assert(shred_views(r@) =~= shred_views(before).push(shreds@[i as int]@));
            assert(shreds@.take(i + 1) =~= shreds@.take(i as int).push(shreds@[i as int]));
        }
        i = i + 1;
        assert(shred_views(r@) =~= shred_views(shreds@.take(i as int)));
    }
    assert(shreds@.take(i as int) =~= shreds@);
    r
}

/// One message with `shreds` for each of `nodes`, keyed by the node's
/// validator.
fn messages_to(nodes: &Vec<&TurbineNode>, shreds: &Vec<Shred>) -> (msgs: Vec<Outgoing>)
    ensures
        outgoing_views(msgs@) == nodes@.map_values(|n: &TurbineNode| (n.validator@, shred_views(shreds@))),
{
    let mut msgs: Vec<Outgoing> = Vec::new();
    let mut i: usize = 0;
    while i < nodes.len()
        invariant
            i <= nodes@.len(),
            outgoing_views(msgs@) == nodes@.take(i as int).map_values(
                |n: &TurbineNode| (n.validator@, shred_views(shreds@)),
            ),
        decreases nodes@.len() - i,
    {
        let key = nodes[i].validator;
        let ghost before = msgs@;
        let m = (vstd::slice::slice_to_vec(key.as_slice()), copy_shreds(shreds));
        msgs.push(m);
        proof {
            assert(outgoing_views(msgs@) =~= outgoing_views(before).push((key@, shred_views(shreds@))));
            assert(nodes@.take(i + 1) =~= nodes@.take(i as int).push(nodes@[i as int]));
        }
        i = i + 1;
        assert(outgoing_views(msgs@) =~= nodes@.take(i as int).map_values(
            |n: &TurbineNode| (n.validator@, shred_views(shreds@)),
        ));
    }
    assert(nodes@.take(i as int) =~= nodes@);
    msgs
}

/// The propagator's state as values.
pub struct PropagatorView {
    pub nodes: Seq<crate::turbine::neighborhoods::TurbineNodeView>,
    pub validator_id: [u8; 32],
    pub received: Map<u64, Seq<ReceivedView>>,
    pub blocks_propagated: u64,
    pub shreds_sent: u64,
    pub shreds_received: u64,
    pub blocks_reassembled: u64,
    pub propagation_errors: u64,
}

/// Cuts blocks into shreds for the neighbors and collects received shreds.
pub struct TurbinePropagator {
    coder: ErasureCoder,
    neighborhood: Neighborhood,
    /// This validator's identity.
    pub validator_id: [u8; 32],
    received_shreds: DashMap<u64, Vec<ReceivedShred>>,
    stats: PropagationStats,
}

impl View for TurbinePropagator {
    type V = PropagatorView;

    closed spec fn view(&self) -> PropagatorView {
        PropagatorView {
            nodes: node_views(self.neighborhood.nodes@),
            validator_id: self.validator_id,
            received: received_entries(self.received_shreds),
            blocks_propagated: self.stats.blocks_propagated,
            shreds_sent: self.stats.shreds_sent,
            shreds_received: self.stats.shreds_received,
            blocks_reassembled: self.stats.blocks_reassembled,
            propagation_errors: self.stats.propagation_errors,
        }
    }
}

/// The neighbors of `id` in `nodes`: the parent, then the children.
pub open spec fn neighbor_keys(nodes: Seq<crate::turbine::neighborhoods::TurbineNodeView>, id: [u8; 32]) -> Seq<
    Seq<u8>,
> {
    match position_of(nodes, id) {
        None => Seq::empty(),
        Some(i) => {
            let n = nodes[i];
            let up: Seq<Seq<u8>> = match n.parent {
                Some(p) => seq![nodes[p as int].validator@],
                None => Seq::empty(),
            };
            up + n.children.map_values(|c: usize| nodes[c as int].validator@)
        },
    }
}

/// The children of `id` in `nodes`.
pub open spec fn child_keys(nodes: Seq<crate::turbine::neighborhoods::TurbineNodeView>, id: [u8; 32]) -> Seq<Seq<u8>> {
    match position_of(nodes, id) {
        None => Seq::empty(),
        Some(i) => nodes[i].children.map_values(|c: usize| nodes[c as int].validator@),
    }
}

/// The state after a shred from `from` is received at `at`: it joins the
/// list of its slot, and the count grows.
pub open spec fn received_with(p: PropagatorView, shred: ShredView, from: [u8; 32], at: u64) -> PropagatorView {
    PropagatorView {
        received: p.received.insert(
            shred.slot,
            (if p.received.contains_key(shred.slot) {
                p.received[shred.slot]
            } else {
                Seq::<ReceivedView>::empty()
            }).push(ReceivedView { shred, received_from: from, received_at: at }),
        ),
        shreds_received: (p.shreds_received + 1) as u64,
        ..p
    }
}

impl TurbinePropagator {
    /// The coder has the default 16 data and 4 coding shards, and the tree
    /// is well formed.
    pub closed spec fn wf(&self) -> bool {
        &&& self.coder.coder_config().data_shards == 16
        &&& self.coder.coder_config().parity_shards == 4
        &&& tree_ok(node_views(self.neighborhood.nodes@))
    }

    /// A propagator for `validator_id` over the given tree, with the default
    /// coder, nothing received and zero counters.
    pub fn new(validator_id: [u8; 32], neighborhood: Neighborhood) -> (p: Self)
        requires
            tree_ok(node_views(neighborhood.nodes@)),
        ensures
            p.wf(),
            p@.nodes == node_views(neighborhood.nodes@),
            p@.validator_id == validator_id,
            p@.received.dom().is_empty(),
            p@.blocks_propagated == 0,
            p@.shreds_sent == 0,
            p@.shreds_received == 0,
            p@.blocks_reassembled == 0,
            p@.propagation_errors == 0,
    {
        TurbinePropagator {
            coder: ErasureCoder::default_solana(),
            neighborhood,
            validator_id,
            received_shreds: received_new(),
            stats: PropagationStats::default(),
        }
    }

    /// Cuts a block into shreds and returns one message with all of them
    /// for each neighbor (parent, then children); counts the block and the
    /// shreds sent.
    pub fn propagate_block(&mut self, block_data: Vec<u8>, slot: u64) -> (msgs: Vec<Outgoing>)
        requires
            old(self).wf(),
            block_data@.len() + 16 <= usize::MAX,
            old(self)@.blocks_propagated < u64::MAX,
            old(self)@.shreds_sent + 20 <= u64::MAX,
        ensures
            final(self).wf(),
            outgoing_views(msgs@) == neighbor_keys(old(self)@.nodes, old(self)@.validator_id).map_values(
                |k: Seq<u8>| (k, spec_encode(block_data@, 16, 4, slot)),
            ),
            final(self)@ == (PropagatorView {
                blocks_propagated: (old(self)@.blocks_propagated + 1) as u64,
                shreds_sent: (old(self)@.shreds_sent + 20) as u64,
                ..old(self)@
            }),
    {
        let shreds = self.coder.encode(block_data.as_slice(), slot);
        let neighbors = self.neighborhood.neighbors(&self.validator_id);
        let msgs = messages_to(&neighbors, &shreds);
        proof {
            let v = node_views(self.neighborhood.nodes@);
            let keys = neighbor_keys(v, self.validator_id);
            assert(shred_views(shreds@).len() == 20);
            assert(outgoing_views(msgs@) =~= keys.map_values(
                |k: Seq<u8>| (k, spec_encode(block_data@, 16, 4, slot)),
            )) by {
                match position_of(v, self.validator_id) {
                    None => {},
                    Some(i) => {
                        let n = v[i];
                        assert forall|j: int| 0 <= j < neighbors@.len() implies #[trigger] neighbors@[j].validator@
                            == keys[j] by {
                            match n.parent {
                                Some(p) => {
                                    if j > 0 {
                                        assert(keys[j] == n.children.map_values(
                                            |c: usize| v[c as int].validator@,
                                        )[j - 1]);
                                        assert((*neighbors@[j])@ == v[n.children[j - 1] as int]);
                                    } else {
                                        assert((*neighbors@[0])@ == v[p as int]);
                                    }
                                },
                                None => {
                                    assert(keys[j] == n.children.map_values(|c: usize| v[c as int].validator@)[j]);
                                    assert((*neighbors@[j])@ == v[n.children[j] as int]);
                                },
                            }
                        }
                    },
                }
            }
        }
        self.stats.blocks_propagated = self.stats.blocks_propagated + 1;
        self.stats.shreds_sent = self.stats.shreds_sent + shreds.len() as u64;
        msgs
    }

    /// Counts a message that could not be sent.
    pub fn record_send_failure(&mut self)
        requires
            old(self)@.propagation_errors < u64::MAX,
        ensures
            final(self)@ == (PropagatorView {
                propagation_errors: (old(self)@.propagation_errors + 1) as u64,
                ..old(self)@
            }),
            final(self).wf() == old(self).wf(),
    {
        self.stats.propagation_errors = self.stats.propagation_errors + 1;
    }

    /// Records a shred received from `from`, stamped with the current time.
    pub fn receive_shred(&mut self, shred: Shred, from: [u8; 32])
        requires
            old(self)@.shreds_received < u64::MAX,
        ensures
            final(self).wf() == old(self).wf(),
            exists|t: u64|
                final(self)@ == #[trigger] received_with(old(self)@, shred@, from, t),
    {
        let received_at = now_millis();
        self.receive_shred_at(shred, from, received_at);
    }

    /// Records a shred received from `from` at `received_at`: it joins its
    /// slot's list.
    pub fn receive_shred_at(&mut self, shred: Shred, from: [u8; 32], received_at: u64)
        requires
            old(self)@.shreds_received < u64::MAX,
        ensures
            final(self).wf() == old(self).wf(),
            final(self)@ == received_with(old(self)@, shred@, from, received_at),
    {
        let slot = shred.slot;
        let received = ReceivedShred { shred, received_from: from, received_at };
        received_push(&mut self.received_shreds, slot, received);
        self.stats.shreds_received = self.stats.shreds_received + 1;
    }

    /// Rebuilds the block of `slot` from its received shreds, counting a
    /// success; nothing if no shred of the slot was received or decoding
    /// fails.
    pub fn try_reassemble(&mut self, slot: u64) -> (r: Option<Vec<u8>>)
        requires
            old(self).wf(),
            old(self)@.blocks_reassembled < u64::MAX,
        ensures
            final(self).wf(),
            ({
                let got = if old(self)@.received.contains_key(slot) {
                    spec_decode(old(self)@.received[slot].map_values(|x: ReceivedView| x.shred), 16)
                } else {
                    None
                };
                &&& match got {
                    Some(d) => r matches Some(v) && v@ == d,
                    None => r is None,
                }
                &&& final(self)@ == (PropagatorView {
                    blocks_reassembled: (old(self)@.blocks_reassembled + (if got is Some {
                        1int
                    } else {
                        0
                    })) as u64,
                    ..old(self)@
                })
            }),
    {
        let shreds = match received_shreds_at(&self.received_shreds, slot) {
            Some(s) => s,
            None => return None,
        };
        let result = self.coder.decode(shreds.as_slice());
        if result.is_some() {
            self.stats.blocks_reassembled = self.stats.blocks_reassembled + 1;
        }
        result
    }

    /// One message with the shreds for each child of this validator.
    pub fn forward_shreds(&self, shreds: Vec<Shred>) -> (msgs: Vec<Outgoing>)
        requires
            self.wf(),
        ensures
            outgoing_views(msgs@) == child_keys(self@.nodes, self@.validator_id).map_values(
                |k: Seq<u8>| (k, shred_views(shreds@)),
            ),
    {
        let ghost v = node_views(self.neighborhood.nodes@);
        let mut children: Vec<&TurbineNode> = Vec::new();
        let mut i: usize = 0;
        let nodes = &self.neighborhood.nodes;
        while i < nodes.len() && !crate::crypto::keys_eq(&nodes[i].validator, &self.validator_id)
            invariant
                v == node_views(nodes@),
                i <= nodes@.len(),
                crate::turbine::neighborhoods::first_match(v, self.validator_id, 0)
                    == crate::turbine::neighborhoods::first_match(v, self.validator_id, i as int),
            decreases nodes@.len() - i,
        {
            i = i + 1;
        }
        if i < nodes.len() {
            let node = &nodes[i];
            let mut j: usize = 0;
            while j < node.children.len()
                invariant
                    v == node_views(nodes@),
                    tree_ok(v),
                    i < v.len(),
                    node@ == v[i as int],
                    j <= node.children@.len(),
                    children@.len() == j,
                    forall|m: int| 0 <= m < j ==> (*#[trigger] children@[m])@ == v[node.children@[m] as int],
                decreases node.children@.len() - j,
            {
                let c = node.children[j];
                proof {
                    crate::turbine::neighborhoods::lemma_tree_child(v, i as int, j as int);
                }
                children.push(&nodes[c]);
                j = j + 1;
            }
        }
        let msgs = messages_to(&children, &shreds);
        proof {
            let keys = child_keys(v, self.validator_id);
            assert(outgoing_views(msgs@) =~= keys.map_values(|k: Seq<u8>| (k, shred_views(shreds@)))) by {
                if i < v.len() {
                    assert(position_of(v, self.validator_id) == Some(i as int));
                    assert forall|j: int| 0 <= j < children@.len() implies #[trigger] children@[j].validator@
                        == keys[j] by {
                        assert(keys[j] == v[i as int].children.map_values(|c: usize| v[c as int].validator@)[j]);
                    }
                } else {
                    assert(position_of(v, self.validator_id) is None);
                }
            }
        }
        msgs
    }

    /// The counters.
    pub fn stats(&self) -> (s: PropagationStats)
        ensures
            s.blocks_propagated == self@.blocks_propagated,
            s.shreds_sent == self@.shreds_sent,
            s.shreds_received == self@.shreds_received,
            s.blocks_reassembled == self@.blocks_reassembled,
            s.propagation_errors == self@.propagation_errors,
    {
        PropagationStats {
            blocks_propagated: self.stats.blocks_propagated,
            shreds_sent: self.stats.shreds_sent,
            shreds_received: self.stats.shreds_received,
            blocks_reassembled: self.stats.blocks_reassembled,
            propagation_errors: self.stats.propagation_errors,
        }
    }

    /// The number of shreds received for `slot`.
    pub fn shreds_received_for_slot(&self, slot: u64) -> (n: usize)
        ensures
            n == (if self@.received.contains_key(slot) {
                self@.received[slot].len() as usize
            } else {
                0
            }),
    {
        match received_count_at(&self.received_shreds, slot) {
            Some(n) => n,
            None => 0,
        }
    }
}

} // verus!
