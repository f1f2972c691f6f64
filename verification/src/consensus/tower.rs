//! The tower: the vote tree with each validator's vote state. Votes are
//! taken only in increasing slot order and, when they switch forks, only
//! after the lockout; the heaviest block is the best head.

use crate::consensus::vote::{
    fresh_state, is_switch, lemma_lockout_bounds, lockout_for, state_after_vote, rooted, vote_accepted,
    ValidatorId, Vote, VoteState, VoteStateView,
};
use dashmap::DashMap;
use vstd::prelude::*;

verus! {

/// A block in the tower.
#[derive(Debug)]
pub struct TowerNode {
    /// Block hash.
    pub block_hash: [u8; 32],
    /// Slot.
    pub slot: u64,
    /// Parent slot.
    pub parent_slot: Option<u64>,
    /// Number of votes for the block.
    pub weight: u64,
    /// Validators that voted for it, in vote order.
    pub voters: Vec<ValidatorId>,
    /// Child block hashes.
    pub children: Vec<[u8; 32]>,
}

/// A tower node as values.
pub struct TowerNodeView {
    pub block_hash: [u8; 32],
    pub slot: u64,
    pub parent_slot: Option<u64>,
    pub weight: u64,
    pub voters: Seq<ValidatorId>,
    pub children: Seq<[u8; 32]>,
}

impl View for TowerNode {
    type V = TowerNodeView;

    open spec fn view(&self) -> TowerNodeView {
        TowerNodeView {
            block_hash: self.block_hash,
            slot: self.slot,
            parent_slot: self.parent_slot,
            weight: self.weight,
            voters: self.voters@,
            children: self.children@,
        }
    }
}

/// A copy of a list of 32-byte keys.
pub(crate) fn copy_keys(v: &Vec<[u8; 32]>) -> (r: Vec<[u8; 32]>)
    ensures
        r@ == v@,
{
    let mut r: Vec<[u8; 32]> = Vec::new();
    let mut i: usize = 0;
    while i < v.len()
        invariant
            i <= v@.len(),
            r@ == v@.take(i as int),
        decreases v@.len() - i,
    {
        r.push(v[i]);
        i = i + 1;
        assert(r@ =~= v@.take(i as int));
    }
    assert(v@.take(i as int) =~= v@);
    r
}

impl Clone for TowerNode {
    fn clone(&self) -> (r: Self)
        ensures
            r@ == self@,
    {
        TowerNode {
            block_hash: self.block_hash,
            slot: self.slot,
            parent_slot: self.parent_slot,
            weight: self.weight,
            voters: copy_keys(&self.voters),
            children: copy_keys(&self.children),
        }
    }
}

/// Whether a node is kept when the root moves to `root`.
pub fn node_at_or_after(node: &TowerNode, root: u64) -> (b: bool)
    ensures
        b == (node.slot >= root),
{
    node.slot >= root
}

/// What the tower's node map holds, by block hash.
pub uninterp spec fn node_entries(m: DashMap<[u8; 32], TowerNode>) -> Map<[u8; 32], TowerNodeView>;

/// What the tower's state map holds, by validator.
pub uninterp spec fn state_entries(m: DashMap<ValidatorId, VoteState>) -> Map<ValidatorId, VoteStateView>;

/// An empty node map (`DashMap::new`).
///
/// Trusted: a new map holds nothing.
#[verifier::external_body]
fn nodes_new() -> (m: DashMap<[u8; 32], TowerNode>)
    ensures
        node_entries(m).dom().is_empty(),
{
    DashMap::new()
}

/// An empty state map (`DashMap::new`).
///
/// Trusted: a new map holds nothing.
#[verifier::external_body]
fn states_new() -> (m: DashMap<ValidatorId, VoteState>)
    ensures
        state_entries(m).dom().is_empty(),
{
    DashMap::new()
}

/// `DashMap::remove` on the node map, handing out the value.
///
/// Trusted: the key no longer maps to anything; the value it mapped to, if
/// any, is returned.
#[verifier::external_body]
fn nodes_remove(m: &mut DashMap<[u8; 32], TowerNode>, key: &[u8; 32]) -> (v: Option<TowerNode>)
    ensures
        node_entries(*final(m)) == node_entries(*old(m)).remove(*key),
        match v {
            Some(n) => node_entries(*old(m)).contains_key(*key) && n@ == node_entries(*old(m))[*key],
            None => !node_entries(*old(m)).contains_key(*key),
        },
{
    m.remove(key).map(|(_, n)| n)
}

/// `DashMap::insert` on the node map.
///
/// Trusted: the key now maps to the value; other keys are unchanged.
#[verifier::external_body]
fn nodes_insert(m: &mut DashMap<[u8; 32], TowerNode>, key: [u8; 32], value: TowerNode)
    ensures
        node_entries(*final(m)) == node_entries(*old(m)).insert(key, value@),
{
    m.insert(key, value);
}

/// `DashMap::remove` on the state map, handing out the value.
///
/// Trusted: the key no longer maps to anything; the value it mapped to, if
/// any, is returned.
#[verifier::external_body]
fn states_remove(m: &mut DashMap<ValidatorId, VoteState>, key: &ValidatorId) -> (v: Option<VoteState>)
    ensures
        state_entries(*final(m)) == state_entries(*old(m)).remove(*key),
        match v {
            Some(s) => state_entries(*old(m)).contains_key(*key) && s@ == state_entries(*old(m))[*key],
            None => !state_entries(*old(m)).contains_key(*key),
        },
{
    m.remove(key).map(|(_, s)| s)
}

/// `DashMap::insert` on the state map.
///
/// Trusted: the key now maps to the value; other keys are unchanged.
#[verifier::external_body]
fn states_insert(m: &mut DashMap<ValidatorId, VoteState>, key: ValidatorId, value: VoteState)
    ensures
        state_entries(*final(m)) == state_entries(*old(m)).insert(key, value@),
{
    m.insert(key, value);
}

/// `DashMap::len` on the node map.
///
/// Trusted: the number of keys present.
#[verifier::external_body]
fn nodes_len(m: &DashMap<[u8; 32], TowerNode>) -> (n: usize)
    ensures
        n == node_entries(*m).dom().len(),
{
    m.len()
}

/// `DashMap::len` on the state map.
///
/// Trusted: the number of keys present.
#[verifier::external_body]
fn states_len(m: &DashMap<ValidatorId, VoteState>) -> (n: usize)
    ensures
        n == state_entries(*m).dom().len(),
{
    m.len()
}

/// The keys of the node map, from `DashMap::iter`, in the map's own order.
///
/// Trusted: each key present appears exactly once; the order is left open.
#[verifier::external_body]
fn nodes_keys(m: &DashMap<[u8; 32], TowerNode>) -> (keys: Vec<[u8; 32]>)
    ensures
        keys@.no_duplicates(),
        keys@.to_set() == node_entries(*m).dom(),
{
    m.iter().map(|e| *e.key()).collect()
}

/// The keys of the state map, from `DashMap::iter`, in the map's own order.
///
/// Trusted: each key present appears exactly once; the order is left open.
#[verifier::external_body]
fn states_keys(m: &DashMap<ValidatorId, VoteState>) -> (keys: Vec<ValidatorId>)
    ensures
        keys@.no_duplicates(),
        keys@.to_set() == state_entries(*m).dom(),
{
    m.iter().map(|e| *e.key()).collect()
}

/// Slot and weight of the node under `key` (`DashMap::get`, picking two
/// fields).
///
/// Trusted: returns them for a present key, nothing otherwise.
#[verifier::external_body]
fn nodes_slot_weight(m: &DashMap<[u8; 32], TowerNode>, key: &[u8; 32]) -> (r: Option<(u64, u64)>)
    ensures
        r == (if node_entries(*m).contains_key(*key) {
            Some((node_entries(*m)[*key].slot, node_entries(*m)[*key].weight))
        } else {
            None::<(u64, u64)>
        }),
{
    m.get(key).map(|n| (n.slot, n.weight))
}

/// A copy of the node under `key` (`DashMap::get` and `TowerNode::clone`).
///
/// Trusted: returns a copy for a present key, nothing otherwise.
#[verifier::external_body]
fn nodes_get_copy(m: &DashMap<[u8; 32], TowerNode>, key: &[u8; 32]) -> (r: Option<TowerNode>)
    ensures
        match r {
            Some(n) => node_entries(*m).contains_key(*key) && n@ == node_entries(*m)[*key],
            None => !node_entries(*m).contains_key(*key),
        },
{
    m.get(key).map(|n| n.value().clone())
}

/// `DashMap::retain` keeping the nodes at or after `root`.
///
/// Trusted: exactly the entries whose node is at or after `root` remain.
#[verifier::external_body]
fn nodes_retain_from(m: &mut DashMap<[u8; 32], TowerNode>, root: u64)
    ensures
        node_entries(*final(m)) == node_entries(*old(m)).restrict(
            node_entries(*old(m)).dom().filter(|k: [u8; 32]| node_entries(*old(m))[k].slot >= root),
        ),
{
    m.retain(|_, node| node_at_or_after(node, root));
}

/// The tower's state as values.
pub struct TowerView {
    pub nodes: Map<[u8; 32], TowerNodeView>,
    pub states: Map<ValidatorId, VoteStateView>,
    pub root_slot: u64,
    pub best_head: Option<[u8; 32]>,
    pub total_votes: u64,
    pub total_switches: u64,
}

/// The vote tower.
pub struct Tower {
    nodes: DashMap<[u8; 32], TowerNode>,
    validator_states: DashMap<ValidatorId, VoteState>,
    root_slot: u64,
    best_head: Option<[u8; 32]>,
    total_votes: u64,
    total_switches: u64,
}

/// Tower counters.
#[derive(Debug, Clone)]
pub struct TowerStats {
    pub total_nodes: usize,
    pub total_validators: usize,
    pub total_votes: u64,
    pub total_switches: u64,
    pub root_slot: u64,
    pub best_head: Option<[u8; 32]>,
}

impl View for Tower {
    type V = TowerView;

    closed spec fn view(&self) -> TowerView {
        TowerView {
            nodes: node_entries(self.nodes),
            states: state_entries(self.validator_states),
            root_slot: self.root_slot,
            best_head: self.best_head,
            total_votes: self.total_votes,
            total_switches: self.total_switches,
        }
    }
}

/// The state a validator votes from: its own, or a fresh one at the root.
pub open spec fn state_of(t: TowerView, validator: ValidatorId) -> VoteStateView {
    if t.states.contains_key(validator) {
        t.states[validator]
    } else {
        fresh_state(validator, t.root_slot)
    }
}

/// The node for a vote's block after the vote is counted.
pub open spec fn node_after_vote(nodes: Map<[u8; 32], TowerNodeView>, vote: Vote) -> TowerNodeView {
    if nodes.contains_key(vote.block_hash) {
        let n = nodes[vote.block_hash];
        TowerNodeView { weight: (n.weight + 1) as u64, voters: n.voters.push(vote.validator), ..n }
    } else {
        TowerNodeView {
            block_hash: vote.block_hash,
            slot: vote.slot,
            parent_slot: vote.parent_slot,
            weight: 1,
            voters: seq![vote.validator],
            children: Seq::empty(),
        }
    }
}

/// `h` names a node of greatest weight.
pub open spec fn is_heaviest(nodes: Map<[u8; 32], TowerNodeView>, h: [u8; 32]) -> bool {
    &&& nodes.contains_key(h)
    &&& forall|k: [u8; 32]| nodes.contains_key(k) ==> #[trigger] nodes[k].weight <= nodes[h].weight
}

/// What the best head becomes after a recount: a heaviest node if some node
/// has weight, the old head otherwise.
pub open spec fn best_head_after(nodes: Map<[u8; 32], TowerNodeView>, old_head: Option<[u8; 32]>, head: Option<
    [u8; 32],
>) -> bool {
    if exists|k: [u8; 32]| nodes.contains_key(k) && #[trigger] nodes[k].weight > 0 {
        head matches Some(h) && is_heaviest(nodes, h)
    } else {
        head == old_head
    }
}

/// The counters bound the weights and vote counts, so a vote cannot
/// overflow them.
pub open spec fn tower_counts_ok(t: TowerView) -> bool {
    &&& t.nodes.dom().finite()
    &&& t.states.dom().finite()
    &&& t.total_switches <= t.total_votes
    &&& forall|k: [u8; 32]|
        t.nodes.contains_key(k) ==> (#[trigger] t.nodes[k]).weight <= t.total_votes && t.nodes[k].block_hash == k
    &&& forall|v: ValidatorId|
        t.states.contains_key(v) ==> {
            &&& #[trigger] t.states[v].total_votes <= t.total_votes
            &&& t.states[v].consecutive_votes <= t.states[v].total_votes
        }
}

/// The lockout check on a vote does not overflow.
pub open spec fn lockout_check_fits(t: TowerView, vote: Vote) -> bool {
    let s = state_of(t, vote.validator);
    vote.slot > s.last_vote_slot && is_switch(s, vote) ==> s.last_vote_slot + lockout_for(s.consecutive_votes)
        <= u64::MAX
}

impl Tower {
    /// The counters are consistent.
    pub closed spec fn wf(&self) -> bool {
        tower_counts_ok(self@)
    }

    /// An empty tower rooted at `genesis_slot`.
    pub fn new(genesis_slot: u64) -> (t: Self)
        ensures
            t.wf(),
            t@.nodes.dom().is_empty(),
            t@.states.dom().is_empty(),
            t@.root_slot == genesis_slot,
            t@.best_head is None,
            t@.total_votes == 0,
            t@.total_switches == 0,
    {
        Tower {
            nodes: nodes_new(),
            validator_states: states_new(),
            root_slot: genesis_slot,
            best_head: None,
            total_votes: 0,
            total_switches: 0,
        }
    }

    /// Takes a vote if its slot is past the validator's last vote and, for a
    /// fork switch, the lockout has passed; the validator's state is created
    /// either way. A taken vote updates the state, adds weight to its block
    /// and recomputes the best head. Returns whether the vote was taken.
    pub fn process_vote(&mut self, vote: Vote) -> (taken: bool)
        requires
            old(self).wf(),
            old(self)@.total_votes < u64::MAX,
            lockout_check_fits(old(self)@, vote),
        ensures
            final(self).wf(),
            ({
                let s = state_of(old(self)@, vote.validator);
                let t0 = old(self)@;
                let t1 = final(self)@;
                &&& taken == vote_accepted(s, vote)
                &&& t1.root_slot == t0.root_slot
                &&& taken ==> {
                    &&& t1.states == t0.states.insert(vote.validator, state_after_vote(s, vote))
                    &&& t1.nodes == t0.nodes.insert(vote.block_hash, node_after_vote(t0.nodes, vote))
                    &&& t1.total_votes == t0.total_votes + 1
                    &&& t1.total_switches == t0.total_switches + (if is_switch(s, vote) {
                        1int
                    } else {
                        0
                    })
                    &&& t1.best_head matches Some(h) && is_heaviest(t1.nodes, h)
                }
                &&& !taken ==> {
                    &&& t1.states == t0.states.insert(vote.validator, s)
                    &&& t1.nodes == t0.nodes
                    &&& t1.total_votes == t0.total_votes
                    &&& t1.total_switches == t0.total_switches
                    &&& t1.best_head == t0.best_head
                }
            }),
    {
        let ghost t0 = self@;
        let mut state = match states_remove(&mut self.validator_states, &vote.validator) {
            Some(s) => s,
            None => VoteState::new(vote.validator, self.root_slot),
        };
        let ghost s0 = state@;
        proof {
            if t0.states.contains_key(vote.validator) {
                assert(t0.states[vote.validator].total_votes <= t0.total_votes);
            }
        }
        if vote.slot <= state.last_vote_slot {
            states_insert(&mut self.validator_states, vote.validator, state);
            proof {
                assert(self@.states =~= t0.states.insert(vote.validator, s0));
                self.lemma_states_insert_ok(t0, vote.validator, s0);
            }
            return false;
        }
        let switch = match vote.parent_slot {
            Some(p) => p != state.last_vote_slot,
            None => true,
        };
        if switch && !state.can_switch_fork(vote.slot) {
            states_insert(&mut self.validator_states, vote.validator, state);
            proof {
                assert(self@.states =~= t0.states.insert(vote.validator, s0));
                self.lemma_states_insert_ok(t0, vote.validator, s0);
            }
            return false;
        }
        if switch {
            state.switch_fork();
            self.total_switches = self.total_switches + 1;
        }
        state.process_vote(&vote);
        let ghost s1 = state@;
        states_insert(&mut self.validator_states, vote.validator, state);
        let mut node = match nodes_remove(&mut self.nodes, &vote.block_hash) {
            Some(n) => n,
            None => TowerNode {
                block_hash: vote.block_hash,
                slot: vote.slot,
                parent_slot: vote.parent_slot,
                weight: 0,
                voters: Vec::new(),
                children: Vec::new(),
            },
        };
        node.weight = node.weight + 1;
        node.voters.push(vote.validator);
        nodes_insert(&mut self.nodes, vote.block_hash, node);
        self.total_votes = self.total_votes + 1;
        proof {
            let t = self@;
            assert(t.nodes =~= t0.nodes.insert(vote.block_hash, node_after_vote(t0.nodes, vote)));
            assert(t.states =~= t0.states.insert(vote.validator, state_after_vote(s0, vote)));
            assert forall|k: [u8; 32]| t.nodes.contains_key(k) implies (#[trigger] t.nodes[k]).weight
                <= t.total_votes && t.nodes[k].block_hash == k by {
                if k != vote.block_hash {
                    assert(t0.nodes.contains_key(k));
                }
            }
            assert forall|v: ValidatorId| t.states.contains_key(v) implies {
                &&& #[trigger] t.states[v].total_votes <= t.total_votes
                &&& t.states[v].consecutive_votes <= t.states[v].total_votes
            } by {
                if v != vote.validator {
                    assert(t0.states.contains_key(v));
                }
            }
            assert(t.nodes.contains_key(vote.block_hash) && t.nodes[vote.block_hash].weight > 0);
        }
        self.update_best_head();
        true
    }

    proof fn lemma_states_insert_ok(&self, t0: TowerView, v: ValidatorId, s: VoteStateView)
        requires
            tower_counts_ok(t0),
            s == state_of(t0, v),
            self@ == (TowerView { states: t0.states.insert(v, s), ..t0 }),
        ensures
            tower_counts_ok(self@),
    {
        assert forall|w: ValidatorId| self@.states.contains_key(w) implies {
            &&& #[trigger] self@.states[w].total_votes <= self@.total_votes
            &&& self@.states[w].consecutive_votes <= self@.states[w].total_votes
        } by {
            if w != v {
                assert(t0.states.contains_key(w));
            }
        }
    }

    /// Makes the best head a node of greatest weight, if any node has
    /// weight; the first such node met while walking the map is chosen.
    fn update_best_head(&mut self)
        requires
            old(self).wf(),
        ensures
            final(self).wf(),
            final(self)@ == (TowerView { best_head: final(self)@.best_head, ..old(self)@ }),
            best_head_after(old(self)@.nodes, old(self)@.best_head, final(self)@.best_head),
    {
        let keys = nodes_keys(&self.nodes);
        let ghost nodes = self@.nodes;
        let mut best_hash: Option<[u8; 32]> = None;
        let mut best_weight: u64 = 0;
        let mut i: usize = 0;
        while i < keys.len()
            invariant
                nodes == self@.nodes,
                keys@.to_set() == nodes.dom(),
                i <= keys@.len(),
                forall|j: int| 0 <= j < i ==> #[trigger] nodes[keys@[j]].weight <= best_weight,
                best_hash is None ==> best_weight == 0,
                best_hash matches Some(h) ==> nodes.contains_key(h) && nodes[h].weight == best_weight
                    && best_weight > 0,
            decreases keys@.len() - i,
        {
            let k = keys[i];
            proof {
                assert(keys@.to_set().contains(k));
            }
            match nodes_slot_weight(&self.nodes, &k) {
                Some((_, w)) => {
                    if w > best_weight {
                        best_weight = w;
                        best_hash = Some(k);
                    }
                },
                None => {},
            }
            i = i + 1;
        }
        proof {
            assert forall|k: [u8; 32]| nodes.contains_key(k) implies #[trigger] nodes[k].weight <= best_weight by {
                assert(keys@.to_set().contains(k));
                let j = choose|j: int| 0 <= j < keys@.len() && keys@[j] == k;
                assert(nodes[keys@[j]].weight <= best_weight);
            }
        }
        match best_hash {
            Some(h) => {
                self.best_head = Some(h);
            },
            None => {},
        }
    }

    /// Whether some block at `slot` has more than two thirds of the known
    /// validators' votes (a supermajority); false with no validators.
    pub fn is_slot_confirmed(&self, slot: u64) -> (b: bool)
        requires
            2 * self@.states.dom().len() <= u64::MAX,
        ensures
            b == (self@.states.dom().len() > 0 && exists|k: [u8; 32]|
                #![trigger self@.nodes[k]]
                self@.nodes.contains_key(k) && self@.nodes[k].slot == slot && 3 * self@.nodes[k].weight > 2
                    * self@.states.dom().len()),
    {
        let total_validators = states_len(&self.validator_states) as u64;
        if total_validators == 0 {
            return false;
        }
        let threshold = (total_validators * 2) / 3;
        let keys = nodes_keys(&self.nodes);
        let ghost nodes = self@.nodes;
        let mut i: usize = 0;
        while i < keys.len()
            invariant
                nodes == self@.nodes,
                keys@.to_set() == nodes.dom(),
                i <= keys@.len(),
                threshold == (2 * self@.states.dom().len()) / 3,
                self@.states.dom().len() > 0,
                forall|j: int|
                    0 <= j < i ==> !(#[trigger] nodes[keys@[j]].slot == slot && nodes[keys@[j]].weight
                        > threshold),
            decreases keys@.len() - i,
        {
            let k = keys[i];
            proof {
                assert(keys@.to_set().contains(k));
            }
            match nodes_slot_weight(&self.nodes, &k) {
                Some((s, w)) => {
                    if s == slot && w > threshold {
                        assert(self@.nodes.contains_key(k) && self@.nodes[k].slot == slot && 3 * self@.nodes[k].weight
                            > 2 * self@.states.dom().len());
                        return true;
                    }
                },
                None => {},
            }
            i = i + 1;
        }
        proof {
            assert forall|k: [u8; 32]| nodes.contains_key(k) implies !(#[trigger] nodes[k].slot == slot
                && 3 * nodes[k].weight > 2 * self@.states.dom().len()) by {
                assert(keys@.to_set().contains(k));
                let j = choose|j: int| 0 <= j < keys@.len() && keys@[j] == k;
                assert(!(nodes[keys@[j]].slot == slot && nodes[keys@[j]].weight > threshold));
            }
        }
        false
    }

    /// The best head.
    pub fn best_head(&self) -> (h: Option<[u8; 32]>)
        ensures
            h == self@.best_head,
    {
        self.best_head
    }

    /// The root slot.
    pub fn root_slot(&self) -> (r: u64)
        ensures
            r == self@.root_slot,
    {
        self.root_slot
    }

    /// Moves the root to `new_root`: every validator's state drops the
    /// history before it, and the blocks before it are pruned.
    pub fn advance_root(&mut self, new_root: u64)
        requires
            old(self).wf(),
        ensures
            final(self).wf(),
            final(self)@.root_slot == new_root,
            final(self)@.states.dom() == old(self)@.states.dom(),
            forall|v: ValidatorId|
                #[trigger] final(self)@.states.contains_key(v) ==> final(self)@.states[v] == rooted(
                    old(self)@.states[v],
                    new_root,
                ),
            final(self)@.nodes == old(self)@.nodes.restrict(
                old(self)@.nodes.dom().filter(|k: [u8; 32]| old(self)@.nodes[k].slot >= new_root),
            ),
            final(self)@.best_head == old(self)@.best_head,
            final(self)@.total_votes == old(self)@.total_votes,
            final(self)@.total_switches == old(self)@.total_switches,
    {
        self.root_slot = new_root;
        let ghost t0 = self@;
        let keys = states_keys(&self.validator_states);
        let mut i: usize = 0;
        while i < keys.len()
            invariant
                keys@.no_duplicates(),
                keys@.to_set() == t0.states.dom(),
                i <= keys@.len(),
                self@ == (TowerView { states: self@.states, ..t0 }),
                self@.states.dom() == t0.states.dom(),
                forall|v: ValidatorId|
                    #[trigger] self@.states.contains_key(v) ==> self@.states[v] == (if keys@.take(i as int).contains(
                        v,
                    ) {
                        rooted(t0.states[v], new_root)
                    } else {
                        t0.states[v]
                    }),
            decreases keys@.len() - i,
        {
            let v = keys[i];
            proof {
                assert(keys@.to_set().contains(v));
                assert(!keys@.take(i as int).contains(v)) by {
                    if keys@.take(i as int).contains(v) {
                        let j = choose|j: int| 0 <= j < i && keys@.take(i as int)[j] == v;
                        assert(keys@[j] == keys@[i as int]);
                    }
                }
            }
            let ghost before = self@.states;
            match states_remove(&mut self.validator_states, &v) {
                Some(mut s) => {
                    s.update_root(new_root);
                    states_insert(&mut self.validator_states, v, s);
                },
                None => {},
            }
            proof {
                assert(keys@.take(i + 1) =~= keys@.take(i as int).push(v));
                assert(self@.states.dom() =~= t0.states.dom());
                assert forall|w: ValidatorId| #[trigger] self@.states.contains_key(w) implies self@.states[w] == (
                if keys@.take(i + 1).contains(w) {
                    rooted(t0.states[w], new_root)
                } else {
                    t0.states[w]
                }) by {
                    if w != v {
                        assert(keys@.take(i + 1).contains(w) == keys@.take(i as int).contains(w));
                    } else {
                        assert(keys@.take(i + 1)[i as int] == v);
                    }
                }
            }
            i = i + 1;
        }
        proof {
            assert(keys@.take(i as int) =~= keys@);
            assert forall|w: ValidatorId| #[trigger] self@.states.contains_key(w) implies keys@.contains(w) by {
                assert(keys@.to_set().contains(w));
            }
        }
        let ghost t1 = self@;
        nodes_retain_from(&mut self.nodes, new_root);
        proof {
            let t = self@;
            assert(t.nodes.dom() =~= t1.nodes.dom().intersect(
                t1.nodes.dom().filter(|k: [u8; 32]| t1.nodes[k].slot >= new_root),
            ));
            assert(t.nodes.dom().finite());
            assert(t.states.dom().finite());
            assert(t.total_switches <= t.total_votes);
            assert forall|k: [u8; 32]| t.nodes.contains_key(k) implies (#[trigger] t.nodes[k]).weight <= t.total_votes
                && t.nodes[k].block_hash == k by {
                assert(t1.nodes.contains_key(k) && t.nodes[k] == t1.nodes[k]);
                assert(t0.nodes.contains_key(k) && t1.nodes[k] == t0.nodes[k]);
            }
            assert forall|w: ValidatorId| t.states.contains_key(w) implies {
                &&& #[trigger] t.states[w].total_votes <= t.total_votes
                &&& t.states[w].consecutive_votes <= t.states[w].total_votes
            } by {
                assert(t0.states.contains_key(w));
                assert(keys@.contains(w));
                assert(t.states[w] == t1.states[w]);
                assert(t1.states[w] == rooted(t0.states[w], new_root));
            }
        }
    }

    /// Counts of nodes, validators, votes and switches, with the root and
    /// best head.
    pub fn stats(&self) -> (s: TowerStats)
        ensures
            s.total_nodes == self@.nodes.dom().len(),
            s.total_validators == self@.states.dom().len(),
            s.total_votes == self@.total_votes,
            s.total_switches == self@.total_switches,
            s.root_slot == self@.root_slot,
            s.best_head == self@.best_head,
    {
        TowerStats {
            total_nodes: nodes_len(&self.nodes),
            total_validators: states_len(&self.validator_states),
            total_votes: self.total_votes,
            total_switches: self.total_switches,
            root_slot: self.root_slot,
            best_head: self.best_head,
        }
    }

    /// Copies of all nodes, in the map's own order: each node once.
    pub fn debug_tree(&self) -> (nodes: Vec<TowerNode>)
        requires
            self.wf(),
        ensures
            nodes@.len() == self@.nodes.dom().len(),
            forall|i: int|
                0 <= i < nodes@.len() ==> self@.nodes.contains_key(#[trigger] nodes@[i].block_hash)
                    && self@.nodes[nodes@[i].block_hash] == nodes@[i]@,
            forall|i: int, j: int|
                0 <= i < j < nodes@.len() ==> #[trigger] nodes@[i].block_hash != #[trigger] nodes@[j].block_hash,
    {
        let keys = nodes_keys(&self.nodes);
        let ghost m = self@.nodes;
        let mut out: Vec<TowerNode> = Vec::new();
        let mut i: usize = 0;
        proof {
            keys@.unique_seq_to_set();
        }
        while i < keys.len()
            invariant
                m == self@.nodes,
                tower_counts_ok(self@),
                keys@.to_set() == m.dom(),
                keys@.no_duplicates(),
                i <= keys@.len(),
                out@.len() == i,
                forall|j: int| 0 <= j < i ==> #[trigger] out@[j].block_hash == keys@[j],
                forall|j: int| 0 <= j < i ==> m.contains_key(keys@[j]) && m[keys@[j]] == (#[trigger] out@[j])@,
            decreases keys@.len() - i,
        {
            let k = keys[i];
            proof {
                assert(keys@.to_set().contains(k));
                assert(m[k].block_hash == k);
            }
            match nodes_get_copy(&self.nodes, &k) {
                Some(n) => {
                    out.push(n);
                },
                None => {},
            }
            i = i + 1;
        }
        out
    }
}

} // verus!
