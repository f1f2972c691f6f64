//! Fork choice: the tree of known blocks, the best head by voting power
//! (later timestamp breaking ties), chains back to the root and their weight.

use crate::consensus::tower::copy_keys;
use dashmap::DashMap;
use vstd::prelude::*;

verus! {

/// A block in the fork tree.
#[derive(Debug, Clone, Copy)]
pub struct ForkBlock {
    pub hash: [u8; 32],
    pub slot: u64,
    pub parent_hash: Option<[u8; 32]>,
    pub timestamp: u64,
    pub height: u64,
    pub voting_power: u64,
}

/// Whether a block is kept when pruning before `slot`.
pub fn block_at_or_after(block: &ForkBlock, slot: u64) -> (b: bool)
    ensures
        b == (block.slot >= slot),
{
    block.slot >= slot
}

/// What the block map holds, by hash.
pub uninterp spec fn block_entries(m: DashMap<[u8; 32], ForkBlock>) -> Map<[u8; 32], ForkBlock>;

/// What the slot index holds: the hashes added at each slot, in order.
pub uninterp spec fn slot_entries(m: DashMap<u64, Vec<[u8; 32]>>) -> Map<u64, Seq<[u8; 32]>>;

/// An empty block map (`DashMap::new`).
///
/// Trusted: a new map holds nothing.
#[verifier::external_body]
fn blocks_new() -> (m: DashMap<[u8; 32], ForkBlock>)
    ensures
        block_entries(m).dom().is_empty(),
{
    DashMap::new()
}

/// An empty slot index (`DashMap::new`).
///
/// Trusted: a new map holds nothing.
#[verifier::external_body]
fn slots_new() -> (m: DashMap<u64, Vec<[u8; 32]>>)
    ensures
        slot_entries(m).dom().is_empty(),
{
    DashMap::new()
}

/// `DashMap::insert` on the block map.
///
/// Trusted: the key now maps to the block; other keys are unchanged.
#[verifier::external_body]
fn blocks_insert(m: &mut DashMap<[u8; 32], ForkBlock>, key: [u8; 32], block: ForkBlock)
    ensures
        block_entries(*final(m)) == block_entries(*old(m)).insert(key, block),
{
    m.insert(key, block);
}

/// The block under `key` (`DashMap::get`, copied out).
///
/// Trusted: the block for a present key, nothing otherwise.
#[verifier::external_body]
fn blocks_get(m: &DashMap<[u8; 32], ForkBlock>, key: &[u8; 32]) -> (r: Option<ForkBlock>)
    ensures
        r == (if block_entries(*m).contains_key(*key) {
            Some(block_entries(*m)[*key])
        } else {
            None::<ForkBlock>
        }),
{
    m.get(key).map(|b| *b.value())
}

/// `DashMap::len` on the block map.
///
/// Trusted: the number of keys present.
#[verifier::external_body]
fn blocks_len(m: &DashMap<[u8; 32], ForkBlock>) -> (n: usize)
    ensures
        n == block_entries(*m).dom().len(),
{
    m.len()
}

/// `DashMap::retain` keeping the blocks at or after `slot`.
///
/// Trusted: exactly the entries whose block is at or after `slot` remain.
#[verifier::external_body]
fn blocks_retain_from(m: &mut DashMap<[u8; 32], ForkBlock>, slot: u64)
    ensures
        block_entries(*final(m)) == block_entries(*old(m)).restrict(
            block_entries(*old(m)).dom().filter(|k: [u8; 32]| block_entries(*old(m))[k].slot >= slot),
        ),
{
    m.retain(|_, block| block_at_or_after(block, slot));
}

/// Appends `hash` to the list of `slot`, creating an empty list first if
/// there is none (`entry(..).or_default().push(..)`).
///
/// Trusted: only that slot's list changes, by the one push.
#[verifier::external_body]
fn slots_push(m: &mut DashMap<u64, Vec<[u8; 32]>>, slot: u64, hash: [u8; 32])
    ensures
        slot_entries(*final(m)) == slot_entries(*old(m)).insert(
            slot,
            (if slot_entries(*old(m)).contains_key(slot) {
                slot_entries(*old(m))[slot]
            } else {
                Seq::<[u8; 32]>::empty()
            }).push(hash),
        ),
{
    m.entry(slot).or_default().push(hash);
}

/// A copy of the list of `slot` (`DashMap::get`).
///
/// Trusted: the list of a present slot, nothing otherwise.
#[verifier::external_body]
fn slots_get(m: &DashMap<u64, Vec<[u8; 32]>>, slot: u64) -> (r: Option<Vec<[u8; 32]>>)
    ensures
        match r {
            Some(v) => slot_entries(*m).contains_key(slot) && v@ == slot_entries(*m)[slot],
            None => !slot_entries(*m).contains_key(slot),
        },
{
    m.get(&slot).map(|v| copy_keys(v.value()))
}

/// `DashMap::len` on the slot index.
///
/// Trusted: the number of slots present.
#[verifier::external_body]
fn slots_len(m: &DashMap<u64, Vec<[u8; 32]>>) -> (n: usize)
    ensures
        n == slot_entries(*m).dom().len(),
{
    m.len()
}

/// The fork choice state as values.
pub struct ForkChoiceView {
    pub blocks: Map<[u8; 32], ForkBlock>,
    pub root: Option<ForkBlock>,
    pub best_head: Option<ForkBlock>,
    pub slot_blocks: Map<u64, Seq<[u8; 32]>>,
}

/// The fork choice rule.
pub struct ForkChoice {
    blocks: DashMap<[u8; 32], ForkBlock>,
    root: Option<ForkBlock>,
    best_head: Option<ForkBlock>,
    slot_blocks: DashMap<u64, Vec<[u8; 32]>>,
}

/// Fork choice counters.
#[derive(Debug, Clone)]
pub struct ForkChoiceStats {
    pub total_blocks: usize,
    pub total_slots: usize,
}

impl View for ForkChoice {
    type V = ForkChoiceView;

    closed spec fn view(&self) -> ForkChoiceView {
        ForkChoiceView {
            blocks: block_entries(self.blocks),
            root: self.root,
            best_head: self.best_head,
            slot_blocks: slot_entries(self.slot_blocks),
        }
    }
}

/// Whether `block` replaces `best` as the head: more voting power, or as
/// much and a later timestamp.
pub open spec fn beats(block: ForkBlock, best: ForkBlock) -> bool {
    block.voting_power > best.voting_power || (block.voting_power == best.voting_power && block.timestamp
        > best.timestamp)
}

/// The hashes listed for a slot.
pub open spec fn hashes_at(slots: Map<u64, Seq<[u8; 32]>>, slot: u64) -> Seq<[u8; 32]> {
    if slots.contains_key(slot) {
        slots[slot]
    } else {
        Seq::empty()
    }
}

/// The known blocks among `hashes`, in order.
pub open spec fn known_blocks(blocks: Map<[u8; 32], ForkBlock>, hashes: Seq<[u8; 32]>) -> Seq<ForkBlock>
    decreases hashes.len(),
{
    if hashes.len() == 0 {
        Seq::empty()
    } else {
        let rest = known_blocks(blocks, hashes.drop_last());
        if blocks.contains_key(hashes.last()) {
            rest.push(blocks[hashes.last()])
        } else {
            rest
        }
    }
}

/// The block of greatest voting power, the last one among equals.
pub open spec fn last_heaviest(s: Seq<ForkBlock>) -> Option<ForkBlock>
    decreases s.len(),
{
    if s.len() == 0 {
        None
    } else {
        match last_heaviest(s.drop_last()) {
            Some(b) => if s.last().voting_power >= b.voting_power {
                Some(s.last())
            } else {
                Some(b)
            },
            None => Some(s.last()),
        }
    }
}

/// The heaviest block of a list is one of its blocks, and no block of the
/// list has more voting power; among blocks of equal power the last is
/// taken: no block after it has as much. There is one exactly when the
/// list is not empty.
pub proof fn lemma_last_heaviest_max(s: Seq<ForkBlock>)
    ensures
        last_heaviest(s) is None <==> s.len() == 0,
        last_heaviest(s) matches Some(b) ==> (exists|i: int|
            0 <= i < s.len() && s[i] == b && forall|j: int| i < j < s.len() ==> (#[trigger] s[j]).voting_power
                < b.voting_power) && (forall|i: int| 0 <= i < s.len() ==> (#[trigger] s[i]).voting_power <= b.voting_power),
    decreases s.len(),
{
    if s.len() > 0 {
        let t = s.drop_last();
        lemma_last_heaviest_max(t);
        let b = last_heaviest(s)->Some_0;
        assert forall|i: int| 0 <= i < s.len() implies (#[trigger] s[i]).voting_power <= b.voting_power by {
            if i < t.len() {
                assert(s[i] == t[i]);
            }
        }
        let n = s.len() - 1;
        match last_heaviest(t) {
            Some(c) => {
                if s.last().voting_power >= c.voting_power {
                    assert(s[n] == b);
                } else {
                    let i = choose|i: int|
                        0 <= i < t.len() && t[i] == c && forall|j: int| i < j < t.len() ==> (#[trigger] t[j]).voting_power
                            < c.voting_power;
                    assert(s[i] == t[i]);
                    assert forall|j: int| i < j < s.len() implies (#[trigger] s[j]).voting_power < b.voting_power by {
                        if j < t.len() {
                            assert(s[j] == t[j]);
                        }
                    }
                }
            },
            None => {
                assert(s[n] == b);
            },
        }
    }
}

/// The known blocks among some hashes are the blocks of the listed hashes
/// that are known, each listed known block among them.
proof fn lemma_known_blocks_members(blocks: Map<[u8; 32], ForkBlock>, hashes: Seq<[u8; 32]>)
    ensures
        forall|i: int|
            0 <= i < known_blocks(blocks, hashes).len() ==> exists|j: int|
                0 <= j < hashes.len() && blocks.contains_key(hashes[j]) && #[trigger] known_blocks(blocks, hashes)[i]
                    == blocks[hashes[j]],
        forall|j: int|
            0 <= j < hashes.len() && blocks.contains_key(#[trigger] hashes[j]) ==> exists|i: int|
                0 <= i < known_blocks(blocks, hashes).len() && known_blocks(blocks, hashes)[i] == blocks[hashes[j]],
    decreases hashes.len(),
{
    if hashes.len() > 0 {
        let h = hashes.drop_last();
        lemma_known_blocks_members(blocks, h);
        let kb = known_blocks(blocks, hashes);
        let kh = known_blocks(blocks, h);
        assert forall|i: int| 0 <= i < kb.len() implies exists|j: int|
            0 <= j < hashes.len() && blocks.contains_key(hashes[j]) && #[trigger] kb[i] == blocks[hashes[j]] by {
            if i < kh.len() {
                assert(kb[i] == kh[i]);
                let j = choose|j: int| 0 <= j < h.len() && blocks.contains_key(h[j]) && kh[i] == blocks[h[j]];
                assert(hashes[j] == h[j]);
            } else {
                assert(hashes[hashes.len() - 1] == hashes.last());
            }
        }
        assert forall|j: int| 0 <= j < hashes.len() && blocks.contains_key(#[trigger] hashes[j]) implies exists|i: int|
            0 <= i < kb.len() && kb[i] == blocks[hashes[j]] by {
            if j < h.len() {
                assert(h[j] == hashes[j]);
                let i = choose|i: int| 0 <= i < kh.len() && kh[i] == blocks[h[j]];
                assert(kb[i] == kh[i]);
            } else {
                assert(kb[kb.len() - 1] == blocks[hashes.last()]);
            }
        }
    }
}

/// The heaviest block at a slot is a known block listed at that slot, and
/// no known block listed there has more voting power; there is none
/// exactly when no block listed at the slot is known.
pub proof fn lemma_heaviest_at_slot(v: ForkChoiceView, slot: u64)
    ensures
        ({
            let hs = hashes_at(v.slot_blocks, slot);
            let r = last_heaviest(known_blocks(v.blocks, hs));
            &&& r is None <==> forall|j: int| 0 <= j < hs.len() ==> !v.blocks.contains_key(#[trigger] hs[j])
            &&& r matches Some(b) ==> (exists|j: int|
                0 <= j < hs.len() && v.blocks.contains_key(#[trigger] hs[j]) && v.blocks[hs[j]] == b) && (forall|
                j: int,
            |
                0 <= j < hs.len() && v.blocks.contains_key(#[trigger] hs[j]) ==> v.blocks[hs[j]].voting_power
                    <= b.voting_power)
        }),
{
    let hs = hashes_at(v.slot_blocks, slot);
    let kb = known_blocks(v.blocks, hs);
    lemma_known_blocks_members(v.blocks, hs);
    lemma_last_heaviest_max(kb);
    if kb.len() > 0 {
        let j = choose|j: int| 0 <= j < hs.len() && v.blocks.contains_key(hs[j]) && #[trigger] kb[0] == v.blocks[hs[j]];
        assert(v.blocks.contains_key(hs[j]));
    }
    if exists|j: int| 0 <= j < hs.len() && v.blocks.contains_key(#[trigger] hs[j]) {
        let j = choose|j: int| 0 <= j < hs.len() && v.blocks.contains_key(#[trigger] hs[j]);
        let i = choose|i: int| 0 <= i < kb.len() && kb[i] == v.blocks[hs[j]];
        assert(kb.len() > 0);
    }
}

/// The blocks met walking parent links from `hash`, newest first, if the
/// walk ends (at a missing block or one without parent) within `fuel` steps.
pub open spec fn walk(blocks: Map<[u8; 32], ForkBlock>, hash: [u8; 32], fuel: nat) -> Option<Seq<ForkBlock>>
    decreases fuel,
{
    if !blocks.contains_key(hash) {
        Some(Seq::empty())
    } else if fuel == 0 {
        None
    } else {
        let b = blocks[hash];
        match b.parent_hash {
            None => Some(seq![b]),
            Some(p) => match walk(blocks, p, (fuel - 1) as nat) {
                Some(rest) => Some(seq![b] + rest),
                None => None,
            },
        }
    }
}

/// The walk from `hash` ends: the parent links reach a missing block or a
/// block without parent.
pub open spec fn walk_ends(blocks: Map<[u8; 32], ForkBlock>, hash: [u8; 32]) -> bool {
    exists|fuel: nat| #[trigger] walk(blocks, hash, fuel) is Some
}

/// The chain from the root to the block `hash`, when the walk ends.
pub open spec fn chain_to(blocks: Map<[u8; 32], ForkBlock>, hash: [u8; 32]) -> Seq<ForkBlock> {
    walk(blocks, hash, choose|fuel: nat| #[trigger] walk(blocks, hash, fuel) is Some)->Some_0.reverse()
}

/// The total voting power of some blocks.
pub open spec fn power_sum(s: Seq<ForkBlock>) -> int
    decreases s.len(),
{
    if s.len() == 0 {
        0
    } else {
        power_sum(s.drop_last()) + s.last().voting_power
    }
}

impl ForkChoice {
    /// A fork tree holding only `genesis`, which is root and best head.
    pub fn new(genesis: ForkBlock) -> (fc: Self)
        ensures
            fc@.blocks == Map::<[u8; 32], ForkBlock>::empty().insert(genesis.hash, genesis),
            fc@.slot_blocks == Map::<u64, Seq<[u8; 32]>>::empty().insert(genesis.slot, seq![genesis.hash]),
            fc@.root == Some(genesis),
            fc@.best_head == Some(genesis),
    {
        let mut blocks = blocks_new();
        let mut slot_blocks = slots_new();
        blocks_insert(&mut blocks, genesis.hash, genesis);
        slots_push(&mut slot_blocks, genesis.slot, genesis.hash);
        let fc = ForkChoice { blocks, root: Some(genesis), best_head: Some(genesis), slot_blocks };
        assert(fc@.blocks =~= Map::<[u8; 32], ForkBlock>::empty().insert(genesis.hash, genesis));
        assert(fc@.slot_blocks =~= Map::<u64, Seq<[u8; 32]>>::empty().insert(genesis.slot, seq![genesis.hash]));
        fc
    }

    /// Adds a block (replacing one with the same hash) and lists it under its
    /// slot; it becomes the best head if it beats the current one.
    pub fn add_block(&mut self, block: ForkBlock)
        ensures
            final(self)@.blocks == old(self)@.blocks.insert(block.hash, block),
            final(self)@.slot_blocks == old(self)@.slot_blocks.insert(
                block.slot,
                hashes_at(old(self)@.slot_blocks, block.slot).push(block.hash),
            ),
            final(self)@.root == old(self)@.root,
            final(self)@.best_head == (match old(self)@.best_head {
                Some(b) => if beats(block, b) {
                    Some(block)
                } else {
                    Some(b)
                },
                None => None,
            }),
    {
        blocks_insert(&mut self.blocks, block.hash, block);
        slots_push(&mut self.slot_blocks, block.slot, block.hash);
        match self.best_head {
            Some(current_best) => {
                if block.voting_power > current_best.voting_power || (block.voting_power
                    == current_best.voting_power && block.timestamp > current_best.timestamp) {
                    self.best_head = Some(block);
                }
            },
            None => {},
        }
    }

    /// The best head.
    pub fn best_head(&self) -> (b: Option<ForkBlock>)
        ensures
            b == self@.best_head,
    {
        self.best_head
    }

    /// The confirmed root.
    pub fn root(&self) -> (b: Option<ForkBlock>)
        ensures
            b == self@.root,
    {
        self.root
    }

    /// The known blocks listed at `slot`, in the order they were added.
    pub fn blocks_at_slot(&self, slot: u64) -> (r: Vec<ForkBlock>)
        ensures
            r@ == known_blocks(self@.blocks, hashes_at(self@.slot_blocks, slot)),
    {
        let hashes = match slots_get(&self.slot_blocks, slot) {
            Some(h) => h,
            None => Vec::new(),
        };
        let mut out: Vec<ForkBlock> = Vec::new();
        let mut i: usize = 0;
        while i < hashes.len()
            invariant
                i <= hashes@.len(),
                hashes@ == hashes_at(self@.slot_blocks, slot),
                out@ == known_blocks(self@.blocks, hashes@.take(i as int)),
            decreases hashes@.len() - i,
        {
            match blocks_get(&self.blocks, &hashes[i]) {
                Some(b) => {
                    out.push(b);
                },
                None => {},
            }
            proof {
                assert(hashes@.take(i + 1).drop_last() =~= hashes@.take(i as int));
            }
            i = i + 1;
        }
        assert(hashes@.take(i as int) =~= hashes@);
        out
    }

    /// The block of greatest voting power at `slot` (the last listed among
    /// equals), if any.
    pub fn heaviest_at_slot(&self, slot: u64) -> (r: Option<ForkBlock>)
        ensures
            r == last_heaviest(known_blocks(self@.blocks, hashes_at(self@.slot_blocks, slot))),
            r is None <==> forall|j: int|
                0 <= j < hashes_at(self@.slot_blocks, slot).len() ==> !self@.blocks.contains_key(
                    #[trigger] hashes_at(self@.slot_blocks, slot)[j],
                ),
            r matches Some(b) ==> (exists|j: int|
                0 <= j < hashes_at(self@.slot_blocks, slot).len() && self@.blocks.contains_key(
                    #[trigger] hashes_at(self@.slot_blocks, slot)[j],
                ) && self@.blocks[hashes_at(self@.slot_blocks, slot)[j]] == b) && (forall|j: int|
                0 <= j < hashes_at(self@.slot_blocks, slot).len() && self@.blocks.contains_key(
                    #[trigger] hashes_at(self@.slot_blocks, slot)[j],
                ) ==> self@.blocks[hashes_at(self@.slot_blocks, slot)[j]].voting_power <= b.voting_power),
    {
        proof {
            lemma_heaviest_at_slot(self@, slot);
        }
        let blocks = self.blocks_at_slot(slot);
        let mut best: Option<ForkBlock> = None;
        let mut i: usize = 0;
        while i < blocks.len()
            invariant
                i <= blocks@.len(),
                best == last_heaviest(blocks@.take(i as int)),
            decreases blocks@.len() - i,
        {
            let b = blocks[i];
            proof {
                assert(blocks@.take(i + 1).drop_last() =~= blocks@.take(i as int));
            }
            best = match best {
                Some(cur) => if b.voting_power >= cur.voting_power {
                    Some(b)
                } else {
                    Some(cur)
                },
                None => Some(b),
            };
            i = i + 1;
        }
        assert(blocks@.take(i as int) =~= blocks@);
        best
    }

    /// The chain from the root to `block_hash`, following parent links
    /// until a block is missing or has no parent.
    pub fn chain_from(&self, block_hash: [u8; 32]) -> (chain: Vec<ForkBlock>)
        requires
            walk_ends(self@.blocks, block_hash),
        ensures
            chain@ == chain_to(self@.blocks, block_hash),
    {
        let ghost blocks = self@.blocks;
        let ghost fuel0 = choose|fuel: nat| #[trigger] walk(blocks, block_hash, fuel) is Some;
        let ghost full = walk(blocks, block_hash, fuel0)->Some_0;
        let mut walked: Vec<ForkBlock> = Vec::new();
        let mut current: Option<[u8; 32]> = Some(block_hash);
        let ghost mut fuel: nat = fuel0;
        loop
            invariant
                blocks == self@.blocks,
                walk(blocks, block_hash, fuel0) == Some(full),
                current matches Some(h) ==> walk(blocks, h, fuel) matches Some(rest) && walked@ + rest == full,
                current is None ==> walked@ == full,
            ensures
                walked@ == full,
            decreases fuel,
        {
            match current {
                Some(hash) => {
                    match blocks_get(&self.blocks, &hash) {
                        Some(block) => {
                            let ghost rest = walk(blocks, hash, fuel)->Some_0;
                            walked.push(block);
                            current = block.parent_hash;
                            proof {
                                match block.parent_hash {
                                    Some(p) => {
                                        let r2 = walk(blocks, p, (fuel - 1) as nat)->Some_0;
                                        assert(rest == seq![block] + r2);
                                        assert(walked@ + r2 =~= full);
                                    },
                                    None => {
                                        assert(walked@ =~= full);
                                    },
                                }
                                fuel = (fuel - 1) as nat;
                            }
                        },
                        None => {
                            assert(walked@ =~= full);
                            break ;
                        },
                    }
                },
                None => {
                    break ;
                },
            }
        }
        let mut chain: Vec<ForkBlock> = Vec::new();
        let mut j: usize = walked.len();
        while j > 0
            invariant
                j <= walked@.len(),
                chain@ == walked@.subrange(j as int, walked@.len() as int).reverse(),
            decreases j,
        {
            j = j - 1;
            chain.push(walked[j]);
            assert(chain@ =~= walked@.subrange(j as int, walked@.len() as int).reverse());
        }
        assert(walked@.subrange(0, walked@.len() as int) =~= walked@);
        chain
    }

    /// The total voting power of the chain to `tip_hash`.
    pub fn fork_weight(&self, tip_hash: [u8; 32]) -> (w: u64)
        requires
            walk_ends(self@.blocks, tip_hash),
            power_sum(chain_to(self@.blocks, tip_hash)) <= u64::MAX,
        ensures
            w == power_sum(chain_to(self@.blocks, tip_hash)),
    {
        let chain = self.chain_from(tip_hash);
        let mut total: u64 = 0;
        let mut i: usize = 0;
        proof {
            lemma_power_sum_prefixes(chain@);
        }
        while i < chain.len()
            invariant
                i <= chain@.len(),
                total == power_sum(chain@.take(i as int)),
                power_sum(chain@) <= u64::MAX,
                forall|k: int| 0 <= k <= chain@.len() ==> #[trigger] power_sum(chain@.take(k)) <= power_sum(chain@),
            decreases chain@.len() - i,
        {
            proof {
                assert(chain@.take(i + 1).drop_last() =~= chain@.take(i as int));
                assert(power_sum(chain@.take(i + 1)) <= power_sum(chain@));
            }
            total = total + chain[i].voting_power;
            i = i + 1;
        }
        assert(chain@.take(i as int) =~= chain@);
        total
    }

    /// Drops the blocks before `before_slot`.
    pub fn prune(&mut self, before_slot: u64)
        ensures
            final(self)@.blocks == old(self)@.blocks.restrict(
                old(self)@.blocks.dom().filter(|k: [u8; 32]| old(self)@.blocks[k].slot >= before_slot),
            ),
            final(self)@.slot_blocks == old(self)@.slot_blocks,
            final(self)@.root == old(self)@.root,
            final(self)@.best_head == old(self)@.best_head,
    {
        blocks_retain_from(&mut self.blocks, before_slot);
    }

    /// Counts of blocks and listed slots.
    pub fn stats(&self) -> (s: ForkChoiceStats)
        ensures
            s.total_blocks == self@.blocks.dom().len(),
            s.total_slots == self@.slot_blocks.dom().len(),
    {
        ForkChoiceStats { total_blocks: blocks_len(&self.blocks), total_slots: slots_len(&self.slot_blocks) }
    }
}

/// Every prefix of a sequence of blocks has at most its voting power.
proof fn lemma_power_sum_prefixes(s: Seq<ForkBlock>)
    ensures
        forall|k: int| 0 <= k <= s.len() ==> #[trigger] power_sum(s.take(k)) <= power_sum(s),
    decreases s.len(),
{
    if s.len() > 0 {
        lemma_power_sum_prefixes(s.drop_last());
        assert forall|k: int| 0 <= k <= s.len() implies #[trigger] power_sum(s.take(k)) <= power_sum(s) by {
            if k == s.len() {
                assert(s.take(k) =~= s);
            } else {
                assert(s.take(k) =~= s.drop_last().take(k));
            }
        }
    }
}

/// The best head never weakens: after a block is added, the head has at
/// least the voting power it had, and with equal power a timestamp at least
/// as late.
pub proof fn lemma_best_head_never_weakens(best: ForkBlock, block: ForkBlock)
    ensures
        ({
            let head = if beats(block, best) {
                block
            } else {
                best
            };
            &&& head.voting_power >= best.voting_power
            &&& head.voting_power == best.voting_power ==> head.timestamp >= best.timestamp
        }),
{
}

} // verus!
