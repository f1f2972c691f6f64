//! Votes and each validator's vote state: lockouts that double with every
//! consecutive vote, fork switches, and root advances.

use crate::crypto::{append_bytes, append_u64_le, sha256, sha256_digest};
use vstd::arithmetic::power2::{lemma2_to64, lemma_pow2_unfold, pow2};
use vstd::bytes::spec_u64_to_le_bytes;
use vstd::prelude::*;

verus! {

/// A validator's identity (public key).
pub type ValidatorId = [u8; 32];

/// Longest vote history kept.
pub const MAX_HISTORY: usize = 32;

/// Consecutive votes beyond this do not lengthen the lockout.
pub const MAX_LOCKOUT_EXPONENT: u64 = 31;

/// Milliseconds since the Unix epoch, from the system clock.
///
/// Trusted: reads `std::time::SystemTime::now()`; nothing is stated about
/// the value (0 for a clock set before the epoch).
#[verifier::external_body]
pub(crate) fn now_millis() -> u64 {
    match std::time::SystemTime::now().duration_since(std::time::UNIX_EPOCH) {
        Ok(d) => d.as_millis() as u64,
        Err(_) => 0,
    }
}

/// A vote cast by a validator.
#[derive(Debug, Clone)]
pub struct Vote {
    /// Validator who cast the vote.
    pub validator: ValidatorId,
    /// Slot voted for.
    pub slot: u64,
    /// Hash of the block voted for.
    pub block_hash: [u8; 32],
    /// Parent slot of that block.
    pub parent_slot: Option<u64>,
    /// Milliseconds since the Unix epoch.
    pub timestamp: u64,
    /// Signature over the vote.
    pub signature: Vec<u8>,
    /// Hash of validator, slot and block hash.
    pub state_hash: [u8; 32],
}

/// The bytes hashed for a vote's state hash.
pub open spec fn state_hash_input(validator: ValidatorId, slot: u64, block_hash: [u8; 32]) -> Seq<u8> {
    validator@ + spec_u64_to_le_bytes(slot) + block_hash@
}

impl Vote {
    /// A vote stamped with the current time, unsigned.
    pub fn new(validator: ValidatorId, slot: u64, block_hash: [u8; 32], parent_slot: Option<u64>) -> (v: Self)
        ensures
            v.validator == validator,
            v.slot == slot,
            v.block_hash == block_hash,
            v.parent_slot == parent_slot,
            v.signature@.len() == 0,
            v.state_hash@ == sha256(state_hash_input(validator, slot, block_hash)),
    {
        let timestamp = now_millis();
        Self::with_timestamp(validator, slot, block_hash, parent_slot, timestamp)
    }

    /// An unsigned vote stamped with `timestamp`.
    pub fn with_timestamp(
        validator: ValidatorId,
        slot: u64,
        block_hash: [u8; 32],
        parent_slot: Option<u64>,
        timestamp: u64,
    ) -> (v: Self)
        ensures
            v.validator == validator,
            v.slot == slot,
            v.block_hash == block_hash,
            v.parent_slot == parent_slot,
            v.timestamp == timestamp,
            v.signature@.len() == 0,
            v.state_hash@ == sha256(state_hash_input(validator, slot, block_hash)),
    {
        let state_hash = Self::compute_state_hash(validator, slot, block_hash);
        Vote { validator, slot, block_hash, parent_slot, timestamp, signature: Vec::new(), state_hash }
    }

    /// SHA-256 of the validator, the slot (little-endian) and the block hash.
    pub fn compute_state_hash(validator: ValidatorId, slot: u64, block_hash: [u8; 32]) -> (h: [u8; 32])
        ensures
            h@ == sha256(state_hash_input(validator, slot, block_hash)),
    {
        let mut buf: Vec<u8> = Vec::new();
        append_bytes(&mut buf, validator.as_slice());
        append_u64_le(&mut buf, slot);
        append_bytes(&mut buf, block_hash.as_slice());
        sha256_digest(buf.as_slice())
    }

    /// The bytes a signature covers: validator, slot, block hash, timestamp.
    pub fn signable_data(&self) -> (data: Vec<u8>)
        ensures
            data@ == self.validator@ + spec_u64_to_le_bytes(self.slot) + self.block_hash@ + spec_u64_to_le_bytes(
                self.timestamp,
            ),
    {
        let mut data: Vec<u8> = Vec::new();
        append_bytes(&mut data, self.validator.as_slice());
        append_u64_le(&mut data, self.slot);
        append_bytes(&mut data, self.block_hash.as_slice());
        append_u64_le(&mut data, self.timestamp);
        data
    }

    /// Whether a signature is present (its bytes are not checked).
    pub fn verify_signature(&self) -> (b: bool)
        ensures
            b == (self.signature@.len() > 0),
    {
        self.signature.len() > 0
    }
}

/// A validator's voting history.
#[derive(Debug, Clone)]
pub struct VoteState {
    /// Validator id.
    pub validator: ValidatorId,
    /// Last confirmed slot.
    pub root_slot: u64,
    /// Last slot voted for.
    pub last_vote_slot: u64,
    /// Block hash of the last vote.
    pub last_vote_hash: [u8; 32],
    /// Votes on the current fork.
    pub consecutive_votes: u64,
    /// Doubles with each fork switch (saturating).
    pub lockout_multiplier: u64,
    /// Votes cast.
    pub total_votes: u64,
    /// Recent votes, oldest first.
    pub history: Vec<VoteHistoryEntry>,
}

/// A vote state as values.
pub struct VoteStateView {
    pub validator: ValidatorId,
    pub root_slot: u64,
    pub last_vote_slot: u64,
    pub last_vote_hash: [u8; 32],
    pub consecutive_votes: u64,
    pub lockout_multiplier: u64,
    pub total_votes: u64,
    pub history: Seq<VoteHistoryEntry>,
}

impl View for VoteState {
    type V = VoteStateView;

    open spec fn view(&self) -> VoteStateView {
        VoteStateView {
            validator: self.validator,
            root_slot: self.root_slot,
            last_vote_slot: self.last_vote_slot,
            last_vote_hash: self.last_vote_hash,
            consecutive_votes: self.consecutive_votes,
            lockout_multiplier: self.lockout_multiplier,
            total_votes: self.total_votes,
            history: self.history@,
        }
    }
}

/// A fresh vote state for `validator` rooted at `root`.
pub open spec fn fresh_state(validator: ValidatorId, root: u64) -> VoteStateView {
    VoteStateView {
        validator,
        root_slot: root,
        last_vote_slot: 0,
        last_vote_hash: spec_zero_hash(),
        consecutive_votes: 0,
        lockout_multiplier: 1,
        total_votes: 0,
        history: Seq::empty(),
    }
}

/// The all-zero hash.
pub open spec fn spec_zero_hash() -> [u8; 32] {
    vstd::array::spec_array_fill_for_copy_type::<u8, 32>(0u8)
}

/// A vote counts as a fork switch unless its parent is the last slot voted.
pub open spec fn is_switch(s: VoteStateView, vote: Vote) -> bool {
    vote.parent_slot != Some(s.last_vote_slot)
}

/// Whether a vote is taken: its slot is past the last vote, and a fork
/// switch waits out the lockout.
pub open spec fn vote_accepted(s: VoteStateView, vote: Vote) -> bool {
    &&& vote.slot > s.last_vote_slot
    &&& is_switch(s, vote) ==> vote.slot >= s.last_vote_slot + lockout_for(s.consecutive_votes)
}

/// The state after a fork switch.
pub open spec fn switched(s: VoteStateView) -> VoteStateView {
    VoteStateView {
        consecutive_votes: 0,
        lockout_multiplier: (if s.lockout_multiplier * 2 <= u64::MAX {
            s.lockout_multiplier * 2
        } else {
            u64::MAX as int
        }) as u64,
        ..s
    }
}

/// The state after recording a vote.
pub open spec fn voted(s: VoteStateView, vote: Vote) -> VoteStateView {
    VoteStateView {
        last_vote_slot: vote.slot,
        last_vote_hash: vote.block_hash,
        consecutive_votes: (s.consecutive_votes + 1) as u64,
        total_votes: (s.total_votes + 1) as u64,
        history: history_after_vote(
            s.history,
            VoteHistoryEntry { slot: vote.slot, block_hash: vote.block_hash, timestamp: vote.timestamp },
        ),
        ..s
    }
}

/// The state after an accepted vote: a fork switch first, if it is one,
/// then the vote.
pub open spec fn state_after_vote(s: VoteStateView, vote: Vote) -> VoteStateView {
    voted(if is_switch(s, vote) { switched(s) } else { s }, vote)
}

/// One vote in the history.
#[derive(Debug, Clone, Copy)]
pub struct VoteHistoryEntry {
    pub slot: u64,
    pub block_hash: [u8; 32],
    pub timestamp: u64,
}

/// The lockout after `consecutive_votes` votes on a fork:
/// 2^min(consecutive_votes, 31) slots.
pub open spec fn lockout_for(consecutive_votes: u64) -> nat {
    pow2(
        (if consecutive_votes < MAX_LOCKOUT_EXPONENT {
            consecutive_votes
        } else {
            MAX_LOCKOUT_EXPONENT
        }) as nat,
    )
}

/// The history after a vote is appended, keeping the newest 32 entries.
pub open spec fn history_after_vote(history: Seq<VoteHistoryEntry>, e: VoteHistoryEntry) -> Seq<VoteHistoryEntry> {
    if history.len() + 1 > MAX_HISTORY {
        history.push(e).drop_first()
    } else {
        history.push(e)
    }
}

/// The history entries at or after `root`, in order.
pub open spec fn history_from(history: Seq<VoteHistoryEntry>, root: u64) -> Seq<VoteHistoryEntry>
    decreases history.len(),
{
    if history.len() == 0 {
        Seq::empty()
    } else {
        let rest = history_from(history.drop_last(), root);
        if history.last().slot >= root {
            rest.push(history.last())
        } else {
            rest
        }
    }
}

/// What `update_root` leaves of a vote state.
pub open spec fn rooted(s: VoteStateView, root: u64) -> VoteStateView {
    VoteStateView { root_slot: root, history: history_from(s.history, root), ..s }
}

/// The lockout never exceeds 2^31.
pub proof fn lemma_lockout_bounds(consecutive_votes: u64)
    ensures
        1 <= lockout_for(consecutive_votes) <= 0x8000_0000,
{
    let e: nat = (if consecutive_votes < MAX_LOCKOUT_EXPONENT {
        consecutive_votes
    } else {
        MAX_LOCKOUT_EXPONENT
    }) as nat;
    lemma2_to64();
    vstd::arithmetic::power2::lemma_pow2_pos(e);
    if e < 31 {
        vstd::arithmetic::power2::lemma_pow2_strictly_increases(e, 31);
    }
}

/// Each consecutive vote doubles the lockout until it reaches 2^31 slots,
/// after which it stays there.
pub proof fn lemma_lockout_doubles(consecutive_votes: u64)
    requires
        consecutive_votes < u64::MAX,
    ensures
        consecutive_votes < MAX_LOCKOUT_EXPONENT ==> lockout_for((consecutive_votes + 1) as u64) == 2
            * lockout_for(consecutive_votes),
        consecutive_votes >= MAX_LOCKOUT_EXPONENT ==> lockout_for((consecutive_votes + 1) as u64)
            == lockout_for(consecutive_votes),
{
    if consecutive_votes < MAX_LOCKOUT_EXPONENT {
        lemma_pow2_unfold((consecutive_votes + 1) as nat);
    }
}

/// A taken vote moves the validator's last vote strictly forward; a fork
/// switch is taken only once the lockout has passed and starts the count of
/// consecutive votes afresh, while a vote on the same fork extends it.
pub proof fn lemma_taken_vote(s: VoteStateView, vote: Vote)
    requires
        vote_accepted(s, vote),
        s.consecutive_votes < u64::MAX,
    ensures
        state_after_vote(s, vote).last_vote_slot > s.last_vote_slot,
        is_switch(s, vote) ==> vote.slot >= s.last_vote_slot + lockout_for(s.consecutive_votes),
        is_switch(s, vote) ==> state_after_vote(s, vote).consecutive_votes == 1,
        !is_switch(s, vote) ==> state_after_vote(s, vote).consecutive_votes == s.consecutive_votes + 1,
{
}

impl VoteState {
    /// A fresh state rooted at `genesis_slot`.
    pub fn new(validator: ValidatorId, genesis_slot: u64) -> (s: Self)
        ensures
            s.validator == validator,
            s.root_slot == genesis_slot,
            s.last_vote_slot == 0,
            s.last_vote_hash@ == crate::crypto::zeros32(),
            s@ == fresh_state(validator, genesis_slot),
            s.consecutive_votes == 0,
            s.lockout_multiplier == 1,
            s.total_votes == 0,
            s.history@.len() == 0,
    {
        let zero = [0u8; 32];
        proof {
            broadcast use vstd::array::group_array_axioms;

            assert(zero@ =~= crate::crypto::zeros32());
            assert(zero == spec_zero_hash());
        }
        VoteState {
            validator,
            root_slot: genesis_slot,
            last_vote_slot: 0,
            last_vote_hash: zero,
            consecutive_votes: 0,
            lockout_multiplier: 1,
            total_votes: 0,
            history: Vec::new(),
        }
    }

    /// Records a vote: it becomes the last vote, both counters grow, and the
    /// vote joins the history, which keeps the newest 32.
    pub fn process_vote(&mut self, vote: &Vote)
        requires
            old(self).consecutive_votes < u64::MAX,
            old(self).total_votes < u64::MAX,
        ensures
            *final(self) == (VoteState {
                last_vote_slot: vote.slot,
                last_vote_hash: vote.block_hash,
                consecutive_votes: (old(self).consecutive_votes + 1) as u64,
                total_votes: (old(self).total_votes + 1) as u64,
                history: final(self).history,
                ..*old(self)
            }),
            final(self).history@ == history_after_vote(
                old(self).history@,
                VoteHistoryEntry { slot: vote.slot, block_hash: vote.block_hash, timestamp: vote.timestamp },
            ),
    {
        self.last_vote_slot = vote.slot;
        self.last_vote_hash = vote.block_hash;
        self.consecutive_votes = self.consecutive_votes + 1;
        self.total_votes = self.total_votes + 1;
        self.history.push(VoteHistoryEntry { slot: vote.slot, block_hash: vote.block_hash, timestamp: vote.timestamp });
        if self.history.len() > MAX_HISTORY {
            self.history.remove(0);
        }
    }

    /// The lockout: 2^min(consecutive_votes, 31) slots.
    pub fn lockout_slots(&self) -> (n: u64)
        ensures
            n == lockout_for(self.consecutive_votes),
    {
        let e: u64 = if self.consecutive_votes < MAX_LOCKOUT_EXPONENT {
            self.consecutive_votes
        } else {
            MAX_LOCKOUT_EXPONENT
        };
        let mut n: u64 = 1;
        let mut i: u64 = 0;
        proof {
            lemma2_to64();
        }
        while i < e
            invariant
                i <= e <= 31,
                n == pow2(i as nat),
                pow2(31) == 0x8000_0000,
            decreases e - i,
        {
            proof {
                lemma_pow2_unfold((i + 1) as nat);
                vstd::arithmetic::power2::lemma_pow2_strictly_increases(i as nat, 31);
            }
            n = n * 2;
            i = i + 1;
        }
        n
    }

    /// Whether the lockout since the last vote has passed at `current_slot`.
    pub fn can_switch_fork(&self, current_slot: u64) -> (b: bool)
        requires
            self.last_vote_slot + lockout_for(self.consecutive_votes) <= u64::MAX,
        ensures
            b == (current_slot >= self.last_vote_slot + lockout_for(self.consecutive_votes)),
    {
        let lockout = self.lockout_slots();
        current_slot >= self.last_vote_slot + lockout
    }

    /// Records a fork switch: the consecutive count restarts and the
    /// multiplier doubles, saturating at `u64::MAX`.
    pub fn switch_fork(&mut self)
        ensures
            *final(self) == (VoteState {
                consecutive_votes: 0,
                lockout_multiplier: (if old(self).lockout_multiplier * 2 <= u64::MAX {
                    old(self).lockout_multiplier * 2
                } else {
                    u64::MAX as int
                }) as u64,
                ..*old(self)
            }),
    {
        self.consecutive_votes = 0;
        self.lockout_multiplier = match self.lockout_multiplier.checked_mul(2) {
            Some(m) => m,
            None => u64::MAX,
        };
    }

    /// Moves the root to `new_root` and drops the history before it.
    pub fn update_root(&mut self, new_root: u64)
        ensures
            final(self)@ == rooted(old(self)@, new_root),
            forall|i: int| 0 <= i < final(self).history@.len() ==> (#[trigger] final(self).history@[i]).slot >= new_root,
    {
        self.root_slot = new_root;
        let ghost old_history = self.history@;
        let mut kept: Vec<VoteHistoryEntry> = Vec::new();
        let mut i: usize = 0;
        while i < self.history.len()
            invariant
                self.history@ == old_history,
                i <= old_history.len(),
                kept@ == history_from(old_history.take(i as int), new_root),
                forall|j: int| 0 <= j < kept@.len() ==> (#[trigger] kept@[j]).slot >= new_root,
            decreases old_history.len() - i,
        {
            let e = self.history[i];
            if e.slot >= new_root {
                kept.push(e);
            }
            proof {
                assert(old_history.take(i + 1).drop_last() =~= old_history.take(i as int));
            }
            i = i + 1;
        }
        assert(old_history.take(i as int) =~= old_history);
        self.history = kept;
    }

    /// SHA-256 of the validator, last vote slot, last vote hash and
    /// consecutive vote count.
    pub fn tower_hash(&self) -> (h: [u8; 32])
        ensures
            h@ == sha256(
                self.validator@ + spec_u64_to_le_bytes(self.last_vote_slot) + self.last_vote_hash@
                    + spec_u64_to_le_bytes(self.consecutive_votes),
            ),
    {
        let mut buf: Vec<u8> = Vec::new();
        append_bytes(&mut buf, self.validator.as_slice());
        append_u64_le(&mut buf, self.last_vote_slot);
        append_bytes(&mut buf, self.last_vote_hash.as_slice());
        append_u64_le(&mut buf, self.consecutive_votes);
        sha256_digest(buf.as_slice())
    }
}

} // verus!
