//! The recorder: advances the hash chain and appends tick and transaction
//! entries, each linked to the one before.

use crate::crypto::{append_bytes, sha256, sha256_digest};
use crate::poh::entry::{
    append_tx_bytes, entries_all_valid, entries_chained, entry_is_valid, tx_bytes, EntryData, PohEntry,
    TransactionEntry,
};
use crate::poh::hasher::{poh_chain, PohHash, PohHasher, PohHasherView};
use crate::poh::PohConfig;
use vstd::prelude::*;

verus! {

/// An entry ready for block production, with the tick height at which it was
/// recorded.
#[derive(Debug, Clone)]
pub struct RecordedEntry {
    pub entry: PohEntry,
    pub tick_height: u64,
}

/// What a recorder holds.
pub struct PohRecorderView {
    pub hasher: PohHasherView,
    pub config: PohConfig,
    pub tick_height: u64,
    pub current_entries: Seq<PohEntry>,
    pub entry_index: u64,
    pub pending_transactions: Seq<TransactionEntry>,
    pub prev_hash: Seq<u8>,
}

/// Records entries into the PoH chain.
pub struct PohRecorder {
    hasher: PohHasher,
    config: PohConfig,
    tick_height: u64,
    current_entries: Vec<PohEntry>,
    entry_index: u64,
    pending_transactions: Vec<TransactionEntry>,
    prev_hash: PohHash,
}

impl View for PohRecorder {
    type V = PohRecorderView;

    closed spec fn view(&self) -> PohRecorderView {
        PohRecorderView {
            hasher: self.hasher@,
            config: self.config,
            tick_height: self.tick_height,
            current_entries: self.current_entries@,
            entry_index: self.entry_index,
            pending_transactions: self.pending_transactions@,
            prev_hash: self.prev_hash.0@,
        }
    }
}

impl PohRecorderView {
    /// The recorded entries all verify, each links to the one before, the
    /// last one's hash is the link for the next, and nothing is pending.
    pub open spec fn wf(self) -> bool {
        &&& entries_all_valid(self.current_entries)
        &&& entries_chained(self.current_entries)
        &&& self.current_entries.len() > 0 ==> self.current_entries.last().hash.0@ == self.prev_hash
        &&& self.pending_transactions.len() == 0
    }
}

/// Pushing an entry that is valid and links to the current link keeps the
/// recorded run valid and chained.
proof fn lemma_push_linked(entries: Seq<PohEntry>, prev_hash: Seq<u8>, e: PohEntry)
    requires
        entries_all_valid(entries),
        entries_chained(entries),
        entries.len() > 0 ==> entries.last().hash.0@ == prev_hash,
        entry_is_valid(e),
        e.prev_hash.0@ == prev_hash,
    ensures
        entries_all_valid(entries.push(e)),
        entries_chained(entries.push(e)),
{
    let s = entries.push(e);
    assert forall|i: int| 1 <= i < s.len() implies #[trigger] s[i].prev_hash.0@ == s[i - 1].hash.0@ by {
        if i < entries.len() {
            assert(s[i] == entries[i] && s[i - 1] == entries[i - 1]);
        }
    }
    assert forall|i: int| 0 <= i < s.len() implies entry_is_valid(#[trigger] s[i]) by {
        if i < entries.len() {
            assert(s[i] == entries[i]);
        }
    }
}

/// What flushing the pending transactions does to a recorder: the chain
/// moves one step per transaction, nothing stays pending, and one entry is
/// appended that links to the previous one, carries the transactions and
/// takes as hash the SHA-256 of their bytes.
pub open spec fn flushed(r0: PohRecorderView, r1: PohRecorderView) -> bool {
    let n = r0.pending_transactions.len();
    let e = r1.current_entries.last();
    &&& r1.hasher.current == poh_chain(r0.hasher.current, n)
    &&& r1.hasher.count == r0.hasher.count + n
    &&& r1.hasher.slot == r0.hasher.slot
    &&& r1.config == r0.config
    &&& r1.tick_height == r0.tick_height
    &&& r1.pending_transactions.len() == 0
    &&& r1.entry_index == r0.entry_index + 1
    &&& r1.current_entries.len() == r0.current_entries.len() + 1
    &&& r1.current_entries.drop_last() == r0.current_entries
    &&& e.hash.0@ == sha256(tx_bytes(r0.pending_transactions))
    &&& e.prev_hash.0@ == r0.prev_hash
    &&& e.num_hashes == n
    &&& e.slot == r0.hasher.slot
    &&& e.index == r0.entry_index
    &&& e.data matches EntryData::Transactions(txs) && txs@ == r0.pending_transactions
    &&& r1.prev_hash == e.hash.0@
}

impl PohRecorder {
    /// A recorder starting from `genesis_hash` in slot 0.
    pub fn new(config: PohConfig, genesis_hash: PohHash) -> (r: Self)
        ensures
            r@.wf(),
            r@.hasher.current == genesis_hash.0@,
            r@.hasher.count == 0,
            r@.hasher.slot == 0,
            r@.config == config,
            r@.tick_height == 0,
            r@.current_entries.len() == 0,
            r@.entry_index == 0,
            r@.prev_hash == genesis_hash.0@,
    {
        PohRecorder {
            hasher: PohHasher::new(genesis_hash, 0),
            config,
            tick_height: 0,
            current_entries: Vec::new(),
            entry_index: 0,
            pending_transactions: Vec::new(),
            prev_hash: genesis_hash,
        }
    }

    /// Hashes one step forward and appends an entry carrying the transaction,
    /// linked to the previous entry.
    pub fn record_transaction(&mut self, transaction: Vec<u8>, signature: Vec<u8>)
        requires
            old(self)@.wf(),
            old(self)@.hasher.count < u64::MAX,
            old(self)@.entry_index < u64::MAX,
        ensures
            final(self)@.wf(),
            final(self)@.hasher.current == sha256(old(self)@.hasher.current),
            final(self)@.hasher.count == old(self)@.hasher.count + 1,
            final(self)@.hasher.slot == old(self)@.hasher.slot,
            final(self)@.tick_height == old(self)@.tick_height,
            final(self)@.entry_index == old(self)@.entry_index + 1,
            final(self)@.config == old(self)@.config,
            final(self)@.current_entries.len() == old(self)@.current_entries.len() + 1,
            final(self)@.current_entries.drop_last() == old(self)@.current_entries,
            ({
                let e = final(self)@.current_entries.last();
                &&& e.prev_hash.0@ == old(self)@.prev_hash
                &&& e.num_hashes == 1
                &&& e.slot == old(self)@.hasher.slot
                &&& e.index == old(self)@.entry_index
                &&& e.data matches EntryData::Transactions(txs) && txs@.len() == 1
                    && txs@[0].transaction@ == transaction@ && txs@[0].signature@ == signature@
                &&& final(self)@.prev_hash == e.hash.0@
            }),
    {
        self.hasher.hash_n(1);
        proof {
            reveal_with_fuel(poh_chain, 2);
        }
        let prev = self.prev_hash;
        let entry = PohEntry::transaction(
            prev,
            1,
            self.hasher.slot(),
            self.entry_index,
            transaction,
            signature,
        );
        proof {
            lemma_push_linked(self.current_entries@, self.prev_hash.0@, entry);
        }
        self.prev_hash = entry.hash;
        self.entry_index = self.entry_index + 1;
        let ghost before = self.current_entries@;
        self.current_entries.push(entry);
        assert(self.current_entries@.drop_last() =~= before);
    }

    /// Hashes `hashes_per_tick` steps forward, counts a tick, and appends a
    /// tick entry linked to the previous entry.
    pub fn record_tick(&mut self)
        requires
            old(self)@.wf(),
            old(self)@.hasher.count + old(self)@.config.hashes_per_tick <= u64::MAX,
            old(self)@.tick_height < u64::MAX,
            old(self)@.entry_index < u64::MAX,
        ensures
            final(self)@.wf(),
            final(self)@.hasher.current == poh_chain(
                old(self)@.hasher.current,
                old(self)@.config.hashes_per_tick as nat,
            ),
            final(self)@.hasher.count == old(self)@.hasher.count + old(self)@.config.hashes_per_tick,
            final(self)@.hasher.slot == old(self)@.hasher.slot,
            final(self)@.tick_height == old(self)@.tick_height + 1,
            final(self)@.entry_index == old(self)@.entry_index + 1,
            final(self)@.config == old(self)@.config,
            final(self)@.current_entries.len() == old(self)@.current_entries.len() + 1,
            final(self)@.current_entries.drop_last() == old(self)@.current_entries,
            ({
                let e = final(self)@.current_entries.last();
                &&& e.prev_hash.0@ == old(self)@.prev_hash
                &&& e.num_hashes == old(self)@.config.hashes_per_tick
                &&& e.slot == old(self)@.hasher.slot
                &&& e.index == old(self)@.entry_index
                &&& e.data == EntryData::Tick
                &&& final(self)@.prev_hash == e.hash.0@
            }),
    {
        self.hasher.hash_n(self.config.hashes_per_tick);
        self.tick_height = self.tick_height + 1;
        let prev = self.prev_hash;
        let entry = PohEntry::tick(
            prev,
            self.config.hashes_per_tick,
            self.hasher.slot(),
            self.entry_index,
        );
        proof {
            lemma_push_linked(self.current_entries@, self.prev_hash.0@, entry);
        }
        self.prev_hash = entry.hash;
        self.entry_index = self.entry_index + 1;
        let ghost before = self.current_entries@;
        self.current_entries.push(entry);
        assert(self.current_entries@.drop_last() =~= before);
    }

    /// Records all pending transactions as one entry: the chain moves one
    /// step per transaction and the entry, linked to the previous one, carries
    /// them with the SHA-256 of their bytes as its hash. With nothing pending
    /// nothing changes.
    pub fn flush_transactions(&mut self)
        requires
            old(self)@.pending_transactions.len() > 0 ==> old(self)@.hasher.count
                + old(self)@.pending_transactions.len() <= u64::MAX && old(self)@.entry_index < u64::MAX,
        ensures
            old(self)@.pending_transactions.len() == 0 ==> final(self)@ == old(self)@,
            old(self)@.pending_transactions.len() > 0 ==> flushed(old(self)@, final(self)@),
    {
        if self.pending_transactions.len() == 0 {
            return;
        }
        let mut txs: Vec<TransactionEntry> = Vec::new();
        std::mem::swap(&mut txs, &mut self.pending_transactions);
        let num_txs = txs.len() as u64;
        self.hasher.hash_n(num_txs);
        let mut buf: Vec<u8> = Vec::new();
        append_tx_bytes(&mut buf, &txs);
        let combined_hash = PohHash(sha256_digest(buf.as_slice()));
        let prev = self.prev_hash;
        let entry = PohEntry::with_hash(
            combined_hash,
            prev,
            num_txs,
            self.hasher.slot(),
            self.entry_index,
            EntryData::Transactions(txs),
        );
        self.prev_hash = entry.hash;
        self.entry_index = self.entry_index + 1;
        let ghost before = self.current_entries@;
        self.current_entries.push(entry);
        assert(self.current_entries@.drop_last() =~= before);
    }

    /// Starts `slot`: hands back the entries recorded so far and restarts the
    /// entry index; the chain and its link continue.
    pub fn new_slot(&mut self, slot: u64) -> (entries: Vec<PohEntry>)
        requires
            old(self)@.wf(),
        ensures
            final(self)@.wf(),
            entries@ == old(self)@.current_entries,
            final(self)@.current_entries.len() == 0,
            final(self)@.entry_index == 0,
            final(self)@.hasher.slot == slot,
            final(self)@.hasher.count == 0,
            final(self)@.hasher.current == old(self)@.hasher.current,
            final(self)@.prev_hash == old(self)@.prev_hash,
            final(self)@.tick_height == old(self)@.tick_height,
            final(self)@.config == old(self)@.config,
    {
        let mut entries: Vec<PohEntry> = Vec::new();
        std::mem::swap(&mut entries, &mut self.current_entries);
        self.hasher.new_slot(slot);
        self.entry_index = 0;
        entries
    }

    /// The entries recorded in the current slot.
    pub fn current_entries(&self) -> (entries: &Vec<PohEntry>)
        ensures
            entries@ == self@.current_entries,
    {
        &self.current_entries
    }

    /// The current hash of the chain.
    pub fn current_hash(&self) -> (h: PohHash)
        ensures
            h.0@ == self@.hasher.current,
    {
        self.hasher.current()
    }

    /// Ticks since genesis.
    pub fn tick_height(&self) -> (t: u64)
        ensures
            t == self@.tick_height,
    {
        self.tick_height
    }

    /// The current slot.
    pub fn slot(&self) -> (s: u64)
        ensures
            s == self@.hasher.slot,
    {
        self.hasher.slot()
    }

    /// Hashes computed in the current slot.
    pub fn hash_count(&self) -> (c: u64)
        ensures
            c == self@.hasher.count,
    {
        self.hasher.count()
    }

    /// The configuration.
    pub fn config(&self) -> (c: PohConfig)
        ensures
            c == self@.config,
    {
        self.config
    }
}

} // verus!
