//! Entries of the PoH chain and the blocks (slots) that collect them.

use crate::crypto::{append_bytes, append_u64_le, sha256, sha256_digest};
use crate::poh::hasher::PohHash;
use vstd::bytes::spec_u64_to_le_bytes;
use vstd::prelude::*;

verus! {

/// One entry of the chain: a tick or a batch of transactions.
#[derive(Debug, Clone)]
pub struct PohEntry {
    /// Hash proving the entry's position.
    pub hash: PohHash,
    /// Hash of the previous entry.
    pub prev_hash: PohHash,
    /// Hashes since the previous entry.
    pub num_hashes: u64,
    /// Slot of the entry.
    pub slot: u64,
    /// Index within the slot.
    pub index: u64,
    /// Tick or transactions.
    pub data: EntryData,
}

/// What an entry carries.
#[derive(Debug, Clone)]
pub enum EntryData {
    /// A heartbeat.
    Tick,
    /// Serialized transactions.
    Transactions(Vec<TransactionEntry>),
}

/// A transaction inside an entry.
#[derive(Debug, Clone)]
pub struct TransactionEntry {
    /// Serialized transaction bytes.
    pub transaction: Vec<u8>,
    /// Signature over the transaction.
    pub signature: Vec<u8>,
}

/// A completed block (slot).
#[derive(Debug, Clone)]
pub struct Entry {
    /// Block hash.
    pub hash: PohHash,
    /// Slot number.
    pub slot: u64,
    /// Parent block's hash.
    pub parent_hash: PohHash,
    /// Entries of the slot.
    pub entries: Vec<PohEntry>,
    /// Block height.
    pub height: u64,
    /// Timestamp (millis since epoch).
    pub timestamp: u64,
}

/// The bytes `"tick"`.
pub open spec fn tick_tag() -> Seq<u8> {
    seq![116u8, 105u8, 99u8, 107u8]
}

/// Transaction bytes followed by signature bytes, for each transaction in order.
pub open spec fn tx_bytes(txs: Seq<TransactionEntry>) -> Seq<u8>
    decreases txs.len(),
{
    if txs.len() == 0 {
        Seq::empty()
    } else {
        tx_bytes(txs.drop_last()) + txs.last().transaction@ + txs.last().signature@
    }
}

/// The bytes an entry's data contributes to its hash.
pub open spec fn entry_data_bytes(data: EntryData) -> Seq<u8> {
    match data {
        EntryData::Tick => tick_tag(),
        EntryData::Transactions(txs) => tx_bytes(txs@),
    }
}

/// The bytes hashed for an entry: prev_hash || slot || index || num_hashes
/// || data, integers little-endian.
pub open spec fn entry_hash_input(
    prev_hash: Seq<u8>,
    slot: u64,
    index: u64,
    num_hashes: u64,
    data: EntryData,
) -> Seq<u8> {
    prev_hash + spec_u64_to_le_bytes(slot) + spec_u64_to_le_bytes(index) + spec_u64_to_le_bytes(num_hashes)
        + entry_data_bytes(data)
}

/// SHA-256(prev_hash || slot || index || num_hashes || data), integers little-endian.
pub open spec fn spec_entry_hash(
    prev_hash: Seq<u8>,
    slot: u64,
    index: u64,
    num_hashes: u64,
    data: EntryData,
) -> Seq<u8> {
    sha256(entry_hash_input(prev_hash, slot, index, num_hashes, data))
}

/// Where transaction `j` starts among the bytes of the transactions: the
/// lengths of the transaction and signature bytes before it, added up.
pub open spec fn tx_offset(txs: Seq<TransactionEntry>, j: int) -> int
    decreases j,
{
    if j <= 0 {
        0
    } else {
        tx_offset(txs, j - 1) + txs[j - 1].transaction@.len() + txs[j - 1].signature@.len()
    }
}

proof fn lemma_tx_offset_prefix(txs: Seq<TransactionEntry>, n: int, j: int)
    requires
        0 <= j <= n <= txs.len(),
    ensures
        tx_offset(txs.take(n), j) == tx_offset(txs, j),
    decreases j,
{
    if j > 0 {
        lemma_tx_offset_prefix(txs, n, j - 1);
        assert(txs.take(n)[j - 1] == txs[j - 1]);
    }
}

/// The bytes of a list of transactions hold each transaction's bytes and
/// then its signature, one transaction after the other, and nothing else.
proof fn lemma_tx_bytes_layout(txs: Seq<TransactionEntry>)
    ensures
        tx_bytes(txs).len() == tx_offset(txs, txs.len() as int),
        forall|j: int|
            0 <= j < txs.len() ==> tx_bytes(txs).subrange(
                tx_offset(txs, j),
                tx_offset(txs, j) + (#[trigger] txs[j]).transaction@.len(),
            ) == txs[j].transaction@ && tx_bytes(txs).subrange(
                tx_offset(txs, j) + txs[j].transaction@.len(),
                tx_offset(txs, j + 1),
            ) == txs[j].signature@,
    decreases txs.len(),
{
    if txs.len() > 0 {
        let n = txs.len() - 1;
        let init = txs.drop_last();
        lemma_tx_bytes_layout(init);
        assert(init =~= txs.take(n));
        let b0 = tx_bytes(init);
        let t = txs.last().transaction@;
        let g = txs.last().signature@;
        let b = tx_bytes(txs);
        assert(b == b0 + t + g);
        lemma_tx_offset_prefix(txs, n, n);
        assert forall|j: int| 0 <= j < txs.len() implies b.subrange(
            tx_offset(txs, j),
            tx_offset(txs, j) + (#[trigger] txs[j]).transaction@.len(),
        ) == txs[j].transaction@ && b.subrange(tx_offset(txs, j) + txs[j].transaction@.len(), tx_offset(txs, j + 1))
            == txs[j].signature@ by {
            if j < n {
                lemma_tx_offset_prefix(txs, n, j);
                lemma_tx_offset_prefix(txs, n, j + 1);
                assert(init[j] == txs[j]);
                lemma_tx_offset_le(init, j + 1, n);
                lemma_tx_offset_le(init, j, j + 1);
                assert(tx_offset(init, j) == tx_offset(txs, j));
                assert(tx_offset(init, j + 1) == tx_offset(txs, j + 1));
                assert(tx_offset(init, j + 1) <= b0.len());
                assert(tx_offset(init, j) + init[j].transaction@.len() <= tx_offset(init, j + 1));
                assert(b.subrange(tx_offset(txs, j), tx_offset(txs, j) + txs[j].transaction@.len()) =~= b0.subrange(
                    tx_offset(init, j),
                    tx_offset(init, j) + init[j].transaction@.len(),
                ));
                assert(b.subrange(tx_offset(txs, j) + txs[j].transaction@.len(), tx_offset(txs, j + 1)) =~= b0.subrange(
                    tx_offset(init, j) + init[j].transaction@.len(),
                    tx_offset(init, j + 1),
                ));
            } else {
                assert(b.subrange(tx_offset(txs, j), tx_offset(txs, j) + t.len()) =~= t);
                assert(b.subrange(tx_offset(txs, j) + t.len(), tx_offset(txs, j + 1)) =~= g);
            }
        }
    }
}

proof fn lemma_tx_offset_le(txs: Seq<TransactionEntry>, j: int, n: int)
    requires
        0 <= j <= n <= txs.len(),
    ensures
        0 <= tx_offset(txs, j) <= tx_offset(txs, n),
    decreases n,
{
    if n > j {
        lemma_tx_offset_le(txs, j, n - 1);
    } else if j > 0 {
        lemma_tx_offset_le(txs, j - 1, j - 1);
        lemma_tx_offset_le(txs, 0, j - 1);
    }
}

/// The hash of an entry is the SHA-256 of its previous hash, its slot,
/// index and hash count as little-endian bytes, and then its data: the
/// bytes `"tick"` for a tick, and for transactions each transaction's
/// bytes followed by its signature, in order.
pub proof fn lemma_entry_hash_layout(prev_hash: Seq<u8>, slot: u64, index: u64, num_hashes: u64, data: EntryData)
    ensures
        spec_entry_hash(prev_hash, slot, index, num_hashes, data) == sha256(
            entry_hash_input(prev_hash, slot, index, num_hashes, data),
        ),
        ({
            let inp = entry_hash_input(prev_hash, slot, index, num_hashes, data);
            let p = prev_hash.len() as int;
            &&& inp.subrange(0, p) == prev_hash
            &&& inp.subrange(p, p + 8) == spec_u64_to_le_bytes(slot)
            &&& inp.subrange(p + 8, p + 16) == spec_u64_to_le_bytes(index)
            &&& inp.subrange(p + 16, p + 24) == spec_u64_to_le_bytes(num_hashes)
            &&& match data {
                EntryData::Tick => inp.len() == p + 28 && inp.subrange(p + 24, p + 28) == tick_tag(),
                EntryData::Transactions(txs) => {
                    &&& inp.len() == p + 24 + tx_offset(txs@, txs@.len() as int)
                    &&& forall|j: int|
                        0 <= j < txs@.len() ==> inp.subrange(
                            p + 24 + tx_offset(txs@, j),
                            p + 24 + tx_offset(txs@, j) + (#[trigger] txs@[j]).transaction@.len(),
                        ) == txs@[j].transaction@ && inp.subrange(
                            p + 24 + tx_offset(txs@, j) + txs@[j].transaction@.len(),
                            p + 24 + tx_offset(txs@, j + 1),
                        ) == txs@[j].signature@
                },
            }
        }),
{
    vstd::bytes::lemma_auto_spec_u64_to_from_le_bytes();
    let inp = entry_hash_input(prev_hash, slot, index, num_hashes, data);
    let p = prev_hash.len() as int;
    let head = prev_hash + spec_u64_to_le_bytes(slot) + spec_u64_to_le_bytes(index) + spec_u64_to_le_bytes(num_hashes);
    let d = entry_data_bytes(data);
    assert(inp == head + d);
    assert(head.len() == p + 24);
    assert(inp.subrange(0, p) =~= prev_hash);
    assert(inp.subrange(p, p + 8) =~= spec_u64_to_le_bytes(slot));
    assert(inp.subrange(p + 8, p + 16) =~= spec_u64_to_le_bytes(index));
    assert(inp.subrange(p + 16, p + 24) =~= spec_u64_to_le_bytes(num_hashes));
    match data {
        EntryData::Tick => {
            assert(inp.subrange(p + 24, p + 28) =~= tick_tag());
        },
        EntryData::Transactions(txs) => {
            lemma_tx_bytes_layout(txs@);
            assert forall|j: int| 0 <= j < txs@.len() implies inp.subrange(
                p + 24 + tx_offset(txs@, j),
                p + 24 + tx_offset(txs@, j) + (#[trigger] txs@[j]).transaction@.len(),
            ) == txs@[j].transaction@ && inp.subrange(
                p + 24 + tx_offset(txs@, j) + txs@[j].transaction@.len(),
                p + 24 + tx_offset(txs@, j + 1),
            ) == txs@[j].signature@ by {
                lemma_tx_offset_le(txs@, j + 1, txs@.len() as int);
                lemma_tx_offset_le(txs@, j, j + 1);
                assert(inp.subrange(
                    p + 24 + tx_offset(txs@, j),
                    p + 24 + tx_offset(txs@, j) + txs@[j].transaction@.len(),
                ) =~= d.subrange(tx_offset(txs@, j), tx_offset(txs@, j) + txs@[j].transaction@.len()));
                assert(inp.subrange(
                    p + 24 + tx_offset(txs@, j) + txs@[j].transaction@.len(),
                    p + 24 + tx_offset(txs@, j + 1),
                ) =~= d.subrange(tx_offset(txs@, j) + txs@[j].transaction@.len(), tx_offset(txs@, j + 1)));
            }
        },
    }
}

/// The entry's hash field matches its contents.
pub open spec fn entry_is_valid(e: PohEntry) -> bool {
    e.hash.0@ == spec_entry_hash(e.prev_hash.0@, e.slot, e.index, e.num_hashes, e.data)
}

/// Each entry's `prev_hash` is the hash of the entry before it.
pub open spec fn entries_chained(entries: Seq<PohEntry>) -> bool {
    forall|i: int| 1 <= i < entries.len() ==> #[trigger] entries[i].prev_hash.0@ == entries[i - 1].hash.0@
}

/// Every entry is valid.
pub open spec fn entries_all_valid(entries: Seq<PohEntry>) -> bool {
    forall|i: int| 0 <= i < entries.len() ==> entry_is_valid(#[trigger] entries[i])
}

/// The hashes of the entries, concatenated.
pub open spec fn entry_hashes_bytes(entries: Seq<PohEntry>) -> Seq<u8>
    decreases entries.len(),
{
    if entries.len() == 0 {
        Seq::empty()
    } else {
        entry_hashes_bytes(entries.drop_last()) + entries.last().hash.0@
    }
}

/// The transactions of all entries, in order.
pub open spec fn entries_transactions(entries: Seq<PohEntry>) -> Seq<TransactionEntry>
    decreases entries.len(),
{
    if entries.len() == 0 {
        Seq::empty()
    } else {
        entries_transactions(entries.drop_last()) + match entries.last().data {
            EntryData::Tick => Seq::empty(),
            EntryData::Transactions(txs) => txs@,
        }
    }
}

/// The transactions a sequence of references points to.
pub open spec fn deref_txs(s: Seq<&TransactionEntry>) -> Seq<TransactionEntry> {
    s.map_values(|t: &TransactionEntry| *t)
}

/// Appends the transaction and signature bytes of each transaction.
pub(crate) fn append_tx_bytes(buf: &mut Vec<u8>, txs: &Vec<TransactionEntry>)
    ensures
        final(buf)@ == old(buf)@ + tx_bytes(txs@),
{
    let ghost start = buf@;
    let mut i: usize = 0;
    while i < txs.len()
        invariant
            i <= txs@.len(),
            buf@ == start + tx_bytes(txs@.subrange(0, i as int)),
        decreases txs@.len() - i,
    {
        append_bytes(buf, txs[i].transaction.as_slice());
        append_bytes(buf, txs[i].signature.as_slice());
        proof {
            let s = txs@.subrange(0, i + 1);
            assert(s.drop_last() =~= txs@.subrange(0, i as int));
        }
        i = i + 1;
        assert(buf@ =~= start + tx_bytes(txs@.subrange(0, i as int)));
    }
    assert(txs@.subrange(0, txs@.len() as int) =~= txs@);
}

/// Appends the bytes the entry data contributes to its hash.
fn append_entry_data(buf: &mut Vec<u8>, data: &EntryData)
    ensures
        final(buf)@ == old(buf)@ + entry_data_bytes(*data),
{
    match data {
        EntryData::Tick => {
            let tag: [u8; 4] = [116u8, 105u8, 99u8, 107u8];
            assert(tag@ =~= tick_tag());
            append_bytes(buf, tag.as_slice());
        },
        EntryData::Transactions(txs) => {
            append_tx_bytes(buf, txs);
        },
    }
}

impl PohEntry {
    /// The hash this entry should carry, computed from its contents.
    pub fn compute_hash(&self) -> (h: PohHash)
        ensures
            h.0@ == spec_entry_hash(self.prev_hash.0@, self.slot, self.index, self.num_hashes, self.data),
    {
        let mut buf: Vec<u8> = Vec::new();
        append_bytes(&mut buf, self.prev_hash.0.as_slice());
        append_u64_le(&mut buf, self.slot);
        append_u64_le(&mut buf, self.index);
        append_u64_le(&mut buf, self.num_hashes);
        append_entry_data(&mut buf, &self.data);
        PohHash(sha256_digest(buf.as_slice()))
    }

    /// Whether the stored hash matches the contents.
    pub fn verify(&self) -> (ok: bool)
        ensures
            ok == entry_is_valid(*self),
    {
        self.hash == self.compute_hash()
    }

    /// A tick entry whose hash is computed from its contents.
    pub fn tick(prev_hash: PohHash, num_hashes: u64, slot: u64, index: u64) -> (e: Self)
        ensures
            e.prev_hash == prev_hash,
            e.num_hashes == num_hashes,
            e.slot == slot,
            e.index == index,
            e.data == EntryData::Tick,
            entry_is_valid(e),
    {
        let mut entry = PohEntry {
            hash: PohHash([0u8; 32]),
            prev_hash,
            num_hashes,
            slot,
            index,
            data: EntryData::Tick,
        };
        entry.hash = entry.compute_hash();
        entry
    }

    /// An entry carrying one transaction, with its hash computed.
    pub fn transaction(
        prev_hash: PohHash,
        num_hashes: u64,
        slot: u64,
        index: u64,
        transaction: Vec<u8>,
        signature: Vec<u8>,
    ) -> (e: Self)
        ensures
            e.prev_hash == prev_hash,
            e.num_hashes == num_hashes,
            e.slot == slot,
            e.index == index,
            e.data matches EntryData::Transactions(txs) && txs@.len() == 1
                && txs@[0].transaction@ == transaction@ && txs@[0].signature@ == signature@,
            entry_is_valid(e),
    {
        let mut txs: Vec<TransactionEntry> = Vec::new();
        txs.push(TransactionEntry { transaction, signature });
        let mut entry = PohEntry {
            hash: PohHash([0u8; 32]),
            prev_hash,
            num_hashes,
            slot,
            index,
            data: EntryData::Transactions(txs),
        };
        entry.hash = entry.compute_hash();
        entry
    }

    /// An entry with an explicitly given hash.
    pub fn with_hash(
        hash: PohHash,
        prev_hash: PohHash,
        num_hashes: u64,
        slot: u64,
        index: u64,
        data: EntryData,
    ) -> (e: Self)
        ensures
            e == (PohEntry { hash, prev_hash, num_hashes, slot, index, data }),
    {
        PohEntry { hash, prev_hash, num_hashes, slot, index, data }
    }
}

impl Entry {
    /// A block from its parts.
    pub fn new(
        hash: PohHash,
        slot: u64,
        parent_hash: PohHash,
        entries: Vec<PohEntry>,
        height: u64,
        timestamp: u64,
    ) -> (b: Self)
        ensures
            b == (Entry { hash, slot, parent_hash, entries, height, timestamp }),
    {
        Entry { hash, slot, parent_hash, entries, height, timestamp }
    }

    /// Whether the block has entries, each entry is valid, each links to the
    /// previous one, and the first links to the block's parent.
    pub fn verify_poh_chain(&self) -> (ok: bool)
        ensures
            ok == (self.entries@.len() > 0 && entries_all_valid(self.entries@) && entries_chained(
                self.entries@,
            ) && self.entries@[0].prev_hash.0@ == self.parent_hash.0@),
    {
        if self.entries.len() == 0 {
            return false;
        }
        let mut i: usize = 0;
        while i < self.entries.len()
            invariant
                i <= self.entries@.len(),
                forall|j: int| 0 <= j < i ==> entry_is_valid(#[trigger] self.entries@[j]),
                forall|j: int|
                    1 <= j < i ==> #[trigger] self.entries@[j].prev_hash.0@ == self.entries@[j
                        - 1].hash.0@,
            decreases self.entries@.len() - i,
        {
            let entry = &self.entries[i];
            if !entry.verify() {
                return false;
            }
            if i > 0 {
                if entry.prev_hash != self.entries[i - 1].hash {
                    assert(!entries_chained(self.entries@));
                    return false;
                }
            }
            i = i + 1;
        }
        if self.entries[0].prev_hash != self.parent_hash {
            return false;
        }
        true
    }

    /// All transactions of the block's entries, in order.
    pub fn transactions(&self) -> (txs: Vec<&TransactionEntry>)
        ensures
            deref_txs(txs@) == entries_transactions(self.entries@),
    {
        let mut out: Vec<&TransactionEntry> = Vec::new();
        let mut i: usize = 0;
        while i < self.entries.len()
            invariant
                i <= self.entries@.len(),
                deref_txs(out@) == entries_transactions(
                    self.entries@.subrange(0, i as int),
                ),
            decreases self.entries@.len() - i,
        {
            let ghost before = deref_txs(out@);
            match &self.entries[i].data {
                EntryData::Tick => {},
                EntryData::Transactions(txs) => {
                    let mut j: usize = 0;
                    while j < txs.len()
                        invariant
                            j <= txs@.len(),
                            deref_txs(out@) == before + txs@.subrange(
                                0,
                                j as int,
                            ),
                        decreases txs@.len() - j,
                    {
                        let ghost prev = out@;
                        out.push(&txs[j]);
                        assert(deref_txs(out@) =~= deref_txs(prev).push(txs@[j as int]));
                        j = j + 1;
                        assert(deref_txs(out@) =~= before
                            + txs@.subrange(0, j as int));
                    }
                    assert(txs@.subrange(0, txs@.len() as int) =~= txs@);
                },
            }
            proof {
                let s = self.entries@.subrange(0, i + 1);
                assert(s.drop_last() =~= self.entries@.subrange(0, i as int));
            }
            i = i + 1;
            assert(deref_txs(out@) =~= entries_transactions(
                self.entries@.subrange(0, i as int),
            ));
        }
        assert(self.entries@.subrange(0, self.entries@.len() as int) =~= self.entries@);
        out
    }

    /// SHA-256(parent_hash || slot || height || entry hashes...), integers little-endian.
    pub fn compute_hash(&self) -> (h: PohHash)
        ensures
            h.0@ == sha256(
                self.parent_hash.0@ + spec_u64_to_le_bytes(self.slot) + spec_u64_to_le_bytes(
                    self.height,
                ) + entry_hashes_bytes(self.entries@),
            ),
    {
        let mut buf: Vec<u8> = Vec::new();
        append_bytes(&mut buf, self.parent_hash.0.as_slice());
        append_u64_le(&mut buf, self.slot);
        append_u64_le(&mut buf, self.height);
        let ghost start = buf@;
        let mut i: usize = 0;
        while i < self.entries.len()
            invariant
                i <= self.entries@.len(),
                buf@ == start + entry_hashes_bytes(self.entries@.subrange(0, i as int)),
            decreases self.entries@.len() - i,
        {
            append_bytes(&mut buf, self.entries[i].hash.0.as_slice());
            proof {
                let s = self.entries@.subrange(0, i + 1);
                assert(s.drop_last() =~= self.entries@.subrange(0, i as int));
            }
            i = i + 1;
            assert(buf@ =~= start + entry_hashes_bytes(self.entries@.subrange(0, i as int)));
        }
        assert(self.entries@.subrange(0, self.entries@.len() as int) =~= self.entries@);
        PohHash(sha256_digest(buf.as_slice()))
    }
}

} // verus!
