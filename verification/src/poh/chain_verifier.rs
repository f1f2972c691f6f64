//! Checks of PoH entries, blocks and the links between blocks.

use crate::crypto::debug_text;
use crate::text::{append_decimal, decimal};
use crate::poh::entry::{entries_all_valid, entries_chained, entry_is_valid, Entry, PohEntry};
use crate::poh::hasher::PohHash;
use vstd::prelude::*;
use vstd::string::StringExecFns;

verus! {

/// Outcome of a verification.
#[derive(Debug, Clone)]
pub struct VerificationResult {
    /// Whether everything checked out.
    pub valid: bool,
    /// What went wrong.
    pub errors: Vec<String>,
    /// Entries verified.
    pub entries_verified: u64,
    /// Hashes the verified entries account for.
    pub total_hashes_verified: u64,
}

impl VerificationResult {
    /// A success covering `entries` entries and `hashes` hashes.
    pub fn ok(entries: u64, hashes: u64) -> (r: Self)
        ensures
            r.valid,
            r.errors@.len() == 0,
            r.entries_verified == entries,
            r.total_hashes_verified == hashes,
    {
        VerificationResult {
            valid: true,
            errors: Vec::new(),
            entries_verified: entries,
            total_hashes_verified: hashes,
        }
    }

    /// A failure with one error.
    pub fn fail(error: String) -> (r: Self)
        ensures
            !r.valid,
            r.errors@ == seq![error],
            r.entries_verified == 0,
            r.total_hashes_verified == 0,
    {
        let mut errors: Vec<String> = Vec::new();
        errors.push(error);
        VerificationResult { valid: false, errors, entries_verified: 0, total_hashes_verified: 0 }
    }

    /// Records an error; the result is then invalid.
    pub fn add_error(&mut self, error: String)
        ensures
            !final(self).valid,
            final(self).errors@ == old(self).errors@.push(error),
            final(self).entries_verified == old(self).entries_verified,
            final(self).total_hashes_verified == old(self).total_hashes_verified,
    {
        self.errors.push(error);
        self.valid = false;
    }
}

/// Sum of `num_hashes` over the entries.
pub open spec fn hash_total(entries: Seq<PohEntry>) -> int
    decreases entries.len(),
{
    if entries.len() == 0 {
        0
    } else {
        hash_total(entries.drop_last()) + entries.last().num_hashes
    }
}

/// The running hash total never leaves `u64` while the entries counted so far
/// are valid.
pub open spec fn hash_total_fits(entries: Seq<PohEntry>) -> bool {
    forall|k: int|
        0 <= k <= entries.len() && (forall|j: int| 0 <= j < k ==> entry_is_valid(#[trigger] entries[j]))
            ==> #[trigger] hash_total(entries.subrange(0, k)) <= u64::MAX
}

/// A non-empty run of valid entries, each linked to the one before.
pub open spec fn slot_entries_ok(entries: Seq<PohEntry>) -> bool {
    entries.len() > 0 && entries_all_valid(entries) && entries_chained(entries)
}

/// What a verifier has seen.
pub struct PohVerifierView {
    pub last_valid_hash: Option<Seq<u8>>,
    pub entries_verified: u64,
    pub hashes_verified: u64,
}

/// PoH chain verifier.
pub struct PohVerifier {
    last_valid_hash: Option<PohHash>,
    entries_verified: u64,
    hashes_verified: u64,
}

impl View for PohVerifier {
    type V = PohVerifierView;

    closed spec fn view(&self) -> PohVerifierView {
        PohVerifierView {
            last_valid_hash: match self.last_valid_hash {
                Some(h) => Some(h.0@),
                None => None,
            },
            entries_verified: self.entries_verified,
            hashes_verified: self.hashes_verified,
        }
    }
}

/// `prefix`, `n` in decimal, then `suffix`.
fn text_with_number(prefix: &str, n: u64, suffix: &str) -> (s: String)
    ensures
        s@ == prefix@ + decimal(n as nat) + suffix@,
{
    let mut s = String::from_str(prefix);
    append_decimal(&mut s, n);
    s.append(suffix);
    s
}

impl PohVerifier {
    /// A verifier with no history.
    pub fn new() -> (v: Self)
        ensures
            v@.last_valid_hash == None::<Seq<u8>>,
            v@.entries_verified == 0,
            v@.hashes_verified == 0,
    {
        PohVerifier { last_valid_hash: None, entries_verified: 0, hashes_verified: 0 }
    }

    /// A verifier that starts from a known valid hash.
    pub fn new_with_state(last_valid_hash: PohHash) -> (v: Self)
        ensures
            v@.last_valid_hash == Some(last_valid_hash.0@),
            v@.entries_verified == 0,
            v@.hashes_verified == 0,
    {
        PohVerifier { last_valid_hash: Some(last_valid_hash), entries_verified: 0, hashes_verified: 0 }
    }

    /// Whether one entry's hash matches its contents.
    pub fn verify_entry(&self, entry: &PohEntry) -> (ok: bool)
        ensures
            ok == entry_is_valid(*entry),
    {
        entry.verify()
    }

    /// Checks a slot's entries: non-empty, each valid, each linked to the one
    /// before. On success the result counts the entries and their hashes.
    pub fn verify_slot_entries(&self, entries: &[PohEntry]) -> (r: VerificationResult)
        requires
            hash_total_fits(entries@),
        ensures
            r.valid == slot_entries_ok(entries@),
            r.valid ==> r.errors@.len() == 0 && r.entries_verified == entries@.len()
                && r.total_hashes_verified == hash_total(entries@),
            !r.valid ==> r.errors@.len() == 1 && r.entries_verified == 0
                && r.total_hashes_verified == 0,
    {
        if entries.len() == 0 {
            return VerificationResult::fail(String::from_str("Empty entries"));
        }
        let mut total_hashes: u64 = 0;
        let mut i: usize = 0;
        while i < entries.len()
            invariant
                i <= entries@.len(),
                hash_total_fits(entries@),
                forall|j: int| 0 <= j < i ==> entry_is_valid(#[trigger] entries@[j]),
                total_hashes == hash_total(entries@.subrange(0, i as int)),
            decreases entries@.len() - i,
        {
            if !entries[i].verify() {
                let msg = text_with_number("Entry ", i as u64, " hash verification failed");
                return VerificationResult::fail(msg);
            }
            proof {
                let k = i + 1;
                assert forall|j: int| 0 <= j < k implies entry_is_valid(#[trigger] entries@[j]) by {}
                assert(hash_total(entries@.subrange(0, k)) <= u64::MAX);
                assert(entries@.subrange(0, k).drop_last() =~= entries@.subrange(0, i as int));
            }
            total_hashes = total_hashes + entries[i].num_hashes;
            i = i + 1;
        }
        assert(entries@.subrange(0, entries@.len() as int) =~= entries@);
        let mut k: usize = 1;
        while k < entries.len()
            invariant
                1 <= k <= entries@.len(),
                forall|j: int| 1 <= j < k ==> #[trigger] entries@[j].prev_hash.0@ == entries@[j - 1].hash.0@,
            decreases entries@.len() - k,
        {
            let current = &entries[k - 1];
            let next = &entries[k];
            if next.prev_hash != current.hash {
                let mut msg = String::from_str("Chain break: next.prev_hash ");
                msg.append(debug_text(&next.prev_hash).as_str());
                msg.append(" != current.hash ");
                msg.append(debug_text(&current.hash).as_str());
                return VerificationResult::fail(msg);
            }
            k = k + 1;
        }
        VerificationResult::ok(entries.len() as u64, total_hashes)
    }

    /// Checks a block: its entries as a slot, and that the block hash is the
    /// last entry's hash.
    pub fn verify_block(&self, block: &Entry) -> (r: VerificationResult)
        requires
            hash_total_fits(block.entries@),
        ensures
            r.valid == (slot_entries_ok(block.entries@) && block.entries@.last().hash.0@
                == block.hash.0@),
            r.valid ==> r.errors@.len() == 0,
            !r.valid ==> r.errors@.len() == 1,
            slot_entries_ok(block.entries@) ==> r.entries_verified == block.entries@.len()
                && r.total_hashes_verified == hash_total(block.entries@),
    {
        let mut result = self.verify_slot_entries(block.entries.as_slice());
        if !result.valid {
            return result;
        }
        if block.entries.len() > 0 {
            let last_entry = &block.entries[block.entries.len() - 1];
            if last_entry.hash != block.hash {
                let mut msg = String::from_str("Block hash mismatch: expected ");
                msg.append(debug_text(&block.hash).as_str());
                msg.append(", got ");
                msg.append(debug_text(&last_entry.hash).as_str());
                result.add_error(msg);
            }
        }
        result
    }

    /// Checks that `child` follows `parent`: it names the parent's hash, and
    /// its slot and height are one more.
    pub fn verify_chain_link(&self, parent: &Entry, child: &Entry) -> (r: VerificationResult)
        requires
            parent.hash.0@ == child.parent_hash.0@ ==> parent.slot < u64::MAX,
            parent.hash.0@ == child.parent_hash.0@ && child.slot == parent.slot + 1
                ==> parent.height < u64::MAX,
        ensures
            r.valid == (parent.hash.0@ == child.parent_hash.0@ && child.slot == parent.slot + 1
                && child.height == parent.height + 1),
            r.valid ==> r.errors@.len() == 0,
            !r.valid ==> r.errors@.len() == 1,
            r.entries_verified == 0,
            r.total_hashes_verified == 0,
    {
        if parent.hash != child.parent_hash {
            let mut msg = String::from_str("Chain link broken: parent hash ");
            msg.append(debug_text(&parent.hash).as_str());
            msg.append(" != child parent_hash ");
            msg.append(debug_text(&child.parent_hash).as_str());
            return VerificationResult::fail(msg);
        }
        if child.slot != parent.slot + 1 {
            let mut msg = text_with_number("Slot discontinuity: parent=", parent.slot, ", child=");
            msg.append(child.slot.to_string().as_str());
            return VerificationResult::fail(msg);
        }
        if child.height != parent.height + 1 {
            let mut msg = text_with_number("Height discontinuity: parent=", parent.height, ", child=");
            msg.append(child.height.to_string().as_str());
            return VerificationResult::fail(msg);
        }
        VerificationResult::ok(0, 0)
    }

    /// Entries verified so far.
    pub fn entries_verified(&self) -> (n: u64)
        ensures
            n == self@.entries_verified,
    {
        self.entries_verified
    }

    /// Hashes verified so far.
    pub fn hashes_verified(&self) -> (n: u64)
        ensures
            n == self@.hashes_verified,
    {
        self.hashes_verified
    }
}

impl Default for PohVerifier {
    fn default() -> (v: Self)
        ensures
            v@.last_valid_hash == None::<Seq<u8>>,
            v@.entries_verified == 0,
            v@.hashes_verified == 0,
    {
        Self::new()
    }
}

} // verus!
