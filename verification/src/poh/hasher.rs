//! The PoH hash chain: each step replaces the current hash by its SHA-256.

use vstd::string::StringSliceAdditionalSpecFns;
use crate::crypto::{append_bytes, bytes32_eq, hex_encode, hex_lower, sha256, sha256_digest, zeros32};
use vstd::prelude::*;

verus! {

/// A position in the hash chain: 32 bytes.
#[derive(Clone, Copy, Debug, Hash)]
pub struct PohHash(pub [u8; 32]);

impl PartialEq for PohHash {
    fn eq(&self, other: &Self) -> (r: bool) {
        bytes32_eq(&self.0, &other.0)
    }
}

impl vstd::std_specs::cmp::PartialEqSpecImpl for PohHash {
    open spec fn obeys_eq_spec() -> bool {
        true
    }

    open spec fn eq_spec(&self, other: &Self) -> bool {
        self.0@ == other.0@
    }
}

impl Eq for PohHash {}

/// The hash reached from `start` after `n` sequential SHA-256 steps.
pub open spec fn poh_chain(start: Seq<u8>, n: nat) -> Seq<u8>
    decreases n,
{
    if n == 0 {
        start
    } else {
        sha256(poh_chain(start, (n - 1) as nat))
    }
}

/// Hashing `a` steps and then `b` more steps from where that ended is the same
/// as hashing `a + b` steps from the start.
pub proof fn lemma_poh_chain_compose(start: Seq<u8>, a: nat, b: nat)
    ensures
        poh_chain(poh_chain(start, a), b) == poh_chain(start, a + b),
    decreases b,
{
    if b > 0 {
        lemma_poh_chain_compose(start, a, (b - 1) as nat);
        assert((a + b - 1) as nat == a + (b - 1) as nat);
    }
}

impl PohHash {
    /// Wraps raw bytes.
    pub fn new(bytes: [u8; 32]) -> (h: Self)
        ensures
            h.0 == bytes,
    {
        PohHash(bytes)
    }

    /// The SHA-256 of the seed's UTF-8 bytes.
    pub fn from_seed(seed: &str) -> (h: Self)
        ensures
            h.0@ == sha256(seed.spec_bytes()),
    {
        PohHash(sha256_digest(seed.as_bytes()))
    }

    /// The inner bytes.
    pub fn as_bytes(&self) -> (b: &[u8; 32])
        ensures
            *b == self.0,
    {
        &self.0
    }

    /// Lowercase hex of the 32 bytes.
    pub fn to_hex(&self) -> (s: String)
        ensures
            s@ == hex_lower(self.0@),
    {
        hex_encode(self.0.as_slice())
    }

    /// The all-zero hash (genesis).
    pub fn zero() -> (h: Self)
        ensures
            h.0@ == zeros32(),
    {
        let h = PohHash([0u8; 32]);
        assert(h.0@ =~= zeros32());
        h
    }
}

/// What a hasher holds: the current hash, the number of steps taken in the
/// current slot, and the slot.
pub struct PohHasherView {
    pub current: Seq<u8>,
    pub count: u64,
    pub slot: u64,
}

/// Maintains the running hash chain.
#[derive(Debug)]
pub struct PohHasher {
    current_hash: PohHash,
    hash_count: u64,
    slot: u64,
}

impl View for PohHasher {
    type V = PohHasherView;

    closed spec fn view(&self) -> PohHasherView {
        PohHasherView { current: self.current_hash.0@, count: self.hash_count, slot: self.slot }
    }
}

impl PohHasher {
    /// A hasher starting at `seed` in `slot`, with no steps taken.
    pub fn new(seed: PohHash, slot: u64) -> (h: Self)
        ensures
            h@.current == seed.0@,
            h@.count == 0,
            h@.slot == slot,
    {
        PohHasher { current_hash: seed, hash_count: 0, slot }
    }

    /// A hasher starting from the zero hash in slot 0.
    pub fn genesis() -> (h: Self)
        ensures
            h@.current == zeros32(),
            h@.count == 0,
            h@.slot == 0,
    {
        Self::new(PohHash::zero(), 0)
    }

    /// One step: the current hash becomes its SHA-256.
    pub fn hash(&mut self) -> (h: PohHash)
        requires
            old(self)@.count < u64::MAX,
        ensures
            final(self)@.current == sha256(old(self)@.current),
            final(self)@.count == old(self)@.count + 1,
            final(self)@.slot == old(self)@.slot,
            h.0@ == final(self)@.current,
    {
        let next = sha256_digest(self.current_hash.0.as_slice());
        self.current_hash = PohHash(next);
        self.hash_count = self.hash_count + 1;
        self.current_hash
    }

    /// `n` steps; returns the hash reached.
    pub fn hash_n(&mut self, n: u64) -> (h: PohHash)
        requires
            old(self)@.count + n <= u64::MAX,
        ensures
            final(self)@.current == poh_chain(old(self)@.current, n as nat),
            final(self)@.count == old(self)@.count + n,
            final(self)@.slot == old(self)@.slot,
            h.0@ == final(self)@.current,
    {
        let ghost start = self@.current;
        let mut i: u64 = 0;
        while i < n
            invariant
                i <= n,
                self@.current == poh_chain(start, i as nat),
                self@.count == old(self)@.count + i,
                self@.slot == old(self)@.slot,
                old(self)@.count + n <= u64::MAX,
            decreases n - i,
        {
            self.hash();
            i = i + 1;
        }
        self.current_hash
    }

    /// One step that mixes `data` in: the current hash becomes
    /// SHA-256(current || data).
    pub fn hash_with(&mut self, data: &[u8]) -> (h: PohHash)
        requires
            old(self)@.count < u64::MAX,
        ensures
            final(self)@.current == sha256(old(self)@.current + data@),
            final(self)@.count == old(self)@.count + 1,
            final(self)@.slot == old(self)@.slot,
            h.0@ == final(self)@.current,
    {
        let mut buf: Vec<u8> = Vec::new();
        append_bytes(&mut buf, self.current_hash.0.as_slice());
        append_bytes(&mut buf, data);
        let next = sha256_digest(buf.as_slice());
        self.current_hash = PohHash(next);
        self.hash_count = self.hash_count + 1;
        self.current_hash
    }

    /// The current hash.
    pub fn current(&self) -> (h: PohHash)
        ensures
            h.0@ == self@.current,
    {
        self.current_hash
    }

    /// Steps taken in the current slot.
    pub fn count(&self) -> (c: u64)
        ensures
            c == self@.count,
    {
        self.hash_count
    }

    /// The current slot.
    pub fn slot(&self) -> (s: u64)
        ensures
            s == self@.slot,
    {
        self.slot
    }

    /// Moves to `slot`: the step count restarts, the chain continues.
    pub fn new_slot(&mut self, slot: u64)
        ensures
            final(self)@.slot == slot,
            final(self)@.count == 0,
            final(self)@.current == old(self)@.current,
    {
        self.slot = slot;
        self.hash_count = 0;
    }

    /// Whether `steps` steps from `start_hash` reach `end_hash`.
    pub fn verify(start_hash: PohHash, steps: u64, end_hash: PohHash) -> (ok: bool)
        ensures
            ok == (poh_chain(start_hash.0@, steps as nat) == end_hash.0@),
    {
        let mut hasher = PohHasher::new(start_hash, 0);
        let computed = hasher.hash_n(steps);
        computed == end_hash
    }
}

} // verus!
