//! Shreds: the small, hashed pieces a block is cut into for propagation.

use crate::crypto::{append_bytes, sha256, sha256_digest};
use crate::poh::hasher::PohHash;
use vstd::prelude::*;

verus! {

/// Largest payload of a shred.
pub const MAX_PAYLOAD_SIZE: usize = 1228;

/// What a shred carries.
#[derive(Debug, Clone, Copy, PartialEq, Eq, Structural, Hash)]
pub enum ShredType {
    /// Block data.
    Data,
    /// A coding shred, which carries the whole block.
    Coding,
}

/// A shred's identity: slot, index and type.
#[derive(Debug, Clone, Copy, PartialEq, Eq, Structural, Hash)]
pub struct ShredId {
    pub slot: u64,
    pub index: u64,
    pub shred_type: ShredType,
}

impl ShredId {
    /// The id of a data shred.
    pub fn data(slot: u64, index: u64) -> (id: Self)
        ensures
            id == (ShredId { slot, index, shred_type: ShredType::Data }),
    {
        ShredId { slot, index, shred_type: ShredType::Data }
    }

    /// The id of a coding shred.
    pub fn coding(slot: u64, index: u64) -> (id: Self)
        ensures
            id == (ShredId { slot, index, shred_type: ShredType::Coding }),
    {
        ShredId { slot, index, shred_type: ShredType::Coding }
    }
}

/// A piece of a block.
#[derive(Debug)]
pub struct Shred {
    /// Slot, index and type.
    pub id: ShredId,
    /// Slot of the block.
    pub slot: u64,
    /// Index within the slot.
    pub index: u64,
    /// Data or coding.
    pub shred_type: ShredType,
    /// The payload.
    pub payload: Vec<u8>,
    /// SHA-256 of the payload.
    pub hash: PohHash,
    /// Signature bytes.
    pub signature: Vec<u8>,
}

/// A shred as values.
pub struct ShredView {
    pub id: ShredId,
    pub slot: u64,
    pub index: u64,
    pub shred_type: ShredType,
    pub payload: Seq<u8>,
    pub hash: Seq<u8>,
    pub signature: Seq<u8>,
}

impl View for Shred {
    type V = ShredView;

    open spec fn view(&self) -> ShredView {
        ShredView {
            id: self.id,
            slot: self.slot,
            index: self.index,
            shred_type: self.shred_type,
            payload: self.payload@,
            hash: self.hash.0@,
            signature: self.signature@,
        }
    }
}

/// The shred made from a payload: its id, slot, index and type, the hash of
/// the payload, and no signature.
pub open spec fn made_shred(slot: u64, index: u64, shred_type: ShredType, payload: Seq<u8>) -> ShredView {
    ShredView {
        id: ShredId { slot, index, shred_type },
        slot,
        index,
        shred_type,
        payload,
        hash: sha256(payload),
        signature: Seq::empty(),
    }
}

/// A copy of a byte vector.
pub fn copy_bytes(v: &Vec<u8>) -> (r: Vec<u8>)
    ensures
        r@ == v@,
{
    let mut r: Vec<u8> = Vec::new();
    append_bytes(&mut r, v.as_slice());
    r
}

impl Clone for Shred {
    fn clone(&self) -> (r: Self)
        ensures
            r@ == self@,
    {
        Shred {
            id: self.id,
            slot: self.slot,
            index: self.index,
            shred_type: self.shred_type,
            payload: copy_bytes(&self.payload),
            hash: self.hash,
            signature: copy_bytes(&self.signature),
        }
    }
}

impl Shred {
    /// A data shred carrying `payload`.
    pub fn new_data(slot: u64, index: u64, payload: Vec<u8>) -> (s: Self)
        ensures
            s@ == made_shred(slot, index, ShredType::Data, payload@),
    {
        let hash = Self::compute_hash(payload.as_slice());
        Shred {
            id: ShredId::data(slot, index),
            slot,
            index,
            shred_type: ShredType::Data,
            payload,
            hash,
            signature: Vec::new(),
        }
    }

    /// A coding shred carrying `payload`.
    pub fn new_coding(slot: u64, index: u64, payload: Vec<u8>) -> (s: Self)
        ensures
            s@ == made_shred(slot, index, ShredType::Coding, payload@),
    {
        let hash = Self::compute_hash(payload.as_slice());
        Shred {
            id: ShredId::coding(slot, index),
            slot,
            index,
            shred_type: ShredType::Coding,
            payload,
            hash,
            signature: Vec::new(),
        }
    }

    /// The SHA-256 of a payload.
    pub fn compute_hash(payload: &[u8]) -> (h: PohHash)
        ensures
            h.0@ == sha256(payload@),
    {
        PohHash(sha256_digest(payload))
    }

    /// Whether the stored hash is the hash of the payload.
    pub fn verify(&self) -> (b: bool)
        ensures
            b == (self.hash.0@ == sha256(self.payload@)),
    {
        self.hash == Self::compute_hash(self.payload.as_slice())
    }

    /// The encoded size: the in-memory size of the id, then slot, index and
    /// type, the payload and the signature each with a 4-byte length, and
    /// the hash.
    pub fn size(&self) -> (n: usize)
        requires
            vstd::layout::size_of::<ShredId>() + 57 + self.payload@.len() + self.signature@.len() <= usize::MAX,
        ensures
            n == vstd::layout::size_of::<ShredId>() + 57 + self.payload@.len() + self.signature@.len(),
    {
        std::mem::size_of::<ShredId>() + 8 + 8 + 1 + 4 + self.payload.len() + 32 + 4 + self.signature.len()
    }

    /// The largest payload, in bytes.
    pub fn max_payload_size() -> (n: usize)
        ensures
            n == MAX_PAYLOAD_SIZE,
    {
        MAX_PAYLOAD_SIZE
    }
}

} // verus!
