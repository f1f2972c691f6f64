//! Merkle state roots over account hashes, and inclusion proofs.

use crate::crypto::{append_bytes, bytes32_eq, hex_encode, hex_lower, sha256, sha256_digest, zeros32};
use vstd::prelude::*;
use vstd::slice::slice_to_vec;

verus! {

/// A state root: 32 bytes.
#[derive(Debug, Clone, Copy, Hash)]
pub struct StateRoot(pub [u8; 32]);

impl PartialEq for StateRoot {
    fn eq(&self, other: &Self) -> (r: bool) {
        bytes32_eq(&self.0, &other.0)
    }
}

impl vstd::std_specs::cmp::PartialEqSpecImpl for StateRoot {
    open spec fn obeys_eq_spec() -> bool {
        true
    }

    open spec fn eq_spec(&self, other: &Self) -> bool {
        self.0@ == other.0@
    }
}

impl Eq for StateRoot {}

/// SHA-256 of two hashes side by side.
pub open spec fn hash_pair(a: Seq<u8>, b: Seq<u8>) -> Seq<u8> {
    sha256(a + b)
}

/// One level up: adjacent pairs are hashed together; an odd last element is
/// carried up unchanged.
pub open spec fn next_level(l: Seq<Seq<u8>>) -> Seq<Seq<u8>> {
    Seq::new(
        ((l.len() + 1) / 2) as nat,
        |j: int|
            if 2 * j + 1 < l.len() {
                hash_pair(l[2 * j], l[2 * j + 1])
            } else {
                l[2 * j]
            },
    )
}

/// The Merkle root: zeros for no leaves, the leaf itself for one, otherwise
/// the root of the level above.
pub open spec fn merkle_root(l: Seq<Seq<u8>>) -> Seq<u8>
    decreases l.len(),
{
    if l.len() == 0 {
        zeros32()
    } else if l.len() == 1 {
        l[0]
    } else {
        merkle_root(next_level(l))
    }
}

/// The siblings met on the way from leaf `i` to the root, each with whether
/// it sits on the left.
pub open spec fn merkle_path(l: Seq<Seq<u8>>, i: int) -> Seq<(Seq<u8>, bool)>
    decreases l.len(),
{
    if l.len() <= 1 {
        Seq::empty()
    } else {
        let rest = merkle_path(next_level(l), i / 2);
        if i % 2 == 0 {
            if i + 1 < l.len() {
                seq![(l[i + 1], false)] + rest
            } else {
                rest
            }
        } else {
            seq![(l[i - 1], true)] + rest
        }
    }
}

/// Combines a value with one sibling.
pub open spec fn combine(current: Seq<u8>, sibling: (Seq<u8>, bool)) -> Seq<u8> {
    if sibling.1 {
        hash_pair(sibling.0, current)
    } else {
        hash_pair(current, sibling.0)
    }
}

/// Folds the siblings into the leaf, first sibling first.
pub open spec fn fold_proof(leaf: Seq<u8>, siblings: Seq<(Seq<u8>, bool)>) -> Seq<u8>
    decreases siblings.len(),
{
    if siblings.len() == 0 {
        leaf
    } else {
        fold_proof(combine(leaf, siblings[0]), siblings.drop_first())
    }
}

/// Hashes as byte sequences.
pub open spec fn leaves_view(s: Seq<[u8; 32]>) -> Seq<Seq<u8>> {
    s.map_values(|h: [u8; 32]| h@)
}

/// Proof siblings as byte sequences.
pub open spec fn siblings_view(s: Seq<([u8; 32], bool)>) -> Seq<(Seq<u8>, bool)> {
    s.map_values(|p: ([u8; 32], bool)| (p.0@, p.1))
}

/// Leaf `i` with the siblings on its path folds up to the root: every proof
/// that `prove` builds verifies against the root that `compute` gives.
pub proof fn lemma_merkle_path_folds_to_root(l: Seq<Seq<u8>>, i: int)
    requires
        0 <= i < l.len(),
    ensures
        fold_proof(l[i], merkle_path(l, i)) == merkle_root(l),
    decreases l.len(),
{
    if l.len() > 1 {
        let nl = next_level(l);
        let rest = merkle_path(nl, i / 2);
        lemma_merkle_path_folds_to_root(nl, i / 2);
        let p = merkle_path(l, i);
        if i % 2 == 0 {
            if i + 1 < l.len() {
                assert(combine(l[i], (l[i + 1], false)) == nl[i / 2]);
                assert(p.drop_first() =~= rest);
            } else {
                assert(nl[i / 2] == l[i]);
            }
        } else {
            assert(combine(l[i], (l[i - 1], true)) == nl[i / 2]);
            assert(p.drop_first() =~= rest);
        }
    }
}

/// A Merkle inclusion proof for one leaf.
#[derive(Debug, Clone)]
pub struct MerkleProof {
    /// The leaf hash.
    pub leaf: [u8; 32],
    /// Sibling hashes and whether each is on the left.
    pub siblings: Vec<([u8; 32], bool)>,
    /// Index of the leaf.
    pub index: usize,
}

/// SHA-256(a || b).
fn hash_two(a: &[u8; 32], b: &[u8; 32]) -> (h: [u8; 32])
    ensures
        h@ == hash_pair(a@, b@),
{
    let mut buf: Vec<u8> = Vec::new();
    append_bytes(&mut buf, a.as_slice());
    append_bytes(&mut buf, b.as_slice());
    sha256_digest(buf.as_slice())
}

/// The level above `level`.
fn compute_next_level(level: &Vec<[u8; 32]>) -> (next: Vec<[u8; 32]>)
    ensures
        leaves_view(next@) == next_level(leaves_view(level@)),
        next@.len() == (level@.len() + 1) / 2,
{
    let n = level.len();
    let half = n / 2 + n % 2;
    let mut next: Vec<[u8; 32]> = Vec::new();
    let mut j: usize = 0;
    while j < half
        invariant
            n == level@.len(),
            half == (n + 1) / 2,
            j <= half,
            next@.len() == j,
            forall|k: int|
                0 <= k < j ==> #[trigger] next@[k]@ == next_level(leaves_view(level@))[k],
        decreases half - j,
    {
        if 2 * j + 1 < n {
            let h = hash_two(&level[2 * j], &level[2 * j + 1]);
            next.push(h);
        } else {
            next.push(level[2 * j]);
        }
        j = j + 1;
    }
    assert(leaves_view(next@) =~= next_level(leaves_view(level@)));
    next
}

impl StateRoot {
    /// The Merkle root of the hashes.
    pub fn compute(hashes: &[[u8; 32]]) -> (r: Self)
        ensures
            r.0@ == merkle_root(leaves_view(hashes@)),
    {
        if hashes.len() == 0 {
            let z = [0u8; 32];
            assert(z@ =~= zeros32());
            return StateRoot(z);
        }
        if hashes.len() == 1 {
            return StateRoot(hashes[0]);
        }
        let mut current = slice_to_vec(hashes);
        while current.len() > 1
            invariant
                current@.len() >= 1,
                merkle_root(leaves_view(current@)) == merkle_root(leaves_view(hashes@)),
            decreases current@.len(),
        {
            current = compute_next_level(&current);
        }
        StateRoot(current[0])
    }

    /// A proof for leaf `index`; for an index out of range (or no leaves), a
    /// proof with a zero leaf and no siblings.
    pub fn prove(hashes: &[[u8; 32]], index: usize) -> (p: MerkleProof)
        ensures
            p.index == index,
            (hashes@.len() == 0 || index >= hashes@.len()) ==> p.leaf@ == zeros32()
                && p.siblings@.len() == 0,
            index < hashes@.len() ==> p.leaf == hashes@[index as int] && siblings_view(
                p.siblings@,
            ) == merkle_path(leaves_view(hashes@), index as int),
    {
        if hashes.len() == 0 || index >= hashes.len() {
            let z = [0u8; 32];
            assert(z@ =~= zeros32());
            return MerkleProof { leaf: z, siblings: Vec::new(), index };
        }
        let mut siblings: Vec<([u8; 32], bool)> = Vec::new();
        let mut current = slice_to_vec(hashes);
        let mut current_index = index;
        while current.len() > 1
            invariant
                current_index < current@.len(),
                siblings_view(siblings@) + merkle_path(leaves_view(current@), current_index as int)
                    == merkle_path(leaves_view(hashes@), index as int),
            decreases current@.len(),
        {
            let ghost l = leaves_view(current@);
            let ghost rest = merkle_path(next_level(l), (current_index / 2) as int);
            let ghost before = siblings@;
            if current_index % 2 == 0 {
                if current_index + 1 < current.len() {
                    siblings.push((current[current_index + 1], false));
                    assert(merkle_path(l, current_index as int) == seq![(l[current_index + 1], false)] + rest);
                    assert(siblings_view(siblings@) =~= siblings_view(before) + seq![(l[current_index + 1], false)]);
                }
            } else {
                siblings.push((current[current_index - 1], true));
                assert(siblings_view(siblings@) =~= siblings_view(before) + seq![(l[current_index - 1], true)]);
            }
            current = compute_next_level(&current);
            current_index = current_index / 2;
            assert(siblings_view(siblings@) + merkle_path(leaves_view(current@), current_index as int)
                =~= merkle_path(leaves_view(hashes@), index as int));
        }
        MerkleProof { leaf: hashes[index], siblings, index }
    }

    /// Lowercase hex of the root.
    pub fn to_hex(&self) -> (s: String)
        ensures
            s@ == hex_lower(self.0@),
    {
        hex_encode(self.0.as_slice())
    }

    /// The root's bytes.
    pub fn as_bytes(&self) -> (b: &[u8; 32])
        ensures
            *b == self.0,
    {
        &self.0
    }
}

impl MerkleProof {
    /// Whether folding the siblings into the leaf gives `root`.
    pub fn verify(&self, root: &StateRoot) -> (ok: bool)
        ensures
            ok == (fold_proof(self.leaf@, siblings_view(self.siblings@)) == root.0@),
    {
        let ghost s = siblings_view(self.siblings@);
        assert(s.subrange(0, s.len() as int) =~= s);
        let mut current = self.leaf;
        let mut k: usize = 0;
        while k < self.siblings.len()
            invariant
                k <= self.siblings@.len(),
                s == siblings_view(self.siblings@),
                fold_proof(current@, s.subrange(k as int, s.len() as int)) == fold_proof(self.leaf@, s),
            decreases self.siblings@.len() - k,
        {
            let (sibling, is_left) = self.siblings[k];
            let next = if is_left {
                hash_two(&sibling, &current)
            } else {
                hash_two(&current, &sibling)
            };
            assert(s.subrange(k as int, s.len() as int).drop_first() =~= s.subrange(k + 1, s.len() as int));
            current = next;
            k = k + 1;
        }
        assert(s.subrange(k as int, s.len() as int) =~= Seq::<(Seq<u8>, bool)>::empty());
        bytes32_eq(&current, &root.0)
    }
}

} // verus!
