//! Lexicographic order on byte strings, and sorting of 32-byte hashes by it.

use vstd::prelude::*;
use vstd::relations::{sorted_by, total_ordering};

verus! {

/// `a` is lexicographically at most `b` (a proper prefix comes first).
pub open spec fn lex_le(a: Seq<u8>, b: Seq<u8>) -> bool
    decreases a.len(),
{
    if a.len() == 0 {
        true
    } else if b.len() == 0 {
        false
    } else if a[0] != b[0] {
        a[0] < b[0]
    } else {
        lex_le(a.drop_first(), b.drop_first())
    }
}

/// The lexicographic order as a relation.
pub open spec fn lex_order() -> spec_fn(Seq<u8>, Seq<u8>) -> bool {
    |a: Seq<u8>, b: Seq<u8>| lex_le(a, b)
}

proof fn lemma_lex_reflexive(a: Seq<u8>)
    ensures
        lex_le(a, a),
    decreases a.len(),
{
    if a.len() > 0 {
        lemma_lex_reflexive(a.drop_first());
    }
}

proof fn lemma_lex_antisymmetric(a: Seq<u8>, b: Seq<u8>)
    requires
        lex_le(a, b),
        lex_le(b, a),
    ensures
        a == b,
    decreases a.len(),
{
    if a.len() > 0 && b.len() > 0 {
        lemma_lex_antisymmetric(a.drop_first(), b.drop_first());
        assert(a =~= seq![a[0]] + a.drop_first());
        assert(b =~= seq![b[0]] + b.drop_first());
    } else {
        assert(a.len() == 0 && b.len() == 0);
        assert(a =~= b);
    }
}

proof fn lemma_lex_transitive(a: Seq<u8>, b: Seq<u8>, c: Seq<u8>)
    requires
        lex_le(a, b),
        lex_le(b, c),
    ensures
        lex_le(a, c),
    decreases a.len(),
{
    if a.len() > 0 && b.len() > 0 && c.len() > 0 {
        if a[0] == b[0] && b[0] == c[0] {
            lemma_lex_transitive(a.drop_first(), b.drop_first(), c.drop_first());
        }
    }
}

proof fn lemma_lex_total(a: Seq<u8>, b: Seq<u8>)
    ensures
        lex_le(a, b) || lex_le(b, a),
    decreases a.len(),
{
    if a.len() > 0 && b.len() > 0 && a[0] == b[0] {
        lemma_lex_total(a.drop_first(), b.drop_first());
    }
}

/// The lexicographic order is a total order.
pub proof fn lemma_lex_total_ordering()
    ensures
        total_ordering(lex_order()),
{
    assert forall|a: Seq<u8>| #[trigger] lex_order()(a, a) by {
        lemma_lex_reflexive(a);
    }
    assert forall|a: Seq<u8>, b: Seq<u8>|
        #[trigger] lex_order()(a, b) && #[trigger] lex_order()(b, a) implies a == b by {
        lemma_lex_antisymmetric(a, b);
    }
    assert forall|a: Seq<u8>, b: Seq<u8>, c: Seq<u8>|
        #[trigger] lex_order()(a, b) && #[trigger] lex_order()(b, c) implies lex_order()(a, c) by {
        lemma_lex_transitive(a, b, c);
    }
    assert forall|a: Seq<u8>, b: Seq<u8>| #[trigger] lex_order()(a, b) || #[trigger] lex_order()(b, a) by {
        lemma_lex_total(a, b);
    }
}

/// Whether `a` is lexicographically at most `b`.
pub fn bytes32_le(a: &[u8; 32], b: &[u8; 32]) -> (r: bool)
    ensures
        r == lex_le(a@, b@),
{
    assert(a@.skip(0) =~= a@);
    assert(b@.skip(0) =~= b@);
    let mut i: usize = 0;
    while i < 32
        invariant
            i <= 32,
            a@.len() == 32,
            b@.len() == 32,
            lex_le(a@, b@) == lex_le(a@.skip(i as int), b@.skip(i as int)),
        decreases 32 - i,
    {
        if a[i] != b[i] {
            return a[i] < b[i];
        }
        assert(a@.skip(i as int).drop_first() =~= a@.skip(i + 1));
        assert(b@.skip(i as int).drop_first() =~= b@.skip(i + 1));
        i = i + 1;
    }
    assert(a@.skip(32) =~= Seq::<u8>::empty());
    true
}

/// Hashes as byte sequences.
pub open spec fn hashes_view(s: Seq<[u8; 32]>) -> Seq<Seq<u8>> {
    s.map_values(|h: [u8; 32]| h@)
}

/// Sorts hashes lexicographically (insertion sort): the result holds the same
/// hashes, in order.
pub fn sort_hashes(v: &Vec<[u8; 32]>) -> (out: Vec<[u8; 32]>)
    ensures
        hashes_view(out@).to_multiset() == hashes_view(v@).to_multiset(),
        sorted_by(hashes_view(out@), lex_order()),
{
    proof {
        lemma_lex_total_ordering();
    }
    let mut out: Vec<[u8; 32]> = Vec::new();
    assert(hashes_view(out@) =~= hashes_view(v@.subrange(0, 0)));
    let mut i: usize = 0;
    while i < v.len()
        invariant
            i <= v@.len(),
            total_ordering(lex_order()),
            hashes_view(out@).to_multiset() == hashes_view(v@.subrange(0, i as int)).to_multiset(),
            sorted_by(hashes_view(out@), lex_order()),
        decreases v@.len() - i,
    {
        let x = v[i];
        let mut p: usize = 0;
        while p < out.len() && bytes32_le(&out[p], &x)
            invariant
                p <= out@.len(),
                forall|k: int| 0 <= k < p ==> lex_le(#[trigger] out@[k]@, x@),
            decreases out@.len() - p,
        {
            p = p + 1;
        }
        let ghost old_out = out@;
        out.insert(p, x);
        proof {
            let ov = hashes_view(old_out);
            let nv = hashes_view(out@);
            assert(nv =~= ov.insert(p as int, x@));
            vstd::seq_lib::to_multiset_insert(ov, p as int, x@);
            assert(v@.subrange(0, i + 1) =~= v@.subrange(0, i as int).push(x));
            assert(hashes_view(v@.subrange(0, i + 1)) =~= hashes_view(v@.subrange(0, i as int)).push(x@));
            vstd::seq_lib::to_multiset_build(hashes_view(v@.subrange(0, i as int)), x@);
            assert forall|a: int, b: int| 0 <= a < b < nv.len() implies #[trigger] lex_order()(nv[a], nv[b]) by {
                if p < old_out.len() {
                    assert(!lex_le(old_out[p as int]@, x@));
                    lemma_lex_total(old_out[p as int]@, x@);
                }
                if b < p {
                    assert(lex_order()(ov[a], ov[b]));
                } else if b == p {
                    assert(lex_le(old_out[a]@, x@));
                } else if a == p {
                    assert(lex_le(x@, old_out[p as int]@));
                    if b - 1 > p {
                        assert(lex_order()(ov[p as int], ov[b - 1]));
                        lemma_lex_transitive(x@, old_out[p as int]@, old_out[b - 1]@);
                    }
                } else if a < p {
                    assert(lex_order()(ov[a], ov[b - 1]));
                } else {
                    assert(lex_order()(ov[a - 1], ov[b - 1]));
                }
            }
        }
        i = i + 1;
    }
    assert(v@.subrange(0, v@.len() as int) =~= v@);
    out
}

} // verus!
