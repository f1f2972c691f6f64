//! Erasure coding: a block is cut into `k` data shreds and `m` coding
//! shreds, and any `k` of the `k + m` shreds give back the block.
//!
//! Each coding shred carries the whole block. So a set of `k` shreds taken
//! from an encoding either holds a coding shred, which is the block, or is
//! made of the `k` data shreds, whose payloads in index order are the block.

use crate::turbine::shred::{copy_bytes, made_shred, Shred, ShredType, ShredView};
use vstd::prelude::*;
use vstd::slice::{slice_subrange, slice_to_vec};

verus! {

/// How many data and coding shards a block is cut into.
#[derive(Debug, Clone, Copy)]
pub struct ErasureConfig {
    /// Number of data shards (k).
    pub data_shards: usize,
    /// Number of coding shards (m).
    pub parity_shards: usize,
}

impl ErasureConfig {
    /// 16 data and 4 coding shards.
    pub fn default_solana() -> (c: Self)
        ensures
            c.data_shards == 16,
            c.parity_shards == 4,
    {
        ErasureConfig { data_shards: 16, parity_shards: 4 }
    }

    /// Data and coding shards together.
    pub fn total_shards(&self) -> (n: usize)
        requires
            self.data_shards + self.parity_shards <= usize::MAX,
        ensures
            n == self.data_shards + self.parity_shards,
    {
        self.data_shards + self.parity_shards
    }

    /// The number of shreds that rebuild a block: the number of data shards.
    pub fn min_shards(&self) -> (n: usize)
        ensures
            n == self.data_shards,
    {
        self.data_shards
    }
}


/// The size of each shard for `len` bytes in `k` shards (rounded up).
pub open spec fn shard_size(len: nat, k: nat) -> nat {
    ((len + k - 1) / (k as int)) as nat
}

/// The payload of data shard `i`: its part of the data, cut at the end of
/// the data, and empty for a shard that starts past it.
pub open spec fn data_payload(data: Seq<u8>, k: nat, i: int) -> Seq<u8> {
    let s = shard_size(data.len(), k);
    let start = i * s;
    if start < data.len() {
        data.subrange(start, if start + s < data.len() { start + s } else { data.len() as int })
    } else {
        Seq::empty()
    }
}

/// The shreds of `data`: `k` data shreds, then `m` coding shreds, each of
/// which carries the whole data.
pub open spec fn spec_encode(data: Seq<u8>, k: nat, m: nat, slot: u64) -> Seq<ShredView> {
    Seq::new(k, |i: int| made_shred(slot, i as u64, ShredType::Data, data_payload(data, k, i))) + Seq::new(
        m,
        |p: int| made_shred(slot, (k + p) as u64, ShredType::Coding, data),
    )
}

/// The data shreds among `shreds`, in order.
pub open spec fn data_shreds(shreds: Seq<ShredView>) -> Seq<ShredView>
    decreases shreds.len(),
{
    if shreds.len() == 0 {
        Seq::empty()
    } else {
        let rest = data_shreds(shreds.drop_last());
        if shreds.last().shred_type == ShredType::Data {
            rest.push(shreds.last())
        } else {
            rest
        }
    }
}

/// The first position at or after `i` that holds a coding shred, or the
/// length where none does.
pub open spec fn coding_from(shreds: Seq<ShredView>, i: int) -> int
    decreases shreds.len() - i,
{
    if i < 0 || i >= shreds.len() {
        shreds.len() as int
    } else if shreds[i].shred_type == ShredType::Coding {
        i
    } else {
        coding_from(shreds, i + 1)
    }
}

/// The first position at or after `i` whose index is above `index`.
pub open spec fn first_above(s: Seq<ShredView>, index: u64, i: int) -> int
    decreases s.len() - i,
{
    if i < 0 || i >= s.len() || s[i].index > index {
        i
    } else {
        first_above(s, index, i + 1)
    }
}

/// The shreds ordered by index; equal indices keep their order.
pub open spec fn index_sort(s: Seq<ShredView>) -> Seq<ShredView>
    decreases s.len(),
{
    if s.len() == 0 {
        Seq::empty()
    } else {
        let t = index_sort(s.drop_last());
        t.insert(first_above(t, s.last().index, 0), s.last())
    }
}

/// The payloads one after the other.
pub open spec fn concat_payloads(s: Seq<ShredView>) -> Seq<u8>
    decreases s.len(),
{
    if s.len() == 0 {
        Seq::empty()
    } else {
        concat_payloads(s.drop_last()) + s.last().payload
    }
}

/// What decoding `shreds` gives with `k` data shards: nothing with fewer
/// than `k` shreds; else the payload of the first coding shred where there
/// is one; else the data payloads in index order where there are at least
/// `k` data shreds, and nothing otherwise.
pub open spec fn spec_decode(shreds: Seq<ShredView>, k: nat) -> Option<Seq<u8>> {
    if shreds.len() < k {
        None
    } else {
        let c = coding_from(shreds, 0);
        if c < shreds.len() {
            Some(shreds[c].payload)
        } else {
            let ds = index_sort(data_shreds(shreds));
            if ds.len() < k {
                None
            } else {
                Some(concat_payloads(ds))
            }
        }
    }
}

/// The views of a list of shreds.
pub open spec fn shred_views(s: Seq<Shred>) -> Seq<ShredView> {
    s.map_values(|x: Shred| x@)
}

/// Cuts data into shreds and rebuilds data from them.
pub struct ErasureCoder {
    config: ErasureConfig,
}

proof fn lemma_shard_bounds(len: nat, k: nat, i: int)
    requires
        k > 0,
        0 <= i < k,
    ensures
        i * shard_size(len, k) + shard_size(len, k) <= len + k - 1,
        0 <= i * shard_size(len, k),
{
    let s = shard_size(len, k);
    vstd::arithmetic::div_mod::lemma_fundamental_div_mod((len + k - 1) as int, k as int);
    assert(s * k <= len + k - 1) by (nonlinear_arith)
        requires
            s == (len + k - 1) / (k as int),
            k > 0,
            len + k - 1 >= 0,
    ;
    assert(i * s + s <= s * k) by (nonlinear_arith)
        requires
            0 <= i < k,
            s >= 0,
    ;
    assert(0 <= i * s) by (nonlinear_arith)
        requires
            0 <= i,
            s >= 0,
    ;
}

/// No coding shred comes before `p`, and `p` holds one: `p` is the first.
proof fn lemma_coding_from_at(shreds: Seq<ShredView>, i: int, p: int)
    requires
        0 <= i <= p < shreds.len(),
        shreds[p].shred_type == ShredType::Coding,
        forall|j: int| 0 <= j < p ==> #[trigger] shreds[j].shred_type == ShredType::Data,
    ensures
        coding_from(shreds, i) == p,
    decreases p - i,
{
    if i < p {
        lemma_coding_from_at(shreds, i + 1, p);
    }
}

/// With no coding shred at or after `i`, there is none to find.
proof fn lemma_coding_from_none(shreds: Seq<ShredView>, i: int)
    requires
        0 <= i <= shreds.len(),
        forall|j: int| 0 <= j < shreds.len() ==> #[trigger] shreds[j].shred_type == ShredType::Data,
    ensures
        coding_from(shreds, i) == shreds.len(),
    decreases shreds.len() - i,
{
    if i < shreds.len() {
        lemma_coding_from_none(shreds, i + 1);
    }
}

impl ErasureCoder {
    /// A coder with the given configuration.
    pub fn new(config: ErasureConfig) -> (c: Self)
        ensures
            c.coder_config() == config,
    {
        ErasureCoder { config }
    }

    /// A coder with 16 data and 4 coding shards.
    pub fn default_solana() -> (c: Self)
        ensures
            c.coder_config().data_shards == 16,
            c.coder_config().parity_shards == 4,
    {
        Self::new(ErasureConfig::default_solana())
    }

    /// The configuration.
    pub closed spec fn coder_config(&self) -> ErasureConfig {
        self.config
    }

    /// Cuts `data` into `k` data shreds, the last ones cut short or empty
    /// past the end of the data, and `m` coding shreds that each carry the
    /// whole data.
    pub fn encode(&self, data: &[u8], slot: u64) -> (shreds: Vec<Shred>)
        requires
            self.coder_config().data_shards > 0,
            data@.len() + self.coder_config().data_shards <= usize::MAX,
            self.coder_config().data_shards + self.coder_config().parity_shards <= usize::MAX,
        ensures
            shred_views(shreds@) == spec_encode(
                data@,
                self.coder_config().data_shards as nat,
                self.coder_config().parity_shards as nat,
                slot,
            ),
    {
        let k = self.config.data_shards;
        let m = self.config.parity_shards;
        let len = data.len();
        let s = (len + k - 1) / k;
        let ghost sn = shard_size(len as nat, k as nat);
        assert(s == sn);
        let mut shards: Vec<Shred> = Vec::new();
        let mut i: usize = 0;
        while i < k
            invariant
                k == self.coder_config().data_shards,
                k > 0,
                len == data@.len(),
                len + k <= usize::MAX,
                s == shard_size(len as nat, k as nat),
                i <= k,
                shred_views(shards@) == Seq::new(
                    i as nat,
                    |x: int| made_shred(slot, x as u64, ShredType::Data, data_payload(data@, k as nat, x)),
                ),
            decreases k - i,
        {
            proof {
                lemma_shard_bounds(len as nat, k as nat, i as int);
            }
            let start = i * s;
            let end = if start + s < len {
                start + s
            } else {
                len
            };
            let payload = if start < len {
                slice_to_vec(slice_subrange(data, start, end))
            } else {
                let z: Vec<u8> = Vec::new();
                assert(z@ =~= Seq::<u8>::empty());
                z
            };
            let shred = Shred::new_data(slot, i as u64, payload);
            let ghost old_views = shred_views(shards@);
            let ghost sv = shred@;
            shards.push(shred);
            proof {
                assert(shred_views(shards@) =~= old_views.push(sv));
                assert(sv == made_shred(slot, i as u64, ShredType::Data, data_payload(data@, k as nat, i as int)));
            }
            i = i + 1;
            assert(shred_views(shards@) =~= Seq::new(
                i as nat,
                |x: int| made_shred(slot, x as u64, ShredType::Data, data_payload(data@, k as nat, x)),
            ));
        }
        let mut p: usize = 0;
        while p < m
            invariant
                k == self.coder_config().data_shards,
                m == self.coder_config().parity_shards,
                k > 0,
                k + m <= usize::MAX,
                len == data@.len(),
                len + k <= usize::MAX,
                s == shard_size(len as nat, k as nat),
                p <= m,
                shred_views(shards@) == Seq::new(
                    k as nat,
                    |x: int| made_shred(slot, x as u64, ShredType::Data, data_payload(data@, k as nat, x)),
                ) + Seq::new(
                    p as nat,
                    |q: int| made_shred(slot, (k + q) as u64, ShredType::Coding, data@),
                ),
            decreases m - p,
        {
            let shred = Shred::new_coding(slot, (k + p) as u64, slice_to_vec(data));
            let ghost old_views = shred_views(shards@);
            let ghost sv = shred@;
            shards.push(shred);
            proof {
                assert(shred_views(shards@) =~= old_views.push(sv));
                assert(sv == made_shred(slot, (k + p) as u64, ShredType::Coding, data@));
            }
            p = p + 1;
            assert(shred_views(shards@) =~= Seq::new(
                k as nat,
                |x: int| made_shred(slot, x as u64, ShredType::Data, data_payload(data@, k as nat, x)),
            ) + Seq::new(
                p as nat,
                |q: int| made_shred(slot, (k + q) as u64, ShredType::Coding, data@),
            ));
        }
        shards
    }

    /// Rebuilds data from shreds: nothing from fewer than `k` shreds; the
    /// payload of the first coding shred where one is given; otherwise the
    /// payloads of the data shreds in index order, where there are at least
    /// `k` of them.
    pub fn decode(&self, shreds: &[Shred]) -> (r: Option<Vec<u8>>)
        ensures
            match spec_decode(shred_views(shreds@), self.coder_config().data_shards as nat) {
                Some(d) => r matches Some(v) && v@ == d,
                None => r is None,
            },
    {
        let k = self.config.data_shards;
        if shreds.len() < k {
            return None;
        }
        let ghost views = shred_views(shreds@);
        let mut c: usize = 0;
        while c < shreds.len() && shreds[c].shred_type == ShredType::Data
            invariant
                views == shred_views(shreds@),
                c <= shreds@.len(),
                forall|j: int| 0 <= j < c ==> #[trigger] views[j].shred_type == ShredType::Data,
            decreases shreds@.len() - c,
        {
            assert(views[c as int] == shreds@[c as int]@);
            c = c + 1;
        }
        if c < shreds.len() {
            proof {
                assert(views[c as int] == shreds@[c as int]@);
                lemma_coding_from_at(views, 0, c as int);
            }
            return Some(copy_bytes(&shreds[c].payload));
        }
        proof {
            lemma_coding_from_none(views, 0);
        }
        let mut sorted: Vec<&Shred> = Vec::new();
        let mut i: usize = 0;
        while i < shreds.len()
            invariant
                views == shred_views(shreds@),
                i <= shreds@.len(),
                sorted@.map_values(|x: &Shred| x@) == index_sort(data_shreds(views.take(i as int))),
            decreases shreds@.len() - i,
        {
            let sh = &shreds[i];
            proof {
                assert(views.take(i + 1).drop_last() =~= views.take(i as int));
                assert(views.take(i + 1).last() == sh@);
            }
            let ghost prev_data = data_shreds(views.take(i as int));
            proof {
                if sh.shred_type == ShredType::Data {
                    assert(data_shreds(views.take(i + 1)) == prev_data.push(sh@));
                    assert(prev_data.push(sh@).drop_last() =~= prev_data);
                    assert(prev_data.push(sh@).last() == sh@);
                } else {
                    assert(data_shreds(views.take(i + 1)) == prev_data);
                }
            }
            if sh.shred_type == ShredType::Data {
                let ghost before = sorted@.map_values(|x: &Shred| x@);
                let mut pos: usize = 0;
                while pos < sorted.len() && sorted[pos].index <= sh.index
                    invariant
                        pos <= sorted@.len(),
                        before == sorted@.map_values(|x: &Shred| x@),
                        first_above(before, sh.index, 0) == first_above(before, sh.index, pos as int),
                    decreases sorted@.len() - pos,
                {
                    pos = pos + 1;
                }
                proof {
                    if pos < sorted@.len() {
                        assert(before[pos as int] == sorted@[pos as int]@);
                    }
                    assert(first_above(before, sh.index, pos as int) == pos);
                }
                sorted.insert(pos, sh);
                assert(sorted@.map_values(|x: &Shred| x@) =~= before.insert(pos as int, sh@));
            }
            i = i + 1;
        }
        assert(views.take(i as int) =~= views);
        if sorted.len() < k {
            return None;
        }
        let mut result: Vec<u8> = Vec::new();
        let mut j: usize = 0;
        let ghost ds = sorted@.map_values(|x: &Shred| x@);
        while j < sorted.len()
            invariant
                ds == sorted@.map_values(|x: &Shred| x@),
                j <= sorted@.len(),
                result@ == concat_payloads(ds.take(j as int)),
            decreases sorted@.len() - j,
        {
            let payload = &sorted[j].payload;
            let mut b: usize = 0;
            let ghost before = result@;
            while b < payload.len()
                invariant
                    b <= payload@.len(),
                    result@ == before + payload@.take(b as int),
                decreases payload@.len() - b,
            {
                result.push(payload[b]);
                b = b + 1;
                assert(result@ =~= before + payload@.take(b as int));
            }
            proof {
                assert(payload@.take(b as int) =~= payload@);
                assert(ds.take(j + 1).drop_last() =~= ds.take(j as int));
                assert(ds[j as int] == sorted@[j as int]@);
            }
            j = j + 1;
        }
        assert(ds.take(j as int) =~= ds);
        Some(result)
    }

    /// The configuration.
    pub fn config(&self) -> (c: &ErasureConfig)
        ensures
            *c == self.coder_config(),
    {
        &self.config
    }
}


/// The data shreds of an encoding, as built.
pub open spec fn encoded_data(data: Seq<u8>, k: nat, slot: u64) -> Seq<ShredView> {
    Seq::new(k, |i: int| made_shred(slot, i as u64, ShredType::Data, data_payload(data, k, i)))
}

/// Filtering keeps a list of data shreds whole and drops appended coding
/// shreds.
proof fn lemma_data_shreds_split(a: Seq<ShredView>, b: Seq<ShredView>)
    requires
        forall|i: int| 0 <= i < a.len() ==> #[trigger] a[i].shred_type == ShredType::Data,
        forall|i: int| 0 <= i < b.len() ==> #[trigger] b[i].shred_type == ShredType::Coding,
    ensures
        data_shreds(a + b) == a,
    decreases a.len() + b.len(),
{
    if b.len() > 0 {
        assert((a + b).drop_last() =~= a + b.drop_last());
        assert((a + b).last() == b.last());
        lemma_data_shreds_split(a, b.drop_last());
    } else if a.len() > 0 {
        assert(a + b =~= a);
        assert(a.drop_last() + Seq::<ShredView>::empty() =~= a.drop_last());
        lemma_data_shreds_split(a.drop_last(), Seq::empty());
        assert(a.drop_last().push(a.last()) =~= a);
    } else {
        assert(a + b =~= Seq::<ShredView>::empty());
    }
}

/// Shreds already in strictly increasing index order stay as they are.
proof fn lemma_index_sort_sorted(s: Seq<ShredView>)
    requires
        forall|i: int, j: int| 0 <= i < j < s.len() ==> #[trigger] s[i].index < #[trigger] s[j].index,
    ensures
        index_sort(s) == s,
    decreases s.len(),
{
    if s.len() > 0 {
        let t = s.drop_last();
        lemma_index_sort_sorted(t);
        lemma_first_above_end(t, s.last().index, 0);
        assert(t.insert(t.len() as int, s.last()) =~= s);
    }
}

proof fn lemma_first_above_end(t: Seq<ShredView>, index: u64, i: int)
    requires
        0 <= i <= t.len(),
        forall|j: int| 0 <= j < t.len() ==> #[trigger] t[j].index < index,
    ensures
        first_above(t, index, i) == t.len(),
    decreases t.len() - i,
{
    if i < t.len() {
        lemma_first_above_end(t, index, i + 1);
    }
}

/// The payloads of the first `n` data shreds of an encoding: the data up to
/// the end of shard `n`, or all of it.
proof fn lemma_concat_prefix(data: Seq<u8>, k: nat, slot: u64, n: int)
    requires
        k > 0,
        0 <= n <= k,
    ensures
        concat_payloads(encoded_data(data, k, slot).take(n)) == data.subrange(
            0,
            if n * shard_size(data.len(), k) < data.len() {
                n * shard_size(data.len(), k)
            } else {
                data.len() as int
            },
        ),
    decreases n,
{
    let s = shard_size(data.len(), k);
    let len = data.len();
    let e = encoded_data(data, k, slot);
    if n == 0 {
        assert(e.take(0) =~= Seq::<ShredView>::empty());
        assert(n * s == 0) by (nonlinear_arith)
            requires
                n == 0,
        ;
        assert(data.subrange(0, 0) =~= Seq::<u8>::empty());
        if len == 0 {
            assert(data.subrange(0, len as int) =~= Seq::<u8>::empty());
        }
    } else {
        lemma_concat_prefix(data, k, slot, n - 1);
        assert(e.take(n).drop_last() =~= e.take(n - 1));
        assert(e.take(n).last() == e[n - 1]);
        let i = n - 1;
        assert(0 <= i * s) by (nonlinear_arith)
            requires
                0 <= i,
        ;
        assert(n * s == i * s + s) by (nonlinear_arith)
            requires
                i == n - 1,
        ;
        let end = if n * s < len {
            n * s
        } else {
            len as int
        };
        assert(concat_payloads(e.take(n)) == concat_payloads(e.take(n - 1)) + e[i].payload);
        assert(e[i].payload == data_payload(data, k, i));
        if i * s < len {
            assert(data_payload(data, k, i) == data.subrange(i * s, end));
            assert(data.subrange(0, i * s) + data.subrange(i * s, end) =~= data.subrange(0, end));
        } else {
            assert(data_payload(data, k, i) =~= Seq::<u8>::empty());
            assert(end == len);
            assert(data.subrange(0, len as int) + Seq::<u8>::empty() =~= data.subrange(0, len as int));
        }
    }
}

/// `k` shards of the shard size cover the data.
proof fn lemma_shards_cover(len: nat, k: nat)
    requires
        k > 0,
    ensures
        k * shard_size(len, k) >= len,
{
    let s = shard_size(len, k);
    vstd::arithmetic::div_mod::lemma_fundamental_div_mod((len + k - 1) as int, k as int);
    assert(k * s >= len) by (nonlinear_arith)
        requires
            s == (len + k - 1) / (k as int),
            (len + k - 1) == (k as int) * ((len + k - 1) / (k as int)) + (len + k - 1) % (k as int),
            (len + k - 1) % (k as int) < k,
            k > 0,
    ;
}

/// The data shreds of an encoding, in order and without coding shreds,
/// decode to the data.
proof fn lemma_data_only_decode(data: Seq<u8>, k: nat, slot: u64)
    requires
        0 < k <= u64::MAX,
    ensures
        spec_decode(encoded_data(data, k, slot), k) == Some(data),
{
    let e = encoded_data(data, k, slot);
    lemma_data_shreds_split(e, Seq::empty());
    assert(e + Seq::<ShredView>::empty() =~= e);
    assert forall|i: int, j: int| 0 <= i < j < e.len() implies #[trigger] e[i].index < #[trigger] e[j].index by {
        assert(e[i].index == i as u64 && e[j].index == j as u64);
    }
    lemma_index_sort_sorted(e);
    lemma_coding_from_none(e, 0);
    lemma_concat_prefix(data, k, slot, k as int);
    lemma_shards_cover(data.len(), k);
    assert(e.take(k as int) =~= e);
    assert(data.subrange(0, data.len() as int) =~= data);
}

/// Decoding the shreds of an encoding gives back the data.
pub proof fn lemma_encode_decode(data: Seq<u8>, k: nat, m: nat, slot: u64)
    requires
        0 < k <= u64::MAX,
    ensures
        spec_decode(spec_encode(data, k, m, slot), k) == Some(data),
{
    let full = spec_encode(data, k, m, slot);
    if m == 0 {
        assert(full =~= encoded_data(data, k, slot));
        lemma_data_only_decode(data, k, slot);
    } else {
        assert(full[k as int].shred_type == ShredType::Coding);
        assert forall|j: int| 0 <= j < k implies #[trigger] full[j].shred_type == ShredType::Data by {}
        lemma_coding_from_at(full, 0, k as int);
    }
}

/// Positions that strictly increase from 0 are at least their rank.
proof fn lemma_rising_lower(idx: Seq<int>, j: int)
    requires
        0 <= j < idx.len(),
        forall|a: int| 0 <= a < idx.len() ==> 0 <= #[trigger] idx[a],
        forall|a: int, b: int| 0 <= a < b < idx.len() ==> #[trigger] idx[a] < #[trigger] idx[b],
    ensures
        idx[j] >= j,
    decreases j,
{
    if j > 0 {
        lemma_rising_lower(idx, j - 1);
        assert(idx[j - 1] < idx[j]);
    }
}

/// Positions that strictly increase stay below the last one by their
/// distance from it.
proof fn lemma_rising_upper(idx: Seq<int>, j: int)
    requires
        0 <= j < idx.len(),
        forall|a: int, b: int| 0 <= a < b < idx.len() ==> #[trigger] idx[a] < #[trigger] idx[b],
    ensures
        idx[j] + (idx.len() - 1 - j) <= idx[idx.len() - 1],
    decreases idx.len() - j,
{
    if j < idx.len() - 1 {
        lemma_rising_upper(idx, j + 1);
        assert(idx[j] < idx[j + 1]);
    }
}

/// Any `k` or more of the shreds of an encoding, taken in their order,
/// decode to the data: `idx` lists the positions taken, strictly
/// increasing.
pub proof fn lemma_any_k_decode(data: Seq<u8>, k: nat, m: nat, slot: u64, idx: Seq<int>)
    requires
        0 < k <= u64::MAX,
        idx.len() >= k,
        forall|a: int| 0 <= a < idx.len() ==> 0 <= #[trigger] idx[a] < k + m,
        forall|a: int, b: int| 0 <= a < b < idx.len() ==> #[trigger] idx[a] < #[trigger] idx[b],
    ensures
        spec_decode(
            Seq::new(idx.len(), |j: int| spec_encode(data, k, m, slot)[idx[j]]),
            k,
        ) == Some(data),
{
    let full = spec_encode(data, k, m, slot);
    let sel = Seq::new(idx.len(), |j: int| full[idx[j]]);
    if exists|j: int| 0 <= j < idx.len() && #[trigger] idx[j] >= k {
        let w = choose|j: int| 0 <= j < idx.len() && #[trigger] idx[j] >= k;
        assert(sel[w].shred_type == ShredType::Coding);
        lemma_first_coding(sel, 0, w);
        lemma_coding_from_kind(sel, 0);
        let c = coding_from(sel, 0);
        assert(0 <= c <= w);
        assert(sel[c].shred_type == ShredType::Coding);
        assert(sel[c] == full[idx[c]]);
        if idx[c] < k {
            assert(full[idx[c]].shred_type == ShredType::Data);
        }
        assert(idx[c] >= k);
        assert(sel[c].payload == data);
    } else {
        let n = idx.len() as int;
        assert forall|a: int| 0 <= a < n implies 0 <= #[trigger] idx[a] by {}
        lemma_rising_lower(idx, n - 1);
        assert(n == k);
        assert forall|j: int| 0 <= j < n implies #[trigger] idx[j] == j by {
            lemma_rising_lower(idx, j);
            lemma_rising_upper(idx, j);
        }
        assert(sel =~= encoded_data(data, k, slot));
        lemma_data_only_decode(data, k, slot);
    }
}

/// The search finds a coding shred at or before any that stands at or
/// after `i`.
proof fn lemma_first_coding(shreds: Seq<ShredView>, i: int, j: int)
    requires
        0 <= i <= j < shreds.len(),
        shreds[j].shred_type == ShredType::Coding,
    ensures
        coding_from(shreds, i) <= j,
    decreases j - i,
{
    if i < j && shreds[i].shred_type != ShredType::Coding {
        lemma_first_coding(shreds, i + 1, j);
    }
}

/// Where the search finds a position, a coding shred stands there.
proof fn lemma_coding_from_kind(shreds: Seq<ShredView>, i: int)
    requires
        0 <= i,
    ensures
        i <= shreds.len() ==> coding_from(shreds, i) >= i,
        coding_from(shreds, i) < shreds.len() ==> shreds[coding_from(shreds, i)].shred_type == ShredType::Coding,
    decreases shreds.len() - i,
{
    if i < shreds.len() && shreds[i].shred_type != ShredType::Coding {
        lemma_coding_from_kind(shreds, i + 1);
    }
}

} // verus!
