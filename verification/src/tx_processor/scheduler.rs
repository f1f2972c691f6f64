//! The scheduler: packs pending transactions, in order, into batches whose
//! transactions do not conflict and can run in parallel.

use crate::tx_processor::transaction::{any_shared, reads_of, shares, tx_conflict, writes_of, Transaction};
use std::collections::VecDeque;
use vstd::multiset::Multiset;
use vstd::prelude::*;

verus! {

/// A batch as values.
pub struct BatchView {
    pub index: u64,
    pub transactions: Seq<Transaction>,
    pub total_compute: u64,
}

/// A batch of transactions that can execute in parallel.
#[derive(Debug, Clone)]
pub struct ExecutionBatch {
    /// Position of the batch in the schedule.
    pub index: u64,
    /// Transactions of the batch; no two conflict.
    pub transactions: Vec<Transaction>,
    /// Sum of their compute budgets.
    pub total_compute: u64,
}

impl View for ExecutionBatch {
    type V = BatchView;

    open spec fn view(&self) -> BatchView {
        BatchView { index: self.index, transactions: self.transactions@, total_compute: self.total_compute }
    }
}

/// The state of one greedy pass over the queue.
pub struct PassState {
    /// Transactions taken into the batch, in queue order.
    pub chosen: Seq<Transaction>,
    /// Sum of their compute budgets.
    pub total: int,
    /// Accounts they write, in order.
    pub writes: Seq<u8>,
    /// Accounts they read, in order.
    pub reads: Seq<u8>,
    /// Transactions left for later batches, in queue order.
    pub rest: Seq<Transaction>,
}

/// A transaction clashes with a batch that writes `writes` and reads
/// `reads` when it writes an account the batch touches or reads an account
/// the batch writes.
pub open spec fn batch_conflict(tx: Transaction, writes: Seq<u8>, reads: Seq<u8>) -> bool {
    ||| shares(writes_of(tx), writes)
    ||| shares(writes_of(tx), reads)
    ||| shares(reads_of(tx), writes)
}

/// Whether the batch built so far takes `tx`: it is not full, the compute
/// stays within the limit, and there is no clash.
pub open spec fn admits(s: PassState, tx: Transaction, max_size: usize, max_compute: u64) -> bool {
    &&& s.chosen.len() < max_size
    &&& s.total + tx.compute_budget <= max_compute
    &&& !batch_conflict(tx, s.writes, s.reads)
}

/// One greedy pass: each transaction in turn joins the batch if the batch
/// admits it, and otherwise waits for a later batch.
pub open spec fn greedy_pass(txs: Seq<Transaction>, max_size: usize, max_compute: u64) -> PassState
    decreases txs.len(),
{
    if txs.len() == 0 {
        PassState { chosen: Seq::empty(), total: 0, writes: Seq::empty(), reads: Seq::empty(), rest: Seq::empty() }
    } else {
        let s = greedy_pass(txs.drop_last(), max_size, max_compute);
        let tx = txs.last();
        if admits(s, tx, max_size, max_compute) {
            PassState {
                chosen: s.chosen.push(tx),
                total: s.total + tx.compute_budget,
                writes: s.writes + writes_of(tx),
                reads: s.reads + reads_of(tx),
                rest: s.rest,
            }
        } else {
            PassState { rest: s.rest.push(tx), ..s }
        }
    }
}

/// The batches that scheduling `txs` appends, numbered from `index`: greedy
/// passes until the queue is empty.
pub open spec fn spec_schedule(txs: Seq<Transaction>, max_size: usize, max_compute: u64, index: int) -> Seq<
    BatchView,
>
    decreases txs.len(),
{
    if txs.len() == 0 {
        Seq::empty()
    } else {
        let p = greedy_pass(txs, max_size, max_compute);
        if p.chosen.len() == 0 {
            Seq::empty()
        } else {
            proof {
                lemma_pass_partition(txs, max_size, max_compute);
            }
            seq![BatchView { index: index as u64, transactions: p.chosen, total_compute: p.total as u64 }]
                + spec_schedule(p.rest, max_size, max_compute, index + 1)
        }
    }
}

/// The sum of the compute budgets of `txs`.
pub open spec fn compute_sum(txs: Seq<Transaction>) -> int
    decreases txs.len(),
{
    if txs.len() == 0 {
        0
    } else {
        compute_sum(txs.drop_last()) + txs.last().compute_budget
    }
}

/// No two transactions of `txs` conflict.
pub open spec fn conflict_free(txs: Seq<Transaction>) -> bool {
    forall|i: int, j: int| 0 <= i < j < txs.len() ==> !tx_conflict(#[trigger] txs[i], #[trigger] txs[j])
}

/// Every transaction fits in a batch on its own.
pub open spec fn all_fit(txs: Seq<Transaction>, max_compute: u64) -> bool {
    forall|i: int| 0 <= i < txs.len() ==> (#[trigger] txs[i]).compute_budget <= max_compute
}

/// The transactions of the batches, batch after batch.
pub open spec fn scheduled_txs(batches: Seq<BatchView>) -> Seq<Transaction>
    decreases batches.len(),
{
    if batches.len() == 0 {
        Seq::empty()
    } else {
        batches[0].transactions + scheduled_txs(batches.drop_first())
    }
}

proof fn lemma_contains_concat(a: Seq<u8>, b: Seq<u8>, x: u8)
    ensures
        (a + b).contains(x) <==> (a.contains(x) || b.contains(x)),
{
    if a.contains(x) {
        let i = choose|i: int| 0 <= i < a.len() && a[i] == x;
        assert((a + b)[i] == x);
    }
    if b.contains(x) {
        let i = choose|i: int| 0 <= i < b.len() && b[i] == x;
        assert((a + b)[a.len() + i] == x);
    }
    if (a + b).contains(x) {
        let i = choose|i: int| 0 <= i < (a + b).len() && (a + b)[i] == x;
        if i < a.len() {
            assert(a[i] == x);
        } else {
            assert(b[i - a.len()] == x);
        }
    }
}

/// A pass splits the queue: the batch and the rest together hold exactly the
/// queued transactions; the batch respects both limits, adds up its compute,
/// and holds the accounts of its members.
pub proof fn lemma_pass_partition(txs: Seq<Transaction>, max_size: usize, max_compute: u64)
    ensures
        ({
            let p = greedy_pass(txs, max_size, max_compute);
            &&& p.chosen.len() + p.rest.len() == txs.len()
            &&& p.chosen.to_multiset().add(p.rest.to_multiset()) =~= txs.to_multiset()
            &&& p.chosen.len() <= max_size
            &&& 0 <= p.total <= max_compute
            &&& p.total == compute_sum(p.chosen)
            &&& forall|i: int, x: u8|
                0 <= i < p.chosen.len() && #[trigger] writes_of(p.chosen[i]).contains(x) ==> p.writes.contains(x)
            &&& forall|i: int, x: u8|
                0 <= i < p.chosen.len() && #[trigger] reads_of(p.chosen[i]).contains(x) ==> p.reads.contains(x)
        }),
    decreases txs.len(),
{
    broadcast use vstd::seq_lib::group_to_multiset_ensures;
    broadcast use vstd::multiset::group_multiset_axioms;

    if txs.len() > 0 {
        lemma_pass_partition(txs.drop_last(), max_size, max_compute);
        let s = greedy_pass(txs.drop_last(), max_size, max_compute);
        let p = greedy_pass(txs, max_size, max_compute);
        let tx = txs.last();
        assert(txs =~= txs.drop_last().push(tx));
        if admits(s, tx, max_size, max_compute) {
            assert(p.chosen.drop_last() =~= s.chosen);
            assert forall|i: int, x: u8|
                0 <= i < p.chosen.len() && #[trigger] writes_of(p.chosen[i]).contains(x) implies p.writes.contains(
                x,
            ) by {
                lemma_contains_concat(s.writes, writes_of(tx), x);
                if i < s.chosen.len() {
                    assert(p.chosen[i] == s.chosen[i]);
                }
            }
            assert forall|i: int, x: u8|
                0 <= i < p.chosen.len() && #[trigger] reads_of(p.chosen[i]).contains(x) implies p.reads.contains(
                x,
            ) by {
                lemma_contains_concat(s.reads, reads_of(tx), x);
                if i < s.chosen.len() {
                    assert(p.chosen[i] == s.chosen[i]);
                }
            }
        }
    } else {
        assert(txs.to_multiset() =~= Multiset::empty());
    }
}

/// Every batch a pass builds is conflict-free.
pub proof fn lemma_pass_conflict_free(txs: Seq<Transaction>, max_size: usize, max_compute: u64)
    ensures
        conflict_free(greedy_pass(txs, max_size, max_compute).chosen),
    decreases txs.len(),
{
    if txs.len() > 0 {
        lemma_pass_conflict_free(txs.drop_last(), max_size, max_compute);
        lemma_pass_partition(txs.drop_last(), max_size, max_compute);
        let s = greedy_pass(txs.drop_last(), max_size, max_compute);
        let p = greedy_pass(txs, max_size, max_compute);
        let t = txs.last();
        if admits(s, t, max_size, max_compute) {
            assert forall|i: int, j: int| 0 <= i < j < p.chosen.len() implies !tx_conflict(
                #[trigger] p.chosen[i],
                #[trigger] p.chosen[j],
            ) by {
                if j < s.chosen.len() {
                    assert(p.chosen[i] == s.chosen[i] && p.chosen[j] == s.chosen[j]);
                } else {
                    let c = s.chosen[i];
                    assert(p.chosen[i] == c && p.chosen[j] == t);
                    if shares(writes_of(c), writes_of(t)) {
                        let x = choose|x: u8| writes_of(c).contains(x) && writes_of(t).contains(x);
                        assert(s.writes.contains(x));
                        assert(shares(writes_of(t), s.writes));
                    }
                    if shares(writes_of(c), reads_of(t)) {
                        let x = choose|x: u8| writes_of(c).contains(x) && reads_of(t).contains(x);
                        assert(s.writes.contains(x));
                        assert(shares(reads_of(t), s.writes));
                    }
                    if shares(writes_of(t), writes_of(c)) {
                        let x = choose|x: u8| writes_of(t).contains(x) && writes_of(c).contains(x);
                        assert(s.writes.contains(x));
                        assert(shares(writes_of(t), s.writes));
                    }
                    if shares(writes_of(t), reads_of(c)) {
                        let x = choose|x: u8| writes_of(t).contains(x) && reads_of(c).contains(x);
                        assert(s.reads.contains(x));
                        assert(shares(writes_of(t), s.reads));
                    }
                }
            }
        }
    }
}

/// When the first queued transaction fits on its own, a pass takes it.
proof fn lemma_pass_progress(txs: Seq<Transaction>, max_size: usize, max_compute: u64)
    requires
        txs.len() > 0,
        max_size > 0,
        txs[0].compute_budget <= max_compute,
    ensures
        greedy_pass(txs, max_size, max_compute).chosen.len() > 0,
    decreases txs.len(),
{
    if txs.len() == 1 {
        let e = greedy_pass(txs.drop_last(), max_size, max_compute);
        assert(e.chosen.len() == 0 && e.total == 0);
        assert(e.writes.len() == 0 && e.reads.len() == 0);
        assert(!batch_conflict(txs.last(), e.writes, e.reads));
    } else {
        assert(txs.drop_last()[0] == txs[0]);
        lemma_pass_progress(txs.drop_last(), max_size, max_compute);
    }
}

/// The rest of a pass holds only queued transactions.
proof fn lemma_rest_all_fit(txs: Seq<Transaction>, max_size: usize, max_compute: u64)
    requires
        all_fit(txs, max_compute),
    ensures
        all_fit(greedy_pass(txs, max_size, max_compute).rest, max_compute),
{
    broadcast use vstd::seq_lib::group_to_multiset_ensures;
    broadcast use vstd::multiset::group_multiset_axioms;

    lemma_pass_partition(txs, max_size, max_compute);
    let p = greedy_pass(txs, max_size, max_compute);
    assert forall|i: int| 0 <= i < p.rest.len() implies (#[trigger] p.rest[i]).compute_budget <= max_compute by {
        let t = p.rest[i];
        assert(p.rest.contains(t));
        assert(p.rest.to_multiset().count(t) > 0);
        assert(txs.to_multiset().count(t) > 0);
        assert(txs.contains(t));
    }
}

/// Scheduling loses and invents no transaction: the batches together hold
/// exactly the queued transactions, each batch is conflict-free, within the
/// size and compute limits, and the batches are numbered consecutively.
pub proof fn lemma_schedule_sound(txs: Seq<Transaction>, max_size: usize, max_compute: u64, index: int)
    requires
        all_fit(txs, max_compute),
        txs.len() > 0 ==> max_size > 0,
    ensures
        scheduled_txs(spec_schedule(txs, max_size, max_compute, index)).to_multiset() =~= txs.to_multiset(),
        forall|k: int|
            0 <= k < spec_schedule(txs, max_size, max_compute, index).len() ==> {
                let b = #[trigger] spec_schedule(txs, max_size, max_compute, index)[k];
                &&& conflict_free(b.transactions)
                &&& 0 < b.transactions.len() <= max_size
                &&& b.total_compute <= max_compute
                &&& b.total_compute == compute_sum(b.transactions)
                &&& b.index == (index + k) as u64
            },
    decreases txs.len(),
{
    broadcast use vstd::seq_lib::group_to_multiset_ensures;
    broadcast use vstd::multiset::group_multiset_axioms;

    if txs.len() == 0 {
        assert(txs.to_multiset() =~= Multiset::empty());
        assert(scheduled_txs(Seq::<BatchView>::empty()).to_multiset() =~= Multiset::empty());
    } else {
        lemma_pass_progress(txs, max_size, max_compute);
        lemma_pass_partition(txs, max_size, max_compute);
        lemma_pass_conflict_free(txs, max_size, max_compute);
        lemma_rest_all_fit(txs, max_size, max_compute);
        let p = greedy_pass(txs, max_size, max_compute);
        let later = spec_schedule(p.rest, max_size, max_compute, index + 1);
        lemma_schedule_sound(p.rest, max_size, max_compute, index + 1);
        let all = spec_schedule(txs, max_size, max_compute, index);
        let b = BatchView { index: index as u64, transactions: p.chosen, total_compute: p.total as u64 };
        assert(all == seq![b] + later);
        assert(all.drop_first() =~= later);
        assert(scheduled_txs(all) == p.chosen + scheduled_txs(later));
        vstd::seq_lib::lemma_multiset_commutative(p.chosen, scheduled_txs(later));
        assert forall|k: int| 0 <= k < all.len() implies {
            let bk = #[trigger] all[k];
            &&& conflict_free(bk.transactions)
            &&& 0 < bk.transactions.len() <= max_size
            &&& bk.total_compute <= max_compute
            &&& bk.total_compute == compute_sum(bk.transactions)
            &&& bk.index == (index + k) as u64
        } by {
            if k > 0 {
                assert(all[k] == later[k - 1]);
            }
        }
    }
}

/// The scheduler's state as values.
pub struct SchedulerView {
    pub pending: Seq<Transaction>,
    pub batches: Seq<BatchView>,
    pub total_scheduled: u64,
    pub max_batch_size: usize,
    pub max_batch_compute: u64,
}

/// Queues transactions and packs them into batches.
#[derive(Debug)]
pub struct Scheduler {
    pending: VecDeque<Transaction>,
    batches: Vec<ExecutionBatch>,
    total_scheduled: u64,
    max_batch_size: usize,
    max_batch_compute: u64,
}

/// Scheduler counters.
#[derive(Debug, Clone)]
pub struct SchedulerStats {
    pub pending: usize,
    pub batches: usize,
    pub total_scheduled: u64,
}

/// The views of a list of batches.
pub open spec fn batch_views(batches: Seq<ExecutionBatch>) -> Seq<BatchView> {
    batches.map_values(|b: ExecutionBatch| b@)
}

impl View for Scheduler {
    type V = SchedulerView;

    closed spec fn view(&self) -> SchedulerView {
        SchedulerView {
            pending: self.pending@,
            batches: batch_views(self.batches@),
            total_scheduled: self.total_scheduled,
            max_batch_size: self.max_batch_size,
            max_batch_compute: self.max_batch_compute,
        }
    }
}

impl Scheduler {
    /// An empty scheduler with the given limits.
    pub fn new(max_batch_size: usize, max_batch_compute: u64) -> (s: Self)
        ensures
            s@.pending.len() == 0,
            s@.batches.len() == 0,
            s@.total_scheduled == 0,
            s@.max_batch_size == max_batch_size,
            s@.max_batch_compute == max_batch_compute,
    {
        let s = Scheduler {
            pending: VecDeque::new(),
            batches: Vec::new(),
            total_scheduled: 0,
            max_batch_size,
            max_batch_compute,
        };
        assert(s@.batches =~= Seq::<BatchView>::empty());
        s
    }

    /// A scheduler with 128 transactions and 128 default budgets per batch.
    pub fn default_solana() -> (s: Self)
        ensures
            s@.pending.len() == 0,
            s@.batches.len() == 0,
            s@.total_scheduled == 0,
            s@.max_batch_size == 128,
            s@.max_batch_compute == 200_000 * 128,
    {
        Self::new(128, 200_000 * 128)
    }

    /// Queues a transaction.
    pub fn enqueue(&mut self, tx: Transaction)
        ensures
            final(self)@ == (SchedulerView { pending: old(self)@.pending.push(tx), ..old(self)@ }),
    {
        self.pending.push_back(tx);
    }

    /// Queues transactions in order.
    pub fn enqueue_batch(&mut self, txs: Vec<Transaction>)
        ensures
            final(self)@ == (SchedulerView { pending: old(self)@.pending + txs@, ..old(self)@ }),
    {
        let mut txs = txs;
        let _len = txs.len();
        let ghost all = txs@;
        let ghost start = self@;
        let mut i: usize = 0;
        while txs.len() > 0
            invariant
                i + txs@.len() == all.len(),
                all.len() <= usize::MAX,
                txs@ == all.subrange(i as int, all.len() as int),
                self@ == (SchedulerView { pending: start.pending + all.take(i as int), ..start }),
            decreases txs@.len(),
        {
            let tx = txs.remove(0);
            proof {
                assert(tx == all[i as int]);
                assert(all.take(i + 1) =~= all.take(i as int).push(tx));
                assert(txs@ =~= all.subrange(i + 1, all.len() as int));
            }
            self.pending.push_back(tx);
            i = i + 1;
        }
        assert(all.take(i as int) =~= all);
    }

    /// Packs every pending transaction into batches appended to the
    /// schedule: repeated greedy passes over the queue, each taking, in
    /// order, the transactions that fit the batch's size and compute limits
    /// and do not clash with it.
    pub fn schedule(&mut self)
        requires
            all_fit(old(self)@.pending, old(self)@.max_batch_compute),
            old(self)@.pending.len() > 0 ==> old(self)@.max_batch_size > 0,
            old(self)@.total_scheduled + old(self)@.pending.len() <= u64::MAX,
            old(self)@.batches.len() + old(self)@.pending.len() <= u64::MAX,
        ensures
            final(self)@.pending.len() == 0,
            final(self)@.batches == old(self)@.batches + spec_schedule(
                old(self)@.pending,
                old(self)@.max_batch_size,
                old(self)@.max_batch_compute,
                old(self)@.batches.len() as int,
            ),
            final(self)@.total_scheduled == old(self)@.total_scheduled + old(self)@.pending.len(),
            final(self)@.max_batch_size == old(self)@.max_batch_size,
            final(self)@.max_batch_compute == old(self)@.max_batch_compute,
    {
        let mut remaining: VecDeque<Transaction> = VecDeque::new();
        std::mem::swap(&mut remaining, &mut self.pending);
        let max_size = self.max_batch_size;
        let max_compute = self.max_batch_compute;
        let mut batch_index: u64 = self.batches.len() as u64;
        let ghost orig = remaining@;
        let ghost target = batch_views(self.batches@) + spec_schedule(orig, max_size, max_compute, batch_index as int);
        let ghost total0 = self.total_scheduled;
        while remaining.len() > 0
            invariant
                self.pending@.len() == 0,
                self.max_batch_size == max_size,
                self.max_batch_compute == max_compute,
                all_fit(remaining@, max_compute),
                remaining@.len() > 0 ==> max_size > 0,
                batch_index == self.batches@.len(),
                self.total_scheduled + remaining@.len() == total0 + orig.len(),
                total0 + orig.len() <= u64::MAX,
                self.batches@.len() + remaining@.len() <= u64::MAX,
                batch_views(self.batches@) + spec_schedule(remaining@, max_size, max_compute, batch_index as int)
                    == target,
            decreases remaining@.len(),
        {
            let ghost rem = remaining@;
            let mut chosen: Vec<Transaction> = Vec::new();
            let mut total: u64 = 0;
            let mut batch_writes: Vec<u8> = Vec::new();
            let mut batch_reads: Vec<u8> = Vec::new();
            let mut still_remaining: VecDeque<Transaction> = VecDeque::new();
            let ghost mut k: int = 0;
            while remaining.len() > 0
                invariant
                    0 <= k <= rem.len(),
                    remaining@ == rem.subrange(k, rem.len() as int),
                    greedy_pass(rem.take(k), max_size, max_compute) == (PassState {
                        chosen: chosen@,
                        total: total as int,
                        writes: batch_writes@,
                        reads: batch_reads@,
                        rest: still_remaining@,
                    }),
                    0 <= total <= max_compute,
                decreases remaining@.len(),
            {
                if let Some(tx) = remaining.pop_front() {
                    proof {
                        lemma_pass_partition(rem.take(k), max_size, max_compute);
                        assert(tx == rem[k]);
                        assert(rem.take(k + 1).drop_last() =~= rem.take(k));
                        assert(rem.take(k + 1).last() == tx);
                        assert(remaining@ =~= rem.subrange(k + 1, rem.len() as int));
                    }
                    let tx_compute = tx.compute_budget;
                    let fits = chosen.len() < max_size && tx_compute <= max_compute - total;
                    if fits {
                        let tx_writes = tx.write_accounts();
                        let tx_reads = tx.read_accounts();
                        let clash = any_shared(&tx_writes, &batch_writes) || any_shared(&tx_writes, &batch_reads)
                            || any_shared(&tx_reads, &batch_writes);
                        if !clash {
                            let mut w = tx_writes;
                            let mut r = tx_reads;
                            batch_writes.append(&mut w);
                            batch_reads.append(&mut r);
                            total = total + tx_compute;
                            chosen.push(tx);
                        } else {
                            still_remaining.push_back(tx);
                        }
                    } else {
                        still_remaining.push_back(tx);
                    }
                    proof {
                        k = k + 1;
                    }
                }
            }
            proof {
                assert(rem.take(k) =~= rem);
                lemma_pass_partition(rem, max_size, max_compute);
                lemma_pass_progress(rem, max_size, max_compute);
                lemma_rest_all_fit(rem, max_size, max_compute);
            }
            remaining = still_remaining;
            if chosen.len() > 0 {
                let n = chosen.len() as u64;
                self.total_scheduled = self.total_scheduled + n;
                let batch = ExecutionBatch { index: batch_index, transactions: chosen, total_compute: total };
                let ghost bv = batch@;
                let ghost old_views = batch_views(self.batches@);
                self.batches.push(batch);
                proof {
                    assert(batch_views(self.batches@) =~= old_views.push(bv));
                    let later = spec_schedule(remaining@, max_size, max_compute, batch_index + 1);
                    assert(spec_schedule(rem, max_size, max_compute, batch_index as int) == seq![bv] + later);
                    assert(old_views.push(bv) + later =~= old_views + (seq![bv] + later));
                }
                batch_index = batch_index + 1;
            }
        }
        assert(spec_schedule(remaining@, max_size, max_compute, batch_index as int) =~= Seq::<BatchView>::empty());
        assert(batch_views(self.batches@) =~= target);
    }

    /// Takes the first scheduled batch, if any.
    pub fn next_batch(&mut self) -> (b: Option<ExecutionBatch>)
        ensures
            old(self)@.batches.len() == 0 ==> b is None && final(self)@ == old(self)@,
            old(self)@.batches.len() > 0 ==> (b matches Some(x) && x@ == old(self)@.batches[0]),
            old(self)@.batches.len() > 0 ==> final(self)@ == (SchedulerView {
                batches: old(self)@.batches.drop_first(),
                ..old(self)@
            }),
    {
        if self.batches.len() == 0 {
            None
        } else {
            let ghost before = self.batches@;
            let b = self.batches.remove(0);
            proof {
                assert(batch_views(self.batches@) =~= batch_views(before).drop_first());
            }
            Some(b)
        }
    }

    /// The first scheduled batch, if any, left in place.
    pub fn peek_batch(&self) -> (b: Option<&ExecutionBatch>)
        ensures
            self@.batches.len() == 0 ==> b is None,
            self@.batches.len() > 0 ==> (b matches Some(x) && x@ == self@.batches[0]),
    {
        if self.batches.len() == 0 {
            None
        } else {
            Some(&self.batches[0])
        }
    }

    /// The number of queued transactions.
    pub fn pending_count(&self) -> (n: usize)
        ensures
            n == self@.pending.len(),
    {
        self.pending.len()
    }

    /// The number of scheduled batches.
    pub fn batch_count(&self) -> (n: usize)
        ensures
            n == self@.batches.len(),
    {
        self.batches.len()
    }

    /// The number of transactions scheduled so far.
    pub fn total_scheduled(&self) -> (n: u64)
        ensures
            n == self@.total_scheduled,
    {
        self.total_scheduled
    }

    /// Nothing queued and nothing scheduled.
    pub fn is_idle(&self) -> (b: bool)
        ensures
            b == (self@.pending.len() == 0 && self@.batches.len() == 0),
    {
        self.pending.len() == 0 && self.batches.len() == 0
    }

    /// Takes every queued transaction, in order, out of the queue.
    pub fn drain_remaining(&mut self) -> (txs: Vec<Transaction>)
        ensures
            txs@ == old(self)@.pending,
            final(self)@ == (SchedulerView { pending: Seq::empty(), ..old(self)@ }),
    {
        let mut out: Vec<Transaction> = Vec::new();
        let ghost all = self.pending@;
        let ghost start = self@;
        while self.pending.len() > 0
            invariant
                out@ + self.pending@ == all,
                self@ == (SchedulerView { pending: self.pending@, ..start }),
            decreases self.pending@.len(),
        {
            let ghost before = self.pending@;
            if let Some(tx) = self.pending.pop_front() {
                proof {
                    assert(out@.push(tx) + self.pending@ =~= out@ + before);
                }
                out.push(tx);
            }
        }
        assert(out@ =~= all);
        proof {
            assert(self.pending@ =~= Seq::<Transaction>::empty());
        }
        out
    }

    /// Queue length, batch count and scheduled total.
    pub fn stats(&self) -> (s: SchedulerStats)
        ensures
            s.pending == self@.pending.len(),
            s.batches == self@.batches.len(),
            s.total_scheduled == self@.total_scheduled,
    {
        SchedulerStats {
            pending: self.pending.len(),
            batches: self.batches.len(),
            total_scheduled: self.total_scheduled,
        }
    }
}

} // verus!
