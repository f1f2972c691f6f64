//! The leader schedule: validators ordered by stake, each given its number
//! of slots in turn, the rest of the epoch filled round-robin.

use crate::consensus::vote::ValidatorId;
use crate::crypto::keys_eq;
use std::collections::HashMap;
use vstd::prelude::*;

verus! {

/// A validator's stake.
#[derive(Debug, Clone)]
pub struct ValidatorStake {
    pub validator: ValidatorId,
    pub lamports: u64,
    pub name: String,
}

/// A validator with the number of slots its stake earns.
pub type StakeSlots = (ValidatorStake, u64);

/// The first position at or after `i` whose stake is below `lamports`.
pub open spec fn first_below(s: Seq<StakeSlots>, lamports: u64, i: int) -> int
    decreases s.len() - i,
{
    if i < 0 || i >= s.len() || s[i].0.lamports < lamports {
        i
    } else {
        first_below(s, lamports, i + 1)
    }
}

/// `x` inserted into a list ordered by stake, after every entry with at
/// least its stake.
pub open spec fn stake_insert(s: Seq<StakeSlots>, x: StakeSlots) -> Seq<StakeSlots> {
    s.insert(first_below(s, x.0.lamports, 0), x)
}

/// The entries ordered by stake, largest first; entries with equal stake
/// keep their order.
pub open spec fn stake_sort(s: Seq<StakeSlots>) -> Seq<StakeSlots>
    decreases s.len(),
{
    if s.len() == 0 {
        Seq::empty()
    } else {
        stake_insert(stake_sort(s.drop_last()), s.last())
    }
}

/// Ordered by stake, largest first.
pub open spec fn stake_descending(s: Seq<StakeSlots>) -> bool {
    forall|i: int, j: int| 0 <= i < j < s.len() ==> #[trigger] s[i].0.lamports >= #[trigger] s[j].0.lamports
}

/// Validator `idx` repeated `count` times.
pub open spec fn repeat_index(idx: usize, count: u64) -> Seq<usize> {
    Seq::new(count as nat, |j: int| idx)
}

/// Each validator's index, repeated as many times as its slot count, in
/// order.
pub open spec fn expand_counts(counts: Seq<u64>) -> Seq<usize>
    decreases counts.len(),
{
    if counts.len() == 0 {
        Seq::empty()
    } else {
        expand_counts(counts.drop_last()) + repeat_index((counts.len() - 1) as usize, counts.last())
    }
}

/// The sum of the slot counts.
pub open spec fn count_sum(counts: Seq<u64>) -> nat
    decreases counts.len(),
{
    if counts.len() == 0 {
        0
    } else {
        count_sum(counts.drop_last()) + counts.last() as nat
    }
}

/// The expanded counts are as long as the counts' sum.
proof fn lemma_expand_len(counts: Seq<u64>)
    ensures
        expand_counts(counts).len() == count_sum(counts),
    decreases counts.len(),
{
    if counts.len() > 0 {
        lemma_expand_len(counts.drop_last());
    }
}

/// The schedule: the expanded slot counts, then round-robin over the `n`
/// validators until the epoch's slots are filled.
pub open spec fn spec_schedule(counts: Seq<u64>, n: int, epoch_length: u64) -> Seq<usize> {
    let base = expand_counts(counts);
    let fill = if base.len() < epoch_length {
        epoch_length - base.len()
    } else {
        0
    };
    base + Seq::new(fill as nat, |j: int| (j % n) as usize)
}

proof fn lemma_first_below(s: Seq<StakeSlots>, lamports: u64, i: int)
    requires
        0 <= i <= s.len(),
    ensures
        i <= first_below(s, lamports, i) <= s.len(),
        forall|k: int| i <= k < first_below(s, lamports, i) ==> #[trigger] s[k].0.lamports >= lamports,
        first_below(s, lamports, i) < s.len() ==> s[first_below(s, lamports, i)].0.lamports < lamports,
    decreases s.len() - i,
{
    if i < s.len() && s[i].0.lamports >= lamports {
        lemma_first_below(s, lamports, i + 1);
    }
}

proof fn lemma_count_sum_append(a: Seq<u64>, b: Seq<u64>)
    ensures
        count_sum(a + b) == count_sum(a) + count_sum(b),
    decreases b.len(),
{
    if b.len() == 0 {
        assert(a + b =~= a);
    } else {
        assert((a + b).drop_last() =~= a + b.drop_last());
        lemma_count_sum_append(a, b.drop_last());
    }
}

proof fn lemma_count_sum_insert(c: Seq<u64>, i: int, x: u64)
    requires
        0 <= i <= c.len(),
    ensures
        count_sum(c.insert(i, x)) == count_sum(c) + x,
{
    let a = c.take(i);
    let b = c.skip(i);
    assert(c.insert(i, x) =~= a.push(x) + b);
    assert(c =~= a + b);
    lemma_count_sum_append(a.push(x), b);
    lemma_count_sum_append(a, b);
    assert(a.push(x).drop_last() =~= a);
}

/// Sorting by stake keeps the sum of the slot counts.
proof fn lemma_stake_sort_count_sum(s: Seq<StakeSlots>)
    ensures
        count_sum(stake_sort(s).map_values(|e: StakeSlots| e.1)) == count_sum(s.map_values(|e: StakeSlots| e.1)),
    decreases s.len(),
{
    if s.len() == 0 {
        assert(stake_sort(s).map_values(|e: StakeSlots| e.1) =~= Seq::<u64>::empty());
        assert(s.map_values(|e: StakeSlots| e.1) =~= Seq::<u64>::empty());
    } else {
        let s1 = s.drop_last();
        lemma_stake_sort_count_sum(s1);
        lemma_stake_sort_descending(s1);
        let t = stake_sort(s1);
        let q = first_below(t, s.last().0.lamports, 0);
        lemma_first_below(t, s.last().0.lamports, 0);
        assert(stake_sort(s).map_values(|e: StakeSlots| e.1) =~= t.map_values(|e: StakeSlots| e.1).insert(
            q,
            s.last().1,
        ));
        lemma_count_sum_insert(t.map_values(|e: StakeSlots| e.1), q, s.last().1);
        assert(s.map_values(|e: StakeSlots| e.1).drop_last() =~= s1.map_values(|e: StakeSlots| e.1));
    }
}

/// Sorting by stake orders the entries largest first.
pub proof fn lemma_stake_sort_descending(s: Seq<StakeSlots>)
    ensures
        stake_descending(stake_sort(s)),
        stake_sort(s).len() == s.len(),
    decreases s.len(),
{
    if s.len() > 0 {
        lemma_stake_sort_descending(s.drop_last());
        let t = stake_sort(s.drop_last());
        let x = s.last();
        lemma_first_below(t, x.0.lamports, 0);
        let p = first_below(t, x.0.lamports, 0);
        let r = t.insert(p, x);
        assert forall|i: int, j: int| 0 <= i < j < r.len() implies #[trigger] r[i].0.lamports
            >= #[trigger] r[j].0.lamports by {
            if j < p {
                assert(r[i] == t[i] && r[j] == t[j]);
            } else if j == p {
                assert(r[i] == t[i]);
            } else if i < p {
                assert(r[i] == t[i] && r[j] == t[j - 1]);
            } else if i == p {
                assert(r[j] == t[j - 1]);
                assert(t[p].0.lamports < x.0.lamports);
                if j - 1 > p {
                    assert(t[p].0.lamports >= t[j - 1].0.lamports);
                }
            } else {
                assert(r[i] == t[i - 1] && r[j] == t[j - 1]);
            }
        }
    }
}

/// Sorting by stake keeps every entry, and nothing else.
pub proof fn lemma_stake_sort_permutes(s: Seq<StakeSlots>)
    ensures
        stake_sort(s).to_multiset() == s.to_multiset(),
    decreases s.len(),
{
    broadcast use vstd::seq_lib::group_to_multiset_ensures;
    broadcast use vstd::multiset::group_multiset_axioms;

    if s.len() > 0 {
        lemma_stake_sort_permutes(s.drop_last());
        let t = stake_sort(s.drop_last());
        lemma_stake_sort_descending(s.drop_last());
        lemma_first_below(t, s.last().0.lamports, 0);
        assert(s =~= s.drop_last().push(s.last()));
    } else {
        assert(s.to_multiset() =~= vstd::multiset::Multiset::empty());
        assert(stake_sort(s).to_multiset() =~= vstd::multiset::Multiset::empty());
    }
}

/// Every slot of the epoch has a leader, and every entry names one of the
/// `n` validators.
pub proof fn lemma_schedule_covers_epoch(counts: Seq<u64>, n: int, epoch_length: u64)
    requires
        n == counts.len(),
        n > 0,
    ensures
        spec_schedule(counts, n, epoch_length).len() >= epoch_length,
        forall|i: int|
            0 <= i < spec_schedule(counts, n, epoch_length).len() ==> #[trigger] spec_schedule(
                counts,
                n,
                epoch_length,
            )[i] < n,
{
    lemma_expand_counts_range(counts);
    let base = expand_counts(counts);
    let sched = spec_schedule(counts, n, epoch_length);
    assert forall|i: int| 0 <= i < sched.len() implies #[trigger] sched[i] < n by {
        if i < base.len() {
            assert(sched[i] == base[i]);
        } else {
            assert(sched[i] == ((i - base.len()) % n) as usize);
        }
    }
}

proof fn lemma_expand_counts_range(counts: Seq<u64>)
    ensures
        forall|i: int|
            0 <= i < expand_counts(counts).len() ==> #[trigger] expand_counts(counts)[i] < counts.len(),
    decreases counts.len(),
{
    if counts.len() > 0 {
        lemma_expand_counts_range(counts.drop_last());
        let a = expand_counts(counts.drop_last());
        let b = repeat_index((counts.len() - 1) as usize, counts.last());
        assert forall|i: int| 0 <= i < expand_counts(counts).len() implies #[trigger] expand_counts(counts)[i]
            < counts.len() by {
            if i < a.len() {
                assert(expand_counts(counts)[i] == a[i]);
            } else {
                assert(expand_counts(counts)[i] == b[i - a.len()]);
            }
        }
    }
}

/// The position at which an entry with `lamports` goes into `sorted`.
fn insertion_point(sorted: &Vec<StakeSlots>, lamports: u64) -> (p: usize)
    ensures
        p == first_below(sorted@, lamports, 0),
{
    let mut j: usize = 0;
    while j < sorted.len() && sorted[j].0.lamports >= lamports
        invariant
            j <= sorted@.len(),
            first_below(sorted@, lamports, 0) == first_below(sorted@, lamports, j as int),
        decreases sorted@.len() - j,
    {
        j = j + 1;
    }
    j
}

/// Orders the entries by stake, largest first, keeping the order of equal
/// stakes.
pub fn sort_by_stake(items: Vec<StakeSlots>) -> (r: Vec<StakeSlots>)
    ensures
        r@ == stake_sort(items@),
{
    let mut items = items;
    let ghost all = items@;
    let mut sorted: Vec<StakeSlots> = Vec::new();
    let mut i: usize = 0;
    let _len = items.len();
    while items.len() > 0
        invariant
            i + items@.len() == all.len(),
            items@ == all.subrange(i as int, all.len() as int),
            sorted@ == stake_sort(all.take(i as int)),
            all.len() <= usize::MAX,
        decreases items@.len(),
    {
        let x = items.remove(0);
        proof {
            assert(x == all[i as int]);
            assert(all.take(i + 1).drop_last() =~= all.take(i as int));
            assert(all.take(i + 1).last() == x);
            assert(items@ =~= all.subrange(i + 1, all.len() as int));
            lemma_stake_sort_descending(all.take(i as int));
            lemma_first_below(sorted@, x.0.lamports, 0);
        }
        let p = insertion_point(&sorted, x.0.lamports);
        sorted.insert(p, x);
        i = i + 1;
    }
    assert(all.take(i as int) =~= all);
    sorted
}

/// The leader schedule as values.
pub struct LeaderScheduleView {
    pub validators: Seq<ValidatorStake>,
    pub slot_counts: Seq<u64>,
    pub slots_per_leader: u64,
    pub epoch_length: u64,
    pub current_epoch: u64,
    pub schedule: Seq<usize>,
}

/// Who leads which slot.
pub struct LeaderSchedule {
    validators: Vec<ValidatorStake>,
    slot_counts: Vec<u64>,
    slots_per_leader: u64,
    epoch_length: u64,
    current_epoch: u64,
    schedule: Vec<usize>,
}

impl View for LeaderSchedule {
    type V = LeaderScheduleView;

    closed spec fn view(&self) -> LeaderScheduleView {
        LeaderScheduleView {
            validators: self.validators@,
            slot_counts: self.slot_counts@,
            slots_per_leader: self.slots_per_leader,
            epoch_length: self.epoch_length,
            current_epoch: self.current_epoch,
            schedule: self.schedule@,
        }
    }
}

/// The validators and slot counts, ordered by stake.
pub open spec fn sorted_entries(validators: Seq<ValidatorStake>, slot_counts: Seq<u64>) -> Seq<StakeSlots> {
    stake_sort(Seq::new(validators.len(), |i: int| (validators[i], slot_counts[i])))
}

/// The leader of `slot`.
pub open spec fn spec_leader_index(v: LeaderScheduleView, slot: u64) -> usize {
    v.schedule[((slot as usize) as int) % (v.schedule.len() as int)]
}

/// The schedule repeats every epoch: when it is exactly one epoch long, the
/// slot one epoch later has the same leader.
pub proof fn lemma_leader_periodic(v: LeaderScheduleView, slot: u64)
    requires
        v.schedule.len() == v.epoch_length,
        v.epoch_length > 0,
        slot + v.epoch_length <= usize::MAX,
    ensures
        spec_leader_index(v, (slot + v.epoch_length) as u64) == spec_leader_index(v, slot),
{
    let e = v.epoch_length as int;
    assert(((slot + v.epoch_length) as u64 as usize) as int == slot + e);
    assert((slot as usize) as int == slot as int);
    vstd::arithmetic::div_mod::lemma_mod_add_multiples_vanish(slot as int, e);
}

impl LeaderSchedule {
    /// There is a validator, the counts line up with the validators, the
    /// schedule is the one computed from them and not empty.
    pub closed spec fn wf(&self) -> bool {
        let v = self@;
        &&& v.validators.len() > 0
        &&& v.slot_counts.len() == v.validators.len()
        &&& v.schedule == spec_schedule(v.slot_counts, v.validators.len() as int, v.epoch_length)
        &&& v.schedule.len() >= v.epoch_length
        &&& forall|i: int| 0 <= i < v.schedule.len() ==> #[trigger] v.schedule[i] < v.validators.len()
    }

    /// A schedule for `validators`, each earning the slot count at the same
    /// position of `stake_slots`: they are ordered by stake, largest first
    /// (equal stakes keep their order), each gets its slots in turn, and the
    /// rest of the epoch goes round-robin.
    pub fn new(validators: Vec<ValidatorStake>, stake_slots: Vec<u64>, slots_per_leader: u64, epoch_length: u64) -> (s: Self)
        requires
            validators@.len() > 0,
            stake_slots@.len() == validators@.len(),
        ensures
            s.wf(),
            s@.validators == sorted_entries(validators@, stake_slots@).map_values(|e: StakeSlots| e.0),
            s@.slot_counts == sorted_entries(validators@, stake_slots@).map_values(|e: StakeSlots| e.1),
            s@.slots_per_leader == slots_per_leader,
            s@.epoch_length == epoch_length,
            s@.current_epoch == 0,
            s@.schedule.len() >= epoch_length,
            count_sum(s@.slot_counts) <= epoch_length ==> s@.schedule.len() == epoch_length,
            count_sum(stake_slots@) <= epoch_length ==> s@.schedule.len() == epoch_length,
            s@.validators.len() == validators@.len(),
            forall|i: int|
                0 <= i < s@.validators.len() ==> exists|j: int|
                    0 <= j < validators@.len() && #[trigger] s@.validators[i] == validators@[j],
    {
        let ghost pairs_spec = Seq::new(validators@.len(), |i: int| (validators@[i], stake_slots@[i]));
        let mut validators = validators;
        let mut pairs: Vec<StakeSlots> = Vec::new();
        let mut k: usize = 0;
        let ghost vs = validators@;
        let n0 = validators.len();
        while validators.len() > 0
            invariant
                k + validators@.len() == vs.len(),
                n0 == vs.len(),
                validators@ == vs.subrange(k as int, vs.len() as int),
                stake_slots@.len() == vs.len(),
                pairs@ == pairs_spec.take(k as int),
                pairs_spec == Seq::new(vs.len(), |i: int| (vs[i], stake_slots@[i])),
            decreases validators@.len(),
        {
            let v = validators.remove(0);
            proof {
                assert(v == vs[k as int]);
                assert(validators@ =~= vs.subrange(k + 1, vs.len() as int));
            }
            pairs.push((v, stake_slots[k]));
            k = k + 1;
            assert(pairs@ =~= pairs_spec.take(k as int));
        }
        assert(pairs_spec.take(k as int) =~= pairs_spec);
        let sorted = sort_by_stake(pairs);
        proof {
            lemma_stake_sort_descending(pairs_spec);
        }
        let mut ordered: Vec<ValidatorStake> = Vec::new();
        let mut counts: Vec<u64> = Vec::new();
        let mut sorted = sorted;
        let ghost ss = sorted@;
        let mut j: usize = 0;
        while sorted.len() > 0
            invariant
                j + sorted@.len() == ss.len(),
                ss.len() == vs.len(),
                vs.len() == n0,
                sorted@ == ss.subrange(j as int, ss.len() as int),
                ordered@ == ss.take(j as int).map_values(|e: StakeSlots| e.0),
                counts@ == ss.take(j as int).map_values(|e: StakeSlots| e.1),
            decreases sorted@.len(),
        {
            let (v, c) = sorted.remove(0);
            proof {
                assert((v, c) == ss[j as int]);
                assert(sorted@ =~= ss.subrange(j + 1, ss.len() as int));
            }
            ordered.push(v);
            counts.push(c);
            j = j + 1;
            assert(ordered@ =~= ss.take(j as int).map_values(|e: StakeSlots| e.0));
            assert(counts@ =~= ss.take(j as int).map_values(|e: StakeSlots| e.1));
        }
        assert(ss.take(j as int) =~= ss);
        let mut schedule = LeaderSchedule {
            validators: ordered,
            slot_counts: counts,
            slots_per_leader,
            epoch_length,
            current_epoch: 0,
            schedule: Vec::new(),
        };
        schedule.compute_schedule();
        proof {
            lemma_expand_len(schedule@.slot_counts);
            lemma_stake_sort_permutes(pairs_spec);
            lemma_stake_sort_count_sum(pairs_spec);
            assert(pairs_spec.map_values(|e: StakeSlots| e.1) =~= stake_slots@);
            assert forall|i: int| 0 <= i < ss.len() implies exists|j: int|
                0 <= j < vs.len() && #[trigger] ss[i].0 == vs[j] by {
                broadcast use vstd::seq_lib::group_to_multiset_ensures;

                assert(ss.contains(ss[i]));
                assert(ss.to_multiset().count(ss[i]) > 0);
                assert(pairs_spec.contains(ss[i]));
                let j = choose|j: int| 0 <= j < pairs_spec.len() && pairs_spec[j] == ss[i];
                assert(pairs_spec[j].0 == vs[j]);
            }
        }
        schedule
    }

    /// Recomputes the schedule from the slot counts.
    fn compute_schedule(&mut self)
        requires
            old(self)@.validators.len() > 0,
            old(self)@.slot_counts.len() == old(self)@.validators.len(),
        ensures
            final(self).wf(),
            final(self)@ == (LeaderScheduleView { schedule: final(self)@.schedule, ..old(self)@ }),
    {
        let n = self.validators.len();
        let ghost counts = self.slot_counts@;
        let mut schedule: Vec<usize> = Vec::new();
        let mut idx: usize = 0;
        while idx < n
            invariant
                n == self.validators@.len(),
                counts == self.slot_counts@,
                counts.len() == n,
                idx <= n,
                schedule@ == expand_counts(counts.take(idx as int)),
            decreases n - idx,
        {
            let c = self.slot_counts[idx];
            let ghost before = schedule@;
            let mut t: u64 = 0;
            while t < c
                invariant
                    t <= c,
                    idx < n,
                    schedule@ == before + repeat_index(idx, t),
                decreases c - t,
            {
                schedule.push(idx);
                t = t + 1;
                assert(schedule@ =~= before + repeat_index(idx, t));
            }
            proof {
                assert(counts.take(idx + 1).drop_last() =~= counts.take(idx as int));
                assert(counts.take(idx + 1).last() == c);
            }
            idx = idx + 1;
        }
        assert(counts.take(n as int) =~= counts);
        let ghost base = schedule@;
        let total_slots = self.epoch_length;
        let mut r: usize = 0;
        while (schedule.len() as u64) < total_slots
            invariant
                n > 0,
                schedule@.len() == base.len() + r,
                schedule@ == base + Seq::new(r as nat, |j: int| (j % n as int) as usize),
                base.len() + r <= total_slots || r == 0,
            decreases total_slots - schedule@.len(),
        {
            schedule.push(r % n);
            let grown = schedule.len();
            assert(r < grown);
            r = r + 1;
            assert(schedule@ =~= base + Seq::new(r as nat, |j: int| (j % n as int) as usize));
        }
        self.schedule = schedule;
        proof {
            let fill: int = if base.len() < total_slots {
                total_slots - base.len()
            } else {
                0
            };
            assert(r == fill);
            assert(self@.schedule =~= spec_schedule(counts, n as int, total_slots));
            lemma_schedule_covers_epoch(counts, n as int, total_slots);
        }
    }

    /// The leader of `slot`: the schedule repeats every epoch.
    pub fn leader_for_slot(&self, slot: u64) -> (v: &ValidatorStake)
        requires
            self.wf(),
            self@.schedule.len() > 0,
        ensures
            spec_leader_index(self@, slot) < self@.validators.len(),
            *v == self@.validators[spec_leader_index(self@, slot) as int],
    {
        let idx = self.schedule[(slot as usize) % self.schedule.len()];
        &self.validators[idx]
    }

    /// The index of the leader of `slot`.
    pub fn leader_index_for_slot(&self, slot: u64) -> (i: usize)
        requires
            self.wf(),
            self@.schedule.len() > 0,
        ensures
            i == spec_leader_index(self@, slot),
            i < self@.validators.len(),
    {
        self.schedule[(slot as usize) % self.schedule.len()]
    }

    /// Whether `validator` leads `slot`.
    pub fn is_leader(&self, validator: &ValidatorId, slot: u64) -> (b: bool)
        requires
            self.wf(),
            self@.schedule.len() > 0,
        ensures
            spec_leader_index(self@, slot) < self@.validators.len(),
            b == (self@.validators[spec_leader_index(self@, slot) as int].validator == *validator),
    {
        keys_eq(&self.leader_for_slot(slot).validator, validator)
    }

    /// The slots of the schedule that `validator` leads, in order.
    pub fn slots_for_leader(&self, validator: &ValidatorId) -> (slots: Vec<u64>)
        requires
            self.wf(),
        ensures
            forall|i: int|
                0 <= i < slots@.len() ==> #[trigger] slots@[i] < self@.schedule.len()
                    && self@.validators[self@.schedule[slots@[i] as int] as int].validator == *validator,
            forall|k: int|
                0 <= k < self@.schedule.len() && self@.validators[self@.schedule[k] as int].validator
                    == *validator ==> slots@.contains(k as u64),
            forall|i: int, j: int| 0 <= i < j < slots@.len() ==> #[trigger] slots@[i] < #[trigger] slots@[j],
    {
        let mut slots: Vec<u64> = Vec::new();
        let mut k: usize = 0;
        while k < self.schedule.len()
            invariant
                self.wf(),
                k <= self@.schedule.len(),
                forall|i: int|
                    0 <= i < slots@.len() ==> #[trigger] slots@[i] < k && self@.validators[self@.schedule[slots@[
                        i
                    ] as int] as int].validator == *validator,
                forall|m: int|
                    0 <= m < k && self@.validators[self@.schedule[m] as int].validator == *validator
                        ==> slots@.contains(m as u64),
                forall|i: int, j: int| 0 <= i < j < slots@.len() ==> #[trigger] slots@[i] < #[trigger] slots@[j],
            decreases self@.schedule.len() - k,
        {
            let idx = self.schedule[k];
            let ghost before = slots@;
            if keys_eq(&self.validators[idx].validator, validator) {
                slots.push(k as u64);
                assert(slots@[slots@.len() - 1] == k as u64);
                assert forall|m: int| 0 <= m < k && #[trigger] before.contains(m as u64) implies slots@.contains(m as u64) by {
                    let w = choose|w: int| 0 <= w < before.len() && before[w] == m as u64;
                    assert(slots@[w] == before[w]);
                }
            }
            k = k + 1;
        }
        slots
    }

    /// The leader of the slot after `after_slot`.
    pub fn next_leader(&self, after_slot: u64) -> (v: &ValidatorStake)
        requires
            self.wf(),
            self@.schedule.len() > 0,
            after_slot < u64::MAX,
        ensures
            *v == self@.validators[spec_leader_index(self@, (after_slot + 1) as u64) as int],
    {
        self.leader_for_slot(after_slot + 1)
    }

    /// Moves to the next epoch; the schedule is computed again from the
    /// same stakes, so it stays the same.
    pub fn advance_epoch(&mut self)
        requires
            old(self).wf(),
            old(self)@.current_epoch < u64::MAX,
        ensures
            final(self).wf(),
            final(self)@ == (LeaderScheduleView { current_epoch: (old(self)@.current_epoch + 1) as u64, ..old(self)@ }),
    {
        self.current_epoch = self.current_epoch + 1;
        self.compute_schedule();
    }

    /// The current epoch.
    pub fn current_epoch(&self) -> (e: u64)
        ensures
            e == self@.current_epoch,
    {
        self.current_epoch
    }

    /// The number of validators.
    pub fn total_validators(&self) -> (n: usize)
        ensures
            n == self@.validators.len(),
    {
        self.validators.len()
    }

    /// The epoch length in slots.
    pub fn epoch_length(&self) -> (n: u64)
        ensures
            n == self@.epoch_length,
    {
        self.epoch_length
    }

    /// Each slot of the schedule with its leader's name.
    pub fn debug_schedule(&self) -> (m: HashMap<u64, String>)
        requires
            self.wf(),
        ensures
            forall|k: u64| #[trigger] m@.contains_key(k) <==> k < self@.schedule.len(),
            forall|k: u64|
                #[trigger] m@.contains_key(k) ==> m@[k]@ == self@.validators[self@.schedule[k as int] as int].name@,
    {
        let mut m: HashMap<u64, String> = HashMap::new();
        let mut k: usize = 0;
        while k < self.schedule.len()
            invariant
                self.wf(),
                k <= self@.schedule.len(),
                forall|j: u64| #[trigger] m@.contains_key(j) <==> j < k,
                forall|j: u64|
                    #[trigger] m@.contains_key(j) ==> m@[j]@ == self@.validators[self@.schedule[j as int] as int].name@,
            decreases self@.schedule.len() - k,
        {
            let idx = self.schedule[k];
            m.insert(k as u64, self.validators[idx].name.clone());
            k = k + 1;
        }
        m
    }
}

} // verus!
