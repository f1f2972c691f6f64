//! The cluster replicated data store: pushed data by id, deduplicated and
//! pruned oldest first, and the contact information of known validators.

use crate::consensus::vote::now_millis;
use crate::gossip::message::{ContactInfo, GossipMessage, GossipPayload, PushData, PushView};
use dashmap::DashMap;
use rand::seq::SliceRandom;
use vstd::prelude::*;
use vstd::string::StringExecFns;

verus! {

/// A stored piece of data.
#[derive(Debug)]
pub struct CrdsEntry {
    /// The data.
    pub data: PushData,
    /// When it was stored.
    pub inserted_at: u64,
    /// Who sent it.
    pub from: [u8; 32],
    /// How often it was passed on.
    pub propagation_count: u32,
}

/// A stored entry as values.
pub struct CrdsEntryView {
    pub data: PushView,
    pub inserted_at: u64,
    pub from: [u8; 32],
    pub propagation_count: u32,
}

impl View for CrdsEntry {
    type V = CrdsEntryView;

    open spec fn view(&self) -> CrdsEntryView {
        CrdsEntryView {
            data: self.data@,
            inserted_at: self.inserted_at,
            from: self.from,
            propagation_count: self.propagation_count,
        }
    }
}

impl Clone for CrdsEntry {
    fn clone(&self) -> (r: Self)
        ensures
            r@ == self@,
    {
        CrdsEntry {
            data: self.data.clone(),
            inserted_at: self.inserted_at,
            from: self.from,
            propagation_count: self.propagation_count,
        }
    }
}

/// What the entry map holds, by data id.
pub uninterp spec fn entry_map(m: DashMap<[u8; 32], CrdsEntry>) -> Map<[u8; 32], CrdsEntryView>;

/// What the contact map holds, by public key.
pub uninterp spec fn contact_map(m: DashMap<[u8; 32], ContactInfo>) -> Map<[u8; 32], ContactInfo>;

/// An empty entry map (`DashMap::new`).
///
/// Trusted: a new map holds nothing.
#[verifier::external_body]
fn entries_new() -> (m: DashMap<[u8; 32], CrdsEntry>)
    ensures
        entry_map(m).dom().is_empty(),
{
    DashMap::new()
}

/// An empty contact map (`DashMap::new`).
///
/// Trusted: a new map holds nothing.
#[verifier::external_body]
fn contacts_new() -> (m: DashMap<[u8; 32], ContactInfo>)
    ensures
        contact_map(m).dom().is_empty(),
{
    DashMap::new()
}

/// `DashMap::contains_key` on the entry map.
///
/// Trusted: whether the key is present.
#[verifier::external_body]
fn entries_contains(m: &DashMap<[u8; 32], CrdsEntry>, key: &[u8; 32]) -> (b: bool)
    ensures
        b == entry_map(*m).contains_key(*key),
{
    m.contains_key(key)
}

/// `DashMap::insert` on the entry map.
///
/// Trusted: the key now maps to the entry; other keys are unchanged.
#[verifier::external_body]
fn entries_insert(m: &mut DashMap<[u8; 32], CrdsEntry>, key: [u8; 32], entry: CrdsEntry)
    ensures
        entry_map(*final(m)) == entry_map(*old(m)).insert(key, entry@),
{
    m.insert(key, entry);
}

/// `DashMap::remove` on the entry map.
///
/// Trusted: the key no longer maps to anything; other keys are unchanged.
#[verifier::external_body]
fn entries_remove(m: &mut DashMap<[u8; 32], CrdsEntry>, key: &[u8; 32])
    ensures
        entry_map(*final(m)) == entry_map(*old(m)).remove(*key),
{
    m.remove(key);
}

/// `DashMap::len` on the entry map.
///
/// Trusted: the number of keys present.
#[verifier::external_body]
fn entries_len(m: &DashMap<[u8; 32], CrdsEntry>) -> (n: usize)
    ensures
        n == entry_map(*m).dom().len(),
{
    m.len()
}

/// The keys of the entry map, from `DashMap::iter`, in the map's own order.
///
/// Trusted: each key present appears exactly once; the order is left open.
#[verifier::external_body]
fn entries_keys(m: &DashMap<[u8; 32], CrdsEntry>) -> (keys: Vec<[u8; 32]>)
    ensures
        keys@.no_duplicates(),
        keys@.to_set() == entry_map(*m).dom(),
{
    m.iter().map(|e| *e.key()).collect()
}

/// A copy of the entry under `key` (`DashMap::get` and `CrdsEntry::clone`).
///
/// Trusted: a copy for a present key, nothing otherwise.
#[verifier::external_body]
fn entries_get(m: &DashMap<[u8; 32], CrdsEntry>, key: &[u8; 32]) -> (r: Option<CrdsEntry>)
    ensures
        match r {
            Some(e) => entry_map(*m).contains_key(*key) && e@ == entry_map(*m)[*key],
            None => !entry_map(*m).contains_key(*key),
        },
{
    m.get(key).map(|e| e.value().clone())
}

/// `DashMap::insert` on the contact map.
///
/// Trusted: the key now maps to the contact; other keys are unchanged.
#[verifier::external_body]
fn contacts_insert(m: &mut DashMap<[u8; 32], ContactInfo>, key: [u8; 32], contact: ContactInfo)
    ensures
        contact_map(*final(m)) == contact_map(*old(m)).insert(key, contact),
{
    m.insert(key, contact);
}

/// `DashMap::len` on the contact map.
///
/// Trusted: the number of keys present.
#[verifier::external_body]
fn contacts_len(m: &DashMap<[u8; 32], ContactInfo>) -> (n: usize)
    ensures
        n == contact_map(*m).dom().len(),
{
    m.len()
}

/// The keys of the contact map, from `DashMap::iter`, in the map's own
/// order.
///
/// Trusted: each key present appears exactly once; the order is left open.
#[verifier::external_body]
fn contacts_keys(m: &DashMap<[u8; 32], ContactInfo>) -> (keys: Vec<[u8; 32]>)
    ensures
        keys@.no_duplicates(),
        keys@.to_set() == contact_map(*m).dom(),
{
    m.iter().map(|e| *e.key()).collect()
}

/// A copy of the contact under `key` (`DashMap::get` and
/// `ContactInfo::clone`).
///
/// Trusted: a copy for a present key, nothing otherwise.
#[verifier::external_body]
fn contacts_get(m: &DashMap<[u8; 32], ContactInfo>, key: &[u8; 32]) -> (r: Option<ContactInfo>)
    ensures
        r == (if contact_map(*m).contains_key(*key) {
            Some(contact_map(*m)[*key])
        } else {
            None::<ContactInfo>
        }),
{
    m.get(key).map(|c| c.value().clone())
}

/// The contacts in a random order (`SliceRandom::shuffle` with
/// `rand::rng()`).
///
/// Trusted: the result holds the same contacts, each as often; the order
/// is left open.
#[verifier::external_body]
fn shuffle_contacts(v: Vec<ContactInfo>) -> (r: Vec<ContactInfo>)
    ensures
        r@.to_multiset() == v@.to_multiset(),
{
    let mut v = v;
    v.shuffle(&mut rand::rng());
    v
}

/// The store's state as values.
pub struct CrdsView {
    pub entries: Map<[u8; 32], CrdsEntryView>,
    pub contacts: Map<[u8; 32], ContactInfo>,
    pub self_info: Option<ContactInfo>,
    pub max_entries: usize,
    pub total_inserted: u64,
    pub total_pruned: u64,
}

/// The gossip data store.
pub struct Crds {
    entries: DashMap<[u8; 32], CrdsEntry>,
    contacts: DashMap<[u8; 32], ContactInfo>,
    self_info: Option<ContactInfo>,
    max_entries: usize,
    total_inserted: u64,
    total_pruned: u64,
}

/// Store counters.
#[derive(Debug, Clone)]
pub struct CrdsStats {
    pub entries: usize,
    pub contacts: usize,
    pub total_inserted: u64,
    pub total_pruned: u64,
}

impl View for Crds {
    type V = CrdsView;

    closed spec fn view(&self) -> CrdsView {
        CrdsView {
            entries: entry_map(self.entries),
            contacts: contact_map(self.contacts),
            self_info: self.self_info,
            max_entries: self.max_entries,
            total_inserted: self.total_inserted,
            total_pruned: self.total_pruned,
        }
    }
}

/// The entry stored for pushed data from `from` at `now`.
pub open spec fn new_entry(data: PushView, from: [u8; 32], now: u64) -> CrdsEntryView {
    CrdsEntryView { data, inserted_at: now, from, propagation_count: 0 }
}

/// `after` is `before` with the oldest entries pruned down to `keep`: only
/// entries of `before` remain, unchanged, `keep` of them, and none removed
/// is newer than one kept.
pub open spec fn pruned_to(before: Map<[u8; 32], CrdsEntryView>, after: Map<[u8; 32], CrdsEntryView>, keep: nat) -> bool {
    &&& after.dom().subset_of(before.dom())
    &&& forall|k: [u8; 32]| #[trigger] after.contains_key(k) ==> after[k] == before[k]
    &&& after.dom().len() == keep
    &&& forall|r: [u8; 32], k: [u8; 32]|
        #![trigger before[r], after[k]]
        before.contains_key(r) && !after.contains_key(r) && after.contains_key(k) ==> before[r].inserted_at
            <= before[k].inserted_at
}

/// How many entries pruning keeps: nine tenths of the maximum.
pub open spec fn keep_after_prune(max_entries: usize) -> nat {
    (max_entries * 9 / 10) as nat
}

/// The store keys each entry by its data id and each contact by its key.
pub open spec fn crds_ok(v: CrdsView) -> bool {
    &&& v.entries.dom().finite()
    &&& v.contacts.dom().finite()
    &&& forall|k: [u8; 32]| #[trigger] v.entries.contains_key(k) ==> v.entries[k].data.id == k
    &&& forall|k: [u8; 32]| #[trigger] v.contacts.contains_key(k) ==> v.contacts[k].pubkey == k
}

/// The entries newer than `timestamp`.
pub open spec fn newer_than(entries: Map<[u8; 32], CrdsEntryView>, timestamp: u64) -> Set<[u8; 32]> {
    entries.dom().filter(|k: [u8; 32]| entries[k].inserted_at > timestamp)
}

/// The entries of a kind.
pub open spec fn of_kind(entries: Map<[u8; 32], CrdsEntryView>, kind: Seq<char>) -> Set<[u8; 32]> {
    entries.dom().filter(|k: [u8; 32]| entries[k].data.kind == kind)
}

/// The entries chosen by `chosen`, each once, in some order.
pub open spec fn lists_entries(r: Seq<CrdsEntry>, entries: Map<[u8; 32], CrdsEntryView>, chosen: Set<[u8; 32]>) -> bool {
    &&& r.len() == chosen.len()
    &&& forall|i: int| 0 <= i < r.len() ==> chosen.contains(#[trigger] r[i].data.id) && r[i]@ == entries[r[i].data.id]
    &&& forall|i: int, j: int| 0 <= i < j < r.len() ==> #[trigger] r[i].data.id != #[trigger] r[j].data.id
}

/// What picks entries: a time they must be newer than, or a kind.
pub enum Selector {
    NewerThan(u64),
    Kind(String),
}

/// Whether a selector picks an entry.
pub open spec fn selects(sel: Selector, e: CrdsEntryView) -> bool {
    match sel {
        Selector::NewerThan(ts) => e.inserted_at > ts,
        Selector::Kind(kind) => e.data.kind == kind@,
    }
}

/// Contacts from the map, each under its own key and at most once.
pub open spec fn lists_contacts(r: Seq<ContactInfo>, contacts: Map<[u8; 32], ContactInfo>) -> bool {
    &&& forall|i: int| 0 <= i < r.len() ==> contacts.contains_key(#[trigger] r[i].pubkey) && r[i] == contacts[r[i].pubkey]
    &&& forall|i: int, j: int| 0 <= i < j < r.len() ==> #[trigger] r[i].pubkey != #[trigger] r[j].pubkey
}

/// A reordering of a list of contacts lists them just as well.
proof fn lemma_permutation_lists(a: Seq<ContactInfo>, b: Seq<ContactInfo>, contacts: Map<[u8; 32], ContactInfo>)
    requires
        lists_contacts(a, contacts),
        b.to_multiset() == a.to_multiset(),
    ensures
        lists_contacts(b, contacts),
        b.len() == a.len(),
{
    broadcast use vstd::seq_lib::group_to_multiset_ensures;

    assert forall|i: int| 0 <= i < b.len() implies contacts.contains_key(#[trigger] b[i].pubkey) && b[i]
        == contacts[b[i].pubkey] by {
        assert(b.contains(b[i]));
        assert(b.to_multiset().count(b[i]) > 0);
        assert(a.contains(b[i]));
        let c = choose|c: int| 0 <= c < a.len() && a[c] == b[i];
        assert(contacts.contains_key(a[c].pubkey));
    }
    assert forall|i: int, j: int| 0 <= i < j < b.len() implies #[trigger] b[i].pubkey != #[trigger] b[j].pubkey by {
        if b[i].pubkey == b[j].pubkey {
            assert(b[i] == contacts[b[i].pubkey] && b[j] == contacts[b[j].pubkey]);
            assert(b[i] == b[j]);
            assert(b.to_multiset().count(b[i]) >= 2) by {
                lemma_count_two(b, i, j);
            }
            assert(a.to_multiset().count(b[i]) <= 1) by {
                lemma_count_unique(a, b[i]);
            }
        }
    }
    assert(b.len() == b.to_multiset().len());
    assert(a.len() == a.to_multiset().len());
}

/// A value at two positions is counted at least twice.
proof fn lemma_count_two(s: Seq<ContactInfo>, i: int, j: int)
    requires
        0 <= i < j < s.len(),
        s[i] == s[j],
    ensures
        s.to_multiset().count(s[i]) >= 2,
    decreases s.len(),
{
    broadcast use vstd::seq_lib::group_to_multiset_ensures;
    broadcast use vstd::multiset::group_multiset_axioms;

    assert(s =~= s.drop_last().push(s.last()));
    if j < s.len() - 1 {
        lemma_count_two(s.drop_last(), i, j);
    } else {
        assert(s.drop_last()[i] == s[i]);
        assert(s.drop_last().contains(s[i]));
    }
}

/// In a list of contacts with distinct keys, each contact is counted at
/// most once.
proof fn lemma_count_unique(s: Seq<ContactInfo>, x: ContactInfo)
    requires
        forall|i: int, j: int| 0 <= i < j < s.len() ==> #[trigger] s[i].pubkey != #[trigger] s[j].pubkey,
    ensures
        s.to_multiset().count(x) <= 1,
    decreases s.len(),
{
    broadcast use vstd::seq_lib::group_to_multiset_ensures;
    broadcast use vstd::multiset::group_multiset_axioms;

    if s.len() > 0 {
        assert(s =~= s.drop_last().push(s.last()));
        lemma_count_unique(s.drop_last(), x);
        if s.last() == x && s.drop_last().contains(x) {
            let c = choose|c: int| 0 <= c < s.drop_last().len() && s.drop_last()[c] == x;
            assert(s[c].pubkey != s[s.len() - 1].pubkey);
        }
    }
}

/// The keys of the first `r` stamped keys.
pub open spec fn first_keys(s: Seq<([u8; 32], u64)>, r: int) -> Set<[u8; 32]> {
    s.take(r).map_values(|p: ([u8; 32], u64)| p.0).to_set()
}

/// Sorted by time, oldest first.
pub open spec fn by_time(s: Seq<([u8; 32], u64)>) -> bool {
    forall|a: int, b: int| 0 <= a < b < s.len() ==> #[trigger] s[a].1 <= #[trigger] s[b].1
}

impl Crds {
    /// Entries and contacts are keyed by their own ids.
    pub open spec fn wf(&self) -> bool {
        crds_ok(self@)
    }

    /// An empty store that prunes beyond `max_entries`.
    pub fn new(max_entries: usize) -> (c: Self)
        ensures
            c.wf(),
            c@.entries.dom().is_empty(),
            c@.contacts.dom().is_empty(),
            c@.self_info is None,
            c@.max_entries == max_entries,
            c@.total_inserted == 0,
            c@.total_pruned == 0,
    {
        Crds {
            entries: entries_new(),
            contacts: contacts_new(),
            self_info: None,
            max_entries,
            total_inserted: 0,
            total_pruned: 0,
        }
    }

    /// An empty store for 100,000 entries.
    pub fn default_store() -> (c: Self)
        ensures
            c.wf(),
            c@.entries.dom().is_empty(),
            c@.contacts.dom().is_empty(),
            c@.self_info is None,
            c@.max_entries == 100_000,
            c@.total_inserted == 0,
            c@.total_pruned == 0,
    {
        Self::new(100_000)
    }

    /// Stores pushed data stamped with the current time, unless an entry
    /// with its id is already stored; other messages are refused.
    pub fn insert_push(&mut self, msg: &GossipMessage) -> (inserted: bool)
        requires
            old(self).wf(),
            old(self)@.total_inserted < u64::MAX,
            old(self)@.total_pruned + old(self)@.entries.dom().len() + 1 <= u64::MAX,
            old(self)@.max_entries * 9 <= usize::MAX,
        ensures
            final(self).wf(),
            exists|now: u64| #[trigger] push_outcome(old(self)@, *msg, now, final(self)@, inserted),
    {
        let now = now_millis();
        self.insert_push_at(msg, now)
    }

    /// Stores pushed data stamped with `now`, unless an entry with its id is
    /// already stored; if the store then holds more than its maximum, the
    /// oldest entries are pruned down to nine tenths of it. Other messages
    /// are refused.
    pub fn insert_push_at(&mut self, msg: &GossipMessage, now: u64) -> (inserted: bool)
        requires
            old(self).wf(),
            old(self)@.total_inserted < u64::MAX,
            old(self)@.total_pruned + old(self)@.entries.dom().len() + 1 <= u64::MAX,
            old(self)@.max_entries * 9 <= usize::MAX,
        ensures
            final(self).wf(),
            push_outcome(old(self)@, *msg, now, final(self)@, inserted),
    {
        match &msg.payload {
            GossipPayload::Push(data) => {
                let id = data.id;
                if entries_contains(&self.entries, &id) {
                    return false;
                }
                let entry = CrdsEntry { data: data.clone(), inserted_at: now, from: msg.from, propagation_count: 0 };
                let ghost before = self@;
                entries_insert(&mut self.entries, id, entry);
                self.total_inserted = self.total_inserted + 1;
                proof {
                    vstd::set_lib::lemma_set_insert_finite_iff(before.entries.dom(), id);
                    assert(self@.entries.dom() =~= before.entries.dom().insert(id));
                }
                if entries_len(&self.entries) > self.max_entries {
                    self.prune_old();
                }
                true
            },
            _ => false,
        }
    }

    /// Prunes the oldest entries down to nine tenths of the maximum.
    fn prune_old(&mut self)
        requires
            old(self).wf(),
            old(self)@.entries.dom().len() > old(self)@.max_entries,
            old(self)@.total_pruned + old(self)@.entries.dom().len() <= u64::MAX,
            old(self)@.max_entries * 9 <= usize::MAX,
        ensures
            final(self).wf(),
            pruned_to(old(self)@.entries, final(self)@.entries, keep_after_prune(old(self)@.max_entries)),
            final(self)@ == (CrdsView {
                entries: final(self)@.entries,
                total_pruned: (old(self)@.total_pruned + (old(self)@.entries.dom().len() - keep_after_prune(
                    old(self)@.max_entries,
                ))) as u64,
                ..old(self)@
            }),
    {
        let ghost before = self@.entries;
        let keys = entries_keys(&self.entries);
        proof {
            keys@.unique_seq_to_set();
        }
        let mut stamped: Vec<([u8; 32], u64)> = Vec::new();
        let mut i: usize = 0;
        while i < keys.len()
            invariant
                before == self@.entries,
                keys@.no_duplicates(),
                keys@.to_set() == before.dom(),
                i <= keys@.len(),
                stamped@.len() == i,
                forall|j: int| 0 <= j < i ==> #[trigger] stamped@[j].0 == keys@[j] && stamped@[j].1
                    == before[keys@[j]].inserted_at,
            decreases keys@.len() - i,
        {
            let k = keys[i];
            proof {
                assert(keys@.to_set().contains(k));
            }
            match entries_get(&self.entries, &k) {
                Some(e) => {
                    stamped.push((k, e.inserted_at));
                },
                None => {},
            }
            i = i + 1;
        }
        let sorted = sort_by_time(&stamped);
        proof {
            assert forall|a: int, b: int| 0 <= a < b < stamped@.len() implies #[trigger] stamped@[a].0
                != #[trigger] stamped@[b].0 by {
                assert(stamped@[a].0 == keys@[a] && stamped@[b].0 == keys@[b]);
            }
            assert forall|a: int| 0 <= a < sorted@.len() implies before.contains_key(#[trigger] sorted@[a].0)
                && sorted@[a].1 == before[sorted@[a].0].inserted_at by {
                assert(sorted@.contains(sorted@[a]));
                assert(stamped@.contains((sorted@[a].0, sorted@[a].1)));
                let c = choose|c: int| 0 <= c < stamped@.len() && stamped@[c] == (sorted@[a].0, sorted@[a].1);
                assert(keys@.to_set().contains(keys@[c]));
            }
            assert forall|k: [u8; 32]| before.contains_key(k) implies exists|a: int|
                0 <= a < sorted@.len() && #[trigger] sorted@[a].0 == k by {
                assert(keys@.to_set().contains(k));
                let c = choose|c: int| 0 <= c < keys@.len() && keys@[c] == k;
                assert(stamped@[c] == (k, stamped@[c].1));
                assert(stamped@.contains((k, stamped@[c].1)));
                assert(sorted@.contains((k, stamped@[c].1)));
            }
            assert(sorted@.take(0).map_values(|p: ([u8; 32], u64)| p.0).to_set() =~= Set::<[u8; 32]>::empty());
            assert(self@.entries =~= before.remove_keys(first_keys(sorted@, 0)));
        }
        let n = keys.len();
        let keep = self.max_entries * 9 / 10;
        let to_remove = n - keep;
        let ghost t0 = self@;
        let mut r: usize = 0;
        while r < to_remove
            invariant
                to_remove <= sorted@.len(),
                r <= to_remove,
                sorted@.len() == keys@.len(),
                by_time(sorted@),
                forall|a: int, b: int| 0 <= a < b < sorted@.len() ==> #[trigger] sorted@[a].0 != #[trigger] sorted@[b].0,
                forall|a: int| 0 <= a < sorted@.len() ==> before.contains_key(#[trigger] sorted@[a].0)
                    && sorted@[a].1 == before[sorted@[a].0].inserted_at,
                forall|k: [u8; 32]| before.contains_key(k) ==> exists|a: int| 0 <= a < sorted@.len() && #[trigger] sorted@[a].0 == k,
                self@.entries == before.remove_keys(first_keys(sorted@, r as int)),
                self@ == (CrdsView { entries: self@.entries, total_pruned: (t0.total_pruned + r) as u64, ..t0 }),
                t0.total_pruned + to_remove <= u64::MAX,
            decreases to_remove - r,
        {
            let k = sorted[r].0;
            entries_remove(&mut self.entries, &k);
            self.total_pruned = self.total_pruned + 1;
            proof {
                let ks0 = sorted@.take(r as int).map_values(|p: ([u8; 32], u64)| p.0);
                let ks1 = sorted@.take(r + 1).map_values(|p: ([u8; 32], u64)| p.0);
                assert(ks1 =~= ks0.push(k));
                assert(ks1.to_set() =~= ks0.to_set().insert(k)) by {
                    assert forall|q: [u8; 32]| #[trigger] ks1.to_set().contains(q) <==> ks0.to_set().insert(k).contains(q) by {
                        if ks1.contains(q) {
                            let w = choose|w: int| 0 <= w < ks1.len() && ks1[w] == q;
                            if w < r {
                                assert(ks0[w] == q);
                            }
                        }
                        if ks0.contains(q) {
                            let w = choose|w: int| 0 <= w < ks0.len() && ks0[w] == q;
                            assert(ks1[w] == q);
                        }
                        if q == k {
                            assert(ks1[r as int] == q);
                        }
                    }
                }
                assert(self@.entries =~= before.remove_keys(first_keys(sorted@, r + 1)));
            }
            r = r + 1;
        }
        proof {
            let removed = first_keys(sorted@, to_remove as int);
            let after = self@.entries;
            let ks = sorted@.take(to_remove as int).map_values(|p: ([u8; 32], u64)| p.0);
            assert(ks.no_duplicates()) by {
                assert forall|a: int, b: int| 0 <= a < ks.len() && 0 <= b < ks.len() && a != b implies ks[a] != ks[b] by {
                    if a < b {
                        assert(sorted@[a].0 != sorted@[b].0);
                    } else {
                        assert(sorted@[b].0 != sorted@[a].0);
                    }
                }
            }
            ks.unique_seq_to_set();
            assert(removed.subset_of(before.dom()));
            assert(after.dom() =~= before.dom().difference(removed));
            vstd::set_lib::lemma_set_difference_len(before.dom(), removed);
            assert(before.dom().intersect(removed) =~= removed);
            assert(before.dom().len() == n);
            assert forall|r: [u8; 32], k: [u8; 32]|
                #![trigger before[r], after[k]]
                before.contains_key(r) && !after.contains_key(r) && after.contains_key(k) implies before[r].inserted_at
                    <= before[k].inserted_at by {
                assert(removed.contains(r));
                assert(ks.contains(r));
                let a = choose|a: int| 0 <= a < ks.len() && ks[a] == r;
                assert(sorted@[a].0 == r);
                let b = choose|b: int| 0 <= b < sorted@.len() && #[trigger] sorted@[b].0 == k;
                if b < to_remove {
                    assert(ks[b] == k);
                    assert(removed.contains(k));
                }
                assert(sorted@[a].1 <= sorted@[b].1);
            }
            assert forall|k: [u8; 32]| #[trigger] self@.entries.contains_key(k) implies self@.entries[k].data.id == k by {
                assert(before.contains_key(k));
            }
        }
    }

    /// The entries a selector picks, each once, in the map's own order.
    fn select(&self, sel: &Selector) -> (r: Vec<CrdsEntry>)
        requires
            self.wf(),
        ensures
            lists_entries(r@, self@.entries, self@.entries.dom().filter(|k: [u8; 32]| selects(*sel, self@.entries[k]))),
    {
        let ghost m = self@.entries;
        let ghost chosen = m.dom().filter(|k: [u8; 32]| selects(*sel, m[k]));
        let keys = entries_keys(&self.entries);
        let mut out: Vec<CrdsEntry> = Vec::new();
        let mut i: usize = 0;
        while i < keys.len()
            invariant
                m == self@.entries,
                crds_ok(self@),
                chosen == m.dom().filter(|k: [u8; 32]| selects(*sel, m[k])),
                keys@.no_duplicates(),
                keys@.to_set() == m.dom(),
                i <= keys@.len(),
                forall|a: int| 0 <= a < out@.len() ==> chosen.contains(#[trigger] out@[a].data.id) && out@[a]@ == m[out@[a].data.id],
                forall|a: int| 0 <= a < out@.len() ==> exists|c: int| 0 <= c < i && keys@[c] == #[trigger] out@[a].data.id,
                forall|a: int, b: int| 0 <= a < b < out@.len() ==> #[trigger] out@[a].data.id != #[trigger] out@[b].data.id,
                forall|c: int| 0 <= c < i && chosen.contains(#[trigger] keys@[c]) ==> exists|a: int| 0 <= a < out@.len() && out@[a].data.id == keys@[c],
            decreases keys@.len() - i,
        {
            let k = keys[i];
            proof {
                assert(keys@.to_set().contains(k));
            }
            match entries_get(&self.entries, &k) {
                Some(e) => {
                    let picked = match sel {
                        Selector::NewerThan(ts) => e.inserted_at > *ts,
                        Selector::Kind(kind) => e.data.kind == *kind,
                    };
                    if picked {
                        let ghost before = out@;
                        proof {
                            assert(m[k].data.id == k);
                            assert forall|a: int| 0 <= a < before.len() implies #[trigger] before[a].data.id != k by {
                                let c = choose|c: int| 0 <= c < i && keys@[c] == #[trigger] before[a].data.id;
                                assert(keys@[c] != keys@[i as int]);
                            }
                        }
                        out.push(e);
                        proof {
                            assert(out@[before.len() as int].data.id == k);
                            assert forall|a: int| 0 <= a < out@.len() implies exists|c: int| 0 <= c < i + 1 && keys@[c] == #[trigger] out@[a].data.id by {
                                if a < before.len() {
                                    assert(out@[a] == before[a]);
                                    let c = choose|c: int| 0 <= c < i && keys@[c] == #[trigger] before[a].data.id;
                                    assert(keys@[c] == out@[a].data.id);
                                } else {
                                    assert(keys@[i as int] == out@[a].data.id);
                                }
                            }
                            assert forall|c: int| 0 <= c < i + 1 && chosen.contains(#[trigger] keys@[c]) implies exists|a: int| 0 <= a < out@.len() && out@[a].data.id == keys@[c] by {
                                if c < i {
                                    let a = choose|a: int| 0 <= a < before.len() && before[a].data.id == keys@[c];
                                    assert(out@[a] == before[a]);
                                } else {
                                    assert(out@[before.len() as int].data.id == keys@[c]);
                                }
                            }
                        }
                    } else {
                        proof {
                            assert(!chosen.contains(k));
                        }
                    }
                },
                None => {},
            }
            i = i + 1;
        }
        proof {
            let ids = out@.map_values(|e: CrdsEntry| e.data.id);
            assert(ids.no_duplicates()) by {
                assert forall|a: int, b: int| 0 <= a < ids.len() && 0 <= b < ids.len() && a != b implies ids[a] != ids[b] by {
                    if a < b {
                        assert(out@[a].data.id != out@[b].data.id);
                    } else {
                        assert(out@[b].data.id != out@[a].data.id);
                    }
                }
            }
            assert(ids.to_set() =~= chosen) by {
                assert forall|k: [u8; 32]| chosen.contains(k) implies ids.to_set().contains(k) by {
                    assert(keys@.to_set().contains(k));
                    let c = choose|c: int| 0 <= c < keys@.len() && keys@[c] == k;
                    let a = choose|a: int| 0 <= a < out@.len() && out@[a].data.id == keys@[c];
                    assert(ids[a] == k);
                }
                assert forall|k: [u8; 32]| ids.to_set().contains(k) implies chosen.contains(k) by {
                    let a = choose|a: int| 0 <= a < ids.len() && ids[a] == k;
                    assert(chosen.contains(out@[a].data.id));
                }
            }
            ids.unique_seq_to_set();
        }
        out
    }

    /// The entries stored after `timestamp`, each once, in the map's own
    /// order.
    pub fn entries_newer_than(&self, timestamp: u64) -> (r: Vec<CrdsEntry>)
        requires
            self.wf(),
        ensures
            lists_entries(r@, self@.entries, newer_than(self@.entries, timestamp)),
    {
        let r = self.select(&Selector::NewerThan(timestamp));
        proof {
            assert(self@.entries.dom().filter(|k: [u8; 32]| selects(Selector::NewerThan(timestamp), self@.entries[k]))
                =~= newer_than(self@.entries, timestamp));
        }
        r
    }

    /// The entries of a kind, each once, in the map's own order.
    pub fn entries_by_kind(&self, kind: &str) -> (r: Vec<CrdsEntry>)
        requires
            self.wf(),
        ensures
            lists_entries(r@, self@.entries, of_kind(self@.entries, kind@)),
    {
        let sel = Selector::Kind(String::from_str(kind));
        let r = self.select(&sel);
        proof {
            assert(self@.entries.dom().filter(|k: [u8; 32]| selects(sel, self@.entries[k])) =~= of_kind(
                self@.entries,
                kind@,
            ));
        }
        r
    }

    /// Copies of all contacts, each once, in the map's own order.
    pub fn contacts(&self) -> (r: Vec<ContactInfo>)
        requires
            self.wf(),
        ensures
            lists_contacts(r@, self@.contacts),
            r@.len() == self@.contacts.dom().len(),
    {
        let ghost m = self@.contacts;
        let keys = contacts_keys(&self.contacts);
        let mut out: Vec<ContactInfo> = Vec::new();
        let mut i: usize = 0;
        proof {
            keys@.unique_seq_to_set();
        }
        while i < keys.len()
            invariant
                m == self@.contacts,
                crds_ok(self@),
                keys@.no_duplicates(),
                keys@.to_set() == m.dom(),
                keys@.len() == m.dom().len(),
                i <= keys@.len(),
                out@.len() == i,
                forall|a: int| 0 <= a < i ==> #[trigger] out@[a] == m[keys@[a]] && out@[a].pubkey == keys@[a],
            decreases keys@.len() - i,
        {
            let k = keys[i];
            proof {
                assert(keys@.to_set().contains(k));
                assert(m[k].pubkey == k);
            }
            match contacts_get(&self.contacts, &k) {
                Some(c) => {
                    out.push(c);
                },
                None => {},
            }
            i = i + 1;
        }
        proof {
            assert forall|a: int| 0 <= a < out@.len() implies m.contains_key(#[trigger] out@[a].pubkey) && out@[a] == m[out@[a].pubkey] by {
                assert(keys@.to_set().contains(keys@[a]));
            }
            assert forall|a: int, b: int| 0 <= a < b < out@.len() implies #[trigger] out@[a].pubkey != #[trigger] out@[b].pubkey by {
                assert(out@[a].pubkey == keys@[a] && out@[b].pubkey == keys@[b]);
            }
        }
        out
    }

    /// Up to `count` contacts picked at random, each at most once.
    pub fn random_contacts(&self, count: usize) -> (r: Vec<ContactInfo>)
        requires
            self.wf(),
        ensures
            lists_contacts(r@, self@.contacts),
            r@.len() == (if count < self@.contacts.dom().len() {
                count as int
            } else {
                self@.contacts.dom().len() as int
            }),
    {
        let all = self.contacts();
        let ghost before = all@;
        let shuffled = shuffle_contacts(all);
        proof {
            lemma_permutation_lists(before, shuffled@, self@.contacts);
        }
        let mut out: Vec<ContactInfo> = Vec::new();
        let mut i: usize = 0;
        while i < shuffled.len() && i < count
            invariant
                i <= shuffled@.len(),
                i <= count,
                shuffled@.len() == self@.contacts.dom().len(),
                out@ == shuffled@.take(i as int),
            decreases shuffled@.len() - i,
        {
            out.push(shuffled[i].clone());
            i = i + 1;
            assert(out@ =~= shuffled@.take(i as int));
        }
        proof {
            assert forall|a: int| 0 <= a < out@.len() implies self@.contacts.contains_key(#[trigger] out@[a].pubkey)
                && out@[a] == self@.contacts[out@[a].pubkey] by {
                assert(out@[a] == shuffled@[a]);
            }
            assert forall|a: int, b: int| 0 <= a < b < out@.len() implies #[trigger] out@[a].pubkey != #[trigger] out@[b].pubkey by {
                assert(out@[a] == shuffled@[a] && out@[b] == shuffled@[b]);
            }
        }
        out
    }

    /// Stores a validator's contact information under its key.
    pub fn insert_contact(&mut self, contact: ContactInfo)
        requires
            old(self).wf(),
        ensures
            final(self).wf(),
            final(self)@ == (CrdsView { contacts: old(self)@.contacts.insert(contact.pubkey, contact), ..old(self)@ }),
    {
        let ghost before = self@;
        let key = contact.pubkey;
        contacts_insert(&mut self.contacts, key, contact);
        proof {
            vstd::set_lib::lemma_set_insert_finite_iff(before.contacts.dom(), key);
            assert(self@.contacts.dom() =~= before.contacts.dom().insert(key));
        }
    }

    /// Sets this validator's own contact information.
    pub fn set_self_info(&mut self, info: ContactInfo)
        ensures
            final(self)@ == (CrdsView { self_info: Some(info), ..old(self)@ }),
            final(self).wf() == old(self).wf(),
    {
        self.self_info = Some(info);
    }

    /// This validator's own contact information, if set.
    pub fn self_info(&self) -> (r: Option<ContactInfo>)
        ensures
            r == self@.self_info,
    {
        match &self.self_info {
            Some(info) => Some(info.clone()),
            None => None,
        }
    }

    /// A copy of the entry with `id`, if stored.
    pub fn get(&self, id: &[u8; 32]) -> (r: Option<CrdsEntry>)
        ensures
            match r {
                Some(e) => self@.entries.contains_key(*id) && e@ == self@.entries[*id],
                None => !self@.entries.contains_key(*id),
            },
    {
        entries_get(&self.entries, id)
    }

    /// The number of stored entries.
    pub fn len(&self) -> (n: usize)
        ensures
            n == self@.entries.dom().len(),
    {
        entries_len(&self.entries)
    }

    /// Whether nothing is stored.
    pub fn is_empty(&self) -> (b: bool)
        ensures
            b == (self@.entries.dom().len() == 0),
    {
        entries_len(&self.entries) == 0
    }

    /// Counts of entries and contacts, with the insert and prune totals.
    pub fn stats(&self) -> (s: CrdsStats)
        ensures
            s.entries == self@.entries.dom().len(),
            s.contacts == self@.contacts.dom().len(),
            s.total_inserted == self@.total_inserted,
            s.total_pruned == self@.total_pruned,
    {
        CrdsStats {
            entries: entries_len(&self.entries),
            contacts: contacts_len(&self.contacts),
            total_inserted: self.total_inserted,
            total_pruned: self.total_pruned,
        }
    }
}

/// What storing a message at `now` does: pushed data with a new id is
/// stored (then the oldest are pruned if the store is over its maximum);
/// anything else leaves the store as it was.
pub open spec fn push_outcome(c0: CrdsView, msg: GossipMessage, now: u64, c1: CrdsView, inserted: bool) -> bool {
    match msg.payload {
        GossipPayload::Push(d) => if c0.entries.contains_key(d.id) {
            !inserted && c1 == c0
        } else {
            let grown = c0.entries.insert(d.id, new_entry(d@, msg.from, now));
            &&& inserted
            &&& c1.contacts == c0.contacts
            &&& c1.self_info == c0.self_info
            &&& c1.max_entries == c0.max_entries
            &&& c1.total_inserted == c0.total_inserted + 1
            &&& if grown.dom().len() > c0.max_entries {
                &&& pruned_to(grown, c1.entries, keep_after_prune(c0.max_entries))
                &&& c1.total_pruned == c0.total_pruned + grown.dom().len() - keep_after_prune(c0.max_entries)
            } else {
                &&& c1.entries == grown
                &&& c1.total_pruned == c0.total_pruned
            }
        },
        _ => !inserted && c1 == c0,
    }
}

/// Stamped keys sorted by time, oldest first; equal times keep their order.
fn sort_by_time(items: &Vec<([u8; 32], u64)>) -> (r: Vec<([u8; 32], u64)>)
    ensures
        r@.len() == items@.len(),
        by_time(r@),
        forall|p: ([u8; 32], u64)| #[trigger] r@.contains(p) <==> items@.contains(p),
        (forall|a: int, b: int| 0 <= a < b < items@.len() ==> #[trigger] items@[a].0 != #[trigger] items@[b].0) ==> (
        forall|a: int, b: int| 0 <= a < b < r@.len() ==> #[trigger] r@[a].0 != #[trigger] r@[b].0),
{
    let mut sorted: Vec<([u8; 32], u64)> = Vec::new();
    let mut i: usize = 0;
    while i < items.len()
        invariant
            i <= items@.len(),
            sorted@.len() == i,
            by_time(sorted@),
            forall|p: ([u8; 32], u64)| #[trigger] sorted@.contains(p) <==> items@.take(i as int).contains(p),
            (forall|a: int, b: int| 0 <= a < b < items@.len() ==> #[trigger] items@[a].0 != #[trigger] items@[b].0)
                ==> (forall|a: int, b: int| 0 <= a < b < sorted@.len() ==> #[trigger] sorted@[a].0 != #[trigger] sorted@[b].0),
        decreases items@.len() - i,
    {
        let x = items[i];
        let mut j: usize = 0;
        while j < sorted.len() && sorted[j].1 <= x.1
            invariant
                j <= sorted@.len(),
                forall|a: int| 0 <= a < j ==> #[trigger] sorted@[a].1 <= x.1,
            decreases sorted@.len() - j,
        {
            j = j + 1;
        }
        let ghost before = sorted@;
        sorted.insert(j, x);
        proof {
            let after = sorted@;
            assert(items@.take(i + 1) =~= items@.take(i as int).push(x));
            assert forall|a: int, b: int| 0 <= a < b < after.len() implies #[trigger] after[a].1 <= #[trigger] after[b].1 by {
                if b < j {
                    assert(after[a] == before[a] && after[b] == before[b]);
                } else if b == j {
                    assert(after[a] == before[a]);
                } else if a < j {
                    assert(after[a] == before[a] && after[b] == before[b - 1]);
                } else if a == j {
                    assert(after[b] == before[b - 1]);
                    assert(before[j as int].1 > x.1);
                    if b - 1 > j {
                        assert(before[j as int].1 <= before[b - 1].1);
                    }
                } else {
                    assert(after[a] == before[a - 1] && after[b] == before[b - 1]);
                }
            }
            assert forall|p: ([u8; 32], u64)| #[trigger] after.contains(p) <==> items@.take(i + 1).contains(p) by {
                let tk = items@.take(i as int);
                let tk1 = items@.take(i + 1);
                if after.contains(p) {
                    let w = choose|w: int| 0 <= w < after.len() && after[w] == p;
                    if w != j {
                        let v = if w < j {
                            w
                        } else {
                            w - 1
                        };
                        assert(before[v] == p);
                        assert(before.contains(p));
                        assert(tk.contains(p));
                        let c = choose|c: int| 0 <= c < tk.len() && tk[c] == p;
                        assert(tk1[c] == p);
                    } else {
                        assert(tk1[i as int] == p);
                    }
                }
                if tk1.contains(p) {
                    let w = choose|w: int| 0 <= w < tk1.len() && #[trigger] tk1[w] == p;
                    if w < i {
                        assert(tk[w] == p);
                        assert(tk.contains(p));
                        assert(before.contains(p));
                        let v = choose|v: int| 0 <= v < before.len() && before[v] == p;
                        if v < j {
                            assert(after[v] == p);
                        } else {
                            assert(after[v + 1] == p);
                        }
                    } else {
                        assert(after[j as int] == p);
                    }
                }
            }
            if forall|a: int, b: int| 0 <= a < b < items@.len() ==> #[trigger] items@[a].0 != #[trigger] items@[b].0 {
                assert forall|a: int| 0 <= a < before.len() implies #[trigger] before[a].0 != x.0 by {
                    assert(before.contains(before[a]));
                    assert(items@.take(i as int).contains(before[a]));
                    let c = choose|c: int| 0 <= c < items@.take(i as int).len() && items@.take(i as int)[c] == before[a];
                    assert(items@[c].0 != items@[i as int].0);
                }
                assert forall|a: int, b: int| 0 <= a < b < after.len() implies #[trigger] after[a].0 != #[trigger] after[b].0 by {
                    if b < j {
                        assert(after[a] == before[a] && after[b] == before[b]);
                    } else if b == j {
                        assert(after[a] == before[a]);
                    } else if a < j {
                        assert(after[a] == before[a] && after[b] == before[b - 1]);
                    } else if a == j {
                        assert(after[b] == before[b - 1]);
                    } else {
                        assert(after[a] == before[a - 1] && after[b] == before[b - 1]);
                    }
                }
            }
        }
        i = i + 1;
    }
    assert(items@.take(i as int) =~= items@);
    sorted
}

} // verus!
