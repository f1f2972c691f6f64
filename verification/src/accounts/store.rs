//! The accounts database: accounts are appended, encoded, to a byte log; an
//! index maps each key to its latest record.

use crate::accounts::account::{
    account_view_wf, decode_account, encode_account, lemma_decode_encode, spec_account_hash,
    spec_decode_account, spec_encode_account, Account, AccountView, Pubkey,
};
use crate::accounts::merkle::{leaves_view, merkle_root, StateRoot};
use crate::byte_order::{hashes_view, lemma_lex_total_ordering, lex_order, sort_hashes};
use crate::crypto::append_bytes;
use dashmap::DashMap;
use std::sync::Arc;
use vstd::prelude::*;
use vstd::relations::sorted_by;
use vstd::slice::slice_subrange;

verus! {

/// Where a record lies in the log.
#[derive(Debug, Clone, Copy)]
pub struct AccountLocation {
    /// Offset in the log.
    pub offset: u64,
    /// Length of the record.
    pub length: u64,
    /// Write version of the record.
    pub write_version: u64,
}

/// What the index of an accounts database maps each key to.
pub uninterp spec fn index_entries(m: DashMap<Pubkey, AccountLocation>) -> Map<Pubkey, AccountLocation>;

/// An empty index (`DashMap::new`).
///
/// Trusted: a new map holds nothing.
#[verifier::external_body]
fn index_new() -> (m: DashMap<Pubkey, AccountLocation>)
    ensures
        index_entries(m).dom().is_empty(),
{
    DashMap::new()
}

/// `DashMap::insert`.
///
/// Trusted: the key now maps to the value, other keys are unchanged, and the
/// previous value, if any, is returned.
#[verifier::external_body]
fn index_insert(m: &mut DashMap<Pubkey, AccountLocation>, key: Pubkey, value: AccountLocation) -> (prev: Option<AccountLocation>)
    ensures
        index_entries(*final(m)) == index_entries(*old(m)).insert(key, value),
        prev == (if index_entries(*old(m)).contains_key(key) {
            Some(index_entries(*old(m))[key])
        } else {
            None::<AccountLocation>
        }),
{
    m.insert(key, value)
}

/// `DashMap::get`, copying the value out.
///
/// Trusted: returns the value the key maps to, if any.
#[verifier::external_body]
fn index_get(m: &DashMap<Pubkey, AccountLocation>, key: &Pubkey) -> (v: Option<AccountLocation>)
    ensures
        v == (if index_entries(*m).contains_key(*key) {
            Some(index_entries(*m)[*key])
        } else {
            None::<AccountLocation>
        }),
{
    m.get(key).map(|r| *r.value())
}

/// `DashMap::contains_key`.
///
/// Trusted: whether the key is present.
#[verifier::external_body]
fn index_contains(m: &DashMap<Pubkey, AccountLocation>, key: &Pubkey) -> (b: bool)
    ensures
        b == index_entries(*m).contains_key(*key),
{
    m.contains_key(key)
}

/// `DashMap::len`.
///
/// Trusted: the number of keys present.
#[verifier::external_body]
fn index_len(m: &DashMap<Pubkey, AccountLocation>) -> (n: usize)
    ensures
        n == index_entries(*m).dom().len(),
{
    m.len()
}

/// The keys of the index, from `DashMap::iter`, in the map's own order.
///
/// Trusted: each key present appears exactly once; the order is left open.
#[verifier::external_body]
fn index_keys(m: &DashMap<Pubkey, AccountLocation>) -> (keys: Vec<Pubkey>)
    ensures
        keys@.no_duplicates(),
        keys@.to_set() == index_entries(*m).dom(),
{
    m.iter().map(|e| *e.key()).collect()
}

/// What a database holds: the latest account under each key, the write
/// version, and the bytes logged.
pub struct AccountsDBView {
    pub accounts: Map<Pubkey, AccountView>,
    pub write_version: u64,
    pub total_bytes: u64,
}

/// The accounts database.
pub struct AccountsDB {
    storage: Vec<u8>,
    index: DashMap<Pubkey, AccountLocation>,
    write_version: u64,
    account_count: u64,
    total_bytes: u64,
}

/// The record a location names in the log.
pub open spec fn record_at(storage: Seq<u8>, loc: AccountLocation) -> Seq<u8> {
    storage.subrange(loc.offset as int, loc.offset + loc.length)
}

/// The account that `hash_seq` lists for each key, hashed, in the keys' order.
pub open spec fn account_hashes(accounts: Map<Pubkey, AccountView>, keys: Seq<Pubkey>) -> Seq<Seq<u8>> {
    keys.map_values(|k: Pubkey| spec_account_hash(accounts[k]))
}

/// The sorted account hashes whose Merkle root is the state root, for one
/// listing of the keys.
pub open spec fn state_leaves(accounts: Map<Pubkey, AccountView>, keys: Seq<Pubkey>) -> Seq<Seq<u8>> {
    account_hashes(accounts, keys).sort_by(lex_order())
}

/// A listing of all keys, each once.
pub open spec fn lists_keys(accounts: Map<Pubkey, AccountView>, keys: Seq<Pubkey>) -> bool {
    keys.no_duplicates() && keys.to_set() == accounts.dom()
}

/// The length of the record storing `account`.
pub open spec fn record_len(account: AccountView) -> int {
    spec_encode_account(account).len() as int
}

impl AccountsDBView {
    /// There is room for `records` more writes totalling `bytes` bytes.
    pub open spec fn has_room(self, records: nat, bytes: int) -> bool {
        self.write_version + records <= u64::MAX && self.total_bytes + bytes <= usize::MAX
    }
}

impl View for AccountsDB {
    type V = AccountsDBView;

    closed spec fn view(&self) -> AccountsDBView {
        let idx = index_entries(self.index);
        AccountsDBView {
            accounts: Map::new(
                |k: Pubkey| idx.contains_key(k),
                |k: Pubkey| spec_decode_account(record_at(self.storage@, idx[k]))->Some_0,
            ),
            write_version: self.write_version,
            total_bytes: self.total_bytes,
        }
    }
}

impl AccountsDB {
    /// Every indexed record lies inside the log and decodes; the count is the
    /// number of keys; the log is as long as the bytes counted.
    pub closed spec fn wf(&self) -> bool {
        let idx = index_entries(self.index);
        &&& idx.dom().finite()
        &&& self.account_count == idx.dom().len()
        &&& self.account_count <= self.write_version
        &&& self.storage@.len() == self.total_bytes
        &&& forall|k: Pubkey| #[trigger] idx.contains_key(k) ==> {
            &&& idx[k].offset + idx[k].length <= self.storage@.len()
            &&& spec_decode_account(record_at(self.storage@, idx[k])) is Some
        }
    }

    /// The number of accounts.
    pub closed spec fn spec_account_count(&self) -> u64 {
        self.account_count
    }

    /// An empty database.
    pub fn new() -> (db: Self)
        ensures
            db.wf(),
            db@.accounts == Map::<Pubkey, AccountView>::empty(),
            db@.write_version == 0,
            db@.total_bytes == 0,
    {
        let db = AccountsDB {
            storage: Vec::new(),
            index: index_new(),
            write_version: 0,
            account_count: 0,
            total_bytes: 0,
        };
        assert(db@.accounts =~= Map::<Pubkey, AccountView>::empty());
        db
    }

    /// Stores (or replaces) the account under `pubkey`: its encoding is
    /// appended to the log and the index points at it.
    pub fn store(&mut self, pubkey: Pubkey, account: &Account)
        requires
            old(self).wf(),
            old(self)@.write_version < u64::MAX,
            old(self)@.total_bytes + spec_encode_account(account@).len() <= usize::MAX,
        ensures
            final(self).wf(),
            final(self)@.accounts == old(self)@.accounts.insert(pubkey, account@),
            final(self)@.write_version == old(self)@.write_version + 1,
            final(self)@.total_bytes == old(self)@.total_bytes + spec_encode_account(account@).len(),
    {
        account_view_wf(account);
        let serialized = encode_account(account);
        let length = serialized.len() as u64;
        self.write_version = self.write_version + 1;
        let write_version = self.write_version;
        let offset = self.storage.len() as u64;
        let ghost old_storage = self.storage@;
        append_bytes(&mut self.storage, serialized.as_slice());
        let location = AccountLocation { offset, length, write_version };
        let is_new = !index_contains(&self.index, &pubkey);
        let ghost old_idx = index_entries(self.index);
        index_insert(&mut self.index, pubkey, location);
        if is_new {
            self.account_count = self.account_count + 1;
        }
        self.total_bytes = self.total_bytes + length;
        proof {
            let idx = index_entries(self.index);
            let st = self.storage@;
            assert(record_at(st, location) =~= spec_encode_account(account@) + Seq::<u8>::empty());
            lemma_decode_encode(account@, Seq::<u8>::empty());
            assert forall|k: Pubkey| #[trigger] old_idx.contains_key(k) implies record_at(st, old_idx[k])
                == record_at(old_storage, old_idx[k]) by {
                assert(record_at(st, old_idx[k]) =~= record_at(old_storage, old_idx[k]));
            }
            if is_new {
                assert(idx.dom() =~= old_idx.dom().insert(pubkey));
            } else {
                assert(idx.dom() =~= old_idx.dom());
            }
            assert(self@.accounts =~= old(self)@.accounts.insert(pubkey, account@));
        }
    }

    /// The latest account stored under `pubkey`, if any.
    pub fn load(&self, pubkey: &Pubkey) -> (r: Option<Account>)
        requires
            self.wf(),
        ensures
            match r {
                Some(a) => self@.accounts.contains_key(*pubkey) && a@ == self@.accounts[*pubkey],
                None => !self@.accounts.contains_key(*pubkey),
            },
    {
        let location = match index_get(&self.index, pubkey) {
            Some(l) => l,
            None => return None,
        };
        assert(index_entries(self.index).contains_key(*pubkey));
        let storage_len = self.storage.len();
        let start = location.offset as usize;
        let end = start + location.length as usize;
        if end > storage_len {
            return None;
        }
        decode_account(slice_subrange(self.storage.as_slice(), start, end))
    }

    /// Whether an account is stored under `pubkey`.
    pub fn account_exists(&self, pubkey: &Pubkey) -> (b: bool)
        ensures
            b == self@.accounts.contains_key(*pubkey),
    {
        index_contains(&self.index, pubkey)
    }

    /// The number of accounts.
    pub fn account_count(&self) -> (n: u64)
        requires
            self.wf(),
        ensures
            n == self@.accounts.dom().len(),
    {
        assert(self@.accounts.dom() =~= index_entries(self.index).dom());
        self.account_count
    }

    /// The number of bytes logged.
    pub fn total_bytes(&self) -> (n: u64)
        ensures
            n == self@.total_bytes,
    {
        self.total_bytes
    }

    /// The state root: the Merkle root of the account hashes, sorted.
    pub fn compute_state_root(&self) -> (root: StateRoot)
        requires
            self.wf(),
        ensures
            exists|keys: Seq<Pubkey>|
                lists_keys(self@.accounts, keys) && root.0@ == merkle_root(
                    #[trigger] state_leaves(self@.accounts, keys),
                ),
    {
        let keys = index_keys(&self.index);
        assert(self@.accounts.dom() =~= index_entries(self.index).dom());
        let mut hashes: Vec<[u8; 32]> = Vec::new();
        let mut i: usize = 0;
        while i < keys.len()
            invariant
                self.wf(),
                i <= keys@.len(),
                keys@.to_set() == self@.accounts.dom(),
                hashes_view(hashes@) == account_hashes(self@.accounts, keys@.subrange(0, i as int)),
            decreases keys@.len() - i,
        {
            let key = keys[i];
            assert(keys@.to_set().contains(keys@[i as int]));
            let ghost before = hashes@;
            match self.load(&key) {
                Some(account) => {
                    let h = account.hash();
                    hashes.push(h);
                    assert(hashes_view(hashes@) =~= hashes_view(before).push(h@));
                },
                None => {},
            }
            assert(keys@.subrange(0, i + 1) =~= keys@.subrange(0, i as int).push(key));
            assert(account_hashes(self@.accounts, keys@.subrange(0, i + 1)) =~= account_hashes(
                self@.accounts,
                keys@.subrange(0, i as int),
            ).push(spec_account_hash(self@.accounts[key])));
            i = i + 1;
        }
        assert(keys@.subrange(0, keys@.len() as int) =~= keys@);
        let sorted = sort_hashes(&hashes);
        proof {
            let h = account_hashes(self@.accounts, keys@);
            lemma_lex_total_ordering();
            h.lemma_sort_by_ensures(lex_order());
            vstd::seq_lib::lemma_sorted_unique(hashes_view(sorted@), h.sort_by(lex_order()), lex_order());
            assert(leaves_view(sorted@) =~= hashes_view(sorted@));
            assert(lists_keys(self@.accounts, keys@));
        }
        let root = StateRoot::compute(sorted.as_slice());
        assert(root.0@ == merkle_root(state_leaves(self@.accounts, keys@)));
        root
    }

    /// Every key, each once, in the index's order.
    pub fn snapshot_pubkeys(&self) -> (keys: Vec<Pubkey>)
        ensures
            lists_keys(self@.accounts, keys@),
    {
        assert(self@.accounts.dom() =~= index_entries(self.index).dom());
        index_keys(&self.index)
    }

    /// Stores each update in order.
    pub fn apply_batch(&mut self, updates: Vec<(Pubkey, Account)>)
        requires
            old(self).wf(),
            old(self)@.write_version + updates@.len() <= u64::MAX,
            old(self)@.total_bytes + encoded_total(updates@) <= usize::MAX,
        ensures
            final(self).wf(),
            final(self)@.accounts == apply_updates(old(self)@.accounts, updates@),
            final(self)@.write_version == old(self)@.write_version + updates@.len(),
    {
        let mut i: usize = 0;
        while i < updates.len()
            invariant
                self.wf(),
                i <= updates@.len(),
                self@.write_version == old(self)@.write_version + i,
                self@.total_bytes == old(self)@.total_bytes + encoded_total(updates@.subrange(0, i as int)),
                self@.accounts == apply_updates(old(self)@.accounts, updates@.subrange(0, i as int)),
                old(self)@.write_version + updates@.len() <= u64::MAX,
                old(self)@.total_bytes + encoded_total(updates@) <= usize::MAX,
            decreases updates@.len() - i,
        {
            proof {
                lemma_encoded_total_prefix(updates@, i + 1);
                assert(updates@.subrange(0, i + 1).drop_last() =~= updates@.subrange(0, i as int));
            }
            let (pubkey, account) = (updates[i].0, &updates[i].1);
            self.store(pubkey, account);
            i = i + 1;
        }
        assert(updates@.subrange(0, updates@.len() as int) =~= updates@);
    }

    /// Counts for monitoring.
    pub fn stats(&self) -> (s: DBStats)
        requires
            self.wf(),
        ensures
            s.account_count == self@.accounts.dom().len(),
            s.total_bytes == self@.total_bytes,
            s.index_slots == self@.accounts.dom().len(),
            s.write_version == self@.write_version,
    {
        assert(self@.accounts.dom() =~= index_entries(self.index).dom());
        DBStats {
            account_count: self.account_count,
            total_bytes: self.total_bytes,
            index_slots: index_len(&self.index),
            write_version: self.write_version,
        }
    }
}

/// Bytes the encodings of the updates' accounts take.
pub open spec fn encoded_total(updates: Seq<(Pubkey, Account)>) -> int
    decreases updates.len(),
{
    if updates.len() == 0 {
        0
    } else {
        encoded_total(updates.drop_last()) + spec_encode_account(updates.last().1@).len()
    }
}

proof fn lemma_encoded_total_prefix(updates: Seq<(Pubkey, Account)>, k: int)
    requires
        0 <= k <= updates.len(),
    ensures
        encoded_total(updates.subrange(0, k)) <= encoded_total(updates),
    decreases updates.len() - k,
{
    if k < updates.len() {
        lemma_encoded_total_prefix(updates, k + 1);
        assert(updates.subrange(0, k + 1).drop_last() =~= updates.subrange(0, k));
    } else {
        assert(updates.subrange(0, k) =~= updates);
    }
}

/// The accounts after storing each update in order.
pub open spec fn apply_updates(accounts: Map<Pubkey, AccountView>, updates: Seq<(Pubkey, Account)>) -> Map<Pubkey, AccountView>
    decreases updates.len(),
{
    if updates.len() == 0 {
        accounts
    } else {
        apply_updates(accounts, updates.drop_last()).insert(updates.last().0, updates.last().1@)
    }
}

/// Two listings of the same keys give the same multiset of hashes.
proof fn lemma_listing_multiset(accounts: Map<Pubkey, AccountView>, k1: Seq<Pubkey>, k2: Seq<Pubkey>)
    requires
        k1.no_duplicates(),
        k2.no_duplicates(),
        k1.to_set() == k2.to_set(),
    ensures
        account_hashes(accounts, k1).to_multiset() == account_hashes(accounts, k2).to_multiset(),
    decreases k1.len(),
{
    broadcast use vstd::seq_lib::group_to_multiset_ensures;

    if k1.len() == 0 {
        if k2.len() > 0 {
            assert(k2.to_set().contains(k2[0]));
        }
        assert(account_hashes(accounts, k1) =~= account_hashes(accounts, k2));
    } else {
        let x = k1.last();
        assert(k1.to_set().contains(x));
        assert(k2.contains(x));
        let j = choose|j: int| 0 <= j < k2.len() && k2[j] == x;
        let r1 = k1.drop_last();
        let r2 = k2.remove(j);
        assert forall|y: Pubkey| r1.to_set().contains(y) <==> r2.to_set().contains(y) by {
            if r1.to_set().contains(y) {
                let a = choose|a: int| 0 <= a < r1.len() && r1[a] == y;
                assert(k1[a] == y && a != k1.len() - 1);
                assert(y != x);
                assert(k2.to_set().contains(y));
                let b = choose|b: int| 0 <= b < k2.len() && k2[b] == y;
                assert(b != j);
                if b < j {
                    assert(r2[b] == y);
                } else {
                    assert(r2[b - 1] == y);
                }
            }
            if r2.to_set().contains(y) {
                let b = choose|b: int| 0 <= b < r2.len() && r2[b] == y;
                let bb = if b < j { b } else { b + 1 };
                assert(k2[bb] == y && bb != j);
                assert(y != x);
                assert(k1.to_set().contains(y));
                let a = choose|a: int| 0 <= a < k1.len() && k1[a] == y;
                assert(a != k1.len() - 1);
                assert(r1[a] == y);
            }
        }
        assert(r1.to_set() =~= r2.to_set());
        assert(r2.no_duplicates()) by {
            assert forall|a: int, b: int| 0 <= a < r2.len() && 0 <= b < r2.len() && a != b implies r2[a] != r2[b] by {
                let aa = if a < j { a } else { a + 1 };
                let bb = if b < j { b } else { b + 1 };
                assert(r2[a] == k2[aa] && r2[b] == k2[bb]);
            }
        }
        lemma_listing_multiset(accounts, r1, r2);
        let h1 = account_hashes(accounts, k1);
        let h2 = account_hashes(accounts, k2);
        assert(h1 =~= account_hashes(accounts, r1).push(spec_account_hash(accounts[x])));
        assert(account_hashes(accounts, r2) =~= h2.remove(j));
    }
}

/// The state root does not depend on the order in which the keys are listed:
/// every listing of the same accounts gives the same sorted leaves, so two
/// databases holding the same accounts have the same state root.
pub proof fn lemma_state_leaves_unique(accounts: Map<Pubkey, AccountView>, k1: Seq<Pubkey>, k2: Seq<Pubkey>)
    requires
        lists_keys(accounts, k1),
        lists_keys(accounts, k2),
    ensures
        state_leaves(accounts, k1) == state_leaves(accounts, k2),
{
    lemma_listing_multiset(accounts, k1, k2);
    lemma_lex_total_ordering();
    let h1 = account_hashes(accounts, k1);
    let h2 = account_hashes(accounts, k2);
    h1.lemma_sort_by_ensures(lex_order());
    h2.lemma_sort_by_ensures(lex_order());
    vstd::seq_lib::lemma_sorted_unique(h1.sort_by(lex_order()), h2.sort_by(lex_order()), lex_order());
}

/// Storing an account under a key and then loading that key gives the account
/// back; every other key loads what it loaded before.
pub proof fn lemma_load_after_store(
    before: Map<Pubkey, AccountView>,
    after: Map<Pubkey, AccountView>,
    key: Pubkey,
    account: AccountView,
    other: Pubkey,
)
    requires
        after == before.insert(key, account),
    ensures
        after.contains_key(key),
        after[key] == account,
        other != key ==> (after.contains_key(other) == before.contains_key(other)),
        other != key && before.contains_key(other) ==> after[other] == before[other],
{
}

impl Default for AccountsDB {
    fn default() -> (db: Self)
        ensures
            db.wf(),
            db@.accounts == Map::<Pubkey, AccountView>::empty(),
            db@.write_version == 0,
            db@.total_bytes == 0,
    {
        Self::new()
    }
}

/// Database statistics.
#[derive(Debug, Clone, Copy)]
pub struct DBStats {
    pub account_count: u64,
    pub total_bytes: u64,
    pub index_slots: usize,
    pub write_version: u64,
}

/// A database to be shared by reference.
pub type SharedAccountsDB = Arc<AccountsDB>;

/// A new empty database behind a shared reference.
pub fn create_shared_db() -> (db: SharedAccountsDB)
    ensures
        db.wf(),
        db@.accounts == Map::<Pubkey, AccountView>::empty(),
{
    Arc::new(AccountsDB::new())
}

} // verus!
