use solana_validator::poh::chain_verifier::PohVerifier;
use solana_validator::poh::entry::{Entry, EntryData, PohEntry};
use solana_validator::poh::hasher::{PohHash, PohHasher};
use solana_validator::poh::recorder::PohRecorder;
use solana_validator::poh::PohConfig;

#[test]
fn test_hash_deterministic() {
    let seed = PohHash::from_seed("test");
    let mut h1 = PohHasher::new(seed, 0);
    let mut h2 = PohHasher::new(seed, 0);
    let r1 = h1.hash_n(100);
    let r2 = h2.hash_n(100);
    assert_eq!(r1, r2);
}

#[test]
fn test_hash_chain_verification() {
    let seed = PohHash::from_seed("genesis");
    let mut hasher = PohHasher::new(seed, 0);
    let after_100 = hasher.hash_n(100);

    assert!(PohHasher::verify(seed, 100, after_100));
    assert!(!PohHasher::verify(seed, 99, after_100));
    assert!(!PohHasher::verify(seed, 101, after_100));
}

#[test]
fn test_hash_with_mix_in() {
    let seed = PohHash::from_seed("test");
    let mut h1 = PohHasher::new(seed, 0);
    let mut h2 = PohHasher::new(seed, 0);

    h1.hash_n(50);
    h1.hash_with(b"transaction_data");

    h2.hash_n(50);
    h2.hash_with(b"different_data");

    assert_ne!(h1.current(), h2.current());
}

#[test]
fn test_tick_entry() {
    let prev = PohHash::from_seed("prev");
    let entry = PohEntry::tick(prev, 100, 1, 0);
    assert!(entry.verify());
}

#[test]
fn test_transaction_entry() {
    let prev = PohHash::from_seed("prev");
    let entry = PohEntry::transaction(prev, 50, 1, 0, b"transfer 10 SOL".to_vec(), b"sig123".to_vec());
    assert!(entry.verify());
}

#[test]
fn test_entry_hash_deterministic() {
    let prev = PohHash::from_seed("prev");
    let e1 = PohEntry::tick(prev, 42, 5, 3);
    let e2 = PohEntry::tick(prev, 42, 5, 3);
    assert_eq!(e1.hash, e2.hash);
}

#[test]
fn test_entry_verify_rejects_tampered() {
    let prev = PohHash::from_seed("prev");
    let mut entry = PohEntry::tick(prev, 10, 1, 0);
    assert!(entry.verify());

    entry.num_hashes = 99;
    assert!(!entry.verify());
}

#[test]
fn test_chain_linking() {
    let genesis = PohHash::from_seed("genesis");

    let e0 = PohEntry::tick(genesis, 1, 1, 0);
    let e1 = PohEntry::tick(e0.hash, 1, 1, 1);
    let e2 = PohEntry::tick(e1.hash, 1, 1, 2);

    assert_eq!(e0.prev_hash, genesis);
    assert_eq!(e1.prev_hash, e0.hash);
    assert_eq!(e2.prev_hash, e1.hash);

    assert!(e0.verify());
    assert!(e1.verify());
    assert!(e2.verify());
}

#[test]
fn test_block_creation() {
    let parent_hash = PohHash::from_seed("parent");

    let e0 = PohEntry::tick(parent_hash, 10, 1, 0);
    let e1 = PohEntry::tick(e0.hash, 10, 1, 1);

    let block_hash = e1.hash;
    let entries = vec![e0, e1];

    let block = Entry::new(block_hash, 1, parent_hash, entries, 0, 1234567890);
    assert_eq!(block.slot, 1);
    assert_eq!(block.entries.len(), 2);
}

#[test]
fn test_block_verify_poh_chain() {
    let parent_hash = PohHash::from_seed("parent");

    let e0 = PohEntry::tick(parent_hash, 10, 1, 0);
    let e1 = PohEntry::tick(e0.hash, 10, 1, 1);
    let block_hash = e1.hash;

    let block = Entry::new(block_hash, 1, parent_hash, vec![e0, e1], 0, 1234567890);

    assert!(block.verify_poh_chain());
}

#[test]
fn test_recorder_tick() {
    let config = PohConfig::default();
    let genesis = PohHash::from_seed("genesis");

    let mut recorder = PohRecorder::new(config, genesis);
    recorder.record_tick();

    assert_eq!(recorder.tick_height(), 1);
    assert_eq!(recorder.current_entries().len(), 1);
}

#[test]
fn test_recorder_transaction() {
    let config = PohConfig::default();
    let genesis = PohHash::from_seed("genesis");

    let mut recorder = PohRecorder::new(config, genesis);
    recorder.record_transaction(b"transfer".to_vec(), b"sig".to_vec());

    assert_eq!(recorder.current_entries().len(), 1);
}

// The recorder's loop body, run a few times: every tick is a verifiable
// entry linked to the one before.
#[test]
fn test_recorder_loop() {
    let config = PohConfig { hashes_per_tick: 10, target_tick_rate: 100, max_hashes_per_tick: 100 };
    let genesis = PohHash::from_seed("genesis");
    let mut recorder = PohRecorder::new(config, genesis);
    for _ in 0..3 {
        recorder.record_tick();
    }
    let entries = recorder.current_entries();
    assert_eq!(entries.len(), 3);
    assert_eq!(entries[0].prev_hash, genesis);
    for i in 1..3 {
        assert_eq!(entries[i].prev_hash, entries[i - 1].hash);
        assert!(entries[i].verify());
    }
    assert_eq!(recorder.hash_count(), 30);
}

fn make_chained_entries(count: usize, slot: u64) -> Vec<PohEntry> {
    let mut entries = Vec::new();
    let mut prev = PohHash::from_seed(&format!("genesis_{}", slot));
    for i in 0..count {
        let entry = PohEntry::tick(prev, 1, slot, i as u64);
        prev = entry.hash;
        entries.push(entry);
    }
    entries
}

#[test]
fn test_verify_single_tick() {
    let verifier = PohVerifier::new();
    let genesis = PohHash::from_seed("genesis");
    let entry = PohEntry::tick(genesis, 10, 1, 0);
    assert!(verifier.verify_entry(&entry));
}

#[test]
fn test_verify_slot_entries() {
    let verifier = PohVerifier::new();
    let entries = make_chained_entries(5, 1);
    let result = verifier.verify_slot_entries(&entries);
    assert!(result.valid, "Chain should be valid: {:?}", result.errors);
}

#[test]
fn test_verify_block() {
    let verifier = PohVerifier::new();
    let parent_hash = PohHash::from_seed("parent");

    let mut entries = Vec::new();
    let mut prev = parent_hash;
    for i in 0..3 {
        let entry = PohEntry::tick(prev, 1, 1, i);
        prev = entry.hash;
        entries.push(entry);
    }

    let block_hash = entries.last().unwrap().hash;
    let block = Entry::new(block_hash, 1, parent_hash, entries, 0, 1234567890);

    let result = verifier.verify_block(&block);
    assert!(result.valid, "Block should be valid: {:?}", result.errors);
}

#[test]
fn test_chain_link_verification() {
    let verifier = PohVerifier::new();

    let parent = Entry::new(
        PohHash::from_seed("parent_hash"),
        1,
        PohHash::zero(),
        vec![PohEntry::tick(PohHash::from_seed("p_e1"), 1, 1, 0)],
        0,
        1000,
    );

    let child = Entry::new(
        PohHash::from_seed("child_hash"),
        2,
        PohHash::from_seed("parent_hash"),
        vec![PohEntry::tick(PohHash::from_seed("c_e1"), 1, 2, 0)],
        1,
        1400,
    );

    let result = verifier.verify_chain_link(&parent, &child);
    assert!(result.valid, "Chain link should be valid: {:?}", result.errors);
}

// Hashing n steps then m steps is hashing n + m steps.
#[test]
fn poh_chain_composes() {
    let seed = PohHash::from_seed("compose");
    let mut a = PohHasher::new(seed, 0);
    let mid = a.hash_n(7);
    let end = a.hash_n(5);
    assert!(PohHasher::verify(seed, 7, mid));
    assert!(PohHasher::verify(mid, 5, end));
    assert!(PohHasher::verify(seed, 12, end));
    assert_eq!(a.count(), 12);
}

// A broken link between entries is reported.
#[test]
fn slot_entries_with_broken_link_fail() {
    let verifier = PohVerifier::new();
    let mut entries = make_chained_entries(3, 2);
    entries[2] = PohEntry::tick(PohHash::from_seed("elsewhere"), 1, 2, 2);
    let result = verifier.verify_slot_entries(&entries);
    assert!(!result.valid);
    assert!(!result.errors.is_empty());
}

// A tick entry carries no data; a transaction entry carries its bytes.
#[test]
fn entry_payloads() {
    let prev = PohHash::zero();
    let t = PohEntry::tick(prev, 1, 0, 0);
    assert!(matches!(t.data, EntryData::Tick));
    let x = PohEntry::transaction(prev, 1, 0, 1, vec![1, 2], vec![3]);
    match &x.data {
        EntryData::Transactions(txs) => {
            assert_eq!(txs.len(), 1);
            assert_eq!(txs[0].transaction, vec![1, 2]);
            assert_eq!(txs[0].signature, vec![3]);
        }
        _ => panic!("expected a transaction entry"),
    }
}

// Hex of a hash is 64 lowercase digits.
#[test]
fn poh_hash_hex() {
    let h = PohHash::new([0xffu8; 32]);
    assert_eq!(h.to_hex(), "ff".repeat(32));
    assert_eq!(PohHash::zero().as_bytes(), &[0u8; 32]);
}
