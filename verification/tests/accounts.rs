use solana_validator::accounts::account::{
    decode_account, encode_account, random_pubkey, system_program_id, Account, AccountData,
};
use solana_validator::accounts::merkle::StateRoot;
use solana_validator::accounts::store::AccountsDB;
use sha2::{Digest, Sha256};

#[test]
fn test_system_account() {
    let key = random_pubkey();
    let acc = Account::new_system_account(key, 1_000_000_000);
    assert_eq!(acc.lamports, 1_000_000_000);
    assert!(!acc.executable);
    assert_eq!(acc.owner, system_program_id());
}

#[test]
fn test_account_hash_deterministic() {
    let key = random_pubkey();
    let acc1 = Account::new_system_account(key, 500);
    let acc2 = Account::new_system_account(key, 500);
    assert_eq!(acc1.hash(), acc2.hash());
}

#[test]
fn test_account_hash_changes_with_balance() {
    let key = random_pubkey();
    let acc1 = Account::new_system_account(key, 100);
    let acc2 = Account::new_system_account(key, 200);
    assert_ne!(acc1.hash(), acc2.hash());
}

#[test]
fn test_token_account() {
    let key = random_pubkey();
    let mint = random_pubkey();
    let authority = random_pubkey();
    let acc = Account::new_token_account(key, mint, authority, 1000);

    if let AccountData::Token { mint: m, authority: a, amount } = &acc.data {
        assert_eq!(*m, mint);
        assert_eq!(*a, authority);
        assert_eq!(*amount, 1000);
    } else {
        panic!("Expected token account data");
    }
}

#[test]
fn test_empty_root() {
    let root = StateRoot::compute(&[]);
    assert_eq!(root.0, [0u8; 32]);
}

#[test]
fn test_single_element() {
    let hash = [1u8; 32];
    let root = StateRoot::compute(&[hash]);
    assert_eq!(root.0, hash);
}

#[test]
fn test_two_elements() {
    let h1 = [1u8; 32];
    let h2 = [2u8; 32];

    let root = StateRoot::compute(&[h1, h2]);

    let mut hasher = Sha256::new();
    hasher.update(h1);
    hasher.update(h2);
    let expected: [u8; 32] = hasher.finalize().into();

    assert_eq!(root.0, expected);
}

fn numbered_hashes(n: u8) -> Vec<[u8; 32]> {
    (0..n)
        .map(|i| {
            let mut h = [0u8; 32];
            h[0] = i;
            h
        })
        .collect()
}

#[test]
fn test_deterministic() {
    let hashes = numbered_hashes(10);
    let root1 = StateRoot::compute(&hashes);
    let root2 = StateRoot::compute(&hashes);
    assert_eq!(root1, root2);
}

#[test]
fn test_merkle_proof() {
    let hashes = numbered_hashes(8);
    let root = StateRoot::compute(&hashes);
    for i in 0..hashes.len() {
        let proof = StateRoot::prove(&hashes, i);
        assert!(proof.verify(&root), "Proof for index {} should verify", i);
    }
}

#[test]
fn test_proof_fails_with_wrong_root() {
    let hashes = numbered_hashes(4);
    let proof = StateRoot::prove(&hashes, 0);
    let wrong_root = StateRoot([99u8; 32]);
    assert!(!proof.verify(&wrong_root));
}

#[test]
fn test_store_and_load() {
    let mut db = AccountsDB::new();
    let key = random_pubkey();
    let acc = Account::new_system_account(key, 1_000_000);

    db.store(key, &acc);
    let loaded = db.load(&key).unwrap();

    assert_eq!(loaded.lamports, 1_000_000);
    assert_eq!(loaded.owner, system_program_id());
}

#[test]
fn test_update_account() {
    let mut db = AccountsDB::new();
    let key = random_pubkey();

    let acc1 = Account::new_system_account(key, 100);
    db.store(key, &acc1);

    let acc2 = Account::new_system_account(key, 200);
    db.store(key, &acc2);

    let loaded = db.load(&key).unwrap();
    assert_eq!(loaded.lamports, 200);
    assert_eq!(db.account_count(), 1);
}

#[test]
fn test_batch_apply() {
    let mut db = AccountsDB::new();
    let mut updates = Vec::new();
    for i in 0..10u8 {
        let mut key = [7u8; 32];
        key[0] = i;
        let acc = Account::new_system_account(key, 500);
        updates.push((key, acc));
    }
    db.apply_batch(updates);
    assert_eq!(db.account_count(), 10);
}

#[test]
fn test_state_root_deterministic() {
    let mut db1 = AccountsDB::new();
    let mut db2 = AccountsDB::new();

    let key = random_pubkey();
    let acc = Account::new_system_account(key, 1000);

    db1.store(key, &acc);
    db2.store(key, &acc);

    assert_eq!(db1.compute_state_root(), db2.compute_state_root());
}

#[test]
fn test_stats() {
    let mut db = AccountsDB::new();
    let key = random_pubkey();
    let acc = Account::new_system_account(key, 500);
    db.store(key, &acc);

    let stats = db.stats();
    assert_eq!(stats.account_count, 1);
    assert!(stats.total_bytes > 0);
}

// A read after a write gives back what was written, and other keys keep theirs.
#[test]
fn load_after_store_returns_written_account() {
    let mut db = AccountsDB::new();
    let a = [1u8; 32];
    let b = [2u8; 32];
    db.store(a, &Account::new_system_account(a, 5));
    db.store(b, &Account::new_system_account(b, 6));
    db.store(a, &Account::new_token_account(a, [3u8; 32], [4u8; 32], 77));
    let la = db.load(&a).unwrap();
    match la.data {
        AccountData::Token { amount, .. } => assert_eq!(amount, 77),
        _ => panic!("expected a token account"),
    }
    assert_eq!(db.load(&b).unwrap().lamports, 6);
    assert!(db.load(&[9u8; 32]).is_none());
    assert!(db.account_exists(&a));
    assert!(!db.account_exists(&[9u8; 32]));
}

// Encoding then decoding an account gives it back.
#[test]
fn account_codec_roundtrip() {
    let acc = Account::new_program_account([5u8; 32], [6u8; 32], vec![1, 2, 3, 4]);
    let bytes = encode_account(&acc);
    let back = decode_account(&bytes).unwrap();
    assert_eq!(back.lamports, acc.lamports);
    assert_eq!(back.owner, acc.owner);
    assert_eq!(back.executable, acc.executable);
    match back.data {
        AccountData::Program(code) => assert_eq!(code, vec![1, 2, 3, 4]),
        _ => panic!("expected program data"),
    }
    assert!(decode_account(&bytes[..bytes.len() - 1]).is_none());
}

// The root of three leaves pairs the first two and carries the third up.
#[test]
fn merkle_root_of_three_leaves() {
    let h = numbered_hashes(3);
    let pair = |a: &[u8; 32], b: &[u8; 32]| -> [u8; 32] {
        let mut hasher = Sha256::new();
        hasher.update(a);
        hasher.update(b);
        hasher.finalize().into()
    };
    let left = pair(&h[0], &h[1]);
    let expected = pair(&left, &h[2]);
    assert_eq!(StateRoot::compute(&h).0, expected);
    let root = StateRoot::compute(&h);
    for i in 0..3 {
        assert!(StateRoot::prove(&h, i).verify(&root));
    }
}

// The hex text of a root is its bytes in lowercase hex.
#[test]
fn state_root_hex() {
    let mut b = [0u8; 32];
    b[0] = 0xab;
    b[31] = 0x01;
    let s = StateRoot(b).to_hex();
    assert_eq!(s.len(), 64);
    assert!(s.starts_with("ab00"));
    assert!(s.ends_with("01"));
}
