use solana_validator::accounts::account::{Account, Pubkey};
use solana_validator::accounts::store::AccountsDB;
use solana_validator::tx_processor::executor::Executor;
use solana_validator::tx_processor::scheduler::{ExecutionBatch, Scheduler};
use solana_validator::tx_processor::transaction::{AccountMeta, Instruction, Transaction, TransactionError};

fn test_signer() -> Pubkey {
    let mut key = [0u8; 32];
    key[0] = 42;
    key
}

fn test_program() -> Pubkey {
    let mut key = [0u8; 32];
    key[0] = 1;
    key
}

#[test]
fn test_create_transaction() {
    let signer = test_signer();
    let program = test_program();

    let ix = Instruction {
        program_id: program,
        accounts: vec![
            AccountMeta { index: 0, is_signer: true, is_writable: true },
            AccountMeta { index: 1, is_signer: false, is_writable: true },
        ],
        data: b"transfer 100".to_vec(),
    };

    let tx = Transaction::new(signer, vec![ix], [0u8; 32]);
    assert_eq!(tx.instructions.len(), 1);
    assert_eq!(tx.fee, 5000);
}

#[test]
fn test_transaction_hash_deterministic() {
    let signer = test_signer();
    let program = test_program();

    let ix = Instruction { program_id: program, accounts: vec![], data: b"test".to_vec() };

    let tx1 = Transaction::new(signer, vec![ix.clone()], [1u8; 32]);
    let tx2 = Transaction::new(signer, vec![ix], [1u8; 32]);

    assert_eq!(tx1.hash(), tx2.hash());
}

#[test]
fn test_conflict_detection() {
    let signer = test_signer();
    let program = test_program();

    let ix1 = Instruction {
        program_id: program,
        accounts: vec![AccountMeta { index: 0, is_signer: true, is_writable: true }],
        data: vec![],
    };
    let ix2 = Instruction {
        program_id: program,
        accounts: vec![AccountMeta { index: 0, is_signer: false, is_writable: false }],
        data: vec![],
    };

    let tx1 = Transaction::new(signer, vec![ix1], [0u8; 32]);
    let tx2 = Transaction::new(signer, vec![ix2], [0u8; 32]);

    assert!(tx1.conflicts_with(&tx2));
}

#[test]
fn test_no_conflict() {
    let signer = test_signer();
    let program = test_program();

    let ix1 = Instruction {
        program_id: program,
        accounts: vec![AccountMeta { index: 0, is_signer: true, is_writable: true }],
        data: vec![],
    };
    let ix2 = Instruction {
        program_id: program,
        accounts: vec![AccountMeta { index: 1, is_signer: true, is_writable: true }],
        data: vec![],
    };

    let tx1 = Transaction::new(signer, vec![ix1], [0u8; 32]);
    let tx2 = Transaction::new(signer, vec![ix2], [0u8; 32]);

    assert!(!tx1.conflicts_with(&tx2));
}

#[test]
fn test_validation() {
    let signer = test_signer();

    let tx = Transaction::new(signer, vec![], [0u8; 32]);
    assert!(tx.validate().is_err());

    let ix = Instruction { program_id: test_program(), accounts: vec![], data: vec![] };
    let tx = Transaction::new(signer, vec![ix], [0u8; 32]);
    assert!(tx.validate().is_ok());
}

fn make_tx(read_accounts: Vec<u8>, write_accounts: Vec<u8>) -> Transaction {
    let program = [1u8; 32];
    let signer = [2u8; 32];

    let mut accounts = Vec::new();
    for i in read_accounts {
        accounts.push(AccountMeta { index: i, is_signer: false, is_writable: false });
    }
    for i in write_accounts {
        accounts.push(AccountMeta { index: i, is_signer: i == 0, is_writable: true });
    }

    let ix = Instruction { program_id: program, accounts, data: vec![] };
    Transaction::new(signer, vec![ix], [0u8; 32])
}

#[test]
fn test_parallel_no_conflict() {
    let mut scheduler = Scheduler::new(10, 1_000_000);

    scheduler.enqueue(make_tx(vec![], vec![0]));
    scheduler.enqueue(make_tx(vec![], vec![1]));
    scheduler.enqueue(make_tx(vec![], vec![2]));

    scheduler.schedule();

    let batch = scheduler.next_batch().unwrap();
    assert_eq!(batch.transactions.len(), 3);
}

#[test]
fn test_conflict_separates_batches() {
    let mut scheduler = Scheduler::new(10, 1_000_000);

    scheduler.enqueue(make_tx(vec![], vec![0]));
    scheduler.enqueue(make_tx(vec![], vec![0]));

    scheduler.schedule();

    assert_eq!(scheduler.batch_count(), 2);
}

#[test]
fn test_read_write_conflict() {
    let mut scheduler = Scheduler::new(10, 1_000_000);

    scheduler.enqueue(make_tx(vec![], vec![0]));
    scheduler.enqueue(make_tx(vec![0], vec![]));

    scheduler.schedule();

    assert_eq!(scheduler.batch_count(), 2);
}

#[test]
fn test_no_read_read_conflict() {
    let mut scheduler = Scheduler::new(10, 1_000_000);

    scheduler.enqueue(make_tx(vec![0], vec![]));
    scheduler.enqueue(make_tx(vec![0], vec![]));

    scheduler.schedule();

    let batch = scheduler.next_batch().unwrap();
    assert_eq!(batch.transactions.len(), 2);
}

fn signed_tx(signer: Pubkey) -> Transaction {
    let ix = Instruction {
        program_id: test_program(),
        accounts: vec![AccountMeta { index: 0, is_signer: true, is_writable: true }],
        data: b"transfer".to_vec(),
    };
    let mut tx = Transaction::new(signer, vec![ix], [0u8; 32]);
    tx.signature = vec![1u8; 64];
    tx
}

#[test]
fn test_execute_system_transfer() {
    let mut db = AccountsDB::new();
    let signer = test_signer();
    let signer_acc = Account::new_system_account(signer, 10_000_000);
    db.store(signer, &signer_acc);
    let mut executor = Executor::new(db);

    let tx = signed_tx(signer);

    let result = executor.execute_transaction(&tx);
    assert!(result.success, "Transaction should succeed");
    assert!(result.compute_units_consumed > 0);
}

#[test]
fn test_execute_invalid_transaction() {
    let mut executor = Executor::new(AccountsDB::new());

    let signer = test_signer();
    let tx = Transaction::new(signer, vec![], [0u8; 32]);

    let result = executor.execute_transaction(&tx);
    assert!(!result.success);
}

#[test]
fn test_execute_batch() {
    let mut db = AccountsDB::new();
    let signer = test_signer();
    let signer_acc = Account::new_system_account(signer, 10_000_000);
    db.store(signer, &signer_acc);
    let mut executor = Executor::new(db);

    let mut txs = Vec::new();
    for _ in 0..3 {
        let ix = Instruction {
            program_id: test_program(),
            accounts: vec![AccountMeta { index: 0, is_signer: true, is_writable: true }],
            data: vec![],
        };
        let mut tx = Transaction::new(signer, vec![ix], [0u8; 32]);
        tx.signature = vec![1u8; 64];
        txs.push(tx);
    }

    let batch = ExecutionBatch { index: 0, transactions: txs, total_compute: 600_000 };

    let results = executor.execute_batch(&batch);
    assert_eq!(results.len(), 3);
    assert!(results.iter().all(|r| r.success));
}

// No two transactions of a batch conflict, and every queued transaction
// lands in exactly one batch, in queue order.
#[test]
fn schedule_batches_are_conflict_free_and_complete() {
    let mut scheduler = Scheduler::new(2, 1_000_000);
    scheduler.enqueue(make_tx(vec![], vec![0]));
    scheduler.enqueue(make_tx(vec![0], vec![]));
    scheduler.enqueue(make_tx(vec![], vec![1]));
    scheduler.enqueue(make_tx(vec![], vec![2]));
    scheduler.enqueue(make_tx(vec![2], vec![]));
    scheduler.schedule();
    assert_eq!(scheduler.pending_count(), 0);
    let mut seen = 0;
    while let Some(batch) = scheduler.next_batch() {
        assert!(batch.transactions.len() <= 2);
        for i in 0..batch.transactions.len() {
            for j in (i + 1)..batch.transactions.len() {
                assert!(!batch.transactions[i].conflicts_with(&batch.transactions[j]));
            }
        }
        seen += batch.transactions.len();
    }
    assert_eq!(seen, 5);
    assert!(scheduler.is_idle());
}

// Queued transactions can be counted and taken back unscheduled.
#[test]
fn scheduler_counts_and_drain() {
    let mut scheduler = Scheduler::default_solana();
    scheduler.enqueue_batch(vec![make_tx(vec![], vec![0]), make_tx(vec![], vec![1])]);
    assert_eq!(scheduler.pending_count(), 2);
    let drained = scheduler.drain_remaining();
    assert_eq!(drained.len(), 2);
    assert_eq!(scheduler.pending_count(), 0);
}

// A transaction without a signature is refused before anything runs.
#[test]
fn unsigned_transaction_fails() {
    let mut db = AccountsDB::new();
    let signer = test_signer();
    db.store(signer, &Account::new_system_account(signer, 10_000_000));
    let mut executor = Executor::new(db);
    let ix = Instruction { program_id: test_program(), accounts: vec![], data: vec![] };
    let tx = Transaction::new(signer, vec![ix], [0u8; 32]);
    let result = executor.execute_transaction(&tx);
    assert!(!result.success);
    assert_eq!(result.compute_units_consumed, 0);
}

// The error variants describe themselves.
#[test]
fn transaction_error_texts() {
    assert_eq!(TransactionError::AccountNotFound(3).display_text(), "Account 3 not found");
    assert_eq!(TransactionError::NoInstructions.display_text(), "No instructions");
    assert_eq!(TransactionError::InvalidSignature.display_text(), "Invalid signature");
}
