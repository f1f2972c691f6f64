use solana_validator::accounts::account::{Account, AccountData, Pubkey};
use solana_validator::accounts::store::AccountsDB;
use solana_validator::program_executor::instruction::{AccountMeta, Instruction, SystemInstruction, TokenInstruction};
use solana_validator::program_executor::processor::{ComputeBudget, InstructionProcessor};
use solana_validator::program_executor::system_program::{get_account_key, index_key, process_instruction};
use solana_validator::program_executor::token_program::{process_burn, process_mint_to, process_token_transfer};
use solana_validator::program_executor::{InstructionError, DEFAULT_COMPUTE_UNITS, MAX_COMPUTE_UNITS};

#[test]
fn test_system_transfer_roundtrip() {
    let ix = SystemInstruction::Transfer { lamports: 1_000_000 };
    let data = ix.to_data();
    let decoded = SystemInstruction::from_data(&data).unwrap();
    match decoded {
        SystemInstruction::Transfer { lamports } => assert_eq!(lamports, 1_000_000),
        _ => panic!("Wrong variant"),
    }
}

#[test]
fn test_system_create_account_roundtrip() {
    let owner = [42u8; 32];
    let ix = SystemInstruction::CreateAccount { lamports: 500, space: 1024, owner };
    let data = ix.to_data();
    let decoded = SystemInstruction::from_data(&data).unwrap();
    match decoded {
        SystemInstruction::CreateAccount { lamports, space, owner: o } => {
            assert_eq!(lamports, 500);
            assert_eq!(space, 1024);
            assert_eq!(o, owner);
        }
        _ => panic!("Wrong variant"),
    }
}

#[test]
fn test_token_transfer_roundtrip() {
    let ix = TokenInstruction::Transfer { amount: 42 };
    let data = ix.to_data();
    let decoded = TokenInstruction::from_data(&data).unwrap();
    match decoded {
        TokenInstruction::Transfer { amount } => assert_eq!(amount, 42),
        _ => panic!("Wrong variant"),
    }
}

#[test]
fn test_invalid_instruction_data() {
    let result = SystemInstruction::from_data(&[]);
    assert!(result.is_err());
}

#[test]
fn test_account_meta_constructors() {
    let m = AccountMeta::new(0, true, true);
    assert!(m.is_signer);
    assert!(m.is_writable);

    let r = AccountMeta::readonly(1);
    assert!(!r.is_signer);
    assert!(!r.is_writable);
}

#[test]
fn test_instruction_error_display() {
    let err = InstructionError::InsufficientFunds { needed: 1000, available: 500 };
    assert!(err.display_text().contains("1000"));
    assert!(err.display_text().contains("500"));
}

#[test]
fn lib_test_compute_budget() {
    assert!(MAX_COMPUTE_UNITS > DEFAULT_COMPUTE_UNITS);
    assert!(DEFAULT_COMPUTE_UNITS > 0);
}

fn test_processor() -> InstructionProcessor {
    let mut accounts = AccountsDB::new();
    let system_acc = Account::new_system_account([1u8; 32], 0);
    accounts.store([1u8; 32], &system_acc);
    InstructionProcessor::new(accounts)
}

#[test]
fn test_process_instruction_dispatches_system_program() {
    let mut processor = test_processor();
    let signer = [42u8; 32];
    let signer_acc = Account::new_system_account(signer, 10_000_000);
    processor.accounts_mut().store(signer, &signer_acc);

    let system_prog = [1u8; 32];
    let ix = Instruction {
        program_id: system_prog,
        account_metas: vec![],
        data: SystemInstruction::Transfer { lamports: 100 }.to_data(),
    };

    let result = processor.process_instruction(&ix, &signer);
    assert!(!result.success);
    assert!(result.compute_units_consumed > 0);
    assert!(matches!(result.error, Some(InstructionError::InvalidInstructionData(_))));
}

#[test]
fn test_process_unknown_program() {
    let mut processor = test_processor();
    let signer = [42u8; 32];

    let ix = Instruction { program_id: [99u8; 32], account_metas: vec![], data: vec![] };

    let result = processor.process_instruction(&ix, &signer);
    assert!(!result.success);
}

#[test]
fn processor_test_compute_budget() {
    let mut budget = ComputeBudget::new(1000);
    assert_eq!(budget.remaining(), 1000);

    budget.consume(300).unwrap();
    assert_eq!(budget.remaining(), 700);

    assert!(budget.consume(800).is_err());
}

fn test_accounts() -> AccountsDB {
    let mut db = AccountsDB::new();
    db.store([1u8; 32], &Account::new_system_account([1u8; 32], 0));
    db
}

#[test]
fn test_transfer() {
    let mut accounts = test_accounts();
    let mut budget = ComputeBudget::new(10_000);
    let mut logs = Vec::new();

    let from_key = get_account_key(0).unwrap();
    let from_acc = Account::new_system_account(from_key, 1_000_000);
    accounts.store(from_key, &from_acc);

    let to_key = get_account_key(1).unwrap();
    let to_acc = Account::new_system_account(to_key, 0);
    accounts.store(to_key, &to_acc);

    let metas = vec![AccountMeta::new(0, true, true), AccountMeta::new(1, false, true)];

    let result = process_instruction(
        &SystemInstruction::Transfer { lamports: 500 }.to_data(),
        &metas,
        &from_key,
        &mut accounts,
        &mut budget,
        &mut logs,
    );

    assert!(result.is_ok());
    assert_eq!(accounts.load(&from_key).unwrap().lamports, 999_500);
    assert_eq!(accounts.load(&to_key).unwrap().lamports, 500);
}

#[test]
fn test_insufficient_funds() {
    let mut accounts = test_accounts();
    let mut budget = ComputeBudget::new(10_000);
    let mut logs = Vec::new();

    let from_key = get_account_key(0).unwrap();
    let from_acc = Account::new_system_account(from_key, 100);
    accounts.store(from_key, &from_acc);

    let to_key = get_account_key(1).unwrap();
    let to_acc = Account::new_system_account(to_key, 0);
    accounts.store(to_key, &to_acc);

    let metas = vec![AccountMeta::new(0, true, true), AccountMeta::new(1, false, true)];

    let result = process_instruction(
        &SystemInstruction::Transfer { lamports: 200 }.to_data(),
        &metas,
        &from_key,
        &mut accounts,
        &mut budget,
        &mut logs,
    );

    assert!(result.is_err());
    match result {
        Err(InstructionError::InsufficientFunds { needed, available }) => {
            assert_eq!(needed, 200);
            assert_eq!(available, 100);
        }
        _ => panic!("Expected InsufficientFunds"),
    }
}

#[test]
fn test_create_account() {
    let mut accounts = test_accounts();
    let mut budget = ComputeBudget::new(10_000);
    let mut logs = Vec::new();

    let payer_key = get_account_key(0).unwrap();
    let payer_acc = Account::new_system_account(payer_key, 10_000_000);
    accounts.store(payer_key, &payer_acc);

    let new_key = get_account_key(1).unwrap();

    let metas = vec![AccountMeta::new(0, true, true), AccountMeta::new(1, false, true)];

    let result = process_instruction(
        &SystemInstruction::CreateAccount { lamports: 1_000_000, space: 1024, owner: [42u8; 32] }.to_data(),
        &metas,
        &payer_key,
        &mut accounts,
        &mut budget,
        &mut logs,
    );

    assert!(result.is_ok());

    let new_account = accounts.load(&new_key).unwrap();
    assert_eq!(new_account.lamports, 1_000_000);
    assert_eq!(new_account.owner, [42u8; 32]);
}

fn setup_token_account(accounts: &mut AccountsDB, index: usize, amount: u64) -> Pubkey {
    let key = index_key(0xFE, index);
    let acc = Account {
        lamports: 1_000_000,
        owner: [2u8; 32],
        executable: false,
        rent_epoch: 0,
        data: AccountData::Token { mint: [10u8; 32], authority: key, amount },
    };
    accounts.store(key, &acc);
    key
}

fn token_amount(accounts: &AccountsDB, key: &Pubkey) -> u64 {
    match accounts.load(key).unwrap().data {
        AccountData::Token { amount, .. } => amount,
        _ => panic!("expected a token account"),
    }
}

#[test]
fn test_token_transfer() {
    let mut accounts = AccountsDB::new();
    let mut budget = ComputeBudget::new(10_000);
    let mut logs = Vec::new();

    let from_key = setup_token_account(&mut accounts, 0, 1000);
    let to_key = setup_token_account(&mut accounts, 1, 0);

    let metas = vec![AccountMeta::new(0, true, true), AccountMeta::new(1, false, true)];

    let result = process_token_transfer(500, &metas, &from_key, &mut accounts, &mut budget, &mut logs);

    assert!(result.is_ok());
    assert_eq!(token_amount(&accounts, &from_key), 500);
    assert_eq!(token_amount(&accounts, &to_key), 500);
}

#[test]
fn test_token_insufficient_balance() {
    let mut accounts = AccountsDB::new();
    let mut budget = ComputeBudget::new(10_000);
    let mut logs = Vec::new();

    let from_key = setup_token_account(&mut accounts, 0, 100);
    let _to_key = setup_token_account(&mut accounts, 1, 0);

    let metas = vec![AccountMeta::new(0, true, true), AccountMeta::new(1, false, true)];

    let result = process_token_transfer(200, &metas, &from_key, &mut accounts, &mut budget, &mut logs);

    assert!(result.is_err());
}

#[test]
fn test_mint_to() {
    let mut accounts = AccountsDB::new();
    let mut budget = ComputeBudget::new(10_000);
    let mut logs = Vec::new();

    let mint_key = setup_token_account(&mut accounts, 0, 0);
    let metas = vec![AccountMeta::new(0, true, true)];

    let result = process_mint_to(1000, &metas, &mint_key, &mut accounts, &mut budget, &mut logs);

    assert!(result.is_ok());
    assert_eq!(token_amount(&accounts, &mint_key), 1000);
}

#[test]
fn test_burn() {
    let mut accounts = AccountsDB::new();
    let mut budget = ComputeBudget::new(10_000);
    let mut logs = Vec::new();

    let token_key = setup_token_account(&mut accounts, 0, 500);
    let metas = vec![AccountMeta::new(0, true, true)];

    let result = process_burn(200, &metas, &token_key, &mut accounts, &mut budget, &mut logs);

    assert!(result.is_ok());
    assert_eq!(token_amount(&accounts, &token_key), 300);
}

// A transfer moves lamports without creating or destroying any.
#[test]
fn transfer_conserves_lamports() {
    let mut accounts = test_accounts();
    let mut budget = ComputeBudget::new(10_000);
    let mut logs = Vec::new();
    let a = get_account_key(0).unwrap();
    let b = get_account_key(1).unwrap();
    accounts.store(a, &Account::new_system_account(a, 7_000));
    accounts.store(b, &Account::new_system_account(b, 3_000));
    let metas = vec![AccountMeta::new(0, true, true), AccountMeta::new(1, false, true)];
    process_instruction(
        &SystemInstruction::Transfer { lamports: 2_500 }.to_data(),
        &metas,
        &a,
        &mut accounts,
        &mut budget,
        &mut logs,
    )
    .unwrap();
    let total = accounts.load(&a).unwrap().lamports + accounts.load(&b).unwrap().lamports;
    assert_eq!(total, 10_000);
}

// A token transfer keeps the total of the two balances.
#[test]
fn token_transfer_conserves_amount() {
    let mut accounts = AccountsDB::new();
    let mut budget = ComputeBudget::new(10_000);
    let mut logs = Vec::new();
    let a = setup_token_account(&mut accounts, 0, 900);
    let b = setup_token_account(&mut accounts, 1, 100);
    let metas = vec![AccountMeta::new(0, true, true), AccountMeta::new(1, false, true)];
    process_token_transfer(350, &metas, &a, &mut accounts, &mut budget, &mut logs).unwrap();
    assert_eq!(token_amount(&accounts, &a), 550);
    assert_eq!(token_amount(&accounts, &b), 450);
}

// Running out of compute units is reported as such.
#[test]
fn compute_budget_exhaustion() {
    let mut budget = ComputeBudget::new(100);
    let err = budget.consume(101).unwrap_err();
    assert!(matches!(err, InstructionError::InsufficientComputeUnits));
    assert_eq!(budget.remaining(), 0);
}

// Every error variant has its own text.
#[test]
fn instruction_error_texts() {
    assert_eq!(InstructionError::AccountNotFound.display_text(), "Account not found");
    assert_eq!(InstructionError::AccountNotWritable.display_text(), "Account not writable");
    assert_eq!(InstructionError::InvalidAccountOwner.display_text(), "Invalid account owner");
    assert_eq!(InstructionError::ArithmeticOverflow.display_text(), "Arithmetic overflow");
    assert_eq!(InstructionError::InsufficientComputeUnits.display_text(), "Insufficient compute units");
    assert_eq!(
        InstructionError::InvalidInstructionData("x".to_string()).display_text(),
        "Invalid instruction data: x"
    );
    assert_eq!(InstructionError::ProgramError("y".to_string()).display_text(), "Program error: y");
    assert_eq!(InstructionError::Custom(7, "z".to_string()).display_text(), "Custom error 7: z");
}

// Unknown instruction tags are refused.
#[test]
fn unknown_token_instruction_tag() {
    assert!(TokenInstruction::from_data(&[200]).is_err());
    assert!(SystemInstruction::from_data(&[9]).is_err());
}
