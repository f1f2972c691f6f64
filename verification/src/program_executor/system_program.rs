//! The system program: lamport transfers, account creation, and assignment
//! of accounts to programs.

use crate::accounts::account::{
    spec_encode_account, spec_system_program_id, Account, AccountData, AccountDataView,
    AccountView, Pubkey,
};
use crate::accounts::store::{record_len, AccountsDB, AccountsDBView};
use crate::crypto::{hex_encode, hex_lower};
use crate::program_executor::instruction::{
    spec_system_from_data, system_data_overruns, AccountMeta, SystemInstruction,
    SystemInstructionView,
};
use crate::program_executor::processor::ComputeBudget;
use crate::program_executor::{failure_of, Failure, InstructionError};
use vstd::array::{spec_array_fill_for_copy_type, spec_array_update};
use vstd::bytes::lemma_auto_spec_u64_to_from_le_bytes;
use vstd::prelude::*;
use vstd::slice::slice_subrange;
use vstd::string::StringExecFns;

verus! {

/// Minimum rent-exempt balance for a new account.
pub const MINIMUM_RENT_EXEMPT_BALANCE: u64 = 890_880;

/// The key standing for account `index`: tag byte, then `index + 1` (mod
/// 256), then zeros.
pub open spec fn spec_index_key(tag: u8, index: usize) -> Pubkey {
    spec_array_update(
        spec_array_update(spec_array_fill_for_copy_type::<u8, 32>(0u8), 0, tag),
        1,
        ((index + 1) % 256) as u8,
    )
}

/// The system program's key for account `index`.
pub open spec fn spec_account_key(index: usize) -> Pubkey {
    spec_index_key(0xFF, index)
}

/// The key for account `index` with the given tag byte.
pub fn index_key(tag: u8, index: usize) -> (key: Pubkey)
    requires
        index < usize::MAX,
    ensures
        key == spec_index_key(tag, index),
{
    broadcast use vstd::array::group_array_axioms;

    let mut key = [0u8; 32];
    key[0] = tag;
    key[1] = ((index + 1) % 256) as u8;
    assert(key =~= spec_index_key(tag, index));
    key
}

/// The key for account `index` (derived from the index; always succeeds).
pub fn get_account_key(index: usize) -> (r: Result<Pubkey, InstructionError>)
    requires
        index < usize::MAX,
    ensures
        r == Ok::<Pubkey, InstructionError>(spec_account_key(index)),
{
    Ok(index_key(0xFF, index))
}

/// A fresh system account with `lamports`.
pub open spec fn system_account_view(lamports: u64) -> AccountView {
    AccountView {
        lamports,
        owner: spec_system_program_id(),
        executable: false,
        rent_epoch: 0,
        data: AccountDataView::System,
    }
}

/// The account with its balance replaced.
pub open spec fn with_lamports(a: AccountView, lamports: u64) -> AccountView {
    AccountView { lamports, ..a }
}

/// The account under `key`, or a fresh empty system account.
pub open spec fn account_or_new(accounts: Map<Pubkey, AccountView>, key: Pubkey) -> AccountView {
    if accounts.contains_key(key) {
        accounts[key]
    } else {
        system_account_view(0)
    }
}

/// The length of the record that would store the account under `key`, or a
/// fresh system account.
pub open spec fn record_len_at(accounts: Map<Pubkey, AccountView>, key: Pubkey) -> int {
    record_len(account_or_new(accounts, key))
}

/// Whether `meta` names `signer` or is marked as a signer.
pub open spec fn signed(key: Pubkey, meta: AccountMeta, signer: Pubkey) -> bool {
    key == signer || meta.is_signer
}

/// The transfer of `lamports` from account 0 to account 1.
pub open spec fn spec_transfer(
    accounts: Map<Pubkey, AccountView>,
    lamports: u64,
    metas: Seq<AccountMeta>,
    signer: Pubkey,
) -> Result<Map<Pubkey, AccountView>, Failure> {
    if metas.len() < 2 {
        Err(Failure::InvalidData)
    } else {
        let from = spec_account_key(metas[0].index);
        if !signed(from, metas[0], signer) {
            Err(Failure::ProgramRefused)
        } else if !accounts.contains_key(from) {
            Err(Failure::AccountNotFound)
        } else if accounts[from].lamports < lamports {
            Err(Failure::Funds { needed: lamports, available: accounts[from].lamports })
        } else {
            let to = spec_account_key(metas[1].index);
            let a1 = accounts.insert(from, with_lamports(accounts[from], (accounts[from].lamports - lamports) as u64));
            let t = account_or_new(a1, to);
            Ok(a1.insert(to, with_lamports(t, (t.lamports + lamports) as u64)))
        }
    }
}

/// The balance credited by a transfer fits.
pub open spec fn transfer_fits(
    accounts: Map<Pubkey, AccountView>,
    lamports: u64,
    metas: Seq<AccountMeta>,
) -> bool {
    metas.len() >= 2 && accounts.contains_key(spec_account_key(metas[0].index))
        && accounts[spec_account_key(metas[0].index)].lamports >= lamports ==> {
        let from = spec_account_key(metas[0].index);
        let a1 = accounts.insert(from, with_lamports(accounts[from], (accounts[from].lamports - lamports) as u64));
        account_or_new(a1, spec_account_key(metas[1].index)).lamports + lamports <= u64::MAX
    }
}

/// The account created by CreateAccount.
pub open spec fn created_account_view(lamports: u64, space: u64, owner: Seq<u8>) -> AccountView {
    AccountView {
        lamports,
        owner,
        executable: false,
        rent_epoch: 0,
        data: AccountDataView::Data(Seq::new(space as nat, |i: int| 0u8)),
    }
}

/// Account creation: account 0 pays `lamports` plus the rent-exempt minimum,
/// account 1 must not exist and is created with `space` zero bytes.
pub open spec fn spec_create_account(
    accounts: Map<Pubkey, AccountView>,
    lamports: u64,
    space: u64,
    owner: Seq<u8>,
    metas: Seq<AccountMeta>,
    signer: Pubkey,
) -> Result<Map<Pubkey, AccountView>, Failure> {
    if metas.len() < 2 {
        Err(Failure::InvalidData)
    } else {
        let payer = spec_account_key(metas[0].index);
        let new_key = spec_account_key(metas[1].index);
        let cost = lamports + MINIMUM_RENT_EXEMPT_BALANCE;
        if !signed(payer, metas[0], signer) {
            Err(Failure::ProgramRefused)
        } else if accounts.contains_key(new_key) {
            Err(Failure::ProgramRefused)
        } else if !accounts.contains_key(payer) {
            Err(Failure::AccountNotFound)
        } else if accounts[payer].lamports < cost {
            Err(Failure::Funds { needed: cost as u64, available: accounts[payer].lamports })
        } else {
            let a1 = accounts.insert(payer, with_lamports(accounts[payer], (accounts[payer].lamports - cost) as u64));
            Ok(a1.insert(new_key, created_account_view(lamports, space, owner)))
        }
    }
}

/// Assignment of account 0 (owned by the system program) to `owner`.
pub open spec fn spec_assign(
    accounts: Map<Pubkey, AccountView>,
    owner: Seq<u8>,
    metas: Seq<AccountMeta>,
    signer: Pubkey,
) -> Result<Map<Pubkey, AccountView>, Failure> {
    if metas.len() < 1 {
        Err(Failure::InvalidData)
    } else {
        let key = spec_account_key(metas[0].index);
        if !signed(key, metas[0], signer) {
            Err(Failure::ProgramRefused)
        } else if !accounts.contains_key(key) {
            Err(Failure::AccountNotFound)
        } else if accounts[key].owner != spec_system_program_id() {
            Err(Failure::InvalidOwner)
        } else {
            Ok(accounts.insert(key, AccountView { owner, ..accounts[key] }))
        }
    }
}

/// Compute units an instruction consumes before anything else.
pub open spec fn system_cost(ix: SystemInstructionView) -> u64 {
    match ix {
        SystemInstructionView::Transfer { .. } => 150,
        SystemInstructionView::CreateAccount { .. } => 200,
        SystemInstructionView::Assign { .. } => 100,
        SystemInstructionView::NonceInitialize => 100,
    }
}

/// The accounts an instruction names at the least.
pub open spec fn accounts_needed(ix: SystemInstructionView) -> nat {
    match ix {
        SystemInstructionView::Transfer { .. } => 2,
        SystemInstructionView::CreateAccount { .. } => 2,
        SystemInstructionView::Assign { .. } => 1,
        SystemInstructionView::NonceInitialize => 0,
    }
}

/// The outcome of an instruction run with `consumed` of `max` units spent:
/// too few accounts is invalid data, checked first; then the units are
/// charged; then the instruction runs.
pub open spec fn system_budgeted(
    ix: SystemInstructionView,
    consumed: int,
    max: int,
    accounts: Map<Pubkey, AccountView>,
    metas: Seq<AccountMeta>,
    signer: Pubkey,
) -> Result<Map<Pubkey, AccountView>, Failure> {
    if metas.len() < accounts_needed(ix) {
        Err(Failure::InvalidData)
    } else if consumed + system_cost(ix) > max {
        Err(Failure::ComputeUnits)
    } else {
        spec_system_op(ix, accounts, metas, signer)
    }
}

/// What an instruction does to the accounts once its compute units are paid.
pub open spec fn spec_system_op(
    ix: SystemInstructionView,
    accounts: Map<Pubkey, AccountView>,
    metas: Seq<AccountMeta>,
    signer: Pubkey,
) -> Result<Map<Pubkey, AccountView>, Failure> {
    match ix {
        SystemInstructionView::Transfer { lamports } => spec_transfer(accounts, lamports, metas, signer),
        SystemInstructionView::CreateAccount { lamports, space, owner } => spec_create_account(
            accounts,
            lamports,
            space,
            owner,
            metas,
            signer,
        ),
        SystemInstructionView::Assign { owner } => spec_assign(accounts, owner, metas, signer),
        SystemInstructionView::NonceInitialize => Ok(accounts),
    }
}

/// What the instruction needs so that nothing overflows: room in the log for
/// the records it writes, and no balance or cost beyond `u64`.
pub open spec fn system_op_fits(
    ix: SystemInstructionView,
    db: AccountsDBView,
    metas: Seq<AccountMeta>,
) -> bool {
    match ix {
        SystemInstructionView::Transfer { lamports } => transfer_fits(db.accounts, lamports, metas)
            && (metas.len() >= 2 ==> db.has_room(
            2,
            record_len_at(db.accounts, spec_account_key(metas[0].index)) + record_len_at(
                db.accounts,
                spec_account_key(metas[1].index),
            ),
        )),
        SystemInstructionView::CreateAccount { lamports, space, .. } => lamports
            + MINIMUM_RENT_EXEMPT_BALANCE <= u64::MAX && (metas.len() >= 2 ==> db.has_room(
            2,
            record_len_at(db.accounts, spec_account_key(metas[0].index)) + 61 + space,
        )),
        SystemInstructionView::Assign { .. } => metas.len() >= 1 ==> db.has_room(
            1,
            record_len_at(db.accounts, spec_account_key(metas[0].index)),
        ),
        SystemInstructionView::NonceInitialize => true,
    }
}

/// Account indices are below `usize::MAX`.
pub open spec fn metas_ok(metas: Seq<AccountMeta>) -> bool {
    forall|i: int| 0 <= i < metas.len() ==> #[trigger] metas[i].index < usize::MAX
}

/// Changing only the balance leaves the record length unchanged.
proof fn lemma_record_len_with_lamports(a: AccountView, l: u64)
    ensures
        record_len(with_lamports(a, l)) == record_len(a),
{
    lemma_auto_spec_u64_to_from_le_bytes();
    assert(vstd::bytes::spec_u64_to_le_bytes(l).len() == 8);
    assert(vstd::bytes::spec_u64_to_le_bytes(a.lamports).len() == 8);
}

/// Changing only the owner leaves the record length unchanged.
proof fn lemma_record_len_with_owner(a: AccountView, owner: Seq<u8>)
    requires
        owner.len() == a.owner.len(),
    ensures
        record_len(AccountView { owner, ..a }) == record_len(a),
{
}

/// A fresh system account's record is 53 bytes.
pub proof fn lemma_record_len_system(l: u64)
    ensures
        record_len(system_account_view(l)) == 53,
{
    lemma_auto_spec_u64_to_from_le_bytes();
    vstd::bytes::lemma_auto_spec_u32_to_from_le_bytes();
    assert(vstd::bytes::spec_u32_to_le_bytes(0).len() == 4);
}

/// A created account's record is 61 bytes plus its space.
proof fn lemma_record_len_created(lamports: u64, space: u64, owner: Seq<u8>)
    requires
        owner.len() == 32,
    ensures
        record_len(created_account_view(lamports, space, owner)) == 61 + space,
{
    lemma_auto_spec_u64_to_from_le_bytes();
    vstd::bytes::lemma_auto_spec_u32_to_from_le_bytes();
    assert(vstd::bytes::spec_u32_to_le_bytes(3).len() == 4);
}

/// Logs `prefix` followed by the first eight bytes of `key` in hex.
fn log_with_key(logs: &mut Vec<String>, prefix: &str, key: &Pubkey)
    ensures
        final(logs)@.len() == old(logs)@.len() + 1,
        final(logs)@.drop_last() == old(logs)@,
        final(logs)@.last()@ == prefix@ + hex_lower(key@.subrange(0, 8)),
{
    let mut msg = String::from_str(prefix);
    msg.append(hex_encode(slice_subrange(key.as_slice(), 0, 8)).as_str());
    let ghost before = logs@;
    logs.push(msg);
    assert(logs@.drop_last() =~= before);
}

/// A SOL transfer between account 0 and account 1.
fn process_transfer(
    lamports: u64,
    account_metas: &[AccountMeta],
    signer: &Pubkey,
    accounts: &mut AccountsDB,
    budget: &mut ComputeBudget,
    logs: &mut Vec<String>,
) -> (r: Result<(), InstructionError>)
    requires
        old(accounts).wf(),
        old(budget).consumed + 150 <= old(budget).max ==> metas_ok(account_metas@),
        old(budget).consumed + 150 <= u64::MAX,
        old(budget).consumed + 150 <= old(budget).max ==> system_op_fits(
            SystemInstructionView::Transfer { lamports },
            old(accounts)@,
            account_metas@,
        ),
    ensures
        final(accounts).wf(),
        final(budget).consumed == old(budget).consumed + 150,
        final(budget).max == old(budget).max,
        ({
            let outcome = system_budgeted(
                SystemInstructionView::Transfer { lamports },
                old(budget).consumed as int,
                old(budget).max as int,
                old(accounts)@.accounts,
                account_metas@,
                *signer,
            );
            match outcome {
                Ok(m) => r is Ok && final(accounts)@.accounts == m,
                Err(f) => r matches Err(e) && failure_of(e) == f && final(accounts)@.accounts == old(
                    accounts,
                )@.accounts,
            }
        }),
{
    let paid = budget.consume(150);
    if account_metas.len() < 2 {
        return Err(InstructionError::InvalidInstructionData(String::from_str("Transfer requires 2 accounts")));
    }
    match paid {
        Err(e) => {
            return Err(e);
        },
        Ok(()) => {},
    }
    let from_meta = &account_metas[0];
    let to_meta = &account_metas[1];
    let from_pubkey = get_account_key(from_meta.index)?;
    if !crate::crypto::keys_eq(&from_pubkey, signer) && !from_meta.is_signer {
        return Err(InstructionError::ProgramError(String::from_str("Source account not signed")));
    }
    let mut from_account = match accounts.load(&from_pubkey) {
        Some(a) => a,
        None => return Err(InstructionError::AccountNotFound),
    };
    if from_account.lamports < lamports {
        return Err(InstructionError::InsufficientFunds { needed: lamports, available: from_account.lamports });
    }
    let to_pubkey = get_account_key(to_meta.index)?;
    let ghost before = accounts@;
    from_account.lamports = from_account.lamports - lamports;
    proof {
        lemma_record_len_with_lamports(before.accounts[from_pubkey], from_account.lamports);
        lemma_record_len_system(0);
    }
    accounts.store(from_pubkey, &from_account);
    let mut to_account = match accounts.load(&to_pubkey) {
        Some(a) => a,
        None => Account::new_system_account(to_pubkey, 0),
    };
    proof {
        if to_pubkey == from_pubkey {
            assert(to_account@ == from_account@);
        }
        lemma_record_len_with_lamports(to_account@, (to_account.lamports + lamports) as u64);
    }
    to_account.lamports = to_account.lamports + lamports;
    accounts.store(to_pubkey, &to_account);
    log_with_key(logs, "Transfer from ", &from_pubkey);
    Ok(())
}

/// Creates account 1, paid for by account 0.
fn process_create_account(
    lamports: u64,
    space: u64,
    owner: Pubkey,
    account_metas: &[AccountMeta],
    signer: &Pubkey,
    accounts: &mut AccountsDB,
    budget: &mut ComputeBudget,
    logs: &mut Vec<String>,
) -> (r: Result<(), InstructionError>)
    requires
        old(accounts).wf(),
        old(budget).consumed + 200 <= old(budget).max ==> metas_ok(account_metas@),
        old(budget).consumed + 200 <= u64::MAX,
        old(budget).consumed + 200 <= old(budget).max ==> system_op_fits(
            SystemInstructionView::CreateAccount { lamports, space, owner: owner@ },
            old(accounts)@,
            account_metas@,
        ),
    ensures
        final(accounts).wf(),
        final(budget).consumed == old(budget).consumed + 200,
        final(budget).max == old(budget).max,
        ({
            let outcome = system_budgeted(
                SystemInstructionView::CreateAccount { lamports, space, owner: owner@ },
                old(budget).consumed as int,
                old(budget).max as int,
                old(accounts)@.accounts,
                account_metas@,
                *signer,
            );
            match outcome {
                Ok(m) => r is Ok && final(accounts)@.accounts == m,
                Err(f) => r matches Err(e) && failure_of(e) == f && final(accounts)@.accounts == old(
                    accounts,
                )@.accounts,
            }
        }),
{
    let paid = budget.consume(200);
    if account_metas.len() < 2 {
        return Err(InstructionError::InvalidInstructionData(String::from_str("CreateAccount requires 2 accounts")));
    }
    match paid {
        Err(e) => {
            return Err(e);
        },
        Ok(()) => {},
    }
    let payer_meta = &account_metas[0];
    let new_account_meta = &account_metas[1];
    let payer_pubkey = get_account_key(payer_meta.index)?;
    let new_account_pubkey = get_account_key(new_account_meta.index)?;
    if !crate::crypto::keys_eq(&payer_pubkey, signer) && !payer_meta.is_signer {
        return Err(InstructionError::ProgramError(String::from_str("Payer not signed")));
    }
    if accounts.account_exists(&new_account_pubkey) {
        return Err(InstructionError::ProgramError(String::from_str("Account already exists")));
    }
    let mut payer = match accounts.load(&payer_pubkey) {
        Some(a) => a,
        None => return Err(InstructionError::AccountNotFound),
    };
    let total_cost = lamports + MINIMUM_RENT_EXEMPT_BALANCE;
    if payer.lamports < total_cost {
        return Err(InstructionError::InsufficientFunds { needed: total_cost, available: payer.lamports });
    }
    let ghost before = accounts@;
    payer.lamports = payer.lamports - total_cost;
    proof {
        lemma_record_len_with_lamports(before.accounts[payer_pubkey], payer.lamports);
        lemma_record_len_created(lamports, space, owner@);
    }
    accounts.store(payer_pubkey, &payer);
    let zeros = vec![0u8; space as usize];
    assert(zeros@ =~= Seq::new(space as nat, |i: int| 0u8));
    let new_account = Account {
        lamports,
        owner,
        executable: false,
        rent_epoch: 0,
        data: AccountData::Data(zeros),
    };
    accounts.store(new_account_pubkey, &new_account);
    log_with_key(logs, "CreateAccount: ", &new_account_pubkey);
    Ok(())
}

/// Assigns account 0 to `owner`.
fn process_assign(
    owner: Pubkey,
    account_metas: &[AccountMeta],
    signer: &Pubkey,
    accounts: &mut AccountsDB,
    budget: &mut ComputeBudget,
    logs: &mut Vec<String>,
) -> (r: Result<(), InstructionError>)
    requires
        old(accounts).wf(),
        old(budget).consumed + 100 <= old(budget).max ==> metas_ok(account_metas@),
        old(budget).consumed + 100 <= u64::MAX,
        old(budget).consumed + 100 <= old(budget).max ==> system_op_fits(
            SystemInstructionView::Assign { owner: owner@ },
            old(accounts)@,
            account_metas@,
        ),
    ensures
        final(accounts).wf(),
        final(budget).consumed == old(budget).consumed + 100,
        final(budget).max == old(budget).max,
        ({
            let outcome = system_budgeted(
                SystemInstructionView::Assign { owner: owner@ },
                old(budget).consumed as int,
                old(budget).max as int,
                old(accounts)@.accounts,
                account_metas@,
                *signer,
            );
            match outcome {
                Ok(m) => r is Ok && final(accounts)@.accounts == m,
                Err(f) => r matches Err(e) && failure_of(e) == f && final(accounts)@.accounts == old(
                    accounts,
                )@.accounts,
            }
        }),
{
    let paid = budget.consume(100);
    if account_metas.len() == 0 {
        return Err(InstructionError::InvalidInstructionData(String::from_str("Assign requires 1 account")));
    }
    match paid {
        Err(e) => {
            return Err(e);
        },
        Ok(()) => {},
    }
    let account_pubkey = get_account_key(account_metas[0].index)?;
    if !crate::crypto::keys_eq(&account_pubkey, signer) && !account_metas[0].is_signer {
        return Err(InstructionError::ProgramError(String::from_str("Account not signed")));
    }
    let mut account = match accounts.load(&account_pubkey) {
        Some(a) => a,
        None => return Err(InstructionError::AccountNotFound),
    };
    let system_id = [1u8; 32];
    assert(system_id@ =~= spec_system_program_id());
    if !crate::crypto::bytes32_eq(&account.owner, &system_id) {
        return Err(InstructionError::InvalidAccountOwner);
    }
    let ghost before = accounts@;
    account.owner = owner;
    proof {
        lemma_record_len_with_owner(before.accounts[account_pubkey], owner@);
    }
    accounts.store(account_pubkey, &account);
    log_with_key(logs, "Assign: ", &account_pubkey);
    Ok(())
}

/// Decodes and runs a system instruction against the accounts.
pub fn process_instruction(
    data: &[u8],
    account_metas: &[AccountMeta],
    signer: &Pubkey,
    accounts: &mut AccountsDB,
    budget: &mut ComputeBudget,
    logs: &mut Vec<String>,
) -> (r: Result<(), InstructionError>)
    requires
        old(accounts).wf(),
        spec_system_from_data(data@) matches Some(ix) ==> (old(budget).consumed + system_cost(ix) <= old(
            budget,
        ).max ==> metas_ok(account_metas@)),
        !system_data_overruns(data@),
        old(budget).consumed + 200 <= u64::MAX,
        spec_system_from_data(data@) matches Some(ix) ==> (old(budget).consumed + system_cost(ix) <= old(
            budget,
        ).max ==> system_op_fits(ix, old(accounts)@, account_metas@)),
    ensures
        final(accounts).wf(),
        final(budget).max == old(budget).max,
        match spec_system_from_data(data@) {
            None => r matches Err(e) && failure_of(e) == Failure::InvalidData
                && final(accounts)@.accounts == old(accounts)@.accounts
                && final(budget).consumed == old(budget).consumed,
            Some(ix) => {
                let cost = system_cost(ix);
                let outcome = system_budgeted(
                    ix,
                    old(budget).consumed as int,
                    old(budget).max as int,
                    old(accounts)@.accounts,
                    account_metas@,
                    *signer,
                );
                &&& final(budget).consumed == old(budget).consumed + cost
                &&& match outcome {
                    Ok(m) => r is Ok && final(accounts)@.accounts == m,
                    Err(f) => r matches Err(e) && failure_of(e) == f && final(accounts)@.accounts
                        == old(accounts)@.accounts,
                }
            },
        },
{
    let instruction = SystemInstruction::from_data(data)?;
    match instruction {
        SystemInstruction::Transfer { lamports } => process_transfer(
            lamports,
            account_metas,
            signer,
            accounts,
            budget,
            logs,
        ),
        SystemInstruction::CreateAccount { lamports, space, owner } => process_create_account(
            lamports,
            space,
            owner,
            account_metas,
            signer,
            accounts,
            budget,
            logs,
        ),
        SystemInstruction::Assign { owner } => process_assign(
            owner,
            account_metas,
            signer,
            accounts,
            budget,
            logs,
        ),
        SystemInstruction::NonceInitialize => {
            logs.push(String::from_str("NonceInitialize (stub)"));
            budget.consume(100)?;
            Ok(())
        },
    }
}


/// A successful transfer moves lamports between the two accounts without
/// creating or destroying any: their combined balance is unchanged, and every
/// other account is left as it was.
pub proof fn lemma_transfer_conserves_lamports(
    accounts: Map<Pubkey, AccountView>,
    lamports: u64,
    metas: Seq<AccountMeta>,
    signer: Pubkey,
)
    requires
        spec_transfer(accounts, lamports, metas, signer) is Ok,
        transfer_fits(accounts, lamports, metas),
    ensures
        ({
            let m = spec_transfer(accounts, lamports, metas, signer)->Ok_0;
            let from = spec_account_key(metas[0].index);
            let to = spec_account_key(metas[1].index);
            &&& from != to ==> m[from].lamports + m[to].lamports == accounts[from].lamports
                + account_or_new(accounts, to).lamports
            &&& from == to ==> m[from].lamports == accounts[from].lamports
            &&& forall|k: Pubkey|
                k != from && k != to ==> (#[trigger] m.contains_key(k) == accounts.contains_key(k)
                    && (m.contains_key(k) ==> m[k] == accounts[k]))
        }),
{
}

} // verus!
