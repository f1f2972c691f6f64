//! The token program: token transfers, minting and burning on token accounts.

use crate::accounts::account::{Account, AccountData, AccountDataView, AccountView, Pubkey};
use crate::accounts::store::{record_len, AccountsDB, AccountsDBView};
use crate::crypto::{hex_encode, hex_lower, zeros32};
use crate::program_executor::instruction::{spec_token_from_data, AccountMeta, TokenInstruction};
use crate::program_executor::processor::ComputeBudget;
use crate::program_executor::system_program::{account_or_new, index_key, metas_ok, spec_index_key};
use crate::program_executor::{failure_of, Failure, InstructionError};
use vstd::bytes::lemma_auto_spec_u64_to_from_le_bytes;
use vstd::prelude::*;
use vstd::slice::slice_subrange;
use vstd::string::StringExecFns;

verus! {

/// The token program's key for account `index`.
pub open spec fn spec_token_key(index: usize) -> Pubkey {
    spec_index_key(0xFE, index)
}

/// The token program's key for account `index` (always succeeds).
fn get_token_account_key(index: usize) -> (r: Result<Pubkey, InstructionError>)
    requires
        index < usize::MAX,
    ensures
        r == Ok::<Pubkey, InstructionError>(spec_token_key(index)),
{
    Ok(index_key(0xFE, index))
}

/// The account with its payload replaced.
pub open spec fn with_data(a: AccountView, data: AccountDataView) -> AccountView {
    AccountView { data, ..a }
}

/// The account with its token balance set to `amount` (keeping mint and
/// authority), or, if it is not a token account, made one with a zero mint
/// and `authority` as authority.
pub open spec fn credit_token(a: AccountView, amount: int, authority: Seq<u8>) -> AccountView {
    match a.data {
        AccountDataView::Token { mint, authority: auth, amount: b } => with_data(
            a,
            AccountDataView::Token { mint, authority: auth, amount: (b + amount) as u64 },
        ),
        _ => with_data(a, AccountDataView::Token { mint: zeros32(), authority, amount: amount as u64 }),
    }
}

/// A token transfer of `amount` from account 0 to account 1.
pub open spec fn spec_token_transfer(
    accounts: Map<Pubkey, AccountView>,
    amount: u64,
    metas: Seq<AccountMeta>,
) -> Result<Map<Pubkey, AccountView>, Failure> {
    if metas.len() < 2 {
        Err(Failure::InvalidData)
    } else {
        let from = spec_token_key(metas[0].index);
        let to = spec_token_key(metas[1].index);
        if !accounts.contains_key(from) {
            Err(Failure::AccountNotFound)
        } else {
            match accounts[from].data {
                AccountDataView::Token { mint, authority, amount: balance } => {
                    if balance < amount {
                        Err(Failure::Funds { needed: amount, available: balance })
                    } else {
                        let a1 = accounts.insert(
                            from,
                            with_data(
                                accounts[from],
                                AccountDataView::Token { mint, authority, amount: (balance - amount) as u64 },
                            ),
                        );
                        Ok(a1.insert(to, credit_token(account_or_new(a1, to), amount as int, to@)))
                    }
                },
                _ => Err(Failure::ProgramRefused),
            }
        }
    }
}

/// Minting `amount` tokens into account 0.
pub open spec fn spec_mint_to(accounts: Map<Pubkey, AccountView>, amount: u64, metas: Seq<AccountMeta>) -> Result<
    Map<Pubkey, AccountView>,
    Failure,
> {
    if metas.len() < 1 {
        Err(Failure::InvalidData)
    } else {
        let key = spec_token_key(metas[0].index);
        if !accounts.contains_key(key) {
            Err(Failure::AccountNotFound)
        } else {
            let a = accounts[key];
            match a.data {
                AccountDataView::Token { mint, authority, amount: balance } => {
                    if balance + amount > u64::MAX {
                        Err(Failure::Overflow)
                    } else {
                        Ok(
                            accounts.insert(
                                key,
                                with_data(a, AccountDataView::Token { mint, authority, amount: (balance + amount) as u64 }),
                            ),
                        )
                    }
                },
                _ => Ok(
                    accounts.insert(
                        key,
                        with_data(a, AccountDataView::Token { mint: key@, authority: key@, amount }),
                    ),
                ),
            }
        }
    }
}

/// Burning `amount` tokens from account 0.
pub open spec fn spec_burn(accounts: Map<Pubkey, AccountView>, amount: u64, metas: Seq<AccountMeta>) -> Result<
    Map<Pubkey, AccountView>,
    Failure,
> {
    if metas.len() < 1 {
        Err(Failure::InvalidData)
    } else {
        let key = spec_token_key(metas[0].index);
        if !accounts.contains_key(key) {
            Err(Failure::AccountNotFound)
        } else {
            match accounts[key].data {
                AccountDataView::Token { mint, authority, amount: balance } => {
                    if balance < amount {
                        Err(Failure::Funds { needed: amount, available: balance })
                    } else {
                        Ok(
                            accounts.insert(
                                key,
                                with_data(
                                    accounts[key],
                                    AccountDataView::Token { mint, authority, amount: (balance - amount) as u64 },
                                ),
                            ),
                        )
                    }
                },
                _ => Err(Failure::ProgramRefused),
            }
        }
    }
}

/// What a token instruction does once its compute units are paid.
pub open spec fn spec_token_op(ix: TokenInstruction, accounts: Map<Pubkey, AccountView>, metas: Seq<AccountMeta>) -> Result<
    Map<Pubkey, AccountView>,
    Failure,
> {
    match ix {
        TokenInstruction::InitializeAccount => Ok(accounts),
        TokenInstruction::Transfer { amount } => spec_token_transfer(accounts, amount, metas),
        TokenInstruction::MintTo { amount } => spec_mint_to(accounts, amount, metas),
        TokenInstruction::Burn { amount } => spec_burn(accounts, amount, metas),
    }
}

/// No balance overflows in a transfer, and the log has room for the two
/// token records (125 bytes each).
pub open spec fn token_op_fits(ix: TokenInstruction, db: AccountsDBView, metas: Seq<AccountMeta>) -> bool {
    &&& db.has_room(2, 250)
    &&& match ix {
        TokenInstruction::Transfer { amount } => metas.len() >= 2 ==> transfer_credit_fits(
            db.accounts,
            amount,
            spec_token_key(metas[0].index),
            spec_token_key(metas[1].index),
        ),
        _ => true,
    }
}

/// Crediting `amount` to `to` after debiting `from` does not overflow.
pub open spec fn transfer_credit_fits(accounts: Map<Pubkey, AccountView>, amount: u64, from: Pubkey, to: Pubkey) -> bool {
    accounts.contains_key(from) ==> match accounts[from].data {
        AccountDataView::Token { mint, authority, amount: balance } => balance >= amount ==> {
            let a1 = accounts.insert(
                from,
                with_data(accounts[from], AccountDataView::Token { mint, authority, amount: (balance - amount) as u64 }),
            );
            match account_or_new(a1, to).data {
                AccountDataView::Token { amount: b, .. } => b + amount <= u64::MAX,
                _ => true,
            }
        },
        _ => true,
    }
}

/// A token account's record is 125 bytes.
proof fn lemma_token_record_len(a: AccountView)
    requires
        a.owner.len() == 32,
        a.data matches AccountDataView::Token { mint, authority, .. } && mint.len() == 32 && authority.len() == 32,
    ensures
        record_len(a) == 125,
{
    lemma_auto_spec_u64_to_from_le_bytes();
    vstd::bytes::lemma_auto_spec_u32_to_from_le_bytes();
    assert(vstd::bytes::spec_u32_to_le_bytes(2).len() == 4);
}

/// Logs `prefix` followed by the first eight bytes of `key` in hex.
fn token_log(logs: &mut Vec<String>, prefix: &str, key: &Pubkey)
    ensures
        final(logs)@.len() == old(logs)@.len() + 1,
        final(logs)@.drop_last() == old(logs)@,
        final(logs)@.last()@ == prefix@ + hex_lower(key@.subrange(0, 8)),
{
    let mut msg = String::from_str(prefix);
    msg.append(hex_encode(slice_subrange(key.as_slice(), 0, 8)).as_str());
    let ghost before = logs@;
    logs.push(msg);
    assert(logs@.drop_last() =~= before);
}

/// Outcome of an operation once the budget check is folded in.
pub open spec fn with_budget(
    consumed: u64,
    max: u64,
    cost: u64,
    op: Result<Map<Pubkey, AccountView>, Failure>,
) -> Result<Map<Pubkey, AccountView>, Failure> {
    if consumed + cost > max {
        Err(Failure::ComputeUnits)
    } else {
        op
    }
}

/// The result and database agree with an outcome.
pub open spec fn matches_outcome(
    r: Result<(), InstructionError>,
    before: Map<Pubkey, AccountView>,
    after: Map<Pubkey, AccountView>,
    outcome: Result<Map<Pubkey, AccountView>, Failure>,
) -> bool {
    match outcome {
        Ok(m) => r is Ok && after == m,
        Err(f) => r matches Err(e) && failure_of(e) == f && after == before,
    }
}

/// Initializes a token account (no change).
fn process_initialize_account(
    budget: &mut ComputeBudget,
    logs: &mut Vec<String>,
) -> (r: Result<(), InstructionError>)
    requires
        old(budget).consumed + 200 <= u64::MAX,
    ensures
        final(budget).consumed == old(budget).consumed + 200,
        final(budget).max == old(budget).max,
        r is Ok <==> old(budget).consumed + 200 <= old(budget).max,
        r matches Err(e) ==> failure_of(e) == Failure::ComputeUnits,
{
    budget.consume(200)?;
    logs.push(String::from_str("Token: InitializeAccount"));
    Ok(())
}

/// Transfers tokens from account 0 to account 1.
pub fn process_token_transfer(
    amount: u64,
    account_metas: &[AccountMeta],
    _signer: &Pubkey,
    accounts: &mut AccountsDB,
    budget: &mut ComputeBudget,
    logs: &mut Vec<String>,
) -> (r: Result<(), InstructionError>)
    requires
        old(accounts).wf(),
        old(budget).consumed + 200 <= old(budget).max ==> metas_ok(account_metas@),
        old(budget).consumed + 200 <= u64::MAX,
        old(budget).consumed + 200 <= old(budget).max ==> token_op_fits(
            TokenInstruction::Transfer { amount },
            old(accounts)@,
            account_metas@,
        ),
    ensures
        final(accounts).wf(),
        final(budget).consumed == old(budget).consumed + 200,
        final(budget).max == old(budget).max,
        matches_outcome(
            r,
            old(accounts)@.accounts,
            final(accounts)@.accounts,
            with_budget(
                old(budget).consumed,
                old(budget).max,
                200,
                spec_token_transfer(old(accounts)@.accounts, amount, account_metas@),
            ),
        ),
{
    budget.consume(200)?;
    if account_metas.len() < 2 {
        return Err(InstructionError::InvalidInstructionData(String::from_str("Transfer requires 2 accounts")));
    }
    let from_key = get_token_account_key(account_metas[0].index)?;
    let to_key = get_token_account_key(account_metas[1].index)?;
    let from_account = match accounts.load(&from_key) {
        Some(a) => a,
        None => return Err(InstructionError::AccountNotFound),
    };
    let ghost before = accounts@;
    let Account { lamports, owner, executable, rent_epoch, data } = from_account;
    let new_from_data = match data {
        AccountData::Token { mint, authority, amount: balance } => {
            if balance < amount {
                return Err(InstructionError::InsufficientFunds { needed: amount, available: balance });
            }
            AccountData::Token { mint, authority, amount: balance - amount }
        },
        _ => {
            return Err(InstructionError::ProgramError(String::from_str("Source is not a token account")));
        },
    };
    let new_from = Account { lamports, owner, executable, rent_epoch, data: new_from_data };
    proof {
        lemma_token_record_len(new_from@);
    }
    accounts.store(from_key, &new_from);
    let to_account = match accounts.load(&to_key) {
        Some(a) => a,
        None => Account::new_system_account(to_key, 0),
    };
    let Account { lamports, owner, executable, rent_epoch, data } = to_account;
    let new_to_data = match data {
        AccountData::Token { mint, authority, amount: balance } => AccountData::Token {
            mint,
            authority,
            amount: balance + amount,
        },
        _ => {
            let zero_mint = [0u8; 32];
            proof {
                assert(zero_mint@ =~= zeros32()) by {
                    broadcast use vstd::array::group_array_axioms;
                }
            }
            AccountData::Token { mint: zero_mint, authority: to_key, amount }
        },
    };
    let new_to = Account { lamports, owner, executable, rent_epoch, data: new_to_data };
    proof {
        crate::accounts::account::lemma_owner_len(to_account);
        lemma_token_record_len(new_to@);
    }
    accounts.store(to_key, &new_to);
    token_log(logs, "Token: Transfer from ", &from_key);
    Ok(())
}

/// Mints tokens into account 0.
pub fn process_mint_to(
    amount: u64,
    account_metas: &[AccountMeta],
    _signer: &Pubkey,
    accounts: &mut AccountsDB,
    budget: &mut ComputeBudget,
    logs: &mut Vec<String>,
) -> (r: Result<(), InstructionError>)
    requires
        old(accounts).wf(),
        old(budget).consumed + 200 <= old(budget).max ==> metas_ok(account_metas@),
        old(budget).consumed + 200 <= u64::MAX,
        old(budget).consumed + 200 <= old(budget).max ==> token_op_fits(
            TokenInstruction::MintTo { amount },
            old(accounts)@,
            account_metas@,
        ),
    ensures
        final(accounts).wf(),
        final(budget).consumed == old(budget).consumed + 200,
        final(budget).max == old(budget).max,
        matches_outcome(
            r,
            old(accounts)@.accounts,
            final(accounts)@.accounts,
            with_budget(
                old(budget).consumed,
                old(budget).max,
                200,
                spec_mint_to(old(accounts)@.accounts, amount, account_metas@),
            ),
        ),
{
    budget.consume(200)?;
    if account_metas.len() == 0 {
        return Err(InstructionError::InvalidInstructionData(String::from_str("MintTo requires 1 account")));
    }
    let mint_key = get_token_account_key(account_metas[0].index)?;
    let mint_account = match accounts.load(&mint_key) {
        Some(a) => a,
        None => return Err(InstructionError::AccountNotFound),
    };
    let Account { lamports, owner, executable, rent_epoch, data } = mint_account;
    let new_data = match data {
        AccountData::Token { mint, authority, amount: balance } => {
            match balance.checked_add(amount) {
                Some(b) => AccountData::Token { mint, authority, amount: b },
                None => return Err(InstructionError::ArithmeticOverflow),
            }
        },
        _ => AccountData::Token { mint: mint_key, authority: mint_key, amount },
    };
    let new_account = Account { lamports, owner, executable, rent_epoch, data: new_data };
    proof {
        crate::accounts::account::lemma_owner_len(mint_account);
        lemma_token_record_len(new_account@);
    }
    accounts.store(mint_key, &new_account);
    token_log(logs, "Token: Mint to ", &mint_key);
    Ok(())
}

/// Burns tokens from account 0.
pub fn process_burn(
    amount: u64,
    account_metas: &[AccountMeta],
    _signer: &Pubkey,
    accounts: &mut AccountsDB,
    budget: &mut ComputeBudget,
    logs: &mut Vec<String>,
) -> (r: Result<(), InstructionError>)
    requires
        old(accounts).wf(),
        old(budget).consumed + 200 <= old(budget).max ==> metas_ok(account_metas@),
        old(budget).consumed + 200 <= u64::MAX,
        old(budget).consumed + 200 <= old(budget).max ==> token_op_fits(
            TokenInstruction::Burn { amount },
            old(accounts)@,
            account_metas@,
        ),
    ensures
        final(accounts).wf(),
        final(budget).consumed == old(budget).consumed + 200,
        final(budget).max == old(budget).max,
        matches_outcome(
            r,
            old(accounts)@.accounts,
            final(accounts)@.accounts,
            with_budget(
                old(budget).consumed,
                old(budget).max,
                200,
                spec_burn(old(accounts)@.accounts, amount, account_metas@),
            ),
        ),
{
    budget.consume(200)?;
    if account_metas.len() == 0 {
        return Err(InstructionError::InvalidInstructionData(String::from_str("Burn requires 1 account")));
    }
    let token_key = get_token_account_key(account_metas[0].index)?;
    let token_account = match accounts.load(&token_key) {
        Some(a) => a,
        None => return Err(InstructionError::AccountNotFound),
    };
    let Account { lamports, owner, executable, rent_epoch, data } = token_account;
    let new_data = match data {
        AccountData::Token { mint, authority, amount: balance } => {
            if balance < amount {
                return Err(InstructionError::InsufficientFunds { needed: amount, available: balance });
            }
            AccountData::Token { mint, authority, amount: balance - amount }
        },
        _ => {
            return Err(InstructionError::ProgramError(String::from_str("Account is not a token account")));
        },
    };
    let new_account = Account { lamports, owner, executable, rent_epoch, data: new_data };
    proof {
        lemma_token_record_len(new_account@);
    }
    accounts.store(token_key, &new_account);
    token_log(logs, "Token: Burn from ", &token_key);
    Ok(())
}

/// Compute units a token instruction consumes first.
pub open spec fn token_cost(ix: TokenInstruction) -> u64 {
    200
}

/// Decodes and runs a token instruction against the accounts.
pub fn process_instruction(
    data: &[u8],
    account_metas: &[AccountMeta],
    signer: &Pubkey,
    accounts: &mut AccountsDB,
    budget: &mut ComputeBudget,
    logs: &mut Vec<String>,
) -> (r: Result<(), InstructionError>)
    requires
        old(accounts).wf(),
        spec_token_from_data(data@) is Some ==> (old(budget).consumed + 200 <= old(budget).max ==> metas_ok(
            account_metas@,
        )),
        old(budget).consumed + 200 <= u64::MAX,
        spec_token_from_data(data@) matches Some(ix) ==> (old(budget).consumed + 200 <= old(budget).max
            ==> token_op_fits(ix, old(accounts)@, account_metas@)),
    ensures
        final(accounts).wf(),
        final(budget).max == old(budget).max,
        match spec_token_from_data(data@) {
            None => r matches Err(e) && failure_of(e) == Failure::InvalidData
                && final(accounts)@.accounts == old(accounts)@.accounts
                && final(budget).consumed == old(budget).consumed,
            Some(ix) => final(budget).consumed == old(budget).consumed + 200 && matches_outcome(
                r,
                old(accounts)@.accounts,
                final(accounts)@.accounts,
                with_budget(
                    old(budget).consumed,
                    old(budget).max,
                    200,
                    spec_token_op(ix, old(accounts)@.accounts, account_metas@),
                ),
            ),
        },
{
    let instruction = TokenInstruction::from_data(data)?;
    match instruction {
        TokenInstruction::InitializeAccount => process_initialize_account(budget, logs),
        TokenInstruction::Transfer { amount } => process_token_transfer(
            amount,
            account_metas,
            signer,
            accounts,
            budget,
            logs,
        ),
        TokenInstruction::MintTo { amount } => process_mint_to(
            amount,
            account_metas,
            signer,
            accounts,
            budget,
            logs,
        ),
        TokenInstruction::Burn { amount } => process_burn(amount, account_metas, signer, accounts, budget, logs),
    }
}


/// The token balance of an account (zero for an account that holds none).
pub open spec fn token_balance(a: AccountView) -> int {
    match a.data {
        AccountDataView::Token { amount, .. } => amount as int,
        _ => 0,
    }
}

/// A successful token transfer moves tokens between the two accounts without
/// creating or destroying any: their combined token balance is unchanged, and
/// every other account is left as it was.
pub proof fn lemma_token_transfer_conserves(accounts: Map<Pubkey, AccountView>, amount: u64, metas: Seq<AccountMeta>)
    requires
        spec_token_transfer(accounts, amount, metas) is Ok,
        transfer_credit_fits(accounts, amount, spec_token_key(metas[0].index), spec_token_key(metas[1].index)),
    ensures
        ({
            let m = spec_token_transfer(accounts, amount, metas)->Ok_0;
            let from = spec_token_key(metas[0].index);
            let to = spec_token_key(metas[1].index);
            &&& from != to ==> token_balance(m[from]) + token_balance(m[to]) == token_balance(accounts[from])
                + token_balance(account_or_new(accounts, to))
            &&& from == to ==> token_balance(m[from]) == token_balance(accounts[from])
            &&& forall|k: Pubkey|
                k != from && k != to ==> (#[trigger] m.contains_key(k) == accounts.contains_key(k)
                    && (m.contains_key(k) ==> m[k] == accounts[k]))
        }),
{
}

/// A successful burn of `amount` takes exactly `amount` tokens from the
/// token account named by the first account meta, keeping its lamports,
/// owner, flag, mint and authority, and leaves every other account as it
/// was; a burn of more than that account's balance fails as insufficient
/// funds, naming the amount and the balance, and one of at most the balance
/// succeeds. Without an account meta it fails as invalid data, on a missing
/// account as not found, and on an account without tokens as refused.
pub proof fn lemma_burn_takes_amount(accounts: Map<Pubkey, AccountView>, amount: u64, metas: Seq<AccountMeta>)
    ensures
        spec_burn(accounts, amount, metas) is Ok ==> ({
            let m = spec_burn(accounts, amount, metas)->Ok_0;
            let key = spec_token_key(metas[0].index);
            &&& metas.len() >= 1
            &&& accounts.contains_key(key) && m.contains_key(key)
            &&& accounts[key].data is Token && m[key].data is Token
            &&& token_balance(m[key]) + amount == token_balance(accounts[key])
            &&& m[key].lamports == accounts[key].lamports
            &&& m[key].owner == accounts[key].owner
            &&& m[key].executable == accounts[key].executable
            &&& m[key].rent_epoch == accounts[key].rent_epoch
            &&& m[key].data->Token_mint == accounts[key].data->Token_mint
            &&& m[key].data->Token_authority == accounts[key].data->Token_authority
            &&& forall|k: Pubkey|
                k != key ==> (#[trigger] m.contains_key(k) == accounts.contains_key(k) && (m.contains_key(k)
                    ==> m[k] == accounts[k]))
        }),
        ({
            let key = spec_token_key(metas[0].index);
            metas.len() >= 1 && accounts.contains_key(key) && accounts[key].data is Token && token_balance(
                accounts[key],
            ) < amount ==> spec_burn(accounts, amount, metas) == Err::<Map<Pubkey, AccountView>, Failure>(
                Failure::Funds { needed: amount, available: token_balance(accounts[key]) as u64 },
            )
        }),
        ({
            let key = spec_token_key(metas[0].index);
            &&& metas.len() >= 1 && accounts.contains_key(key) && accounts[key].data is Token && amount
                <= token_balance(accounts[key]) ==> spec_burn(accounts, amount, metas) is Ok
            &&& metas.len() == 0 ==> spec_burn(accounts, amount, metas) == Err::<Map<Pubkey, AccountView>, Failure>(
                Failure::InvalidData,
            )
            &&& metas.len() >= 1 && !accounts.contains_key(key) ==> spec_burn(accounts, amount, metas) == Err::<
                Map<Pubkey, AccountView>,
                Failure,
            >(Failure::AccountNotFound)
            &&& metas.len() >= 1 && accounts.contains_key(key) && !(accounts[key].data is Token) ==> spec_burn(
                accounts,
                amount,
                metas,
            ) == Err::<Map<Pubkey, AccountView>, Failure>(Failure::ProgramRefused)
        }),
{
}

} // verus!
