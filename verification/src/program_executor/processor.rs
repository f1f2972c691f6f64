//! The compute budget and the processor that dispatches instructions to the
//! system program, the token program, or a loaded program.

use crate::accounts::account::{spec_system_program_id, spec_token_program_id, AccountView, Pubkey};
use crate::accounts::store::AccountsDB;
use crate::crypto::{bytes32_eq, hex_encode};
use crate::program_executor::instruction::{
    spec_system_from_data, spec_token_from_data, system_data_overruns, AccountMeta, Instruction,
    InstructionResult,
};
use crate::program_executor::system_program::{system_budgeted, system_cost};
use crate::program_executor::token_program::{spec_token_op, with_budget};
use crate::program_executor::{failure_of, Failure, InstructionError, DEFAULT_COMPUTE_UNITS};
use crate::program_executor::{system_program, token_program};
use vstd::prelude::*;
use vstd::slice::slice_subrange;
use vstd::string::StringExecFns;

verus! {

/// Tracks compute units.
#[derive(Debug)]
pub struct ComputeBudget {
    /// Units allowed.
    pub max: u64,
    /// Units consumed so far.
    pub consumed: u64,
}

impl ComputeBudget {
    /// A budget of `max` units, none consumed.
    pub fn new(max: u64) -> (b: Self)
        ensures
            b.max == max,
            b.consumed == 0,
    {
        ComputeBudget { max, consumed: 0 }
    }

    /// Consumes `units`; fails once more than `max` has been consumed (the
    /// units are counted either way).
    pub fn consume(&mut self, units: u64) -> (r: Result<(), InstructionError>)
        requires
            old(self).consumed + units <= u64::MAX,
        ensures
            final(self).consumed == old(self).consumed + units,
            final(self).max == old(self).max,
            r is Ok <==> final(self).consumed <= final(self).max,
            r matches Err(e) ==> e is InsufficientComputeUnits,
    {
        self.consumed = self.consumed + units;
        if self.consumed > self.max {
            return Err(InstructionError::InsufficientComputeUnits);
        }
        Ok(())
    }

    /// Units left (zero once over budget).
    pub fn remaining(&self) -> (n: u64)
        ensures
            n == (if self.max >= self.consumed { self.max - self.consumed } else { 0 }),
    {
        self.max.saturating_sub(self.consumed)
    }
}

/// Units charged before a built-in program runs.
pub const DISPATCH_COST: u64 = 150;

/// Units charged for invoking a loaded program.
pub const CUSTOM_PROGRAM_COST: u64 = 500;

/// Where an instruction goes.
pub enum Route {
    /// The system program (id of 32 ones).
    System,
    /// The token program (id of 32 twos).
    Token,
    /// Any other program id: looked up among the accounts.
    Loaded,
}

/// The route of a program id.
pub open spec fn route_of(program_id: Seq<u8>) -> Route {
    if program_id == spec_system_program_id() {
        Route::System
    } else if program_id == spec_token_program_id() {
        Route::Token
    } else {
        Route::Loaded
    }
}

/// What processing an instruction does, as its outcome and the compute units
/// it consumed. A built-in program is charged the dispatch cost first and then
/// its own cost against the default budget (a system instruction naming too
/// few accounts is refused as invalid data before its units count); a loaded program runs (as a stub)
/// only if its account is executable.
pub open spec fn spec_process(
    accounts: Map<Pubkey, AccountView>,
    program_id: Seq<u8>,
    data: Seq<u8>,
    metas: Seq<AccountMeta>,
    signer: Pubkey,
) -> (Result<Map<Pubkey, AccountView>, Failure>, int) {
    match route_of(program_id) {
        Route::System => match spec_system_from_data(data) {
            None => (Err(Failure::InvalidData), DISPATCH_COST as int),
            Some(ix) => (
                system_budgeted(
                    ix,
                    DISPATCH_COST as int,
                    DEFAULT_COMPUTE_UNITS as int,
                    accounts,
                    metas,
                    signer,
                ),
                DISPATCH_COST + system_cost(ix),
            ),
        },
        Route::Token => match spec_token_from_data(data) {
            None => (Err(Failure::InvalidData), DISPATCH_COST as int),
            Some(ix) => (
                with_budget(DISPATCH_COST, DEFAULT_COMPUTE_UNITS, 200, spec_token_op(ix, accounts, metas)),
                DISPATCH_COST + 200,
            ),
        },
        Route::Loaded => {
            let key = program_key(program_id);
            if !accounts.contains_key(key) {
                (Err(Failure::AccountNotFound), 0)
            } else if accounts[key].executable {
                (Ok(accounts), CUSTOM_PROGRAM_COST as int)
            } else {
                (Err(Failure::InvalidOwner), 0)
            }
        },
    }
}

/// The key whose bytes are `id`.
pub open spec fn program_key(id: Seq<u8>) -> Pubkey {
    choose|k: Pubkey| k@ == id
}

/// Runs instructions against the accounts database it owns.
pub struct InstructionProcessor {
    accounts: AccountsDB,
}

impl InstructionProcessor {
    /// The database the processor runs against.
    pub closed spec fn db(&self) -> AccountsDB {
        self.accounts
    }

    /// A processor over `accounts`.
    pub fn new(accounts: AccountsDB) -> (p: Self)
        ensures
            p.db() == accounts,
    {
        InstructionProcessor { accounts }
    }

    /// Processes one instruction: dispatches on the program id, charges
    /// compute units against a fresh default budget, and reports success or
    /// the error with the units consumed.
    pub fn process_instruction(&mut self, instruction: &Instruction, signer: &Pubkey) -> (r: InstructionResult)
        requires
            old(self).db().wf(),
            route_of(instruction.program_id@) is System ==> !system_data_overruns(instruction.data@),
        ensures
            final(self).db().wf(),
            ({
                let (outcome, units) = spec_process(
                    old(self).db()@.accounts,
                    instruction.program_id@,
                    instruction.data@,
                    instruction.account_metas@,
                    *signer,
                );
                &&& r.compute_units_consumed == units
                &&& r.return_data is None
                &&& match outcome {
                    Ok(m) => r.success && r.error is None && final(self).db()@.accounts == m,
                    Err(f) => {
                        &&& !r.success
                        &&& r.error matches Some(e) && failure_of(e) == f
                        &&& final(self).db()@.accounts == old(self).db()@.accounts
                    },
                }
            }),
    {
        let mut budget = ComputeBudget::new(DEFAULT_COMPUTE_UNITS);
        let mut logs: Vec<String> = Vec::new();
        let mut head = String::from_str("Program ");
        head.append(hex_encode(slice_subrange(instruction.program_id.as_slice(), 0, 4)).as_str());
        logs.push(head);
        let system_id = [1u8; 32];
        let token_id = [2u8; 32];
        proof {
            assert(system_id@ =~= spec_system_program_id());
            assert(token_id@ =~= spec_token_program_id());
        }
        let result = if bytes32_eq(&instruction.program_id, &system_id) {
            let _ = budget.consume(DISPATCH_COST);
            system_program::process_instruction(
                instruction.data.as_slice(),
                instruction.account_metas.as_slice(),
                signer,
                &mut self.accounts,
                &mut budget,
                &mut logs,
            )
        } else if bytes32_eq(&instruction.program_id, &token_id) {
            let _ = budget.consume(DISPATCH_COST);
            token_program::process_instruction(
                instruction.data.as_slice(),
                instruction.account_metas.as_slice(),
                signer,
                &mut self.accounts,
                &mut budget,
                &mut logs,
            )
        } else {
            proof {
                let id = instruction.program_id;
                assert(id@ == id@);
                crate::crypto::lemma_array32_eq(program_key(id@), id);
            }
            match self.accounts.load(&instruction.program_id) {
                Some(account) => {
                    if account.executable {
                        let _ = budget.consume(CUSTOM_PROGRAM_COST);
                        let mut msg = String::from_str("Invoking custom program ");
                        msg.append(hex_encode(slice_subrange(instruction.program_id.as_slice(), 0, 8)).as_str());
                        logs.push(msg);
                        Ok(())
                    } else {
                        Err(InstructionError::InvalidAccountOwner)
                    }
                },
                None => Err(InstructionError::AccountNotFound),
            }
        };
        match result {
            Ok(()) => {
                let mut msg = String::from_str("Program success (");
                msg.append(budget.consumed.to_string().as_str());
                msg.append(" compute units)");
                logs.push(msg);
                InstructionResult::success(budget.consumed).with_log(
                    String::from_str("Program completed successfully"),
                )
            },
            Err(e) => {
                let mut msg = String::from_str("Program failed: ");
                msg.append(e.display_text().as_str());
                logs.push(msg);
                InstructionResult::failure(e, budget.consumed)
            },
        }
    }

    /// The accounts database.
    pub fn accounts(&self) -> (db: &AccountsDB)
        ensures
            *db == self.db(),
    {
        &self.accounts
    }

    /// The accounts database, for changes.
    pub fn accounts_mut(&mut self) -> (db: &mut AccountsDB)
        ensures
            *db == old(self).db(),
            final(self).db() == *final(db),
    {
        &mut self.accounts
    }
}

} // verus!
