//! The executor: runs transactions and batches against the accounts
//! database, charging compute units.

use crate::accounts::account::{Account, AccountView, Pubkey};
use crate::accounts::store::{AccountsDB, AccountsDBView};
use crate::crypto::{bytes32_eq, debug_text};
use crate::program_executor::system_program::{lemma_record_len_system, system_account_view};
use crate::tx_processor::scheduler::ExecutionBatch;
use crate::tx_processor::transaction::{spec_validate, Instruction, Transaction, TransactionError, TransactionResult};
use vstd::prelude::*;
use vstd::string::StringExecFns;

verus! {

/// Units charged for paying the fee.
pub const FEE_COST: u64 = 150;

/// Units charged for each instruction.
pub const INSTRUCTION_COST: u64 = 100;

/// Units the system program charges.
pub const SYSTEM_PROGRAM_COST: u64 = 150;

/// Units any other program charges.
pub const GENERIC_PROGRAM_COST: u64 = 500;

/// Units charged once all instructions ran.
pub const FINAL_COST: u64 = 150;

/// Compute accounting and logs for one transaction.
#[derive(Debug)]
pub struct ExecutionContext {
    /// Units consumed so far.
    pub compute_units: u64,
    /// Units allowed.
    pub max_compute_units: u64,
    /// Log lines.
    pub logs: Vec<String>,
}

impl ExecutionContext {
    /// A context allowing `max_compute` units.
    pub fn new(max_compute: u64) -> (c: Self)
        ensures
            c.compute_units == 0,
            c.max_compute_units == max_compute,
            c.logs@.len() == 0,
    {
        ExecutionContext { compute_units: 0, max_compute_units: max_compute, logs: Vec::new() }
    }

    /// Consumes `units`; fails once more than the maximum has been consumed
    /// (the units are counted either way).
    pub fn consume_compute(&mut self, units: u64) -> (r: Result<(), TransactionError>)
        requires
            old(self).compute_units + units <= u64::MAX,
        ensures
            final(self).compute_units == old(self).compute_units + units,
            final(self).max_compute_units == old(self).max_compute_units,
            final(self).logs == old(self).logs,
            r is Ok <==> final(self).compute_units <= final(self).max_compute_units,
            r matches Err(e) ==> e is ComputeBudgetExceeded,
    {
        self.compute_units = self.compute_units + units;
        if self.compute_units > self.max_compute_units {
            Err(TransactionError::ComputeBudgetExceeded)
        } else {
            Ok(())
        }
    }

    /// Appends a log line.
    pub fn log(&mut self, msg: String)
        ensures
            final(self).logs@ == old(self).logs@.push(msg),
            final(self).compute_units == old(self).compute_units,
            final(self).max_compute_units == old(self).max_compute_units,
    {
        self.logs.push(msg);
    }
}

/// How a transaction failed.
pub enum TxFailure {
    NoInstructions,
    ZeroComputeBudget,
    InsufficientFee,
    InvalidSignature,
    NotAProgram,
    ComputeBudgetExceeded,
}

/// Whether `e` is the error reported for `f`.
pub open spec fn reports(e: TransactionError, f: TxFailure) -> bool {
    match f {
        TxFailure::NoInstructions => e is NoInstructions,
        TxFailure::ZeroComputeBudget => e is ZeroComputeBudget,
        TxFailure::InsufficientFee => e is InsufficientFee,
        TxFailure::InvalidSignature => e is InvalidSignature,
        TxFailure::NotAProgram => e is ProgramError,
        TxFailure::ComputeBudgetExceeded => e is ComputeBudgetExceeded,
    }
}

/// The system program's id here: a 1 followed by zeros.
pub open spec fn system_id() -> Seq<u8> {
    seq![1u8] + Seq::new(31, |i: int| 0u8)
}

/// The token program's id here: a 2 followed by zeros.
pub open spec fn token_id() -> Seq<u8> {
    seq![2u8] + Seq::new(31, |i: int| 0u8)
}

/// The outcome of one instruction of a transaction signed by `signer` with
/// budget `max`, after `units`: it costs its base units, is refused if its
/// program account exists but is not executable, and then charges what its
/// program costs; the system program first creates the signer's account if
/// it is missing.
pub open spec fn step(ix: Instruction, signer: Pubkey, max: u64, units: int, accounts: Map<Pubkey, AccountView>) -> (
    Result<(), TxFailure>,
    int,
    Map<Pubkey, AccountView>,
) {
    let u1 = units + INSTRUCTION_COST;
    if u1 > max {
        (Err(TxFailure::ComputeBudgetExceeded), u1, accounts)
    } else if accounts.contains_key(ix.program_id) && !accounts[ix.program_id].executable {
        (Err(TxFailure::NotAProgram), u1, accounts)
    } else if ix.program_id@ == system_id() {
        let a2 = if accounts.contains_key(signer) {
            accounts
        } else {
            accounts.insert(signer, system_account_view(0))
        };
        let u2 = u1 + SYSTEM_PROGRAM_COST;
        if u2 > max {
            (Err(TxFailure::ComputeBudgetExceeded), u2, a2)
        } else {
            (Ok(()), u2, a2)
        }
    } else if ix.program_id@ == token_id() {
        (Ok(()), u1, accounts)
    } else {
        let u2 = u1 + GENERIC_PROGRAM_COST;
        if u2 > max {
            (Err(TxFailure::ComputeBudgetExceeded), u2, accounts)
        } else {
            (Ok(()), u2, accounts)
        }
    }
}

/// The outcome of running a transaction's instructions from the `i`-th on,
/// with `units` consumed so far; the first failure stops the run.
pub open spec fn run_from(tx: Transaction, i: int, units: int, accounts: Map<Pubkey, AccountView>) -> (
    Result<(), TxFailure>,
    int,
    Map<Pubkey, AccountView>,
)
    decreases tx.instructions@.len() - i,
{
    if i < 0 || i >= tx.instructions@.len() {
        (Ok(()), units, accounts)
    } else {
        let (r, u, a) = step(tx.instructions@[i], tx.signer, tx.compute_budget, units, accounts);
        match r {
            Ok(()) => run_from(tx, i + 1, u, a),
            Err(f) => (Err(f), u, a),
        }
    }
}

/// The outcome of executing a transaction: validation, the signature, the
/// fee's units, the instructions, and a final charge that cannot fail it.
pub open spec fn spec_execute(tx: Transaction, accounts: Map<Pubkey, AccountView>) -> (
    Result<(), TxFailure>,
    int,
    Map<Pubkey, AccountView>,
) {
    match spec_validate(tx) {
        Err(TransactionError::NoInstructions) => (Err(TxFailure::NoInstructions), 0, accounts),
        Err(TransactionError::ZeroComputeBudget) => (Err(TxFailure::ZeroComputeBudget), 0, accounts),
        Err(_) => (Err(TxFailure::InsufficientFee), 0, accounts),
        Ok(()) => if tx.signature@.len() == 0 {
            (Err(TxFailure::InvalidSignature), 0, accounts)
        } else if FEE_COST > tx.compute_budget {
            (Err(TxFailure::ComputeBudgetExceeded), FEE_COST as int, accounts)
        } else {
            let (r, units, a) = run_from(tx, 0, FEE_COST as int, accounts);
            match r {
                Ok(()) => (Ok(()), units + FINAL_COST, a),
                Err(f) => (Err(f), units, a),
            }
        },
    }
}

/// Running instructions from the `i`-th on keeps every account that was
/// there at the start; if the run succeeds, none of those instructions
/// names a starting account that is not executable.
proof fn lemma_run_from_programs(
    tx: Transaction,
    i: int,
    units: int,
    a: Map<Pubkey, AccountView>,
    orig: Map<Pubkey, AccountView>,
)
    requires
        0 <= i,
        forall|k: Pubkey| #[trigger] orig.contains_key(k) ==> a.contains_key(k) && a[k] == orig[k],
    ensures
        run_from(tx, i, units, a).0 is Ok ==> forall|j: int|
            i <= j < tx.instructions@.len() && orig.contains_key(#[trigger] tx.instructions@[j].program_id)
                ==> orig[tx.instructions@[j].program_id].executable,
    decreases tx.instructions@.len() - i,
{
    if i < tx.instructions@.len() {
        let ix = tx.instructions@[i];
        let (r, u, a2) = step(ix, tx.signer, tx.compute_budget, units, a);
        assert forall|k: Pubkey| #[trigger] orig.contains_key(k) implies a2.contains_key(k) && a2[k] == orig[k] by {
            if !a.contains_key(tx.signer) {
                assert(k != tx.signer);
            }
        }
        if r is Ok {
            lemma_run_from_programs(tx, i + 1, u, a2, orig);
            if orig.contains_key(ix.program_id) {
                assert(a.contains_key(ix.program_id));
            }
        }
    }
}

/// A transaction that succeeds names no existing account that is not
/// executable as the program of any of its instructions.
pub proof fn lemma_execute_needs_programs(tx: Transaction, accounts: Map<Pubkey, AccountView>)
    ensures
        spec_execute(tx, accounts).0 is Ok ==> forall|j: int|
            0 <= j < tx.instructions@.len() && accounts.contains_key(#[trigger] tx.instructions@[j].program_id)
                ==> accounts[tx.instructions@[j].program_id].executable,
{
    lemma_run_from_programs(tx, 0, FEE_COST as int, accounts, accounts);
}

/// A valid, signed transaction whose budget covers the fee and one
/// instruction, and whose first instruction names an existing account that
/// is not executable, fails as not naming a program, after the fee's and
/// the instruction's units, with the accounts unchanged.
pub proof fn lemma_not_a_program_refused(tx: Transaction, accounts: Map<Pubkey, AccountView>)
    requires
        spec_validate(tx) is Ok,
        tx.signature@.len() > 0,
        FEE_COST + INSTRUCTION_COST <= tx.compute_budget,
        tx.instructions@.len() > 0,
        accounts.contains_key(tx.instructions@[0].program_id),
        !accounts[tx.instructions@[0].program_id].executable,
    ensures
        spec_execute(tx, accounts) == (Err::<(), TxFailure>(TxFailure::NotAProgram), (FEE_COST + INSTRUCTION_COST) as int, accounts),
{
}

/// The executor's state as values.
pub struct ExecutorView {
    pub db: AccountsDBView,
    pub total_executed: u64,
    pub total_compute: u64,
}

/// Executes transactions against the accounts database it owns.
pub struct Executor {
    db: AccountsDB,
    total_executed: u64,
    total_compute: u64,
}

/// Executor counters.
#[derive(Debug, Clone)]
pub struct ExecutorStats {
    pub total_executed: u64,
    pub total_compute: u64,
}

impl View for Executor {
    type V = ExecutorView;

    closed spec fn view(&self) -> ExecutorView {
        ExecutorView { db: self.db@, total_executed: self.total_executed, total_compute: self.total_compute }
    }
}

/// The result reports the outcome and units of a transaction.
pub open spec fn result_reports(
    r: TransactionResult,
    tx: Transaction,
    outcome: Result<(), TxFailure>,
    units: int,
) -> bool {
    &&& r.compute_units_consumed == units
    &&& match outcome {
        Ok(()) => r.success && r.fee_paid == tx.fee && r.error is None,
        Err(f) => !r.success && r.fee_paid == 0 && (r.error matches Some(e) && reports(e, f)),
    }
}

/// The executor can run `tx` without any counter or the log overflowing.
pub open spec fn can_execute(ev: ExecutorView, tx: Transaction) -> bool {
    &&& tx.compute_budget + GENERIC_PROGRAM_COST <= u64::MAX
    &&& ev.total_executed < u64::MAX
    &&& ev.total_compute + tx.compute_budget + FINAL_COST <= u64::MAX
    &&& ev.db.has_room(1, 53)
}

/// What running a batch amounts to.
pub struct BatchRun {
    /// Outcome and units of each transaction, in order.
    pub outcomes: Seq<(Result<(), TxFailure>, int)>,
    /// The accounts afterwards.
    pub accounts: Map<Pubkey, AccountView>,
    /// How many transactions succeeded.
    pub executed: int,
    /// Units of the transactions that succeeded.
    pub compute: int,
}

/// Running `txs` one after the other from `accounts`.
pub open spec fn run_batch(txs: Seq<Transaction>, accounts: Map<Pubkey, AccountView>) -> BatchRun
    decreases txs.len(),
{
    if txs.len() == 0 {
        BatchRun { outcomes: Seq::empty(), accounts, executed: 0, compute: 0 }
    } else {
        let before = run_batch(txs.drop_last(), accounts);
        let (r, u, a) = spec_execute(txs.last(), before.accounts);
        BatchRun {
            outcomes: before.outcomes.push((r, u)),
            accounts: a,
            executed: before.executed + (if r is Ok {
                1int
            } else {
                0
            }),
            compute: before.compute + (if r is Ok {
                u
            } else {
                0
            }),
        }
    }
}

/// The compute budgets of `txs`, each with the final charge.
pub open spec fn budget_sum(txs: Seq<Transaction>) -> int
    decreases txs.len(),
{
    if txs.len() == 0 {
        0
    } else {
        budget_sum(txs.drop_last()) + txs.last().compute_budget + FINAL_COST
    }
}

/// Every transaction of a batch can run without a counter or the log
/// overflowing.
pub open spec fn batch_fits(ev: ExecutorView, txs: Seq<Transaction>) -> bool {
    &&& forall|k: int| 0 <= k < txs.len() ==> #[trigger] txs[k].compute_budget + GENERIC_PROGRAM_COST <= u64::MAX
    &&& ev.total_executed + txs.len() <= u64::MAX
    &&& ev.total_compute + budget_sum(txs) <= u64::MAX
    &&& ev.db.has_room(txs.len(), 53 * txs.len() as int)
}

/// A successful run stays within the budget.
proof fn lemma_run_from_within_budget(tx: Transaction, i: int, units: int, accounts: Map<Pubkey, AccountView>)
    requires
        0 <= units <= tx.compute_budget,
    ensures
        run_from(tx, i, units, accounts).0 is Ok ==> 0 <= run_from(tx, i, units, accounts).1 <= tx.compute_budget,
    decreases tx.instructions@.len() - i,
{
    if 0 <= i < tx.instructions@.len() {
        let (r, u, a) = step(tx.instructions@[i], tx.signer, tx.compute_budget, units, accounts);
        if r is Ok {
            lemma_run_from_within_budget(tx, i + 1, u, a);
        }
    }
}

/// A successful transaction consumes at most its budget and the final charge.
proof fn lemma_execute_within_budget(tx: Transaction, accounts: Map<Pubkey, AccountView>)
    ensures
        spec_execute(tx, accounts).0 is Ok ==> 0 <= spec_execute(tx, accounts).1 <= tx.compute_budget
            + FINAL_COST,
{
    if FEE_COST <= tx.compute_budget {
        lemma_run_from_within_budget(tx, 0, FEE_COST as int, accounts);
    }
}

proof fn lemma_run_batch_len(txs: Seq<Transaction>, accounts: Map<Pubkey, AccountView>)
    ensures
        run_batch(txs, accounts).outcomes.len() == txs.len(),
    decreases txs.len(),
{
    if txs.len() > 0 {
        lemma_run_batch_len(txs.drop_last(), accounts);
    }
}

proof fn lemma_budget_sum_prefix(txs: Seq<Transaction>, k: int)
    requires
        0 <= k < txs.len(),
    ensures
        budget_sum(txs.take(k + 1)) == budget_sum(txs.take(k)) + txs[k].compute_budget + FINAL_COST,
        budget_sum(txs.take(k + 1)) <= budget_sum(txs),
    decreases txs.len(),
{
    assert(txs.take(k + 1).drop_last() =~= txs.take(k));
    if k + 1 < txs.len() {
        lemma_budget_sum_prefix(txs.drop_last(), k);
        assert(txs.drop_last().take(k + 1) =~= txs.take(k + 1));
        assert(txs.drop_last().take(k) =~= txs.take(k));
    } else {
        assert(txs.take(k + 1) =~= txs);
    }
}

impl Executor {
    /// The database is well formed.
    pub closed spec fn wf(&self) -> bool {
        self.db.wf()
    }

    /// An executor over `db` with zero counters.
    pub fn new(db: AccountsDB) -> (e: Self)
        requires
            db.wf(),
        ensures
            e.wf(),
            e@.db == db@,
            e@.total_executed == 0,
            e@.total_compute == 0,
    {
        Executor { db, total_executed: 0, total_compute: 0 }
    }

    /// The accounts database.
    pub fn db(&self) -> (db: &AccountsDB)
        ensures
            db@ == self@.db,
            self.wf() ==> db.wf(),
    {
        &self.db
    }

    /// Stores an account in the database.
    pub fn store_account(&mut self, pubkey: Pubkey, account: &Account)
        requires
            old(self).wf(),
            old(self)@.db.write_version < u64::MAX,
            old(self)@.db.total_bytes + crate::accounts::account::spec_encode_account(account@).len() <= usize::MAX,
        ensures
            final(self).wf(),
            final(self)@.db.accounts == old(self)@.db.accounts.insert(pubkey, account@),
            final(self)@.db.write_version == old(self)@.db.write_version + 1,
            final(self)@.db.total_bytes == old(self)@.db.total_bytes
                + crate::accounts::account::spec_encode_account(account@).len(),
            final(self)@.total_executed == old(self)@.total_executed,
            final(self)@.total_compute == old(self)@.total_compute,
    {
        self.db.store(pubkey, account);
    }

    /// Executes one transaction: validates it, checks that it is signed,
    /// charges the fee's units, runs each instruction, and on success
    /// counts it and its units.
    pub fn execute_transaction(&mut self, tx: &Transaction) -> (r: TransactionResult)
        requires
            old(self).wf(),
            can_execute(old(self)@, *tx),
        ensures
            final(self).wf(),
            ({
                let (outcome, units, accounts) = spec_execute(*tx, old(self)@.db.accounts);
                &&& result_reports(r, *tx, outcome, units)
                &&& final(self)@.db.accounts == accounts
                &&& final(self)@.db.write_version <= old(self)@.db.write_version + 1
                &&& final(self)@.db.total_bytes <= old(self)@.db.total_bytes + 53
                &&& final(self)@.total_executed == old(self)@.total_executed + (if outcome is Ok {
                    1int
                } else {
                    0
                })
                &&& final(self)@.total_compute == old(self)@.total_compute + (if outcome is Ok {
                    units
                } else {
                    0
                })
            }),
            r.success ==> forall|j: int|
                0 <= j < tx.instructions@.len() && old(self)@.db.accounts.contains_key(
                    #[trigger] tx.instructions@[j].program_id,
                ) ==> old(self)@.db.accounts[tx.instructions@[j].program_id].executable,
    {
        proof {
            lemma_execute_needs_programs(*tx, old(self)@.db.accounts);
        }
        let mut ctx = ExecutionContext::new(tx.compute_budget);
        match tx.validate() {
            Err(e) => {
                return TransactionResult::failure(e, 0);
            },
            Ok(()) => {},
        }
        if !tx.verify_signature() {
            return TransactionResult::failure(TransactionError::InvalidSignature, ctx.compute_units);
        }
        match self.execute_fee_payment(tx, &mut ctx) {
            Err(e) => {
                return TransactionResult::failure(e, ctx.compute_units);
            },
            Ok(()) => {},
        }
        let ghost start = self@.db.accounts;
        let mut i: usize = 0;
        while i < tx.instructions.len()
            invariant
                self.wf(),
                can_execute(old(self)@, *tx),
                i <= tx.instructions@.len(),
                ctx.max_compute_units == tx.compute_budget,
                FEE_COST <= ctx.compute_units <= tx.compute_budget,
                self@.total_executed == old(self)@.total_executed,
                self@.total_compute == old(self)@.total_compute,
                self@.db.accounts == start || (!start.contains_key(tx.signer) && self@.db.accounts
                    == start.insert(tx.signer, system_account_view(0))),
                self@.db.write_version <= old(self)@.db.write_version + (if self@.db.accounts == start {
                    0int
                } else {
                    1
                }),
                self@.db.total_bytes <= old(self)@.db.total_bytes + (if self@.db.accounts == start {
                    0int
                } else {
                    53
                }),
                self@.db.accounts == start ==> self@.db.write_version == old(self)@.db.write_version
                    && self@.db.total_bytes == old(self)@.db.total_bytes,
                start == old(self)@.db.accounts,
                spec_execute(*tx, start) == ({
                    let (r, u, a) = run_from(*tx, i as int, ctx.compute_units as int, self@.db.accounts);
                    match r {
                        Ok(()) => (Ok(()), u + FINAL_COST, a),
                        Err(f) => (Err(f), u, a),
                    }
                }),
            decreases tx.instructions@.len() - i,
        {
            let ix = &tx.instructions[i];
            match self.execute_instruction(tx, ix, &mut ctx) {
                Ok(()) => {},
                Err(e) => {
                    let mut msg = String::from_str("Instruction failed: ");
                    msg.append(e.display_text().as_str());
                    ctx.log(msg);
                    return TransactionResult::failure(e, ctx.compute_units);
                },
            }
            i = i + 1;
        }
        let _ = ctx.consume_compute(FINAL_COST);
        self.total_executed = self.total_executed + 1;
        self.total_compute = self.total_compute + ctx.compute_units;
        TransactionResult::success(ctx.compute_units, tx.fee)
    }

    /// Charges the fee's units and logs the fee.
    fn execute_fee_payment(&self, tx: &Transaction, ctx: &mut ExecutionContext) -> (r: Result<
        (),
        TransactionError,
    >)
        requires
            old(ctx).compute_units == 0,
        ensures
            final(ctx).compute_units == FEE_COST,
            final(ctx).max_compute_units == old(ctx).max_compute_units,
            r is Ok <==> FEE_COST <= old(ctx).max_compute_units,
            r matches Err(e) ==> e is ComputeBudgetExceeded,
    {
        ctx.consume_compute(FEE_COST)?;
        let mut msg = String::from_str("Fee paid: ");
        msg.append(tx.fee.to_string().as_str());
        msg.append(" lamports");
        ctx.log(msg);
        Ok(())
    }

    /// Runs one instruction: charges its units, refuses a program account
    /// that is not executable, then runs the program.
    fn execute_instruction(&mut self, tx: &Transaction, ix: &Instruction, ctx: &mut ExecutionContext) -> (r: Result<
        (),
        TransactionError,
    >)
        requires
            old(self).wf(),
            old(ctx).compute_units <= old(ctx).max_compute_units,
            old(ctx).max_compute_units + GENERIC_PROGRAM_COST <= u64::MAX,
            old(self)@.db.accounts.contains_key(tx.signer) || old(self)@.db.has_room(1, 53),
        ensures
            final(self).wf(),
            final(self)@.total_executed == old(self)@.total_executed,
            final(self)@.total_compute == old(self)@.total_compute,
            final(ctx).max_compute_units == old(ctx).max_compute_units,
            ({
                let (out, u, a) = step(
                    *ix,
                    tx.signer,
                    old(ctx).max_compute_units,
                    old(ctx).compute_units as int,
                    old(self)@.db.accounts,
                );
                &&& final(ctx).compute_units == u
                &&& final(self)@.db.accounts == a
                &&& match out {
                    Ok(()) => r is Ok,
                    Err(f) => r matches Err(e) && reports(e, f),
                }
            }),
            final(self)@.db.accounts == old(self)@.db.accounts ==> final(self)@.db.write_version == old(
                self,
            )@.db.write_version && final(self)@.db.total_bytes == old(self)@.db.total_bytes,
            final(self)@.db.accounts != old(self)@.db.accounts ==> final(self)@.db.write_version == old(
                self,
            )@.db.write_version + 1 && final(self)@.db.total_bytes == old(self)@.db.total_bytes + 53,
    {
        ctx.consume_compute(INSTRUCTION_COST)?;
        let mut msg = String::from_str("Executing program: ");
        msg.append(debug_text(&ix.program_id).as_str());
        ctx.log(msg);
        match self.db.load(&ix.program_id) {
            Some(program) => {
                if !program.executable {
                    return Err(TransactionError::ProgramError(String::from_str("Account is not a program")));
                }
            },
            None => {},
        }
        let mut system = [0u8; 32];
        system[0] = 1;
        let mut token = [0u8; 32];
        token[0] = 2;
        proof {
            broadcast use vstd::array::group_array_axioms;

            assert(system@ =~= system_id());
            assert(token@ =~= token_id());
        }
        if bytes32_eq(&ix.program_id, &system) {
            self.execute_system_program(tx, ctx)?;
        } else if bytes32_eq(&ix.program_id, &token) {
            ctx.log(String::from_str("Token program invoked (stub)"));
        } else {
            ctx.consume_compute(GENERIC_PROGRAM_COST)?;
            let mut msg = String::from_str("Custom program executed: ");
            msg.append(debug_text(&ix.program_id).as_str());
            ctx.log(msg);
        }
        Ok(())
    }

    /// The system program: creates the signer's account if it is missing,
    /// then charges its units.
    fn execute_system_program(&mut self, tx: &Transaction, ctx: &mut ExecutionContext) -> (r: Result<
        (),
        TransactionError,
    >)
        requires
            old(self).wf(),
            old(ctx).compute_units + SYSTEM_PROGRAM_COST <= u64::MAX,
            old(self)@.db.accounts.contains_key(tx.signer) || old(self)@.db.has_room(1, 53),
        ensures
            final(self).wf(),
            final(self)@.total_executed == old(self)@.total_executed,
            final(self)@.total_compute == old(self)@.total_compute,
            final(ctx).max_compute_units == old(ctx).max_compute_units,
            final(ctx).compute_units == old(ctx).compute_units + SYSTEM_PROGRAM_COST,
            r is Ok <==> final(ctx).compute_units <= final(ctx).max_compute_units,
            r matches Err(e) ==> e is ComputeBudgetExceeded,
            old(self)@.db.accounts.contains_key(tx.signer) ==> final(self)@ == old(self)@,
            !old(self)@.db.accounts.contains_key(tx.signer) ==> {
                &&& final(self)@.db.accounts == old(self)@.db.accounts.insert(tx.signer, system_account_view(0))
                &&& final(self)@.db.write_version == old(self)@.db.write_version + 1
                &&& final(self)@.db.total_bytes == old(self)@.db.total_bytes + 53
            },
    {
        if !self.db.account_exists(&tx.signer) {
            let acc = Account::new_system_account(tx.signer, 0);
            proof {
                lemma_record_len_system(0);
            }
            self.db.store(tx.signer, &acc);
            let mut msg = String::from_str("Created account: ");
            msg.append(debug_text(&tx.signer).as_str());
            ctx.log(msg);
        }
        ctx.consume_compute(SYSTEM_PROGRAM_COST)?;
        ctx.log(String::from_str("System program: processed"));
        Ok(())
    }

    /// Executes each transaction of a batch in order.
    pub fn execute_batch(&mut self, batch: &ExecutionBatch) -> (results: Vec<TransactionResult>)
        requires
            old(self).wf(),
            batch_fits(old(self)@, batch.transactions@),
        ensures
            final(self).wf(),
            ({
                let run = run_batch(batch.transactions@, old(self)@.db.accounts);
                &&& results@.len() == batch.transactions@.len()
                &&& forall|k: int|
                    0 <= k < results@.len() ==> result_reports(
                        #[trigger] results@[k],
                        batch.transactions@[k],
                        run.outcomes[k].0,
                        run.outcomes[k].1,
                    )
                &&& final(self)@.db.accounts == run.accounts
                &&& final(self)@.total_executed == old(self)@.total_executed + run.executed
                &&& final(self)@.total_compute == old(self)@.total_compute + run.compute
            }),
    {
        let txs = &batch.transactions;
        let mut results: Vec<TransactionResult> = Vec::new();
        let mut k: usize = 0;
        while k < txs.len()
            invariant
                self.wf(),
                k <= txs@.len(),
                batch_fits(old(self)@, txs@),
                results@.len() == k,
                ({
                    let run = run_batch(txs@.take(k as int), old(self)@.db.accounts);
                    &&& forall|j: int|
                        0 <= j < k ==> result_reports(
                            #[trigger] results@[j],
                            txs@[j],
                            run.outcomes[j].0,
                            run.outcomes[j].1,
                        )
                    &&& self@.db.accounts == run.accounts
                    &&& self@.total_executed == old(self)@.total_executed + run.executed
                    &&& self@.total_compute == old(self)@.total_compute + run.compute
                    &&& 0 <= run.executed <= k
                    &&& 0 <= run.compute <= budget_sum(txs@.take(k as int))
                }),
                self@.db.write_version <= old(self)@.db.write_version + k,
                self@.db.total_bytes <= old(self)@.db.total_bytes + 53 * k,
            decreases txs@.len() - k,
        {
            let ghost before = self@;
            proof {
                assert(txs@.take(k + 1).drop_last() =~= txs@.take(k as int));
                lemma_budget_sum_prefix(txs@, k as int);
            }
            let r = self.execute_transaction(&txs[k]);
            let ghost prev_results = results@;
            results.push(r);
            proof {
                let prev = run_batch(txs@.take(k as int), old(self)@.db.accounts);
                let run = run_batch(txs@.take(k + 1), old(self)@.db.accounts);
                lemma_run_batch_len(txs@.take(k as int), old(self)@.db.accounts);
                lemma_execute_within_budget(txs@[k as int], prev.accounts);
                assert(txs@.take(k + 1).last() == txs@[k as int]);
                assert(run.outcomes == prev.outcomes.push(run.outcomes[k as int]));
                assert forall|j: int| 0 <= j < k + 1 implies result_reports(
                    #[trigger] results@[j],
                    txs@[j],
                    run.outcomes[j].0,
                    run.outcomes[j].1,
                ) by {
                    if j < k {
                        assert(results@[j] == prev_results[j]);
                        assert(run.outcomes[j] == prev.outcomes[j]);
                    }
                }
            }
            k = k + 1;
        }
        assert(txs@.take(k as int) =~= txs@);
        results
    }

    /// The number of transactions executed successfully.
    pub fn total_executed(&self) -> (n: u64)
        ensures
            n == self@.total_executed,
    {
        self.total_executed
    }

    /// The compute units of the successful transactions.
    pub fn total_compute(&self) -> (n: u64)
        ensures
            n == self@.total_compute,
    {
        self.total_compute
    }

    /// Both counters.
    pub fn stats(&self) -> (s: ExecutorStats)
        ensures
            s.total_executed == self@.total_executed,
            s.total_compute == self@.total_compute,
    {
        ExecutorStats { total_executed: self.total_executed, total_compute: self.total_compute }
    }
}

} // verus!
