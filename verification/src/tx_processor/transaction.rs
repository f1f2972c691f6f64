//! Transactions: the accounts they read and write, when two of them
//! conflict, their hash and their basic validity.

use crate::accounts::account::Pubkey;
use crate::crypto::{append_bytes, debug_text, sha256, sha256_digest};
use vstd::prelude::*;
use vstd::string::StringExecFns;
use crate::text::{append_decimal, decimal};

verus! {

/// The base fee of a transaction, in lamports.
pub const BASE_FEE: u64 = 5000;

/// The compute budget a new transaction gets.
pub const DEFAULT_TX_COMPUTE_BUDGET: u64 = 200_000;

/// A transaction.
#[derive(Debug, Clone)]
pub struct Transaction {
    /// Signature bytes.
    pub signature: Vec<u8>,
    /// Public key of the signer.
    pub signer: Pubkey,
    /// Instructions to execute.
    pub instructions: Vec<Instruction>,
    /// A recent blockhash.
    pub recent_blockhash: [u8; 32],
    /// Compute units the transaction may consume.
    pub compute_budget: u64,
    /// Fee in lamports.
    pub fee: u64,
}

/// One instruction of a transaction.
#[derive(Debug, Clone)]
pub struct Instruction {
    /// Program to invoke.
    pub program_id: Pubkey,
    /// Accounts the instruction touches, by index in the transaction.
    pub accounts: Vec<AccountMeta>,
    /// Instruction data.
    pub data: Vec<u8>,
}

/// An account touched by an instruction.
#[derive(Debug, Clone, Copy)]
pub struct AccountMeta {
    /// Index of the account in the transaction's account list.
    pub index: u8,
    /// Whether the account signs.
    pub is_signer: bool,
    /// Whether the account is written.
    pub is_writable: bool,
}

/// The indices of the metas that are (or are not) writable, in order.
pub open spec fn meta_indices(metas: Seq<AccountMeta>, writable: bool) -> Seq<u8>
    decreases metas.len(),
{
    if metas.len() == 0 {
        Seq::empty()
    } else {
        let rest = meta_indices(metas.drop_last(), writable);
        if metas.last().is_writable == writable {
            rest.push(metas.last().index)
        } else {
            rest
        }
    }
}

/// The indices that the instructions touch writably (or read-only), in
/// instruction order.
pub open spec fn instruction_indices(ixs: Seq<Instruction>, writable: bool) -> Seq<u8>
    decreases ixs.len(),
{
    if ixs.len() == 0 {
        Seq::empty()
    } else {
        instruction_indices(ixs.drop_last(), writable) + meta_indices(ixs.last().accounts@, writable)
    }
}

/// The accounts a transaction writes.
pub open spec fn writes_of(tx: Transaction) -> Seq<u8> {
    instruction_indices(tx.instructions@, true)
}

/// The accounts a transaction reads without writing.
pub open spec fn reads_of(tx: Transaction) -> Seq<u8> {
    instruction_indices(tx.instructions@, false)
}

/// Some index occurs in both sequences.
pub open spec fn shares(a: Seq<u8>, b: Seq<u8>) -> bool {
    exists|x: u8| a.contains(x) && b.contains(x)
}

/// Two transactions conflict when either writes an account the other reads
/// or writes.
pub open spec fn tx_conflict(a: Transaction, b: Transaction) -> bool {
    ||| shares(writes_of(a), writes_of(b))
    ||| shares(writes_of(a), reads_of(b))
    ||| shares(writes_of(b), writes_of(a))
    ||| shares(writes_of(b), reads_of(a))
}

/// The bytes hashed for a transaction: signer, recent blockhash, then each
/// instruction's program id and data.
pub open spec fn tx_hash_input(tx: Transaction) -> Seq<u8> {
    tx.signer@ + tx.recent_blockhash@ + instructions_hash_input(tx.instructions@)
}

/// Program id and data of each instruction, concatenated.
pub open spec fn instructions_hash_input(ixs: Seq<Instruction>) -> Seq<u8>
    decreases ixs.len(),
{
    if ixs.len() == 0 {
        Seq::empty()
    } else {
        instructions_hash_input(ixs.drop_last()) + ixs.last().program_id@ + ixs.last().data@
    }
}

/// Whether `v` holds `x`.
pub fn contains_index(v: &Vec<u8>, x: u8) -> (r: bool)
    ensures
        r == v@.contains(x),
{
    let mut i: usize = 0;
    while i < v.len()
        invariant
            i <= v@.len(),
            forall|j: int| 0 <= j < i ==> v@[j] != x,
        decreases v@.len() - i,
    {
        if v[i] == x {
            assert(v@[i as int] == x);
            return true;
        }
        i = i + 1;
    }
    false
}

/// Whether some index occurs in both vectors.
pub fn any_shared(a: &Vec<u8>, b: &Vec<u8>) -> (r: bool)
    ensures
        r == shares(a@, b@),
{
    let mut i: usize = 0;
    while i < a.len()
        invariant
            i <= a@.len(),
            forall|j: int| 0 <= j < i ==> !b@.contains(#[trigger] a@[j]),
        decreases a@.len() - i,
    {
        if contains_index(b, a[i]) {
            assert(a@.contains(a@[i as int]));
            return true;
        }
        i = i + 1;
    }
    proof {
        assert forall|x: u8| !(a@.contains(x) && b@.contains(x)) by {
            if a@.contains(x) {
                let j = choose|j: int| 0 <= j < a@.len() && a@[j] == x;
                assert(!b@.contains(a@[j]));
            }
        }
    }
    false
}

/// The indices of an instruction list's metas with the given writability.
fn collect_indices(instructions: &Vec<Instruction>, writable: bool) -> (out: Vec<u8>)
    ensures
        out@ == instruction_indices(instructions@, writable),
{
    let mut out: Vec<u8> = Vec::new();
    let mut i: usize = 0;
    while i < instructions.len()
        invariant
            i <= instructions@.len(),
            out@ == instruction_indices(instructions@.take(i as int), writable),
        decreases instructions@.len() - i,
    {
        let metas = &instructions[i].accounts;
        let ghost before = out@;
        let mut j: usize = 0;
        while j < metas.len()
            invariant
                j <= metas@.len(),
                out@ == before + meta_indices(metas@.take(j as int), writable),
            decreases metas@.len() - j,
        {
            let m = metas[j];
            if m.is_writable == writable {
                out.push(m.index);
            }
            proof {
                assert(metas@.take(j + 1).drop_last() =~= metas@.take(j as int));
            }
            j = j + 1;
        }
        proof {
            assert(metas@.take(j as int) =~= metas@);
            assert(instructions@.take(i + 1).drop_last() =~= instructions@.take(i as int));
        }
        i = i + 1;
    }
    assert(instructions@.take(i as int) =~= instructions@);
    out
}

impl Transaction {
    /// A transaction with the base fee, the default compute budget and no
    /// signature.
    pub fn new(signer: Pubkey, instructions: Vec<Instruction>, recent_blockhash: [u8; 32]) -> (tx: Self)
        ensures
            tx.signature@.len() == 0,
            tx.signer == signer,
            tx.instructions@ == instructions@,
            tx.recent_blockhash == recent_blockhash,
            tx.compute_budget == DEFAULT_TX_COMPUTE_BUDGET,
            tx.fee == BASE_FEE,
    {
        Transaction {
            signature: Vec::new(),
            signer,
            instructions,
            recent_blockhash,
            compute_budget: DEFAULT_TX_COMPUTE_BUDGET,
            fee: BASE_FEE,
        }
    }

    /// The SHA-256 hash of the signer, the recent blockhash, and each
    /// instruction's program id and data.
    pub fn hash(&self) -> (h: [u8; 32])
        ensures
            h@ == sha256(tx_hash_input(*self)),
    {
        let mut buf: Vec<u8> = Vec::new();
        append_bytes(&mut buf, self.signer.as_slice());
        append_bytes(&mut buf, self.recent_blockhash.as_slice());
        let mut i: usize = 0;
        while i < self.instructions.len()
            invariant
                i <= self.instructions@.len(),
                buf@ == self.signer@ + self.recent_blockhash@ + instructions_hash_input(
                    self.instructions@.take(i as int),
                ),
            decreases self.instructions@.len() - i,
        {
            let ix = &self.instructions[i];
            append_bytes(&mut buf, ix.program_id.as_slice());
            append_bytes(&mut buf, ix.data.as_slice());
            proof {
                assert(self.instructions@.take(i + 1).drop_last() =~= self.instructions@.take(i as int));
                assert(buf@ =~= self.signer@ + self.recent_blockhash@ + instructions_hash_input(
                    self.instructions@.take(i + 1),
                ));
            }
            i = i + 1;
        }
        assert(self.instructions@.take(i as int) =~= self.instructions@);
        sha256_digest(buf.as_slice())
    }

    /// The accounts this transaction reads without writing, in order.
    pub fn read_accounts(&self) -> (r: Vec<u8>)
        ensures
            r@ == reads_of(*self),
    {
        collect_indices(&self.instructions, false)
    }

    /// The accounts this transaction writes, in order.
    pub fn write_accounts(&self) -> (r: Vec<u8>)
        ensures
            r@ == writes_of(*self),
    {
        collect_indices(&self.instructions, true)
    }

    /// Whether either transaction writes an account the other reads or writes.
    pub fn conflicts_with(&self, other: &Transaction) -> (r: bool)
        ensures
            r == tx_conflict(*self, *other),
    {
        let my_writes = self.write_accounts();
        let my_reads = self.read_accounts();
        let other_writes = other.write_accounts();
        let other_reads = other.read_accounts();
        any_shared(&my_writes, &other_writes) || any_shared(&my_writes, &other_reads) || any_shared(
            &other_writes,
            &my_writes,
        ) || any_shared(&other_writes, &my_reads)
    }

    /// Checks that there is an instruction, a nonzero compute budget and at
    /// least the base fee, in that order.
    pub fn validate(&self) -> (r: Result<(), TransactionError>)
        ensures
            r == spec_validate(*self),
    {
        if self.instructions.len() == 0 {
            return Err(TransactionError::NoInstructions);
        }
        if self.compute_budget == 0 {
            return Err(TransactionError::ZeroComputeBudget);
        }
        if self.fee < BASE_FEE {
            return Err(TransactionError::InsufficientFee);
        }
        Ok(())
    }

    /// Whether a signature is present (its bytes are not checked).
    pub fn verify_signature(&self) -> (b: bool)
        ensures
            b == (self.signature@.len() > 0),
    {
        self.signature.len() > 0
    }
}

/// What `validate` returns.
pub open spec fn spec_validate(tx: Transaction) -> Result<(), TransactionError> {
    if tx.instructions@.len() == 0 {
        Err(TransactionError::NoInstructions)
    } else if tx.compute_budget == 0 {
        Err(TransactionError::ZeroComputeBudget)
    } else if tx.fee < BASE_FEE {
        Err(TransactionError::InsufficientFee)
    } else {
        Ok(())
    }
}

/// The result of executing a transaction.
#[derive(Debug, Clone)]
pub struct TransactionResult {
    pub success: bool,
    pub compute_units_consumed: u64,
    pub fee_paid: u64,
    pub error: Option<TransactionError>,
    pub logs: Vec<String>,
}

impl TransactionResult {
    /// A success that consumed `compute_units` and paid `fee`.
    pub fn success(compute_units: u64, fee: u64) -> (r: Self)
        ensures
            r.success,
            r.compute_units_consumed == compute_units,
            r.fee_paid == fee,
            r.error is None,
            r.logs@.len() == 1,
    {
        let mut logs: Vec<String> = Vec::new();
        logs.push(String::from_str("Transaction executed successfully"));
        TransactionResult { success: true, compute_units_consumed: compute_units, fee_paid: fee, error: None, logs }
    }

    /// A failure with `error` after `compute_units`; no fee is paid.
    pub fn failure(error: TransactionError, compute_units: u64) -> (r: Self)
        ensures
            !r.success,
            r.compute_units_consumed == compute_units,
            r.fee_paid == 0,
            r.error == Some(error),
            r.logs@.len() == 1,
    {
        let mut msg = String::from_str("Transaction failed: ");
        msg.append(debug_text(&error).as_str());
        let mut logs: Vec<String> = Vec::new();
        logs.push(msg);
        TransactionResult {
            success: false,
            compute_units_consumed: compute_units,
            fee_paid: 0,
            error: Some(error),
            logs,
        }
    }
}

/// Why a transaction failed.
#[derive(Debug, Clone)]
pub enum TransactionError {
    NoInstructions,
    ZeroComputeBudget,
    InsufficientFee,
    InvalidSignature,
    AccountNotFound(u8),
    InsufficientLamports { needed: u64, available: u64 },
    ProgramError(String),
    ComputeBudgetExceeded,
    BlockhashNotFound,
    DuplicateTransaction,
}

impl TransactionError {
    /// The error as text, e.g. `Account 3 not found`.
    pub fn display_text(&self) -> (s: String)
        ensures
            match *self {
                TransactionError::NoInstructions => s@ == "No instructions"@,
                TransactionError::ZeroComputeBudget => s@ == "Zero compute budget"@,
                TransactionError::InsufficientFee => s@ == "Insufficient fee"@,
                TransactionError::InvalidSignature => s@ == "Invalid signature"@,
                TransactionError::AccountNotFound(idx) => s@ == "Account "@ + decimal(idx as nat) + " not found"@,
                TransactionError::InsufficientLamports { needed, available } => s@ == "Insufficient lamports: need "@
                    + decimal(needed as nat) + ", have "@ + decimal(available as nat),
                TransactionError::ProgramError(msg) => s@ == "Program error: "@ + msg@,
                TransactionError::ComputeBudgetExceeded => s@ == "Compute budget exceeded"@,
                TransactionError::BlockhashNotFound => s@ == "Blockhash not found"@,
                TransactionError::DuplicateTransaction => s@ == "Duplicate transaction"@,
            },
    {
        match self {
            TransactionError::NoInstructions => String::from_str("No instructions"),
            TransactionError::ZeroComputeBudget => String::from_str("Zero compute budget"),
            TransactionError::InsufficientFee => String::from_str("Insufficient fee"),
            TransactionError::InvalidSignature => String::from_str("Invalid signature"),
            TransactionError::AccountNotFound(idx) => {
                let mut s = String::from_str("Account ");
                append_decimal(&mut s, *idx as u64);
                s.append(" not found");
                s
            },
            TransactionError::InsufficientLamports { needed, available } => {
                let mut s = String::from_str("Insufficient lamports: need ");
                append_decimal(&mut s, *needed);
                s.append(", have ");
                append_decimal(&mut s, *available);
                s
            },
            TransactionError::ProgramError(msg) => {
                let mut s = String::from_str("Program error: ");
                s.append(msg.as_str());
                s
            },
            TransactionError::ComputeBudgetExceeded => String::from_str("Compute budget exceeded"),
            TransactionError::BlockhashNotFound => String::from_str("Blockhash not found"),
            TransactionError::DuplicateTransaction => String::from_str("Duplicate transaction"),
        }
    }
}

} // verus!
