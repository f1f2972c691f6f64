//! A small program runtime: instruction encodings, a compute budget, and the
//! system and token programs acting on the accounts database.

pub mod instruction;
pub mod processor;
pub mod system_program;
pub mod token_program;

use vstd::prelude::*;
use vstd::string::StringExecFns;
use crate::text::{append_decimal, decimal};

verus! {

/// Compute units for one instruction.
pub const DEFAULT_COMPUTE_UNITS: u64 = 200;

/// Upper bound on compute units.
pub const MAX_COMPUTE_UNITS: u64 = 200_000;

/// Why an instruction failed.
#[derive(Debug, Clone)]
pub enum InstructionError {
    /// The compute budget ran out.
    InsufficientComputeUnits,
    /// The instruction data could not be understood.
    InvalidInstructionData(String),
    /// An account was missing.
    AccountNotFound,
    /// An account was not writable.
    AccountNotWritable,
    /// Not enough funds.
    InsufficientFunds { needed: u64, available: u64 },
    /// A program refused the instruction.
    ProgramError(String),
    /// An account has the wrong owner.
    InvalidAccountOwner,
    /// Arithmetic overflowed.
    ArithmeticOverflow,
    /// A program-specific error.
    Custom(u32, String),
}

/// The kind of an instruction failure, as a value.
pub enum Failure {
    ComputeUnits,
    InvalidData,
    ProgramRefused,
    AccountNotFound,
    AccountNotWritable,
    Funds { needed: u64, available: u64 },
    InvalidOwner,
    Overflow,
    Custom(u32),
}

/// The kind of an error.
pub open spec fn failure_of(e: InstructionError) -> Failure {
    match e {
        InstructionError::InsufficientComputeUnits => Failure::ComputeUnits,
        InstructionError::InvalidInstructionData(_) => Failure::InvalidData,
        InstructionError::AccountNotFound => Failure::AccountNotFound,
        InstructionError::AccountNotWritable => Failure::AccountNotWritable,
        InstructionError::InsufficientFunds { needed, available } => Failure::Funds { needed, available },
        InstructionError::ProgramError(_) => Failure::ProgramRefused,
        InstructionError::InvalidAccountOwner => Failure::InvalidOwner,
        InstructionError::ArithmeticOverflow => Failure::Overflow,
        InstructionError::Custom(code, _) => Failure::Custom(code),
    }
}

impl InstructionError {
    /// The error as text, e.g. `Insufficient funds: need 1000, have 500`.
    pub fn display_text(&self) -> (s: String)
        ensures
            match *self {
                InstructionError::InsufficientComputeUnits => s@ == "Insufficient compute units"@,
                InstructionError::InvalidInstructionData(msg) => s@ == "Invalid instruction data: "@ + msg@,
                InstructionError::AccountNotFound => s@ == "Account not found"@,
                InstructionError::AccountNotWritable => s@ == "Account not writable"@,
                InstructionError::InsufficientFunds { needed, available } => s@ == "Insufficient funds: need "@
                    + decimal(needed as nat) + ", have "@ + decimal(available as nat),
                InstructionError::ProgramError(msg) => s@ == "Program error: "@ + msg@,
                InstructionError::InvalidAccountOwner => s@ == "Invalid account owner"@,
                InstructionError::ArithmeticOverflow => s@ == "Arithmetic overflow"@,
                InstructionError::Custom(code, msg) => s@ == "Custom error "@ + decimal(code as nat) + ": "@ + msg@,
            },
    {
        match self {
            InstructionError::InsufficientComputeUnits => String::from_str("Insufficient compute units"),
            InstructionError::InvalidInstructionData(msg) => {
                let mut s = String::from_str("Invalid instruction data: ");
                s.append(msg.as_str());
                s
            },
            InstructionError::AccountNotFound => String::from_str("Account not found"),
            InstructionError::AccountNotWritable => String::from_str("Account not writable"),
            InstructionError::InsufficientFunds { needed, available } => {
                let mut s = String::from_str("Insufficient funds: need ");
                append_decimal(&mut s, *needed);
                s.append(", have ");
                append_decimal(&mut s, *available);
                s
            },
            InstructionError::ProgramError(msg) => {
                let mut s = String::from_str("Program error: ");
                s.append(msg.as_str());
                s
            },
            InstructionError::InvalidAccountOwner => String::from_str("Invalid account owner"),
            InstructionError::ArithmeticOverflow => String::from_str("Arithmetic overflow"),
            InstructionError::Custom(code, msg) => {
                let mut s = String::from_str("Custom error ");
                append_decimal(&mut s, *code as u64);
                s.append(": ");
                s.append(msg.as_str());
                s
            },
        }
    }
}

} // verus!
