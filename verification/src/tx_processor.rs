//! Transaction processing: transactions and their account sets, a scheduler
//! that packs non-conflicting transactions into batches, and an executor.

pub mod transaction;
pub mod scheduler;
pub mod executor;
