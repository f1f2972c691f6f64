//! Proof of History: a SHA-256 hash chain that proves sequential work, the
//! entries recorded along it, and the checks that verify them.

pub mod entry;
pub mod hasher;
pub mod recorder;
pub mod chain_verifier;

use vstd::prelude::*;

verus! {

/// Ticks per slot by default.
pub const DEFAULT_TICKS_PER_SLOT: u64 = 64;

/// Target ticks per second by default.
pub const DEFAULT_TARGET_TICKS_PER_SECOND: u64 = 160;

/// PoH configuration.
#[derive(Debug, Clone, Copy)]
pub struct PohConfig {
    /// Hashes between ticks.
    pub hashes_per_tick: u64,
    /// Target ticks per second.
    pub target_tick_rate: u64,
    /// Hashes before a forced tick.
    pub max_hashes_per_tick: u64,
}

impl Default for PohConfig {
    fn default() -> (c: Self)
        ensures
            c.hashes_per_tick == 6_000,
            c.target_tick_rate == 160,
            c.max_hashes_per_tick == 12_000,
    {
        PohConfig { hashes_per_tick: 6_000, target_tick_rate: 160, max_hashes_per_tick: 12_000 }
    }
}

} // verus!
