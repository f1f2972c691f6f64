//! A Solana-like validator core: Proof of History, accounts and state roots,
//! Tower BFT voting, Turbine shredding, CRDS gossip, Sealevel-style scheduling
//! and a small program runtime.

pub mod crypto;
pub mod text;
pub mod byte_order;
pub mod shared_map;
pub mod poh;
pub mod accounts;
pub mod program_executor;
pub mod tx_processor;
pub mod consensus;
pub mod turbine;
pub mod gossip;
pub mod rpc;
