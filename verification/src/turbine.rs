//! Turbine block propagation: shreds, erasure coding, the propagation tree
//! and the propagator's bookkeeping.

pub mod shred;
pub mod erasure;
pub mod neighborhoods;
pub mod propagate;
