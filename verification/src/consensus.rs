//! Tower BFT consensus: votes and lockouts, the vote tower, fork choice and
//! the leader schedule.

pub mod vote;
pub mod tower;
pub mod fork_choice;
pub mod leader;
