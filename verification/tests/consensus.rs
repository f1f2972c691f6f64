use solana_validator::consensus::fork_choice::{ForkBlock, ForkChoice};
use solana_validator::consensus::leader::{LeaderSchedule, ValidatorStake};
use solana_validator::consensus::tower::Tower;
use solana_validator::consensus::vote::{ValidatorId, Vote, VoteState};

fn make_block(slot: u64, parent: Option<[u8; 32]>, voting_power: u64) -> ForkBlock {
    let mut hash = [0u8; 32];
    hash[0] = slot as u8;
    hash[1] = voting_power as u8;
    ForkBlock { hash, slot, parent_hash: parent, timestamp: slot * 400, height: slot, voting_power }
}

#[test]
fn test_genesis_block() {
    let genesis = make_block(0, None, 0);
    let fc = ForkChoice::new(genesis);
    assert_eq!(fc.best_head().unwrap().hash, genesis.hash);
    assert_eq!(fc.root().unwrap().hash, genesis.hash);
}

#[test]
fn fork_choice_test_fork_choice() {
    let genesis = make_block(0, None, 0);
    let genesis_hash = genesis.hash;
    let mut fc = ForkChoice::new(genesis);

    let block_a = make_block(1, Some(genesis_hash), 3);
    fc.add_block(block_a);

    let block_b = make_block(1, Some(genesis_hash), 5);
    fc.add_block(block_b);

    assert_eq!(fc.best_head().unwrap().hash, block_b.hash);
}

#[test]
fn test_chain_walk() {
    let genesis = make_block(0, None, 0);
    let mut fc = ForkChoice::new(genesis);

    let b1 = make_block(1, Some(genesis.hash), 1);
    fc.add_block(b1);

    let b2 = make_block(2, Some(b1.hash), 2);
    fc.add_block(b2);

    let chain = fc.chain_from(b2.hash);
    assert_eq!(chain.len(), 3);
    assert_eq!(chain[0].slot, 0);
    assert_eq!(chain[1].slot, 1);
    assert_eq!(chain[2].slot, 2);
}

fn make_validator(id: u8, stake: u64) -> ValidatorStake {
    let mut v = [0u8; 32];
    v[0] = id;
    ValidatorStake { validator: v, lamports: stake, name: format!("validator_{}", id) }
}

// The slots each validator's stake earns over an epoch: its share of the
// total stake times the epoch length, rounded down.
fn stake_slot_counts(validators: &[ValidatorStake], epoch_length: u64) -> Vec<u64> {
    let total: u64 = validators.iter().map(|v| v.lamports).sum();
    validators
        .iter()
        .map(|v| {
            let proportion = v.lamports as f64 / total as f64;
            (proportion * epoch_length as f64) as u64
        })
        .collect()
}

fn schedule_for(validators: Vec<ValidatorStake>, slots_per_leader: u64, epoch_length: u64) -> LeaderSchedule {
    let counts = stake_slot_counts(&validators, epoch_length);
    LeaderSchedule::new(validators, counts, slots_per_leader, epoch_length)
}

#[test]
fn test_leader_schedule_creation() {
    let validators = vec![make_validator(1, 1000), make_validator(2, 500), make_validator(3, 500)];
    let schedule = schedule_for(validators, 4, 100);
    assert_eq!(schedule.total_validators(), 3);
    assert_eq!(schedule.epoch_length(), 100);
}

#[test]
fn test_leader_for_slot() {
    let validators = vec![make_validator(1, 1000), make_validator(2, 500)];
    let schedule = schedule_for(validators, 4, 100);

    let v1_slots = schedule.slots_for_leader(&make_validator(1, 0).validator);
    let v2_slots = schedule.slots_for_leader(&make_validator(2, 0).validator);

    assert!(v1_slots.len() >= v2_slots.len());
}

#[test]
fn test_is_leader() {
    let validators = vec![make_validator(1, 1000)];
    let schedule = schedule_for(validators, 4, 100);

    assert!(schedule.is_leader(&make_validator(1, 0).validator, 0));
    assert!(schedule.is_leader(&make_validator(1, 0).validator, 50));
}

#[test]
fn test_advance_epoch() {
    let validators = vec![make_validator(1, 1000)];
    let mut schedule = schedule_for(validators, 4, 100);

    assert_eq!(schedule.current_epoch(), 0);
    schedule.advance_epoch();
    assert_eq!(schedule.current_epoch(), 1);
}

fn tower_validator(id: u8) -> ValidatorId {
    let mut v = [0u8; 32];
    v[0] = id;
    v
}

#[test]
fn test_tower_creation() {
    let tower = Tower::new(0);
    let stats = tower.stats();
    assert_eq!(stats.total_nodes, 0);
    assert_eq!(stats.total_validators, 0);
}

#[test]
fn test_single_vote() {
    let mut tower = Tower::new(0);
    let validator = tower_validator(1);
    let vote = Vote::new(validator, 10, [42u8; 32], None);

    assert!(tower.process_vote(vote));
    assert_eq!(tower.stats().total_votes, 1);
}

#[test]
fn test_multiple_validators_vote_same_block() {
    let mut tower = Tower::new(0);

    for i in 0..5 {
        let validator = tower_validator(i);
        let vote = Vote::new(validator, 10, [42u8; 32], None);
        tower.process_vote(vote);
    }

    assert_eq!(tower.best_head(), Some([42u8; 32]));
    assert!(tower.is_slot_confirmed(10));
}

#[test]
fn tower_test_fork_choice() {
    let mut tower = Tower::new(0);

    for i in 0..3 {
        let vote = Vote::new(tower_validator(i), 10, [1u8; 32], None);
        tower.process_vote(vote);
    }
    for i in 3..8 {
        let vote = Vote::new(tower_validator(i), 10, [2u8; 32], None);
        tower.process_vote(vote);
    }

    assert_eq!(tower.best_head(), Some([2u8; 32]));
}

fn test_validator() -> ValidatorId {
    tower_validator(1)
}

#[test]
fn test_vote_creation() {
    let validator = test_validator();
    let vote = Vote::new(validator, 10, [42u8; 32], Some(9));

    assert_eq!(vote.slot, 10);
    assert_eq!(vote.validator, validator);
    assert_eq!(vote.parent_slot, Some(9));
}

#[test]
fn test_vote_state_creation() {
    let validator = test_validator();
    let state = VoteState::new(validator, 0);

    assert_eq!(state.root_slot, 0);
    assert_eq!(state.consecutive_votes, 0);
    assert_eq!(state.total_votes, 0);
}

#[test]
fn test_vote_state_processing() {
    let validator = test_validator();
    let mut state = VoteState::new(validator, 0);

    let vote = Vote::new(validator, 10, [1u8; 32], Some(9));
    state.process_vote(&vote);

    assert_eq!(state.last_vote_slot, 10);
    assert_eq!(state.consecutive_votes, 1);
    assert_eq!(state.total_votes, 1);
}

#[test]
fn test_lockout_increases() {
    let validator = test_validator();
    let mut state = VoteState::new(validator, 0);

    let vote1 = Vote::new(validator, 10, [1u8; 32], Some(9));
    state.process_vote(&vote1);
    assert_eq!(state.lockout_slots(), 2);

    let vote2 = Vote::new(validator, 20, [2u8; 32], Some(19));
    state.process_vote(&vote2);
    assert_eq!(state.lockout_slots(), 4);

    let vote3 = Vote::new(validator, 30, [3u8; 32], Some(29));
    state.process_vote(&vote3);
    assert_eq!(state.lockout_slots(), 8);
}

#[test]
fn test_fork_switch() {
    let validator = test_validator();
    let mut state = VoteState::new(validator, 0);

    for i in 1..6u64 {
        let vote = Vote::new(validator, i * 10, [i as u8; 32], Some((i - 1) * 10));
        state.process_vote(&vote);
    }

    assert!(!state.can_switch_fork(50));

    state.switch_fork();
    assert_eq!(state.consecutive_votes, 0);
    assert!(state.can_switch_fork(51));
}

#[test]
fn test_root_update() {
    let validator = test_validator();
    let mut state = VoteState::new(validator, 0);

    for i in 1..11u64 {
        let vote = Vote::new(validator, i, [i as u8; 32], Some(i - 1));
        state.process_vote(&vote);
    }

    assert_eq!(state.history.len(), 10);

    state.update_root(5);
    assert_eq!(state.root_slot, 5);
    assert!(state.history.iter().all(|e| e.slot >= 5));
}

// The best head never loses weight when a lighter block arrives.
#[test]
fn best_head_not_replaced_by_lighter_block() {
    let genesis = make_block(0, None, 0);
    let mut fc = ForkChoice::new(genesis);
    let heavy = make_block(1, Some(genesis.hash), 9);
    fc.add_block(heavy);
    let light = make_block(2, Some(heavy.hash), 1);
    fc.add_block(light);
    assert_eq!(fc.best_head().unwrap().hash, heavy.hash);
    assert!(fc.best_head().unwrap().voting_power >= 9);
}

// The schedule covers the whole epoch: every slot has a leader, and with
// two equal stakes each leads half the epoch.
#[test]
fn schedule_covers_epoch() {
    let validators = vec![make_validator(1, 500), make_validator(2, 500)];
    let schedule = schedule_for(validators, 4, 10);
    let a = schedule.slots_for_leader(&make_validator(1, 0).validator);
    let b = schedule.slots_for_leader(&make_validator(2, 0).validator);
    assert_eq!(a.len() + b.len(), 10);
    assert_eq!(a.len(), 5);
    for slot in 0..10 {
        let l = schedule.leader_for_slot(slot).validator;
        assert!(schedule.is_leader(&l, slot));
    }
}

// The heaviest stake comes first in the schedule.
#[test]
fn schedule_orders_by_stake() {
    let validators = vec![make_validator(1, 100), make_validator(2, 900)];
    let schedule = schedule_for(validators, 4, 10);
    assert_eq!(schedule.leader_for_slot(0).validator, make_validator(2, 0).validator);
}

// A second vote from the same validator for an older slot is refused.
#[test]
fn older_vote_refused() {
    let mut tower = Tower::new(0);
    let v = tower_validator(3);
    assert!(tower.process_vote(Vote::new(v, 20, [7u8; 32], None)));
    assert!(!tower.process_vote(Vote::new(v, 10, [8u8; 32], None)));
    assert_eq!(tower.stats().total_votes, 1);
}

// Confirmation needs more than two thirds of the validators: two of four
// are not enough, three are.
#[test]
fn confirmation_needs_more_than_two_thirds() {
    let mut tower = Tower::new(0);
    assert!(tower.process_vote(Vote::new(tower_validator(0), 10, [1u8; 32], None)));
    assert!(tower.process_vote(Vote::new(tower_validator(1), 10, [1u8; 32], None)));
    assert!(tower.process_vote(Vote::new(tower_validator(2), 9, [3u8; 32], None)));
    assert!(tower.process_vote(Vote::new(tower_validator(3), 9, [3u8; 32], None)));
    assert_eq!(tower.stats().total_validators, 4);
    assert!(!tower.is_slot_confirmed(10));
    assert!(tower.process_vote(Vote::new(tower_validator(2), 10, [1u8; 32], Some(9))));
    assert!(tower.is_slot_confirmed(10));
}

// The schedule repeats every epoch: a slot and the slot one epoch later
// have the same leader.
#[test]
fn leader_repeats_every_epoch() {
    let validators = vec![make_validator(1, 500), make_validator(2, 300), make_validator(3, 200)];
    let schedule = schedule_for(validators, 2, 10);
    for s in 0..30u64 {
        assert_eq!(schedule.leader_for_slot(s).validator, schedule.leader_for_slot(s + 10).validator);
    }
}
