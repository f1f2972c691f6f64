use solana_validator::turbine::erasure::{ErasureCoder, ErasureConfig};
use solana_validator::turbine::neighborhoods::Neighborhood;
use solana_validator::turbine::propagate::TurbinePropagator;
use solana_validator::turbine::shred::{Shred, ShredId, ShredType};

#[test]
fn test_data_shred_creation() {
    let shred = Shred::new_data(10, 0, vec![1, 2, 3, 4]);
    assert_eq!(shred.slot, 10);
    assert_eq!(shred.index, 0);
    assert_eq!(shred.shred_type, ShredType::Data);
    assert!(shred.verify());
}

#[test]
fn test_coding_shred_creation() {
    let shred = Shred::new_coding(10, 0, vec![5, 6, 7, 8]);
    assert_eq!(shred.shred_type, ShredType::Coding);
    assert!(shred.verify());
}

#[test]
fn test_shred_integrity() {
    let mut shred = Shred::new_data(10, 0, vec![1, 2, 3]);
    assert!(shred.verify());

    shred.payload[0] = 99;
    assert!(!shred.verify());
}

#[test]
fn test_shred_id_equality() {
    let id1 = ShredId::data(10, 0);
    let id2 = ShredId::data(10, 0);
    assert_eq!(id1, id2);

    let id3 = ShredId::coding(10, 0);
    assert_ne!(id1, id3);
}

fn coder_4_2() -> ErasureCoder {
    ErasureCoder::new(ErasureConfig { data_shards: 4, parity_shards: 2 })
}

#[test]
fn test_encode_decode_roundtrip() {
    let coder = coder_4_2();

    let block_bytes = b"Hello, Solana Turbine erasure coding!".to_vec();
    let shreds = coder.encode(&block_bytes, 1);

    assert_eq!(shreds.len(), 6);
    assert_eq!(shreds.iter().filter(|s| s.shred_type == ShredType::Data).count(), 4);
    assert_eq!(shreds.iter().filter(|s| s.shred_type == ShredType::Coding).count(), 2);
}

#[test]
fn test_encode_all_shreds_valid() {
    let coder = coder_4_2();

    let data = vec![42u8; 1000];
    let shreds = coder.encode(&data, 42);

    for shred in &shreds {
        assert!(shred.verify(), "Shred should be valid");
        assert_eq!(shred.slot, 42);
    }
}

#[test]
fn test_decode_with_enough_shards() {
    let coder = coder_4_2();

    let block = vec![1u8, 2, 3, 4, 5, 6, 7, 8];
    let shreds = coder.encode(&block, 1);

    let data_only: Vec<Shred> = shreds.iter().filter(|s| s.shred_type == ShredType::Data).cloned().collect();

    let decoded = coder.decode(&data_only);
    assert!(decoded.is_some());
}

#[test]
fn test_decode_with_too_few_shards() {
    let coder = coder_4_2();

    let data = vec![1u8; 1000];
    let shreds = coder.encode(&data, 1);

    let few_shreds: Vec<Shred> = shreds.into_iter().take(2).collect();
    let decoded = coder.decode(&few_shreds);
    assert!(decoded.is_none());
}

#[test]
fn test_default_solana_config() {
    let coder = ErasureCoder::default_solana();
    assert_eq!(coder.config().data_shards, 16);
    assert_eq!(coder.config().parity_shards, 4);
    assert_eq!(coder.config().total_shards(), 20);
}

fn make_validator(id: u8, stake: u64) -> ([u8; 32], u64) {
    let mut key = [0u8; 32];
    key[0] = id;
    (key, stake)
}

#[test]
fn test_single_validator_tree() {
    let validators = vec![make_validator(1, 1000)];
    let tree = Neighborhood::build_tree(validators, 5);

    assert_eq!(tree.nodes.len(), 1);
    assert_eq!(tree.root.validator[0], 1);
}

#[test]
fn test_multi_validator_tree() {
    let validators = vec![
        make_validator(1, 1000),
        make_validator(2, 800),
        make_validator(3, 600),
        make_validator(4, 400),
        make_validator(5, 200),
    ];

    let tree = Neighborhood::build_tree(validators, 5);

    assert_eq!(tree.root.validator[0], 1);
    assert!(tree.nodes.len() >= 2);
}

#[test]
fn test_path_to_validator() {
    let validators =
        vec![make_validator(1, 1000), make_validator(2, 800), make_validator(3, 600), make_validator(4, 400)];

    let tree = Neighborhood::build_tree(validators, 5);
    let v3_key = make_validator(3, 0).0;

    if let Some(path) = tree.path_to(&v3_key) {
        assert!(!path.is_empty());
        assert_eq!(path.last().unwrap().validator, v3_key);
    }
}

#[test]
fn test_neighbors() {
    let validators = vec![make_validator(1, 1000), make_validator(2, 800), make_validator(3, 600)];

    let tree = Neighborhood::build_tree(validators, 5);
    let mut v1_key = [0u8; 32];
    v1_key[0] = 1;

    let neighbors = tree.neighbors(&v1_key);
    assert!(!neighbors.is_empty());
}

#[test]
fn test_total_stake() {
    let validators = vec![make_validator(1, 1000), make_validator(2, 800), make_validator(3, 600)];

    let tree = Neighborhood::build_tree(validators, 5);
    assert_eq!(tree.total_stake(), 2400);
}

#[test]
fn test_propagate_block() {
    let validators = vec![([1u8; 32], 1000), ([2u8; 32], 800), ([3u8; 32], 600)];
    let neighborhood = Neighborhood::build_tree(validators, 5);
    let mut propagator = TurbinePropagator::new([1u8; 32], neighborhood);

    let block_data = vec![42u8; 1000];
    let msgs = propagator.propagate_block(block_data, 10);

    let stats = propagator.stats();
    assert!(stats.blocks_propagated > 0);
    assert!(stats.shreds_sent > 0);
    assert_eq!(msgs.len(), 2);
    for (_to, shreds) in &msgs {
        assert_eq!(shreds.len(), 20);
    }
}

#[test]
fn test_receive_and_reassemble() {
    let neighborhood = Neighborhood::build_tree(vec![([1u8; 32], 1000)], 5);
    let mut propagator = TurbinePropagator::new([1u8; 32], neighborhood);

    let block_bytes = vec![1u8, 2, 3, 4, 5, 6, 7, 8];
    let shreds = ErasureCoder::default_solana().encode(&block_bytes, 1);

    for shred in &shreds {
        propagator.receive_shred(shred.clone(), [2u8; 32]);
    }

    assert_eq!(propagator.shreds_received_for_slot(1), shreds.len());
}

// Decoding what was encoded gives back the block, from all the shreds or
// from the data shreds alone.
#[test]
fn encode_then_decode_returns_block() {
    let coder = coder_4_2();
    let block = b"some block bytes that span shards".to_vec();
    let shreds = coder.encode(&block, 3);
    let decoded = coder.decode(&shreds).unwrap();
    assert_eq!(decoded, block);
    let data_only: Vec<Shred> = shreds.iter().filter(|s| s.shred_type == ShredType::Data).cloned().collect();
    assert_eq!(coder.decode(&data_only).unwrap(), block);
}

// A block received whole is reassembled.
#[test]
fn reassemble_received_block() {
    let neighborhood = Neighborhood::build_tree(vec![([1u8; 32], 1000)], 5);
    let mut propagator = TurbinePropagator::new([1u8; 32], neighborhood);
    let block = vec![9u8; 300];
    let shreds = ErasureCoder::default_solana().encode(&block, 4);
    for shred in &shreds {
        propagator.receive_shred_at(shred.clone(), [2u8; 32], 1000);
    }
    assert_eq!(propagator.try_reassemble(4), Some(block));
    assert_eq!(propagator.try_reassemble(5), None);
    assert_eq!(propagator.stats().blocks_reassembled, 1);
}

// Each node's children point back at it, and the root has no parent.
#[test]
fn tree_parent_child_links() {
    let validators: Vec<([u8; 32], u64)> = (1..=9u8).map(|i| make_validator(i, 1000 - i as u64)).collect();
    let tree = Neighborhood::build_tree(validators, 5);
    assert_eq!(tree.nodes.len(), 9);
    assert!(tree.nodes[0].parent.is_none());
    for node in &tree.nodes {
        for &c in &node.children {
            assert_eq!(tree.nodes[c].parent, Some(node.index));
            assert_eq!(tree.nodes[c].depth, node.depth + 1);
        }
        assert!(node.children.len() <= 3);
    }
    assert_eq!(tree.at_depth(0).len(), 1);
}

// An empty validator list gives an empty tree.
#[test]
fn empty_tree() {
    let tree = Neighborhood::build_tree(vec![], 5);
    assert!(tree.nodes.is_empty());
    assert_eq!(tree.total_stake(), 0);
}

// Any k of the shreds give the block back: two data and two coding shreds.
#[test]
fn decode_from_any_k_shreds() {
    let coder = coder_4_2();
    let block = b"block bytes lost in part on the way".to_vec();
    let shreds = coder.encode(&block, 7);
    let subset: Vec<Shred> = vec![shreds[1].clone(), shreds[3].clone(), shreds[4].clone(), shreds[5].clone()];
    assert_eq!(coder.decode(&subset), Some(block.clone()));
    let one_coding: Vec<Shred> = vec![shreds[0].clone(), shreds[2].clone(), shreds[3].clone(), shreds[5].clone()];
    assert_eq!(coder.decode(&one_coding), Some(block));
}

// The block comes back at its own length: the last shards are cut short
// or empty, with no padding.
#[test]
fn decode_trims_to_block_length() {
    let coder = coder_4_2();
    let block = vec![1u8, 2, 3, 4, 5];
    let shreds = coder.encode(&block, 1);
    assert_eq!(shreds.len(), 6);
    assert_eq!(shreds[2].payload, vec![5u8]);
    assert!(shreds[3].payload.is_empty());
    assert_eq!(coder.decode(&shreds), Some(vec![1u8, 2, 3, 4, 5]));
    let data_only: Vec<Shred> = shreds.iter().take(4).cloned().collect();
    assert_eq!(coder.decode(&data_only), Some(vec![1u8, 2, 3, 4, 5]));
    let three_data: Vec<Shred> = shreds.iter().take(3).cloned().collect();
    assert_eq!(coder.decode(&three_data), None);
}

// Higher stake sits nearer the root: twenty validators of falling stake
// fill three levels below the root, each under a validator of more stake.
#[test]
fn tree_places_stake_near_root() {
    let validators: Vec<([u8; 32], u64)> = (1..=20u8).map(|k| make_validator(k, (21 - k as u64) * 100)).collect();
    let tree = Neighborhood::build_tree(validators, 5);
    assert_eq!(tree.nodes.len(), 20);
    assert_eq!(tree.depth, 3);
    for i in 1..20 {
        let p = tree.nodes[i].parent.unwrap();
        assert!(tree.nodes[p].stake >= tree.nodes[i].stake);
    }
    let mut ids: Vec<u8> = tree.nodes.iter().map(|n| n.validator[0]).collect();
    ids.sort();
    assert_eq!(ids, (1..=20u8).collect::<Vec<u8>>());
    let n14 = tree.nodes.iter().position(|n| n.validator[0] == 14).unwrap();
    let n11 = tree.nodes.iter().position(|n| n.validator[0] == 11).unwrap();
    assert_eq!(tree.nodes[n14].parent, Some(n11));
}
