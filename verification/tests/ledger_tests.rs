use minichain::block::{Block, Transaction};
use minichain::chain::{Chain, ChainError};
use minichain::encoding::escape_json_str;
use minichain::hexnum::meets_target;
use minichain::merkle::MerkleTree;
use minichain::policy::{calculate_block_difficulty, calculate_block_reward};
use minichain::{DIFFICULTY_DEFAULT, REWARD_DEFAULT, REWARD_HALVING_INTERVAL};

fn tx(from: Option<&str>, to: &str, amount: u64) -> Transaction {
    Transaction { from: from.map(|s| s.to_string()), to: to.to_string(), amount }
}

fn is_lower_hex(s: &str) -> bool {
    s.chars().all(|c| c.is_ascii_digit() || ('a'..='f').contains(&c))
}

/// Mine `count` blocks onto `chain` the way the command-line driver does,
/// with empty supplied transaction lists.
fn mine_blocks(chain: &mut Chain, count: u64) {
    for _ in 0..count {
        let last_block = chain.get_last_block().expect("chain has a tip");
        let last_block_id = last_block.id;
        let last_block_hash = last_block.hash.clone();
        let difficulty = calculate_block_difficulty(chain, last_block_id + 1);
        assert!(difficulty < 256);
        let block = Block::new(last_block_id + 1, last_block_hash, vec![], difficulty);
        chain.add_block(block).expect("block accepted");
    }
}

#[test]
fn merkle_root_deterministic() {
    let txs = vec![tx(None, "alice", 10), tx(Some("alice"), "bob", 3)];
    let txs_again = vec![tx(None, "alice", 10), tx(Some("alice"), "bob", 3)];
    let r1 = MerkleTree::new(&txs).root_hash();
    let r2 = MerkleTree::new(&txs_again).root_hash();
    assert_eq!(r1, r2);
}

#[test]
fn merkle_root_order_sensitive() {
    let a = || tx(None, "alice", 10);
    let b = || tx(Some("alice"), "bob", 3);
    let r1 = MerkleTree::new(&vec![a(), b()]).root_hash();
    let r2 = MerkleTree::new(&vec![b(), a()]).root_hash();
    assert_ne!(r1, r2);
}

#[test]
fn merkle_root_of_empty_is_64_zeros() {
    let root = MerkleTree::new(&vec![]).root_hash();
    assert_eq!(root, "0".repeat(64));
}

#[test]
fn merkle_root_is_a_digest_not_the_input() {
    let txs = vec![tx(None, "alice", 10)];
    let root = MerkleTree::new(&txs).root_hash();
    assert_eq!(root.len(), 64);
    assert!(is_lower_hex(&root));
    assert_ne!(root, "0".repeat(64));
}

#[test]
fn odd_layers_duplicate_the_last_node() {
    // With three transactions the first layer is padded by repeating the
    // third leaf, so [a, b, c] commits to the same root as [a, b, c, c].
    let a = || tx(None, "alice", 1);
    let b = || tx(None, "bob", 2);
    let c = || tx(None, "carol", 3);
    let r3 = MerkleTree::new(&vec![a(), b(), c()]).root_hash();
    let r4 = MerkleTree::new(&vec![a(), b(), c(), c()]).root_hash();
    assert_eq!(r3, r4);
}

#[test]
fn escape_json_str_matches_json_string_escaping() {
    let escaped = escape_json_str("a\"b\\c\nd\te\r\u{8}\u{c}\u{1f}");
    assert_eq!(escaped, "a\\\"b\\\\c\\nd\\te\\r\\b\\f\\u001f");
    assert_eq!(escape_json_str("plain"), "plain");
}

#[test]
fn mined_block_hash_meets_difficulty_threshold() {
    let mut block = Block::new(1, "0".repeat(64), vec![], DIFFICULTY_DEFAULT);
    assert!(block.mine());
    assert_eq!(block.hash.len(), 64);
    assert!(is_lower_hex(&block.hash));
    // Difficulty 1 demands one leading zero bit: the first hex digit is 0..7.
    let first = block.hash.as_bytes()[0];
    assert!(first.is_ascii_digit() && first < b'8');
    assert!(meets_target(&block.hash, DIFFICULTY_DEFAULT));
}

#[test]
fn mined_block_hash_meets_higher_difficulty() {
    let mut block = Block::new(1, "0".repeat(64), vec![], 9);
    assert!(block.mine());
    // Nine leading zero bits: two zero hex digits, then a digit 0..7.
    assert!(block.hash.starts_with("00"));
    let third = block.hash.as_bytes()[2];
    assert!(third.is_ascii_digit() && third < b'8');
    assert!(meets_target(&block.hash, 9));
}

#[test]
fn meets_target_reads_the_hash_as_an_integer() {
    let mut low = "7".to_string();
    low.push_str(&"f".repeat(63));
    assert!(meets_target(&low, 1));
    let mut high = "8".to_string();
    high.push_str(&"0".repeat(63));
    assert!(!meets_target(&high, 1));
    assert!(meets_target(&"0".repeat(64), 256));
    assert!(meets_target(&"f".repeat(64), 0));
}

#[test]
fn reward_default_at_genesis_heights() {
    assert_eq!(calculate_block_reward(0), REWARD_DEFAULT);
    assert_eq!(calculate_block_reward(1), 5_000_000_000);
    assert_eq!(calculate_block_reward(REWARD_HALVING_INTERVAL - 1), REWARD_DEFAULT);
}

#[test]
fn reward_halves_at_halving_interval() {
    assert_eq!(calculate_block_reward(REWARD_HALVING_INTERVAL), REWARD_DEFAULT / 2);
    assert_eq!(calculate_block_reward(2 * REWARD_HALVING_INTERVAL), REWARD_DEFAULT / 4);
}

#[test]
fn reward_is_nonincreasing() {
    let mut prev = calculate_block_reward(0);
    for k in 1..70u64 {
        let r = calculate_block_reward(k * REWARD_HALVING_INTERVAL);
        assert!(r <= prev);
        prev = r;
    }
}

#[test]
fn reward_is_zero_after_64_halvings() {
    assert_eq!(calculate_block_reward(64 * REWARD_HALVING_INTERVAL), 0);
    assert_eq!(calculate_block_reward(u64::MAX), 0);
}

#[test]
fn difficulty_is_default_during_bootstrap() {
    let chain = Chain::new();
    assert_eq!(calculate_block_difficulty(&chain, 1), DIFFICULTY_DEFAULT);
    assert_eq!(calculate_block_difficulty(&chain, 1007), DIFFICULTY_DEFAULT);
}

#[test]
fn difficulty_retargets_at_boundary_and_holds_within_interval() {
    let mut chain = Chain::new();
    mine_blocks(&mut chain, 1007);
    // The window closed far faster than the five-minute-per-block target, so
    // the measured timespan clamps to half the target and the difficulty
    // doubles, capped by the adjustment factor.
    let boundary = calculate_block_difficulty(&chain, 1008);
    assert_eq!(boundary, 2);
    mine_blocks(&mut chain, 2);
    assert_eq!(chain.get_last_block().unwrap().header.difficulty_target, 2);
    assert_eq!(calculate_block_difficulty(&chain, 1009), 2);
    assert_eq!(calculate_block_difficulty(&chain, 1010), 2);
}

#[test]
fn add_block_rejects_bad_previous_hash() {
    let mut chain = Chain::new();
    let len_before = chain.blocks.len();
    let block = Block::new(1, "f".repeat(64), vec![], DIFFICULTY_DEFAULT);
    let result = chain.add_block(block);
    match result {
        Err(ChainError::LinkageError { expected, found }) => {
            assert_eq!(expected, chain.get_last_block().unwrap().hash);
            assert_eq!(found, "f".repeat(64));
        }
        other => panic!("expected a linkage error, got {:?}", other),
    }
    assert_eq!(chain.blocks.len(), len_before);
}

#[test]
fn add_block_rejects_bad_merkle_root() {
    let mut chain = Chain::new();
    let len_before = chain.blocks.len();
    let tip_hash = chain.get_last_block().unwrap().hash.clone();
    let mut block = Block::new(1, tip_hash, vec![], DIFFICULTY_DEFAULT);
    let declared = block.header.merkle.clone();
    block.header.merkle = "f".repeat(64);
    let result = chain.add_block(block);
    match result {
        Err(ChainError::CommitmentError { expected, found }) => {
            assert_eq!(expected, declared);
            assert_eq!(found, "f".repeat(64));
        }
        other => panic!("expected a commitment error, got {:?}", other),
    }
    assert_eq!(chain.blocks.len(), len_before);
}

#[test]
fn error_messages_name_expected_and_found() {
    let err = ChainError::LinkageError { expected: "aa".to_string(), found: "bb".to_string() };
    assert_eq!(err.message(), "Invalid previous hash. Expected: aa, Found: bb");
    let err = ChainError::CommitmentError { expected: "cc".to_string(), found: "dd".to_string() };
    assert_eq!(err.message(), "Invalid merkle hash. Expected: cc, Found: dd");
}

#[test]
fn end_to_end_three_blocks() {
    let mut chain = Chain::new();
    let genesis = chain.get_last_block().expect("genesis mined");
    assert_eq!(genesis.id, 0);
    assert_eq!(genesis.header.timestamp, 0);
    assert!(genesis.transactions.is_empty());
    assert_eq!(genesis.header.previous_hash, "0".repeat(64));
    assert_eq!(genesis.header.merkle, "0".repeat(64));
    mine_blocks(&mut chain, 3);
    assert_eq!(chain.blocks.len(), 4);
    for i in 1..=3u64 {
        let block = chain.get_block_by_height(i).expect("block present");
        assert_eq!(block.id, i);
        assert_eq!(block.transactions.len(), 1);
        let reward = &block.transactions[0];
        assert!(reward.from.is_none());
        assert_eq!(reward.to, "miner_address");
        assert_eq!(reward.amount, REWARD_DEFAULT);
        let prev = chain.get_block_by_height(i - 1).expect("parent present");
        assert_eq!(block.header.previous_hash, prev.hash);
        assert!(meets_target(&block.hash, DIFFICULTY_DEFAULT));
    }
}

#[test]
fn drop_chain_leaves_no_last_block() {
    let mut chain = Chain::new();
    assert!(chain.get_last_block().is_some());
    chain.drop_chain();
    assert!(chain.get_last_block().is_none());
    assert!(chain.get_block_by_height(0).is_none());
}

#[test]
fn get_block_by_height_misses_out_of_range() {
    let mut chain = Chain::new();
    mine_blocks(&mut chain, 1);
    assert!(chain.get_block_by_height(0).is_some());
    assert!(chain.get_block_by_height(1).is_some());
    assert!(chain.get_block_by_height(2).is_none());
    assert!(chain.get_block_by_height(u64::MAX).is_none());
}

#[test]
fn genesis_is_mined_like_any_block() {
    let chain = Chain::new();
    let genesis = chain.get_last_block().expect("genesis mined");
    assert_eq!(genesis.hash.len(), 64);
    assert!(is_lower_hex(&genesis.hash));
    assert!(meets_target(&genesis.hash, genesis.header.difficulty_target));
}
