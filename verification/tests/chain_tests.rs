use bet_chain::helpers::{genesis_block, init_blockchain, FUNDED_BALANCE};
use bet_chain::miner::{draw_nonces, has_difficulty_prefix, mine_block, validate_block};
use bet_chain::models::Block;

const EMPTY_ROOT: &str = "e3b0c44298fc1c149afbf4c8996fb92427ae41e4649b934ca495991b7852b855";

fn block_with_hash(hash: &str, number: u64) -> Block {
    Block {
        hash: hash.to_string(),
        previous_hash: "x".to_string(),
        number,
        nonce: 0,
        tx_root: EMPTY_ROOT.to_string(),
        transactions: Vec::new(),
    }
}

#[test]
fn genesis_block_is_block_zero() {
    let g = genesis_block();
    assert_eq!(g.hash, "0".repeat(64));
    assert_eq!(g.previous_hash, "null");
    assert_eq!(g.number, 0);
    assert_eq!(g.nonce, 0);
    assert_eq!(g.tx_root, EMPTY_ROOT);
    assert!(g.transactions.is_empty());
}

#[test]
fn init_blockchain_on_empty_chain_writes_genesis() {
    let setup = init_blockchain(&Vec::new());
    assert_eq!(setup.funded_user, "betty");
    assert_eq!(setup.funded_balance, 666666);
    assert_eq!(FUNDED_BALANCE, 666666);
    let g = setup.genesis.expect("genesis");
    assert_eq!(g.number, 0);
    assert_eq!(g.hash, "0".repeat(64));
}

#[test]
fn init_blockchain_on_existing_chain_writes_no_block() {
    let setup = init_blockchain(&vec![genesis_block()]);
    assert_eq!(setup.funded_user, "betty");
    assert!(setup.genesis.is_none());
}

#[test]
fn difficulty_prefix_needs_four_zeros() {
    assert!(has_difficulty_prefix(&"0000abc".to_string()));
    assert!(has_difficulty_prefix(&"0000".to_string()));
    assert!(!has_difficulty_prefix(&"000a0000".to_string()));
    assert!(!has_difficulty_prefix(&"000".to_string()));
    assert!(!has_difficulty_prefix(&"".to_string()));
}

#[test]
fn mine_block_takes_nonce_zero_when_it_meets_difficulty() {
    let previous = block_with_hash("p49078", 0);
    let mined = mine_block(&previous, &Vec::new(), &vec![5, 6]).expect("nonce 0 meets the difficulty");
    assert_eq!(mined.nonce, 0);
    assert_eq!(mined.number, 1);
    assert_eq!(mined.previous_hash, "p49078");
    assert_eq!(
        mined.hash,
        "00004e9f748e5abe507a9ab6e4afc3a7b8ff6ac5a48bf7ee706e2c0890ba8b19"
    );
}

#[test]
fn mine_block_without_nonces_gives_up_when_nonce_zero_fails() {
    let previous = block_with_hash("prev", 0);
    assert!(mine_block(&previous, &Vec::new(), &Vec::new()).is_none());
}

#[test]
fn mine_block_takes_first_fitting_drawn_nonce() {
    let g = genesis_block();
    let mut fitting = None;
    for n in 1u64.. {
        if Block::new(g.hash.clone(), 0, n, Vec::new()).hash.starts_with("0000") {
            fitting = Some(n);
            break;
        }
    }
    let n = fitting.unwrap();
    let mined = mine_block(&g, &Vec::new(), &vec![n + 1, n, n]).map(|b| b.nonce);
    let expect_first = Block::new(g.hash.clone(), 0, n + 1, Vec::new()).hash.starts_with("0000");
    assert_eq!(mined, Some(if expect_first { n + 1 } else { n }));
    let none: Vec<u64> = (1..n).collect();
    let tail = mine_block(&g, &Vec::new(), &none);
    assert!(tail.is_none() || tail.unwrap().nonce < n);
}

#[test]
fn drawn_nonces_have_the_asked_count() {
    assert_eq!(draw_nonces(0).len(), 0);
    assert_eq!(draw_nonces(17).len(), 17);
}

#[test]
fn validate_block_accepts_mined_blocks_only() {
    let previous = block_with_hash("p49078", 0);
    let mined = mine_block(&previous, &Vec::new(), &Vec::new()).unwrap();
    assert!(validate_block(&mined));
    let mut tampered = mined.clone();
    tampered.nonce = 1;
    assert!(!validate_block(&tampered));
    let mut wrong_root = mined.clone();
    wrong_root.tx_root = "0".repeat(64);
    assert!(!validate_block(&wrong_root));
    let unmined = Block::new("prev".to_string(), 0, 0, Vec::new());
    assert!(!validate_block(&unmined));
    assert!(!validate_block(&genesis_block()));
}

#[test]
fn mine_block_finds_a_block_after_genesis() {
    let g = genesis_block();
    let mined = loop {
        if let Some(b) = mine_block(&g, &Vec::new(), &draw_nonces(4096)) {
            break b;
        }
    };
    assert!(mined.hash.starts_with("0000"));
    assert_eq!(mined.number, 1);
    assert_eq!(mined.previous_hash, g.hash);
    let again = Block::new(g.hash.clone(), 0, mined.nonce, Vec::new());
    assert_eq!(again.hash, mined.hash);
}
