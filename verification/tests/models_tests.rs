use bet_chain::helpers::gen_tx_root;
use bet_chain::models::{clone_transactions, Block, Transaction, TXPool};

const EMPTY_ROOT: &str = "e3b0c44298fc1c149afbf4c8996fb92427ae41e4649b934ca495991b7852b855";
const ALICE_TX_HASH: &str = "293c9b2e5414f12e263a66f9d4465f7b7a49ce94175335d53361583ef0a08c5c";

fn alice_tx() -> Transaction {
    Transaction::new("alice".to_string(), "bob".to_string(), 10, 0, 1700000000)
}

#[test]
fn transaction_to_string_prints_fields() {
    let tx = Transaction::from_parts(
        "abc".to_string(),
        "alice".to_string(),
        "bob".to_string(),
        10,
        1700000000,
        3,
    );
    assert_eq!(tx.to_string(), "from:alice,to:bob,amount:10,hash:abc,timestamp:1700000000");
}

#[test]
fn transaction_to_string_leaves_out_nonce() {
    let tx = Transaction::from_parts("h".to_string(), "a".to_string(), "b".to_string(), 0, 0, 99);
    assert_eq!(tx.to_string(), "from:a,to:b,amount:0,hash:h,timestamp:0");
}

#[test]
fn transaction_new_hashes_its_fields() {
    let tx = alice_tx();
    assert_eq!(tx.hash, ALICE_TX_HASH);
    assert_eq!(tx.hash(), ALICE_TX_HASH);
    assert_eq!(tx.from_address(), "alice");
    assert_eq!(tx.to_address(), "bob");
    assert_eq!(tx.amount(), 10);
    assert_eq!(tx.timestamp(), 1700000000);
    assert_eq!(tx.nonce(), 0);
}

#[test]
fn transaction_hash_depends_on_nonce() {
    let a = Transaction::new("alice".to_string(), "bob".to_string(), 10, 0, 5);
    let b = Transaction::new("alice".to_string(), "bob".to_string(), 10, 1, 5);
    assert_ne!(a.hash, b.hash);
    assert_eq!(a.hash.len(), 64);
}

#[test]
fn transaction_clone_is_equal() {
    let tx = alice_tx();
    let copy = tx.clone();
    assert_eq!(copy.to_string(), tx.to_string());
    assert_eq!(copy.nonce(), tx.nonce());
}

#[test]
fn gen_tx_root_of_no_transactions_is_digest_of_empty_text() {
    assert_eq!(gen_tx_root(&Vec::new()), EMPTY_ROOT);
}

#[test]
fn gen_tx_root_digests_each_line_with_bar() {
    let txs = vec![alice_tx()];
    assert_eq!(
        gen_tx_root(&txs),
        "22d05ae14667317df7064f191d71e22ccd69131a3fe83ace051a2df15ea109b4"
    );
}

#[test]
fn block_new_links_and_hashes() {
    let block = Block::new("prev".to_string(), 5, 7, Vec::new());
    assert_eq!(block.number, 6);
    assert_eq!(block.nonce, 7);
    assert_eq!(block.previous_hash, "prev");
    assert_eq!(block.tx_root, EMPTY_ROOT);
    assert_eq!(
        block.hash,
        "6489c5de6b75d1f2481b8f481837d9d121626c7def6282ddae366b9e5ac85552"
    );
    assert!(block.transactions.is_empty());
}

#[test]
fn block_new_keeps_transactions() {
    let txs = vec![alice_tx()];
    let block = Block::new("prev".to_string(), 0, 0, clone_transactions(&txs));
    assert_eq!(block.transactions.len(), 1);
    assert_eq!(block.transactions[0].hash, ALICE_TX_HASH);
    assert_eq!(block.tx_root, gen_tx_root(&txs));
    assert_eq!(block.number, 1);
}

#[test]
fn block_clone_keeps_fields() {
    let block = Block::new("prev".to_string(), 5, 7, vec![alice_tx()]);
    let copy = block.clone();
    assert_eq!(copy.hash, block.hash);
    assert_eq!(copy.number, block.number);
    assert_eq!(copy.transactions.len(), 1);
}

#[test]
fn txpool_starts_empty_and_keeps_order() {
    let mut pool = TXPool::new();
    assert!(pool.transactions().is_empty());
    pool.insert_tx_into_pool(alice_tx());
    pool.insert_tx_into_pool(Transaction::new("bob".to_string(), "carol".to_string(), 1, 0, 1));
    assert_eq!(pool.transactions().len(), 2);
    assert_eq!(pool.transactions()[0].hash, ALICE_TX_HASH);
    assert_eq!(pool.transactions()[1].from_address(), "bob");
}
