//! Chain set-up and the transaction root.
use vstd::prelude::*;
use vstd::string::*;

use crate::hashing::{is_lower_hex, sha256_digest, sha256_hex};
use crate::models::{tx_text, Block, Transaction, TransactionView};

verus! {

/// The views of a sequence of transactions.
pub open spec fn txs_view(txs: Seq<Transaction>) -> Seq<TransactionView> {
    txs.map_values(|tx: Transaction| tx@)
}

/// Every transaction's printed form followed by `|`, in order.
pub open spec fn tx_root_text(txs: Seq<TransactionView>) -> Seq<char>
    decreases txs.len(),
{
    if txs.len() == 0 {
        Seq::<char>::empty()
    } else {
        tx_root_text(txs.drop_last()) + tx_text(txs.last()) + "|"@
    }
}

/// One transaction's root text is its printed form followed by `|`.
pub proof fn law_tx_root_text_single(tx: TransactionView)
    ensures
        tx_root_text(seq![tx]) == tx_text(tx) + "|"@,
{
    let one = seq![tx];
    assert(one.drop_last() =~= Seq::<TransactionView>::empty());
    assert(one.last() == tx);
    assert(tx_root_text(Seq::<TransactionView>::empty()) == Seq::<char>::empty());
    assert(tx_root_text(one) == tx_root_text(one.drop_last()) + tx_text(one.last()) + "|"@);
    assert(Seq::<char>::empty() + tx_text(tx) + "|"@ =~= tx_text(tx) + "|"@);
}

/// The root text of transactions listed one after another is the root text
/// of the first list followed by that of the second: the transactions are
/// printed in list order.
pub proof fn law_tx_root_text_concat(first: Seq<TransactionView>, second: Seq<TransactionView>)
    ensures
        tx_root_text(first + second) == tx_root_text(first) + tx_root_text(second),
    decreases second.len(),
{
    if second.len() == 0 {
        assert(first + second =~= first);
        assert(tx_root_text(first) + Seq::<char>::empty() =~= tx_root_text(first));
    } else {
        let s = first + second;
        assert(s.drop_last() =~= first + second.drop_last());
        assert(s.last() == second.last());
        law_tx_root_text_concat(first, second.drop_last());
        assert(tx_root_text(s) =~= tx_root_text(first) + tx_root_text(second));
    }
}

/// The root text of two transactions: the first printed, `|`, the second
/// printed, `|`.
pub proof fn law_tx_root_text_pair(a: TransactionView, b: TransactionView)
    ensures
        tx_root_text(seq![a, b]) == tx_text(a) + "|"@ + tx_text(b) + "|"@,
{
    law_tx_root_text_concat(seq![a], seq![b]);
    assert(seq![a] + seq![b] =~= seq![a, b]);
    law_tx_root_text_single(a);
    law_tx_root_text_single(b);
    assert(tx_text(a) + "|"@ + (tx_text(b) + "|"@) =~= tx_text(a) + "|"@ + tx_text(b) + "|"@);
}

/// The transaction root of a block: the digest of `tx_root_text`.
pub open spec fn tx_root_of(txs: Seq<Transaction>) -> Seq<char> {
    sha256_hex(tx_root_text(txs_view(txs)))
}

/// The digest of all transactions, each printed and followed by `|`.
pub fn gen_tx_root(transactions: &Vec<Transaction>) -> (root: String)
    ensures
        root@ == tx_root_of(transactions@),
        root@.len() == 64,
        forall|i: int| 0 <= i < 64 ==> is_lower_hex(#[trigger] root@[i]),
{
    let mut text = String::new();
    for i in 0..transactions.len()
        invariant
            text@ == tx_root_text(txs_view(transactions@.take(i as int))),
    {
        let line = transactions[i].to_string();
        text.append(line.as_str());
        text.append("|");
        proof {
            let pre = txs_view(transactions@.take(i as int));
            let post = txs_view(transactions@.take(i + 1));
            assert(post.drop_last() =~= pre);
            assert(post.last() == transactions@[i as int]@);
        }
    }
    proof {
        assert(transactions@.take(transactions@.len() as int) =~= transactions@);
    }
    sha256_digest(text.as_str())
}

/// The user credited when the chain is set up.
pub open spec fn funded_user() -> Seq<char> {
    "betty"@
}

/// The balance credited to `funded_user` when the chain is set up.
pub const FUNDED_BALANCE: u64 = 666666;

/// The first block of every chain: number 0, nonce 0, no transactions,
/// a hash of 64 zeros and the previous hash `null`.
pub open spec fn is_genesis(block: Block) -> bool {
    &&& block.hash@ == Seq::new(64, |i: int| '0')
    &&& block.previous_hash@ == "null"@
    &&& block.number == 0
    &&& block.nonce == 0
    &&& block.transactions@.len() == 0
    &&& block.tx_root@ == tx_root_of(Seq::<Transaction>::empty())
}

/// The genesis block.
pub fn genesis_block() -> (block: Block)
    ensures
        is_genesis(block),
{
    let transactions: Vec<Transaction> = Vec::new();
    let tx_root = gen_tx_root(&transactions);
    let mut hash = String::new();
    for i in 0..64usize
        invariant
            hash@ == Seq::new(i as nat, |j: int| '0'),
    {
        hash.push('0');
        proof {
            assert(Seq::new(i as nat, |j: int| '0').push('0') =~= Seq::new(
                (i + 1) as nat,
                |j: int| '0',
            ));
        }
    }
    Block {
        hash,
        previous_hash: String::from_str("null"),
        number: 0,
        nonce: 0,
        tx_root,
        transactions,
    }
}

/// What setting up the chain writes: the funded user's balance, and the
/// genesis block when no block is stored yet.
pub struct ChainSetup {
    pub funded_user: String,
    pub funded_balance: u64,
    pub genesis: Option<Block>,
}

/// Sets up the chain over the blocks already stored: the funded user gets
/// `FUNDED_BALANCE`, and a genesis block is written only to an empty chain.
pub fn init_blockchain(stored_blocks: &Vec<Block>) -> (setup: ChainSetup)
    ensures
        setup.funded_user@ == funded_user(),
        setup.funded_balance == FUNDED_BALANCE,
        setup.genesis is Some <==> stored_blocks.len() == 0,
        setup.genesis matches Some(block) ==> is_genesis(block),
{
    let genesis = if stored_blocks.len() == 0 {
        Some(genesis_block())
    } else {
        None
    };
    ChainSetup { funded_user: String::from_str("betty"), funded_balance: FUNDED_BALANCE, genesis }
}

} // verus!
