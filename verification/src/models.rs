//! Transactions, blocks and the pool of pending transactions.
use vstd::prelude::*;
use vstd::string::*;

use crate::decimal::{decimal, law_decimal_injective, push_decimal};
use crate::hashing::{is_lower_hex, sha256_digest, sha256_hex};
use crate::helpers::{gen_tx_root, tx_root_of};

verus! {

/// What a transaction holds.
pub struct TransactionView {
    pub hash: Seq<char>,
    pub from_address: Seq<char>,
    pub to_address: Seq<char>,
    pub amount: u64,
    pub timestamp: u64,
    pub nonce: u64,
}

/// A transfer of `amount` from one user to another.
pub struct Transaction {
    pub hash: String,
    from_address: String,
    to_address: String,
    amount: u64,
    timestamp: u64,
    nonce: u64,
}

impl View for Transaction {
    type V = TransactionView;

    closed spec fn view(&self) -> TransactionView {
        TransactionView {
            hash: self.hash@,
            from_address: self.from_address@,
            to_address: self.to_address@,
            amount: self.amount,
            timestamp: self.timestamp,
            nonce: self.nonce,
        }
    }
}

/// The text that a transaction's hash is the digest of:
/// `from:F,to:T,amount:A,timestamp:S,nonce:N`.
pub open spec fn tx_hash_input(
    from: Seq<char>,
    to: Seq<char>,
    amount: u64,
    timestamp: u64,
    nonce: u64,
) -> Seq<char> {
    "from:"@ + from + ",to:"@ + to + ",amount:"@ + decimal(amount as nat) + ",timestamp:"@
        + decimal(timestamp as nat) + ",nonce:"@ + decimal(nonce as nat)
}

/// The printed form of a transaction:
/// `from:F,to:T,amount:A,hash:H,timestamp:S` (the nonce is not shown).
pub open spec fn tx_text(tx: TransactionView) -> Seq<char> {
    "from:"@ + tx.from_address + ",to:"@ + tx.to_address + ",amount:"@ + decimal(
        tx.amount as nat,
    ) + ",hash:"@ + tx.hash + ",timestamp:"@ + decimal(tx.timestamp as nat)
}

impl Clone for Transaction {
    fn clone(&self) -> (copy: Self)
        ensures
            copy == *self,
    {
        Transaction {
            hash: self.hash.clone(),
            from_address: self.from_address.clone(),
            to_address: self.to_address.clone(),
            amount: self.amount,
            timestamp: self.timestamp,
            nonce: self.nonce,
        }
    }
}

impl Transaction {
    /// A transaction made at `timestamp` (seconds since the Unix epoch),
    /// whose hash is the digest of its fields and the sender's nonce.
    pub fn new(from: String, to: String, amount: u64, nonce: u64, timestamp: u64) -> (tx:
        Transaction)
        ensures
            tx@ == (TransactionView {
                hash: sha256_hex(tx_hash_input(from@, to@, amount, timestamp, nonce)),
                from_address: from@,
                to_address: to@,
                amount,
                timestamp,
                nonce,
            }),
            tx@.hash.len() == 64,
            forall|i: int| 0 <= i < 64 ==> is_lower_hex(#[trigger] tx@.hash[i]),
    {
        let mut text = String::from_str("from:");
        text.append(from.as_str());
        text.append(",to:");
        text.append(to.as_str());
        text.append(",amount:");
        push_decimal(&mut text, amount);
        text.append(",timestamp:");
        push_decimal(&mut text, timestamp);
        text.append(",nonce:");
        push_decimal(&mut text, nonce);
        let hash = sha256_digest(text.as_str());
        Transaction { from_address: from, to_address: to, amount, hash, timestamp, nonce }
    }

    /// A transaction with exactly the given fields, as read back from storage.
    pub fn from_parts(
        hash: String,
        from: String,
        to: String,
        amount: u64,
        timestamp: u64,
        nonce: u64,
    ) -> (tx: Transaction)
        ensures
            tx@ == (TransactionView {
                hash: hash@,
                from_address: from@,
                to_address: to@,
                amount,
                timestamp,
                nonce,
            }),
    {
        Transaction { hash, from_address: from, to_address: to, amount, timestamp, nonce }
    }

    /// The printed form `from:F,to:T,amount:A,hash:H,timestamp:S`.
    pub fn to_string(&self) -> (text: String)
        ensures
            text@ == tx_text(self@),
    {
        let mut text = String::from_str("from:");
        text.append(self.from_address.as_str());
        text.append(",to:");
        text.append(self.to_address.as_str());
        text.append(",amount:");
        push_decimal(&mut text, self.amount);
        text.append(",hash:");
        text.append(self.hash.as_str());
        text.append(",timestamp:");
        push_decimal(&mut text, self.timestamp);
        text
    }

    pub fn hash(&self) -> (h: &String)
        ensures
            h@ == self@.hash,
    {
        &self.hash
    }

    pub fn from_address(&self) -> (a: &String)
        ensures
            a@ == self@.from_address,
    {
        &self.from_address
    }

    pub fn to_address(&self) -> (a: &String)
        ensures
            a@ == self@.to_address,
    {
        &self.to_address
    }

    pub fn amount(&self) -> (a: u64)
        ensures
            a == self@.amount,
    {
        self.amount
    }

    pub fn timestamp(&self) -> (t: u64)
        ensures
            t == self@.timestamp,
    {
        self.timestamp
    }

    pub fn nonce(&self) -> (n: u64)
        ensures
            n == self@.nonce,
    {
        self.nonce
    }
}

/// The text that a block's hash is the digest of: the previous hash, then
/// the nonce, the block number and the transaction root.
pub open spec fn block_hash_input(
    previous_hash: Seq<char>,
    nonce: u64,
    number: u64,
    tx_root: Seq<char>,
) -> Seq<char> {
    previous_hash + decimal(nonce as nat) + decimal(number as nat) + tx_root
}

/// The text a block's hash covers holds the full nonce: blocks that differ
/// only in their nonce hash different texts.
pub proof fn law_block_hash_input_injective_in_nonce(
    previous_hash: Seq<char>,
    nonce1: u64,
    nonce2: u64,
    number: u64,
    tx_root: Seq<char>,
)
    ensures
        block_hash_input(previous_hash, nonce1, number, tx_root) == block_hash_input(
            previous_hash,
            nonce2,
            number,
            tx_root,
        ) ==> nonce1 == nonce2,
{
    let d1 = decimal(nonce1 as nat);
    let d2 = decimal(nonce2 as nat);
    let x = block_hash_input(previous_hash, nonce1, number, tx_root);
    let y = block_hash_input(previous_hash, nonce2, number, tx_root);
    if x == y {
        let tail = decimal(number as nat) + tx_root;
        assert(x =~= previous_hash + (d1 + tail));
        assert(y =~= previous_hash + (d2 + tail));
        assert(d1.len() == d2.len());
        let lo = previous_hash.len() as int;
        assert(x.subrange(lo, lo + d1.len()) =~= d1);
        assert(y.subrange(lo, lo + d2.len()) =~= d2);
        law_decimal_injective(nonce1 as nat, nonce2 as nat);
    }
}

/// The text a block's hash covers is the previous hash, then the full
/// decimal nonce, then the decimal number, then the transaction root.
pub proof fn law_block_hash_input_layout(
    previous_hash: Seq<char>,
    nonce: u64,
    number: u64,
    tx_root: Seq<char>,
)
    ensures
        ({
            let x = block_hash_input(previous_hash, nonce, number, tx_root);
            let a = previous_hash.len() as int;
            let b = a + decimal(nonce as nat).len();
            let c = b + decimal(number as nat).len();
            &&& x.len() == c + tx_root.len()
            &&& x.subrange(0, a) == previous_hash
            &&& x.subrange(a, b) == decimal(nonce as nat)
            &&& x.subrange(b, c) == decimal(number as nat)
            &&& x.subrange(c, x.len() as int) == tx_root
        }),
{
    let x = block_hash_input(previous_hash, nonce, number, tx_root);
    let a = previous_hash.len() as int;
    let b = a + decimal(nonce as nat).len();
    let c = b + decimal(number as nat).len();
    assert(x.subrange(0, a) =~= previous_hash);
    assert(x.subrange(a, b) =~= decimal(nonce as nat));
    assert(x.subrange(b, c) =~= decimal(number as nat));
    assert(x.subrange(c, x.len() as int) =~= tx_root);
}

/// A block of the chain.
pub struct Block {
    pub hash: String,
    pub previous_hash: String,
    pub number: u64,
    pub nonce: u64,
    pub tx_root: String,
    pub transactions: Vec<Transaction>,
}

/// `block` is the one that `Block::new` makes from these arguments: it
/// follows `previous_number`, links to `previous_hash`, carries the
/// transactions and their root, and its hash covers all of these.
pub open spec fn is_block_for(
    block: Block,
    previous_hash: Seq<char>,
    previous_number: u64,
    nonce: u64,
    transactions: Seq<Transaction>,
) -> bool {
    &&& block.number == previous_number + 1
    &&& block.previous_hash@ == previous_hash
    &&& block.nonce == nonce
    &&& block.transactions@ == transactions
    &&& block.tx_root@ == tx_root_of(transactions)
    &&& block.hash@ == block_hash_for(previous_hash, previous_number, nonce, transactions)
}

/// The hash of the block that `Block::new` makes from these arguments.
pub open spec fn block_hash_for(
    previous_hash: Seq<char>,
    previous_number: u64,
    nonce: u64,
    transactions: Seq<Transaction>,
) -> Seq<char> {
    sha256_hex(
        block_hash_input(
            previous_hash,
            nonce,
            (previous_number + 1) as u64,
            tx_root_of(transactions),
        ),
    )
}

/// A copy of a list of transactions.
pub fn clone_transactions(transactions: &Vec<Transaction>) -> (copy: Vec<Transaction>)
    ensures
        copy@ == transactions@,
{
    let copy = transactions.clone();
    proof {
        assert forall|i: int| 0 <= i < copy.len() implies copy@[i] == transactions@[i] by {
            assert(cloned::<Transaction>(transactions[i], copy[i]));
        }
        assert(copy@ =~= transactions@);
    }
    copy
}

impl Clone for Block {
    fn clone(&self) -> (copy: Self)
        ensures
            copy.hash == self.hash,
            copy.previous_hash == self.previous_hash,
            copy.number == self.number,
            copy.nonce == self.nonce,
            copy.tx_root == self.tx_root,
            copy.transactions@ == self.transactions@,
    {
        let transactions = clone_transactions(&self.transactions);
        Block {
            hash: self.hash.clone(),
            previous_hash: self.previous_hash.clone(),
            number: self.number,
            nonce: self.nonce,
            tx_root: self.tx_root.clone(),
            transactions,
        }
    }
}

impl Block {
    /// The block that follows block `previous_number` (whose hash is
    /// `previous_hash`), with the given nonce and transactions.
    pub fn new(
        previous_hash: String,
        previous_number: u64,
        nonce: u64,
        transactions: Vec<Transaction>,
    ) -> (block: Block)
        requires
            previous_number < u64::MAX,
        ensures
            is_block_for(block, previous_hash@, previous_number, nonce, transactions@),
            block.hash@.len() == 64,
            block.tx_root@.len() == 64,
            forall|i: int| 0 <= i < 64 ==> is_lower_hex(#[trigger] block.hash@[i]),
            forall|i: int| 0 <= i < 64 ==> is_lower_hex(#[trigger] block.tx_root@[i]),
    {
        let block_number: u64 = previous_number + 1;
        let tx_root = gen_tx_root(&transactions);
        let mut dig = previous_hash.clone();
        push_decimal(&mut dig, nonce);
        push_decimal(&mut dig, block_number);
        dig.append(tx_root.as_str());
        let hash = sha256_digest(dig.as_str());
        Block { hash, previous_hash, nonce, number: block_number, tx_root, transactions }
    }
}

/// The transactions waiting to be mined.
pub struct TXPool {
    transactions: Vec<Transaction>,
}

impl View for TXPool {
    type V = Seq<Transaction>;

    closed spec fn view(&self) -> Seq<Transaction> {
        self.transactions@
    }
}

impl TXPool {
    /// An empty pool.
    pub fn new() -> (pool: TXPool)
        ensures
            pool@ == Seq::<Transaction>::empty(),
    {
        TXPool { transactions: Vec::new() }
    }

    /// Adds a transaction at the end of the pool.
    pub fn insert_tx_into_pool(&mut self, tx: Transaction)
        ensures
            final(self)@ == old(self)@.push(tx),
    {
        self.transactions.push(tx);
    }

    /// The pending transactions, oldest first.
    pub fn transactions(&self) -> (txs: &Vec<Transaction>)
        ensures
            txs@ == self@,
    {
        &self.transactions
    }
}

} // verus!
