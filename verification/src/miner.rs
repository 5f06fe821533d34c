//! Proof-of-work mining: a block is accepted once its hash starts with
//! four zeros.
use vstd::prelude::*;

use crate::helpers::tx_root_of;
use crate::models::{block_hash_for, clone_transactions, is_block_for, Block, Transaction};

verus! {

/// The number of leading `0` characters a mined block's hash must have.
pub const DIFFICULTY: usize = 4;

/// Whether `hash` starts with `DIFFICULTY` zeros.
pub open spec fn meets_difficulty(hash: Seq<char>) -> bool {
    &&& hash.len() >= DIFFICULTY
    &&& forall|i: int| 0 <= i < DIFFICULTY ==> #[trigger] hash[i] == '0'
}

/// Whether `hash` starts with `DIFFICULTY` zeros.
pub fn has_difficulty_prefix(hash: &String) -> (ok: bool)
    ensures
        ok == meets_difficulty(hash@),
{
    let text = hash.as_str();
    if text.unicode_len() < DIFFICULTY {
        return false;
    }
    let mut i: usize = 0;
    while i < DIFFICULTY
        invariant
            i <= DIFFICULTY,
            text@ == hash@,
            text@.len() >= DIFFICULTY,
            forall|j: int| 0 <= j < i ==> #[trigger] text@[j] == '0',
        decreases DIFFICULTY - i,
    {
        if text.get_char(i) != '0' {
            return false;
        }
        i = i + 1;
    }
    true
}

/// Calls `rand::random::<u64>()`, a draw from the thread-local generator;
/// nothing is stated of the value.
#[verifier::external_body]
fn random_nonce() -> u64 {
    rand::random::<u64>()
}

/// `count` nonces drawn at random, to be tried after nonce 0.
pub fn draw_nonces(count: usize) -> (nonces: Vec<u64>)
    ensures
        nonces.len() == count,
{
    let mut nonces: Vec<u64> = Vec::new();
    for i in 0..count
        invariant
            nonces.len() == i,
    {
        let nonce: u64 = random_nonce();
        nonces.push(nonce);
    }
    nonces
}

/// The nonces a miner tries, in order: 0, then the drawn ones.
pub open spec fn candidate_nonces(drawn: Seq<u64>) -> Seq<u64> {
    seq![0u64] + drawn
}

/// The candidates are nonce 0 followed by every drawn nonce, in order.
pub proof fn law_candidate_nonces(drawn: Seq<u64>)
    ensures
        candidate_nonces(drawn).len() == drawn.len() + 1,
        candidate_nonces(drawn)[0] == 0,
        forall|i: int| 0 <= i < drawn.len() ==> candidate_nonces(drawn)[i + 1] == #[trigger] drawn[i],
{
}

/// Whether the block that follows `previous` with `transactions` and
/// `nonce` meets the difficulty.
pub open spec fn nonce_fits(previous: Block, transactions: Seq<Transaction>, nonce: u64) -> bool {
    meets_difficulty(block_hash_for(previous.hash@, previous.number, nonce, transactions))
}

/// Mines the block that follows `previous_block` with `transactions`: it
/// tries nonce 0, then each of `nonces` in order, and returns the block of
/// the first one whose hash meets the difficulty, or `None` when none does.
pub fn mine_block(previous_block: &Block, transactions: &Vec<Transaction>, nonces: &Vec<u64>) -> (mined:
    Option<Block>)
    requires
        previous_block.number < u64::MAX,
    ensures
        match mined {
            Some(block) => {
                &&& meets_difficulty(block.hash@)
                &&& is_block_for(
                    block,
                    previous_block.hash@,
                    previous_block.number,
                    block.nonce,
                    transactions@,
                )
                &&& exists|k: int|
                    0 <= k < candidate_nonces(nonces@).len() && candidate_nonces(nonces@)[k]
                        == block.nonce && forall|j: int|
                        0 <= j < k ==> !nonce_fits(
                            *previous_block,
                            transactions@,
                            #[trigger] candidate_nonces(nonces@)[j],
                        )
            },
            None => forall|k: int|
                0 <= k < candidate_nonces(nonces@).len() ==> !nonce_fits(
                    *previous_block,
                    transactions@,
                    #[trigger] candidate_nonces(nonces@)[k],
                ),
        },
        mined is None ==> {
            &&& !meets_difficulty(
                block_hash_for(previous_block.hash@, previous_block.number, 0, transactions@),
            )
            &&& forall|i: int|
                0 <= i < nonces@.len() ==> !meets_difficulty(
                    block_hash_for(
                        previous_block.hash@,
                        previous_block.number,
                        #[trigger] nonces@[i],
                        transactions@,
                    ),
                )
        },
        mined matches Some(block) ==> (block.nonce == 0 || exists|i: int|
            0 <= i < nonces@.len() && #[trigger] nonces@[i] == block.nonce),
{
    proof {
        law_candidate_nonces(nonces@);
    }
    let ghost cands = candidate_nonces(nonces@);
    let first = Block::new(
        previous_block.hash.clone(),
        previous_block.number,
        0,
        clone_transactions(transactions),
    );
    if has_difficulty_prefix(&first.hash) {
        proof {
            assert(cands[0] == 0);
        }
        return Some(first);
    }
    let mut i: usize = 0;
    while i < nonces.len()
        invariant
            previous_block.number < u64::MAX,
            i <= nonces.len(),
            cands == candidate_nonces(nonces@),
            forall|j: int| 0 <= j <= i ==> !nonce_fits(*previous_block, transactions@, #[trigger] cands[j]),
        decreases nonces.len() - i,
    {
        let nonce = nonces[i];
        let block = Block::new(
            previous_block.hash.clone(),
            previous_block.number,
            nonce,
            clone_transactions(transactions),
        );
        proof {
            assert(cands[i + 1] == nonce);
        }
        if has_difficulty_prefix(&block.hash) {
            return Some(block);
        }
        i = i + 1;
    }
    None
}

/// A block is sound on its own: it follows some block, its transaction
/// root and hash are the ones its fields give, and its hash meets the
/// difficulty.
pub open spec fn block_is_sound(block: Block) -> bool {
    &&& block.number >= 1
    &&& block.tx_root@ == tx_root_of(block.transactions@)
    &&& block.hash@ == block_hash_for(
        block.previous_hash@,
        (block.number - 1) as u64,
        block.nonce,
        block.transactions@,
    )
    &&& meets_difficulty(block.hash@)
}

/// A block is sound exactly when it is the block that mining the block
/// before it would give with its own nonce and transactions: its root is
/// the digest of its transactions, its hash covers its fields, and the hash
/// meets the difficulty.
pub proof fn law_sound_block_is_mined_block(block: Block)
    ensures
        block_is_sound(block) <==> {
            &&& block.number >= 1
            &&& is_block_for(
                block,
                block.previous_hash@,
                (block.number - 1) as u64,
                block.nonce,
                block.transactions@,
            )
            &&& meets_difficulty(block.hash@)
        },
{
}

/// Checks a block shared by a peer before it is stored: its number, its
/// transaction root, its hash and the difficulty.
pub fn validate_block(block: &Block) -> (sound: bool)
    ensures
        sound == block_is_sound(*block),
        sound ==> {
            &&& block.number >= 1
            &&& block.tx_root@ == tx_root_of(block.transactions@)
            &&& is_block_for(
                *block,
                block.previous_hash@,
                (block.number - 1) as u64,
                block.nonce,
                block.transactions@,
            )
            &&& meets_difficulty(block.hash@)
        },
        (block.number >= 1 && is_block_for(
            *block,
            block.previous_hash@,
            (block.number - 1) as u64,
            block.nonce,
            block.transactions@,
        ) && meets_difficulty(block.hash@)) ==> sound,
{
    if block.number == 0 {
        return false;
    }
    let expected = Block::new(
        block.previous_hash.clone(),
        block.number - 1,
        block.nonce,
        clone_transactions(&block.transactions),
    );
    expected.tx_root == block.tx_root && expected.hash == block.hash && has_difficulty_prefix(
        &block.hash,
    )
}

} // verus!
