# bet_chain

A small proof-of-work ledger node, written as a Verus-verified library
(`src/`) and a thin executable around it (`app/`).

- `src/models.rs` – transactions, blocks (`Block::new` links a block to its
  predecessor and hashes it) and the pool of pending transactions.
- `src/helpers.rs` – the transaction root of a block, the genesis block and
  chain set-up.
- `src/miner.rs` – the difficulty rule, mining over drawn nonces, and the
  check of a block received from a peer.
- `src/p2p.rs` – the peer list and the peer protocol (`connection`,
  `forward_block|…`, `receive_block|…`, `forward_transaction|…`,
  `receive_transaction|…`); blocks and transactions are stored only when
  they come from a known peer.
- `src/rpc.rs` – the RPC protocol (`method|data`) and the `send_tx` transfer.
- `src/storage.rs` – how numbers, hash lists, pool keys and blocks are laid
  out in the stores.
- `src/text.rs`, `src/decimal.rs`, `src/hashing.rs` – splitting and joining
  text, decimal numbers, SHA-256.

`app/` holds `main`, the sockets (tokio), the RocksDB stores and the JSON
encoding of blocks and transactions (serde).

RPC examples (port 6565):

```
echo 'send_tx|from:user1,to:user2,amount:100' | ncat localhost 6565
echo 'get_block_by_number|23' | ncat localhost 6565
echo 'get_balance_of|betty' | ncat localhost 6565
echo 'get_user_transactions|betty' | ncat localhost 6565
```
