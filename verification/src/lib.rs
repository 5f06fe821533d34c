//! A small proof-of-work ledger: transactions, blocks, mining, the peer
//! list, and the request formats spoken over the RPC and peer sockets.
pub mod decimal;
pub mod hashing;
pub mod miner;
pub mod helpers;
pub mod models;
pub mod p2p;
pub mod rpc;
pub mod storage;
pub mod text;
