//! Core of a small peer-to-peer replicated ledger: chain state machine with a
//! deterministic fork-choice rule, balance derivation, gossip/sync message
//! handling, and a recover-from-signature address scheme over secp256k1.
pub mod b256;
pub mod chain;
pub mod crypto;
pub mod node;
pub mod types;

pub use b256::B256;
pub use chain::{BlockAppendResult, Blocks};
pub use node::{Node, Outbound, WirePayload};
pub use crypto::{SecretKey, Signature};
pub use types::{Block, BlockData, Message, NodeInfo, SocketAddress, Transaction, TransactionData};
