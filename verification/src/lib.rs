//! A minimal proof-of-work ledger: hash-linked blocks carrying signed
//! transactions, an unspent-output index derived from the chain, a miner
//! that searches nonces against a leading-zero hash target, and the pure
//! decision logic of a gossiping node.

pub mod accounting;
pub mod block;
pub mod clock;
pub mod crypto;
pub mod encoding;
pub mod fractal;
pub mod chain;
pub mod injective;
pub mod lcg;
pub mod miner;
pub mod node;
pub mod transaction;
pub mod utxo;
pub mod wallet;

pub use block::Block;
pub use chain::Blockchain;
pub use utxo::Utxo;
pub use fractal::{FractalData, Julia, Mandelbrot, Sierpinski};
pub use lcg::Lcg;
pub use miner::{check_difficulty, Miner};
pub use node::{on_peer_event, ClientMessage, Node, NodeAction, P2pMessage, PeerEvent, SubmitError};
pub use transaction::{Transaction, TxInput, TxOutput};
pub use wallet::Wallet;
