//! A minimal proof-of-work blockchain: a chain of blocks linked by SHA-256
//! hashes, admitted only after a brute-force puzzle is solved, together with
//! a naive multi-node synchronization rule that resolves forks by chain
//! length.

pub mod chain;
pub mod clock;
pub mod codec;
pub mod digest;
pub mod node;

pub use chain::Block;
pub use chain::Blockchain;
pub use chain::Transaction;
pub use chain::GENESIS_PROOF;
pub use clock::now;
pub use node::Node;
