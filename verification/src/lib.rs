//! A single-writer ledger: blocks of value transfers, mined under a
//! proof-of-work target and appended to a chain that tracks which outputs
//! are still unspent.

pub mod block;
pub mod blockchain;
pub mod digest_set;
pub mod encoding;
pub mod hashable;
pub mod ledger_lemmas;
pub mod text;
pub mod transaction;

pub use crate::block::{check_difficulty, Block, BlockHash};
pub use crate::blockchain::{BlockChain, BlockValidationErr};
pub use crate::digest_set::DigestSet;
pub use crate::encoding::{difficulty_bytes_as_u128, u128_bytes, u32_bytes, u64_bytes};
pub use crate::hashable::Hashable;
pub use crate::transaction::{Address, Output, Transaction};
