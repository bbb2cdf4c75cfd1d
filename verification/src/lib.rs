//! A minimal append-only ledger: blocks linked by their SHA-256 digests and
//! extended by a proof-of-work search, with the chain's linkage rules proved.

pub mod block;
pub mod chain;
mod clock;
pub mod hasher;
pub mod mining;
